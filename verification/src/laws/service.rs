//! What stands around the chain: contexts, responses, selectors, keys and the table of blocks.

use crate::checkpoint_sync;
use crate::containers::block::SignedBlockModel;
use crate::containers::req_resp;
use crate::containers::state::StateModel;
use crate::containers::validator;
use crate::containers::validator::ValidatorIndex;
use crate::inspect;
use crate::networking::codec::ResponseFrame;
use crate::networking::events::EventModel;
use crate::networking::gossipsub::context;
use crate::networking::gossipsub::context::{
    CacheModel, GossipContext, NoopGossipContext, StateGossipContext,
};
use crate::networking::hex;
use crate::networking::node_key;
use crate::networking::node_key::IdentityModel;
use crate::networking::p2p;
use crate::networking::p2p::ServiceModel;
use crate::networking::reqresp_messages;
use crate::networking::reqresp_messages::LeanSupportedProtocol;
use crate::numbers;
use crate::slot::Slot;
use crate::storage;
use crate::storage::TableModel;
use crate::text;
use crate::types::bytes::Bytes32;
use crate::types::uint::Uint64;
use vstd::prelude::*;

verus! {

/// A state tells its latest finalized slot; the slot in progress is the clock's, or that of the
/// state where there is no clock. Without a state no slot is known and every root may be.
pub proof fn law_contexts(c: StateGossipContext, n: NoopGossipContext, root: Bytes32)
    ensures
        GossipContext::finalized(&c) == Some(c@.state.latest_finalized.slot),
        c@.slot_clock matches Some(now) ==> GossipContext::current(&c) == Some(Slot(Uint64(now))),
        c@.slot_clock is None ==> GossipContext::current(&c) == Some(c@.state.slot),
        GossipContext::knows(&c, root) == c@.knows(root),
        GossipContext::finalized(&n) is None,
        GossipContext::current(&n) is None,
        GossipContext::knows(&n, root),
{
}

/// The roots of a state are taken in anew when its slot or that of its header has changed, and
/// stay otherwise.
pub proof fn law_recent_roots_follow_the_state(c: CacheModel, s: StateModel)
    ensures
        ({
            let same = c.latest_header_slot == s.latest_block_header.slot.num() && c.state_slot
                == s.slot.num();
            let next = c.refreshed(s);
            &&& same ==> next == c
            &&& !same ==> next.entries == context::entries_for(s)
            &&& next.latest_header_slot == s.latest_block_header.slot.num()
            &&& next.state_slot == s.slot.num()
        }),
{
}

proof fn lemma_single_events(
    peer: Seq<char>,
    a: ResponseFrame,
    b: ResponseFrame,
    max: usize,
    k: nat,
)
    requires
        k <= a.payloads.len(),
        k <= b.payloads.len(),
        a.protocol == b.protocol,
        forall|i: int| 0 <= i < k ==> #[trigger] a.payloads[i] == b.payloads[i],
    ensures
        p2p::single_events(peer, a, max, k) == p2p::single_events(peer, b, max, k),
    decreases k,
{
    if k > 0 {
        lemma_single_events(peer, a, b, max, (k - 1) as nat);
        assert(a.payloads[k - 1] == b.payloads[k - 1]);
    }
}

/// The payloads of an answer are told one by one: one that is too large costs 25, any other is
/// passed on and earns 1. An answer without payloads tells nothing.
pub proof fn law_single_responses(
    m: ServiceModel,
    peer: Seq<char>,
    r: ResponseFrame,
    last: Seq<u8>,
)
    requires
        LeanSupportedProtocol::of_id(r.protocol) != Some(LeanSupportedProtocol::BlocksByRangeV1),
    ensures
        ({
            let longer = ResponseFrame { payloads: r.payloads.push(last), ..r };
            let before = p2p::response_events(m, peer, r);
            let told = p2p::response_events(m, peer, longer);
            &&& last.len() > m.max_reqresp_bytes ==> told == before.push(
                EventModel::PeerScored { peer_id: peer, score: -25i64 },
            )
            &&& last.len() <= m.max_reqresp_bytes ==> told == before.push(
                EventModel::ReqRespResponse { peer_id: peer, protocol: r.protocol, payload: last },
            ).push(EventModel::PeerScored { peer_id: peer, score: 1 })
        }),
        r.payloads.len() == 0 ==> p2p::response_events(m, peer, r).len() == 0,
{
    let longer = ResponseFrame { payloads: r.payloads.push(last), ..r };
    let n = r.payloads.len();
    let max = m.max_reqresp_bytes;
    lemma_single_events(peer, r, longer, max, n);
    let before = p2p::single_events(peer, r, max, n);
    assert(longer.payloads[n as int] == last);
    assert(p2p::single_events(peer, longer, max, n) == before);
    let told = p2p::single_events(peer, longer, max, n + 1);
    if last.len() > max {
        assert(told =~= before.push(EventModel::PeerScored { peer_id: peer, score: -25i64 }));
    } else {
        assert(told =~= before.push(
            EventModel::ReqRespResponse { peer_id: peer, protocol: r.protocol, payload: last },
        ).push(EventModel::PeerScored { peer_id: peer, score: 1 }));
    }
}

/// `places` lists, in their order, the payloads that hold a block to pass on.
pub open spec fn block_places(
    payloads: Seq<Seq<u8>>,
    max: usize,
    blocks: Seq<SignedBlockModel>,
    places: Seq<int>,
) -> bool {
    &&& places.len() == blocks.len()
    &&& forall|i: int|
        0 <= i < places.len() ==> {
            &&& 0 <= #[trigger] places[i] < payloads.len()
            &&& payloads[places[i]].len() <= max
            &&& reqresp_messages::range_response_decoded(payloads[places[i]]) == Ok::<
                SignedBlockModel,
                Seq<char>,
            >(blocks[i])
        }
    &&& forall|i: int, j: int| 0 <= i < j < places.len() ==> #[trigger] places[i]
        < #[trigger] places[j]
    &&& forall|k: int|
        0 <= k < payloads.len() && (#[trigger] payloads[k]).len() <= max && (
        reqresp_messages::range_response_decoded(payloads[k]) matches Ok(b) && b.encodable())
            ==> places.contains(k)
}

proof fn lemma_range_blocks(payloads: Seq<Seq<u8>>, max: usize, k: nat) -> (places: Seq<int>)
    requires
        k <= payloads.len(),
    ensures
        block_places(payloads.take(k as int), max, p2p::range_blocks(payloads, max, k), places),
    decreases k,
{
    if k == 0 {
        Seq::empty()
    } else {
        let short = lemma_range_blocks(payloads, max, (k - 1) as nat);
        let before = p2p::range_blocks(payloads, max, (k - 1) as nat);
        let all = p2p::range_blocks(payloads, max, k);
        let old = payloads.take(k - 1);
        let now = payloads.take(k as int);
        let places = if all == before {
            short
        } else {
            short.push(k - 1)
        };
        assert forall|i: int| 0 <= i < places.len() implies {
            &&& 0 <= #[trigger] places[i] < now.len()
            &&& now[places[i]].len() <= max
            &&& reqresp_messages::range_response_decoded(now[places[i]]) == Ok::<
                SignedBlockModel,
                Seq<char>,
            >(all[i])
        } by {
            if i < short.len() {
                assert(places[i] == short[i]);
                assert(old[short[i]] == now[short[i]]);
            }
        }
        assert forall|j: int|
            0 <= j < now.len() && (#[trigger] now[j]).len() <= max && (
            reqresp_messages::range_response_decoded(now[j]) matches Ok(b)
                && b.encodable()) implies places.contains(j) by {
            if j < k - 1 {
                assert(old[j] == now[j]);
                assert(short.contains(j));
                let i = choose|i: int| 0 <= i < short.len() && short[i] == j;
                assert(places[i] == j);
            } else {
                assert(all.len() == before.len() + 1);
                assert(places[places.len() - 1] == j);
            }
        }
        places
    }
}

proof fn lemma_oversize(peer: Seq<char>, payloads: Seq<Seq<u8>>, max: usize, k: nat, i: int)
    requires
        k <= payloads.len(),
    ensures
        p2p::oversize_events(peer, payloads, max, k).len() == large_payloads(
            payloads.take(k as int),
            max,
        ).len(),
        large_payloads(payloads.take(k as int), max).finite(),
        0 <= i < p2p::oversize_events(peer, payloads, max, k).len() ==> p2p::oversize_events(
            peer,
            payloads,
            max,
            k,
        )[i] == (EventModel::PeerScored { peer_id: peer, score: -25i64 }),
    decreases k,
{
    let now = payloads.take(k as int);
    if k == 0 {
        assert(large_payloads(now, max) =~= Set::empty());
    } else {
        lemma_oversize(peer, payloads, max, (k - 1) as nat, i);
        let old = payloads.take(k - 1);
        assert(now[k - 1] == payloads[k - 1]);
        assert forall|j: int| 0 <= j < k - 1 implies #[trigger] old[j] == now[j] by {}
        if payloads[k - 1].len() > max {
            assert(large_payloads(now, max) =~= large_payloads(old, max).insert(k - 1));
        } else {
            assert(large_payloads(now, max) =~= large_payloads(old, max));
        }
    }
}

/// The places of the payloads that are too large.
pub open spec fn large_payloads(payloads: Seq<Seq<u8>>, max: usize) -> Set<int> {
    Set::new(|i: int| 0 <= i < payloads.len() && payloads[i].len() > max)
}

/// An answer by slot range is told as a whole. Each payload that is too large costs 25. The blocks
/// of the others, at most 1024 and in their order, are passed on as one list, which earns 1.
pub proof fn law_range_responses(
    m: ServiceModel,
    peer: Seq<char>,
    r: ResponseFrame,
    i: int,
) -> (found: (Seq<SignedBlockModel>, Seq<int>))
    requires
        LeanSupportedProtocol::of_id(r.protocol) == Some(LeanSupportedProtocol::BlocksByRangeV1),
    ensures
        block_places(r.payloads, m.max_reqresp_bytes, found.0, found.1),
        ({
            let told = p2p::response_events(m, peer, r);
            let faults = large_payloads(r.payloads, m.max_reqresp_bytes).len();
            let passed = if found.0.len() <= 1_024 {
                found.0
            } else {
                found.0.take(1_024)
            };
            &&& told.len() == faults + 2
            &&& 0 <= i < faults ==> told[i] == (EventModel::PeerScored {
                peer_id: peer,
                score: -25i64,
            })
            &&& told[faults as int] == (EventModel::ReqRespResponse {
                peer_id: peer,
                protocol: r.protocol,
                payload: req_resp::listed_bytes::<
                    crate::containers::block::SignedBlockWithAttestation,
                >(passed),
            })
            &&& told[faults as int + 1] == (EventModel::PeerScored { peer_id: peer, score: 1 })
        }),
{
    let n = r.payloads.len();
    let max = m.max_reqresp_bytes;
    assert(r.payloads.take(n as int) =~= r.payloads);
    let places = lemma_range_blocks(r.payloads, max, n);
    lemma_oversize(peer, r.payloads, max, n, i);
    (p2p::range_blocks(r.payloads, max, n), places)
}

/// A selector names a slot by at most 18 decimal digits, with or without `slot:` in front.
pub proof fn law_slot_selectors(digits: Seq<char>, arg: Seq<char>)
    requires
        arg == "slot:"@ + digits || (arg == digits && (digits.len() > 0 ==> digits[0] != 's')),
    ensures
        inspect::slot_of(arg) matches Some(n) ==> {
            &&& 0 < digits.len()
            &&& forall|i: int| 0 <= i < digits.len() ==> '0' <= #[trigger] digits[i] <= '9'
            &&& numbers::unsigned_read(digits, u64::MAX as nat) == Ok::<nat, numbers::NumberFault>(
                n as nat,
            )
            &&& vstd::utf8::encode_utf8(digits).len() <= 18
        },
        ({
            &&& 0 < digits.len()
            &&& vstd::utf8::encode_utf8(digits).len() <= 18
            &&& forall|i: int| 0 <= i < digits.len() ==> '0' <= #[trigger] digits[i] <= '9'
            &&& numbers::unsigned_read(digits, u64::MAX as nat) is Ok
        }) ==> inspect::slot_of(arg) is Some,
{
    reveal_strlit("slot:");
    let p = "slot:"@;
    assert(p.len() == 5 && p[0] == 's');
    if arg == p + digits {
        assert(arg.take(5) =~= p);
        assert(arg.skip(5) =~= digits);
    } else if arg.len() >= 5 {
        assert(arg.take(5)[0] == arg[0]);
    }
    assert(inspect::without_slot_prefix(arg) == digits);
    if inspect::all_digits(digits) {
        assert forall|i: int| 0 <= i < digits.len() implies '0' <= #[trigger] digits[i] <= '9' by {
            lemma_digit(digits[i]);
        }
    }
    if forall|i: int| 0 <= i < digits.len() ==> '0' <= #[trigger] digits[i] <= '9' {
        assert forall|i: int| 0 <= i < digits.len() implies 48 <= #[trigger] digits[i] as u32
            <= 57 by {
            lemma_digit(digits[i]);
        }
    }
}

proof fn lemma_digit(c: char)
    ensures
        48 <= c as u32 <= 57 <==> '0' <= c <= '9',
{
}

proof fn lemma_strict(b: Seq<u8>, k: nat, i: int)
    requires
        2 * k <= b.len(),
    ensures
        inspect::strict_bytes(b, k) matches Some(v) ==> {
            &&& v.len() == k
            &&& 0 <= i < k ==> hex::hex_digit(b[2 * i]) is Some && hex::hex_digit(b[2 * i + 1])
                is Some && v[i] == 16 * hex::hex_digit(b[2 * i])->Some_0 + hex::hex_digit(
                b[2 * i + 1],
            )->Some_0
        },
    decreases k,
{
    if k > 0 {
        lemma_strict(b, (k - 1) as nat, i);
        lemma_strict(b, (k - 1) as nat, 0);
    }
}

/// A selector names a root by 64 hexadecimal digits, two for each byte, with or without `0x` in
/// front.
pub proof fn law_root_selectors(s: Seq<char>, i: int)
    requires
        0 <= i < 32,
    ensures
        ({
            let b = vstd::utf8::encode_utf8(hex::without_hex_prefix(s));
            &&& b.len() != 64 ==> inspect::root_of(s) is Err
            &&& inspect::root_of(s) matches Ok(root) ==> {
                &&& hex::hex_digit(b[2 * i]) matches Some(high)
                &&& hex::hex_digit(b[2 * i + 1]) matches Some(low)
                &&& root@[i] == 16 * high + low
            }
        }),
{
    let b = vstd::utf8::encode_utf8(hex::without_hex_prefix(s));
    if b.len() == 64 {
        lemma_strict(b, 32, i);
        lemma_strict(b, 32, 0);
        if let Some(v) = inspect::strict_bytes(b, 32) {
            crate::laws::layout::lemma_bytes_of(v);
        }
    }
}

/// The key file decides on the identity: a key of 32 bytes that gives a peer is the identity;
/// without a file, and with one that cannot be read or holds no key, the identity is ephemeral.
pub proof fn law_identities(raw: Seq<char>, fault: Seq<char>)
    ensures
        node_key::identity_of(None) == (IdentityModel::Ephemeral { fault: None }),
        node_key::identity_of(Some(Err(fault))) == (IdentityModel::Ephemeral {
            fault: Some(fault),
        }),
        hex::key_of(raw) is Err ==> node_key::identity_of(Some(Ok(raw))) is Ephemeral,
        hex::key_of(raw) matches Ok(key) ==> {
            &&& node_key::secret_peer_text(key) matches Ok(peer) ==> node_key::identity_of(
                Some(Ok(raw)),
            ) == (IdentityModel::Stored { key, peer })
            &&& node_key::secret_peer_text(key) is Err ==> node_key::identity_of(Some(Ok(raw)))
                is Ephemeral
        },
{
}

/// An imported block can be read from the table, which keeps the others; it is the head, and the
/// finalized root is the one that came with it.
pub proof fn law_imports_are_stored(
    m: TableModel,
    root: Bytes32,
    signed: SignedBlockModel,
    finalized: Bytes32,
    other: Bytes32,
)
    ensures
        ({
            let t = storage::with_import(m, root, signed, finalized);
            &&& t.blocks.contains_key(root) && t.blocks[root] == signed
            &&& other != root ==> t.blocks.contains_key(other) == m.blocks.contains_key(other) && (
            m.blocks.contains_key(other) ==> t.blocks[other] == m.blocks[other])
            &&& t.head == Some(root)
            &&& t.finalized == Some(finalized)
        }),
{
}

/// The slots take turns with the validators: the proposer of a slot is the one whose index is
/// what remains of the slot after whole rounds, so each slot has exactly one.
pub proof fn law_one_proposer(a: ValidatorIndex, b: ValidatorIndex, s: Slot, count: u64)
    ensures
        count == 0 ==> !validator::proposes_at(a, s, count),
        validator::proposes_at(a, s, count) ==> a.0.0 < count && exists|rounds: int|
            #[trigger] (rounds * count) + a.0.0 == s.num(),
        validator::proposes_at(a, s, count) && validator::proposes_at(b, s, count) ==> a == b,
        count > 0 && s.num() < count ==> (validator::proposes_at(a, s, count) <==> a.0.0
            == s.num()),
        forall|t: Slot|
            t.num() == s.num() + count ==> (#[trigger] validator::proposes_at(a, t, count)
                <==> validator::proposes_at(a, s, count)),
{
    if count > 0 {
        let n = s.num();
        let c = count as int;
        vstd::arithmetic::div_mod::lemma_fundamental_div_mod(n, c);
        assert((n / c) * c == c * (n / c)) by (nonlinear_arith);
        assert forall|t: Slot| t.num() == s.num() + count implies (
        #[trigger] validator::proposes_at(a, t, count) <==> validator::proposes_at(
            a,
            s,
            count,
        )) by {
            vstd::arithmetic::div_mod::lemma_mod_add_multiples_vanish(n, c);
        }
        if n < c {
            vstd::arithmetic::div_mod::lemma_small_mod(n as nat, c as nat);
        }
    }
}

/// The finalized state is found below the address of the provider, with exactly one slash between
/// them; there is no address without a provider.
pub proof fn law_checkpoint_address(base: Seq<char>)
    ensures
        text::trimmed(base).len() == 0 <==> checkpoint_sync::state_url(base) is Err,
        checkpoint_sync::state_url(base) matches Ok(url) ==> exists|host: Seq<char>, n: nat|
            {
                &&& #[trigger] slashes(host, n) == text::trimmed(base)
                &&& host.len() > 0 ==> host.last() != '/'
                &&& url == host + "/lean/v0/states/finalized"@
            },
{
    let t = text::trimmed(base);
    let n = lemma_trailing(t);
    assert(slashes(checkpoint_sync::without_trailing(t, '/'), n) == t);
}

/// A text with slashes behind it.
pub open spec fn slashes(host: Seq<char>, n: nat) -> Seq<char> {
    host + Seq::new(n, |i: int| '/')
}

proof fn lemma_trailing(s: Seq<char>) -> (n: nat)
    ensures
        slashes(checkpoint_sync::without_trailing(s, '/'), n) == s,
        ({
            let host = checkpoint_sync::without_trailing(s, '/');
            host.len() > 0 ==> host.last() != '/'
        }),
    decreases s.len(),
{
    if s.len() > 0 && s.last() == '/' {
        let n = lemma_trailing(s.drop_last());
        let host = checkpoint_sync::without_trailing(s, '/');
        assert(slashes(host, n + 1) =~= slashes(host, n).push('/'));
        assert(s =~= s.drop_last().push('/'));
        n + 1
    } else {
        assert(slashes(s, 0) =~= s);
        0
    }
}

} // verus!
