//! The node: what it does with gossip, and when votes count.

use vstd::prelude::*;
use vstd::string::StringExecFns;

use crate::app::settings::{NodeSettings, SettingsModel};
use crate::containers::attestation::{
    Attestation, AttestationData, AttestationModel, VALIDATOR_REGISTRY_LIMIT,
};
use crate::containers::block;
use crate::containers::block::{SignedBlockModel, SignedBlockWithAttestation};
use crate::containers::checkpoint::Checkpoint;
use crate::containers::pq_verifier::PqSignatureVerifier;
use crate::containers::state;
use crate::containers::state::{State, StateModel};
use crate::fork_choice;
use crate::fork_choice::{ForkChoiceModel, ForkChoiceStore};
use crate::networking::discovery;
use crate::networking::gossipsub::lean::message::{LeanGossipsubMessage, MessageModel};
use crate::networking::peer_manager;
use crate::networking::runtime;
use crate::slot::{
    ACCEPTANCE_INTERVAL_INDEX, INTERVALS_PER_SLOT, SAFE_TARGET_INTERVAL_INDEX, SLOT_DURATION_SECS,
};
use crate::ssz;
use crate::storage;
use crate::storage::BlockTable;
use crate::text;
use crate::types::bitlist::BitList;
use crate::types::bytes::Bytes32;

verus! {

/// Where a node finds its files, and what the command line changes of its settings.
#[derive(Clone, Debug)]
pub struct NodeConfig {
    /// Configuration file.
    pub config_path: String,
    /// Data directory.
    pub data_dir: String,
    /// Where to fetch a finalized state from.
    pub checkpoint_sync_url: Option<String>,
    /// Address to listen on.
    pub listen_addr: Option<String>,
    /// Further bootnodes.
    pub bootnodes: Option<Vec<String>>,
    /// Port of the metrics server.
    pub metrics_port: Option<u16>,
    /// Port of the HTTP server.
    pub api_port: Option<u16>,
    /// File with the node's key.
    pub node_key_path: Option<String>,
    /// File that assigns validators to nodes.
    pub validators_path: Option<String>,
    /// Aggregate attestations.
    pub is_aggregator: Option<bool>,
    /// Number of attestation subnets.
    pub attestation_committee_count: Option<u64>,
    /// Directory with the validator keys.
    pub validator_keys_path: Option<String>,
    /// Name of the node.
    pub node_id: Option<String>,
    /// Genesis time to take in place of the configured one.
    pub genesis_time_override: Option<u64>,
}

/// The value of a [`NodeConfig`].
#[verifier::ext_equal]
pub struct NodeConfigModel {
    pub config_path: Seq<char>,
    pub data_dir: Seq<char>,
    pub checkpoint_sync_url: Option<Seq<char>>,
    pub listen_addr: Option<Seq<char>>,
    pub bootnodes: Option<Seq<Seq<char>>>,
    pub metrics_port: Option<u16>,
    pub api_port: Option<u16>,
    pub node_key_path: Option<Seq<char>>,
    pub validators_path: Option<Seq<char>>,
    pub is_aggregator: Option<bool>,
    pub attestation_committee_count: Option<u64>,
    pub validator_keys_path: Option<Seq<char>>,
    pub node_id: Option<Seq<char>>,
    pub genesis_time_override: Option<u64>,
}

/// A list of names, if there is one.
pub open spec fn optional_names(v: Option<Vec<String>>) -> Option<Seq<Seq<char>>> {
    match v {
        Some(v) => Some(peer_manager::names(v@)),
        None => None,
    }
}

impl View for NodeConfig {
    type V = NodeConfigModel;

    open spec fn view(&self) -> NodeConfigModel {
        NodeConfigModel {
            config_path: self.config_path@,
            data_dir: self.data_dir@,
            checkpoint_sync_url: discovery::option_text(self.checkpoint_sync_url),
            listen_addr: discovery::option_text(self.listen_addr),
            bootnodes: optional_names(self.bootnodes),
            metrics_port: self.metrics_port,
            api_port: self.api_port,
            node_key_path: discovery::option_text(self.node_key_path),
            validators_path: discovery::option_text(self.validators_path),
            is_aggregator: self.is_aggregator,
            attestation_committee_count: self.attestation_committee_count,
            validator_keys_path: discovery::option_text(self.validator_keys_path),
            node_id: discovery::option_text(self.node_id),
            genesis_time_override: self.genesis_time_override,
        }
    }
}

/// A value, or the one before where there is none.
pub open spec fn replaced<T>(v: Option<T>, before: T) -> T {
    match v {
        Some(x) => x,
        None => before,
    }
}

/// An optional value, or the one before where there is none.
pub open spec fn replaced_option<T>(v: Option<T>, before: Option<T>) -> Option<T> {
    match v {
        Some(x) => Some(x),
        None => before,
    }
}

/// The settings as the command line changes them; `index` is the validator that it
/// assigns to the node. Bootnodes are added, all else is replaced.
pub open spec fn overridden(s: SettingsModel, c: NodeConfigModel, index: Option<u64>) -> SettingsModel {
    SettingsModel {
        checkpoint_sync_url: replaced_option(c.checkpoint_sync_url, s.checkpoint_sync_url),
        listen_addr: replaced(c.listen_addr, s.listen_addr),
        bootnodes: match c.bootnodes {
            Some(b) => s.bootnodes + b,
            None => s.bootnodes,
        },
        metrics_port: replaced(c.metrics_port, s.metrics_port),
        http_port: replaced(c.api_port, s.http_port),
        node_key_path: replaced_option(c.node_key_path, s.node_key_path),
        is_aggregator: replaced(c.is_aggregator, s.is_aggregator),
        attestation_committee_count: replaced(
            c.attestation_committee_count,
            s.attestation_committee_count,
        ),
        metrics_node_name: replaced_option(c.node_id, s.metrics_node_name),
        local_validator_index: replaced(index, s.local_validator_index),
        ..s
    }
}

impl NodeSettings {
    /// Follows the command line, which may assign a validator to the node.
    pub fn override_with(&mut self, config: &NodeConfig, index: Option<u64>)
        ensures
            final(self)@ == overridden(old(self)@, config@, index),
    {
        if let Some(url) = &config.checkpoint_sync_url {
            self.checkpoint_sync_url = Some(url.clone());
        }
        if let Some(a) = &config.listen_addr {
            self.listen_addr = a.clone();
        }
        if let Some(b) = &config.bootnodes {
            let ghost before = self.bootnodes@;
            let mut more = runtime::copy_names(b);
            let ghost added = more@;
            self.bootnodes.append(&mut more);
            assert(peer_manager::names(self.bootnodes@) =~= peer_manager::names(before)
                + peer_manager::names(added));
        }
        if let Some(p) = config.metrics_port {
            self.metrics_port = p;
        }
        if let Some(p) = config.api_port {
            self.http_port = p;
        }
        if let Some(p) = &config.node_key_path {
            self.node_key_path = Some(p.clone());
        }
        if let Some(b) = config.is_aggregator {
            self.is_aggregator = b;
        }
        if let Some(n) = config.attestation_committee_count {
            self.attestation_committee_count = n;
        }
        if let Some(n) = &config.node_id {
            self.metrics_node_name = Some(n.clone());
        }
        if let Some(i) = index {
            self.local_validator_index = i;
        }
    }

    /// The address and port that the metrics server binds.
    pub fn metrics_bind(&self) -> (r: String)
        ensures
            r@ == self.metrics_address@ + ":"@ + text::decimal(self.metrics_port as nat),
    {
        let mut s: String = self.metrics_address.clone();
        s.append(":");
        s.append(text::decimal_string(self.metrics_port as u64).as_str());
        s
    }
}

/// Bits that are set in one of two lists.
pub open spec fn merged(a: Seq<bool>, b: Seq<bool>) -> Seq<bool> {
    Seq::new(
        if a.len() >= b.len() {
            a.len()
        } else {
            b.len()
        },
        |i: int| (i < a.len() && a[i]) || (i < b.len() && b[i]),
    )
}

/// Sets in `dst` the bits that are set in `src`.
pub fn merge_aggregation_bits(
    dst: &mut BitList<VALIDATOR_REGISTRY_LIMIT>,
    src: &BitList<VALIDATOR_REGISTRY_LIMIT>,
)
    ensures
        final(dst)@ == merged(old(dst)@, src@),
{
    let ghost before = dst@;
    let n: usize = dst.bits.len();
    let mut i: usize = 0;
    while i < src.bits.len()
        invariant
            i <= src@.len(),
            n == before.len(),
            dst@ == merged(before, src@.take(i as int)),
        decreases src@.len() - i,
    {
        if i < dst.bits.len() {
            if src.bits[i] {
                dst.bits.set(i, true);
            }
        } else {
            dst.bits.push(src.bits[i]);
        }
        assert(dst@ =~= merged(before, src@.take(i + 1)));
        i = i + 1;
    }
    assert(src@.take(src@.len() as int) =~= src@);
}

/// How many of the first `k` bits are set.
pub open spec fn set_bits(bits: Seq<bool>, k: nat) -> nat
    decreases k,
{
    if k == 0 {
        0
    } else {
        set_bits(bits, (k - 1) as nat) + if bits[k - 1] {
            1nat
        } else {
            0
        }
    }
}

/// How many participants an attestation has.
pub open spec fn participants(a: AttestationModel) -> nat {
    set_bits(a.aggregation_bits, a.aggregation_bits.len())
}

/// Counts the set bits.
pub fn participant_count(bits: &BitList<VALIDATOR_REGISTRY_LIMIT>) -> (r: usize)
    ensures
        r == set_bits(bits@, bits@.len()),
{
    let mut count: usize = 0;
    let mut i: usize = 0;
    while i < bits.bits.len()
        invariant
            i <= bits@.len(),
            count <= i,
            count == set_bits(bits@, i as nat),
        decreases bits@.len() - i,
    {
        if bits.bits[i] {
            count = count + 1;
        }
        i = i + 1;
    }
    count
}

/// The place at or after `from` of the attestation whose data has a given root.
pub open spec fn place_of(groups: Seq<AttestationModel>, root: Bytes32, from: nat) -> nat
    decreases groups.len() - from,
{
    if from >= groups.len() {
        groups.len()
    } else if groups[from as int].data.root_value() == root {
        from
    } else {
        place_of(groups, root, from + 1)
    }
}

/// The groups with one more attestation: it joins the group of its data, or opens
/// one.
pub open spec fn joined_by(groups: Seq<AttestationModel>, a: AttestationModel) -> Seq<
    AttestationModel,
> {
    let p = place_of(groups, a.data.root_value(), 0);
    if p < groups.len() {
        groups.update(
            p as int,
            AttestationModel {
                aggregation_bits: merged(groups[p as int].aggregation_bits, a.aggregation_bits),
                ..groups[p as int]
            },
        )
    } else {
        groups.push(a)
    }
}

/// The first `k` attestations, grouped by their data.
pub open spec fn grouped(s: Seq<AttestationModel>, k: nat) -> Seq<AttestationModel>
    decreases k,
{
    if k == 0 {
        Seq::empty()
    } else {
        joined_by(grouped(s, (k - 1) as nat), s[k - 1])
    }
}

/// The place before which more or as many participants stand.
pub open spec fn rank_of(sorted: Seq<AttestationModel>, count: nat, from: nat) -> nat
    decreases sorted.len() - from,
{
    if from >= sorted.len() {
        sorted.len()
    } else if participants(sorted[from as int]) < count {
        from
    } else {
        rank_of(sorted, count, from + 1)
    }
}

/// The first `k` groups by descending number of participants. Groups with as many
/// participants keep their order.
pub open spec fn ranked(groups: Seq<AttestationModel>, k: nat) -> Seq<AttestationModel>
    decreases k,
{
    if k == 0 {
        Seq::empty()
    } else {
        let before = ranked(groups, (k - 1) as nat);
        before.insert(rank_of(before, participants(groups[k - 1]), 0) as int, groups[k - 1])
    }
}

/// Attestations merged by their data, by descending number of participants.
pub open spec fn aggregated(s: Seq<AttestationModel>) -> Seq<AttestationModel> {
    let groups = grouped(s, s.len());
    ranked(groups, groups.len())
}

pub proof fn lemma_place(groups: Seq<AttestationModel>, root: Bytes32, from: nat)
    requires
        from <= groups.len(),
    ensures
        from <= place_of(groups, root, from) <= groups.len(),
        place_of(groups, root, from) < groups.len() ==> groups[place_of(
            groups,
            root,
            from,
        ) as int].data.root_value() == root,
        forall|j: int|
            from <= j < place_of(groups, root, from) ==> (#[trigger] groups[j]).data.root_value()
                != root,
    decreases groups.len() - from,
{
    if from < groups.len() && groups[from as int].data.root_value() != root {
        lemma_place(groups, root, from + 1);
    }
}

pub proof fn lemma_rank(sorted: Seq<AttestationModel>, count: nat, from: nat)
    requires
        from <= sorted.len(),
    ensures
        from <= rank_of(sorted, count, from) <= sorted.len(),
        rank_of(sorted, count, from) < sorted.len() ==> participants(
            sorted[rank_of(sorted, count, from) as int],
        ) < count,
        forall|j: int|
            from <= j < rank_of(sorted, count, from) ==> participants(#[trigger] sorted[j])
                >= count,
    decreases sorted.len() - from,
{
    if from < sorted.len() && participants(sorted[from as int]) >= count {
        lemma_rank(sorted, count, from + 1);
    }
}

fn find_group(groups: &Vec<Attestation>, roots: &Vec<Bytes32>, root: Bytes32) -> (r: usize)
    requires
        roots@.len() == groups@.len(),
        forall|j: int| 0 <= j < roots@.len() ==> roots@[j] == groups@[j].data.root_value(),
    ensures
        r == place_of(ssz::models(groups@), root, 0),
        r <= groups@.len(),
{
    let ghost all = ssz::models(groups@);
    let mut i: usize = 0;
    while i < roots.len()
        invariant
            i <= roots@.len(),
            roots@.len() == groups@.len(),
            all == ssz::models(groups@),
            forall|j: int| 0 <= j < roots@.len() ==> roots@[j] == groups@[j].data.root_value(),
            place_of(all, root, i as nat) == place_of(all, root, 0),
        decreases roots@.len() - i,
    {
        assert(all[i as int].data == groups@[i as int].data);
        if roots[i] == root {
            return i;
        }
        i = i + 1;
    }
    i
}

fn group_attestations(attestations: Vec<Attestation>) -> (r: Vec<Attestation>)
    ensures
        ssz::models(r@) == grouped(ssz::models(attestations@), attestations@.len()),
{
    let ghost all = ssz::models(attestations@);
    let mut groups: Vec<Attestation> = Vec::new();
    let mut roots: Vec<Bytes32> = Vec::new();
    assert(ssz::models(groups@) =~= Seq::empty());
    let mut i: usize = 0;
    while i < attestations.len()
        invariant
            i <= attestations@.len(),
            all == ssz::models(attestations@),
            roots@.len() == groups@.len(),
            forall|j: int| 0 <= j < roots@.len() ==> roots@[j] == groups@[j].data.root_value(),
            ssz::models(groups@) == grouped(all, i as nat),
        decreases attestations@.len() - i,
    {
        let ghost before = ssz::models(groups@);
        let ghost old_groups = groups@;
        let a = &attestations[i];
        assert(all[i as int] == a@);
        let root = Bytes32(a.data.hash_tree_root());
        let p: usize = find_group(&groups, &roots, root);
        if p < groups.len() {
            let mut bits = groups[p].aggregation_bits.duplicate();
            merge_aggregation_bits(&mut bits, &a.aggregation_bits);
            let data = groups[p].data;
            let joined = Attestation { aggregation_bits: bits, data };
            assert(before[p as int] == old_groups[p as int]@);
            groups.set(p, joined);
            assert(ssz::models(groups@) =~= joined_by(before, a@));
        } else {
            groups.push(a.duplicate());
            roots.push(root);
            assert(ssz::models(groups@) =~= joined_by(before, a@));
        }
        i = i + 1;
    }
    groups
}

fn find_rank(sorted: &Vec<Attestation>, count: usize) -> (r: usize)
    ensures
        r == rank_of(ssz::models(sorted@), count as nat, 0),
        r <= sorted@.len(),
{
    let ghost all = ssz::models(sorted@);
    let mut i: usize = 0;
    while i < sorted.len()
        invariant
            i <= sorted@.len(),
            all == ssz::models(sorted@),
            rank_of(all, count as nat, i as nat) == rank_of(all, count as nat, 0),
        decreases sorted@.len() - i,
    {
        assert(all[i as int] == sorted@[i as int]@);
        if participant_count(&sorted[i].aggregation_bits) < count {
            return i;
        }
        i = i + 1;
    }
    i
}

/// Merges attestations for the same data and orders them by descending number of
/// participants.
pub fn aggregate_attestations(attestations: Vec<Attestation>) -> (r: Vec<Attestation>)
    ensures
        ssz::models(r@) == aggregated(ssz::models(attestations@)),
{
    let ghost n = attestations@.len();
    let groups = group_attestations(attestations);
    let ghost all = ssz::models(groups@);
    let mut out: Vec<Attestation> = Vec::new();
    assert(ssz::models(out@) =~= Seq::empty());
    let mut i: usize = 0;
    while i < groups.len()
        invariant
            i <= groups@.len(),
            all == ssz::models(groups@),
            ssz::models(out@) == ranked(all, i as nat),
        decreases groups@.len() - i,
    {
        let ghost before = ssz::models(out@);
        let a = groups[i].duplicate();
        assert(all[i as int] == groups@[i as int]@);
        let count: usize = participant_count(&a.aggregation_bits);
        let p: usize = find_rank(&out, count);
        out.insert(p, a);
        assert(ssz::models(out@) =~= before.insert(p as int, a@));
        i = i + 1;
    }
    out
}

/// Drains the pending attestations into the fork choice and gives the block to build
/// on. Before the first block there is none, and the pending attestations are dropped.
pub fn proposal_head_from_pending(
    fork_choice: &mut Option<ForkChoiceStore>,
    pending_attestations: &mut Vec<Attestation>,
) -> (r: Option<Bytes32>)
    requires
        store_wf(*old(fork_choice)),
    ensures
        final(pending_attestations)@.len() == 0,
        match (*old(fork_choice), *final(fork_choice)) {
            (None, None) => r is None,
            (Some(before), Some(after)) => after.wf() && r == Some(after@.head)
                && proposes_with(
                before@,
                aggregated(ssz::models(old(pending_attestations)@)),
                after@,
            ),
            _ => false,
        },
{
    let mut drained: Vec<Attestation> = Vec::new();
    std::mem::swap(&mut drained, pending_attestations);
    let ghost all = ssz::models(drained@);
    let votes = aggregate_attestations(drained);
    match fork_choice {
        None => None,
        Some(fc) => {
            let ghost before = fc@;
            let head = fc.get_proposal_head_with_pending(&votes);
            assert(ssz::models(votes@).len() == votes@.len());
            assert(proposes_with(before, aggregated(all), fc@));
            Some(head)
        },
    }
}

/// `after` is the store from which a block is proposed when `votes` are pending.
pub open spec fn proposes_with(
    m: ForkChoiceModel,
    votes: Seq<AttestationModel>,
    after: ForkChoiceModel,
) -> bool {
    exists|mid: ForkChoiceModel, next: ForkChoiceModel| #[trigger]
        fork_choice::accepts_votes(fork_choice::with_pending(m, votes, votes.len()), mid)
            && #[trigger] fork_choice::accepts_votes(mid, next) && after == fork_choice::proposed(
            next,
        )
}

/// The store with the first `k` attestations kept as waiting votes for their
/// targets.
pub open spec fn with_waiting(m: ForkChoiceModel, votes: Seq<AttestationModel>, k: nat) -> ForkChoiceModel
    decreases k,
{
    if k == 0 {
        m
    } else {
        let before = with_waiting(m, votes, (k - 1) as nat);
        ForkChoiceModel {
            new_votes: fork_choice::vote_for(
                before.blocks,
                before.new_votes,
                votes[k - 1].aggregation_bits,
                votes[k - 1].data.target.root,
            ),
            ..before
        }
    }
}

/// `after` is the store after the interval in which `votes` were pending.
pub open spec fn interval_passes(
    m: ForkChoiceModel,
    votes: Seq<AttestationModel>,
    interval: u64,
    after: ForkChoiceModel,
) -> bool {
    let waiting = with_waiting(m, votes, votes.len());
    if interval == SAFE_TARGET_INTERVAL_INDEX {
        &&& fork_choice::is_safe_target(waiting, after.safe_target)
        &&& after == (ForkChoiceModel { safe_target: after.safe_target, ..waiting })
    } else if interval == ACCEPTANCE_INTERVAL_INDEX {
        fork_choice::accepts_votes(waiting, after)
    } else {
        after == waiting
    }
}

/// Milliseconds between two intervals.
pub fn interval_millis() -> (r: u64)
    ensures
        r == 1000,
{
    (SLOT_DURATION_SECS * 1000) / INTERVALS_PER_SLOT
}

/// An interval begins: the pending attestations become waiting votes. In the interval
/// of the safe target that target is looked for again, and in the interval of
/// acceptance the waiting votes are counted. Before the first block the pending
/// attestations are dropped.
pub fn on_interval(
    interval: u64,
    fork_choice: &mut Option<ForkChoiceStore>,
    pending_attestations: &mut Vec<Attestation>,
)
    requires
        store_wf(*old(fork_choice)),
    ensures
        final(pending_attestations)@.len() == 0,
        match (*old(fork_choice), *final(fork_choice)) {
            (None, None) => true,
            (Some(before), Some(after)) => after.wf() && interval_passes(
                before@,
                aggregated(ssz::models(old(pending_attestations)@)),
                interval,
                after@,
            ),
            _ => false,
        },
{
    let mut drained: Vec<Attestation> = Vec::new();
    std::mem::swap(&mut drained, pending_attestations);
    let ghost all = ssz::models(drained@);
    let votes = aggregate_attestations(drained);
    let ghost want = aggregated(all);
    match fork_choice {
        None => {},
        Some(fc) => {
            let ghost m = fc@;
            let mut i: usize = 0;
            while i < votes.len()
                invariant
                    i <= votes@.len(),
                    want == ssz::models(votes@),
                    fc.wf(),
                    fc@ == with_waiting(m, want, i as nat),
                decreases votes@.len() - i,
            {
                assert(want[i as int] == votes@[i as int]@);
                fc.on_attestation(&votes[i]);
                i = i + 1;
            }
            if interval == SAFE_TARGET_INTERVAL_INDEX {
                fc.update_safe_target();
            }
            if interval == ACCEPTANCE_INTERVAL_INDEX {
                fc.accept_new_votes();
            }
            assert(interval_passes(m, want, interval, fc@));
        },
    }
}

/// The store that begins with an anchor block.
pub open spec fn anchored(signed: SignedBlockModel, post: StateModel) -> ForkChoiceModel {
    let b = signed.message.block;
    let root = b.root_value();
    let at = Checkpoint { root, slot: post.latest_justified.slot };
    ForkChoiceModel {
        head: root,
        safe_target: root,
        head_slot: b.slot.0.0,
        latest_justified: at,
        previous_justified: at,
        latest_finalized: Checkpoint { root, slot: post.latest_finalized.slot },
        reorgs_total: 0,
        validator_count: post.validators.len() as usize,
        blocks: Map::empty().insert(root, signed),
        states: Map::empty().insert(root, post),
        parents: Map::empty().insert(root, b.parent_root),
        children: Map::empty().insert(b.parent_root, seq![root]),
        votes: Map::empty(),
        new_votes: Map::empty(),
    }
}

/// The value of a store, if there is one.
pub open spec fn store_view(fc: Option<ForkChoiceStore>) -> Option<ForkChoiceModel> {
    match fc {
        Some(fc) => Some(fc@),
        None => None,
    }
}

/// The fork choice is in order.
pub open spec fn store_wf(fc: Option<ForkChoiceStore>) -> bool {
    fc matches Some(fc) ==> fc.wf()
}

/// `after` is the fork choice when an imported block has come to `before`. The first
/// block whose state fits becomes the anchor; a block whose state does not fit changes
/// nothing.
pub open spec fn takes_block(
    before: Option<ForkChoiceModel>,
    signed: SignedBlockModel,
    post: StateModel,
    after: Option<ForkChoiceModel>,
) -> bool {
    if !fork_choice::state_matches(post, signed.message.block.state_root) {
        after == before
    } else {
        match (before, after) {
            (None, Some(a)) => a == anchored(signed, post),
            (Some(m), Some(a)) => {
                let next = fork_choice::imported(m, signed, post);
                &&& fork_choice::is_safe_target(next, a.safe_target)
                &&& a == (ForkChoiceModel { safe_target: a.safe_target, ..next })
            },
            _ => false,
        }
    }
}

fn take_block(fork_choice: &mut Option<ForkChoiceStore>, signed: SignedBlockWithAttestation, post: State)
    requires
        store_wf(*old(fork_choice)),
    ensures
        store_wf(*final(fork_choice)),
        takes_block(
            store_view(*old(fork_choice)),
            signed@,
            post@,
            store_view(*final(fork_choice)),
        ),
{
    match fork_choice {
        None => {
            let ghost s = signed@;
            let ghost p = post@;
            if let Ok(fc) = ForkChoiceStore::new(signed, post) {
                assert(fc@ =~= anchored(s, p));
                *fork_choice = Some(fc);
            }
        },
        Some(fc) => {
            let _ = fc.on_block(signed, post);
        },
    }
}

/// The pending attestations with a validator's vote; an index outside the registry
/// adds none.
pub open spec fn with_pending_vote(
    pending: Seq<AttestationModel>,
    index: u64,
    data: AttestationData,
) -> Seq<AttestationModel> {
    match block::lone_vote(index, data) {
        Ok(a) => pending.push(a),
        Err(_) => pending,
    }
}

fn put_pending_vote(pending: &mut Vec<Attestation>, index: u64, data: AttestationData)
    ensures
        ssz::models(final(pending)@) == with_pending_vote(ssz::models(old(pending)@), index, data),
{
    let ghost before = ssz::models(pending@);
    if let Ok(a) = block::proposer_attestation_from_ream_parts(index, data) {
        pending.push(a);
        assert(ssz::models(pending@) =~= before.push(a@));
    }
}

/// What the node holds.
#[verifier::ext_equal]
pub struct NodeModel {
    pub state: StateModel,
    pub table: storage::TableModel,
    pub fork_choice: Option<ForkChoiceModel>,
    pub pending: Seq<AttestationModel>,
}

/// `after` is what the node holds when a gossip message has come to `before`, where
/// `answers` are the answers of the signature scheme on the block in it.
pub open spec fn gossip_handled(
    before: NodeModel,
    topic: Seq<char>,
    payload: Seq<u8>,
    verifier: PqSignatureVerifier,
    after: NodeModel,
) -> bool {
    match MessageModel::decoded(topic, payload) {
        Err(_) => after == before,
        Ok(MessageModel::Block(signed)) => match state::import_verdict(
            verifier,
            before.state,
            signed,
        ) {
            Err(_) => after == before,
            Ok(next) => {
                &&& after.state == next
                &&& after.table == storage::with_import(
                    before.table,
                    signed.message.block.root_value(),
                    signed,
                    next.latest_finalized.root,
                )
                &&& takes_block(before.fork_choice, signed, next, after.fork_choice)
                &&& after.pending == before.pending
            },
        },
        Ok(MessageModel::Attestation(a)) => after == (NodeModel {
            pending: with_pending_vote(before.pending, a.validator_id.0, a.message),
            ..before
        }),
        Ok(MessageModel::AttestationSubnet { attestation, .. }) => after == (NodeModel {
            pending: with_pending_vote(
                before.pending,
                attestation.validator_id.0,
                attestation.message,
            ),
            ..before
        }),
        Ok(MessageModel::AggregatedAttestation(_)) => after == before,
    }
}

/// Takes in a gossip message. A block is imported on the answers of the signature
/// scheme and handed to the fork choice; an attestation waits among the pending ones.
/// What cannot be decoded or imported changes nothing.
pub fn handle_gossip_event(
    topic: &str,
    payload: &[u8],
    state: &mut State,
    store: &mut BlockTable,
    fork_choice: &mut Option<ForkChoiceStore>,
    pending_attestations: &mut Vec<Attestation>,
    answers: Vec<Result<(), String>>,
)
    requires
        old(store).wf(),
        store_wf(*old(fork_choice)),
    ensures
        final(store).wf(),
        store_wf(*final(fork_choice)),
        gossip_handled(
            (NodeModel {
                state: old(state)@,
                table: old(store)@,
                fork_choice: store_view(*old(fork_choice)),
                pending: ssz::models(old(pending_attestations)@),
            }),
            topic@,
            payload@,
            (PqSignatureVerifier { answers }),
            (NodeModel {
                state: final(state)@,
                table: final(store)@,
                fork_choice: store_view(*final(fork_choice)),
                pending: ssz::models(final(pending_attestations)@),
            }),
        ),
{
    let msg = match LeanGossipsubMessage::decode(topic, payload) {
        Ok(m) => m,
        Err(_) => {
            return ;
        },
    };
    match msg {
        LeanGossipsubMessage::Block(b) => {
            let signed = b.block;
            let root = Bytes32(signed.message.block.hash_tree_root());
            let kept = signed.duplicate();
            if let Ok(()) = store.put_signed_block(root, kept, state, answers) {
                take_block(fork_choice, signed, state.duplicate());
            }
        },
        LeanGossipsubMessage::Attestation(a) => {
            put_pending_vote(
                pending_attestations,
                a.attestation.validator_id.0,
                a.attestation.message,
            );
        },
        LeanGossipsubMessage::AttestationSubnet { subnet_id: _, attestation: a } => {
            put_pending_vote(
                pending_attestations,
                a.attestation.validator_id.0,
                a.attestation.message,
            );
        },
        LeanGossipsubMessage::AggregatedAttestation(_) => {},
    }
}

/// No two attestations are for the same data.
pub open spec fn data_distinct(v: Seq<AttestationModel>) -> bool {
    forall|i: int, j: int|
        0 <= i < j < v.len() ==> (#[trigger] v[i]).data.root_value() != (
        #[trigger] v[j]).data.root_value()
}

/// A validator votes in one of the attestations, for data with a given root.
pub open spec fn votes_in(v: Seq<AttestationModel>, root: Bytes32, validator: int) -> bool {
    exists|i: int| #[trigger] votes_at(v, i, root, validator)
}

/// A validator votes in attestation `i`, and that attestation's data has a given root.
pub open spec fn votes_at(v: Seq<AttestationModel>, i: int, root: Bytes32, validator: int) -> bool {
    0 <= i < v.len() && v[i].data.root_value() == root && 0 <= validator
        < v[i].aggregation_bits.len() && v[i].aggregation_bits[validator]
}

pub proof fn lemma_grouped_distinct(s: Seq<AttestationModel>, k: nat)
    requires
        k <= s.len(),
    ensures
        data_distinct(grouped(s, k)),
    decreases k,
{
    if k > 0 {
        let before = grouped(s, (k - 1) as nat);
        lemma_grouped_distinct(s, (k - 1) as nat);
        lemma_place(before, s[k - 1].data.root_value(), 0);
    }
}

proof fn lemma_joined_votes(
    groups: Seq<AttestationModel>,
    a: AttestationModel,
    root: Bytes32,
    validator: int,
)
    ensures
        votes_in(joined_by(groups, a), root, validator) <==> votes_in(groups, root, validator)
            || votes_at(seq![a], 0, root, validator),
{
    let next = joined_by(groups, a);
    let p = place_of(groups, a.data.root_value(), 0) as int;
    lemma_place(groups, a.data.root_value(), 0);
    assert(seq![a][0] == a);
    if votes_in(groups, root, validator) {
        let i = choose|i: int| #[trigger] votes_at(groups, i, root, validator);
        assert(votes_at(next, i, root, validator));
    }
    if votes_at(seq![a], 0, root, validator) {
        assert(votes_at(next, p, root, validator));
    }
    if votes_in(next, root, validator) {
        let i = choose|i: int| #[trigger] votes_at(next, i, root, validator);
        if i == p {
            if p < groups.len() {
                assert(votes_at(groups, p, root, validator) || votes_at(
                    seq![a],
                    0,
                    root,
                    validator,
                ));
            }
        } else {
            assert(votes_at(groups, i, root, validator));
        }
    }
}

proof fn lemma_grouped_votes(s: Seq<AttestationModel>, k: nat, root: Bytes32, validator: int)
    requires
        k <= s.len(),
    ensures
        votes_in(grouped(s, k), root, validator) <==> votes_in(s.take(k as int), root, validator),
    decreases k,
{
    if k > 0 {
        let j = (k - 1) as nat;
        let a = s[k - 1];
        let longer = s.take(k as int);
        let shorter = s.take(j as int);
        lemma_grouped_votes(s, j, root, validator);
        lemma_joined_votes(grouped(s, j), a, root, validator);
        assert(seq![a][0] == a);
        if votes_in(shorter, root, validator) {
            let i = choose|i: int| #[trigger] votes_at(shorter, i, root, validator);
            assert(votes_at(longer, i, root, validator));
        }
        if votes_at(seq![a], 0, root, validator) {
            assert(votes_at(longer, j as int, root, validator));
        }
        if votes_in(longer, root, validator) {
            let i = choose|i: int| #[trigger] votes_at(longer, i, root, validator);
            if i < j {
                assert(votes_at(shorter, i, root, validator));
            } else {
                assert(votes_at(seq![a], 0, root, validator));
            }
        }
    }
}

proof fn lemma_inserted(v: Seq<AttestationModel>, p: int, a: AttestationModel, x: AttestationModel)
    requires
        0 <= p <= v.len(),
    ensures
        v.insert(p, a).contains(x) <==> v.contains(x) || x == a,
{
    let now = v.insert(p, a);
    assert(now[p] == a);
    if v.contains(x) {
        let b = choose|b: int| 0 <= b < v.len() && v[b] == x;
        if b < p {
            assert(now[b] == x);
        } else {
            assert(now[b + 1] == x);
        }
    }
    if now.contains(x) {
        let i = choose|i: int| 0 <= i < now.len() && now[i] == x;
        if i < p {
            assert(v[i] == x);
        } else if i > p {
            assert(v[i - 1] == x);
        }
    }
}

/// Ranking keeps the groups.
pub proof fn lemma_ranked_elements(groups: Seq<AttestationModel>, k: nat, x: AttestationModel)
    requires
        k <= groups.len(),
    ensures
        ranked(groups, k).len() == k,
        ranked(groups, k).contains(x) <==> groups.take(k as int).contains(x),
    decreases k,
{
    if k > 0 {
        let before = ranked(groups, (k - 1) as nat);
        let shorter = groups.take(k - 1);
        let a = groups[k - 1];
        let p = rank_of(before, participants(a), 0) as int;
        lemma_ranked_elements(groups, (k - 1) as nat, x);
        lemma_rank(before, participants(a), 0);
        lemma_inserted(before, p, a, x);
        lemma_inserted(shorter, k - 1, a, x);
        assert(groups.take(k as int) =~= shorter.insert(k - 1, a));
    } else {
        assert(groups.take(0) =~= Seq::empty());
        assert(ranked(groups, 0) =~= Seq::empty());
    }
}

/// Ranking puts more participants first.
pub proof fn lemma_ranked_order(groups: Seq<AttestationModel>, k: nat)
    requires
        k <= groups.len(),
    ensures
        forall|i: int, j: int|
            0 <= i < j < ranked(groups, k).len() ==> participants(#[trigger] ranked(groups, k)[i])
                >= participants(#[trigger] ranked(groups, k)[j]),
    decreases k,
{
    if k > 0 {
        let before = ranked(groups, (k - 1) as nat);
        let a = groups[k - 1];
        let p = rank_of(before, participants(a), 0) as int;
        lemma_ranked_order(groups, (k - 1) as nat);
        lemma_rank(before, participants(a), 0);
        let now = before.insert(p, a);
        assert forall|i: int, j: int| 0 <= i < j < now.len() implies participants(
            #[trigger] now[i],
        ) >= participants(#[trigger] now[j]) by {
            let bi = if i < p {
                i
            } else {
                i - 1
            };
            let bj = if j < p {
                j
            } else {
                j - 1
            };
            if i != p {
                assert(now[i] == before[bi]);
            }
            if j != p {
                assert(now[j] == before[bj]);
            }
            if i == p && bj > p {
                assert(participants(before[p]) >= participants(before[bj]));
            }
        }
    }
}

/// Ranking keeps the groups apart.
proof fn lemma_ranked_distinct(groups: Seq<AttestationModel>, k: nat)
    requires
        k <= groups.len(),
        data_distinct(groups),
    ensures
        data_distinct(ranked(groups, k)),
    decreases k,
{
    if k > 0 {
        let before = ranked(groups, (k - 1) as nat);
        let shorter = groups.take(k - 1);
        let a = groups[k - 1];
        let p = rank_of(before, participants(a), 0) as int;
        lemma_ranked_distinct(groups, (k - 1) as nat);
        lemma_rank(before, participants(a), 0);
        let now = before.insert(p, a);
        assert forall|i: int| 0 <= i < before.len() implies (#[trigger] before[i]).data.root_value()
            != a.data.root_value() by {
            let x = before[i];
            lemma_ranked_elements(groups, (k - 1) as nat, x);
            assert(before.contains(x));
            let j = choose|j: int| 0 <= j < shorter.len() && shorter[j] == x;
            assert(groups[j] == x);
        }
        assert forall|i: int, j: int| 0 <= i < j < now.len() implies (
        #[trigger] now[i]).data.root_value() != (#[trigger] now[j]).data.root_value() by {
            let bi = if i < p {
                i
            } else {
                i - 1
            };
            let bj = if j < p {
                j
            } else {
                j - 1
            };
            if i != p {
                assert(now[i] == before[bi]);
            }
            if j != p {
                assert(now[j] == before[bj]);
            }
        }
    }
}

/// Aggregated attestations are ordered by descending number of participants, and each
/// datum occurs once.
pub proof fn law_aggregates_are_ordered(s: Seq<AttestationModel>)
    ensures
        data_distinct(aggregated(s)),
        forall|i: int, j: int|
            0 <= i < j < aggregated(s).len() ==> participants(#[trigger] aggregated(s)[i])
                >= participants(#[trigger] aggregated(s)[j]),
{
    let groups = grouped(s, s.len());
    lemma_grouped_distinct(s, s.len());
    lemma_ranked_distinct(groups, groups.len());
    lemma_ranked_order(groups, groups.len());
}

/// Aggregation neither drops nor adds a vote: a validator votes for a datum in the
/// aggregated attestations exactly when it does so in the given ones.
pub proof fn law_aggregation_keeps_votes(s: Seq<AttestationModel>, root: Bytes32, validator: int)
    ensures
        votes_in(aggregated(s), root, validator) <==> votes_in(s, root, validator),
{
    let groups = grouped(s, s.len());
    lemma_grouped_votes(s, s.len(), root, validator);
    assert(s.take(s.len() as int) =~= s);
    assert(groups.take(groups.len() as int) =~= groups);
    let out = aggregated(s);
    if votes_in(out, root, validator) {
        let i = choose|i: int| #[trigger] votes_at(out, i, root, validator);
        assert(out.contains(out[i]));
        lemma_ranked_elements(groups, groups.len(), out[i]);
        let j = choose|j: int| 0 <= j < groups.len() && groups[j] == out[i];
        assert(votes_at(groups, j, root, validator));
    }
    if votes_in(groups, root, validator) {
        let j = choose|j: int| #[trigger] votes_at(groups, j, root, validator);
        assert(groups.contains(groups[j]));
        lemma_ranked_elements(groups, groups.len(), groups[j]);
        let i = choose|i: int| 0 <= i < out.len() && out[i] == groups[j];
        assert(votes_at(out, i, root, validator));
    }
}

/// Waiting votes are all that attestations change.
pub proof fn lemma_waiting(m: ForkChoiceModel, votes: Seq<AttestationModel>, k: nat)
    ensures
        with_waiting(m, votes, k) == (ForkChoiceModel {
            new_votes: with_waiting(m, votes, k).new_votes,
            ..m
        }),
    decreases k,
{
    if k > 0 {
        lemma_waiting(m, votes, (k - 1) as nat);
    }
}

/// Pending attestations wait: outside the interval of acceptance neither the head nor
/// the counted votes change.
pub proof fn law_votes_wait_for_acceptance(
    m: ForkChoiceModel,
    votes: Seq<AttestationModel>,
    interval: u64,
    after: ForkChoiceModel,
)
    requires
        interval != ACCEPTANCE_INTERVAL_INDEX,
        interval_passes(m, votes, interval, after),
    ensures
        after.head == m.head,
        after.votes == m.votes,
        after.blocks == m.blocks,
{
    lemma_waiting(m, votes, votes.len());
}

} // verus!
