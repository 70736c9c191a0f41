//! Which signatures an imported block needs, and what is asked of them.

use crate::containers::block::SignedBlockModel;
use crate::containers::pq_verifier;
use crate::containers::pq_verifier::CheckModel;
use crate::containers::state::StateModel;
use crate::containers::validator::Validator;
use crate::crypto::pq;
use crate::crypto::pq::DevnetValidatorKeyRole;
use crate::laws::network;
use crate::networking::validate;
use vstd::prelude::*;

verus! {

proof fn lemma_same_keys(bits: Seq<bool>, validators: Seq<Validator>)
    ensures
        pq_verifier::participant_keys(bits, validators) is Ok <==> validate::gathered(
            validate::registry_of(validators),
            bits,
        ) is Some,
        pq_verifier::participant_keys(bits, validators) matches Ok(keys) ==> validate::gathered(
            validate::registry_of(validators),
            bits,
        ) == Some(keys),
    decreases bits.len(),
{
    if bits.len() > 0 {
        lemma_same_keys(bits.drop_last(), validators);
    }
}

/// The keys of the voters are those that the registry has for them, in ascending order of their
/// indexes; a voter that is not registered is refused.
pub proof fn law_keys_of_voters(bits: Seq<bool>, validators: Seq<Validator>)
    ensures
        pq_verifier::participant_keys(bits, validators) is Err <==> exists|k: int|
            validators.len() <= k < bits.len() && #[trigger] bits[k],
        pq_verifier::participant_keys(bits, validators) matches Ok(keys) ==> exists|
            places: Seq<int>,
        | #[trigger]
            network::keys_of_voters(validate::registry_of(validators), bits, keys, places),
        validate::registry_of(validators).len() == validators.len(),
        forall|k: int|
            0 <= k < validators.len() ==> #[trigger] validate::registry_of(validators)[k]
                == validators[k].pubkey,
{
    let registry = validate::registry_of(validators);
    lemma_same_keys(bits, validators);
    let places = network::lemma_gathered(registry, bits);
    if let Ok(keys) = pq_verifier::participant_keys(bits, validators) {
        assert(network::keys_of_voters(registry, bits, keys, places));
    }
}

/// What is asked of the signatures of a block: of each vote in its body, in order, that its
/// proof holds for the keys of its voters, over the vote's root in the vote's slot; and behind
/// them of the proposer that the signature holds for its key, over the root of its vote in that
/// vote's slot.
pub proof fn law_checks_of_a_block(m: SignedBlockModel, s: StateModel, i: nat)
    requires
        m.signature.attestation_signatures.len() == m.message.block.attestations.len(),
    ensures
        ({
            let b = m.message.block;
            let proofs = m.signature.attestation_signatures;
            let vote = m.message.proposer_attestation.data;
            let asked = pq_verifier::check_at(m, s, i);
            &&& i < proofs.len() ==> {
                let a = b.attestations[i as int];
                let keys = pq_verifier::participant_keys(a.aggregation_bits, s.validators);
                &&& asked is Ok <==> keys is Ok && keys->Ok_0.len() > 0
                &&& asked is Ok ==> asked->Ok_0 == Some(
                    CheckModel::Aggregate {
                        public_keys: keys->Ok_0,
                        message: a.data.root_value(),
                        proof: proofs[i as int].proof_data,
                        epoch: a.data.slot.0.0 as u32,
                    },
                )
            }
            &&& i == proofs.len() ==> {
                let p = b.proposer_index.0.0 as int;
                &&& asked is Ok <==> p < s.validators.len()
                &&& asked is Ok ==> asked->Ok_0 == Some(
                    CheckModel::Single {
                        public_key: s.validators[p].pubkey,
                        message: vote.root_value(),
                        signature: m.signature.proposer_signature,
                        epoch: vote.slot.0.0 as u32,
                    },
                )
            }
            &&& i > proofs.len() ==> asked == Ok::<Option<CheckModel>, Seq<char>>(None)
        }),
{
}

/// The signatures of a block are good exactly when there is one proof for each vote, every vote
/// has a voter and only registered ones, the proposer is registered, and every question, that
/// about the proposer last, is answered with yes.
pub proof fn law_good_signatures(
    answers: Seq<Result<(), String>>,
    m: SignedBlockModel,
    s: StateModel,
)
    ensures
        ({
            let b = m.message.block;
            let n = b.attestations.len() as int;
            pq_verifier::checks_verdict(answers, m, s, 0) is Ok <==> {
                &&& m.signature.attestation_signatures.len() == n
                &&& b.proposer_index.0.0 < s.validators.len()
                &&& forall|k: int|
                    0 <= k < n ==> {
                        let keys = pq_verifier::participant_keys(
                            (#[trigger] b.attestations[k]).aggregation_bits,
                            s.validators,
                        );
                        keys is Ok && keys->Ok_0.len() > 0
                    }
                &&& answers.len() > n
                &&& forall|k: int| 0 <= k <= n ==> #[trigger] answers[k] is Ok
            }
        }),
{
    let b = m.message.block;
    let n = b.attestations.len();
    pq_verifier::law_verdict_needs_every_answer(answers, m, s, 0);
    if m.signature.attestation_signatures.len() == n {
        if pq_verifier::checks_verdict(answers, m, s, 0) is Ok {
            assert forall|k: int| 0 <= k <= n implies #[trigger] answers[k] is Ok by {
                assert(pq_verifier::check_at(m, s, k as nat) is Ok);
            }
            assert(pq_verifier::check_at(m, s, n) is Ok);
            assert forall|k: int| 0 <= k < n implies ({
                let keys = pq_verifier::participant_keys(
                    (#[trigger] b.attestations[k]).aggregation_bits,
                    s.validators,
                );
                keys is Ok && keys->Ok_0.len() > 0
            }) by {
                assert(pq_verifier::check_at(m, s, k as nat) is Ok);
            }
        }
        if b.proposer_index.0.0 < s.validators.len() && answers.len() > n && (forall|k: int|
            0 <= k < n ==> {
                let keys = pq_verifier::participant_keys(
                    (#[trigger] b.attestations[k]).aggregation_bits,
                    s.validators,
                );
                keys is Ok && keys->Ok_0.len() > 0
            }) && (forall|k: int| 0 <= k <= n ==> #[trigger] answers[k] is Ok) {
            assert forall|k: nat| 0 <= k <= n implies #[trigger] pq_verifier::check_at(m, s, k)
                is Ok && k < answers.len() && answers[k as int] is Ok by {
                assert(answers[k as int] is Ok);
                if k < n {
                    assert(pq_verifier::participant_keys(
                        b.attestations[k as int].aggregation_bits,
                        s.validators,
                    ) is Ok);
                }
            }
        }
    } else {
        assert(pq_verifier::check_at(m, s, 0) is Err);
    }
}

/// The seed of a devnet key: eight bytes that mix the index into the mark of the role, and zero
/// bytes behind them.
pub proof fn law_seeds(index: u64, i: int)
    ensures
        ({
            let votes = pq::seed_bytes(index, DevnetValidatorKeyRole::Attestation);
            let blocks = pq::seed_bytes(index, DevnetValidatorKeyRole::Proposal);
            &&& votes.len() == 32 && blocks.len() == 32
            &&& votes.subrange(0, 8) == crate::ssz::u64_bytes(0x4456_4E45_5431_0000u64 ^ index)
            &&& blocks.subrange(0, 8) == crate::ssz::u64_bytes(0x4456_4E45_5431_5052u64 ^ index)
            &&& 8 <= i < 32 ==> votes[i] == 0 && blocks[i] == 0
        }),
{
    let votes = pq::seed_bytes(index, DevnetValidatorKeyRole::Attestation);
    let blocks = pq::seed_bytes(index, DevnetValidatorKeyRole::Proposal);
    crate::ssz::lemma_u64_len(0x4456_4E45_5431_0000u64 ^ index);
    crate::ssz::lemma_u64_len(0x4456_4E45_5431_5052u64 ^ index);
    assert(votes.subrange(0, 8) =~= crate::ssz::u64_bytes(0x4456_4E45_5431_0000u64 ^ index));
    assert(blocks.subrange(0, 8) =~= crate::ssz::u64_bytes(0x4456_4E45_5431_5052u64 ^ index));
}

/// An aggregation needs at least one key, and as many keys as there are other parts.
pub proof fn law_aggregate_counts(keys: nat, what: Seq<char>, others: nat)
    ensures
        pq::aggregate_counts(keys, what, others) is Ok <==> keys == others && keys > 0,
{
}

} // verus!
