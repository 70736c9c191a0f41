//! Which signatures of a block have to be checked, and the verdict drawn from the checks.

use crate::containers::attestation::VALIDATOR_REGISTRY_LIMIT;
use crate::containers::block;
use crate::containers::block::{SignedBlockModel, SignedBlockWithAttestation};
use crate::containers::state;
use crate::containers::state::{SignatureVerifier, State, StateModel};
use crate::containers::validator::Validator;
use crate::text;
use crate::types::bitlist::BitList;
use crate::types::bytes::{Bytes3112, Bytes32, Bytes52};
use vstd::prelude::*;
use vstd::string::StringExecFns;

verus! {

/// The positions of the set bits, in order.
pub open spec fn set_positions(bits: Seq<bool>) -> Seq<int>
    decreases bits.len(),
{
    if bits.len() == 0 {
        Seq::empty()
    } else {
        let before = set_positions(bits.drop_last());
        if bits.last() {
            before.push(bits.len() - 1)
        } else {
            before
        }
    }
}

/// The keys of the participants, in order; a refusal when one of them is not registered.
pub open spec fn participant_keys(bits: Seq<bool>, validators: Seq<Validator>) -> Result<
    Seq<Bytes52>,
    Seq<char>,
>
    decreases bits.len(),
{
    if bits.len() == 0 {
        Ok(Seq::empty())
    } else {
        match participant_keys(bits.drop_last(), validators) {
            Err(e) => Err(e),
            Ok(keys) => if !bits.last() {
                Ok(keys)
            } else if bits.len() - 1 >= validators.len() {
                Err("validator index out of range"@)
            } else {
                Ok(keys.push(validators[bits.len() - 1].pubkey))
            },
        }
    }
}

proof fn lemma_keys_refused(bits: Seq<bool>, validators: Seq<Validator>, k: nat)
    requires
        k <= bits.len(),
        participant_keys(bits.take(k as int), validators) is Err,
    ensures
        participant_keys(bits, validators) == participant_keys(bits.take(k as int), validators),
    decreases bits.len() - k,
{
    if k < bits.len() {
        assert(bits.take(k as int + 1).drop_last() =~= bits.take(k as int));
        lemma_keys_refused(bits, validators, k + 1);
    } else {
        assert(bits.take(k as int) =~= bits);
    }
}

/// The keys of all participants are those of the validators at the set positions.
pub proof fn law_keys_follow_positions(bits: Seq<bool>, validators: Seq<Validator>)
    requires
        bits.len() <= validators.len(),
    ensures
        participant_keys(bits, validators) == Ok::<Seq<Bytes52>, Seq<char>>(
            set_positions(bits).map_values(|i: int| validators[i].pubkey),
        ),
    decreases bits.len(),
{
    let key = |i: int| validators[i].pubkey;
    if bits.len() > 0 {
        law_keys_follow_positions(bits.drop_last(), validators);
        assert(set_positions(bits).map_values(key) =~= (if bits.last() {
            set_positions(bits.drop_last()).map_values(key).push(key(bits.len() - 1))
        } else {
            set_positions(bits.drop_last()).map_values(key)
        }));
    } else {
        assert(set_positions(bits).map_values(key) =~= Seq::<Bytes52>::empty());
    }
}

/// Collects the keys of the participants.
pub fn collect_participant_keys(
    bits: &BitList<VALIDATOR_REGISTRY_LIMIT>,
    validators: &Vec<Validator>,
) -> (r: Result<Vec<Bytes52>, String>)
    ensures
        crate::ssz::view_outcome(r) == participant_keys(bits@, validators@),
{
    let mut keys: Vec<Bytes52> = Vec::new();
    let n: usize = bits.len();
    let mut i: usize = 0;
    assert(bits@.take(0) =~= Seq::empty());
    while i < n
        invariant
            i <= n,
            n == bits@.len(),
            participant_keys(bits@.take(i as int), validators@) == Ok::<Seq<Bytes52>, Seq<char>>(
                keys@,
            ),
        decreases n - i,
    {
        assert(bits@.take(i + 1).drop_last() =~= bits@.take(i as int));
        if bits.is_set(i) {
            if i >= validators.len() {
                proof {
                    lemma_keys_refused(bits@, validators@, (i + 1) as nat);
                }
                return Err("validator index out of range".to_string());
            }
            keys.push(validators[i].pubkey);
        }
        i = i + 1;
    }
    assert(bits@.take(n as int) =~= bits@);
    Ok(keys)
}

/// One signature check.
#[derive(Clone, Debug, PartialEq, Eq)]
pub enum SignatureCheck {
    /// An aggregated proof of several signers.
    Aggregate { public_keys: Vec<Bytes52>, message: [u8; 32], proof: Vec<u8>, epoch: u32 },
    /// A signature of one signer.
    Single { public_key: Bytes52, message: [u8; 32], signature: Bytes3112, epoch: u32 },
}

/// The value of a [`SignatureCheck`].
#[verifier::ext_equal]
pub enum CheckModel {
    Aggregate { public_keys: Seq<Bytes52>, message: Bytes32, proof: Seq<u8>, epoch: u32 },
    Single { public_key: Bytes52, message: Bytes32, signature: Bytes3112, epoch: u32 },
}

impl View for SignatureCheck {
    type V = CheckModel;

    open spec fn view(&self) -> CheckModel {
        match *self {
            SignatureCheck::Aggregate { public_keys, message, proof, epoch } => CheckModel::Aggregate {
                public_keys: public_keys@,
                message: Bytes32(message),
                proof: proof@,
                epoch,
            },
            SignatureCheck::Single { public_key, message, signature, epoch } => CheckModel::Single {
                public_key,
                message: Bytes32(message),
                signature,
                epoch,
            },
        }
    }
}

/// The check at position `i`: one for each attestation, in order, then one for the proposer.
pub open spec fn check_at(signed: SignedBlockModel, s: StateModel, i: nat) -> Result<
    Option<CheckModel>,
    Seq<char>,
> {
    let b = signed.message.block;
    let proofs = signed.signature.attestation_signatures;
    let vote = signed.message.proposer_attestation.data;
    if b.attestations.len() != proofs.len() {
        Err(block::signature_count_text(proofs.len(), b.attestations.len()))
    } else if i < proofs.len() {
        let a = b.attestations[i as int];
        match participant_keys(a.aggregation_bits, s.validators) {
            Err(e) => Err(e),
            Ok(keys) => if keys.len() == 0 {
                Err("attestation aggregate participants must be non-empty"@)
            } else {
                Ok(
                    Some(
                        CheckModel::Aggregate {
                            public_keys: keys,
                            message: a.data.root_value(),
                            proof: proofs[i as int].proof_data,
                            epoch: a.data.slot.0.0 as u32,
                        },
                    ),
                )
            },
        }
    } else if i == proofs.len() {
        if b.proposer_index.0.0 >= s.validators.len() {
            Err("proposer index out of range"@)
        } else {
            Ok(
                Some(
                    CheckModel::Single {
                        public_key: s.validators[b.proposer_index.0.0 as int].pubkey,
                        message: vote.root_value(),
                        signature: signed.signature.proposer_signature,
                        epoch: vote.slot.0.0 as u32,
                    },
                ),
            )
        }
    } else {
        Ok(None)
    }
}

/// A result of looking for a check in terms of its value.
pub open spec fn check_outcome(r: Result<Option<SignatureCheck>, String>) -> Result<
    Option<CheckModel>,
    Seq<char>,
> {
    match r {
        Ok(Some(c)) => Ok(Some(c@)),
        Ok(None) => Ok(None),
        Err(e) => Err(e@),
    }
}

/// Finds the check at position `i`.
pub fn signature_check(signed: &SignedBlockWithAttestation, state: &State, i: usize) -> (r: Result<
    Option<SignatureCheck>,
    String,
>)
    ensures
        check_outcome(r) == check_at(signed@, state@, i as nat),
{
    let attestations = &signed.message.block.body.attestations.data;
    let proofs = &signed.signature.attestation_signatures.data;
    let validators = &state.validators.data;
    assert(state@.validators =~= validators@);
    if attestations.len() != proofs.len() {
        let mut s: String = "attestation signatures count ".to_string();
        s.append(text::decimal_string(proofs.len() as u64).as_str());
        s.append(" does not match attestations ");
        s.append(text::decimal_string(attestations.len() as u64).as_str());
        return Err(s);
    }
    if i < proofs.len() {
        assert(signed@.message.block.attestations[i as int] == attestations@[i as int]@);
        assert(signed@.signature.attestation_signatures[i as int] == proofs@[i as int]@);
        let a = &attestations[i];
        let keys = match collect_participant_keys(&a.aggregation_bits, validators) {
            Ok(keys) => keys,
            Err(e) => {
                return Err(e);
            },
        };
        if keys.len() == 0 {
            return Err("attestation aggregate participants must be non-empty".to_string());
        }
        return Ok(
            Some(
                SignatureCheck::Aggregate {
                    public_keys: keys,
                    message: a.data.hash_tree_root(),
                    proof: proofs[i].proof_data.encode_ssz(),
                    epoch: a.data.slot.0.0 as u32,
                },
            ),
        );
    }
    if i > proofs.len() {
        return Ok(None);
    }
    let proposer: u64 = signed.message.block.proposer_index.0.0;
    if proposer >= validators.len() as u64 {
        return Err("proposer index out of range".to_string());
    }
    let vote = signed.message.proposer_attestation.data;
    Ok(
        Some(
            SignatureCheck::Single {
                public_key: validators[proposer as usize].pubkey,
                message: vote.hash_tree_root(),
                signature: signed.signature.proposer_signature,
                epoch: vote.slot.0.0 as u32,
            },
        ),
    )
}

/// Draws its verdict from the answers of the signature scheme: answer `i` is that of check
/// `i`. Checks behind the first refusal need no answer.
pub struct PqSignatureVerifier {
    /// The answers.
    pub answers: Vec<Result<(), String>>,
}

/// The verdict on the checks from `i` on.
pub open spec fn checks_verdict(
    answers: Seq<Result<(), String>>,
    signed: SignedBlockModel,
    s: StateModel,
    i: nat,
) -> Result<(), Seq<char>>
    decreases signed.signature.attestation_signatures.len() + 1 - i,
{
    match check_at(signed, s, i) {
        Err(e) => Err(e),
        Ok(None) => Ok(()),
        Ok(Some(_)) => if i >= answers.len() {
            Err("signature check has no answer"@)
        } else {
            match answers[i as int] {
                Err(e) => Err(e@),
                Ok(()) => if i > signed.signature.attestation_signatures.len() {
                    Ok(())
                } else {
                    checks_verdict(answers, signed, s, i + 1)
                },
            }
        },
    }
}

impl SignatureVerifier for PqSignatureVerifier {
    open spec fn verdict(&self, signed: SignedBlockModel, s: StateModel) -> Result<(), Seq<char>> {
        checks_verdict(self.answers@, signed, s, 0)
    }

    fn verify_signed_block(&self, signed: &SignedBlockWithAttestation, state: &State) -> (r: Result<
        (),
        String,
    >) {
        let n: usize = signed.signature.attestation_signatures.data.len();
        let mut i: usize = 0;
        while i <= n
            invariant
                i <= n + 1,
                n == signed@.signature.attestation_signatures.len(),
                n < usize::MAX || i <= n,
                i <= n ==> checks_verdict(self.answers@, signed@, state@, i as nat)
                    == checks_verdict(self.answers@, signed@, state@, 0),
                i == n + 1 ==> checks_verdict(self.answers@, signed@, state@, 0) == Ok::<
                    (),
                    Seq<char>,
                >(()),
            decreases n + 1 - i,
        {
            match signature_check(signed, state, i) {
                Err(e) => {
                    return Err(e);
                },
                Ok(None) => {
                    return Ok(());
                },
                Ok(Some(_check)) => {},
            }
            if i >= self.answers.len() {
                return Err("signature check has no answer".to_string());
            }
            match &self.answers[i] {
                Err(e) => {
                    return Err(e.clone());
                },
                Ok(()) => {},
            }
            if i == n {
                assert(check_at(signed@, state@, (i + 1) as nat) == Ok::<
                    Option<CheckModel>,
                    Seq<char>,
                >(None));
                return Ok(());
            }
            i = i + 1;
        }
        Ok(())
    }
}

/// A block is accepted exactly when every check can be made and is answered with yes.
pub proof fn law_verdict_needs_every_answer(
    answers: Seq<Result<(), String>>,
    signed: SignedBlockModel,
    s: StateModel,
    i: nat,
)
    requires
        i <= signed.signature.attestation_signatures.len(),
    ensures
        (checks_verdict(answers, signed, s, i) is Ok) == (forall|k: nat|
            i <= k <= signed.signature.attestation_signatures.len() ==> {
                &&& #[trigger] check_at(signed, s, k) is Ok
                &&& k < answers.len()
                &&& answers[k as int] is Ok
            }),
    decreases signed.signature.attestation_signatures.len() + 1 - i,
{
    let n = signed.signature.attestation_signatures.len();
    reveal_with_fuel(checks_verdict, 3);
    let here = check_at(signed, s, i);
    let good = here is Ok && i < answers.len() && answers[i as int] is Ok;
    if i < n {
        law_verdict_needs_every_answer(answers, signed, s, i + 1);
    } else if good {
        assert(check_at(signed, s, i + 1) == Ok::<Option<CheckModel>, Seq<char>>(None));
    }
    if checks_verdict(answers, signed, s, i) is Ok {
        assert(good);
        assert forall|k: nat| i <= k <= n implies #[trigger] check_at(signed, s, k) is Ok && k
            < answers.len() && answers[k as int] is Ok by {}
    }
}

impl State {
    /// Imports a signed block on the answers of the signature scheme. On a refusal the state
    /// stays as it was.
    pub fn process_signed_block(
        &mut self,
        signed: &SignedBlockWithAttestation,
        answers: Vec<Result<(), String>>,
    ) -> (r: Result<(), String>)
        ensures
            match state::import_verdict(
                (PqSignatureVerifier { answers }),
                old(self)@,
                signed@,
            ) {
                Ok(next) => r is Ok && final(self)@ == next,
                Err(e) => crate::ssz::plain_outcome(r) == Err::<(), Seq<char>>(e) && final(self)@
                    == old(self)@,
            },
    {
        let verifier = PqSignatureVerifier { answers };
        self.process_signed_block_with_verifier(signed, &verifier)
    }
}

} // verus!
