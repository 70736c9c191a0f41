//! What surrounds the post-quantum signature scheme: key seeds, the shape of its inputs and
//! outputs, and the answers drawn from its verdicts.

use crate::containers::attestation::VALIDATOR_REGISTRY_LIMIT;
use crate::text;
use crate::types::bytes::{Bytes3112, Bytes52};
use vstd::prelude::*;
use vstd::string::StringExecFns;

verus! {

/// What a validator key is for.
#[derive(Clone, Copy, Debug, PartialEq, Eq, Structural)]
pub enum DevnetValidatorKeyRole {
    /// Signs attestations.
    Attestation,
    /// Signs proposals.
    Proposal,
}

/// The number that marks a role in a key seed.
pub open spec fn role_tag(role: DevnetValidatorKeyRole) -> u64 {
    match role {
        DevnetValidatorKeyRole::Attestation => 0x4456_4E45_5431_0000u64,
        DevnetValidatorKeyRole::Proposal => 0x4456_4E45_5431_5052u64,
    }
}

/// The seed of a key: the role's tag and the validator's index mixed in the first eight
/// bytes, then zeros.
pub open spec fn seed_bytes(validator_index: u64, role: DevnetValidatorKeyRole) -> Seq<u8> {
    crate::ssz::u64_bytes(role_tag(role) ^ validator_index) + Seq::new(24, |i: int| 0u8)
}

/// The seed from which a local test network derives a validator key.
pub fn devnet_validator_seed(validator_index: usize, role: DevnetValidatorKeyRole) -> (r: [u8; 32])
    ensures
        r@ == seed_bytes(validator_index as u64, role),
{
    let tag: u64 = match role {
        DevnetValidatorKeyRole::Attestation => 0x4456_4E45_5431_0000u64,
        DevnetValidatorKeyRole::Proposal => 0x4456_4E45_5431_5052u64,
    };
    let mut bytes: Vec<u8> = Vec::new();
    crate::ssz::put_u64(&mut bytes, tag ^ (validator_index as u64));
    let mut i: usize = 8;
    while i < 32
        invariant
            8 <= i <= 32,
            crate::ssz::u64_bytes(tag ^ (validator_index as u64)).len() == 8,
            bytes@ == crate::ssz::u64_bytes(tag ^ (validator_index as u64)) + Seq::new(
                (i - 8) as nat,
                |k: int| 0u8,
            ),
        decreases 32 - i,
    {
        bytes.push(0u8);
        assert(bytes@ =~= crate::ssz::u64_bytes(tag ^ (validator_index as u64)) + Seq::new(
            (i - 7) as nat,
            |k: int| 0u8,
        ));
        i = i + 1;
    }
    crate::types::bytes::Bytes32::from_slice(bytes.as_slice()).0
}

/// Keys of different roles or different validators come from different seeds, but for the
/// keys of different roles of two validators whose indexes differ in just the bits in
/// which the role tags do. No registry holds two such validators.
pub proof fn law_seeds_are_distinct(
    a: u64,
    role_a: DevnetValidatorKeyRole,
    b: u64,
    role_b: DevnetValidatorKeyRole,
)
    requires
        seed_bytes(a, role_a) == seed_bytes(b, role_b),
    ensures
        if role_a == role_b {
            a == b
        } else {
            a ^ b == 0x5052 && (a >= VALIDATOR_REGISTRY_LIMIT || b >= VALIDATOR_REGISTRY_LIMIT)
        },
{
    let x = role_tag(role_a) ^ a;
    let y = role_tag(role_b) ^ b;
    crate::ssz::lemma_u64_len(x);
    crate::ssz::lemma_u64_len(y);
    let seed = seed_bytes(a, role_a);
    assert(seed.subrange(0, 8) =~= crate::ssz::u64_bytes(x));
    assert(seed.subrange(0, 8) =~= crate::ssz::u64_bytes(y));
    crate::ssz::lemma_u64_read(seed, 0, x);
    crate::ssz::lemma_u64_read(seed, 0, y);
    assert(x == y);
    let ta = role_tag(role_a);
    let tb = role_tag(role_b);
    assert((ta == tb ==> a == b) && (ta != tb ==> a ^ b == 0x5052 && (a >= 4096 || b >= 4096)))
        by (bit_vector)
        requires
            ta ^ a == tb ^ b,
            ta == 0x4456_4E45_5431_0000u64 || ta == 0x4456_4E45_5431_5052u64,
            tb == 0x4456_4E45_5431_0000u64 || tb == 0x4456_4E45_5431_5052u64,
    ;
}

/// `unexpected what length got, expected want`.
pub open spec fn odd_length_text(what: Seq<char>, got: nat, want: nat) -> Seq<char> {
    "unexpected "@ + what + " length "@ + text::decimal(got) + ", expected "@ + text::decimal(want)
}

fn odd_length(what: &str, got: usize, want: usize) -> (r: String)
    ensures
        r@ == odd_length_text(what@, got as nat, want as nat),
{
    let mut s: String = "unexpected ".to_string();
    s.append(what);
    s.append(" length ");
    s.append(text::decimal_string(got as u64).as_str());
    s.append(", expected ");
    s.append(text::decimal_string(want as u64).as_str());
    s
}

/// Takes the encoded public key that key generation gave.
pub fn generated_public_key(bytes: &[u8]) -> (r: Result<Bytes52, String>)
    ensures
        crate::ssz::plain_outcome(r) == (if bytes@.len() == 52 {
            Ok::<Bytes52, Seq<char>>(Bytes52::of(bytes@))
        } else {
            Err(odd_length_text("public key"@, bytes@.len(), 52))
        }),
{
    if bytes.len() != 52 {
        return Err(odd_length("public key", bytes.len(), 52));
    }
    Ok(Bytes52::from_slice(bytes))
}

/// Takes the encoded signature that signing gave.
pub fn generated_signature(bytes: &[u8]) -> (r: Result<Bytes3112, String>)
    ensures
        crate::ssz::plain_outcome(r) == (if bytes@.len() == 3112 {
            Ok::<Bytes3112, Seq<char>>(Bytes3112::of(bytes@))
        } else {
            Err(odd_length_text("signature"@, bytes@.len(), 3112))
        }),
{
    if bytes.len() != 3112 {
        return Err(odd_length("signature", bytes.len(), 3112));
    }
    Ok(Bytes3112::from_slice(bytes))
}

/// The message for counts that differ.
pub open spec fn count_mismatch_text(keys: nat, what: Seq<char>, others: nat) -> Seq<char> {
    "public key count ("@ + text::decimal(keys) + ") does not match "@ + what + " count ("@
        + text::decimal(others) + ")"@
}

fn count_mismatch(keys: usize, what: &str, others: usize) -> (r: String)
    ensures
        r@ == count_mismatch_text(keys as nat, what@, others as nat),
{
    let mut s: String = "public key count (".to_string();
    s.append(text::decimal_string(keys as u64).as_str());
    s.append(") does not match ");
    s.append(what);
    s.append(" count (");
    s.append(text::decimal_string(others as u64).as_str());
    s.append(")");
    s
}

/// What the counts of an aggregation answer.
pub open spec fn aggregate_counts(keys: nat, what: Seq<char>, others: nat) -> Result<
    (),
    Seq<char>,
> {
    if keys == 0 {
        Err("aggregate signature participants must be non-empty"@)
    } else if keys != others {
        Err(count_mismatch_text(keys, what, others))
    } else {
        Ok(())
    }
}

/// Checks the counts before `secret_keys` sign for `public_keys` and are aggregated.
pub fn check_sign_aggregate(public_keys: usize, secret_keys: usize) -> (r: Result<(), String>)
    ensures
        crate::ssz::plain_outcome(r) == aggregate_counts(
            public_keys as nat,
            "secret key"@,
            secret_keys as nat,
        ),
{
    if public_keys == 0 {
        return Err("aggregate signature participants must be non-empty".to_string());
    }
    if public_keys != secret_keys {
        return Err(count_mismatch(public_keys, "secret key", secret_keys));
    }
    Ok(())
}

/// Checks the counts before `signatures` of `public_keys` are aggregated.
pub fn check_aggregate_signatures(public_keys: usize, signatures: usize) -> (r: Result<(), String>)
    ensures
        crate::ssz::plain_outcome(r) == aggregate_counts(
            public_keys as nat,
            "signature"@,
            signatures as nat,
        ),
{
    if public_keys == 0 {
        return Err("aggregate signature participants must be non-empty".to_string());
    }
    if public_keys != signatures {
        return Err(count_mismatch(public_keys, "signature", signatures));
    }
    Ok(())
}

/// Checks the counts before existing proofs and further signatures are aggregated.
pub fn check_aggregate_proofs(children: usize, public_keys: usize, signatures: usize) -> (r: Result<
    (),
    String,
>)
    ensures
        crate::ssz::plain_outcome(r) == (if public_keys != signatures {
            Err::<(), Seq<char>>(
                count_mismatch_text(public_keys as nat, "signature"@, signatures as nat),
            )
        } else if children == 0 && public_keys == 0 {
            Err("aggregate signature participants must be non-empty"@)
        } else {
            Ok(())
        }),
{
    if public_keys != signatures {
        return Err(count_mismatch(public_keys, "signature", signatures));
    }
    if children == 0 && public_keys == 0 {
        return Err("aggregate signature participants must be non-empty".to_string());
    }
    Ok(())
}

/// Checks the inputs before an aggregated proof is verified.
pub fn check_verify_aggregate(public_keys: usize, proof_len: usize) -> (r: Result<(), String>)
    ensures
        crate::ssz::plain_outcome(r) == (if public_keys == 0 {
            Err::<(), Seq<char>>("aggregate signature participants must be non-empty"@)
        } else if proof_len < 8 {
            Err("failed to decode aggregate signature: proof too short"@)
        } else {
            Ok(())
        }),
{
    if public_keys == 0 {
        return Err("aggregate signature participants must be non-empty".to_string());
    }
    if proof_len < 8 {
        return Err("failed to decode aggregate signature: proof too short".to_string());
    }
    Ok(())
}

/// The answer drawn from the verdict on a single signature.
pub fn single_signature_answer(accepted: bool) -> (r: Result<(), String>)
    ensures
        crate::ssz::plain_outcome(r) == (if accepted {
            Ok::<(), Seq<char>>(())
        } else {
            Err("Proposer signature verification failed"@)
        }),
{
    if accepted {
        Ok(())
    } else {
        Err("Proposer signature verification failed".to_string())
    }
}

} // verus!
