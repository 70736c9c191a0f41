//! Genesis states.

use vstd::prelude::*;
use vstd::string::StringExecFns;

use crate::app::settings::DEFAULT_VALIDATOR_COUNT;
use crate::app::yaml;
use crate::containers::config::Config;
use crate::containers::state;
use crate::containers::state::{State, StateModel, Validators, VALIDATOR_REGISTRY_LIMIT};
use crate::containers::validator::{Validator, ValidatorIndex};
use crate::networking::discovery;
use crate::networking::hex;
use crate::text;
use crate::types::bytes::Bytes52;
use crate::types::collections::SszList;
use crate::types::uint::Uint64;

verus! {

/// The placeholder key of a validator of the development network.
pub open spec fn devnet_key(i: int) -> Seq<u8> {
    Seq::new(
        52,
        |j: int|
            if j == 0 {
                0xD1u8
            } else if j == 1 {
                (i % 256) as u8
            } else {
                0u8
            },
    )
}

/// A validator of the development network.
pub open spec fn devnet_validator(i: int) -> Validator {
    Validator {
        pubkey: Bytes52::of(devnet_key(i)),
        index: ValidatorIndex(Uint64(i as u64)),
        balance: Uint64(0),
    }
}

/// The validators of the development network.
pub open spec fn devnet_validators(count: nat) -> Seq<Validator> {
    Seq::new(count, |i: int| devnet_validator(i))
}

fn build_devnet_validator(i: usize) -> (r: Validator)
    requires
        i <= u64::MAX,
    ensures
        r == devnet_validator(i as int),
{
    let mut pubkey: [u8; 52] = Bytes52::zero().0;
    pubkey[0] = 0xD1;
    pubkey[1] = (i % 256) as u8;
    let key = Bytes52(pubkey);
    proof {
        assert(key@ =~= devnet_key(i as int));
        Bytes52::lemma_of(key);
    }
    Validator { pubkey: key, index: ValidatorIndex(Uint64(i as u64)), balance: Uint64(0) }
}

fn build_devnet_validators(validator_count: usize) -> (r: Vec<Validator>)
    ensures
        r@ == devnet_validators(validator_count as nat),
{
    let mut out: Vec<Validator> = Vec::new();
    let mut i: usize = 0;
    while i < validator_count
        invariant
            i <= validator_count,
            out@ == devnet_validators(i as nat),
        decreases validator_count - i,
    {
        out.push(build_devnet_validator(i));
        assert(out@ =~= devnet_validators((i + 1) as nat));
        i = i + 1;
    }
    out
}

/// A genesis state with a given registry, or the message about a registry that is
/// too large.
pub open spec fn genesis_with(time: u64, validators: Seq<Validator>) -> Result<
    StateModel,
    Seq<char>,
> {
    if validators.len() > VALIDATOR_REGISTRY_LIMIT {
        Err("SszList exceeds its limit"@)
    } else {
        Ok(state::genesis(Uint64(time), validators))
    }
}

fn build_with(time: u64, validators: Vec<Validator>) -> (r: Result<State, String>)
    ensures
        crate::ssz::view_outcome(r) == genesis_with(time, validators@),
{
    let ghost all = validators@;
    let registry: Validators = match SszList::new(validators) {
        Ok(v) => v,
        Err(e) => {
            return Err(e);
        },
    };
    assert(registry@ =~= all);
    Ok(State::generate_genesis(Uint64(time), registry))
}

/// Builds the genesis state with the default number of validators.
pub fn build_genesis(config: Config) -> (r: Result<State, String>)
    ensures
        crate::ssz::view_outcome(r) == Ok::<StateModel, Seq<char>>(
            state::genesis(
                config.genesis_time,
                devnet_validators(DEFAULT_VALIDATOR_COUNT as nat),
            ),
        ),
{
    build_genesis_with_validator_count(config, DEFAULT_VALIDATOR_COUNT)
}

/// Builds the genesis state of a development network with `validator_count`
/// validators; none, or more than the registry holds, is refused.
pub fn build_genesis_with_validator_count(config: Config, validator_count: usize) -> (r: Result<
    State,
    String,
>)
    ensures
        crate::ssz::view_outcome(r) == (if validator_count == 0 {
            Err::<StateModel, Seq<char>>("validator_count must be > 0"@)
        } else {
            genesis_with(config.genesis_time.0, devnet_validators(validator_count as nat))
        }),
{
    if validator_count == 0 {
        return Err("validator_count must be > 0".to_string());
    }
    build_with(config.genesis_time.0, build_devnet_validators(validator_count))
}

/// `GENESIS_VALIDATORS[i]` and a reason.
pub open spec fn entry_fault(i: nat, reason: Seq<char>) -> Seq<char> {
    "GENESIS_VALIDATORS["@ + text::decimal(i) + "]"@ + reason
}

fn entry_fault_string(i: usize, reason: &str) -> (r: String)
    ensures
        r@ == entry_fault(i as nat, reason@),
{
    let mut s: String = "GENESIS_VALIDATORS[".to_string();
    s.append(text::decimal_string(i as u64).as_str());
    s.append("]");
    s.append(reason);
    s
}

/// The public key that an entry writes in hexadecimal.
pub open spec fn key_of_entry(i: nat, entry: Option<Seq<char>>) -> Result<Seq<u8>, Seq<char>> {
    match entry {
        None => Err(entry_fault(i, " is not a string"@)),
        Some(t) => {
            let b = vstd::utf8::encode_utf8(hex::without_hex_prefix(t));
            if b.len() % 2 != 0 || hex::hex_bytes(b, b.len() / 2) is Err {
                Err(entry_fault(i, " bad hex: invalid digit found in string"@))
            } else if b.len() != 104 {
                Err(entry_fault(i, " expected 52 bytes, got "@ + text::decimal(b.len() / 2)))
            } else {
                Ok(hex::hex_bytes(b, 52)->Ok_0)
            }
        },
    }
}

/// Reads the public key of an entry.
pub fn read_entry_key(i: usize, entry: &Option<String>) -> (r: Result<Bytes52, String>)
    ensures
        match r {
            Ok(k) => key_of_entry(i as nat, discovery::option_text(*entry)) == Ok::<
                Seq<u8>,
                Seq<char>,
            >(k@),
            Err(e) => key_of_entry(i as nat, discovery::option_text(*entry)) == Err::<
                Seq<u8>,
                Seq<char>,
            >(e@),
        },
{
    let t = match entry {
        None => {
            return Err(entry_fault_string(i, " is not a string"));
        },
        Some(t) => t,
    };
    let chars = text::to_chars(t.as_str());
    let digits: String = text::from_chars(hex::strip_hex_prefix(chars.as_slice()));
    let b = digits.as_str().as_bytes();
    let read = hex::read_hex(b);
    let key = match read {
        Ok(v) => v,
        Err(_) => {
            return Err(entry_fault_string(i, " bad hex: invalid digit found in string"));
        },
    };
    if b.len() % 2 != 0 {
        return Err(entry_fault_string(i, " bad hex: invalid digit found in string"));
    }
    if key.len() != 52 {
        let mut reason: String = " expected 52 bytes, got ".to_string();
        reason.append(text::decimal_string(key.len() as u64).as_str());
        return Err(entry_fault_string(i, reason.as_str()));
    }
    Ok(Bytes52::from_slice(key.as_slice()))
}

/// The validators of the first `k` entries, or the first fault.
pub open spec fn validators_of(items: Seq<Option<Seq<char>>>, k: nat) -> Result<
    Seq<Validator>,
    Seq<char>,
>
    decreases k,
{
    if k == 0 {
        Ok(Seq::empty())
    } else {
        match validators_of(items, (k - 1) as nat) {
            Err(e) => Err(e),
            Ok(before) => match key_of_entry((k - 1) as nat, items[k - 1]) {
                Err(e) => Err(e),
                Ok(key) => Ok(
                    before.push(
                        Validator {
                            pubkey: Bytes52::of(key),
                            index: ValidatorIndex(Uint64((k - 1) as u64)),
                            balance: Uint64(0),
                        },
                    ),
                ),
            },
        }
    }
}

proof fn lemma_validators_fault_stays(items: Seq<Option<Seq<char>>>, j: nat, k: nat)
    requires
        j <= k,
        validators_of(items, j) is Err,
    ensures
        validators_of(items, k) == validators_of(items, j),
    decreases k,
{
    if j < k {
        lemma_validators_fault_stays(items, j, (k - 1) as nat);
    }
}

fn read_validators(items: &Vec<Option<String>>) -> (r: Result<Vec<Validator>, String>)
    ensures
        crate::ssz::view_outcome(r) == validators_of(
            discovery::option_texts(items@),
            items@.len(),
        ),
{
    let ghost all = discovery::option_texts(items@);
    let mut out: Vec<Validator> = Vec::new();
    assert(out@ =~= Seq::empty());
    let mut i: usize = 0;
    while i < items.len()
        invariant
            i <= items@.len(),
            all == discovery::option_texts(items@),
            validators_of(all, i as nat) == Ok::<Seq<Validator>, Seq<char>>(out@),
        decreases items@.len() - i,
    {
        assert(all[i as int] == discovery::option_text(items@[i as int]));
        match read_entry_key(i, &items[i]) {
            Ok(pubkey) => {
                proof {
                    Bytes52::lemma_of(pubkey);
                }
                out.push(
                    Validator {
                        pubkey,
                        index: ValidatorIndex(Uint64(i as u64)),
                        balance: Uint64(0),
                    },
                );
            },
            Err(e) => {
                proof {
                    lemma_validators_fault_stays(all, (i + 1) as nat, items@.len());
                }
                return Err(e);
            },
        }
        i = i + 1;
    }
    Ok(out)
}

/// The genesis state of a configuration document, given what the document holds:
/// `time` under `GENESIS_TIME` and `items` under `GENESIS_VALIDATORS`.
pub open spec fn genesis_of_document(
    path: Seq<char>,
    time: Option<u64>,
    items: Option<Seq<Option<Seq<char>>>>,
    override_time: Option<u64>,
) -> Result<StateModel, Seq<char>> {
    let chosen = match override_time {
        Some(t) => t,
        None => match time {
            Some(t) => t,
            None => 0,
        },
    };
    if chosen == 0 {
        Err("missing GENESIS_TIME in "@ + path)
    } else {
        match items {
            None => Err("missing GENESIS_VALIDATORS in "@ + path),
            Some(v) => if v.len() == 0 {
                Err("GENESIS_VALIDATORS is empty in "@ + path)
            } else {
                match validators_of(v, v.len()) {
                    Err(e) => Err(e),
                    Ok(validators) => genesis_with(chosen, validators),
                }
            },
        }
    }
}

fn about_path(what: &str, path: &str) -> (r: String)
    ensures
        r@ == what@ + path@,
{
    let mut s: String = what.to_string();
    s.append(path);
    s
}

/// Builds the genesis state from what a configuration document holds.
pub fn build_genesis_from_document(
    path: &str,
    time: Option<u64>,
    items: &Option<Vec<Option<String>>>,
    genesis_time_override: Option<u64>,
) -> (r: Result<State, String>)
    ensures
        crate::ssz::view_outcome(r) == genesis_of_document(
            path@,
            time,
            yaml::texts_view(*items),
            genesis_time_override,
        ),
{
    let chosen: u64 = match genesis_time_override {
        Some(t) => t,
        None => match time {
            Some(t) => t,
            None => 0,
        },
    };
    if chosen == 0 {
        return Err(about_path("missing GENESIS_TIME in ", path));
    }
    match items {
        None => Err(about_path("missing GENESIS_VALIDATORS in ", path)),
        Some(v) => {
            if v.len() == 0 {
                return Err(about_path("GENESIS_VALIDATORS is empty in ", path));
            }
            match read_validators(v) {
                Err(e) => Err(e),
                Ok(validators) => build_with(chosen, validators),
            }
        },
    }
}

/// The genesis state of a configuration document.
pub open spec fn genesis_of_yaml(path: Seq<char>, raw: Seq<char>, override_time: Option<u64>) -> Result<
    StateModel,
    Seq<char>,
> {
    match yaml::yaml_fault(raw) {
        Some(e) => Err("failed to parse "@ + path + ": "@ + e),
        None => genesis_of_document(
            path,
            yaml::yaml_number(raw, "GENESIS_TIME"@),
            yaml::yaml_texts(raw, "GENESIS_VALIDATORS"@),
            override_time,
        ),
    }
}

/// Builds the genesis state from the text of a configuration document.
pub fn build_genesis_from_config_yaml(path: &str, raw: &str) -> (r: Result<State, String>)
    ensures
        crate::ssz::view_outcome(r) == genesis_of_yaml(path@, raw@, None),
{
    build_genesis_from_config_yaml_with_override(path, raw, None)
}

/// Builds the genesis state from the text of a configuration document, with another
/// genesis time where one is given.
pub fn build_genesis_from_config_yaml_with_override(
    path: &str,
    raw: &str,
    genesis_time_override: Option<u64>,
) -> (r: Result<State, String>)
    ensures
        crate::ssz::view_outcome(r) == genesis_of_yaml(path@, raw@, genesis_time_override),
{
    if let Some(e) = yaml::read_yaml_fault(raw) {
        let mut s: String = "failed to parse ".to_string();
        s.append(path);
        s.append(": ");
        s.append(e.as_str());
        return Err(s);
    }
    let time = yaml::read_yaml_number(raw, "GENESIS_TIME");
    let items = yaml::read_yaml_texts(raw, "GENESIS_VALIDATORS");
    build_genesis_from_document(path, time, &items, genesis_time_override)
}

/// Each validator that a document lists stands in the registry at the place of its
/// entry, with its own key and with a balance of 0.
pub proof fn law_registry_follows_the_document(items: Seq<Option<Seq<char>>>, k: nat, i: nat)
    requires
        i < k <= items.len(),
        validators_of(items, k) is Ok,
        k <= u64::MAX,
    ensures
        validators_of(items, k)->Ok_0.len() == k,
        key_of_entry(i, items[i as int]) is Ok,
        validators_of(items, k)->Ok_0[i as int] == (Validator {
            pubkey: Bytes52::of(key_of_entry(i, items[i as int])->Ok_0),
            index: ValidatorIndex(Uint64(i as u64)),
            balance: Uint64(0),
        }),
    decreases k,
{
    if i < k - 1 {
        law_registry_follows_the_document(items, (k - 1) as nat, i);
    } else {
        lemma_validators_len(items, (k - 1) as nat);
    }
}

proof fn lemma_validators_len(items: Seq<Option<Seq<char>>>, k: nat)
    requires
        validators_of(items, k) is Ok,
    ensures
        validators_of(items, k)->Ok_0.len() == k,
    decreases k,
{
    if k > 0 {
        lemma_validators_len(items, (k - 1) as nat);
    }
}

} // verus!
