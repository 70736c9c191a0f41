//! Selecting a stored block by its slot or by its root.

use vstd::prelude::*;
use vstd::string::StringExecFns;

use crate::networking::hex;
use crate::numbers;
use crate::text;
use crate::types::bytes::Bytes32;

verus! {

/// `s` without a leading `slot:`.
pub open spec fn without_slot_prefix(s: Seq<char>) -> Seq<char> {
    if text::begins_with(s, "slot:"@) {
        s.skip(5)
    } else {
        s
    }
}

/// All characters are decimal digits.
pub open spec fn all_digits(s: Seq<char>) -> bool {
    forall|i: int| 0 <= i < s.len() ==> 48 <= #[trigger] s[i] as u32 <= 57
}

/// The slot that a selector names: at most 18 digits, with or without a leading
/// `slot:`.
pub open spec fn slot_of(arg: Seq<char>) -> Option<u64> {
    let s = without_slot_prefix(arg);
    if s.len() == 0 || vstd::utf8::encode_utf8(s).len() > 18 || !all_digits(s) {
        None
    } else {
        match numbers::unsigned_read(s, u64::MAX as nat) {
            Ok(n) => Some(n as u64),
            Err(_) => None,
        }
    }
}

fn only_digits(s: &[char]) -> (r: bool)
    ensures
        r == all_digits(s@),
{
    let mut i: usize = 0;
    while i < s.len()
        invariant
            i <= s@.len(),
            forall|j: int| 0 <= j < i ==> 48 <= #[trigger] s@[j] as u32 <= 57,
        decreases s@.len() - i,
    {
        let c: u32 = s[i] as u32;
        if c < 48 || c > 57 {
            assert(!(48 <= s@[i as int] as u32 <= 57));
            return false;
        }
        i = i + 1;
    }
    true
}

/// Reads a slot from a selector.
pub fn parse_slot(arg: &str) -> (r: Option<u64>)
    ensures
        r == slot_of(arg@),
{
    let chars = text::to_chars(arg);
    let prefix = text::to_chars("slot:");
    proof {
        reveal_strlit("slot:");
    }
    let s = if text::starts_with(chars.as_slice(), prefix.as_slice()) {
        let rest = vstd::slice::slice_subrange(chars.as_slice(), 5, chars.len());
        assert(rest@ =~= chars@.skip(5));
        rest
    } else {
        chars.as_slice()
    };
    let kept: String = text::from_chars(s);
    if s.len() == 0 || kept.as_str().as_bytes().len() > 18 || !only_digits(s) {
        return None;
    }
    match numbers::read_unsigned(s, u64::MAX) {
        Ok(n) => Some(n),
        Err(_) => None,
    }
}

/// The numbers that the first `k` pairs of hexadecimal digits write.
pub open spec fn strict_bytes(b: Seq<u8>, k: nat) -> Option<Seq<u8>>
    decreases k,
{
    if k == 0 {
        Some(Seq::empty())
    } else {
        match strict_bytes(b, (k - 1) as nat) {
            None => None,
            Some(before) => match (hex::hex_digit(b[2 * k - 2]), hex::hex_digit(b[2 * k - 1])) {
                (Some(h), Some(l)) => Some(before.push((h * 16 + l) as u8)),
                _ => None,
            },
        }
    }
}

/// The root that a selector names in hexadecimal.
pub open spec fn root_of(s: Seq<char>) -> Result<Bytes32, Seq<char>> {
    let b = vstd::utf8::encode_utf8(hex::without_hex_prefix(s));
    if b.len() != 64 {
        Err("expected 32-byte hex (64 chars), got length "@ + text::decimal(b.len()))
    } else {
        match strict_bytes(b, 32) {
            None => Err("invalid hex"@),
            Some(v) => Ok(Bytes32::of(v)),
        }
    }
}

proof fn lemma_strict_stays(b: Seq<u8>, j: nat, k: nat)
    requires
        j <= k,
        strict_bytes(b, j) is None,
    ensures
        strict_bytes(b, k) is None,
    decreases k,
{
    if j < k {
        lemma_strict_stays(b, j, (k - 1) as nat);
    }
}

fn read_strict(b: &[u8]) -> (r: Option<Vec<u8>>)
    requires
        b@.len() == 64,
    ensures
        match r {
            Some(v) => strict_bytes(b@, 32) == Some(v@) && v@.len() == 32,
            None => strict_bytes(b@, 32) is None,
        },
{
    let mut out: Vec<u8> = Vec::new();
    assert(out@ =~= Seq::empty());
    let mut i: usize = 0;
    while i < 32
        invariant
            i <= 32,
            b@.len() == 64,
            out@.len() == i,
            strict_bytes(b@, i as nat) == Some(out@),
        decreases 32 - i,
    {
        match (hex::digit_value(b[2 * i]), hex::digit_value(b[2 * i + 1])) {
            (Some(h), Some(l)) => {
                out.push(h * 16 + l);
            },
            _ => {
                proof {
                    lemma_strict_stays(b@, (i + 1) as nat, 32);
                }
                return None;
            },
        }
        i = i + 1;
    }
    Some(out)
}

/// Reads a root from a selector.
pub fn parse_bytes32(s: &str) -> (r: Result<Bytes32, String>)
    ensures
        crate::ssz::plain_outcome(r) == root_of(s@),
{
    let chars = text::to_chars(s);
    let digits: String = text::from_chars(hex::strip_hex_prefix(chars.as_slice()));
    let b = digits.as_str().as_bytes();
    if b.len() != 64 {
        let mut e: String = "expected 32-byte hex (64 chars), got length ".to_string();
        e.append(text::decimal_string(b.len() as u64).as_str());
        return Err(e);
    }
    match read_strict(b) {
        None => Err("invalid hex".to_string()),
        Some(v) => Ok(Bytes32::from_slice(v.as_slice())),
    }
}

} // verus!
