//! Hexadecimal bytes.

use vstd::prelude::*;
use vstd::string::StringExecFns;

use crate::text;

verus! {

/// The value of a hexadecimal digit, given as a byte of text.
pub open spec fn hex_digit(b: u8) -> Option<u8> {
    if 48 <= b <= 57 {
        Some((b - 48) as u8)
    } else if 97 <= b <= 102 {
        Some((b - 87) as u8)
    } else if 65 <= b <= 70 {
        Some((b - 55) as u8)
    } else {
        None
    }
}

/// The number that two bytes of text write in hexadecimal. A plus sign may stand
/// in place of the first digit.
pub open spec fn hex_pair(high: u8, low: u8) -> Option<u8> {
    match hex_digit(low) {
        None => None,
        Some(l) => if high == 43 {
            Some(l)
        } else {
            match hex_digit(high) {
                None => None,
                Some(h) => Some((h * 16 + l) as u8),
            }
        },
    }
}

/// Reads a hexadecimal digit.
pub fn digit_value(b: u8) -> (r: Option<u8>)
    ensures
        r == hex_digit(b),
        r matches Some(v) ==> v < 16,
{
    if 48 <= b && b <= 57 {
        Some(b - 48)
    } else if 97 <= b && b <= 102 {
        Some(b - 87)
    } else if 65 <= b && b <= 70 {
        Some(b - 55)
    } else {
        None
    }
}

/// Reads the number that two bytes of text write.
pub fn read_hex_pair(high: u8, low: u8) -> (r: Option<u8>)
    ensures
        r == hex_pair(high, low),
{
    match digit_value(low) {
        None => None,
        Some(l) => if high == 43 {
            Some(l)
        } else {
            match digit_value(high) {
                None => None,
                Some(h) => Some(h * 16 + l),
            }
        },
    }
}

/// The numbers that the first `k` pairs of bytes write, or the first pair that
/// writes none.
pub open spec fn hex_bytes(b: Seq<u8>, k: nat) -> Result<Seq<u8>, nat>
    decreases k,
{
    if k == 0 {
        Ok(Seq::empty())
    } else {
        match hex_bytes(b, (k - 1) as nat) {
            Err(i) => Err(i),
            Ok(before) => match hex_pair(b[2 * k - 2], b[2 * k - 1]) {
                Some(v) => Ok(before.push(v)),
                None => Err((k - 1) as nat),
            },
        }
    }
}

proof fn lemma_hex_stays(b: Seq<u8>, j: nat, k: nat)
    requires
        j <= k,
        hex_bytes(b, j) is Err,
    ensures
        hex_bytes(b, k) == hex_bytes(b, j),
    decreases k,
{
    if j < k {
        lemma_hex_stays(b, j, (k - 1) as nat);
    }
}

/// Reads pairs of bytes.
pub fn read_hex(b: &[u8]) -> (r: Result<Vec<u8>, usize>)
    ensures
        match r {
            Ok(v) => hex_bytes(b@, b@.len() / 2) == Ok::<Seq<u8>, nat>(v@) && v@.len() == b@.len()
                / 2,
            Err(i) => hex_bytes(b@, b@.len() / 2) == Err::<Seq<u8>, nat>(i as nat) && i < b@.len()
                / 2,
        },
{
    let n: usize = b.len() / 2;
    let mut out: Vec<u8> = Vec::new();
    let mut i: usize = 0;
    assert(out@ =~= Seq::empty());
    while i < n
        invariant
            i <= n,
            n == b@.len() / 2,
            out@.len() == i,
            hex_bytes(b@, i as nat) == Ok::<Seq<u8>, nat>(out@),
        decreases n - i,
    {
        match read_hex_pair(b[2 * i], b[2 * i + 1]) {
            Some(v) => out.push(v),
            None => {
                proof {
                    lemma_hex_stays(b@, (i + 1) as nat, n as nat);
                }
                return Err(i);
            },
        }
        i = i + 1;
    }
    Ok(out)
}

/// `s` without a leading `0x`.
pub open spec fn without_hex_prefix(s: Seq<char>) -> Seq<char> {
    if text::begins_with(s, "0x"@) {
        s.skip(2)
    } else {
        s
    }
}

/// Takes a leading `0x` off.
pub fn strip_hex_prefix<'a>(s: &'a [char]) -> (r: &'a [char])
    ensures
        r@ == without_hex_prefix(s@),
{
    let prefix = text::to_chars("0x");
    proof {
        reveal_strlit("0x");
    }
    if text::starts_with(s, prefix.as_slice()) {
        let r = vstd::slice::slice_subrange(s, 2, s.len());
        assert(r@ =~= s@.skip(2));
        r
    } else {
        s
    }
}

/// The 32-byte key that a text writes in hexadecimal.
pub open spec fn key_of(raw: Seq<char>) -> Result<Seq<u8>, Seq<char>> {
    let b = vstd::utf8::encode_utf8(without_hex_prefix(text::trimmed(raw)));
    if b.len() != 64 {
        Err(
            "expected 32-byte hex (64 chars), got "@ + text::decimal(b.len())
                + " chars"@,
        )
    } else {
        match hex_bytes(b, 32) {
            Ok(v) => Ok(v),
            Err(i) => Err(
                "invalid hex at ["@ + text::decimal(2 * i) + ".."@ + text::decimal(2 * i + 2)
                    + "]: invalid digit found in string"@,
            ),
        }
    }
}

/// Reads a 32-byte key.
pub fn decode_hex_key(raw: &str) -> (r: Result<Vec<u8>, String>)
    ensures
        crate::ssz::view_outcome(r) == key_of(raw@),
{
    let chars = text::to_chars(raw);
    let body = strip_hex_prefix(text::trim(chars.as_slice()));
    let kept: String = text::from_chars(body);
    let b = kept.as_str().as_bytes();
    if b.len() != 64 {
        let mut s: String = "expected 32-byte hex (64 chars), got ".to_string();
        s.append(text::decimal_string(b.len() as u64).as_str());
        s.append(" chars");
        return Err(s);
    }
    match read_hex(b) {
        Ok(v) => Ok(v),
        Err(i) => {
            let mut s: String = "invalid hex at [".to_string();
            s.append(text::decimal_string(2 * i as u64).as_str());
            s.append("..");
            s.append(text::decimal_string(2 * i as u64 + 2).as_str());
            s.append("]: invalid digit found in string");
            Err(s)
        },
    }
}

/// The lower-case hexadecimal digit of a number below 16.
pub open spec fn hex_char(d: nat) -> char {
    if d < 10 {
        (48 + d) as char
    } else {
        (87 + d) as char
    }
}

/// The first `k` bytes in hexadecimal.
pub open spec fn hex_text(b: Seq<u8>, k: nat) -> Seq<char>
    decreases k,
{
    if k == 0 {
        Seq::empty()
    } else {
        hex_text(b, (k - 1) as nat).push(hex_char((b[k - 1] / 16) as nat)).push(
            hex_char((b[k - 1] % 16) as nat),
        )
    }
}

fn digit_of(d: u8) -> (r: char)
    requires
        d < 16,
    ensures
        r == hex_char(d as nat),
{
    if d < 10 {
        (48 + d) as char
    } else {
        (87 + d) as char
    }
}

/// Writes bytes in hexadecimal.
pub fn to_hex(bytes: &[u8]) -> (r: String)
    ensures
        r@ == hex_text(bytes@, bytes@.len()),
{
    let mut s: String = String::new();
    let mut i: usize = 0;
    assert(s@ =~= Seq::empty());
    while i < bytes.len()
        invariant
            i <= bytes@.len(),
            s@ == hex_text(bytes@, i as nat),
        decreases bytes@.len() - i,
    {
        s.push(digit_of(bytes[i] / 16));
        s.push(digit_of(bytes[i] % 16));
        i = i + 1;
    }
    s
}

/// Writes bytes in hexadecimal with a leading `0x`.
pub fn hex_encode(bytes: &[u8]) -> (r: String)
    ensures
        r@ == "0x"@ + hex_text(bytes@, bytes@.len()),
{
    let mut s: String = "0x".to_string();
    s.append(to_hex(bytes).as_str());
    s
}

proof fn lemma_hex_text(b: Seq<u8>, k: nat)
    requires
        k <= b.len(),
    ensures
        hex_text(b, k).len() == 2 * k,
        vstd::utf8::is_ascii_chars(hex_text(b, k)),
        forall|i: int|
            0 <= i < k ==> #[trigger] hex_text(b, k)[2 * i] == hex_char((b[i] / 16) as nat)
                && hex_text(b, k)[2 * i + 1] == hex_char((b[i] % 16) as nat),
    decreases k,
{
    if k > 0 {
        lemma_hex_text(b, (k - 1) as nat);
        let before = hex_text(b, (k - 1) as nat);
        let now = hex_text(b, k);
        assert forall|i: int| 0 <= i < k implies #[trigger] now[2 * i] == hex_char(
            (b[i] / 16) as nat,
        ) && now[2 * i + 1] == hex_char((b[i] % 16) as nat) by {
            if i < k - 1 {
                assert(now[2 * i] == before[2 * i]);
                assert(now[2 * i + 1] == before[2 * i + 1]);
            }
        }
        assert forall|j: int| 0 <= j < now.len() implies (0 <= #[trigger] now[j] as nat) && (
        now[j] as nat) < 128 by {
            if j < before.len() {
                assert(now[j] == before[j]);
                assert(vstd::utf8::is_ascii_chars(before));
            }
        }
    }
}

proof fn lemma_reads_back(b: Seq<u8>, digits: Seq<u8>, k: nat)
    requires
        k <= b.len(),
        2 * b.len() <= digits.len(),
        forall|i: int|
            0 <= i < b.len() ==> #[trigger] digits[2 * i] as char == hex_char((b[i] / 16) as nat)
                && digits[2 * i + 1] as char == hex_char((b[i] % 16) as nat),
    ensures
        hex_bytes(digits, k) == Ok::<Seq<u8>, nat>(b.take(k as int)),
    decreases k,
{
    if k == 0 {
        assert(b.take(0) =~= Seq::empty());
    } else {
        lemma_reads_back(b, digits, (k - 1) as nat);
        let i = k - 1;
        assert(digits[2 * i] as char == hex_char((b[i] / 16) as nat));
        assert(b.take(k as int) =~= b.take(i).push(b[i]));
        assert(hex_pair(digits[2 * k - 2], digits[2 * k - 1]) == Some(b[i]));
    }
}

/// Bytes written in hexadecimal read back as the bytes.
pub proof fn law_hex_reads_back(b: Seq<u8>)
    ensures
        hex_bytes(vstd::utf8::encode_utf8(hex_text(b, b.len())), b.len()) == Ok::<Seq<u8>, nat>(b),
{
    let t = hex_text(b, b.len());
    lemma_hex_text(b, b.len());
    vstd::utf8::is_ascii_chars_encode_utf8(t);
    let digits = vstd::utf8::encode_utf8(t);
    assert forall|i: int| 0 <= i < b.len() implies #[trigger] digits[2 * i] as char == hex_char(
        (b[i] / 16) as nat,
    ) && digits[2 * i + 1] as char == hex_char((b[i] % 16) as nat) by {
        assert(t[2 * i] == hex_char((b[i] / 16) as nat));
        assert(digits[2 * i] == t[2 * i] as u8);
        assert(digits[2 * i + 1] == t[2 * i + 1] as u8);
    }
    lemma_reads_back(b, digits, b.len());
    assert(b.take(b.len() as int) =~= b);
}

} // verus!
