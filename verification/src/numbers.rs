//! Reading integers from text, with the messages that the standard parser gives.

use vstd::prelude::*;
use vstd::slice::slice_subrange;

verus! {

/// Why a text is no number of the wanted type.
#[derive(Clone, Copy, Debug, PartialEq, Eq, Structural)]
pub enum NumberFault {
    /// The text is empty.
    Empty,
    /// A character is no digit, or only a sign is there.
    InvalidDigit,
    /// The number is above the type's range.
    TooLarge,
    /// The number is below the type's range.
    TooSmall,
}

impl NumberFault {
    /// The message that describes the fault.
    pub open spec fn text(self) -> Seq<char> {
        match self {
            NumberFault::Empty => "cannot parse integer from empty string"@,
            NumberFault::InvalidDigit => "invalid digit found in string"@,
            NumberFault::TooLarge => "number too large to fit in target type"@,
            NumberFault::TooSmall => "number too small to fit in target type"@,
        }
    }

    /// Writes the message that describes the fault.
    pub fn message(self) -> (r: String)
        ensures
            r@ == self.text(),
    {
        match self {
            NumberFault::Empty => "cannot parse integer from empty string".to_string(),
            NumberFault::InvalidDigit => "invalid digit found in string".to_string(),
            NumberFault::TooLarge => "number too large to fit in target type".to_string(),
            NumberFault::TooSmall => "number too small to fit in target type".to_string(),
        }
    }
}

/// The number that the first `k` characters write in decimal, or the first
/// fault met from the left.
pub open spec fn digits_read(s: Seq<char>, k: nat, max: nat) -> Result<nat, NumberFault>
    decreases k,
{
    if k == 0 {
        Ok(0)
    } else {
        match digits_read(s, (k - 1) as nat, max) {
            Err(f) => Err(f),
            Ok(v) => {
                let c = s[k - 1] as u32;
                let next = v * 10 + (c - 48);
                if c < 48 || c > 57 {
                    Err(NumberFault::InvalidDigit)
                } else if next > max {
                    Err(NumberFault::TooLarge)
                } else {
                    Ok(next as nat)
                }
            },
        }
    }
}

/// A fault met early stays.
pub proof fn lemma_fault_stays(s: Seq<char>, j: nat, k: nat, max: nat)
    requires
        j <= k,
        digits_read(s, j, max) is Err,
    ensures
        digits_read(s, k, max) == digits_read(s, j, max),
    decreases k,
{
    if j < k {
        lemma_fault_stays(s, j, (k - 1) as nat, max);
    }
}

/// The unsigned number up to `max` that a text writes, a leading `+` allowed.
pub open spec fn unsigned_read(s: Seq<char>, max: nat) -> Result<nat, NumberFault> {
    if s.len() == 0 {
        Err(NumberFault::Empty)
    } else if s.len() == 1 && (s[0] == '+' || s[0] == '-') {
        Err(NumberFault::InvalidDigit)
    } else if s[0] == '+' {
        digits_read(s.skip(1), (s.len() - 1) as nat, max)
    } else {
        digits_read(s, s.len(), max)
    }
}

/// The number between `-max - 1` and `max` that a text writes, a leading sign
/// allowed.
pub open spec fn signed_read(s: Seq<char>, max: nat) -> Result<int, NumberFault> {
    if s.len() > 1 && s[0] == '-' {
        match digits_read(s.skip(1), (s.len() - 1) as nat, max + 1) {
            Ok(v) => Ok(-(v as int)),
            Err(NumberFault::TooLarge) => Err(NumberFault::TooSmall),
            Err(f) => Err(f),
        }
    } else {
        match unsigned_read(s, max) {
            Ok(v) => Ok(v as int),
            Err(f) => Err(f),
        }
    }
}

/// Reads decimal digits.
fn read_digits(s: &[char], max: u64) -> (r: Result<u64, NumberFault>)
    requires
        max >= 9,
    ensures
        match r {
            Ok(v) => digits_read(s@, s@.len(), max as nat) == Ok::<nat, NumberFault>(v as nat) && v
                <= max,
            Err(f) => digits_read(s@, s@.len(), max as nat) == Err::<nat, NumberFault>(f),
        },
{
    let mut v: u64 = 0;
    let mut i: usize = 0;
    while i < s.len()
        invariant
            i <= s@.len(),
            9 <= max,
            v <= max,
            digits_read(s@, i as nat, max as nat) == Ok::<nat, NumberFault>(v as nat),
        decreases s@.len() - i,
    {
        let c: u32 = s[i] as u32;
        if c < 48 || c > 57 {
            proof {
                lemma_fault_stays(s@, (i + 1) as nat, s@.len(), max as nat);
            }
            return Err(NumberFault::InvalidDigit);
        }
        let d: u64 = (c - 48) as u64;
        if v > (max - d) / 10 {
            proof {
                lemma_fault_stays(s@, (i + 1) as nat, s@.len(), max as nat);
            }
            return Err(NumberFault::TooLarge);
        }
        v = v * 10 + d;
        i = i + 1;
    }
    Ok(v)
}

/// Reads an unsigned number up to `max`.
pub fn read_unsigned(s: &[char], max: u64) -> (r: Result<u64, NumberFault>)
    requires
        max >= 9,
    ensures
        match r {
            Ok(v) => unsigned_read(s@, max as nat) == Ok::<nat, NumberFault>(v as nat) && v <= max,
            Err(f) => unsigned_read(s@, max as nat) == Err::<nat, NumberFault>(f),
        },
{
    if s.len() == 0 {
        return Err(NumberFault::Empty);
    }
    if s.len() == 1 && (s[0] == '+' || s[0] == '-') {
        return Err(NumberFault::InvalidDigit);
    }
    if s[0] == '+' {
        let digits = slice_subrange(s, 1, s.len());
        assert(digits@ =~= s@.skip(1));
        read_digits(digits, max)
    } else {
        read_digits(s, max)
    }
}

/// Reads a signed 64-bit number.
pub fn read_i64(s: &[char]) -> (r: Result<i64, NumberFault>)
    ensures
        match r {
            Ok(v) => signed_read(s@, i64::MAX as nat) == Ok::<int, NumberFault>(v as int),
            Err(f) => signed_read(s@, i64::MAX as nat) == Err::<int, NumberFault>(f),
        },
{
    if s.len() > 1 && s[0] == '-' {
        let digits = slice_subrange(s, 1, s.len());
        assert(digits@ =~= s@.skip(1));
        match read_digits(digits, 0x8000_0000_0000_0000) {
            Ok(v) => {
                if v == 0x8000_0000_0000_0000 {
                    Ok(i64::MIN)
                } else {
                    Ok(-(v as i64))
                }
            },
            Err(f) => {
                match f {
                    NumberFault::TooLarge => Err(NumberFault::TooSmall),
                    NumberFault::Empty => Err(NumberFault::Empty),
                    NumberFault::InvalidDigit => Err(NumberFault::InvalidDigit),
                    NumberFault::TooSmall => Err(NumberFault::TooSmall),
                }
            },
        }
    } else {
        match read_unsigned(s, 0x7fff_ffff_ffff_ffff) {
            Ok(v) => Ok(v as i64),
            Err(f) => Err(f),
        }
    }
}

/// What is read of a prefix depends on that prefix alone.
proof fn lemma_read_prefix(s: Seq<char>, t: Seq<char>, k: nat, max: nat)
    requires
        k <= s.len(),
        k <= t.len(),
        s.take(k as int) == t.take(k as int),
    ensures
        digits_read(s, k, max) == digits_read(t, k, max),
    decreases k,
{
    if k > 0 {
        let j = (k - 1) as nat;
        assert(s.take(j as int) =~= s.take(k as int).take(j as int));
        assert(t.take(j as int) =~= t.take(k as int).take(j as int));
        assert(s[k - 1] == s.take(k as int)[k - 1]);
        assert(t[k - 1] == t.take(k as int)[k - 1]);
        lemma_read_prefix(s, t, j, max);
    }
}

/// A numeral consists of digits and writes its number.
proof fn lemma_numeral(n: nat, max: nat)
    requires
        n <= max,
    ensures
        crate::text::decimal(n).len() > 0,
        48 <= crate::text::decimal(n)[0] as u32 <= 57,
        digits_read(crate::text::decimal(n), crate::text::decimal(n).len(), max) == Ok::<
            nat,
            NumberFault,
        >(n),
    decreases n,
{
    let s = crate::text::decimal(n);
    if n < 10 {
        assert(digits_read(s, 0, max) == Ok::<nat, NumberFault>(0));
        assert(s[0] == crate::text::digit_char(n));
    } else {
        let t = crate::text::decimal(n / 10);
        lemma_numeral(n / 10, max);
        assert(s == t.push(crate::text::digit_char(n % 10)));
        assert(s.take(t.len() as int) =~= t.take(t.len() as int));
        lemma_read_prefix(s, t, t.len(), max);
        assert(s[0] == t[0]);
    }
}

/// A number's decimal numeral reads back as the number.
pub proof fn law_numeral_reads_back(n: nat, max: nat)
    requires
        n <= max,
    ensures
        unsigned_read(crate::text::decimal(n), max) == Ok::<nat, NumberFault>(n),
{
    lemma_numeral(n, max);
}

} // verus!
