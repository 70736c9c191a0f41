//! How texts are trimmed, cut and read, and how numbers and bytes are written.

use crate::networking::hex;
use crate::numbers;
use crate::numbers::NumberFault;
use crate::text;
use vstd::prelude::*;

verus! {

/// The ten digits, in order.
pub open spec fn is_digit(c: char, d: int) -> bool {
    ||| d == 0 && c == '0'
    ||| d == 1 && c == '1'
    ||| d == 2 && c == '2'
    ||| d == 3 && c == '3'
    ||| d == 4 && c == '4'
    ||| d == 5 && c == '5'
    ||| d == 6 && c == '6'
    ||| d == 7 && c == '7'
    ||| d == 8 && c == '8'
    ||| d == 9 && c == '9'
}

/// The digits above nine, in order, small or large.
pub open spec fn is_letter_digit(c: char, d: int, small: bool) -> bool {
    ||| d == 10 && c == (if small { 'a' } else { 'A' })
    ||| d == 11 && c == (if small { 'b' } else { 'B' })
    ||| d == 12 && c == (if small { 'c' } else { 'C' })
    ||| d == 13 && c == (if small { 'd' } else { 'D' })
    ||| d == 14 && c == (if small { 'e' } else { 'E' })
    ||| d == 15 && c == (if small { 'f' } else { 'F' })
}

/// The last character of a numeral is the digit of the number modulo ten, and what stands before
/// it is the numeral of the number divided by ten; a number below ten has one digit.
pub proof fn law_numerals(n: nat)
    ensures
        text::decimal(n).len() > 0,
        is_digit(text::decimal(n).last(), n as int % 10),
        n < 10 ==> text::decimal(n).len() == 1,
        n >= 10 ==> text::decimal(n).drop_last() == text::decimal(n / 10),
{
    let d = n % 10;
    assert(is_digit(text::digit_char(d), d as int));
    if n >= 10 {
        assert(text::decimal(n).drop_last() =~= text::decimal(n / 10));
    }
}

/// Two characters for each byte: the higher digit, then the lower, in small letters.
pub proof fn law_hex_digits(b: Seq<u8>, k: nat, i: int)
    requires
        k <= b.len(),
        0 <= i < k,
    ensures
        ({
            let t = hex::hex_text(b, k);
            &&& t.len() == 2 * k
            &&& is_digit(t[2 * i], b[i] as int / 16) || is_letter_digit(
                t[2 * i],
                b[i] as int / 16,
                true,
            )
            &&& is_digit(t[2 * i + 1], b[i] as int % 16) || is_letter_digit(
                t[2 * i + 1],
                b[i] as int % 16,
                true,
            )
        }),
    decreases k,
{
    let t = hex::hex_text(b, k);
    let before = hex::hex_text(b, (k - 1) as nat);
    lemma_hex_char((b[k - 1] / 16) as nat);
    lemma_hex_char((b[k - 1] % 16) as nat);
    if k > 1 {
        if i < k - 1 {
            law_hex_digits(b, (k - 1) as nat, i);
        } else {
            law_hex_digits(b, (k - 1) as nat, 0);
        }
    } else {
        reveal_with_fuel(hex::hex_text, 2);
    }
}

proof fn lemma_hex_char(d: nat)
    requires
        d < 16,
    ensures
        is_digit(hex::hex_char(d), d as int) || is_letter_digit(hex::hex_char(d), d as int, true),
{
}

/// A byte of text is a hexadecimal digit exactly when it is one of the ten digits or one of the
/// six letters, small or large.
pub proof fn law_hex_values(c: char)
    requires
        (c as u32) < 128,
    ensures
        hex::hex_digit(c as u8) matches Some(d) ==> is_digit(c, d as int) || is_letter_digit(
            c,
            d as int,
            true,
        ) || is_letter_digit(c, d as int, false),
        forall|d: int|
            #[trigger] is_digit(c, d) ==> hex::hex_digit(c as u8) == Some(d as u8),
        forall|d: int, small: bool|
            #[trigger] is_letter_digit(c, d, small) ==> hex::hex_digit(c as u8) == Some(d as u8),
{
}

/// A digit behind a numeral that could be read gives ten times the number and the digit, where
/// that is not too large; anything but a digit cannot be read.
pub proof fn law_digits_are_read(s: Seq<char>, k: nat, max: nat)
    requires
        0 < k <= s.len(),
        numbers::digits_read(s, (k - 1) as nat, max) is Ok,
    ensures
        ({
            let v = numbers::digits_read(s, (k - 1) as nat, max)->Ok_0;
            &&& forall|d: int| #[trigger]
                is_digit(s[k - 1], d) && 10 * v + d <= max ==> numbers::digits_read(s, k, max)
                    == Ok::<nat, NumberFault>((10 * v + d) as nat)
            &&& forall|d: int| #[trigger]
                is_digit(s[k - 1], d) && 10 * v + d > max ==> numbers::digits_read(s, k, max)
                    == Err::<nat, NumberFault>(NumberFault::TooLarge)
            &&& (forall|d: int| !#[trigger] is_digit(s[k - 1], d)) ==> numbers::digits_read(
                s,
                k,
                max,
            ) == Err::<nat, NumberFault>(NumberFault::InvalidDigit)
        }),
{
    lemma_digit(s[k - 1]);
}

proof fn lemma_digit(c: char)
    ensures
        48 <= c as u32 <= 57 ==> is_digit(c, c as u32 - 48),
        forall|d: int| #[trigger] is_digit(c, d) ==> c as u32 == 48 + d && 0 <= d <= 9,
{
}

/// A number may carry a plus sign in front, which changes nothing; a sign alone is no number, and
/// neither is an empty text. A minus sign makes a number negative.
pub proof fn law_signs(s: Seq<char>, max: nat)
    ensures
        numbers::unsigned_read(Seq::empty(), max) == Err::<nat, NumberFault>(NumberFault::Empty),
        s.len() > 1 && s[0] == '+' ==> numbers::unsigned_read(s, max) == numbers::digits_read(
            s.skip(1),
            (s.len() - 1) as nat,
            max,
        ),
        s.len() > 0 && s[0] != '+' && s[0] != '-' ==> numbers::unsigned_read(s, max)
            == numbers::digits_read(s, s.len(), max),
        s.len() == 1 && (s[0] == '+' || s[0] == '-') ==> numbers::unsigned_read(s, max) == Err::<
            nat,
            NumberFault,
        >(NumberFault::InvalidDigit),
        s.len() > 1 && s[0] == '-' ==> (numbers::digits_read(
            s.skip(1),
            (s.len() - 1) as nat,
            max + 1,
        ) matches Ok(v) ==> numbers::signed_read(s, max) == Ok::<int, NumberFault>(0 - v)),
        s.len() > 0 && s[0] != '-' ==> (numbers::unsigned_read(s, max) matches Ok(v)
            ==> numbers::signed_read(s, max) == Ok::<int, NumberFault>(v as int)),
{
}

/// Trimming takes white space from both ends and nothing else: what is left neither begins nor
/// ends with white space, and what was taken was nothing but white space.
pub proof fn law_trimming(s: Seq<char>)
    ensures
        exists|a: int, b: int|
            0 <= a <= b <= s.len() && text::trimmed(s) == #[trigger] s.subrange(a, b) && (forall|
                i: int,
            |
                0 <= i < a || b <= i < s.len() ==> text::is_space(#[trigger] s[i])),
        text::trimmed(s).len() > 0 ==> !text::is_space(text::trimmed(s)[0]) && !text::is_space(
            text::trimmed(s).last(),
        ),
{
    let a = lemma_trim_start(s);
    let t = text::trimmed_start(s);
    let n = lemma_trim_end(t);
    assert(text::trimmed(s) =~= s.subrange(a, a + n));
    assert forall|i: int| 0 <= i < a || a + n <= i < s.len() implies text::is_space(
        #[trigger] s[i],
    ) by {
        if i >= a + n {
            assert(t[i - a] == s[i]);
        }
    }
    if n > 0 {
        assert(text::trimmed(s)[0] == t[0]);
    }
}

proof fn lemma_trim_start(s: Seq<char>) -> (a: int)
    ensures
        0 <= a <= s.len(),
        text::trimmed_start(s) == s.skip(a),
        forall|i: int| 0 <= i < a ==> text::is_space(#[trigger] s[i]),
        a < s.len() ==> !text::is_space(s[a]),
    decreases s.len(),
{
    if s.len() > 0 && text::is_space(s[0]) {
        let r = s.skip(1);
        let b = lemma_trim_start(r);
        assert(r.skip(b) =~= s.skip(b + 1));
        assert forall|i: int| 0 <= i < b + 1 implies text::is_space(#[trigger] s[i]) by {
            if i > 0 {
                assert(s[i] == r[i - 1]);
            }
        }
        if b + 1 < s.len() {
            assert(s[b + 1] == r[b]);
        }
        b + 1
    } else {
        assert(s.skip(0) =~= s);
        0
    }
}

proof fn lemma_trim_end(s: Seq<char>) -> (n: int)
    ensures
        0 <= n <= s.len(),
        text::trimmed_end(s) == s.take(n),
        forall|i: int| n <= i < s.len() ==> text::is_space(#[trigger] s[i]),
        n > 0 ==> !text::is_space(s[n - 1]),
    decreases s.len(),
{
    if s.len() > 0 && text::is_space(s.last()) {
        let r = s.drop_last();
        let n = lemma_trim_end(r);
        assert(r.take(n) =~= s.take(n));
        assert forall|i: int| n <= i < s.len() implies text::is_space(#[trigger] s[i]) by {
            if i < r.len() {
                assert(s[i] == r[i]);
            }
        }
        n
    } else {
        assert(s.take(s.len() as int) =~= s);
        s.len() as int
    }
}

proof fn lemma_next_place(s: Seq<char>, c: char, from: nat)
    requires
        from <= s.len(),
    ensures
        from <= text::next_place(s, c, from) <= s.len(),
        forall|i: int| from <= i < text::next_place(s, c, from) ==> #[trigger] s[i] != c,
        text::next_place(s, c, from) < s.len() ==> s[text::next_place(s, c, from) as int] == c,
    decreases s.len() - from,
{
    if from < s.len() && s[from as int] != c {
        lemma_next_place(s, c, from + 1);
    }
}

/// A text is cut at the first place of a character: the part before it does not hold the
/// character, and both parts with the character between them are the text. A text without the
/// character is not cut.
pub proof fn law_cut_at_first(s: Seq<char>, c: char)
    ensures
        text::split_at_first(s, c) is None <==> !s.contains(c),
        text::split_at_first(s, c) matches Some((a, b)) ==> !a.contains(c) && a.push(c) + b == s,
{
    lemma_next_place(s, c, 0);
    let p = text::next_place(s, c, 0) as int;
    if p < s.len() {
        assert(s.contains(s[p]));
        let a = s.take(p);
        assert(!a.contains(c)) by {
            if a.contains(c) {
                let i = choose|i: int| 0 <= i < a.len() && a[i] == c;
                assert(s[i] == c);
            }
        }
        assert(a.push(c) + s.skip(p + 1) =~= s);
    } else if s.contains(c) {
        let i = choose|i: int| 0 <= i < s.len() && s[i] == c;
        assert(s[i] == c);
    }
}

/// The pieces of a text do not hold the character at which it is cut, and cutting goes on behind
/// the first place of it.
pub proof fn law_pieces(s: Seq<char>, c: char)
    ensures
        text::pieces(s, c).len() > 0,
        !text::pieces(s, c)[0].contains(c),
        !s.contains(c) ==> text::pieces(s, c) == seq![s],
        forall|rest: Seq<char>|
            text::pieces(s, c)[0].push(c) + rest == s ==> text::pieces(s, c).skip(1)
                == #[trigger] text::pieces(rest, c),
{
    lemma_next_place(s, c, 0);
    let p = text::next_place(s, c, 0) as int;
    law_cut_at_first(s, c);
    let all = text::pieces(s, c);
    if p < s.len() {
        let a = s.take(p);
        assert(all[0] == a);
        assert forall|rest: Seq<char>| all[0].push(c) + rest == s implies all.skip(1)
            == #[trigger] text::pieces(rest, c) by {
            assert(rest =~= s.skip(p + 1)) by {
                assert((a.push(c) + rest).skip(p + 1) =~= rest);
            }
            assert(all.skip(1) =~= text::pieces(s.skip(p + 1), c));
        }
    } else {
        assert(all[0] == s);
        assert(!s.contains(c));
        assert forall|rest: Seq<char>| all[0].push(c) + rest == s implies all.skip(1)
            == #[trigger] text::pieces(rest, c) by {
            assert((s.push(c) + rest).len() == s.len() + 1 + rest.len());
        }
    }
}

/// The first line ends before the first line feed, and a carriage return before it is dropped;
/// the other lines are those of what stands behind the line feed. A text without a line feed is
/// one line, and an empty text has none.
pub proof fn law_lines(first: Seq<char>, rest: Seq<char>)
    requires
        !first.contains('\n'),
    ensures
        ({
            let all = text::lines(first.push('\n') + rest);
            &&& all.len() == 1 + text::lines(rest).len()
            &&& first.len() > 0 && first.last() == '\r' ==> all[0] == first.drop_last()
            &&& first.len() == 0 || first.last() != '\r' ==> all[0] == first
            &&& all.skip(1) == text::lines(rest)
        }),
        first.len() > 0 ==> text::lines(first) == seq![first],
        text::lines(Seq::empty()).len() == 0,
{
    let s = first.push('\n') + rest;
    lemma_next_place(s, '\n', 0);
    let p = text::next_place(s, '\n', 0) as int;
    assert(s[first.len() as int] == '\n');
    if p < first.len() {
        assert(s[p] == first[p]);
        assert(first.contains(first[p]));
    }
    assert(p == first.len());
    assert(s.take(p) =~= first);
    assert(s.skip(p + 1) =~= rest);
    let all = text::lines(s);
    assert(all.skip(1) =~= text::lines(rest));
    lemma_next_place(first, '\n', 0);
    let q = text::next_place(first, '\n', 0) as int;
    if q < first.len() {
        assert(first.contains(first[q]));
    }
}

} // verus!
