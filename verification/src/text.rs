//! Text building blocks: decimal numbers, trimming, splitting and message
//! assembly.

use vstd::prelude::*;
use vstd::slice::slice_subrange;
use vstd::string::StringExecFns;

verus! {

/// `String::push`: appends one character to the end of the string.
pub assume_specification[ String::push ](s: &mut String, c: char)
    ensures
        final(s)@ == old(s)@.push(c),
;

/// The character of a decimal digit.
pub open spec fn digit_char(d: nat) -> char {
    (48 + d) as char
}

/// The shortest decimal numeral of `n`.
pub open spec fn decimal(n: nat) -> Seq<char>
    decreases n,
{
    if n < 10 {
        seq![digit_char(n)]
    } else {
        decimal(n / 10).push(digit_char(n % 10))
    }
}

/// Writes `n` as its shortest decimal numeral.
pub fn decimal_string(n: u64) -> (r: String)
    ensures
        r@ == decimal(n as nat),
    decreases n,
{
    if n < 10 {
        let mut s: String = String::new();
        s.push((48u8 + n as u8) as char);
        assert(s@ =~= seq![digit_char(n as nat)]);
        s
    } else {
        let mut s: String = decimal_string(n / 10);
        s.push((48u8 + (n % 10) as u8) as char);
        s
    }
}

/// `name expects want bytes, got got`.
pub open spec fn length_mismatch(name: Seq<char>, want: nat, got: nat) -> Seq<char> {
    name + " expects "@ + decimal(want) + " bytes, got "@ + decimal(got)
}

/// Builds the message for a value of the wrong encoded length.
pub fn length_mismatch_text(name: &str, want: usize, got: usize) -> (r: String)
    ensures
        r@ == length_mismatch(name@, want as nat, got as nat),
{
    let mut s: String = name.to_string();
    s.append(" expects ");
    s.append(decimal_string(want as u64).as_str());
    s.append(" bytes, got ");
    s.append(decimal_string(got as u64).as_str());
    s
}

/// The characters of a text.
pub fn to_chars(s: &str) -> (r: Vec<char>)
    ensures
        r@ == s@,
{
    let mut out: Vec<char> = Vec::new();
    for c in it: s.chars()
        invariant
            it.seq() == s@,
            out@ == s@.take(it.index() as int),
    {
        out.push(c);
        assert(out@ =~= s@.take(it.index() as int + 1));
    }
    assert(out@ =~= s@);
    out
}

/// The text made of characters.
pub fn from_chars(chars: &[char]) -> (r: String)
    ensures
        r@ == chars@,
{
    let mut out: String = String::new();
    let mut i: usize = 0;
    while i < chars.len()
        invariant
            i <= chars@.len(),
            out@ == chars@.take(i as int),
        decreases chars@.len() - i,
    {
        out.push(chars[i]);
        assert(out@ =~= chars@.take(i + 1));
        i = i + 1;
    }
    assert(out@ =~= chars@);
    out
}

/// A vector with the same characters.
pub fn copy_chars(chars: &[char]) -> (r: Vec<char>)
    ensures
        r@ == chars@,
{
    let mut out: Vec<char> = Vec::new();
    let mut i: usize = 0;
    while i < chars.len()
        invariant
            i <= chars@.len(),
            out@ == chars@.take(i as int),
        decreases chars@.len() - i,
    {
        out.push(chars[i]);
        assert(out@ =~= chars@.take(i + 1));
        i = i + 1;
    }
    assert(out@ =~= chars@);
    out
}

/// Whether two character sequences are the same.
pub fn same_chars(a: &[char], b: &[char]) -> (r: bool)
    ensures
        r == (a@ == b@),
{
    if a.len() != b.len() {
        return false;
    }
    let mut i: usize = 0;
    while i < a.len()
        invariant
            i <= a@.len(),
            a@.len() == b@.len(),
            forall|j: int| 0 <= j < i ==> a@[j] == b@[j],
        decreases a@.len() - i,
    {
        if a[i] != b[i] {
            assert(a@[i as int] != b@[i as int]);
            return false;
        }
        i = i + 1;
    }
    assert(a@ =~= b@);
    true
}

/// Whether characters spell a given text.
pub fn spells(chars: &[char], word: &str) -> (r: bool)
    ensures
        r == (chars@ == word@),
{
    let letters = to_chars(word);
    same_chars(chars, letters.as_slice())
}

/// The characters that Unicode counts as white space.
pub open spec fn is_space(c: char) -> bool {
    let n = c as u32;
    ||| 9 <= n <= 13
    ||| n == 0x20
    ||| n == 0x85
    ||| n == 0xa0
    ||| n == 0x1680
    ||| 0x2000 <= n <= 0x200a
    ||| n == 0x2028
    ||| n == 0x2029
    ||| n == 0x202f
    ||| n == 0x205f
    ||| n == 0x3000
}

/// Whether a character is white space.
pub fn space(c: char) -> (r: bool)
    ensures
        r == is_space(c),
{
    let n: u32 = c as u32;
    (9 <= n && n <= 13) || n == 0x20 || n == 0x85 || n == 0xa0 || n == 0x1680 || (0x2000 <= n && n
        <= 0x200a) || n == 0x2028 || n == 0x2029 || n == 0x202f || n == 0x205f || n == 0x3000
}

/// `s` without the white space at its start.
pub open spec fn trimmed_start(s: Seq<char>) -> Seq<char>
    decreases s.len(),
{
    if s.len() > 0 && is_space(s[0]) {
        trimmed_start(s.skip(1))
    } else {
        s
    }
}

/// `s` without the white space at its end.
pub open spec fn trimmed_end(s: Seq<char>) -> Seq<char>
    decreases s.len(),
{
    if s.len() > 0 && is_space(s.last()) {
        trimmed_end(s.drop_last())
    } else {
        s
    }
}

/// `s` without the white space at its two ends.
pub open spec fn trimmed(s: Seq<char>) -> Seq<char> {
    trimmed_end(trimmed_start(s))
}

/// Takes the white space off the two ends.
pub fn trim<'a>(s: &'a [char]) -> (r: &'a [char])
    ensures
        r@ == trimmed(s@),
{
    let mut lo: usize = 0;
    assert(s@.skip(0) =~= s@);
    while lo < s.len() && space(s[lo])
        invariant
            lo <= s@.len(),
            trimmed_start(s@.skip(lo as int)) == trimmed_start(s@),
        decreases s@.len() - lo,
    {
        assert(s@.skip(lo as int).skip(1) =~= s@.skip(lo + 1));
        lo = lo + 1;
    }
    let ghost kept = s@.skip(lo as int);
    assert(trimmed_start(s@) == kept);
    let mut hi: usize = s.len();
    assert(s@.subrange(lo as int, hi as int) =~= kept);
    while lo < hi && space(s[hi - 1])
        invariant
            lo <= hi <= s@.len(),
            trimmed_end(s@.subrange(lo as int, hi as int)) == trimmed_end(kept),
        decreases hi,
    {
        assert(s@.subrange(lo as int, hi as int).drop_last() =~= s@.subrange(
            lo as int,
            hi - 1,
        ));
        hi = hi - 1;
    }
    slice_subrange(s, lo, hi)
}

/// The first place at or after `from` where `c` stands, the length of `s` if
/// there is none.
pub open spec fn next_place(s: Seq<char>, c: char, from: nat) -> nat
    decreases s.len() - from,
{
    if from >= s.len() {
        s.len()
    } else if s[from as int] == c {
        from
    } else {
        next_place(s, c, from + 1)
    }
}

/// `next_place` lies between its start and the length.
pub proof fn lemma_next_place(s: Seq<char>, c: char, from: nat)
    requires
        from <= s.len(),
    ensures
        from <= next_place(s, c, from) <= s.len(),
        next_place(s, c, from) < s.len() ==> s[next_place(s, c, from) as int] == c,
    decreases s.len() - from,
{
    if from < s.len() && s[from as int] != c {
        lemma_next_place(s, c, from + 1);
    }
}

/// Finds the first `c` at or after `from`.
pub fn find_char(s: &[char], c: char, from: usize) -> (r: usize)
    requires
        from <= s@.len(),
    ensures
        r == next_place(s@, c, from as nat),
        from <= r <= s@.len(),
        r < s@.len() ==> s@[r as int] == c,
{
    let mut i: usize = from;
    while i < s.len() && s[i] != c
        invariant
            from <= i <= s@.len(),
            next_place(s@, c, i as nat) == next_place(s@, c, from as nat),
        decreases s@.len() - i,
    {
        i = i + 1;
    }
    i
}

/// What stands before and after the first `c`, if `c` occurs.
pub open spec fn split_at_first(s: Seq<char>, c: char) -> Option<(Seq<char>, Seq<char>)> {
    let p = next_place(s, c, 0);
    if p < s.len() {
        Some((s.take(p as int), s.skip(p as int + 1)))
    } else {
        None
    }
}

/// Splits at the first `c`.
pub fn split_once<'a>(s: &'a [char], c: char) -> (r: Option<(&'a [char], &'a [char])>)
    ensures
        match r {
            Some(parts) => split_at_first(s@, c) == Some((parts.0@, parts.1@)),
            None => split_at_first(s@, c) is None,
        },
{
    let p: usize = find_char(s, c, 0);
    if p < s.len() {
        let before = slice_subrange(s, 0, p);
        let after = slice_subrange(s, p + 1, s.len());
        assert(before@ =~= s@.take(p as int));
        assert(after@ =~= s@.skip(p + 1));
        Some((before, after))
    } else {
        None
    }
}

/// The pieces of `s` between the places where `c` stands.
pub open spec fn pieces(s: Seq<char>, c: char) -> Seq<Seq<char>>
    decreases s.len(),
{
    let p = next_place(s, c, 0);
    if p < s.len() {
        seq![s.take(p as int)] + pieces(s.skip(p as int + 1), c)
    } else {
        seq![s]
    }
}

/// A line without the carriage return that may end it.
pub open spec fn without_return(line: Seq<char>) -> Seq<char> {
    if line.len() > 0 && line.last() == '\r' {
        line.drop_last()
    } else {
        line
    }
}

/// The lines of a text. A line ends with a line feed or with a carriage return
/// and a line feed, and the last one may lack the line feed.
pub open spec fn lines(s: Seq<char>) -> Seq<Seq<char>>
    decreases s.len(),
{
    let p = next_place(s, '\n', 0);
    if s.len() == 0 {
        Seq::empty()
    } else if p < s.len() {
        seq![without_return(s.take(p as int))] + lines(s.skip(p as int + 1))
    } else {
        seq![s]
    }
}

/// The contents of a list of character vectors.
pub open spec fn contents(v: Seq<Vec<char>>) -> Seq<Seq<char>> {
    v.map_values(|c: Vec<char>| c@)
}

/// Pushing a vector pushes its contents.
pub proof fn lemma_contents_push(v: Seq<Vec<char>>, c: Vec<char>)
    ensures
        contents(v.push(c)) == contents(v).push(c@),
{
    assert(contents(v.push(c)) =~= contents(v).push(c@));
}

/// Splits at every `c`.
pub fn split_all(s: &[char], c: char) -> (r: Vec<Vec<char>>)
    ensures
        contents(r@) == pieces(s@, c),
{
    let mut out: Vec<Vec<char>> = Vec::new();
    let mut at: usize = 0;
    assert(s@.skip(0) =~= s@);
    assert(contents(out@) + pieces(s@, c) =~= pieces(s@, c));
    loop
        invariant
            at <= s@.len(),
            contents(out@) + pieces(s@.skip(at as int), c) == pieces(s@, c),
        decreases s@.len() - at,
    {
        let rest = slice_subrange(s, at, s.len());
        assert(rest@ =~= s@.skip(at as int));
        let p: usize = find_char(rest, c, 0);
        let ghost before = contents(out@);
        let ghost old_out = out@;
        let piece = copy_chars(slice_subrange(rest, 0, p));
        assert(piece@ =~= rest@.take(p as int));
        out.push(piece);
        proof {
            lemma_contents_push(old_out, piece);
        }
        if p == rest.len() {
            assert(rest@.take(p as int) =~= rest@);
            assert(contents(out@) =~= before + pieces(rest@, c));
            return out;
        }
        proof {
            assert(rest@.skip(p + 1) =~= s@.skip(at + p + 1));
            assert(contents(out@) + pieces(s@.skip(at + p + 1), c) =~= before + pieces(rest@, c));
        }
        at = at + p + 1;
    }
}

/// Splits a text into its lines.
pub fn split_lines(s: &[char]) -> (r: Vec<Vec<char>>)
    ensures
        contents(r@) == lines(s@),
{
    let mut out: Vec<Vec<char>> = Vec::new();
    let mut at: usize = 0;
    assert(s@.skip(0) =~= s@);
    assert(contents(out@) + lines(s@) =~= lines(s@));
    while at < s.len()
        invariant
            at <= s@.len(),
            contents(out@) + lines(s@.skip(at as int)) == lines(s@),
        decreases s@.len() - at,
    {
        let rest = slice_subrange(s, at, s.len());
        assert(rest@ =~= s@.skip(at as int));
        let p: usize = find_char(rest, '\n', 0);
        let ghost before = contents(out@);
        let ghost old_out = out@;
        if p == rest.len() {
            let line = copy_chars(rest);
            assert(line@ =~= rest@);
            out.push(line);
            proof {
                lemma_contents_push(old_out, line);
            }
            assert(contents(out@) =~= before + lines(rest@));
            return out;
        }
        let end: usize = if p > 0 && rest[p - 1] == '\r' {
            p - 1
        } else {
            p
        };
        let line = copy_chars(slice_subrange(rest, 0, end));
        assert(line@ =~= without_return(rest@.take(p as int)));
        out.push(line);
        proof {
            lemma_contents_push(old_out, line);
            assert(rest@.skip(p + 1) =~= s@.skip(at + p + 1));
            assert(contents(out@) + lines(s@.skip(at + p + 1)) =~= before + lines(rest@));
        }
        at = at + p + 1;
    }
    assert(lines(s@.skip(at as int)) =~= Seq::<Seq<char>>::empty());
    assert(contents(out@) =~= lines(s@));
    out
}

/// `s` without the copies of `c` at its start.
pub open spec fn without_leading(s: Seq<char>, c: char) -> Seq<char>
    decreases s.len(),
{
    if s.len() > 0 && s[0] == c {
        without_leading(s.skip(1), c)
    } else {
        s
    }
}

/// Takes the copies of `c` off the start.
pub fn strip_leading<'a>(s: &'a [char], c: char) -> (r: &'a [char])
    ensures
        r@ == without_leading(s@, c),
{
    let mut lo: usize = 0;
    assert(s@.skip(0) =~= s@);
    while lo < s.len() && s[lo] == c
        invariant
            lo <= s@.len(),
            without_leading(s@.skip(lo as int), c) == without_leading(s@, c),
        decreases s@.len() - lo,
    {
        assert(s@.skip(lo as int).skip(1) =~= s@.skip(lo + 1));
        lo = lo + 1;
    }
    let r = slice_subrange(s, lo, s.len());
    assert(r@ =~= s@.skip(lo as int));
    r
}

/// Whether `s` begins with `prefix`.
pub open spec fn begins_with(s: Seq<char>, prefix: Seq<char>) -> bool {
    prefix.len() <= s.len() && s.take(prefix.len() as int) == prefix
}

/// Whether the characters begin with a given text.
pub fn starts_with(s: &[char], prefix: &[char]) -> (r: bool)
    ensures
        r == begins_with(s@, prefix@),
{
    if s.len() < prefix.len() {
        return false;
    }
    let head = slice_subrange(s, 0, prefix.len());
    assert(head@ =~= s@.take(prefix@.len() as int));
    same_chars(head, prefix)
}

/// The first place of `c` is where it stands and no earlier place holds it.
pub proof fn lemma_first_place(s: Seq<char>, c: char, from: nat, k: nat)
    requires
        from <= k < s.len(),
        s[k as int] == c,
        forall|j: int| from <= j < k ==> s[j] != c,
    ensures
        next_place(s, c, from) == k,
    decreases k - from,
{
    if from < k {
        lemma_first_place(s, c, from + 1, k);
    }
}

/// There is no place of a character that does not occur.
pub proof fn lemma_no_place(s: Seq<char>, c: char, from: nat)
    requires
        from <= s.len(),
        forall|j: int| from <= j < s.len() ==> s[j] != c,
    ensures
        next_place(s, c, from) == s.len(),
    decreases s.len() - from,
{
    if from < s.len() {
        lemma_no_place(s, c, from + 1);
    }
}

/// A segment without the separator is the first piece of what it leads.
pub proof fn lemma_leading_piece(a: Seq<char>, rest: Seq<char>, c: char)
    requires
        !a.contains(c),
    ensures
        pieces(a + seq![c] + rest, c) == seq![a] + pieces(rest, c),
        split_at_first(a + seq![c] + rest, c) == Some((a, rest)),
{
    let s = a + seq![c] + rest;
    assert forall|j: int| 0 <= j < a.len() implies s[j] != c by {
        assert(s[j] == a[j]);
        assert(a.contains(a[j]));
    }
    lemma_first_place(s, c, 0, a.len());
    assert(s.take(a.len() as int) =~= a);
    assert(s.skip(a.len() as int + 1) =~= rest);
}

/// A text without the separator is its only piece.
pub proof fn lemma_only_piece(a: Seq<char>, c: char)
    requires
        !a.contains(c),
    ensures
        pieces(a, c) == seq![a],
        split_at_first(a, c) is None,
{
    assert forall|j: int| 0 <= j < a.len() implies a[j] != c by {
        assert(a.contains(a[j]));
    }
    lemma_no_place(a, c, 0);
}

} // verus!
