//! Monotonic counters and histograms with fixed bucket bounds.

use std::time::Instant;

use vstd::prelude::*;
use vstd::string::StringExecFns;

use crate::text;

verus! {

/// A point of the machine's monotonic clock.
#[verifier::external_type_specification]
#[verifier::external_body]
pub struct ExInstant(Instant);

/// `Instant::now`: the present moment. Nothing is claimed of it.
pub assume_specification[ Instant::now ]() -> (r: Instant)
;

/// `Instant::elapsed` in whole nanoseconds. How long it has been is up to the
/// machine, so nothing is claimed of the number.
#[verifier::external_body]
pub(crate) fn nanos_since(start: &Instant) -> (r: u64) {
    start.elapsed().as_nanos() as u64
}

/// A counter that only grows, modulo the width of its number.
#[derive(Clone, Copy, Debug, PartialEq, Eq, Structural)]
pub struct AtomicCounter(u64);

impl View for AtomicCounter {
    type V = u64;

    closed spec fn view(&self) -> u64 {
        self.0
    }
}

impl AtomicCounter {
    /// A counter at 0.
    pub fn new() -> (r: Self)
        ensures
            r@ == 0,
    {
        AtomicCounter(0)
    }

    /// Counts one.
    pub fn inc(&mut self)
        ensures
            final(self)@ == old(self)@.wrapping_add(1),
    {
        self.0 = self.0.wrapping_add(1);
    }

    /// Counts `n`.
    pub fn add(&mut self, n: u64)
        ensures
            final(self)@ == old(self)@.wrapping_add(n),
    {
        self.0 = self.0.wrapping_add(n);
    }

    /// What has been counted.
    pub fn get(&self) -> (r: u64)
        ensures
            r == self@,
    {
        self.0
    }
}

/// Bucket bounds in nanoseconds for signing and verifying one signature.
pub const BUCKETS_SIG: [u64; 6] = [
    5_000_000,
    10_000_000,
    25_000_000,
    50_000_000,
    100_000_000,
    1_000_000_000,
];

/// Bucket bounds in nanoseconds for aggregate signatures.
pub const BUCKETS_AGG: [u64; 9] = [
    100_000_000,
    250_000_000,
    500_000_000,
    750_000_000,
    1_000_000_000,
    1_250_000_000,
    1_500_000_000,
    2_000_000_000,
    4_000_000_000,
];

/// Bucket bounds in nanoseconds for processing a block in fork choice.
pub const BUCKETS_FC_BLOCK: [u64; 10] = [
    5_000_000,
    10_000_000,
    25_000_000,
    50_000_000,
    100_000_000,
    1_000_000_000,
    1_250_000_000,
    1_500_000_000,
    2_000_000_000,
    4_000_000_000,
];

/// Bucket bounds in nanoseconds for a full state transition.
pub const BUCKETS_STATE_TRANSITION: [u64; 10] = [
    250_000_000,
    500_000_000,
    750_000_000,
    1_000_000_000,
    1_250_000_000,
    1_500_000_000,
    2_000_000_000,
    2_500_000_000,
    3_000_000_000,
    4_000_000_000,
];

/// Bucket bounds, in blocks, for the depth of reorganizations.
pub const BUCKETS_REORG_DEPTH: [u64; 10] = [1, 2, 3, 5, 7, 10, 20, 30, 50, 100];

/// Bucket bounds in nanoseconds for committee aggregation.
pub const BUCKETS_COMMITTEE_AGG: [u64; 9] = [
    5_000_000,
    10_000_000,
    25_000_000,
    50_000_000,
    100_000_000,
    250_000_000,
    500_000_000,
    750_000_000,
    1_000_000_000,
];

/// One bucket: the values up to and including `bound`.
#[derive(Clone, Copy, Debug, PartialEq, Eq, Structural)]
pub struct Bucket {
    /// Largest value that the bucket takes.
    pub bound: u64,
    /// Values taken so far.
    pub hits: u64,
}

/// What a histogram has taken in.
#[verifier::ext_equal]
pub struct HistogramModel {
    /// The buckets in the order of their bounds' declaration.
    pub buckets: Seq<Bucket>,
    /// Values in the bucket without a bound.
    pub unbounded: u64,
    /// Number of values.
    pub count: u64,
    /// Sum of the values.
    pub sum: u64,
}

impl HistogramModel {
    /// A histogram that has taken in nothing.
    pub open spec fn fresh(bounds: Seq<u64>) -> Self {
        HistogramModel {
            buckets: bounds.map_values(|b: u64| Bucket { bound: b, hits: 0 }),
            unbounded: 0,
            count: 0,
            sum: 0,
        }
    }

    /// The histogram after one more value.
    pub open spec fn observed(self, value: u64) -> Self {
        HistogramModel {
            buckets: self.buckets.map_values(|b: Bucket| hit(b, value)),
            unbounded: self.unbounded.wrapping_add(1),
            count: self.count.wrapping_add(1),
            sum: self.sum.wrapping_add(value),
        }
    }

    /// The histogram after a series of values.
    pub open spec fn observed_all(self, values: Seq<u64>) -> Self
        decreases values.len(),
    {
        if values.len() == 0 {
            self
        } else {
            self.observed_all(values.drop_last()).observed(values.last())
        }
    }

    /// The histogram in the text exposition format.
    pub open spec fn rendered(self, name: Seq<char>, help: Seq<char>, seconds: bool) -> Seq<char> {
        histogram_head(name, help) + bucket_lines(name, self.buckets, self.buckets.len(), seconds)
            + histogram_tail(name, self, seconds)
    }
}

/// A bucket after one more value.
pub open spec fn hit(b: Bucket, value: u64) -> Bucket {
    if value <= b.bound {
        Bucket { bound: b.bound, hits: b.hits.wrapping_add(1) }
    } else {
        b
    }
}

/// How many of the values are at most `bound`.
pub open spec fn at_most(values: Seq<u64>, bound: u64) -> nat
    decreases values.len(),
{
    if values.len() == 0 {
        0
    } else {
        at_most(values.drop_last(), bound) + (if values.last() <= bound {
            1nat
        } else {
            0nat
        })
    }
}

/// The sum of the values.
pub open spec fn total(values: Seq<u64>) -> nat
    decreases values.len(),
{
    if values.len() == 0 {
        0
    } else {
        total(values.drop_last()) + values.last() as nat
    }
}

/// Six decimal digits of a number below a million.
pub open spec fn six_digits(n: nat) -> Seq<char> {
    seq![
        text::digit_char(n / 100_000 % 10),
        text::digit_char(n / 10_000 % 10),
        text::digit_char(n / 1_000 % 10),
        text::digit_char(n / 100 % 10),
        text::digit_char(n / 10 % 10),
        text::digit_char(n % 10),
    ]
}

/// A quotient rounded to the nearest integer, and to the even one halfway between two.
pub open spec fn nearest(a: nat, b: nat) -> nat {
    let q = a / b;
    if 2 * (a % b) < b {
        q
    } else if 2 * (a % b) > b {
        q + 1
    } else {
        q + q % 2
    }
}

/// The first number that takes more than the 53 binary digits of double precision.
pub const DOUBLE_RANGE: u128 = 9_007_199_254_740_992;

/// The first number whose quotient by a billion takes more than 53 binary digits.
pub const BILLION_RANGE: u128 = 9_007_199_254_740_992_000_000_000;

/// The number in double precision: rounded to the smallest multiple of `unit` by a power
/// of two that leaves 53 binary digits.
pub open spec fn in_double(n: nat, unit: nat) -> nat
    decreases n - unit,
{
    if n < DOUBLE_RANGE * unit || unit == 0 {
        nearest(n, unit) * unit
    } else {
        in_double(n, 2 * unit)
    }
}

/// A fraction with both sides doubled until its quotient by a billion takes 53 binary
/// digits.
pub open spec fn normalized(num: nat, den: nat) -> (nat, nat)
    decreases BILLION_RANGE - num,
{
    if num == 0 || 2 * num >= BILLION_RANGE {
        (num, den)
    } else {
        normalized(2 * num, 2 * den)
    }
}

/// The microseconds that print for the nanoseconds: the seconds are computed in double
/// precision, and their exact value is rounded to six decimals.
pub open spec fn micros(nanos: nat) -> nat {
    let (num, den) = normalized(in_double(nanos, 1), 1);
    nearest(nearest(num, 1_000_000_000) * 1_000_000, den)
}

/// Nanoseconds as seconds with six decimals.
pub open spec fn seconds_text(nanos: nat) -> Seq<char> {
    text::decimal(micros(nanos) / 1_000_000) + "."@ + six_digits(micros(nanos) % 1_000_000)
}

/// A value of a histogram as it is printed.
pub open spec fn value_text(value: u64, seconds: bool) -> Seq<char> {
    if seconds {
        seconds_text(value as nat)
    } else {
        text::decimal(value as nat)
    }
}

/// The two comment lines above a histogram.
pub open spec fn histogram_head(name: Seq<char>, help: Seq<char>) -> Seq<char> {
    "# HELP "@ + name + " "@ + help + "\n# TYPE "@ + name + " histogram\n"@
}

/// The line of one bucket.
pub open spec fn bucket_line(name: Seq<char>, bound: Seq<char>, hits: u64) -> Seq<char> {
    name + "_bucket{le=\""@ + bound + "\"} "@ + text::decimal(hits as nat) + "\n"@
}

/// The lines of the first `k` buckets.
pub open spec fn bucket_lines(name: Seq<char>, buckets: Seq<Bucket>, k: nat, seconds: bool) -> Seq<
    char,
>
    decreases k,
{
    if k == 0 {
        ""@
    } else {
        bucket_lines(name, buckets, (k - 1) as nat, seconds) + bucket_line(
            name,
            value_text(buckets[k - 1].bound, seconds),
            buckets[k - 1].hits,
        )
    }
}

/// The lines below the buckets: the unbounded bucket, the sum and the count.
pub open spec fn histogram_tail(name: Seq<char>, h: HistogramModel, seconds: bool) -> Seq<char> {
    bucket_line(name, "+Inf"@, h.unbounded) + name + "_sum "@ + value_text(h.sum, seconds) + "\n"@
        + name + "_count "@ + text::decimal(h.count as nat) + "\n"@
}

/// Rounds a quotient to the nearest integer.
fn nearest_quotient(a: u128, b: u128) -> (r: u128)
    requires
        0 < b <= u128::MAX / 2,
        a < u128::MAX,
    ensures
        r == nearest(a as nat, b as nat),
        r <= a / b + 1,
{
    let q: u128 = a / b;
    let rest: u128 = a % b;
    assert(q <= a) by (nonlinear_arith)
        requires
            q == a / b,
            b > 0,
    ;
    if 2 * rest < b {
        q
    } else if 2 * rest > b {
        q + 1
    } else {
        q + q % 2
    }
}

/// Rounds a number to double precision.
fn to_double(n: u64) -> (r: u128)
    ensures
        r == in_double(n as nat, 1),
        r <= 0x1_0000_0000_0000_1000,
{
    let whole: u128 = n as u128;
    let mut unit: u128 = 1;
    while whole >= DOUBLE_RANGE * unit
        invariant
            whole == n,
            1 <= unit <= 4096,
            in_double(n as nat, 1) == in_double(n as nat, unit as nat),
        decreases n - unit,
    {
        assert(9_007_199_254_740_992 * unit <= whole);
        unit = 2 * unit;
    }
    assert(whole < 9_007_199_254_740_992 * unit);
    let q: u128 = nearest_quotient(whole, unit);
    proof {
        assert(q * unit <= whole + unit) by (nonlinear_arith)
            requires
                q <= whole / unit + 1,
                unit > 0,
        ;
    }
    q * unit
}

/// The microseconds that print for the nanoseconds.
fn micros_of(nanos: u64) -> (r: u64)
    ensures
        r == micros(nanos as nat),
{
    let whole: u128 = to_double(nanos);
    let mut num: u128 = whole;
    let mut den: u128 = 1;
    while num != 0 && 2 * num < BILLION_RANGE
        invariant
            whole <= 0x1_0000_0000_0000_1000,
            num == whole * den,
            num < BILLION_RANGE,
            1 <= den,
            den <= num || den == 1,
            normalized(whole as nat, 1) == normalized(num as nat, den as nat),
        decreases BILLION_RANGE - num,
    {
        assert(whole * (2 * den) == 2 * (whole * den)) by (nonlinear_arith);
        num = 2 * num;
        den = 2 * den;
    }
    let m: u128 = nearest_quotient(num, 1_000_000_000);
    let r: u128 = nearest_quotient(m * 1_000_000, den);
    proof {
        let x = m * 1_000_000;
        assert(1000 * (x / den as int) <= whole + 1_000_000_000) by (nonlinear_arith)
            requires
                1000 * x <= whole * den + 1_000_000_000,
                den >= 1,
                x >= 0,
        ;
    }
    r as u64
}

/// Writes nanoseconds as seconds with six decimals.
fn seconds_string(nanos: u64) -> (r: String)
    ensures
        r@ == seconds_text(nanos as nat),
{
    let micros: u64 = micros_of(nanos);
    let mut s: String = text::decimal_string(micros / 1_000_000);
    s.append(".");
    let ghost head = s@;
    let rest: u64 = micros % 1_000_000;
    s.push((48u8 + (rest / 100_000 % 10) as u8) as char);
    s.push((48u8 + (rest / 10_000 % 10) as u8) as char);
    s.push((48u8 + (rest / 1_000 % 10) as u8) as char);
    s.push((48u8 + (rest / 100 % 10) as u8) as char);
    s.push((48u8 + (rest / 10 % 10) as u8) as char);
    s.push((48u8 + (rest % 10) as u8) as char);
    assert(s@ =~= head + six_digits(rest as nat));
    s
}

/// Writes a value of a histogram.
fn value_string(value: u64, seconds: bool) -> (r: String)
    ensures
        r@ == value_text(value, seconds),
{
    if seconds {
        seconds_string(value)
    } else {
        text::decimal_string(value)
    }
}

/// Writes the line of one bucket.
fn bucket_string(name: &str, bound: &str, hits: u64) -> (r: String)
    ensures
        r@ == bucket_line(name@, bound@, hits),
{
    let mut s: String = name.to_string();
    s.append("_bucket{le=\"");
    s.append(bound);
    s.append("\"} ");
    s.append(text::decimal_string(hits).as_str());
    s.append("\n");
    s
}

/// A histogram with fixed bucket bounds.
///
/// A bucket counts the values that are at most its bound, so the buckets are
/// cumulative. One more bucket takes every value.
#[derive(Clone, Debug)]
pub struct AtomicHistogram {
    buckets: Vec<Bucket>,
    unbounded: u64,
    count: u64,
    sum: u64,
}

impl View for AtomicHistogram {
    type V = HistogramModel;

    closed spec fn view(&self) -> HistogramModel {
        HistogramModel {
            buckets: self.buckets@,
            unbounded: self.unbounded,
            count: self.count,
            sum: self.sum,
        }
    }
}

impl AtomicHistogram {
    /// An empty histogram with one bucket for each bound.
    pub fn new(boundaries: &[u64]) -> (r: Self)
        ensures
            r@ == HistogramModel::fresh(boundaries@),
    {
        let mut buckets: Vec<Bucket> = Vec::new();
        let mut i: usize = 0;
        while i < boundaries.len()
            invariant
                i <= boundaries@.len(),
                buckets@ == HistogramModel::fresh(boundaries@).buckets.take(i as int),
            decreases boundaries@.len() - i,
        {
            buckets.push(Bucket { bound: boundaries[i], hits: 0 });
            assert(buckets@ =~= HistogramModel::fresh(boundaries@).buckets.take(i + 1));
            i = i + 1;
        }
        assert(buckets@ =~= HistogramModel::fresh(boundaries@).buckets);
        AtomicHistogram { buckets, unbounded: 0, count: 0, sum: 0 }
    }

    /// Takes in one value.
    pub fn observe(&mut self, value: u64)
        ensures
            final(self)@ == old(self)@.observed(value),
    {
        let ghost before = self@;
        self.count = self.count.wrapping_add(1);
        self.sum = self.sum.wrapping_add(value);
        let mut i: usize = 0;
        while i < self.buckets.len()
            invariant
                i <= self.buckets@.len(),
                self.buckets@.len() == before.buckets.len(),
                forall|j: int| 0 <= j < i ==> self.buckets@[j] == hit(before.buckets[j], value),
                forall|j: int|
                    i <= j < self.buckets@.len() ==> self.buckets@[j] == before.buckets[j],
                self.count == before.count.wrapping_add(1),
                self.sum == before.sum.wrapping_add(value),
                self.unbounded == before.unbounded,
            decreases self.buckets@.len() - i,
        {
            let b = self.buckets[i];
            if value <= b.bound {
                self.buckets.set(i, Bucket { bound: b.bound, hits: b.hits.wrapping_add(1) });
            }
            i = i + 1;
        }
        self.unbounded = self.unbounded.wrapping_add(1);
        assert(self@ =~= before.observed(value));
    }

    /// Takes in the nanoseconds since `start`.
    pub fn observe_duration(&mut self, start: Instant)
        ensures
            exists|nanos: u64| #[trigger] old(self)@.observed(nanos) == final(self)@,
    {
        let nanos: u64 = nanos_since(&start);
        self.observe(nanos);
    }

    /// Writes the histogram in the text exposition format, in seconds where
    /// `nanos_to_secs` is set.
    pub fn render(&self, name: &str, help: &str, nanos_to_secs: bool) -> (r: String)
        ensures
            r@ == self@.rendered(name@, help@, nanos_to_secs),
    {
        let mut out: String = "# HELP ".to_string();
        out.append(name);
        out.append(" ");
        out.append(help);
        out.append("\n# TYPE ");
        out.append(name);
        out.append(" histogram\n");
        let mut rows: String = "".to_string();
        let mut i: usize = 0;
        while i < self.buckets.len()
            invariant
                i <= self.buckets@.len(),
                rows@ == bucket_lines(name@, self.buckets@, i as nat, nanos_to_secs),
            decreases self.buckets@.len() - i,
        {
            let b = self.buckets[i];
            let bound = value_string(b.bound, nanos_to_secs);
            rows.append(bucket_string(name, bound.as_str(), b.hits).as_str());
            i = i + 1;
        }
        out.append(rows.as_str());
        let mut tail: String = bucket_string(name, "+Inf", self.unbounded);
        tail.append(name);
        tail.append("_sum ");
        tail.append(value_string(self.sum, nanos_to_secs).as_str());
        tail.append("\n");
        tail.append(name);
        tail.append("_count ");
        tail.append(text::decimal_string(self.count).as_str());
        tail.append("\n");
        out.append(tail.as_str());
        out
    }

    /// Number of values taken in.
    pub fn count(&self) -> (r: u64)
        ensures
            r == self@.count,
    {
        self.count
    }

    /// Sum of the values taken in.
    pub fn sum(&self) -> (r: u64)
        ensures
            r == self@.sum,
    {
        self.sum
    }
}

/// After a series of values each bucket holds how many of them are at most its
/// bound, the unbounded bucket and the count hold how many there are, and the
/// sum is theirs, all modulo the width of the numbers.
pub proof fn law_buckets_count_values(bounds: Seq<u64>, values: Seq<u64>)
    ensures
        ({
            let h = HistogramModel::fresh(bounds).observed_all(values);
            let width: int = 0x1_0000_0000_0000_0000;
            &&& h.buckets.len() == bounds.len()
            &&& forall|i: int|
                0 <= i < bounds.len() ==> (#[trigger] h.buckets[i]).bound == bounds[i]
                    && h.buckets[i].hits as int == at_most(values, bounds[i]) as int % width
            &&& h.unbounded as int == values.len() as int % width
            &&& h.count as int == values.len() as int % width
            &&& h.sum as int == total(values) as int % width
        }),
    decreases values.len(),
{
    if values.len() > 0 {
        law_buckets_count_values(bounds, values.drop_last());
    }
}

/// How many values are at most a bound grows with the bound and with the values.
proof fn lemma_at_most(values: Seq<u64>, low: u64, high: u64)
    requires
        low <= high,
    ensures
        at_most(values, low) <= at_most(values, high) <= values.len(),
    decreases values.len(),
{
    if values.len() > 0 {
        lemma_at_most(values.drop_last(), low, high);
    }
}

/// The buckets are cumulative: one with a larger bound holds no fewer values,
/// and the unbounded one holds the most.
pub proof fn law_buckets_are_cumulative(bounds: Seq<u64>, values: Seq<u64>, i: int, j: int)
    requires
        0 <= i < bounds.len(),
        0 <= j < bounds.len(),
        bounds[i] <= bounds[j],
        values.len() <= u64::MAX,
    ensures
        ({
            let h = HistogramModel::fresh(bounds).observed_all(values);
            h.buckets[i].hits <= h.buckets[j].hits <= h.unbounded
        }),
{
    law_buckets_count_values(bounds, values);
    lemma_at_most(values, bounds[i], bounds[j]);
    let h = HistogramModel::fresh(bounds).observed_all(values);
    assert(h.buckets[i].bound == bounds[i]);
    assert(h.buckets[j].bound == bounds[j]);
}

} // verus!
