//! What the metrics count and report.

use crate::containers::state::StateModel;
use crate::fork_choice::ForkChoiceModel;
use crate::metrics::histogram;
use crate::metrics::histogram::HistogramModel;
use crate::metrics::render;
use crate::metrics::render::{ChainGauges, StoreGauges};
use crate::text;
use vstd::prelude::*;

verus! {

/// The places of the values that are at most a bound.
pub open spec fn places_within(values: Seq<u64>, bound: u64) -> Set<int> {
    Set::new(|i: int| 0 <= i < values.len() && values[i] <= bound)
}

proof fn lemma_at_most(values: Seq<u64>, bound: u64)
    ensures
        places_within(values, bound).finite(),
        histogram::at_most(values, bound) == places_within(values, bound).len(),
        places_within(values, bound).len() <= values.len(),
    decreases values.len(),
{
    if values.len() == 0 {
        assert(places_within(values, bound) =~= Set::empty());
    } else {
        let short = values.drop_last();
        lemma_at_most(short, bound);
        let last = values.len() - 1;
        if values.last() <= bound {
            assert(places_within(values, bound) =~= places_within(short, bound).insert(last));
        } else {
            assert(places_within(values, bound) =~= places_within(short, bound));
        }
    }
}

/// Behind a series of values each bucket holds the number of those at most its bound, the
/// unbounded bucket and the count hold the number of all, and one more value adds itself to the
/// sum.
pub proof fn law_histograms(bounds: Seq<u64>, values: Seq<u64>, value: u64, i: int)
    requires
        0 <= i < bounds.len(),
        values.len() < u64::MAX,
    ensures
        ({
            let h = HistogramModel::fresh(bounds).observed_all(values);
            &&& h.buckets[i].bound == bounds[i]
            &&& h.buckets[i].hits == places_within(values, bounds[i]).len()
            &&& h.unbounded == values.len()
            &&& h.count == values.len()
            &&& h.sum + value <= u64::MAX ==> h.observed(value).sum == h.sum + value
            &&& HistogramModel::fresh(bounds).sum == 0
        }),
{
    histogram::law_buckets_count_values(bounds, values);
    lemma_at_most(values, bounds[i]);
    let h = HistogramModel::fresh(bounds).observed_all(values);
    assert(h.buckets[i].bound == bounds[i]);
    let width: int = 0x1_0000_0000_0000_0000;
    vstd::arithmetic::div_mod::lemma_small_mod(values.len(), width as nat);
    vstd::arithmetic::div_mod::lemma_small_mod(
        places_within(values, bounds[i]).len(),
        width as nat,
    );
}

/// What is reported of the chain. Without a fork choice the numbers are the state's, and the head
/// is the stored one where there is one. With a fork choice, head, justified and finalized slot
/// and the number of validators are the larger of both; safe target, reorganizations and votes are
/// the fork choice's.
pub proof fn law_gauges(s: StateModel, store: StoreGauges, f: ForkChoiceModel)
    requires
        s.validators.len() <= 4_096,
    ensures
        ({
            let g = render::chain_gauges(s, store, None);
            let stored = if store.head_slot is Some {
                store.head_slot->Some_0 as int
            } else {
                s.slot.num()
            };
            &&& g.current_slot == s.slot.num()
            &&& g.head_slot == stored
            &&& g.justified_slot == s.latest_justified.slot.num()
            &&& g.finalized_slot == s.latest_finalized.slot.num()
            &&& g.previous_justified_slot == s.latest_justified.slot.num()
            &&& g.safe_target_slot == 0
            &&& g.validators == s.validators.len()
            &&& g.reorgs_total == 0 && g.gossip_signatures == 0 && g.latest_votes == 0
        }),
        ({
            let g = render::chain_gauges(s, store, Some(f));
            let stored = if store.head_slot is Some {
                store.head_slot->Some_0 as int
            } else {
                s.slot.num()
            };
            &&& g.current_slot == s.slot.num()
            &&& g.head_slot >= stored && g.head_slot >= f.head_slot && (g.head_slot == stored
                || g.head_slot == f.head_slot)
            &&& g.justified_slot >= s.latest_justified.slot.num() && g.justified_slot
                >= f.latest_justified.slot.num() && (g.justified_slot
                == s.latest_justified.slot.num() || g.justified_slot
                == f.latest_justified.slot.num())
            &&& g.finalized_slot >= s.latest_finalized.slot.num() && g.finalized_slot
                >= f.latest_finalized.slot.num() && (g.finalized_slot
                == s.latest_finalized.slot.num() || g.finalized_slot
                == f.latest_finalized.slot.num())
            &&& f.previous_justified.slot.num() > 0 ==> g.previous_justified_slot
                == f.previous_justified.slot.num()
            &&& f.previous_justified.slot.num() == 0 ==> g.previous_justified_slot
                == s.latest_justified.slot.num()
            &&& g.safe_target_slot == crate::laws::fork_choice::safe_slot(f)
            &&& f.validator_count <= 4_096 ==> g.validators >= s.validators.len() && g.validators
                >= f.validator_count && (g.validators == s.validators.len() || g.validators
                == f.validator_count)
            &&& g.reorgs_total == f.reorgs_total
            &&& f.new_votes.dom().len() <= 4_096 ==> g.gossip_signatures == f.new_votes.dom().len()
            &&& f.votes.dom().len() <= 4_096 ==> g.latest_votes == f.votes.dom().len()
        }),
{
}

/// A quotient is rounded to the nearest number: twice the distance is at most the divisor, and
/// where it is the divisor the result is even.
pub proof fn law_rounding(a: nat, b: nat)
    requires
        b > 0,
    ensures
        ({
            let r = histogram::nearest(a, b) as int;
            let d = 2 * (a as int) - 2 * (r * b);
            &&& -(b as int) <= d <= b
            &&& (d == b || d == -(b as int)) ==> r % 2 == 0
        }),
{
    let q = a / b;
    let m = a % b;
    vstd::arithmetic::div_mod::lemma_fundamental_div_mod(a as int, b as int);
    assert((q + 1) * b == q * b + b) by (nonlinear_arith);
    assert(b * q == q * b) by (nonlinear_arith);
}

/// A number below 2 to the 53 is kept as it is.
pub proof fn law_small_numbers_are_exact(n: nat)
    requires
        n < 0x20_0000_0000_0000,
    ensures
        histogram::in_double(n, 1) == n,
{
    law_rounding(n, 1);
}

/// A number that takes more than 53 binary digits is rounded to the nearest multiple of the
/// smallest step, doubled from one, that leaves 53 of them.
pub proof fn law_large_numbers_are_rounded(n: nat, unit: nat) -> (step: nat)
    requires
        unit > 0,
    ensures
        step >= unit,
        n < 0x20_0000_0000_0000 * step,
        step > unit ==> 2 * n >= 0x20_0000_0000_0000 * step,
        histogram::in_double(n, unit) % step == 0,
        -step <= 2 * histogram::in_double(n, unit) - 2 * n <= step,
    decreases n - unit,
{
    if n < 0x20_0000_0000_0000 * unit {
        law_rounding(n, unit);
        vstd::arithmetic::div_mod::lemma_mod_multiples_basic(
            histogram::nearest(n, unit) as int,
            unit as int,
        );
        unit
    } else {
        law_large_numbers_are_rounded(n, 2 * unit)
    }
}

/// The number that six decimal digits write.
pub open spec fn six_digit_value(t: Seq<char>) -> int {
    100_000 * (t[0] as int - '0' as int) + 10_000 * (t[1] as int - '0' as int) + 1_000 * (
    t[2] as int - '0' as int) + 100 * (t[3] as int - '0' as int) + 10 * (t[4] as int - '0' as int)
        + (t[5] as int - '0' as int)
}

/// Six digits write the number that they are made from.
pub proof fn law_six_digits(n: nat)
    requires
        n < 1_000_000,
    ensures
        histogram::six_digits(n).len() == 6,
        six_digit_value(histogram::six_digits(n)) == n,
{
    let a = n / 10;
    let b = n / 100;
    let c = n / 1_000;
    let d = n / 10_000;
    let e = n / 100_000;
    assert(n == 10 * a + n % 10);
    assert(a == 10 * b + a % 10);
    assert(b == 10 * c + b % 10);
    assert(c == 10 * d + c % 10);
    assert(d == 10 * e + d % 10);
    assert(e % 10 == e);
}

proof fn lemma_normalized(n: nat, d: nat)
    requires
        n > 0,
        d > 0,
    ensures
        ({
            let r = histogram::normalized(n * d, d);
            &&& r.1 > 0
            &&& r.0 == n * r.1
            &&& 2 * r.0 >= histogram::BILLION_RANGE
        }),
    decreases histogram::BILLION_RANGE - n * d,
{
    assert(n * d > 0) by (nonlinear_arith)
        requires
            n > 0,
            d > 0,
    ;
    if 2 * (n * d) < histogram::BILLION_RANGE {
        assert(n * (2 * d) == 2 * (n * d)) by (nonlinear_arith);
        lemma_normalized(n, 2 * d);
    }
}

/// The microseconds that are printed for a time differ from it by half a microsecond at most, but
/// for a nanosecond that double precision may cost.
pub proof fn law_microseconds(n: nat)
    requires
        n < 0x20_0000_0000_0000,
    ensures
        -501 <= 1_000 * histogram::micros(n) - n <= 501,
        n == 0 ==> histogram::micros(n) == 0,
{
    law_small_numbers_are_exact(n);
    if n > 0 {
        lemma_normalized(n, 1);
        let (a, d) = histogram::normalized(n, 1);
        let q = histogram::nearest(a, 1_000_000_000);
        let m = histogram::micros(n);
        law_rounding(a, 1_000_000_000);
        law_rounding(q * 1_000_000, d);
        assert(m == histogram::nearest(q * 1_000_000, d));
        let gap = 1_000 * (m * d) - n * d;
        assert(d > 499_999_999) by (nonlinear_arith)
            requires
                a == n * d,
                2 * a >= 9_007_199_254_740_992_000_000_000,
                n < 0x20_0000_0000_0000,
        ;
        assert(-501 * d <= gap <= 501 * d);
        assert(-501 <= 1_000 * m - n <= 501) by (nonlinear_arith)
            requires
                gap == 1_000 * (m * d) - n * d,
                -501 * d <= gap <= 501 * d,
                d > 0,
        ;
    }
}

/// Somewhere in the text stands a line with a name, a blank and a number.
pub open spec fn reports(t: Seq<char>, name: Seq<char>, value: u64) -> bool {
    exists|a: Seq<char>, b: Seq<char>| #[trigger]
        around(a, name + " "@ + text::decimal(value as nat) + "\n"@, b) == t
}

/// A text with texts before and behind it.
pub open spec fn around(a: Seq<char>, t: Seq<char>, b: Seq<char>) -> Seq<char> {
    a + t + b
}

proof fn lemma_line(name: Seq<char>, value: u64)
    ensures
        reports(render::gauge(name, value), name, value),
        reports(render::counter(name, value), name, value),
{
    let l = name + " "@ + text::decimal(value as nat) + "\n"@;
    let none = Seq::<char>::empty();
    assert(around("# TYPE "@ + name + " gauge\n"@, l, none) =~= render::gauge(name, value));
    assert(around("# TYPE "@ + name + " counter\n"@, l, none) =~= render::counter(name, value));
}

proof fn lemma_before(t: Seq<char>, u: Seq<char>, name: Seq<char>, value: u64)
    requires
        reports(t, name, value),
    ensures
        reports(t + u, name, value),
{
    let l = name + " "@ + text::decimal(value as nat) + "\n"@;
    let (a, b) = choose|a: Seq<char>, b: Seq<char>| #[trigger] around(a, l, b) == t;
    assert(around(a, l, b + u) =~= t + u);
}

proof fn lemma_behind(t: Seq<char>, u: Seq<char>, name: Seq<char>, value: u64)
    requires
        reports(u, name, value),
    ensures
        reports(t + u, name, value),
{
    let l = name + " "@ + text::decimal(value as nat) + "\n"@;
    let (a, b) = choose|a: Seq<char>, b: Seq<char>| #[trigger] around(a, l, b) == u;
    assert(around(t + a, l, b) =~= t + u);
}

/// The numbers of the chain are reported, each under its name.
pub proof fn law_chain_is_reported(m: ChainGauges)
    ensures
        reports(render::chain_section(m), "lean_current_slot"@, m.current_slot),
        reports(render::chain_section(m), "lean_head_slot"@, m.head_slot),
        reports(render::chain_section(m), "lean_latest_justified_slot"@, m.justified_slot),
        reports(render::chain_section(m), "lean_latest_finalized_slot"@, m.finalized_slot),
        reports(render::chain_section(m), "lean_previous_justified_slot"@, m.previous_justified_slot),
        reports(render::chain_section(m), "lean_safe_target_slot"@, m.safe_target_slot),
        reports(render::chain_section(m), "lean_validators_count"@, m.validators),
        reports(render::chain_section(m), "lean_fork_choice_reorgs_total"@, m.reorgs_total),
        reports(render::chain_section(m), "lean_processed_deposits_total"@, 0),
        reports(render::chain_section(m), "lean_gossip_signatures"@, m.gossip_signatures),
        reports(render::chain_section(m), "lean_latest_known_aggregated_payloads"@, m.latest_votes),
        reports(render::chain_section(m), "lean_latest_new_aggregated_payloads"@, m.gossip_signatures),
{
    let g0 = render::gauge("lean_current_slot"@, m.current_slot);
    let g1 = render::gauge("lean_head_slot"@, m.head_slot);
    let g2 = render::gauge("lean_latest_justified_slot"@, m.justified_slot);
    let g3 = render::gauge("lean_latest_finalized_slot"@, m.finalized_slot);
    let g4 = render::gauge("lean_previous_justified_slot"@, m.previous_justified_slot);
    let g5 = render::gauge("lean_safe_target_slot"@, m.safe_target_slot);
    let g6 = render::gauge("lean_validators_count"@, m.validators);
    let g7 = render::counter("lean_fork_choice_reorgs_total"@, m.reorgs_total);
    let g8 = render::gauge("lean_processed_deposits_total"@, 0);
    let g9 = render::gauge("lean_gossip_signatures"@, m.gossip_signatures);
    let g10 = render::gauge("lean_latest_known_aggregated_payloads"@, m.latest_votes);
    let g11 = render::gauge("lean_latest_new_aggregated_payloads"@, m.gossip_signatures);
    let t0 = g0;
    let t1 = t0 + g1;
    let t2 = t1 + g2;
    let t3 = t2 + g3;
    let t4 = t3 + g4;
    let t5 = t4 + g5;
    let t6 = t5 + g6;
    let t7 = t6 + g7;
    let t8 = t7 + g8;
    let t9 = t8 + g9;
    let t10 = t9 + g10;
    let t11 = t10 + g11;
    assert(t11 == render::chain_section(m));
    lemma_line("lean_current_slot"@, m.current_slot);
    lemma_before(t0, g1, "lean_current_slot"@, m.current_slot);
    lemma_before(t1, g2, "lean_current_slot"@, m.current_slot);
    lemma_before(t2, g3, "lean_current_slot"@, m.current_slot);
    lemma_before(t3, g4, "lean_current_slot"@, m.current_slot);
    lemma_before(t4, g5, "lean_current_slot"@, m.current_slot);
    lemma_before(t5, g6, "lean_current_slot"@, m.current_slot);
    lemma_before(t6, g7, "lean_current_slot"@, m.current_slot);
    lemma_before(t7, g8, "lean_current_slot"@, m.current_slot);
    lemma_before(t8, g9, "lean_current_slot"@, m.current_slot);
    lemma_before(t9, g10, "lean_current_slot"@, m.current_slot);
    lemma_before(t10, g11, "lean_current_slot"@, m.current_slot);
    lemma_line("lean_head_slot"@, m.head_slot);
    lemma_behind(t0, g1, "lean_head_slot"@, m.head_slot);
    lemma_before(t1, g2, "lean_head_slot"@, m.head_slot);
    lemma_before(t2, g3, "lean_head_slot"@, m.head_slot);
    lemma_before(t3, g4, "lean_head_slot"@, m.head_slot);
    lemma_before(t4, g5, "lean_head_slot"@, m.head_slot);
    lemma_before(t5, g6, "lean_head_slot"@, m.head_slot);
    lemma_before(t6, g7, "lean_head_slot"@, m.head_slot);
    lemma_before(t7, g8, "lean_head_slot"@, m.head_slot);
    lemma_before(t8, g9, "lean_head_slot"@, m.head_slot);
    lemma_before(t9, g10, "lean_head_slot"@, m.head_slot);
    lemma_before(t10, g11, "lean_head_slot"@, m.head_slot);
    lemma_line("lean_latest_justified_slot"@, m.justified_slot);
    lemma_behind(t1, g2, "lean_latest_justified_slot"@, m.justified_slot);
    lemma_before(t2, g3, "lean_latest_justified_slot"@, m.justified_slot);
    lemma_before(t3, g4, "lean_latest_justified_slot"@, m.justified_slot);
    lemma_before(t4, g5, "lean_latest_justified_slot"@, m.justified_slot);
    lemma_before(t5, g6, "lean_latest_justified_slot"@, m.justified_slot);
    lemma_before(t6, g7, "lean_latest_justified_slot"@, m.justified_slot);
    lemma_before(t7, g8, "lean_latest_justified_slot"@, m.justified_slot);
    lemma_before(t8, g9, "lean_latest_justified_slot"@, m.justified_slot);
    lemma_before(t9, g10, "lean_latest_justified_slot"@, m.justified_slot);
    lemma_before(t10, g11, "lean_latest_justified_slot"@, m.justified_slot);
    lemma_line("lean_latest_finalized_slot"@, m.finalized_slot);
    lemma_behind(t2, g3, "lean_latest_finalized_slot"@, m.finalized_slot);
    lemma_before(t3, g4, "lean_latest_finalized_slot"@, m.finalized_slot);
    lemma_before(t4, g5, "lean_latest_finalized_slot"@, m.finalized_slot);
    lemma_before(t5, g6, "lean_latest_finalized_slot"@, m.finalized_slot);
    lemma_before(t6, g7, "lean_latest_finalized_slot"@, m.finalized_slot);
    lemma_before(t7, g8, "lean_latest_finalized_slot"@, m.finalized_slot);
    lemma_before(t8, g9, "lean_latest_finalized_slot"@, m.finalized_slot);
    lemma_before(t9, g10, "lean_latest_finalized_slot"@, m.finalized_slot);
    lemma_before(t10, g11, "lean_latest_finalized_slot"@, m.finalized_slot);
    lemma_line("lean_previous_justified_slot"@, m.previous_justified_slot);
    lemma_behind(t3, g4, "lean_previous_justified_slot"@, m.previous_justified_slot);
    lemma_before(t4, g5, "lean_previous_justified_slot"@, m.previous_justified_slot);
    lemma_before(t5, g6, "lean_previous_justified_slot"@, m.previous_justified_slot);
    lemma_before(t6, g7, "lean_previous_justified_slot"@, m.previous_justified_slot);
    lemma_before(t7, g8, "lean_previous_justified_slot"@, m.previous_justified_slot);
    lemma_before(t8, g9, "lean_previous_justified_slot"@, m.previous_justified_slot);
    lemma_before(t9, g10, "lean_previous_justified_slot"@, m.previous_justified_slot);
    lemma_before(t10, g11, "lean_previous_justified_slot"@, m.previous_justified_slot);
    lemma_line("lean_safe_target_slot"@, m.safe_target_slot);
    lemma_behind(t4, g5, "lean_safe_target_slot"@, m.safe_target_slot);
    lemma_before(t5, g6, "lean_safe_target_slot"@, m.safe_target_slot);
    lemma_before(t6, g7, "lean_safe_target_slot"@, m.safe_target_slot);
    lemma_before(t7, g8, "lean_safe_target_slot"@, m.safe_target_slot);
    lemma_before(t8, g9, "lean_safe_target_slot"@, m.safe_target_slot);
    lemma_before(t9, g10, "lean_safe_target_slot"@, m.safe_target_slot);
    lemma_before(t10, g11, "lean_safe_target_slot"@, m.safe_target_slot);
    lemma_line("lean_validators_count"@, m.validators);
    lemma_behind(t5, g6, "lean_validators_count"@, m.validators);
    lemma_before(t6, g7, "lean_validators_count"@, m.validators);
    lemma_before(t7, g8, "lean_validators_count"@, m.validators);
    lemma_before(t8, g9, "lean_validators_count"@, m.validators);
    lemma_before(t9, g10, "lean_validators_count"@, m.validators);
    lemma_before(t10, g11, "lean_validators_count"@, m.validators);
    lemma_line("lean_fork_choice_reorgs_total"@, m.reorgs_total);
    lemma_behind(t6, g7, "lean_fork_choice_reorgs_total"@, m.reorgs_total);
    lemma_before(t7, g8, "lean_fork_choice_reorgs_total"@, m.reorgs_total);
    lemma_before(t8, g9, "lean_fork_choice_reorgs_total"@, m.reorgs_total);
    lemma_before(t9, g10, "lean_fork_choice_reorgs_total"@, m.reorgs_total);
    lemma_before(t10, g11, "lean_fork_choice_reorgs_total"@, m.reorgs_total);
    lemma_line("lean_processed_deposits_total"@, 0);
    lemma_behind(t7, g8, "lean_processed_deposits_total"@, 0);
    lemma_before(t8, g9, "lean_processed_deposits_total"@, 0);
    lemma_before(t9, g10, "lean_processed_deposits_total"@, 0);
    lemma_before(t10, g11, "lean_processed_deposits_total"@, 0);
    lemma_line("lean_gossip_signatures"@, m.gossip_signatures);
    lemma_behind(t8, g9, "lean_gossip_signatures"@, m.gossip_signatures);
    lemma_before(t9, g10, "lean_gossip_signatures"@, m.gossip_signatures);
    lemma_before(t10, g11, "lean_gossip_signatures"@, m.gossip_signatures);
    lemma_line("lean_latest_known_aggregated_payloads"@, m.latest_votes);
    lemma_behind(t9, g10, "lean_latest_known_aggregated_payloads"@, m.latest_votes);
    lemma_before(t10, g11, "lean_latest_known_aggregated_payloads"@, m.latest_votes);
    lemma_line("lean_latest_new_aggregated_payloads"@, m.gossip_signatures);
    lemma_behind(t10, g11, "lean_latest_new_aggregated_payloads"@, m.gossip_signatures);
}

} // verus!
