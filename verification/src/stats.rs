//! Latency sample collection and summary.
//!
//! Every sample is retained as nanoseconds so percentiles can be computed
//! exactly. Percentiles matter more than the mean here: the dominant term is
//! a network round trip, where a single retransmit drags the mean while p50
//! still describes the typical case.

use crate::decimal::{fraction, fraction_text, pow10, Ratio};
use crate::pkcs11::Curve;
use crate::spread::{
    attainable, deviations, lemma_deviations, lemma_spread, quarters_of, scaled_variance,
    spread_sums, squares, stddev_of, total, Deviation,
};
use crate::wide::{lemma_wide_is_of, lemma_wide_of, limb, Wide};
use vstd::prelude::*;
use vstd::relations::{sorted_by, total_ordering};
use vstd::string::StringExecFns;

verus! {

/// The phases timed per iteration.
#[derive(Debug, Clone, Copy, PartialEq, Eq, Structural)]
pub enum Phase {
    SignInit,
    Sign,
    Verify,
    Total,
}

impl Phase {
    pub const ALL: [Phase; 4] = [Phase::SignInit, Phase::Sign, Phase::Verify, Phase::Total];

    pub open spec fn spec_label(self) -> Seq<char> {
        match self {
            Phase::SignInit => "C_SignInit"@,
            Phase::Sign => "C_Sign (network)"@,
            Phase::Verify => "verify (local)"@,
            Phase::Total => "total"@,
        }
    }

    pub fn label(&self) -> (label: &'static str)
        ensures
            label@ == self.spec_label(),
    {
        match self {
            Phase::SignInit => "C_SignInit",
            Phase::Sign => "C_Sign (network)",
            Phase::Verify => "verify (local)",
            Phase::Total => "total",
        }
    }

    pub open spec fn spec_label_for_curve(self, curve: Curve) -> Seq<char> {
        match (self, curve) {
            (Phase::SignInit, Curve::Ed25519) => "C_MessageSignInit (setup)"@,
            (Phase::Sign, Curve::Ed25519) => "C_SignMessage (network)"@,
            _ => self.spec_label(),
        }
    }

    /// The label, by the calls that signing on the curve goes through.
    pub fn label_for_curve(&self, curve: Curve) -> (label: &'static str)
        ensures
            label@ == self.spec_label_for_curve(curve),
    {
        match (self, curve) {
            (Phase::SignInit, Curve::Ed25519) => "C_MessageSignInit (setup)",
            (Phase::Sign, Curve::Ed25519) => "C_SignMessage (network)",
            _ => self.label(),
        }
    }

    pub open spec fn spec_key(self) -> Seq<char> {
        match self {
            Phase::SignInit => "sign_init"@,
            Phase::Sign => "sign"@,
            Phase::Verify => "verify"@,
            Phase::Total => "total"@,
        }
    }

    pub fn key(&self) -> (key: &'static str)
        ensures
            key@ == self.spec_key(),
    {
        match self {
            Phase::SignInit => "sign_init",
            Phase::Sign => "sign",
            Phase::Verify => "verify",
            Phase::Total => "total",
        }
    }
}

/// Nanosecond samples for one phase, preallocated so the timed loop never
/// grows a vector.
#[derive(Debug, Clone)]
pub struct Samples {
    values: Vec<u64>,
}

impl View for Samples {
    type V = Seq<u64>;

    closed spec fn view(&self) -> Seq<u64> {
        self.values@
    }
}

/// What one phase's samples amount to.
#[derive(Debug, Clone, Copy, PartialEq, Eq, Structural)]
pub struct Summary {
    pub n: usize,
    pub min: u64,
    pub p50: u64,
    pub p90: u64,
    pub p99: u64,
    pub p999: u64,
    pub max: u64,
    /// The exact mean.
    pub mean: Ratio,
    /// The exact standard deviation.
    pub stddev: Deviation,
    pub total: u128,
}

pub open spec fn at_most() -> spec_fn(u64, u64) -> bool {
    |a: u64, b: u64| a <= b
}

/// The samples in ascending order.
pub open spec fn ascending(samples: Seq<u64>) -> Seq<u64> {
    samples.sort_by(at_most())
}

/// The nearest rank, counted from one, of a percentile given per mille.
pub open spec fn nearest_rank(n: nat, permille: nat) -> nat {
    (permille * n + 999) / 1000
}

/// The nearest-rank percentile of ascending samples; zero where there is none.
pub open spec fn percentile_of(sorted: Seq<u64>, permille: nat) -> u64 {
    if sorted.len() == 0 {
        0
    } else {
        let rank = nearest_rank(sorted.len(), permille);
        let index = if rank == 0 {
            0
        } else if rank > sorted.len() {
            sorted.len() - 1
        } else {
            rank - 1
        };
        sorted[index]
    }
}

/// The summary of a non-empty sequence of samples.
pub open spec fn summary_of(samples: Seq<u64>) -> Summary {
    let sorted = ascending(samples);
    Summary {
        n: sorted.len() as usize,
        min: sorted[0],
        p50: percentile_of(sorted, 500),
        p90: percentile_of(sorted, 900),
        p99: percentile_of(sorted, 990),
        p999: percentile_of(sorted, 999),
        max: sorted[sorted.len() - 1],
        mean: Ratio { num: total(sorted) as u128, den: sorted.len() as u128 },
        stddev: stddev_of(sorted),
        total: total(sorted) as u128,
    }
}

/// The sort of the standard library (`slice::sort_unstable`): the values are
/// rearranged into ascending order, none added and none lost.
#[verifier::external_body]
fn sort_ascending(values: &mut Vec<u64>)
    ensures
        final(values)@.to_multiset() == old(values)@.to_multiset(),
        sorted_by(final(values)@, at_most()),
{
    values.sort_unstable();
}

/// Nearest-rank percentile. With every sample retained this is exact, so no
/// interpolation is needed.
pub fn percentile(sorted: &[u64], permille: u64) -> (value: u64)
    ensures
        value == percentile_of(sorted@, permille as nat),
{
    let n = sorted.len();
    if n == 0 {
        return 0;
    }
    assert(permille * n <= 0xffff_ffff_ffff_ffff * 0xffff_ffff_ffff_ffff) by (nonlinear_arith)
        requires
            0 <= permille <= 0xffff_ffff_ffff_ffff,
            0 <= n <= 0xffff_ffff_ffff_ffff,
    ;
    let rank: u128 = (permille as u128 * n as u128 + 999) / 1000;
    let index: usize = if rank == 0 {
        0
    } else if rank > n as u128 {
        n - 1
    } else {
        (rank - 1) as usize
    };
    sorted[index]
}

proof fn lemma_at_most_orders()
    ensures
        total_ordering(at_most()),
{
}

impl Samples {
    pub fn with_capacity(n: usize) -> (samples: Self)
        ensures
            samples@ == Seq::<u64>::empty(),
    {
        Samples { values: Vec::with_capacity(n) }
    }

    #[inline]
    pub fn push(&mut self, nanos: u64)
        ensures
            final(self)@ == old(self)@.push(nanos),
    {
        self.values.push(nanos);
    }

    pub fn len(&self) -> (n: usize)
        ensures
            n == self@.len(),
    {
        self.values.len()
    }

    pub fn is_empty(&self) -> (b: bool)
        ensures
            b == (self@.len() == 0),
    {
        self.values.len() == 0
    }

    pub fn raw(&self) -> (values: &[u64])
        ensures
            values@ == self@,
    {
        self.values.as_slice()
    }

    /// The summary, or none where there is no sample.
    pub fn summary(&self) -> (summary: Option<Summary>)
        ensures
            self@.len() == 0 ==> summary is None,
            self@.len() > 0 ==> summary == Some(summary_of(self@)),
    {
        if self.values.len() == 0 {
            return None;
        }
        let mut sorted: Vec<u64> = Vec::with_capacity(self.values.len());
        sorted.extend_from_slice(self.values.as_slice());
        assert(sorted@ =~= self.values@);
        sort_ascending(&mut sorted);
        proof {
            lemma_at_most_orders();
            self@.lemma_sort_by_ensures(at_most());
            vstd::seq_lib::lemma_sorted_unique(sorted@, ascending(self@), at_most());
            broadcast use vstd::seq_lib::group_to_multiset_ensures;
            assert(sorted@.to_multiset().len() == sorted@.len());
            assert(self@.to_multiset().len() == self@.len());
        }
        let n = sorted.len();
        let (sum, spread) = spread_sums(sorted.as_slice());
        proof {
            lemma_wide_is_of(spread);
        }
        Some(
            Summary {
                n,
                min: sorted[0],
                p50: percentile(sorted.as_slice(), 500),
                p90: percentile(sorted.as_slice(), 900),
                p99: percentile(sorted.as_slice(), 990),
                p999: percentile(sorted.as_slice(), 999),
                max: sorted[n - 1],
                mean: Ratio { num: sum, den: n as u128 },
                stddev: Deviation { square: spread, den: n as u128 },
                total: sum,
            },
        )
    }
}

impl Summary {
    /// Signatures per second implied by this phase's p50; none where it is
    /// zero and the rate is without bound.
    pub fn throughput_p50(&self) -> (rate: Option<Ratio>)
        ensures
            rate == (if self.p50 == 0 {
                None
            } else {
                Some(Ratio { num: 1_000_000_000, den: self.p50 as u128 })
            }),
    {
        if self.p50 == 0 {
            return None;
        }
        Some(Ratio { num: 1_000_000_000, den: self.p50 as u128 })
    }

    /// Signatures per second over the whole measured run; none where it took
    /// no time and the rate is without bound.
    pub fn throughput_mean(&self) -> (rate: Option<Ratio>)
        requires
            self.mean.den <= 0xffff_ffff_ffff_ffff,
        ensures
            rate == (if self.mean.num == 0 {
                None
            } else {
                Some(
                    Ratio {
                        num: (1_000_000_000 * self.mean.den) as u128,
                        den: self.mean.num,
                    },
                )
            }),
    {
        if self.mean.num == 0 {
            return None;
        }
        Some(Ratio { num: 1_000_000_000 * self.mean.den, den: self.mean.num })
    }
}

/// `num / den` nanoseconds in the unit that keeps roughly four significant
/// digits.
pub open spec fn nanos_text(num: nat, den: nat) -> Seq<char> {
    if num < 1_000 * den {
        fraction(num, den, 0) + " ns"@
    } else if num < 1_000_000 * den {
        fraction(num, 1_000 * den, 2) + " µs"@
    } else if num < 1_000_000_000 * den {
        fraction(num, 1_000_000 * den, 3) + " ms"@
    } else {
        fraction(num, 1_000_000_000 * den, 3) + " s"@
    }
}

/// Format nanoseconds with a unit that keeps roughly four significant digits.
pub fn format_nanos(nanos: Ratio) -> (text: String)
    requires
        nanos.den > 0,
    ensures
        text@ == nanos_text(nanos.num as nat, nanos.den as nat),
{
    let num = Wide::of(nanos.num);
    let den = Wide::of(nanos.den);
    proof {
        reveal_with_fuel(pow10, 4);
    }
    let thousand = den.times(1_000);
    let million = den.times(1_000_000);
    let billion = den.times(1_000_000_000);
    if num.less(thousand) {
        let mut text = fraction_text(num, den, 0);
        text.append(" ns");
        text
    } else if num.less(million) {
        let mut text = fraction_text(num, thousand, 2);
        text.append(" µs");
        text
    } else if num.less(billion) {
        let mut text = fraction_text(num, million, 3);
        text.append(" ms");
        text
    } else {
        let mut text = fraction_text(num, billion, 3);
        text.append(" s");
        text
    }
}

/// A whole number of nanoseconds, formatted.
pub open spec fn whole_nanos(nanos: nat) -> Seq<char> {
    nanos_text(nanos, 1)
}

pub fn format_whole_nanos(nanos: u128) -> (text: String)
    ensures
        text@ == whole_nanos(nanos as nat),
{
    format_nanos(Ratio::whole(nanos))
}

/// A deviation in nanoseconds, as it is printed.
pub open spec fn deviation_text(d: Deviation) -> Seq<char> {
    nanos_text(quarters_of(d.square@, d.den as nat), 4)
}

/// Format a deviation in nanoseconds.
pub fn format_deviation(d: Deviation) -> (text: String)
    requires
        attainable(d),
    ensures
        text@ == deviation_text(d),
{
    format_nanos(Ratio { num: d.quarters(), den: 4 })
}

/// Samples that are a rearrangement of one another have the same summary.
pub proof fn law_summary_order_independent(a: Seq<u64>, b: Seq<u64>)
    requires
        a.to_multiset() == b.to_multiset(),
    ensures
        summary_of(a) == summary_of(b),
{
    lemma_at_most_orders();
    a.lemma_sort_by_ensures(at_most());
    b.lemma_sort_by_ensures(at_most());
    vstd::seq_lib::lemma_sorted_unique(ascending(a), ascending(b), at_most());
}

/// Ascending samples are the samples, rearranged.
proof fn lemma_ascending(samples: Seq<u64>)
    ensures
        ascending(samples).len() == samples.len(),
        ascending(samples).to_multiset() == samples.to_multiset(),
        forall|i: int, j: int|
            0 <= i <= j < samples.len() ==> ascending(samples)[i] <= ascending(samples)[j],
        forall|v: u64| ascending(samples).contains(v) <==> samples.contains(v),
{
    let sorted = ascending(samples);
    lemma_at_most_orders();
    samples.lemma_sort_by_ensures(at_most());
    broadcast use vstd::seq_lib::group_to_multiset_ensures;

    assert(sorted.to_multiset().len() == sorted.len());
    assert(samples.to_multiset().len() == samples.len());
    assert forall|i: int, j: int| 0 <= i <= j < samples.len() implies sorted[i] <= sorted[j] by {
        if i < j {
            assert(at_most()(sorted[i], sorted[j]));
        }
    }
    assert forall|v: u64| sorted.contains(v) <==> samples.contains(v) by {
        assert(sorted.contains(v) <==> sorted.to_multiset().count(v) > 0);
        assert(samples.contains(v) <==> samples.to_multiset().count(v) > 0);
    }
}

/// A percentile is the sample at the nearest rank: the smallest rank that
/// covers the given share of the samples.
pub proof fn law_percentile_is_nearest_rank(sorted: Seq<u64>, permille: nat)
    requires
        sorted.len() > 0,
        0 < permille <= 1000,
    ensures
        exists|rank: int|
            1 <= rank <= sorted.len() && 1000 * (rank - 1) < permille * sorted.len() <= 1000 * rank
                && percentile_of(sorted, permille) == #[trigger] sorted[rank - 1],
{
    let n = sorted.len();
    let rank = nearest_rank(n, permille) as int;
    assert(0 < permille * n <= 1000 * n) by (nonlinear_arith)
        requires
            0 < permille <= 1000,
            n > 0,
    ;
    assert(percentile_of(sorted, permille) == sorted[rank - 1]);
}

/// The smallest and the largest sample are samples and bound all others, the
/// percentiles are samples, and they never decrease from one to the next.
pub proof fn law_summary_is_ordered(samples: Seq<u64>)
    requires
        0 < samples.len() <= usize::MAX,
    ensures
        ({
            let s = summary_of(samples);
            &&& s.n == samples.len()
            &&& s.min <= s.p50 <= s.p90 <= s.p99 <= s.p999 <= s.max
            &&& samples.contains(s.min) && samples.contains(s.p50) && samples.contains(s.p90)
            &&& samples.contains(s.p99) && samples.contains(s.p999) && samples.contains(s.max)
            &&& forall|v: u64| samples.contains(v) ==> s.min <= v <= s.max
        }),
{
    let sorted = ascending(samples);
    let n = sorted.len();
    lemma_ascending(samples);
    assert(sorted.contains(sorted[0]));
    assert(sorted.contains(sorted[n - 1]));
    assert(sorted.contains(percentile_of(sorted, 500)));
    assert(sorted.contains(percentile_of(sorted, 900)));
    assert(sorted.contains(percentile_of(sorted, 990)));
    assert(sorted.contains(percentile_of(sorted, 999)));
    assert forall|v: u64| samples.contains(v) implies sorted[0] <= v <= sorted[n - 1] by {
        assert(sorted.contains(v));
        let i = choose|i: int| 0 <= i < sorted.len() && sorted[i] == v;
        assert(sorted[0] <= sorted[i] <= sorted[n - 1]);
    }
}

proof fn lemma_total_bounds(samples: Seq<u64>, low: int, high: int)
    requires
        forall|i: int| 0 <= i < samples.len() ==> low <= #[trigger] samples[i] <= high,
    ensures
        low * samples.len() <= total(samples) <= high * samples.len(),
    decreases samples.len(),
{
    if samples.len() == 0 {
        assert(low * 0 == 0 && high * 0 == 0);
    } else {
        let k = (samples.len() - 1) as int;
        lemma_total_bounds(samples.drop_last(), low, high);
        assert(low * (k + 1) == low * k + low) by (nonlinear_arith);
        assert(high * (k + 1) == high * k + high) by (nonlinear_arith);
        assert(low <= samples[k] <= high);
    }
}

proof fn lemma_total_without(samples: Seq<u64>, i: int)
    requires
        0 <= i < samples.len(),
    ensures
        total(samples) == total(samples.remove(i)) + samples[i],
    decreases samples.len(),
{
    let last = samples.len() - 1;
    if i == last {
        assert(samples.remove(i) =~= samples.drop_last());
    } else {
        lemma_total_without(samples.drop_last(), i);
        assert(samples.remove(i).drop_last() =~= samples.drop_last().remove(i));
        assert(samples.remove(i).last() == samples.last());
    }
}

/// Samples that are a rearrangement of one another have the same total.
pub proof fn law_total_order_independent(a: Seq<u64>, b: Seq<u64>)
    requires
        a.to_multiset() == b.to_multiset(),
    ensures
        total(a) == total(b),
    decreases a.len(),
{
    broadcast use vstd::seq_lib::group_to_multiset_ensures;

    assert(a.to_multiset().len() == a.len());
    assert(b.to_multiset().len() == b.len());
    if a.len() > 0 {
        let last = a.len() - 1;
        assert(a.contains(a[last]));
        assert(b.to_multiset().count(a[last]) > 0);
        assert(b.contains(a[last]));
        let i = choose|i: int| 0 <= i < b.len() && b[i] == a[last];
        lemma_total_without(a, last);
        lemma_total_without(b, i);
        assert(a.remove(last).to_multiset() =~= a.to_multiset().remove(a[last]));
        assert(b.remove(i).to_multiset() =~= b.to_multiset().remove(b[i]));
        law_total_order_independent(a.remove(last), b.remove(i));
    }
}

proof fn lemma_squares_without(samples: Seq<u64>, i: int)
    requires
        0 <= i < samples.len(),
    ensures
        squares(samples) == squares(samples.remove(i)) + samples[i] * samples[i],
    decreases samples.len(),
{
    let last = samples.len() - 1;
    if i == last {
        assert(samples.remove(i) =~= samples.drop_last());
    } else {
        lemma_squares_without(samples.drop_last(), i);
        assert(samples.remove(i).drop_last() =~= samples.drop_last().remove(i));
        assert(samples.remove(i).last() == samples.last());
    }
}

proof fn lemma_squares_order_independent(a: Seq<u64>, b: Seq<u64>)
    requires
        a.to_multiset() == b.to_multiset(),
    ensures
        squares(a) == squares(b),
    decreases a.len(),
{
    broadcast use vstd::seq_lib::group_to_multiset_ensures;

    assert(a.to_multiset().len() == a.len());
    assert(b.to_multiset().len() == b.len());
    if a.len() > 0 {
        let last = a.len() - 1;
        assert(a.contains(a[last]));
        assert(b.to_multiset().count(a[last]) > 0);
        assert(b.contains(a[last]));
        let i = choose|i: int| 0 <= i < b.len() && b[i] == a[last];
        lemma_squares_without(a, last);
        lemma_squares_without(b, i);
        assert(a.remove(last).to_multiset() =~= a.to_multiset().remove(a[last]));
        assert(b.remove(i).to_multiset() =~= b.to_multiset().remove(b[i]));
        lemma_squares_order_independent(a.remove(last), b.remove(i));
    }
}

/// The standard deviation is exact: its square, times the number of samples,
/// is the sum of the squared distances of the samples from their mean, with
/// both scaled by that number.
pub proof fn law_stddev_is_exact(samples: Seq<u64>)
    requires
        0 < samples.len() <= usize::MAX,
    ensures
        ({
            let s = summary_of(samples);
            &&& s.stddev.den == samples.len()
            &&& s.stddev.square@ * samples.len() == deviations(
                samples,
                samples.len() as int,
                total(samples) as int,
            )
            &&& attainable(s.stddev)
        }),
{
    let sorted = ascending(samples);
    lemma_ascending(samples);
    lemma_spread(sorted);
    law_total_order_independent(sorted, samples);
    lemma_squares_order_independent(sorted, samples);
    lemma_spread(samples);
    lemma_deviations(samples, samples.len() as int, total(samples) as int);
}

/// The mean is the total over the number of samples, and lies between the
/// smallest and the largest of them.
pub proof fn law_mean_is_between(samples: Seq<u64>)
    requires
        0 < samples.len() <= usize::MAX,
    ensures
        ({
            let s = summary_of(samples);
            &&& s.mean.den == samples.len() && s.mean.num == s.total
            &&& s.total == total(samples)
            &&& s.min * s.mean.den <= s.mean.num <= s.max * s.mean.den
        }),
{
    let sorted = ascending(samples);
    let n = sorted.len();
    lemma_ascending(samples);
    law_total_order_independent(sorted, samples);
    let (low, high) = (sorted[0] as int, sorted[n - 1] as int);
    assert forall|i: int| 0 <= i < n implies low <= #[trigger] sorted[i] <= high by {
        assert(sorted[0] <= sorted[i] <= sorted[n - 1]);
    }
    lemma_total_bounds(sorted, low, high);
    assert(high * n < limb()) by (nonlinear_arith)
        requires
            0 <= high <= 0xffff_ffff_ffff_ffff,
            0 <= n <= 0xffff_ffff_ffff_ffff,
    ;
}

proof fn lemma_no_deviation(samples: Seq<u64>, v: u64, n: int, sum: int)
    requires
        forall|i: int| 0 <= i < samples.len() ==> #[trigger] samples[i] == v,
        sum == n * v,
    ensures
        deviations(samples, n, sum) == 0,
        total(samples) == samples.len() * v,
    decreases samples.len(),
{
    if samples.len() > 0 {
        lemma_no_deviation(samples.drop_last(), v, n, sum);
        let k = (samples.len() - 1) as int;
        assert(samples[k] == v);
        assert((k + 1) * v == k * v + v) by (nonlinear_arith);
        assert((n * v - sum) * (n * v - sum) == 0) by (nonlinear_arith)
            requires
                sum == n * v,
        ;
    }
}

/// Samples that are all the same have no spread.
pub proof fn law_equal_samples_have_no_spread(samples: Seq<u64>, v: u64)
    requires
        samples.len() > 0,
        forall|i: int| 0 <= i < samples.len() ==> #[trigger] samples[i] == v,
    ensures
        summary_of(samples).stddev.square@ == 0,
{
    let sorted = ascending(samples);
    let n = sorted.len();
    lemma_ascending(samples);
    assert forall|i: int| 0 <= i < n implies #[trigger] sorted[i] == v by {
        assert(sorted.contains(sorted[i]));
        assert(samples.contains(sorted[i]));
        let j = choose|j: int| 0 <= j < samples.len() && samples[j] == sorted[i];
        assert(samples[j] == v);
    }
    lemma_no_deviation(sorted, v, n as int, n * v);
    assert(total(sorted) == n * v);
    assert(scaled_variance(sorted) == 0);
    assert(0nat / n == 0) by (nonlinear_arith)
        requires
            n > 0,
    ;
    assert(limb() * limb() > 0) by (nonlinear_arith)
        requires
            limb() > 0,
    ;
    lemma_wide_of(0);
}

/// How many samples are less than `bound`.
pub open spec fn count_below(samples: Seq<u64>, bound: int) -> nat
    decreases samples.len(),
{
    if samples.len() == 0 {
        0
    } else if samples.last() < bound {
        count_below(samples.drop_last(), bound) + 1
    } else {
        count_below(samples.drop_last(), bound)
    }
}

proof fn lemma_count_without(samples: Seq<u64>, i: int, bound: int)
    requires
        0 <= i < samples.len(),
    ensures
        count_below(samples, bound) == count_below(samples.remove(i), bound) + (if samples[i]
            < bound {
            1int
        } else {
            0
        }),
    decreases samples.len(),
{
    let last = samples.len() - 1;
    if i == last {
        assert(samples.remove(i) =~= samples.drop_last());
    } else {
        lemma_count_without(samples.drop_last(), i, bound);
        assert(samples.remove(i).drop_last() =~= samples.drop_last().remove(i));
        assert(samples.remove(i).last() == samples.last());
    }
}

proof fn lemma_count_order_independent(a: Seq<u64>, b: Seq<u64>, bound: int)
    requires
        a.to_multiset() == b.to_multiset(),
    ensures
        count_below(a, bound) == count_below(b, bound),
    decreases a.len(),
{
    broadcast use vstd::seq_lib::group_to_multiset_ensures;

    assert(a.to_multiset().len() == a.len());
    assert(b.to_multiset().len() == b.len());
    if a.len() > 0 {
        let last = a.len() - 1;
        assert(a.contains(a[last]));
        assert(b.to_multiset().count(a[last]) > 0);
        assert(b.contains(a[last]));
        let i = choose|i: int| 0 <= i < b.len() && b[i] == a[last];
        lemma_count_without(a, last, bound);
        lemma_count_without(b, i, bound);
        assert(a.remove(last).to_multiset() =~= a.to_multiset().remove(a[last]));
        assert(b.remove(i).to_multiset() =~= b.to_multiset().remove(b[i]));
        lemma_count_order_independent(a.remove(last), b.remove(i), bound);
    }
}

proof fn lemma_count_of_sorted(sorted: Seq<u64>, k: int, bound: int)
    requires
        0 <= k <= sorted.len(),
        forall|i: int, j: int| 0 <= i <= j < sorted.len() ==> sorted[i] <= sorted[j],
    ensures
        k < sorted.len() && sorted[k] >= bound ==> count_below(sorted, bound) <= k,
        k > 0 && sorted[k - 1] < bound ==> count_below(sorted, bound) >= k,
    decreases sorted.len(),
{
    let n = sorted.len();
    if n > 0 {
        let front = sorted.drop_last();
        assert forall|i: int, j: int| 0 <= i <= j < front.len() implies front[i] <= front[j] by {
            assert(sorted[i] <= sorted[j]);
        }
        if k < n {
            assert(sorted[k] <= sorted[n - 1]);
            lemma_count_of_sorted(front, k, bound);
            if k == n - 1 {
                lemma_count_at_most(front, bound);
            }
        } else {
            lemma_count_of_sorted(front, k - 1, bound);
            if k > 1 {
                assert(sorted[k - 2] <= sorted[k - 1]);
            }
        }
    }
}

proof fn lemma_count_at_most(samples: Seq<u64>, bound: int)
    ensures
        count_below(samples, bound) <= samples.len(),
    decreases samples.len(),
{
    if samples.len() > 0 {
        lemma_count_at_most(samples.drop_last(), bound);
    }
}

/// Whether a value is the given percentile of samples: no fewer than the share
/// of them are at most the value, and fewer than the share are less than it.
pub open spec fn covers(samples: Seq<u64>, value: u64, permille: nat) -> bool {
    &&& permille * samples.len() <= 1000 * count_below(samples, value + 1)
    &&& 1000 * count_below(samples, value as int) < permille * samples.len()
}

proof fn lemma_covers(samples: Seq<u64>, permille: nat)
    requires
        samples.len() > 0,
        0 < permille <= 1000,
    ensures
        covers(samples, percentile_of(ascending(samples), permille), permille),
{
    let sorted = ascending(samples);
    lemma_ascending(samples);
    law_percentile_is_nearest_rank(sorted, permille);
    let rank = choose|rank: int|
        1 <= rank <= sorted.len() && 1000 * (rank - 1) < permille * sorted.len() <= 1000 * rank
            && percentile_of(sorted, permille) == #[trigger] sorted[rank - 1];
    let value = sorted[rank - 1];
    lemma_count_of_sorted(sorted, rank, value + 1);
    lemma_count_of_sorted(sorted, rank - 1, value as int);
    lemma_count_order_independent(sorted, samples, value + 1);
    lemma_count_order_independent(sorted, samples, value as int);
}

/// Each percentile of a summary covers its own share of the samples: 50, 90, 99
/// and 99.9 per cent of them.
pub proof fn law_percentiles_cover_their_share(samples: Seq<u64>)
    requires
        samples.len() > 0,
    ensures
        covers(samples, summary_of(samples).p50, 500),
        covers(samples, summary_of(samples).p90, 900),
        covers(samples, summary_of(samples).p99, 990),
        covers(samples, summary_of(samples).p999, 999),
{
    lemma_covers(samples, 500);
    lemma_covers(samples, 900);
    lemma_covers(samples, 990);
    lemma_covers(samples, 999);
}

proof fn lemma_count_grows(samples: Seq<u64>, low: int, high: int)
    requires
        low <= high,
    ensures
        count_below(samples, low) <= count_below(samples, high),
    decreases samples.len(),
{
    if samples.len() > 0 {
        lemma_count_grows(samples.drop_last(), low, high);
    }
}

/// At most one value covers a share.
pub proof fn law_percentile_is_unique(samples: Seq<u64>, a: u64, b: u64, permille: nat)
    requires
        covers(samples, a, permille),
        covers(samples, b, permille),
    ensures
        a == b,
{
    if a < b {
        lemma_count_grows(samples, a + 1, b as int);
    }
    if b < a {
        lemma_count_grows(samples, b + 1, a as int);
    }
}

/// A total is the sum of the samples.
pub proof fn law_total_adds_up(samples: Seq<u64>, v: u64)
    ensures
        total(Seq::empty()) == 0,
        total(samples.push(v)) == total(samples) + v,
{
    assert(samples.push(v).drop_last() =~= samples);
}

/// The squared distances add up, that of each sample from the mean, scaled by
/// the number of samples.
pub proof fn law_deviations_add_up(samples: Seq<u64>, v: u64, n: int, sum: int)
    ensures
        deviations(Seq::empty(), n, sum) == 0,
        deviations(samples.push(v), n, sum) == deviations(samples, n, sum) + (n * v - sum) * (n * v
            - sum),
{
    assert(samples.push(v).drop_last() =~= samples);
}

/// Phases have names of their own: no two share a label, on a curve or without
/// one, or a key.
pub proof fn law_phases_have_names_of_their_own(a: Phase, b: Phase, curve: Curve)
    requires
        a != b,
    ensures
        a.spec_label() != b.spec_label(),
        a.spec_label_for_curve(curve) != b.spec_label_for_curve(curve),
        a.spec_key() != b.spec_key(),
{
    reveal_strlit("C_SignInit");
    reveal_strlit("C_Sign (network)");
    reveal_strlit("verify (local)");
    reveal_strlit("total");
    reveal_strlit("C_MessageSignInit (setup)");
    reveal_strlit("C_SignMessage (network)");
    reveal_strlit("sign_init");
    reveal_strlit("sign");
    reveal_strlit("verify");
    let (la, lb) = (a.spec_label(), b.spec_label());
    let (ca, cb) = (a.spec_label_for_curve(curve), b.spec_label_for_curve(curve));
    let (ka, kb) = (a.spec_key(), b.spec_key());
    assert(la.len() != lb.len() || la[0] != lb[0]);
    assert(ca.len() != cb.len() || ca[0] != cb[0]);
    assert(ka.len() != kb.len() || ka[0] != kb[0]);
}

/// Only the two calls of the module go by another name on Ed25519; what is
/// local keeps its name.
pub proof fn law_labels_follow_the_curve(phase: Phase)
    ensures
        phase.spec_label_for_curve(Curve::P256) == phase.spec_label(),
        phase == Phase::Verify || phase == Phase::Total ==> phase.spec_label_for_curve(
            Curve::Ed25519,
        ) == phase.spec_label(),
        phase == Phase::SignInit ==> "C_MessageSignInit (setup)"@ == phase.spec_label_for_curve(
            Curve::Ed25519,
        ),
        phase == Phase::Sign ==> "C_SignMessage (network)"@ == phase.spec_label_for_curve(
            Curve::Ed25519,
        ),
{
}

/// Beyond the ends a percentile is the end: the first sample at nothing, the
/// last above the whole. Without samples it is zero.
pub proof fn law_percentile_at_the_ends(sorted: Seq<u64>, permille: nat)
    ensures
        sorted.len() == 0 ==> percentile_of(sorted, permille) == 0,
        sorted.len() > 0 && permille == 0 ==> percentile_of(sorted, permille) == sorted[0],
        sorted.len() > 0 && permille >= 1000 ==> percentile_of(sorted, permille) == sorted.last(),
{
    if permille >= 1000 {
        let n = sorted.len();
        assert(permille * n >= 1000 * n) by (nonlinear_arith)
            requires
                permille >= 1000,
        ;
    }
    assert(0 * sorted.len() == 0);
}

} // verus!
