//! Sums over samples: the total, and the spread around the mean that the
//! standard deviation is the root of.

use crate::wide::{lemma_limb_square, lemma_wide_of, limb, wide_of, Wide};
use vstd::prelude::*;

verus! {

pub open spec fn total(samples: Seq<u64>) -> nat
    decreases samples.len(),
{
    if samples.len() == 0 {
        0
    } else {
        total(samples.drop_last()) + samples.last() as nat
    }
}

/// The sum of the squares.
pub open spec fn squares(samples: Seq<u64>) -> nat
    decreases samples.len(),
{
    if samples.len() == 0 {
        0
    } else {
        squares(samples.drop_last()) + samples.last() as nat * samples.last() as nat
    }
}

/// The sum of the squared distances of `n` times each sample from `sum`.
pub open spec fn deviations(samples: Seq<u64>, n: int, sum: int) -> int
    decreases samples.len(),
{
    if samples.len() == 0 {
        0
    } else {
        deviations(samples.drop_last(), n, sum) + (n * samples.last() - sum) * (n * samples.last()
            - sum)
    }
}

/// The variance times the cube of the number of samples: the sum, over the
/// samples, of the squared distance from the mean, both scaled by that number.
pub open spec fn scaled_variance(samples: Seq<u64>) -> nat {
    deviations(samples, samples.len() as int, total(samples) as int) as nat
}

/// Whether `r` is the largest whole number whose square is at most `x`.
pub open spec fn is_root(r: nat, x: nat) -> bool {
    r * r <= x < (r + 1) * (r + 1)
}

/// The largest whole number whose square is at most `x`.
pub open spec fn root_of(x: nat) -> nat {
    choose|r: nat| is_root(r, x)
}

/// The variance times the square of the number of samples.
pub open spec fn spread_of(samples: Seq<u64>) -> nat {
    scaled_variance(samples) / samples.len()
}

/// The square root of `square`, divided by `den`.
#[derive(Debug, Clone, Copy, PartialEq, Eq, Structural)]
pub struct Deviation {
    pub square: Wide,
    pub den: u128,
}

/// Whether a deviation is one that samples of 64 bits can have.
pub open spec fn attainable(d: Deviation) -> bool {
    &&& 0 < d.den <= 0xffff_ffff_ffff_ffff
    &&& d.square@ <= d.den * d.den * (0xffff_ffff_ffff_ffff * 0xffff_ffff_ffff_ffff)
}

/// The standard deviation of samples.
pub open spec fn stddev_of(samples: Seq<u64>) -> Deviation {
    Deviation { square: wide_of(spread_of(samples)), den: samples.len() as u128 }
}

/// The root of `square`, divided by `den`, in quarters of one: an even number
/// of them where it is a whole number of halves, and the odd number between
/// its two neighbours where it is not.
pub open spec fn quarters_of(square: nat, den: nat) -> nat {
    let halves = root_of((4 * square) / (den * den));
    if halves * halves * (den * den) == 4 * square {
        2 * halves
    } else {
        2 * halves + 1
    }
}

/// Every number has a whole root.
proof fn lemma_root_exists(x: nat) -> (r: nat)
    ensures
        is_root(r, x),
    decreases x,
{
    if x == 0 {
        assert(0nat * 0nat == 0 && 1nat * 1nat == 1);
        0
    } else {
        let r = lemma_root_exists((x - 1) as nat);
        assert((r + 2) * (r + 2) > (r + 1) * (r + 1)) by (nonlinear_arith);
        if x < (r + 1) * (r + 1) {
            r
        } else {
            r + 1
        }
    }
}

/// Quarters lie on the same side of every half as the root that they stand
/// for, and on a half exactly where it does. So what is rounded at halves of a
/// nanosecond, or compared with whole ones, is the same of both.
pub proof fn law_quarters_compare_as_the_root(square: nat, den: nat, h: nat)
    requires
        den > 0,
    ensures
        quarters_of(square, den) < 2 * h <==> 4 * square < h * h * (den * den),
        quarters_of(square, den) == 2 * h <==> 4 * square == h * h * (den * den),
{
    let d = den * den;
    assert(d > 0) by (nonlinear_arith)
        requires
            d == den * den,
            den > 0,
    ;
    let x = (4 * square) / d;
    let witness = lemma_root_exists(x);
    let r = root_of(x);
    assert(is_root(r, x));
    let (rr, ss, hh) = (r * r, (r + 1) * (r + 1), h * h);
    assert(rr * d <= 4 * square < ss * d) by (nonlinear_arith)
        requires
            x == (4 * square) / d,
            d > 0,
            rr <= x < ss,
    ;
    if h <= r {
        assert(hh <= rr) by (nonlinear_arith)
            requires
                hh == h * h,
                rr == r * r,
                h <= r,
        ;
        assert(hh * d <= rr * d) by (nonlinear_arith)
            requires
                hh <= rr,
        ;
        if h < r {
            assert(hh < rr) by (nonlinear_arith)
                requires
                    hh == h * h,
                    rr == r * r,
                    h < r,
            ;
            assert(hh * d < rr * d) by (nonlinear_arith)
                requires
                    hh < rr,
                    d > 0,
            ;
        }
    } else {
        assert(ss <= hh) by (nonlinear_arith)
            requires
                hh == h * h,
                ss == (r + 1) * (r + 1),
                r + 1 <= h,
        ;
        assert(ss * d <= hh * d) by (nonlinear_arith)
            requires
                ss <= hh,
        ;
    }
}

pub proof fn lemma_roots_agree(r: nat, s: nat, x: nat)
    requires
        is_root(r, x),
        is_root(s, x),
    ensures
        r == s,
{
    if r < s {
        assert((r + 1) * (r + 1) <= s * s) by (nonlinear_arith)
            requires
                r + 1 <= s,
        ;
    }
    if s < r {
        assert((s + 1) * (s + 1) <= r * r) by (nonlinear_arith)
            requires
                s + 1 <= r,
        ;
    }
}

/// The squared distances from the sums that one pass over the samples gives.
pub proof fn lemma_deviations(samples: Seq<u64>, n: int, sum: int)
    ensures
        deviations(samples, n, sum) >= 0,
        deviations(samples, n, sum) == n * n * squares(samples) - 2 * n * sum * total(samples)
            + samples.len() * sum * sum,
    decreases samples.len(),
{
    if samples.len() == 0 {
        assert(n * n * 0 - 2 * n * sum * 0 + 0 * sum * sum == 0) by (nonlinear_arith);
    } else {
        let rest = samples.drop_last();
        let (v, q, t, k) = (
            samples.last() as int,
            squares(rest) as int,
            total(rest) as int,
            rest.len() as int,
        );
        lemma_deviations(rest, n, sum);
        assert((n * v - sum) * (n * v - sum) >= 0) by (nonlinear_arith);
        assert(n * n * q - 2 * n * sum * t + k * sum * sum + (n * v - sum) * (n * v - sum) == n * n
            * (q + v * v) - 2 * n * sum * (t + v) + (k + 1) * sum * sum) by (nonlinear_arith);
    }
}

/// The scaled variance from the sums that one pass over the samples gives.
pub proof fn lemma_scaled_variance(samples: Seq<u64>)
    ensures
        total(samples) * total(samples) <= samples.len() * squares(samples) || samples.len() == 0,
        scaled_variance(samples) == samples.len() * (samples.len() * squares(samples) - total(
            samples,
        ) * total(samples)),
{
    let (n, q, t) = (samples.len() as int, squares(samples) as int, total(samples) as int);
    lemma_deviations(samples, n, t);
    assert(n * n * q - 2 * n * t * t + n * t * t == n * (n * q - t * t)) by (nonlinear_arith);
    if n > 0 {
        assert(n * q - t * t >= 0) by (nonlinear_arith)
            requires
                n * (n * q - t * t) >= 0,
                n > 0,
        ;
    }
}

proof fn lemma_bounds(samples: Seq<u64>)
    ensures
        total(samples) <= samples.len() * 0xffff_ffff_ffff_ffff,
        squares(samples) <= samples.len() * 0xffff_ffff_ffff_ffff * 0xffff_ffff_ffff_ffff,
    decreases samples.len(),
{
    if samples.len() > 0 {
        lemma_bounds(samples.drop_last());
        let v = samples.last() as int;
        assert(v * v <= 0xffff_ffff_ffff_ffff * 0xffff_ffff_ffff_ffff) by (nonlinear_arith)
            requires
                0 <= v <= 0xffff_ffff_ffff_ffff,
        ;
    }
}

proof fn lemma_sums_fit(k: int, n: int)
    requires
        0 <= k <= n <= 0xffff_ffff_ffff_ffff,
    ensures
        k * 0xffff_ffff_ffff_ffff < limb(),
        k * 0xffff_ffff_ffff_ffff * 0xffff_ffff_ffff_ffff < limb() * limb(),
{
    assert(k * 0xffff_ffff_ffff_ffff < limb() && k * 0xffff_ffff_ffff_ffff * 0xffff_ffff_ffff_ffff
        < limb() * limb()) by (nonlinear_arith)
        requires
            0 <= k <= 0xffff_ffff_ffff_ffff,
    ;
}

/// The largest `r` with `r * r <= x`, for `x` at most 2^130.
fn root(x: Wide) -> (r: u128)
    requires
        x@ <= 4 * limb(),
    ensures
        is_root(r as nat, x@),
        r <= 0x2_0000_0000_0000_0000,
{
    let mut low: u128 = 0;
    let mut high: u128 = 0x2_0000_0000_0000_0001;
    while high - low > 1
        invariant
            low < high <= 0x2_0000_0000_0000_0001,
            low * low <= x@ < high * high,
        decreases high - low,
    {
        let middle: u128 = low + (high - low) / 2;
        let square = Wide::product(middle, middle);
        if x.less(square) {
            high = middle;
        } else {
            low = middle;
        }
    }
    assert(high == low + 1);
    low
}

/// The spread from the sums that one pass over the samples gives, and a bound
/// on it.
pub proof fn lemma_spread(samples: Seq<u64>)
    requires
        0 < samples.len() <= 0xffff_ffff_ffff_ffff,
    ensures
        spread_of(samples) == samples.len() * squares(samples) - total(samples) * total(samples),
        spread_of(samples) * samples.len() == scaled_variance(samples),
        spread_of(samples) <= samples.len() * samples.len() * (0xffff_ffff_ffff_ffff
            * 0xffff_ffff_ffff_ffff),
        spread_of(samples) < limb() * limb(),
        stddev_of(samples).square@ == spread_of(samples),
        attainable(stddev_of(samples)),
{
    lemma_scaled_variance(samples);
    lemma_bounds(samples);
    let (n, q, t) = (samples.len() as int, squares(samples) as int, total(samples) as int);
    let s = n * q - t * t;
    assert((n * s) / n == s && s * n == n * s) by (nonlinear_arith)
        requires
            n > 0,
    ;
    assert(0 <= s <= n * n * (0xffff_ffff_ffff_ffff * 0xffff_ffff_ffff_ffff)) by (nonlinear_arith)
        requires
            s == n * q - t * t,
            t * t <= n * q,
            n > 0,
            q <= n * 0xffff_ffff_ffff_ffff * 0xffff_ffff_ffff_ffff,
    ;
    assert(n * n * (0xffff_ffff_ffff_ffff * 0xffff_ffff_ffff_ffff) < limb() * limb())
        by (nonlinear_arith)
        requires
            0 < n <= 0xffff_ffff_ffff_ffff,
    ;
    lemma_wide_of(spread_of(samples));
}

/// The total of the samples, and their spread.
pub fn spread_sums(samples: &[u64]) -> (r: (u128, Wide))
    requires
        samples@.len() > 0,
    ensures
        r.0 == total(samples@),
        r.1@ == spread_of(samples@),
{
    let n = samples.len();
    let mut sum: u128 = 0;
    let mut square_sum = Wide::of(0);
    let mut i: usize = 0;
    assert(samples@.take(0) == Seq::<u64>::empty());
    while i < n
        invariant
            i <= n,
            n == samples@.len(),
            sum == total(samples@.take(i as int)),
            square_sum@ == squares(samples@.take(i as int)),
        decreases n - i,
    {
        let ghost before = samples@.take(i as int);
        let ghost after = samples@.take(i + 1);
        assert(after.drop_last() == before);
        let v: u128 = samples[i] as u128;
        proof {
            lemma_bounds(after);
            lemma_sums_fit(after.len() as int, n as int);
            assert(v * v <= 0xffff_ffff_ffff_ffff * 0xffff_ffff_ffff_ffff) by (nonlinear_arith)
                requires
                    0 <= v <= 0xffff_ffff_ffff_ffff,
            ;
        }
        sum = sum + v;
        square_sum = square_sum.plus(Wide::of(v * v));
        i = i + 1;
    }
    assert(samples@.take(n as int) == samples@);
    proof {
        lemma_bounds(samples@);
        lemma_spread(samples@);
        let (nn, q) = (n as int, squares(samples@) as int);
        assert(q * nn < limb() * limb() && q * nn == nn * q) by (nonlinear_arith)
            requires
                0 <= nn <= 0xffff_ffff_ffff_ffff,
                0 <= q <= nn * 0xffff_ffff_ffff_ffff * 0xffff_ffff_ffff_ffff,
        ;
    }
    (sum, square_sum.times(n as u128).minus(Wide::product(sum, sum)))
}

impl Deviation {
    /// The deviation in quarters of one, as it is rounded for print.
    pub fn quarters(self) -> (quarters: u128)
        requires
            attainable(self),
        ensures
            quarters == quarters_of(self.square@, self.den as nat),
    {
        let den: u128 = self.den;
        assert(0 < den * den < limb()) by (nonlinear_arith)
            requires
                0 < den <= 0xffff_ffff_ffff_ffff,
        ;
        let unit = Wide::of(den * den);
        let (whole, rest) = self.square.div_rem(unit);
        proof {
            let (s, w, d, r) = (self.square@ as int, whole@ as int, unit@ as int, rest@ as int);
            assert(w <= 0xffff_ffff_ffff_ffff * 0xffff_ffff_ffff_ffff) by (nonlinear_arith)
                requires
                    w * d + r == s,
                    r >= 0,
                    s <= d * (0xffff_ffff_ffff_ffff * 0xffff_ffff_ffff_ffff),
                    d > 0,
            ;
            lemma_limb_square();
        }
        let (fourths, last) = rest.times(4).div_rem(unit);
        proof {
            let (f, d) = (fourths@ as int, unit@ as int);
            if f >= 4 {
                assert(f * d >= 4 * d) by (nonlinear_arith)
                    requires
                        f >= 4,
                        d > 0,
                ;
            }
        }
        let quotient = whole.times(4).plus(fourths);
        let halves = root(quotient);
        let exact = last.lo == 0 && last.hi == 0 && {
            let back = Wide::product(halves, halves);
            back.lo == quotient.lo && back.hi == quotient.hi
        };
        proof {
            let (s, d, q, l) = (self.square@ as int, unit@ as int, quotient@ as int, last@ as int);
            assert(4 * s == q * d + l) by (nonlinear_arith)
                requires
                    s == whole@ * d + rest@,
                    4 * rest@ == fourths@ * d + l,
                    q == 4 * whole@ + fourths@,
            ;
            vstd::arithmetic::div_mod::lemma_fundamental_div_mod_converse(4 * s, d, q, l);
            let x = (4 * self.square@) / (den as nat * den as nat);
            assert(x == q);
            assert(is_root(halves as nat, x));
            lemma_roots_agree(halves as nat, root_of(x), x);
            let p = (halves * halves) as int;
            assert(p * d == 4 * s <==> p == q && l == 0) by (nonlinear_arith)
                requires
                    p <= q,
                    4 * s == q * d + l,
                    l >= 0,
                    d > 0,
            ;
        }
        if exact {
            2 * halves
        } else {
            2 * halves + 1
        }
    }
}

} // verus!
