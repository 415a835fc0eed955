//! Unsigned 256-bit arithmetic.
//!
//! Sums of squared nanoseconds and scaled sums of totals outgrow `u128`; the
//! few operations they need are here, each exact.

use vstd::prelude::*;

verus! {

/// Two to the power of 128.
pub open spec fn limb() -> nat {
    0x1_0000_0000_0000_0000_0000_0000_0000_0000nat
}

/// The number `hi * 2^128 + lo`.
#[derive(Debug, Clone, Copy, PartialEq, Eq, Structural)]
pub struct Wide {
    pub hi: u128,
    pub lo: u128,
}

impl View for Wide {
    type V = nat;

    open spec fn view(&self) -> nat {
        self.hi as nat * limb() + self.lo as nat
    }
}

proof fn lemma_order(a: Wide, b: Wide)
    ensures
        a@ < b@ <==> a.hi < b.hi || (a.hi == b.hi && a.lo < b.lo),
        a@ == b@ <==> a == b,
{
    let (ah, al, bh, bl) = (a.hi as int, a.lo as int, b.hi as int, b.lo as int);
    let l = limb() as int;
    if ah < bh {
        assert(ah * l + l <= bh * l) by (nonlinear_arith)
            requires
                ah + 1 <= bh,
                l > 0,
        ;
    }
    if bh < ah {
        assert(bh * l + l <= ah * l) by (nonlinear_arith)
            requires
                bh + 1 <= ah,
                l > 0,
        ;
    }
}

impl Wide {
    pub fn of(n: u128) -> (w: Wide)
        ensures
            w@ == n,
    {
        Wide { hi: 0, lo: n }
    }

    pub fn less(self, other: Wide) -> (b: bool)
        ensures
            b == (self@ < other@),
    {
        proof {
            lemma_order(self, other);
        }
        self.hi < other.hi || (self.hi == other.hi && self.lo < other.lo)
    }

    pub fn plus(self, other: Wide) -> (sum: Wide)
        requires
            self@ + other@ < limb() * limb(),
        ensures
            sum@ == self@ + other@,
    {
        let ghost (ah, bh) = (self.hi as int, other.hi as int);
        let ghost l = limb() as int;
        assert((ah + bh) * l == ah * l + bh * l) by (nonlinear_arith);
        if self.lo > u128::MAX - other.lo {
            let lo: u128 = self.lo - (u128::MAX - other.lo) - 1;
            assert((ah + bh + 1) * l == ah * l + bh * l + l) by (nonlinear_arith);
            assert(ah + bh + 1 < l) by (nonlinear_arith)
                requires
                    (ah + bh + 1) * l < l * l,
                    l > 0,
            ;
            Wide { hi: self.hi + other.hi + 1, lo }
        } else {
            assert(ah + bh < l) by (nonlinear_arith)
                requires
                    (ah + bh) * l < l * l,
                    l > 0,
            ;
            Wide { hi: self.hi + other.hi, lo: self.lo + other.lo }
        }
    }

    pub fn minus(self, other: Wide) -> (difference: Wide)
        requires
            self@ >= other@,
        ensures
            difference@ == self@ - other@,
    {
        proof {
            lemma_order(self, other);
        }
        let ghost (ah, bh) = (self.hi as int, other.hi as int);
        let ghost l = limb() as int;
        if self.lo < other.lo {
            assert((ah - bh - 1) * l == ah * l - bh * l - l) by (nonlinear_arith);
            let lo: u128 = u128::MAX - (other.lo - self.lo) + 1;
            Wide { hi: self.hi - other.hi - 1, lo }
        } else {
            assert((ah - bh) * l == ah * l - bh * l) by (nonlinear_arith);
            Wide { hi: self.hi - other.hi, lo: self.lo - other.lo }
        }
    }

    /// The full product of two `u128`.
    pub fn product(a: u128, b: u128) -> (p: Wide)
        ensures
            p@ == a * b,
    {
        let half: u128 = 0x1_0000_0000_0000_0000;
        let a1: u128 = a / half;
        let a0: u128 = a % half;
        let b1: u128 = b / half;
        let b0: u128 = b % half;
        proof {
            lemma_half_product(a1 as int, b1 as int);
            lemma_half_product(a1 as int, b0 as int);
            lemma_half_product(a0 as int, b1 as int);
            lemma_half_product(a0 as int, b0 as int);
        }
        let low: u128 = a0 * b0;
        let left: u128 = a1 * b0 + low / half;
        let right: u128 = a0 * b1 + left % half;
        let hi_part: u128 = left / half + right / half;
        proof {
            let h = half as int;
            assert(a * b == a1 * b1 * (h * h) + (a1 * b0 + a0 * b1) * h + a0 * b0)
                by (nonlinear_arith)
                requires
                    a == a1 * h + a0,
                    b == b1 * h + b0,
            ;
            assert(a * b == (a1 * b1 + hi_part) * (h * h) + (right % half) * h + low % half)
                by (nonlinear_arith)
                requires
                    a * b == a1 * b1 * (h * h) + (a1 * b0 + a0 * b1) * h + a0 * b0,
                    low == a0 * b0,
                    left == a1 * b0 + low / half,
                    right == a0 * b1 + left % half,
                    low == (low / half) * h + low % half,
                    left == (left / half) * h + left % half,
                    right == (right / half) * h + right % half,
                    hi_part == left / half + right / half,
            ;
            assert(h * h == limb());
            lemma_product_bound(a as int, b as int);
            assert(a1 * b1 + hi_part < limb()) by (nonlinear_arith)
                requires
                    a * b == (a1 * b1 + hi_part) * (h * h) + (right % half) * h + low % half,
                    a * b < limb() * limb(),
                    h * h == limb(),
                    h > 0,
                    right % half >= 0,
                    low % half >= 0,
            ;
        }
        Wide { hi: a1 * b1 + hi_part, lo: (right % half) * half + low % half }
    }

    /// Multiplication by a `u128`, where the result still fits.
    pub fn times(self, k: u128) -> (p: Wide)
        requires
            self@ * k < limb() * limb(),
        ensures
            p@ == self@ * k,
    {
        let low = Wide::product(self.lo, k);
        proof {
            let (h, lo, kk) = (self.hi as int, self.lo as int, k as int);
            let l = limb() as int;
            assert((h * l + lo) * kk == (h * kk) * l + lo * kk) by (nonlinear_arith);
            assert(0 <= lo * kk) by (nonlinear_arith)
                requires
                    lo >= 0,
                    kk >= 0,
            ;
            assert(0 <= h * kk < l) by (nonlinear_arith)
                requires
                    (h * kk) * l + lo * kk < l * l,
                    0 <= lo * kk,
                    h >= 0,
                    kk >= 0,
                    l > 0,
            ;
        }
        let high = Wide { hi: self.hi * k, lo: 0 };
        high.plus(low)
    }

    /// Quotient and remainder.
    pub fn div_rem(self, d: Wide) -> (qr: (Wide, Wide))
        requires
            d@ > 0,
        ensures
            qr.0@ * d@ + qr.1@ == self@,
            qr.1@ < d@,
        decreases self@ - d@,
    {
        if self.less(d) {
            proof {
                assert(0 * d@ == 0);
            }
            return (Wide::of(0), self);
        }
        let rest = self.minus(d);
        if rest.less(d) {
            proof {
                assert(1 * d@ == d@);
            }
            return (Wide::of(1), rest);
        }
        proof {
            lemma_view_bound(self);
        }
        let twice = d.plus(d);
        let (q, r) = self.div_rem(twice);
        proof {
            let (qq, dd) = (q@ as int, d@ as int);
            assert(qq * (dd + dd) == (qq + qq) * dd) by (nonlinear_arith);
            assert((qq + qq + 1) * dd == (qq + qq) * dd + dd) by (nonlinear_arith);
            assert(qq + qq + 1 <= (qq + qq + 1) * dd) by (nonlinear_arith)
                requires
                    dd >= 1,
                    qq >= 0,
            ;
            assert(qq + qq <= (qq + qq) * dd) by (nonlinear_arith)
                requires
                    dd >= 1,
                    qq >= 0,
            ;
        }
        if r.less(d) {
            (q.plus(q), r)
        } else {
            (q.plus(q).plus(Wide::of(1)), r.minus(d))
        }
    }
}

proof fn lemma_half_product(x: int, y: int)
    requires
        0 <= x < 0x1_0000_0000_0000_0000,
        0 <= y < 0x1_0000_0000_0000_0000,
    ensures
        0 <= x * y <= 0xffff_ffff_ffff_ffff * 0xffff_ffff_ffff_ffff,
{
    assert(0 <= x * y <= 0xffff_ffff_ffff_ffff * 0xffff_ffff_ffff_ffff) by (nonlinear_arith)
        requires
            0 <= x <= 0xffff_ffff_ffff_ffff,
            0 <= y <= 0xffff_ffff_ffff_ffff,
    ;
}

proof fn lemma_product_bound(a: int, b: int)
    requires
        0 <= a < limb(),
        0 <= b < limb(),
    ensures
        a * b < limb() * limb(),
{
    assert(a * b < limb() * limb()) by (nonlinear_arith)
        requires
            0 <= a < limb(),
            0 <= b < limb(),
    ;
}

/// A bound on the square of a limb that is linear in it.
pub proof fn lemma_limb_square()
    ensures
        limb() * limb() >= 0x1000_0000_0000_0000_0000_0000_0000_0000 * limb(),
{
    assert(limb() * limb() >= 0x1000_0000_0000_0000_0000_0000_0000_0000 * limb())
        by (nonlinear_arith)
        requires
            limb() >= 0x1000_0000_0000_0000_0000_0000_0000_0000,
    ;
}

/// Every value stays below 2^256.
pub proof fn lemma_view_bound(w: Wide)
    ensures
        w@ < limb() * limb(),
{
    let h = w.hi as int;
    assert(h * limb() + limb() <= limb() * limb()) by (nonlinear_arith)
        requires
            h + 1 <= limb(),
    ;
}

/// A number below 2^256 by its two parts.
pub open spec fn wide_of(n: nat) -> Wide {
    Wide { hi: (n / limb()) as u128, lo: (n % limb()) as u128 }
}

/// A number below 2^256 is the value of its two parts.
pub proof fn lemma_wide_of(n: nat)
    requires
        n < limb() * limb(),
    ensures
        wide_of(n)@ == n,
{
    let (q, r) = (n / limb(), n % limb());
    assert(n == q * limb() + r && q < limb()) by (nonlinear_arith)
        requires
            q == n / limb(),
            r == n % limb(),
            n < limb() * limb(),
            limb() > 0,
    ;
}

/// A wide number is the two parts of its value.
pub proof fn lemma_wide_is_of(w: Wide)
    ensures
        w == wide_of(w@),
{
    lemma_view_bound(w);
    lemma_wide_of(w@);
    lemma_order(w, wide_of(w@));
}

} // verus!
