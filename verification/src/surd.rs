//! Real numbers of the form `± sqrt(q)` for a rational `q`, compared exactly.
//!
//! The distance of a point from a line through two grid points is such a
//! number, and so is every bound it is held against. Because `x * |x|` grows
//! strictly with `x`, two such numbers compare as their signed squares do,
//! and those are rational: all comparisons come down to integer products.

use vstd::prelude::*;

verus! {

/// `x * |x|`: the square of `x` with the sign of `x`.
pub open spec fn signed_square(x: int) -> int {
    if x >= 0 {
        x * x
    } else {
        -(x * x)
    }
}

/// The real number whose signed square is `num / den`, that is
/// `sqrt(num / den)` for `num >= 0` and `-sqrt(-num / den)` otherwise.
///
/// With `den == 0` the number is undefined, like the quotient `0 / 0` it
/// stands for. An undefined number compares false with everything and is
/// passed over by `min` and `max`.
pub struct Surd {
    pub num: int,
    pub den: int,
}

impl Surd {
    pub open spec fn defined(self) -> bool {
        self.den > 0
    }

    /// The number `n / (m * sqrt(r))`, for positive `m` and `r`.
    pub open spec fn ratio(n: int, m: int, r: int) -> Surd {
        Surd { num: signed_square(n), den: m * m * r }
    }

    /// `self < other`; false where either is undefined.
    pub open spec fn lt(self, other: Surd) -> bool {
        self.defined() && other.defined() && self.num * other.den < other.num * self.den
    }

    /// `self <= other`; false where either is undefined.
    pub open spec fn le(self, other: Surd) -> bool {
        self.defined() && other.defined() && self.num * other.den <= other.num * self.den
    }

    /// `-self`.
    pub open spec fn neg(self) -> Surd {
        Surd { num: -self.num, den: self.den }
    }

    /// The smaller of the two; the other one where one is undefined.
    pub open spec fn min(self, other: Surd) -> Surd {
        if !self.defined() {
            other
        } else if !other.defined() {
            self
        } else if self.le(other) {
            self
        } else {
            other
        }
    }

    /// The larger of the two; the other one where one is undefined.
    pub open spec fn max(self, other: Surd) -> Surd {
        if !self.defined() {
            other
        } else if !other.defined() {
            self
        } else if other.le(self) {
            self
        } else {
            other
        }
    }
}

/// `p <= q` and `q < t` give `p < t`, and so do `p < q` and `q <= t`, for
/// fractions with positive denominators.
pub proof fn lemma_fraction_order_transitive(
    a: int,
    b: int,
    c: int,
    d: int,
    e: int,
    f: int,
)
    requires
        b > 0,
        d > 0,
        f > 0,
        a * d <= c * b,
        c * f <= e * d,
        a * d < c * b || c * f < e * d,
    ensures
        a * f < e * b,
{
    assert((a * d) * f <= (c * b) * f) by (nonlinear_arith)
        requires
            a * d <= c * b,
            f > 0,
    ;
    assert((c * f) * b <= (e * d) * b) by (nonlinear_arith)
        requires
            c * f <= e * d,
            b > 0,
    ;
    if a * d < c * b {
        assert((a * d) * f < (c * b) * f) by (nonlinear_arith)
            requires
                a * d < c * b,
                f > 0,
        ;
    } else {
        assert((c * f) * b < (e * d) * b) by (nonlinear_arith)
            requires
                c * f < e * d,
                b > 0,
        ;
    }
    assert((c * b) * f == (c * f) * b) by (nonlinear_arith);
    assert((a * d) * f == (a * f) * d) by (nonlinear_arith);
    assert((e * d) * b == (e * b) * d) by (nonlinear_arith);
    assert(a * f < e * b) by (nonlinear_arith)
        requires
            (a * f) * d < (e * b) * d,
            d > 0,
    ;
}

/// The order is transitive.
pub proof fn lemma_lt_transitive(p: Surd, q: Surd, t: Surd)
    requires
        p.le(q) && q.lt(t) || p.lt(q) && q.le(t),
    ensures
        p.lt(t),
{
    lemma_fraction_order_transitive(p.num, p.den, q.num, q.den, t.num, t.den);
}

/// The smaller of two numbers lies below a bound exactly when one of the two
/// does.
pub proof fn lemma_min_lt(p: Surd, q: Surd, t: Surd)
    ensures
        p.min(q).lt(t) == (p.lt(t) || q.lt(t)),
{
    if p.defined() && q.defined() && t.defined() {
        if p.le(q) {
            if q.lt(t) {
                lemma_lt_transitive(p, q, t);
            }
        } else {
            if p.lt(t) {
                lemma_lt_transitive(q, p, t);
            }
        }
    }
}

/// A bound lies below the larger of two numbers exactly when it lies below
/// one of the two.
pub proof fn lemma_lt_max(p: Surd, q: Surd, t: Surd)
    ensures
        t.lt(p.max(q)) == (t.lt(p) || t.lt(q)),
{
    if p.defined() && q.defined() && t.defined() {
        if q.le(p) {
            if t.lt(q) {
                lemma_lt_transitive(t, q, p);
            }
        } else {
            if t.lt(p) {
                lemma_lt_transitive(t, p, q);
            }
        }
    }
}

/// A bound lies below the smaller of two numbers exactly when at least one
/// of them is defined and the bound lies below each defined one.
pub proof fn lemma_lt_min(p: Surd, q: Surd, t: Surd)
    ensures
        t.lt(p.min(q)) == ((p.defined() || q.defined()) && (p.defined() ==> t.lt(p)) && (
        q.defined() ==> t.lt(q))),
{
    if p.defined() && q.defined() && t.defined() {
        if p.le(q) {
            if t.lt(p) {
                lemma_lt_transitive(t, p, q);
            }
        } else {
            if t.lt(q) {
                lemma_lt_transitive(t, q, p);
            }
        }
    }
}

/// Negation turns the order around.
pub proof fn lemma_neg_reverses(p: Surd, q: Surd)
    ensures
        p.neg().lt(q.neg()) == q.lt(p),
        p.neg().le(q.neg()) == q.le(p),
        p.neg().neg() == p,
        p.neg().defined() == p.defined(),
{
    assert((-p.num) * q.den == -(p.num * q.den)) by (nonlinear_arith);
    assert((-q.num) * p.den == -(q.num * p.den)) by (nonlinear_arith);
}

/// The smaller of the negations is the negation of the larger.
pub proof fn lemma_min_neg(p: Surd, q: Surd)
    ensures
        p.neg().min(q.neg()) == p.max(q).neg(),
{
    lemma_neg_reverses(p, q);
}

/// The signed square of a product with a non-negative factor.
pub proof fn lemma_signed_square_scale(x: int, m: int)
    requires
        m >= 0,
    ensures
        signed_square(x * m) == signed_square(x) * (m * m),
        signed_square(-x) == -signed_square(x),
{
    assert((x * m) * (x * m) == (x * x) * (m * m)) by (nonlinear_arith);
    assert((-(x * x)) * (m * m) == -((x * x) * (m * m))) by (nonlinear_arith);
    assert((-x) * (-x) == x * x) by (nonlinear_arith);
    if x >= 0 {
        assert(x * m >= 0) by (nonlinear_arith)
            requires
                x >= 0,
                m >= 0,
        ;
    } else {
        assert(x * m <= 0) by (nonlinear_arith)
            requires
                x < 0,
                m >= 0,
        ;
        if x * m == 0 {
            assert((x * x) * (m * m) == 0);
        }
    }
}

} // verus!
