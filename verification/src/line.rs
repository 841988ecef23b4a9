//! Edge functions: the signed distance of a point from the line through two
//! points, kept exact.

use vstd::prelude::*;
use crate::coord::{ScreenCoord, UNIT};
use crate::surd::{Surd, signed_square, lemma_signed_square_scale, lemma_neg_reverses};

verus! {

/// `(u - a) . n` for the normal `n = (-(b.y - a.y), b.x - a.x)`, which is the
/// tangent `b - a` turned by a quarter turn. All lengths are in fixed-point
/// steps.
pub open spec fn edge_cross(a: ScreenCoord, b: ScreenCoord, u: ScreenCoord) -> int {
    (u.x - a.x) * (-(b.y - a.y)) + (u.y - a.y) * (b.x - a.x)
}

/// The squared length of `b - a`, in fixed-point steps.
pub open spec fn edge_len_sq(a: ScreenCoord, b: ScreenCoord) -> int {
    (b.x - a.x) * (b.x - a.x) + (b.y - a.y) * (b.y - a.y)
}

/// `(u - a) . (b - a)`: how far along the edge `u` lies, times the length of
/// the edge.
pub open spec fn edge_dot(a: ScreenCoord, b: ScreenCoord, u: ScreenCoord) -> int {
    (u.x - a.x) * (b.x - a.x) + (u.y - a.y) * (b.y - a.y)
}

/// The signed distance of `u` from the line through `a` and `b`, in units of
/// screen space: `(u - a) . n / |n|`, which in fixed-point steps is
/// `edge_cross / (UNIT * sqrt(edge_len_sq))`.
///
/// Its magnitude is the distance of `u` from the line, and it is negative on
/// one side of the line, positive on the other. For `a == b` there is no line
/// and the distance is undefined.
pub open spec fn edge_distance(a: ScreenCoord, b: ScreenCoord, u: ScreenCoord) -> Surd {
    Surd { num: signed_square(edge_cross(a, b, u)), den: UNIT * UNIT * edge_len_sq(a, b) }
}

/// Bound on the magnitude of the numerator and of the squared length.
spec fn reach() -> int {
    0x2_0000_0000_0000_0000
}

/// A signed distance from a line, as `cross / (UNIT * sqrt(len_sq))`.
#[derive(Debug, Clone, Copy)]
pub struct SignedDistance {
    cross: i128,
    len_sq: u128,
}

impl View for SignedDistance {
    type V = Surd;

    closed spec fn view(&self) -> Surd {
        Surd { num: signed_square(self.cross as int), den: UNIT * UNIT * self.len_sq }
    }
}

/// What `lt_ratio` computes, with the signs taken apart: `p` is the numerator
/// of the distance times `m`, and `x` the square of `n * UNIT` times the
/// squared length.
proof fn lemma_lt_ratio(cross: int, len_sq: int, n: int, m: int, r: int)
    requires
        len_sq > 0,
        m > 0,
        r > 0,
    ensures
        ({
            let d = Surd { num: signed_square(cross), den: UNIT * UNIT * len_sq };
            let p = if cross >= 0 { cross * m } else { -cross * m };
            let q = if n >= 0 { n * UNIT } else { -n * UNIT };
            let x = q * q * len_sq;
            &&& p >= 0
            &&& q >= 0
            &&& x >= 0
            &&& d.lt(Surd::ratio(n, m, r)) == if cross < 0 && n >= 0 {
                true
            } else if cross >= 0 && n <= 0 {
                false
            } else if cross >= 0 {
                p * p * r < x
            } else {
                p * p * r > x
            }
        }),
{
    let d = Surd { num: signed_square(cross), den: UNIT * UNIT * len_sq };
    let t = Surd::ratio(n, m, r);
    let p = if cross >= 0 { cross * m } else { -cross * m };
    let q = if n >= 0 { n * UNIT } else { -n * UNIT };
    let x = q * q * len_sq;
    let mm = m * m * r;
    let uu = UNIT * UNIT * len_sq;
    assert(mm > 0) by (nonlinear_arith)
        requires
            mm == m * m * r,
            m > 0,
            r > 0,
    ;
    assert(uu > 0) by (nonlinear_arith)
        requires
            uu == UNIT * UNIT * len_sq,
            UNIT == 25856,
            len_sq > 0,
    ;
    assert(d.defined() && t.defined());
    assert(p >= 0) by (nonlinear_arith)
        requires
            p == if cross >= 0 { cross * m } else { -cross * m },
            m > 0,
    ;
    assert(q >= 0) by (nonlinear_arith)
        requires
            q == if n >= 0 { n * UNIT } else { -n * UNIT },
            UNIT == 25856,
    ;
    assert(x >= 0) by (nonlinear_arith)
        requires
            x == q * q * len_sq,
            len_sq > 0,
    ;
    // the two sides of the comparison, up to sign
    assert(p * p * r == (cross * cross) * mm) by (nonlinear_arith)
        requires
            p == cross * m || p == -cross * m,
            mm == m * m * r,
    ;
    assert(x == (n * n) * uu) by (nonlinear_arith)
        requires
            q == n * UNIT || q == -n * UNIT,
            x == q * q * len_sq,
            uu == UNIT * UNIT * len_sq,
    ;
    assert(cross * cross >= 0 && n * n >= 0) by (nonlinear_arith);
    assert(cross != 0 ==> cross * cross > 0) by (nonlinear_arith);
    assert(n != 0 ==> n * n > 0) by (nonlinear_arith);
    assert(n == 0 ==> n * n == 0) by (nonlinear_arith);
    assert(cross == 0 ==> cross * cross == 0) by (nonlinear_arith);
    let cc = cross * cross;
    let nn = n * n;
    assert((-cc) * mm == -(cc * mm)) by (nonlinear_arith);
    assert((-nn) * uu == -(nn * uu)) by (nonlinear_arith);
    assert(cc * mm >= 0 && (cc > 0 ==> cc * mm > 0)) by (nonlinear_arith)
        requires
            cc >= 0,
            mm > 0,
    ;
    assert(nn == 0 ==> nn * uu == 0) by (nonlinear_arith);
    assert(cc == 0 ==> cc * mm == 0) by (nonlinear_arith);
    assert(nn * uu >= 0 && (nn > 0 ==> nn * uu > 0)) by (nonlinear_arith)
        requires
            nn >= 0,
            uu > 0,
    ;
    assert(d.num * t.den == if cross >= 0 { cc * mm } else { -(cc * mm) });
    assert(t.num * d.den == if n >= 0 { nn * uu } else { -(nn * uu) });
}

/// `p * p * r < x`, without overflow.
fn square_times_lt(p: u128, r: u128, x: u128) -> (b: bool)
    requires
        r > 0,
    ensures
        b == (p * p * r < x),
{
    if p >= 0x1_0000_0000_0000_0000 {
        assert(p * p * r >= 0x1_0000_0000_0000_0000 * 0x1_0000_0000_0000_0000) by (nonlinear_arith)
            requires
                p >= 0x1_0000_0000_0000_0000,
                r >= 1,
        ;
        false
    } else if x == 0 {
        assert(p * p * r >= 0) by (nonlinear_arith);
        false
    } else {
        assert(p * p <= 0xffff_ffff_ffff_ffff * 0xffff_ffff_ffff_ffff) by (nonlinear_arith)
            requires
                p <= 0xffff_ffff_ffff_ffff,
        ;
        let s: u128 = p * p;
        let bound: u128 = (x - 1) / r;
        proof {
            let y = (x - 1) as int;
            let ri = r as int;
            vstd::arithmetic::div_mod::lemma_fundamental_div_mod(y, ri);
            vstd::arithmetic::div_mod::lemma_mod_bound(y, ri);
            assert(y == ri * (y / ri) + y % ri);
            if s <= bound {
                assert(s * r <= y) by (nonlinear_arith)
                    requires
                        s <= y / ri,
                        y == ri * (y / ri) + y % ri,
                        0 <= y % ri,
                        r == ri,
                        ri > 0,
                ;
            } else {
                assert(s * r > y) by (nonlinear_arith)
                    requires
                        s >= y / ri + 1,
                        y == ri * (y / ri) + y % ri,
                        y % ri < ri,
                        r == ri,
                        ri > 0,
                ;
            }
        }
        s <= bound
    }
}

/// `p * p * r > x`, without overflow.
fn square_times_gt(p: u128, r: u128, x: u128) -> (b: bool)
    requires
        r > 0,
    ensures
        b == (p * p * r > x),
{
    if p >= 0x1_0000_0000_0000_0000 {
        assert(p * p * r >= 0x1_0000_0000_0000_0000 * 0x1_0000_0000_0000_0000) by (nonlinear_arith)
            requires
                p >= 0x1_0000_0000_0000_0000,
                r >= 1,
        ;
        true
    } else {
        assert(p * p <= 0xffff_ffff_ffff_ffff * 0xffff_ffff_ffff_ffff) by (nonlinear_arith)
            requires
                p <= 0xffff_ffff_ffff_ffff,
        ;
        let s: u128 = p * p;
        let bound: u128 = x / r;
        proof {
            let y = x as int;
            let ri = r as int;
            vstd::arithmetic::div_mod::lemma_fundamental_div_mod(y, ri);
            vstd::arithmetic::div_mod::lemma_mod_bound(y, ri);
            assert(y == ri * (y / ri) + y % ri);
            if s <= bound {
                assert(s * r <= y) by (nonlinear_arith)
                    requires
                        s <= y / ri,
                        y == ri * (y / ri) + y % ri,
                        0 <= y % ri,
                        r == ri,
                        ri > 0,
                ;
            } else {
                assert(s * r > y) by (nonlinear_arith)
                    requires
                        s >= y / ri + 1,
                        y == ri * (y / ri) + y % ri,
                        y % ri < ri,
                        r == ri,
                        ri > 0,
                ;
            }
        }
        s > bound
    }
}

/// Whether `cross / (UNIT * sqrt(len_sq)) < n / (m * sqrt(r))`.
fn distance_lt(cross: i128, len_sq: u128, n: i32, m: u16, r: u32) -> (b: bool)
    requires
        -reach() <= cross <= reach(),
        len_sq <= reach(),
        -0x8000 <= n <= 0x8000,
        m > 0,
        r > 0,
    ensures
        b == (Surd { num: signed_square(cross as int), den: UNIT * UNIT * len_sq }).lt(
            Surd::ratio(n as int, m as int, r as int),
        ),
{
    if len_sq == 0 {
        return false;
    }
    proof {
        lemma_lt_ratio(cross as int, len_sq as int, n as int, m as int, r as int);
    }
    if cross < 0 && n >= 0 {
        true
    } else if cross >= 0 && n <= 0 {
        false
    } else {
        let size: u128 = if cross >= 0 { cross as u128 } else { (-cross) as u128 };
        let bound: u128 = if n >= 0 { n as u128 } else { (-n) as u128 };
        assert(size * m <= 0x2_0000_0000_0000_0000 * 0xffff) by (nonlinear_arith)
            requires
                size <= 0x2_0000_0000_0000_0000,
                m <= 0xffff,
        ;
        let p: u128 = size * (m as u128);
        let q: u128 = bound * (UNIT as u128);
        assert(q * q <= 0x3280_0000 * 0x3280_0000) by (nonlinear_arith)
            requires
                q <= 0x3280_0000,
        ;
        assert(q * q * len_sq <= 0x3280_0000 * 0x3280_0000 * 0x2_0000_0000_0000_0000)
            by (nonlinear_arith)
            requires
                q * q <= 0x3280_0000 * 0x3280_0000,
                len_sq <= 0x2_0000_0000_0000_0000,
        ;
        let x: u128 = q * q * len_sq;
        if cross >= 0 {
            square_times_lt(p, r as u128, x)
        } else {
            square_times_gt(p, r as u128, x)
        }
    }
}

impl SignedDistance {
    #[verifier::type_invariant]
    spec fn bounded(self) -> bool {
        -reach() <= self.cross <= reach() && self.len_sq <= reach()
    }

    /// Whether the distance is defined, that is, whether it was taken from a
    /// line through two different points.
    pub fn is_defined(&self) -> (b: bool)
        ensures
            b == self@.defined(),
    {
        assert(UNIT * UNIT == 668532736) by (nonlinear_arith)
            requires
                UNIT == 25856,
        ;
        self.len_sq > 0
    }

    /// Whether the distance is less than `n / (m * sqrt(r))`.
    pub fn lt_ratio(&self, n: i16, m: u16, r: u32) -> (b: bool)
        requires
            m > 0,
            r > 0,
        ensures
            b == self@.lt(Surd::ratio(n as int, m as int, r as int)),
    {
        proof {
            use_type_invariant(self);
        }
        distance_lt(self.cross, self.len_sq, n as i32, m, r)
    }

    /// Whether the distance is greater than `n / (m * sqrt(r))`.
    pub fn gt_ratio(&self, n: i16, m: u16, r: u32) -> (b: bool)
        requires
            m > 0,
            r > 0,
        ensures
            b == Surd::ratio(n as int, m as int, r as int).lt(self@),
    {
        proof {
            use_type_invariant(self);
            let d = self@;
            let t = Surd::ratio(n as int, m as int, r as int);
            lemma_neg_reverses(d, t);
            lemma_signed_square_scale(self.cross as int, 1);
            lemma_signed_square_scale(n as int, 1);
            assert(d.neg() == Surd {
                num: signed_square(-self.cross as int),
                den: UNIT * UNIT * self.len_sq,
            });
            assert(t.neg() == Surd::ratio(-(n as int), m as int, r as int));
        }
        distance_lt(-self.cross, self.len_sq, -(n as i32), m, r)
    }
}

/// The edge function of a directed line: where it starts, where it goes, and
/// the normal and squared length worked out once for all points.
#[derive(Debug, Clone, Copy)]
pub struct LineEq {
    a: ScreenCoord,
    b: ScreenCoord,
    nx: i64,
    ny: i64,
    len_sq: u128,
}

impl LineEq {
    #[verifier::type_invariant]
    spec fn consistent(self) -> bool {
        &&& self.nx == -(self.b.y - self.a.y)
        &&& self.ny == self.b.x - self.a.x
        &&& self.len_sq == edge_len_sq(self.a, self.b)
    }

    /// The point the line starts from.
    pub closed spec fn start(self) -> ScreenCoord {
        self.a
    }

    /// The point the line heads for.
    pub closed spec fn end(self) -> ScreenCoord {
        self.b
    }

    /// Whether the line has no direction because it ends where it starts.
    pub fn is_degenerate(&self) -> (b: bool)
        ensures
            b == (self.start() == self.end()),
    {
        proof {
            use_type_invariant(self);
            lemma_len_sq_bound(self.a, self.b);
        }
        self.len_sq == 0
    }

    /// The signed distance of `u` from the line.
    pub fn eval(&self, u: ScreenCoord) -> (d: SignedDistance)
        ensures
            d@ == edge_distance(self.start(), self.end(), u),
    {
        proof {
            use_type_invariant(self);
        }
        let dx: i64 = u.x as i64 - self.a.x as i64;
        let dy: i64 = u.y as i64 - self.a.y as i64;
        assert(-0xffff_ffff * 0xffff_ffff <= dx * self.nx <= 0xffff_ffff * 0xffff_ffff)
            by (nonlinear_arith)
            requires
                -0xffff_ffff <= dx <= 0xffff_ffff,
                -0xffff_ffff <= self.nx <= 0xffff_ffff,
        ;
        assert(-0xffff_ffff * 0xffff_ffff <= dy * self.ny <= 0xffff_ffff * 0xffff_ffff)
            by (nonlinear_arith)
            requires
                -0xffff_ffff <= dy <= 0xffff_ffff,
                -0xffff_ffff <= self.ny <= 0xffff_ffff,
        ;
        let cross: i128 = (dx as i128) * (self.nx as i128) + (dy as i128) * (self.ny as i128);
        proof {
            lemma_len_sq_bound(self.a, self.b);
        }
        SignedDistance { cross, len_sq: self.len_sq }
    }
}

/// The squared length of an edge between two representable points.
proof fn lemma_len_sq_bound(a: ScreenCoord, b: ScreenCoord)
    ensures
        0 <= edge_len_sq(a, b) <= 2 * (0xffff_ffff * 0xffff_ffff),
        edge_len_sq(a, b) == 0 <==> a == b,
{
    let tx = b.x - a.x;
    let ty = b.y - a.y;
    assert(0 <= tx * tx <= 0xffff_ffff * 0xffff_ffff && (tx != 0 ==> tx * tx > 0))
        by (nonlinear_arith)
        requires
            -0xffff_ffff <= tx <= 0xffff_ffff,
    ;
    assert(0 <= ty * ty <= 0xffff_ffff * 0xffff_ffff && (ty != 0 ==> ty * ty > 0))
        by (nonlinear_arith)
        requires
            -0xffff_ffff <= ty <= 0xffff_ffff,
    ;
    assert(edge_len_sq(a, b) == tx * tx + ty * ty);
    if edge_len_sq(a, b) == 0 {
        assert(tx == 0 && ty == 0);
        assert(a.x == b.x && a.y == b.y);
        assert(a == b);
    }
    if a == b {
        assert(tx * tx == 0 && ty * ty == 0) by (nonlinear_arith)
            requires
                tx == 0,
                ty == 0,
        ;
    }
}

/// A degenerate edge has no defined distance from any point, and every other
/// edge has one from every point.
pub proof fn lemma_distance_defined(a: ScreenCoord, b: ScreenCoord, u: ScreenCoord)
    ensures
        edge_distance(a, b, u).defined() <==> a != b,
{
    lemma_len_sq_bound(a, b);
    let len_sq = edge_len_sq(a, b);
    assert(len_sq > 0 ==> UNIT * UNIT * len_sq > 0) by (nonlinear_arith)
        requires
            UNIT == 25856,
    ;
    assert(len_sq == 0 ==> UNIT * UNIT * len_sq == 0) by (nonlinear_arith);
}

/// The signed distance is the part of `u - a` that stands upright on the
/// edge: its square and the square of the part along the edge add up to the
/// squared length of `u - a`. So its magnitude is the distance of `u` from the
/// line, and the two ends of the edge, which are on the line, have distance
/// zero.
pub proof fn lemma_distance_is_upright(a: ScreenCoord, b: ScreenCoord, u: ScreenCoord)
    ensures
        edge_cross(a, b, u) * edge_cross(a, b, u) + edge_dot(a, b, u) * edge_dot(a, b, u)
            == edge_len_sq(a, b) * edge_len_sq(a, u),
        edge_cross(a, b, a) == 0,
        edge_cross(a, b, b) == 0,
{
    let dx = u.x - a.x;
    let dy = u.y - a.y;
    let tx = b.x - a.x;
    let ty = b.y - a.y;
    // the four products of a component of `u - a` with one of `b - a`
    let xy = dx * ty;
    let yx = dy * tx;
    let xx = dx * tx;
    let yy = dy * ty;
    assert(dx * (-ty) == -xy) by (nonlinear_arith)
        requires
            xy == dx * ty,
    ;
    assert((yx - xy) * (yx - xy) == yx * yx - 2 * (xy * yx) + xy * xy) by (nonlinear_arith);
    assert((xx + yy) * (xx + yy) == xx * xx + 2 * (xx * yy) + yy * yy) by (nonlinear_arith);
    assert(xy * yx == xx * yy) by (nonlinear_arith)
        requires
            xy == dx * ty,
            yx == dy * tx,
            xx == dx * tx,
            yy == dy * ty,
    ;
    let tt = tx * tx;
    let uu = ty * ty;
    let dd = dx * dx;
    let ee = dy * dy;
    assert(xy * xy == dd * uu) by (nonlinear_arith)
        requires
            xy == dx * ty,
            dd == dx * dx,
            uu == ty * ty,
    ;
    assert(yx * yx == ee * tt) by (nonlinear_arith)
        requires
            yx == dy * tx,
            ee == dy * dy,
            tt == tx * tx,
    ;
    assert(xx * xx == dd * tt) by (nonlinear_arith)
        requires
            xx == dx * tx,
            dd == dx * dx,
            tt == tx * tx,
    ;
    assert(yy * yy == ee * uu) by (nonlinear_arith)
        requires
            yy == dy * ty,
            ee == dy * dy,
            uu == ty * ty,
    ;
    assert((tt + uu) * (dd + ee) == dd * tt + ee * tt + dd * uu + ee * uu) by (nonlinear_arith);
    assert(0 * (-ty) + 0 * tx == 0) by (nonlinear_arith);
    assert(tx * (-ty) + ty * tx == 0) by (nonlinear_arith);
}

/// Walking an edge the other way negates the distance of every point from
/// it: what was inside is outside.
pub proof fn lemma_reverse_edge(a: ScreenCoord, b: ScreenCoord, u: ScreenCoord)
    ensures
        edge_distance(b, a, u) == edge_distance(a, b, u).neg(),
{
    let ux = u.x as int;
    let uy = u.y as int;
    let ax = a.x as int;
    let ay = a.y as int;
    let bx = b.x as int;
    let by = b.y as int;
    assert((ux - bx) * (-(ay - by)) + (uy - by) * (ax - bx) == -((ux - ax) * (-(by - ay)) + (uy
        - ay) * (bx - ax))) by (nonlinear_arith);
    assert((ax - bx) * (ax - bx) + (ay - by) * (ay - by) == (bx - ax) * (bx - ax) + (by - ay) * (by
        - ay)) by (nonlinear_arith);
    lemma_signed_square_scale(edge_cross(a, b, u), 1);
}

/// The edge function of the line from `a` to `b`.
pub fn get_line_eq(a: ScreenCoord, b: ScreenCoord) -> (line: LineEq)
    ensures
        line.start() == a,
        line.end() == b,
{
    let tx: i64 = b.x as i64 - a.x as i64;
    let ty: i64 = b.y as i64 - a.y as i64;
    proof {
        lemma_len_sq_bound(a, b);
    }
    assert(0 <= tx * tx <= 0xffff_ffff * 0xffff_ffff) by (nonlinear_arith)
        requires
            -0xffff_ffff <= tx <= 0xffff_ffff,
    ;
    assert(0 <= ty * ty <= 0xffff_ffff * 0xffff_ffff) by (nonlinear_arith)
        requires
            -0xffff_ffff <= ty <= 0xffff_ffff,
    ;
    let len_sq: u128 = (tx as i128 * tx as i128) as u128 + (ty as i128 * ty as i128) as u128;
    LineEq { a, b, nx: -ty, ny: tx, len_sq }
}

} // verus!
