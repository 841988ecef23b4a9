//! The coverage value of a triangle: the least of the signed distances from
//! its three edges.

use vstd::prelude::*;
use crate::coord::ScreenCoord;
use crate::image::Color;
use crate::line::{SignedDistance, edge_distance, lemma_reverse_edge};
use crate::surd::{Surd, lemma_lt_min, lemma_min_lt, lemma_min_neg};

verus! {

/// A triangle to draw: its vertices in the order that fixes which side of
/// each edge is inside, and its colour.
#[derive(Debug, PartialEq, Eq, Clone, Copy, Structural)]
pub struct Triangle {
    pub a: ScreenCoord,
    pub b: ScreenCoord,
    pub c: ScreenCoord,
    pub color: Color,
}

/// The signed coverage value of a triangle at a point: the least of the
/// distances from its three edges, taken in the order `a -> b`, `b -> c`,
/// `c -> a`. An edge between two equal vertices does not count; where all
/// three vertices are equal the value is undefined.
pub open spec fn triangle_sign(
    a: ScreenCoord,
    b: ScreenCoord,
    c: ScreenCoord,
    u: ScreenCoord,
) -> Surd {
    edge_distance(a, b, u).min(edge_distance(b, c, u)).min(edge_distance(c, a, u))
}

/// The greatest of the distances from the three edges.
pub open spec fn triangle_peak(
    a: ScreenCoord,
    b: ScreenCoord,
    c: ScreenCoord,
    u: ScreenCoord,
) -> Surd {
    edge_distance(c, a, u).max(edge_distance(b, c, u)).max(edge_distance(a, b, u))
}

/// The distances of one point from the three edges of a triangle. Its view is
/// the least of them.
#[derive(Debug, Clone, Copy)]
pub struct TriangleSign {
    pub ab: SignedDistance,
    pub bc: SignedDistance,
    pub ca: SignedDistance,
}

impl View for TriangleSign {
    type V = Surd;

    open spec fn view(&self) -> Surd {
        self.ab@.min(self.bc@).min(self.ca@)
    }
}

impl TriangleSign {
    /// Whether the coverage value is less than `n / (m * sqrt(r))`.
    pub fn lt_ratio(&self, n: i16, m: u16, r: u32) -> (b: bool)
        requires
            m > 0,
            r > 0,
        ensures
            b == self@.lt(Surd::ratio(n as int, m as int, r as int)),
    {
        proof {
            let t = Surd::ratio(n as int, m as int, r as int);
            lemma_min_lt(self.ab@, self.bc@, t);
            lemma_min_lt(self.ab@.min(self.bc@), self.ca@, t);
        }
        self.ab.lt_ratio(n, m, r) || self.bc.lt_ratio(n, m, r) || self.ca.lt_ratio(n, m, r)
    }

    /// Whether the coverage value is greater than `n / (m * sqrt(r))`.
    pub fn gt_ratio(&self, n: i16, m: u16, r: u32) -> (b: bool)
        requires
            m > 0,
            r > 0,
        ensures
            b == Surd::ratio(n as int, m as int, r as int).lt(self@),
    {
        proof {
            let t = Surd::ratio(n as int, m as int, r as int);
            lemma_lt_min(self.ab@, self.bc@, t);
            lemma_lt_min(self.ab@.min(self.bc@), self.ca@, t);
        }
        let ab = self.ab.is_defined();
        let bc = self.bc.is_defined();
        let ca = self.ca.is_defined();
        (ab || bc || ca) && (!ab || self.ab.gt_ratio(n, m, r)) && (!bc || self.bc.gt_ratio(
            n,
            m,
            r,
        )) && (!ca || self.ca.gt_ratio(n, m, r))
    }
}

/// Naming the vertices in the other order, `a`, `c`, `b`, turns every edge
/// around and with it the sign of every distance: the coverage value becomes
/// the negated greatest distance from the edges of `a`, `b`, `c`.
pub proof fn lemma_swap_winding(a: ScreenCoord, b: ScreenCoord, c: ScreenCoord, u: ScreenCoord)
    ensures
        triangle_sign(a, c, b, u) == triangle_peak(a, b, c, u).neg(),
{
    lemma_reverse_edge(c, a, u);
    lemma_reverse_edge(b, c, u);
    lemma_reverse_edge(a, b, u);
    let ca = edge_distance(c, a, u);
    let bc = edge_distance(b, c, u);
    let ab = edge_distance(a, b, u);
    lemma_min_neg(ca, bc);
    lemma_min_neg(ca.max(bc), ab);
}

} // verus!
