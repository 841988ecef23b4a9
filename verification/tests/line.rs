use triangle_raster::coord::{ScreenCoord, UNIT};
use triangle_raster::line::get_line_eq;
use triangle_raster::triangle::TriangleSign;

/// The fixed-point screen coordinate of a point given in units of screen space.
fn at(x: f64, y: f64) -> ScreenCoord {
    ScreenCoord {
        x: (x * UNIT as f64).round() as i32,
        y: (y * UNIT as f64).round() as i32,
    }
}

#[test]
fn distance_from_a_vertical_line() {
    // heading up the y axis the normal is (-1, 0): the distance is -x
    let line = get_line_eq(at(0.0, -1.0), at(0.0, 1.0));
    let d = line.eval(at(0.5, 0.3));
    assert!(d.is_defined());
    // exactly -1/2
    assert!(!d.lt_ratio(-1, 2, 1));
    assert!(!d.gt_ratio(-1, 2, 1));
    assert!(d.lt_ratio(-49, 100, 1));
    assert!(d.gt_ratio(-51, 100, 1));
    assert!(d.lt_ratio(0, 1, 1));
    // on the other side
    let e = line.eval(at(-0.25, -0.9));
    assert!(!e.lt_ratio(1, 4, 1));
    assert!(!e.gt_ratio(1, 4, 1));
    assert!(e.gt_ratio(0, 1, 1));
    // on the line
    let z = line.eval(at(0.0, 7.0));
    assert!(!z.lt_ratio(0, 1, 1));
    assert!(!z.gt_ratio(0, 1, 1));
    assert!(z.lt_ratio(1, 30000, 4000000));
    assert!(z.gt_ratio(-1, 30000, 4000000));
}

#[test]
fn distance_from_a_diagonal() {
    // from (-1, -1) to (1, 1) the unit normal is (-1, 1) / sqrt 2, and
    // (1, -1) lies sqrt 2 = 2 / sqrt 2 away on the negative side
    let line = get_line_eq(at(-1.0, -1.0), at(1.0, 1.0));
    let d = line.eval(at(1.0, -1.0));
    assert!(!d.lt_ratio(-2, 1, 2));
    assert!(!d.gt_ratio(-2, 1, 2));
    assert!(d.lt_ratio(-141, 100, 1));
    assert!(d.gt_ratio(-142, 100, 1));
    let e = line.eval(at(-1.0, 1.0));
    assert!(!e.lt_ratio(2, 1, 2));
    assert!(!e.gt_ratio(2, 1, 2));
}

#[test]
fn distances_at_the_centroid() {
    let a = at(0.0, -0.5);
    let b = at(0.5, 0.0);
    let c = at(-0.5, 0.5);
    let origin = at(0.0, 0.0);
    // 0.25 / |b - a| with |b - a| = sqrt(1/2), that is 1 / (2 sqrt 2)
    let ab = get_line_eq(a, b).eval(origin);
    assert!(!ab.lt_ratio(1, 2, 2) && !ab.gt_ratio(1, 2, 2));
    // 0.25 / sqrt(5/4), that is 1 / (2 sqrt 5)
    let bc = get_line_eq(b, c).eval(origin);
    assert!(!bc.lt_ratio(1, 2, 5) && !bc.gt_ratio(1, 2, 5));
    let ca = get_line_eq(c, a).eval(origin);
    assert!(!ca.lt_ratio(1, 2, 5) && !ca.gt_ratio(1, 2, 5));
    // the least of the three is 1 / (2 sqrt 5)
    let sign = TriangleSign { ab, bc, ca };
    assert!(!sign.lt_ratio(1, 2, 5) && !sign.gt_ratio(1, 2, 5));
    assert!(sign.lt_ratio(1, 2, 2));
    assert!(sign.gt_ratio(22, 100, 1));
    assert!(sign.lt_ratio(23, 100, 1));
}

#[test]
fn reversed_edge_negates_the_distance() {
    let a = at(-0.3, 0.7);
    let b = at(0.9, -0.2);
    let forth = get_line_eq(a, b);
    let back = get_line_eq(b, a);
    for &(x, y) in &[(0.0, 0.0), (0.5, 0.5), (-1.0, 1.0), (0.3, 0.25), (-0.3, 0.7)] {
        let u = at(x, y);
        for n in -20..=20 {
            assert_eq!(
                forth.eval(u).lt_ratio(n, 10, 3),
                back.eval(u).gt_ratio(-n, 10, 3)
            );
            assert_eq!(
                forth.eval(u).gt_ratio(n, 10, 3),
                back.eval(u).lt_ratio(-n, 10, 3)
            );
        }
    }
}

#[test]
fn degenerate_edge_has_no_distance() {
    let a = at(0.25, -0.75);
    let line = get_line_eq(a, a);
    assert!(line.is_degenerate());
    assert!(!get_line_eq(a, at(0.25, -0.5)).is_degenerate());
    for &(x, y) in &[(0.0, 0.0), (0.25, -0.75), (1.0, 1.0)] {
        let d = line.eval(at(x, y));
        assert!(!d.is_defined());
        for n in [-5, 0, 5] {
            assert!(!d.lt_ratio(n, 1, 1));
            assert!(!d.gt_ratio(n, 1, 1));
        }
    }
}

#[test]
fn degenerate_edges_do_not_constrain() {
    let a = at(0.0, -1.0);
    let b = at(0.0, 1.0);
    let u = at(0.5, 0.0);
    let none = get_line_eq(a, a).eval(u);
    let d = get_line_eq(a, b).eval(u);
    // the least of -1/2 and two undefined values is -1/2
    let sign = TriangleSign {
        ab: none,
        bc: d,
        ca: none,
    };
    assert!(!sign.lt_ratio(-1, 2, 1) && !sign.gt_ratio(-1, 2, 1));
    assert!(sign.lt_ratio(0, 1, 1));
    assert!(sign.gt_ratio(-1, 1, 1));
    // nothing is defined
    let nothing = TriangleSign {
        ab: none,
        bc: none,
        ca: none,
    };
    assert!(!nothing.lt_ratio(1000, 1, 1));
    assert!(!nothing.gt_ratio(-1000, 1, 1));
}

#[test]
fn least_of_three_distances() {
    let u = at(0.0, 0.0);
    // distances 0.5, -0.25 and 0.75 from three vertical lines
    let p = get_line_eq(at(0.5, -1.0), at(0.5, 1.0)).eval(u);
    let q = get_line_eq(at(0.25, 1.0), at(0.25, -1.0)).eval(u);
    let r = get_line_eq(at(0.75, -1.0), at(0.75, 1.0)).eval(u);
    assert!(!p.lt_ratio(1, 2, 1) && !p.gt_ratio(1, 2, 1));
    assert!(!q.lt_ratio(-1, 4, 1) && !q.gt_ratio(-1, 4, 1));
    assert!(!r.lt_ratio(3, 4, 1) && !r.gt_ratio(3, 4, 1));
    for sign in [
        TriangleSign { ab: p, bc: q, ca: r },
        TriangleSign { ab: q, bc: r, ca: p },
        TriangleSign { ab: r, bc: p, ca: q },
    ] {
        assert!(!sign.lt_ratio(-1, 4, 1) && !sign.gt_ratio(-1, 4, 1));
        assert!(sign.lt_ratio(-24, 100, 1));
        assert!(sign.gt_ratio(-26, 100, 1));
    }
    let positive = TriangleSign { ab: p, bc: r, ca: r };
    assert!(!positive.lt_ratio(1, 2, 1) && !positive.gt_ratio(1, 2, 1));
}

#[test]
fn extreme_coordinates_do_not_overflow() {
    let low = ScreenCoord {
        x: i32::MIN,
        y: i32::MIN,
    };
    let high = ScreenCoord {
        x: i32::MAX,
        y: i32::MAX,
    };
    let u = ScreenCoord {
        x: i32::MAX,
        y: i32::MIN,
    };
    // (2^32 - 1) / (UNIT * sqrt 2) = 117459.6... on the negative side
    let d = get_line_eq(low, high).eval(u);
    assert!(d.lt_ratio(i16::MIN, 1, 1));
    assert!(!d.gt_ratio(i16::MIN, 1, 1));
    assert!(d.lt_ratio(i16::MIN, u16::MAX, u32::MAX));
    assert!(d.lt_ratio(i16::MAX, u16::MAX, u32::MAX));
    assert!(d.lt_ratio(-1, 1, 1));
    assert!(!d.gt_ratio(i16::MAX, 1, 1));
    let e = get_line_eq(high, low).eval(u);
    assert!(e.gt_ratio(i16::MAX, 1, 1));
    assert!(!e.lt_ratio(i16::MAX, 1, 1));
    assert!(e.gt_ratio(i16::MAX, u16::MAX, u32::MAX));
    assert!(e.gt_ratio(i16::MIN, u16::MAX, u32::MAX));
}
