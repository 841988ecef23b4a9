//! Drawing onto the image: a point, a half plane, a triangle.

use vstd::prelude::*;
use crate::coord::{
    ImageCoord, ScreenCoord, WIDTH, HEIGHT, image_to_screen, image_to_screen_coord,
    screen_to_image, screen_to_image_coord,
};
use crate::image::{Color, Image, index_of, pixel_count};
use crate::line::{edge_distance, get_line_eq, lemma_distance_defined, lemma_reverse_edge};
use crate::surd::{
    Surd, lemma_lt_max, lemma_lt_min, lemma_lt_transitive, lemma_min_lt, lemma_neg_reverses,
};
use crate::triangle::{Triangle, TriangleSign, lemma_swap_winding, triangle_peak, triangle_sign};

verus! {

/// `WIDTH * WIDTH + HEIGHT * HEIGHT`: the squared diagonal of the grid,
/// counted in pixels.
pub const DIAGONAL_SQ: u32 = 82418;

/// The width of a pixel, `1 / sqrt(WIDTH^2 + HEIGHT^2)` in units of screen
/// space: half the width of the band in which an edge is smoothed.
pub open spec fn pixel_width() -> Surd {
    Surd::ratio(1, 1, WIDTH * WIDTH + HEIGHT * HEIGHT)
}

/// The cell with the given position in row-major order.
pub open spec fn cell(i: int) -> ImageCoord {
    ImageCoord { x: (i % (WIDTH as int)) as usize, y: (i / (WIDTH as int)) as usize }
}

/// The screen-space point at the centre of the cell with the given position.
pub open spec fn centre(i: int) -> ScreenCoord {
    image_to_screen(cell(i))
}

/// Banded shading of one pixel from the signed distance `d` of its centre:
/// white where `d` is below the band, `d < -pixel_width`; mid gray within the
/// band, `-pixel_width <= d < pixel_width`; and what was there before
/// elsewhere, and where `d` is undefined.
///
/// The gray of the band is `128 + trunc(128 * d)` with the negative
/// saturating to zero; since `128 * pixel_width < 1`, that is 128 throughout.
pub open spec fn banded(d: Surd, under: Color) -> Color {
    if d.lt(pixel_width().neg()) {
        Color::gray(255)
    } else if d.lt(pixel_width()) {
        Color::gray(128)
    } else {
        under
    }
}

/// The distance from which on at least `k` of `c` equal parts of a pixel
/// count as covered: `(k / c - 1/2) * pixel_width`.
pub open spec fn coverage_bound(k: int, c: int) -> Surd {
    Surd::ratio(2 * k - c, 2 * c, WIDTH * WIDTH + HEIGHT * HEIGHT)
}

/// Whether a pixel is covered at all: its coverage
/// `clamp(d / pixel_width + 1/2, 0, 1)` is above zero, which is
/// `d > -pixel_width / 2`. An undefined `d` covers nothing.
pub open spec fn covered(d: Surd) -> bool {
    Surd::ratio(-1, 2, WIDTH * WIDTH + HEIGHT * HEIGHT).lt(d)
}

/// The greatest `j` among `1, ..., k` with `coverage_bound(j, c) <= d`, or
/// zero where there is none.
pub open spec fn blend_steps(d: Surd, c: int, k: int) -> int
    decreases k,
{
    if k <= 0 {
        0
    } else if !d.lt(coverage_bound(k, c)) {
        k
    } else {
        blend_steps(d, c, k - 1)
    }
}

/// A channel `c` of the triangle's colour weighted by the coverage:
/// `c * clamp(d / pixel_width + 1/2, 0, 1)`, rounded down.
pub open spec fn blend(d: Surd, c: int) -> int {
    blend_steps(d, c, c)
}

/// Coverage shading of one pixel from the coverage value `d` at its centre:
/// the colour weighted by the coverage where the pixel is covered at all, and
/// what was there before elsewhere.
pub open spec fn shaded(d: Surd, color: Color, under: Color) -> Color {
    if covered(d) {
        Color {
            r: blend(d, color.r as int) as u8,
            g: blend(d, color.g as int) as u8,
            b: blend(d, color.b as int) as u8,
        }
    } else {
        under
    }
}

/// The image after the triangle was drawn over `base` with coverage shading.
pub open spec fn shaded_image(triangle: Triangle, base: Seq<Color>) -> Seq<Color> {
    Seq::new(
        base.len(),
        |i: int|
            shaded(
                triangle_sign(triangle.a, triangle.b, triangle.c, centre(i)),
                triangle.color,
                base[i],
            ),
    )
}

/// The image after the half plane of the line from `a` to `b` was drawn
/// over `base`.
pub open spec fn half_space_image(a: ScreenCoord, b: ScreenCoord, base: Seq<Color>) -> Seq<Color> {
    Seq::new(base.len(), |i: int| banded(edge_distance(a, b, centre(i)), base[i]))
}

/// The image after the triangle `a`, `b`, `c` was drawn over `base`.
pub open spec fn triangle_image(
    a: ScreenCoord,
    b: ScreenCoord,
    c: ScreenCoord,
    base: Seq<Color>,
) -> Seq<Color> {
    Seq::new(base.len(), |i: int| banded(triangle_sign(a, b, c, centre(i)), base[i]))
}

/// The two bounds of the band, as the ratios that the comparisons take.
proof fn lemma_band_bounds()
    ensures
        pixel_width() == Surd::ratio(1, 1, DIAGONAL_SQ as int),
        pixel_width().neg() == Surd::ratio(-1, 1, DIAGONAL_SQ as int),
{
}

/// Paints the pixel that `screen_coord` falls into white.
pub fn draw_point(screen_coord: ScreenCoord, image: &mut Image)
    requires
        old(image).wf(),
        screen_to_image(screen_coord).in_bounds(),
    ensures
        final(image).wf(),
        final(image)@ == old(image)@.update(
            index_of(screen_to_image(screen_coord)),
            Color::gray(255),
        ),
{
    let image_coord = screen_to_image_coord(screen_coord);
    image.set(image_coord, Color { r: 255, g: 255, b: 255 });
}

/// Draws the half plane on the negative side of the line from `a` to `b`:
/// white, with a gray band one pixel width to either side of the line.
/// Nothing is drawn where `a == b`.
pub fn draw_half_space(a: ScreenCoord, b: ScreenCoord, image: &mut Image)
    requires
        old(image).wf(),
    ensures
        final(image).wf(),
        final(image)@ == half_space_image(a, b, old(image)@),
{
    let line_eq = get_line_eq(a, b);
    let ghost base = image@;
    let ghost goal = half_space_image(a, b, base);
    proof {
        lemma_band_bounds();
    }
    let mut y: usize = 0;
    while y < HEIGHT
        invariant
            y <= HEIGHT,
            image.wf(),
            base.len() == pixel_count(),
            goal == half_space_image(a, b, base),
            line_eq.start() == a,
            line_eq.end() == b,
            forall|i: int| 0 <= i < y * WIDTH ==> image@[i] == goal[i],
            forall|i: int| y * WIDTH <= i < pixel_count() ==> image@[i] == base[i],
        decreases HEIGHT - y,
    {
        let mut x: usize = 0;
        while x < WIDTH
            invariant
                y < HEIGHT,
                x <= WIDTH,
                image.wf(),
                base.len() == pixel_count(),
                goal == half_space_image(a, b, base),
                line_eq.start() == a,
                line_eq.end() == b,
                forall|i: int| 0 <= i < y * WIDTH + x ==> image@[i] == goal[i],
                forall|i: int| y * WIDTH + x <= i < pixel_count() ==> image@[i] == base[i],
            decreases WIDTH - x,
        {
            let coord = ImageCoord { x, y };
            assert(cell(index_of(coord)) == coord);
            let screen_coord = image_to_screen_coord(coord);
            let line_sign = line_eq.eval(screen_coord);
            if line_sign.lt_ratio(-1, 1, DIAGONAL_SQ) {
                image.set(coord, Color { r: 255, g: 255, b: 255 });
            } else if line_sign.lt_ratio(1, 1, DIAGONAL_SQ) {
                image.set(coord, Color { r: 128, g: 128, b: 128 });
            }
            x += 1;
        }
        y += 1;
    }
    assert(image@ =~= goal);
}

/// Draws the triangle `a`, `b`, `c` with banded shading: every pixel whose
/// centre has a coverage value below the band turns white, every pixel within
/// the band gray, and the others stay as they are.
pub fn draw_triangle(a: ScreenCoord, b: ScreenCoord, c: ScreenCoord, image: &mut Image)
    requires
        old(image).wf(),
    ensures
        final(image).wf(),
        final(image)@ == triangle_image(a, b, c, old(image)@),
{
    let ab_eq = get_line_eq(a, b);
    let bc_eq = get_line_eq(b, c);
    let ca_eq = get_line_eq(c, a);
    let ghost base = image@;
    let ghost goal = triangle_image(a, b, c, base);
    proof {
        lemma_band_bounds();
    }
    let mut y: usize = 0;
    while y < HEIGHT
        invariant
            y <= HEIGHT,
            image.wf(),
            base.len() == pixel_count(),
            goal == triangle_image(a, b, c, base),
            ab_eq.start() == a && ab_eq.end() == b,
            bc_eq.start() == b && bc_eq.end() == c,
            ca_eq.start() == c && ca_eq.end() == a,
            forall|i: int| 0 <= i < y * WIDTH ==> image@[i] == goal[i],
            forall|i: int| y * WIDTH <= i < pixel_count() ==> image@[i] == base[i],
        decreases HEIGHT - y,
    {
        let mut x: usize = 0;
        while x < WIDTH
            invariant
                y < HEIGHT,
                x <= WIDTH,
                image.wf(),
                base.len() == pixel_count(),
                goal == triangle_image(a, b, c, base),
                ab_eq.start() == a && ab_eq.end() == b,
                bc_eq.start() == b && bc_eq.end() == c,
                ca_eq.start() == c && ca_eq.end() == a,
                forall|i: int| 0 <= i < y * WIDTH + x ==> image@[i] == goal[i],
                forall|i: int| y * WIDTH + x <= i < pixel_count() ==> image@[i] == base[i],
            decreases WIDTH - x,
        {
            let coord = ImageCoord { x, y };
            assert(cell(index_of(coord)) == coord);
            let screen_coord = image_to_screen_coord(coord);
            let triangle_sign = TriangleSign {
                ab: ab_eq.eval(screen_coord),
                bc: bc_eq.eval(screen_coord),
                ca: ca_eq.eval(screen_coord),
            };
            if triangle_sign.lt_ratio(-1, 1, DIAGONAL_SQ) {
                image.set(coord, Color { r: 255, g: 255, b: 255 });
            } else if triangle_sign.lt_ratio(1, 1, DIAGONAL_SQ) {
                image.set(coord, Color { r: 128, g: 128, b: 128 });
            }
            x += 1;
        }
        y += 1;
    }
    assert(image@ =~= goal);
}

/// One channel of the colour weighted by the coverage.
fn blend_channel(sign: &TriangleSign, c: u8) -> (v: u8)
    ensures
        v == blend(sign@, c as int),
{
    let mut k: u8 = c;
    while k > 0
        invariant
            k <= c,
            blend(sign@, c as int) == blend_steps(sign@, c as int, k as int),
        decreases k,
    {
        if !sign.lt_ratio(2 * (k as i16) - c as i16, 2 * (c as u16), DIAGONAL_SQ) {
            return k;
        }
        k -= 1;
    }
    0
}

/// Draws the triangle with coverage shading: every pixel that the triangle
/// covers at all takes the triangle's colour weighted by its coverage, and
/// the others stay as they are.
pub fn shade_triangle(triangle: &Triangle, image: &mut Image)
    requires
        old(image).wf(),
    ensures
        final(image).wf(),
        final(image)@ == shaded_image(*triangle, old(image)@),
{
    let ab_eq = get_line_eq(triangle.a, triangle.b);
    let bc_eq = get_line_eq(triangle.b, triangle.c);
    let ca_eq = get_line_eq(triangle.c, triangle.a);
    let ghost base = image@;
    let ghost goal = shaded_image(*triangle, base);
    let mut y: usize = 0;
    while y < HEIGHT
        invariant
            y <= HEIGHT,
            image.wf(),
            base.len() == pixel_count(),
            goal == shaded_image(*triangle, base),
            ab_eq.start() == triangle.a && ab_eq.end() == triangle.b,
            bc_eq.start() == triangle.b && bc_eq.end() == triangle.c,
            ca_eq.start() == triangle.c && ca_eq.end() == triangle.a,
            forall|i: int| 0 <= i < y * WIDTH ==> image@[i] == goal[i],
            forall|i: int| y * WIDTH <= i < pixel_count() ==> image@[i] == base[i],
        decreases HEIGHT - y,
    {
        let mut x: usize = 0;
        while x < WIDTH
            invariant
                y < HEIGHT,
                x <= WIDTH,
                image.wf(),
                base.len() == pixel_count(),
                goal == shaded_image(*triangle, base),
                ab_eq.start() == triangle.a && ab_eq.end() == triangle.b,
                bc_eq.start() == triangle.b && bc_eq.end() == triangle.c,
                ca_eq.start() == triangle.c && ca_eq.end() == triangle.a,
                forall|i: int| 0 <= i < y * WIDTH + x ==> image@[i] == goal[i],
                forall|i: int| y * WIDTH + x <= i < pixel_count() ==> image@[i] == base[i],
            decreases WIDTH - x,
        {
            let coord = ImageCoord { x, y };
            assert(cell(index_of(coord)) == coord);
            let screen_coord = image_to_screen_coord(coord);
            let triangle_sign = TriangleSign {
                ab: ab_eq.eval(screen_coord),
                bc: bc_eq.eval(screen_coord),
                ca: ca_eq.eval(screen_coord),
            };
            if triangle_sign.gt_ratio(-1, 2, DIAGONAL_SQ) {
                let color = Color {
                    r: blend_channel(&triangle_sign, triangle.color.r),
                    g: blend_channel(&triangle_sign, triangle.color.g),
                    b: blend_channel(&triangle_sign, triangle.color.b),
                };
                image.set(coord, color);
            }
            x += 1;
        }
        y += 1;
    }
    assert(image@ =~= goal);
}

/// Within the band the gray is the same everywhere: the distance is less than
/// 1/128 in magnitude, so `128 * d` is cut to zero.
pub proof fn lemma_band_gray(d: Surd)
    requires
        d.defined(),
        !d.lt(pixel_width().neg()),
        d.lt(pixel_width()),
    ensures
        Surd::ratio(-1, 128, 1).lt(d),
        d.lt(Surd::ratio(1, 128, 1)),
{
    let low = pixel_width().neg();
    let high = pixel_width();
    assert(high.lt(Surd::ratio(1, 128, 1)));
    assert(Surd::ratio(-1, 128, 1).lt(low));
    lemma_lt_transitive(d, high, Surd::ratio(1, 128, 1));
    assert(low.le(d));
    lemma_lt_transitive(Surd::ratio(-1, 128, 1), low, d);
}

/// What `blend` is: the greatest number of parts out of `c` whose bound the
/// distance reaches.
pub proof fn lemma_blend(d: Surd, c: int)
    ensures
        0 <= blend(d, c),
        0 <= c ==> blend(d, c) <= c,
        blend(d, c) > 0 ==> !d.lt(coverage_bound(blend(d, c), c)),
        forall|k: int| blend(d, c) < k <= c ==> d.lt(#[trigger] coverage_bound(k, c)),
{
    lemma_blend_steps(d, c, c);
}

proof fn lemma_blend_steps(d: Surd, c: int, k: int)
    ensures
        0 <= blend_steps(d, c, k),
        0 <= k ==> blend_steps(d, c, k) <= k,
        blend_steps(d, c, k) > 0 ==> !d.lt(coverage_bound(blend_steps(d, c, k), c)),
        forall|j: int| blend_steps(d, c, k) < j <= k ==> d.lt(#[trigger] coverage_bound(j, c)),
    decreases k,
{
    if k > 0 && d.lt(coverage_bound(k, c)) {
        lemma_blend_steps(d, c, k - 1);
    }
}

/// A pixel whose centre lies half a pixel width or more inside takes the
/// colour unweakened.
pub proof fn lemma_full_coverage(d: Surd, c: int)
    requires
        d.defined(),
        c > 0,
        !d.lt(Surd::ratio(1, 2, WIDTH * WIDTH + HEIGHT * HEIGHT)),
    ensures
        blend(d, c) == c,
{
    let dd = WIDTH * WIDTH + HEIGHT * HEIGHT;
    let full = coverage_bound(c, c);
    let half = Surd::ratio(1, 2, dd);
    assert(half.num == 1 && half.den == 4 * dd);
    assert(d.num * (4 * dd) >= 1 * d.den);
    assert(full.num == c * c);
    assert(full.den == (2 * c) * (2 * c) * dd);
    assert(c * c > 0) by (nonlinear_arith)
        requires
            c > 0,
    ;
    assert(d.num * ((2 * c) * (2 * c) * dd) == (d.num * (4 * dd)) * (c * c)) by (nonlinear_arith);
    assert((d.num * (4 * dd)) * (c * c) >= d.den * (c * c)) by (nonlinear_arith)
        requires
            d.num * (4 * dd) >= d.den,
            c * c > 0,
    ;
    assert((c * c) * d.den == d.den * (c * c)) by (nonlinear_arith);
}

/// A pixel whose centre lies half a pixel width or more on the negative side
/// of one edge is outside the triangle and keeps its colour.
pub proof fn lemma_shaded_outside(triangle: Triangle, u: ScreenCoord, under: Color)
    requires
        ({
            ||| triangle.a != triangle.b && !covered(edge_distance(triangle.a, triangle.b, u))
            ||| triangle.b != triangle.c && !covered(edge_distance(triangle.b, triangle.c, u))
            ||| triangle.c != triangle.a && !covered(edge_distance(triangle.c, triangle.a, u))
        }),
    ensures
        shaded(triangle_sign(triangle.a, triangle.b, triangle.c, u), triangle.color, under)
            == under,
{
    let t = Surd::ratio(-1, 2, WIDTH * WIDTH + HEIGHT * HEIGHT);
    let ab = edge_distance(triangle.a, triangle.b, u);
    let bc = edge_distance(triangle.b, triangle.c, u);
    let ca = edge_distance(triangle.c, triangle.a, u);
    lemma_distance_defined(triangle.a, triangle.b, u);
    lemma_distance_defined(triangle.b, triangle.c, u);
    lemma_distance_defined(triangle.c, triangle.a, u);
    lemma_lt_min(ab, bc, t);
    lemma_lt_min(ab.min(bc), ca, t);
}

/// A pixel whose centre lies half a pixel width or more on the positive side
/// of every edge is inside the triangle and takes its colour unweakened.
pub proof fn lemma_shaded_inside(triangle: Triangle, u: ScreenCoord, under: Color)
    requires
        triangle.a != triangle.b || triangle.b != triangle.c || triangle.c != triangle.a,
        !edge_distance(triangle.a, triangle.b, u).lt(
            Surd::ratio(1, 2, WIDTH * WIDTH + HEIGHT * HEIGHT),
        ),
        !edge_distance(triangle.b, triangle.c, u).lt(
            Surd::ratio(1, 2, WIDTH * WIDTH + HEIGHT * HEIGHT),
        ),
        !edge_distance(triangle.c, triangle.a, u).lt(
            Surd::ratio(1, 2, WIDTH * WIDTH + HEIGHT * HEIGHT),
        ),
    ensures
        shaded(triangle_sign(triangle.a, triangle.b, triangle.c, u), triangle.color, under)
            == triangle.color,
{
    let dd = WIDTH * WIDTH + HEIGHT * HEIGHT;
    let low = Surd::ratio(-1, 2, dd);
    let high = Surd::ratio(1, 2, dd);
    let ab = edge_distance(triangle.a, triangle.b, u);
    let bc = edge_distance(triangle.b, triangle.c, u);
    let ca = edge_distance(triangle.c, triangle.a, u);
    let sign = triangle_sign(triangle.a, triangle.b, triangle.c, u);
    lemma_distance_defined(triangle.a, triangle.b, u);
    lemma_distance_defined(triangle.b, triangle.c, u);
    lemma_distance_defined(triangle.c, triangle.a, u);
    lemma_min_lt(ab, bc, high);
    lemma_min_lt(ab.min(bc), ca, high);
    assert(sign.defined());
    assert(!sign.lt(high));
    assert(low.num == -1 && high.num == 1 && low.den == 4 * dd && high.den == 4 * dd);
    assert(low.lt(high));
    assert(high.le(sign));
    lemma_lt_transitive(low, high, sign);
    let color = triangle.color;
    if color.r > 0 {
        lemma_full_coverage(sign, color.r as int);
    }
    if color.g > 0 {
        lemma_full_coverage(sign, color.g as int);
    }
    if color.b > 0 {
        lemma_full_coverage(sign, color.b as int);
    }
}

/// Walking the edge the other way turns the half plane around: what was white
/// is left alone, and what lay beyond the band turns white.
pub proof fn lemma_half_space_flips(a: ScreenCoord, b: ScreenCoord, u: ScreenCoord, under: Color)
    ensures
        edge_distance(a, b, u).lt(pixel_width().neg()) ==> banded(edge_distance(b, a, u), under)
            == under,
        pixel_width().lt(edge_distance(a, b, u)) ==> banded(edge_distance(b, a, u), under)
            == Color::gray(255),
{
    let d = edge_distance(a, b, u);
    let low = pixel_width().neg();
    let high = pixel_width();
    lemma_reverse_edge(a, b, u);
    lemma_neg_reverses(low, d);
    lemma_neg_reverses(d, high);
    assert(low.neg() == high);
    if d.lt(low) {
        assert(high.lt(d.neg()));
        assert(low.lt(high));
        if d.neg().lt(low) {
            lemma_lt_transitive(d.neg(), low, high);
        }
    }
}

/// Under the winding `a`, `b`, `c` a point lies below a bound when it lies
/// below it for one of the edges; under the winding `a`, `c`, `b` it lies
/// below the bound when it lies above the negated bound for one of the same
/// edges. What is inside for the one is outside for the other.
pub proof fn lemma_swap_winding_sides(
    a: ScreenCoord,
    b: ScreenCoord,
    c: ScreenCoord,
    u: ScreenCoord,
    t: Surd,
)
    ensures
        triangle_sign(a, b, c, u).lt(t) == (edge_distance(a, b, u).lt(t) || edge_distance(
            b,
            c,
            u,
        ).lt(t) || edge_distance(c, a, u).lt(t)),
        triangle_sign(a, c, b, u).lt(t) == (t.neg().lt(edge_distance(a, b, u)) || t.neg().lt(
            edge_distance(b, c, u),
        ) || t.neg().lt(edge_distance(c, a, u))),
{
    let ab = edge_distance(a, b, u);
    let bc = edge_distance(b, c, u);
    let ca = edge_distance(c, a, u);
    lemma_min_lt(ab, bc, t);
    lemma_min_lt(ab.min(bc), ca, t);
    lemma_swap_winding(a, b, c, u);
    let peak = triangle_peak(a, b, c, u);
    lemma_neg_reverses(peak, t.neg());
    lemma_neg_reverses(t, t);
    assert(peak.neg().lt(t) == t.neg().lt(peak));
    lemma_lt_max(ca, bc, t.neg());
    lemma_lt_max(ca.max(bc), ab, t.neg());
}

/// The two windings of a triangle cover different pixels: a pixel that both
/// cover has its centre within half a pixel width of the line of every edge.
pub proof fn lemma_windings_cover_apart(
    a: ScreenCoord,
    b: ScreenCoord,
    c: ScreenCoord,
    u: ScreenCoord,
)
    requires
        covered(triangle_sign(a, b, c, u)),
        covered(triangle_sign(a, c, b, u)),
    ensures
        a != b ==> covered(edge_distance(a, b, u)) && covered(edge_distance(b, a, u)),
        b != c ==> covered(edge_distance(b, c, u)) && covered(edge_distance(c, b, u)),
        c != a ==> covered(edge_distance(c, a, u)) && covered(edge_distance(a, c, u)),
{
    let dd = WIDTH * WIDTH + HEIGHT * HEIGHT;
    let t = Surd::ratio(-1, 2, dd);
    let ab = edge_distance(a, b, u);
    let bc = edge_distance(b, c, u);
    let ca = edge_distance(c, a, u);
    lemma_distance_defined(a, b, u);
    lemma_distance_defined(b, c, u);
    lemma_distance_defined(c, a, u);
    lemma_lt_min(ab, bc, t);
    lemma_lt_min(ab.min(bc), ca, t);
    lemma_reverse_edge(b, a, u);
    lemma_reverse_edge(c, b, u);
    lemma_reverse_edge(a, c, u);
    let ac = edge_distance(a, c, u);
    let cb = edge_distance(c, b, u);
    let ba = edge_distance(b, a, u);
    lemma_lt_min(ac, cb, t);
    lemma_lt_min(ac.min(cb), ba, t);
    lemma_distance_defined(a, c, u);
    lemma_distance_defined(c, b, u);
    lemma_distance_defined(b, a, u);
}

} // verus!
