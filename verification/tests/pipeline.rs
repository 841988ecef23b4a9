use triangle_raster::coord::{ScreenCoord, HEIGHT, UNIT, WIDTH};
use triangle_raster::image::{Color, Image};
use triangle_raster::pipeline::{render_shaded_triangle, render_triangle};
use triangle_raster::ppm::encode_ppm;
use triangle_raster::raster::{draw_triangle, shade_triangle};
use triangle_raster::triangle::Triangle;

fn vertex(x: f64, y: f64) -> ScreenCoord {
    ScreenCoord {
        x: (x * UNIT as f64).round() as i32,
        y: (y * UNIT as f64).round() as i32,
    }
}

#[test]
fn rendering_twice_gives_the_same_bytes() {
    let a = vertex(0.0, -0.5);
    let b = vertex(0.5, 0.0);
    let c = vertex(-0.5, 0.5);
    assert_eq!(render_triangle(a, b, c), render_triangle(a, b, c));
    let triangle = Triangle {
        a,
        b,
        c,
        color: Color {
            r: 12,
            g: 200,
            b: 99,
        },
    };
    assert_eq!(
        render_shaded_triangle(&triangle),
        render_shaded_triangle(&triangle)
    );
}

#[test]
fn rendering_is_drawing_then_encoding() {
    let a = vertex(0.0, -0.5);
    let b = vertex(0.5, 0.0);
    let c = vertex(-0.5, 0.5);
    let mut image = Image::new();
    draw_triangle(a, b, c, &mut image);
    assert_eq!(render_triangle(a, b, c), encode_ppm(&image));
    let triangle = Triangle {
        a,
        b,
        c,
        color: Color {
            r: 255,
            g: 0,
            b: 128,
        },
    };
    let mut shaded = Image::new();
    shade_triangle(&triangle, &mut shaded);
    assert_eq!(render_shaded_triangle(&triangle), encode_ppm(&shaded));
}

#[test]
fn rendered_file_has_header_and_body() {
    let bytes = render_triangle(vertex(0.0, -0.5), vertex(0.5, 0.0), vertex(-0.5, 0.5));
    assert_eq!(&bytes[..15], b"P6\n203 203\n255\n");
    assert_eq!(bytes.len(), 15 + WIDTH * HEIGHT * 3);
    // the centre pixel is left black, the first pixel is white
    let centre = 15 + 3 * (101 * WIDTH + 101);
    assert_eq!(&bytes[centre..centre + 3], &[0, 0, 0]);
    assert_eq!(&bytes[15..18], &[255, 255, 255]);
    let white = bytes[15..].iter().filter(|&&b| b == 255).count();
    let gray = bytes[15..].iter().filter(|&&b| b == 128).count();
    assert_eq!(white, 3 * 37282);
    assert_eq!(gray, 3 * 202);
}

#[test]
fn rendered_shaded_file_has_the_colour_at_the_centroid() {
    let triangle = Triangle {
        a: vertex(0.0, -0.5),
        b: vertex(0.5, 0.0),
        c: vertex(-0.5, 0.5),
        color: Color {
            r: 10,
            g: 20,
            b: 30,
        },
    };
    let bytes = render_shaded_triangle(&triangle);
    assert_eq!(&bytes[..15], b"P6\n203 203\n255\n");
    assert_eq!(bytes.len(), 123642);
    let centre = 15 + 3 * (101 * WIDTH + 101);
    assert_eq!(&bytes[centre..centre + 3], &[10, 20, 30]);
    assert_eq!(&bytes[15..18], &[0, 0, 0]);
    assert_eq!(&bytes[bytes.len() - 3..], &[0, 0, 0]);
}
