use triangle_raster::coord::{ImageCoord, HEIGHT, WIDTH};
use triangle_raster::image::{Color, Image};
use triangle_raster::ppm::{encode_ppm, ppm_header, push_decimal};

fn numeral(n: usize) -> Vec<u8> {
    let mut out = Vec::new();
    push_decimal(&mut out, n);
    out
}

#[test]
fn header_of_the_grid() {
    assert_eq!(ppm_header(WIDTH, HEIGHT), b"P6\n203 203\n255\n".to_vec());
}

#[test]
fn header_of_other_sizes() {
    assert_eq!(ppm_header(1, 1), b"P6\n1 1\n255\n".to_vec());
    assert_eq!(ppm_header(640, 480), b"P6\n640 480\n255\n".to_vec());
    assert_eq!(ppm_header(0, 10), b"P6\n0 10\n255\n".to_vec());
    assert_eq!(ppm_header(7, 100000), b"P6\n7 100000\n255\n".to_vec());
}

#[test]
fn decimal_numerals() {
    assert_eq!(numeral(0), b"0".to_vec());
    assert_eq!(numeral(9), b"9".to_vec());
    assert_eq!(numeral(10), b"10".to_vec());
    assert_eq!(numeral(203), b"203".to_vec());
    assert_eq!(numeral(1000), b"1000".to_vec());
    assert_eq!(numeral(4294967295), b"4294967295".to_vec());
    assert_eq!(numeral(usize::MAX), format!("{}", usize::MAX).into_bytes());
}

#[test]
fn decimal_is_appended() {
    let mut out = b"x=".to_vec();
    push_decimal(&mut out, 42);
    assert_eq!(out, b"x=42".to_vec());
}

#[test]
fn encoding_starts_with_the_header() {
    let bytes = encode_ppm(&Image::new());
    assert_eq!(&bytes[..15], b"P6\n203 203\n255\n");
}

#[test]
fn encoding_has_three_bytes_for_each_pixel() {
    let bytes = encode_ppm(&Image::new());
    assert_eq!(bytes.len(), 15 + WIDTH * HEIGHT * 3);
    assert_eq!(bytes.len(), 123642);
    assert!(bytes[15..].iter().all(|&b| b == 0));
}

#[test]
fn pixels_are_written_row_by_row() {
    let mut image = Image::new();
    image.set(ImageCoord { x: 0, y: 0 }, Color { r: 1, g: 2, b: 3 });
    image.set(ImageCoord { x: 1, y: 0 }, Color { r: 4, g: 5, b: 6 });
    image.set(ImageCoord { x: 0, y: 1 }, Color { r: 7, g: 8, b: 9 });
    image.set(
        ImageCoord {
            x: WIDTH - 1,
            y: HEIGHT - 1,
        },
        Color {
            r: 10,
            g: 11,
            b: 12,
        },
    );
    let bytes = encode_ppm(&image);
    assert_eq!(&bytes[15..21], &[1, 2, 3, 4, 5, 6]);
    let second_row = 15 + 3 * WIDTH;
    assert_eq!(&bytes[second_row..second_row + 3], &[7, 8, 9]);
    assert_eq!(&bytes[bytes.len() - 3..], &[10, 11, 12]);
    let painted = bytes[15..].iter().filter(|&&b| b != 0).count();
    assert_eq!(painted, 12);
}
