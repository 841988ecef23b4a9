use triangle_raster::coord::{ImageCoord, HEIGHT, WIDTH};
use triangle_raster::image::{Color, Image};

#[test]
fn new_image_is_black() {
    let image = Image::new();
    assert_eq!(image.pixels().len(), WIDTH * HEIGHT);
    assert!(image
        .pixels()
        .iter()
        .all(|&p| p == Color { r: 0, g: 0, b: 0 }));
}

#[test]
fn get_is_bounds_checked() {
    let image = Image::new();
    assert_eq!(
        image.get(ImageCoord { x: 0, y: 0 }),
        Some(Color { r: 0, g: 0, b: 0 })
    );
    assert_eq!(
        image.get(ImageCoord {
            x: WIDTH - 1,
            y: HEIGHT - 1
        }),
        Some(Color { r: 0, g: 0, b: 0 })
    );
    assert_eq!(image.get(ImageCoord { x: WIDTH, y: 0 }), None);
    assert_eq!(image.get(ImageCoord { x: 0, y: HEIGHT }), None);
    assert_eq!(
        image.get(ImageCoord {
            x: usize::MAX,
            y: usize::MAX
        }),
        None
    );
}

#[test]
fn set_changes_one_pixel() {
    let mut image = Image::new();
    let red = Color { r: 200, g: 10, b: 0 };
    image.set(ImageCoord { x: 5, y: 3 }, red);
    assert_eq!(image.get(ImageCoord { x: 5, y: 3 }), Some(red));
    assert_eq!(image.pixels()[3 * WIDTH + 5], red);
    let changed = image.pixels().iter().filter(|&&p| p == red).count();
    assert_eq!(changed, 1);
    let black = image
        .pixels()
        .iter()
        .filter(|&&p| p == Color { r: 0, g: 0, b: 0 })
        .count();
    assert_eq!(black, WIDTH * HEIGHT - 1);
}
