use triangle_raster::coord::{
    image_to_screen_coord, screen_to_image_coord, ImageCoord, ScreenCoord, HEIGHT, UNIT, WIDTH,
};

/// The fixed-point screen coordinate of a point given in units of screen space.
fn screen(x: f64, y: f64) -> ScreenCoord {
    ScreenCoord {
        x: (x * UNIT as f64).round() as i32,
        y: (y * UNIT as f64).round() as i32,
    }
}

#[test]
fn test_screen_to_image_coord() {
    assert_eq!(
        screen_to_image_coord(screen(1.0, 1.0)),
        ImageCoord {
            x: WIDTH - 1,
            y: HEIGHT - 1
        }
    );
    assert_eq!(
        screen_to_image_coord(screen(-1.0, -1.0)),
        ImageCoord { x: 0, y: 0 }
    );
    assert_eq!(
        screen_to_image_coord(screen(0.0, 0.0)),
        ImageCoord {
            x: (WIDTH - 1) / 2,
            y: (HEIGHT - 1) / 2
        }
    );
}

#[test]
fn test_image_to_screen_coord() {
    assert_eq!(
        image_to_screen_coord(ImageCoord {
            x: WIDTH - 1,
            y: HEIGHT - 1
        }),
        screen(1.0, 1.0)
    );
    assert_eq!(
        image_to_screen_coord(ImageCoord { x: 0, y: 0 }),
        screen(-1.0, -1.0)
    );
}

#[test]
fn corners_survive_the_round_trip() {
    for &x in &[-1.0, 1.0] {
        for &y in &[-1.0, 1.0] {
            let corner = screen(x, y);
            assert_eq!(image_to_screen_coord(screen_to_image_coord(corner)), corner);
        }
    }
}

#[test]
fn every_cell_is_found_from_its_centre() {
    for y in 0..HEIGHT {
        for x in 0..WIDTH {
            let cell = ImageCoord { x, y };
            assert_eq!(screen_to_image_coord(image_to_screen_coord(cell)), cell);
        }
    }
}

#[test]
fn neighbouring_centres_are_256_steps_apart() {
    assert_eq!(
        image_to_screen_coord(ImageCoord { x: 1, y: 2 }),
        ScreenCoord {
            x: 256 - UNIT,
            y: 512 - UNIT
        }
    );
    assert_eq!(
        image_to_screen_coord(ImageCoord { x: 101, y: 101 }),
        ScreenCoord { x: 0, y: 0 }
    );
}

#[test]
fn screen_to_image_truncates() {
    // (s + 1) * 202 / 2 for s = 0.25 is 126.25, for s = -0.999 is 0.101
    assert_eq!(
        screen_to_image_coord(screen(0.25, -0.999)),
        ImageCoord { x: 126, y: 0 }
    );
    // one step short of the centre of cell 1 still falls into cell 0
    assert_eq!(
        screen_to_image_coord(ScreenCoord {
            x: 255 - UNIT,
            y: 256 - UNIT
        }),
        ImageCoord { x: 0, y: 1 }
    );
}

#[test]
fn left_of_the_screen_is_cell_zero() {
    assert_eq!(
        screen_to_image_coord(screen(-1.5, -3.0)),
        ImageCoord { x: 0, y: 0 }
    );
    assert_eq!(
        screen_to_image_coord(ScreenCoord {
            x: i32::MIN,
            y: i32::MIN
        }),
        ImageCoord { x: 0, y: 0 }
    );
}

#[test]
fn right_of_the_screen_is_off_the_grid() {
    // (2 + 1) * 202 / 2 = 303
    assert_eq!(
        screen_to_image_coord(screen(2.0, 1.0)),
        ImageCoord { x: 303, y: 202 }
    );
    // (i32::MAX + UNIT) * 202 / (2 * UNIT), rounded down
    assert_eq!(
        screen_to_image_coord(ScreenCoord {
            x: i32::MAX,
            y: 0
        }),
        ImageCoord {
            x: 8388708,
            y: 101
        }
    );
}
