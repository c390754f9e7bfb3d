use circle_raster::circle::{Circle, DEFAULT_RADIUS, MAX_RADIUS, UNITS_PER_WORLD};
use circle_raster::color::{default_background_color, default_color, Rgba};
use circle_raster::geometry::{Resolution, WorldPoint, MAX_RESOLUTION_X, MAX_RESOLUTION_Y};
use circle_raster::raster::rasterize;

fn bytes(c: Rgba) -> [u8; 4] {
    [c.r, c.g, c.b, c.a]
}

fn pixel(img: &egui::ColorImage, width: usize, i: usize, j: usize) -> [u8; 4] {
    img.pixels[i + width * j].to_array()
}

fn blue() -> Rgba {
    Rgba { r: 0, g: 0, b: 255, a: 255 }
}

fn world(x_num: i64, x_den: i64, y_num: i64, y_den: i64) -> WorldPoint {
    WorldPoint { x_num, x_den, y_num, y_den }
}

#[test]
fn default_colors() {
    assert_eq!(bytes(default_color()), [255, 0, 0, 255]);
    assert_eq!(bytes(default_background_color()), [160, 160, 160, 255]);
    assert_eq!(bytes(Rgba::from_rgb(1, 2, 3)), [1, 2, 3, 255]);
}

#[test]
fn initial_circle() {
    let c = Circle::initial();
    assert_eq!((c.center_x, c.center_y, c.radius), (0, 0, 3000));
    assert_eq!(c.radius, DEFAULT_RADIUS);
    assert_eq!(c.color, default_color());
    assert_eq!(MAX_RADIUS as i64, UNITS_PER_WORLD);
}

#[test]
fn canvas_resolution() {
    let r = Resolution::canvas();
    assert_eq!((r.width, r.height), (1280, 720));
    assert_eq!((MAX_RESOLUTION_X, MAX_RESOLUTION_Y), (1280, 720));
}

#[test]
fn transform_corners_of_canvas() {
    let r = Resolution::canvas();
    // top-left is (-aspect, +1)
    let p = r.transform_screen_to_world(0, 0);
    assert_eq!(p, world(-1280 * 1279, 720 * 1279, 719, 719));
    assert_eq!(p.x_num * 720, -1280 * p.x_den);
    // bottom-right is (+aspect, -1)
    let q = r.transform_screen_to_world(1279, 719);
    assert_eq!(q.x_num * 720, 1280 * q.x_den);
    assert_eq!(q.y_num, -q.y_den);
}

#[test]
fn transform_small_grid_exact_values() {
    let r = Resolution { width: 5, height: 5 };
    // world x of column i is (2i - 4) / 4, world y of row j is (4 - 2j) / 4
    let p = r.transform_screen_to_world(1, 3);
    assert_eq!(p, world(5 * -2, 5 * 4, -2, 4));
    let c = r.transform_screen_to_world(2, 2);
    assert_eq!((c.x_num, c.y_num), (0, 0));
}

#[test]
fn transform_round_trip_every_pixel_of_small_grid() {
    let r = Resolution { width: 7, height: 4 };
    for j in 0..4u16 {
        for i in 0..7u16 {
            let p = r.transform_screen_to_world(i, j);
            assert_eq!(r.transform_world_to_screen(&p), Some((i, j)));
        }
    }
}

#[test]
fn transform_round_trip_canvas_samples() {
    let r = Resolution::canvas();
    for &(i, j) in &[(0u16, 0u16), (1279, 719), (640, 360), (17, 700), (1000, 3)] {
        let p = r.transform_screen_to_world(i, j);
        assert_eq!(r.transform_world_to_screen(&p), Some((i, j)));
    }
}

#[test]
fn world_to_screen_with_other_denominators() {
    let r = Resolution { width: 3, height: 3 };
    // the origin, written two ways, is the center pixel
    assert_eq!(r.transform_world_to_screen(&world(0, 1, 0, 1)), Some((1, 1)));
    assert_eq!(r.transform_world_to_screen(&world(0, 7, 0, 9)), Some((1, 1)));
    // (-1, 1) is the top-left pixel, (1, -1) the bottom-right one
    assert_eq!(r.transform_world_to_screen(&world(-2, 2, 3, 3)), Some((0, 0)));
    assert_eq!(r.transform_world_to_screen(&world(1, 1, -1, 1)), Some((2, 2)));
}

#[test]
fn world_to_screen_off_grid_is_none() {
    let r = Resolution { width: 3, height: 3 };
    // between pixels
    assert_eq!(r.transform_world_to_screen(&world(1, 2, 0, 1)), None);
    // outside the frame on either side
    assert_eq!(r.transform_world_to_screen(&world(-2, 1, 0, 1)), None);
    assert_eq!(r.transform_world_to_screen(&world(2, 1, 0, 1)), None);
    assert_eq!(r.transform_world_to_screen(&world(0, 1, 3, 1)), None);
    assert_eq!(r.transform_world_to_screen(&world(0, 1, -3, 1)), None);
}

#[test]
fn contains_center_boundary_and_outside() {
    let c = Circle { center_x: 0, center_y: 0, radius: 3000, color: blue() };
    assert!(c.contains(&world(0, 1, 0, 1)));
    // exactly on the boundary counts as inside
    assert!(c.contains(&world(3, 10, 0, 1)));
    assert!(c.contains(&world(0, 1, -3, 10)));
    assert!(!c.contains(&world(31, 100, 0, 1)));
    assert!(!c.contains(&world(1, 1, 1, 1)));
    // (0.2, 0.2): 0.08 <= 0.09
    assert!(c.contains(&world(2, 10, 2, 10)));
    // (0.22, 0.22): 0.0968 > 0.09
    assert!(!c.contains(&world(22, 100, 22, 100)));
}

#[test]
fn contains_off_center() {
    let c = Circle { center_x: -5000, center_y: 2500, radius: 1000, color: blue() };
    assert!(c.contains(&world(-1, 2, 1, 4)));
    assert!(c.contains(&world(-4, 10, 1, 4)));
    assert!(!c.contains(&world(-39, 100, 1, 4)));
    assert!(!c.contains(&world(1, 2, 1, 4)));
}

#[test]
fn contains_pixel_on_small_grid() {
    let r = Resolution { width: 5, height: 5 };
    let c = Circle { center_x: 0, center_y: 0, radius: 5000, color: blue() };
    assert!(c.contains_pixel(&r, 2, 2));
    assert!(c.contains_pixel(&r, 3, 2));
    assert!(!c.contains_pixel(&r, 3, 3));
    assert!(!c.contains_pixel(&r, 0, 0));
}

#[test]
fn rasterize_unit_circle_on_five_by_five() {
    let r = Resolution { width: 5, height: 5 };
    let c = Circle { center_x: 0, center_y: 0, radius: 10000, color: blue() };
    let bg = default_background_color();
    let img = rasterize(&r, &c, bg);
    assert_eq!(img.size, [5, 5]);
    assert_eq!(img.pixels.len(), 25);
    // world x = (i - 2) / 2, world y = (2 - j) / 2; inside iff x^2 + y^2 <= 1
    let expected = [
        "..#..",
        ".###.",
        "#####",
        ".###.",
        "..#..",
    ];
    for j in 0..5 {
        let row = expected[j].as_bytes();
        for i in 0..5 {
            let want = if row[i] == b'#' { bytes(c.color) } else { bytes(bg) };
            assert_eq!(pixel(&img, 5, i, j), want, "pixel ({}, {})", i, j);
        }
    }
}

#[test]
fn rasterize_strictly_inside_gets_circle_color() {
    let r = Resolution { width: 9, height: 5 };
    let c = Circle { center_x: 0, center_y: 0, radius: 6000, color: blue() };
    let img = rasterize(&r, &c, default_background_color());
    // center pixel (4, 2) is at the world origin
    assert_eq!(pixel(&img, 9, 4, 2), bytes(blue()));
}

#[test]
fn rasterize_strictly_outside_gets_background() {
    let r = Resolution { width: 9, height: 5 };
    let c = Circle { center_x: 0, center_y: 0, radius: 6000, color: blue() };
    let bg = default_background_color();
    let img = rasterize(&r, &c, bg);
    for &(i, j) in &[(0usize, 0usize), (8, 4), (0, 4), (8, 0), (4, 0), (4, 4)] {
        assert_eq!(pixel(&img, 9, i, j), bytes(bg));
    }
}

#[test]
fn rasterize_zero_radius_marks_only_the_center() {
    let r = Resolution { width: 3, height: 3 };
    let c = Circle { center_x: 0, center_y: 0, radius: 0, color: blue() };
    let bg = default_background_color();
    let img = rasterize(&r, &c, bg);
    for j in 0..3 {
        for i in 0..3 {
            let want = if (i, j) == (1, 1) { bytes(blue()) } else { bytes(bg) };
            assert_eq!(pixel(&img, 3, i, j), want);
        }
    }
}

#[test]
fn rasterize_smallest_grid() {
    let r = Resolution { width: 2, height: 2 };
    let c = Circle { center_x: 10000, center_y: 10000, radius: 100, color: blue() };
    let bg = default_background_color();
    let img = rasterize(&r, &c, bg);
    assert_eq!(img.size, [2, 2]);
    // the top-right pixel sits at (+1, +1)
    assert_eq!(pixel(&img, 2, 1, 0), bytes(blue()));
    assert_eq!(pixel(&img, 2, 0, 0), bytes(bg));
    assert_eq!(pixel(&img, 2, 0, 1), bytes(bg));
    assert_eq!(pixel(&img, 2, 1, 1), bytes(bg));
}

#[test]
fn rasterize_default_canvas() {
    let r = Resolution::canvas();
    let c = Circle::initial();
    let bg = default_background_color();
    let img = rasterize(&r, &c, bg);
    assert_eq!(img.size, [1280, 720]);
    assert_eq!(img.pixels.len(), 1280 * 720);
    assert_eq!(pixel(&img, 1280, 640, 360), [255, 0, 0, 255]);
    assert_eq!(pixel(&img, 1280, 0, 0), [160, 160, 160, 255]);
    assert_eq!(pixel(&img, 1280, 1279, 719), [160, 160, 160, 255]);
    // 0.3 world units is about 108 rows: 60 rows above the center is inside,
    // 120 rows above is outside
    assert_eq!(pixel(&img, 1280, 640, 300), [255, 0, 0, 255]);
    assert_eq!(pixel(&img, 1280, 640, 240), [160, 160, 160, 255]);
}

#[test]
fn same_world_position_same_color_across_resolutions() {
    let small = Resolution { width: 3, height: 3 };
    let large = Resolution { width: 5, height: 5 };
    let bg = default_background_color();
    let c = Circle { center_x: -2000, center_y: 3000, radius: 7000, color: blue() };
    let a = rasterize(&small, &c, bg);
    let b = rasterize(&large, &c, bg);
    // pixel (i, j) of the 3x3 grid sits where pixel (2i, 2j) of the 5x5 grid does
    for j in 0..3 {
        for i in 0..3 {
            let p = small.transform_screen_to_world(i as u16, j as u16);
            let q = large.transform_screen_to_world(2 * i as u16, 2 * j as u16);
            assert_eq!(p.x_num * q.x_den, q.x_num * p.x_den);
            assert_eq!(p.y_num * q.y_den, q.y_num * p.y_den);
            assert_eq!(pixel(&a, 3, i, j), pixel(&b, 5, 2 * i, 2 * j));
        }
    }
}

#[test]
fn circle_is_not_stretched_on_wide_canvas() {
    // On a 641x361 grid the middle pixel (320, 180) is the world origin. A
    // circle of radius 0.3 there covers as many pixels along its row as along
    // its column: 54 on each side of the center.
    let r = Resolution { width: 641, height: 361 };
    let c = Circle { center_x: 0, center_y: 0, radius: 3000, color: blue() };
    let img = rasterize(&r, &c, default_background_color());
    let across = (0..641).filter(|&i| pixel(&img, 641, i, 180) == bytes(blue())).count();
    let down = (0..361).filter(|&j| pixel(&img, 641, 320, j) == bytes(blue())).count();
    assert_eq!(across, 109);
    assert_eq!(down, 109);
}

#[test]
fn origin_pixels_of_different_grids_agree() {
    let bg = default_background_color();
    let c = Circle { center_x: 1000, center_y: 0, radius: 1000, color: blue() };
    let a = rasterize(&Resolution { width: 5, height: 3 }, &c, bg);
    let b = rasterize(&Resolution { width: 9, height: 5 }, &c, bg);
    // both middle pixels sit at the world origin, on the circle's boundary
    assert_eq!(pixel(&a, 5, 2, 1), bytes(blue()));
    assert_eq!(pixel(&b, 9, 4, 2), bytes(blue()));
}
