use uipilot::coords::{png_dimensions, viewport_to_screen, NormalizationInputs};

fn inputs(sw: i32, sh: i32, wx: i32, wy: i32, ww: i32, wh: i32) -> NormalizationInputs {
    NormalizationInputs {
        screenshot_w: sw,
        screenshot_h: sh,
        window_x: wx,
        window_y: wy,
        window_w: ww,
        window_h: wh,
    }
}

#[test]
fn degenerate_dimensions_map_to_window_origin() {
    assert_eq!(viewport_to_screen(inputs(0, 800, 10, 20, 1200, 800), 5, 5), (10, 20));
    assert_eq!(viewport_to_screen(inputs(1280, -1, 10, 20, 1200, 800), 5, 5), (10, 20));
    assert_eq!(viewport_to_screen(inputs(1280, 800, 10, 20, 0, 800), 5, 5), (10, 20));
    assert_eq!(viewport_to_screen(inputs(1280, 800, -7, 33, 1200, -2), 5, 5), (-7, 33));
}

#[test]
fn identity_scale_maps_one_to_one() {
    // screenshot exactly fills the window: no scaling, no padding
    let n = inputs(1200, 800, 100, 50, 1200, 800);
    assert_eq!(viewport_to_screen(n, 0, 0), (100, 50));
    assert_eq!(viewport_to_screen(n, 600, 400), (700, 450));
    assert_eq!(viewport_to_screen(n, 1199, 799), (1299, 849));
}

#[test]
fn output_stays_inside_window() {
    let n = inputs(1280, 800, 10, 10, 1200, 800);
    for &(x, y) in &[(0, 0), (-50, -50), (5000, 5000), (1280, 800), (640, 400)] {
        let (sx, sy) = viewport_to_screen(n, x, y);
        assert!(sx >= 10 && sx < 10 + 1200, "x out of window: {sx}");
        assert!(sy >= 10 && sy < 10 + 800, "y out of window: {sy}");
    }
}

#[test]
fn letterboxing_centers_the_drawn_image() {
    // window twice as wide as the scaled image: scale = min(2000/1000, 500/500) = 1
    let n = inputs(1000, 500, 0, 0, 2000, 500);
    // drawn image is 1000x500, pad_x = (2000-1000+1)/2 = 500
    assert_eq!(viewport_to_screen(n, 0, 0), (500, 0));
    assert_eq!(viewport_to_screen(n, 999, 499), (1499, 499));
}

#[test]
fn negative_viewport_coordinates_clamp_to_drawn_origin() {
    let n = inputs(1200, 800, 100, 50, 1200, 800);
    assert_eq!(viewport_to_screen(n, -400, -400), (100, 50));
}

#[test]
fn png_dimensions_reads_ihdr() {
    let mut bytes = vec![0x89u8, b'P', b'N', b'G', 0x0d, 0x0a, 0x1a, 0x0a];
    bytes.extend_from_slice(&[0, 0, 0, 13]); // IHDR length
    bytes.extend_from_slice(b"IHDR");
    bytes.extend_from_slice(&[0, 0, 0x05, 0x00]); // width 1280
    bytes.extend_from_slice(&[0, 0, 0x03, 0x20]); // height 800
    assert_eq!(png_dimensions(&bytes), Some((1280, 800)));
}

#[test]
fn png_dimensions_rejects_short_or_foreign_bytes() {
    assert_eq!(png_dimensions(b"not a png at all, but long enough!!"), None);
    assert_eq!(png_dimensions(&[0x89, b'P', b'N', b'G']), None);
    assert_eq!(png_dimensions(&[]), None);
}
