use red_sand::border::{detect_borders, get_border_images, BORDER_ALPHA};
use red_sand::grid::{FaceImage, Rgb8};

fn two_halves(side: u32, left: Rgb8, right: Rgb8) -> FaceImage {
    let mut pixels = Vec::new();
    for x in 0..side {
        for _y in 0..side {
            pixels.push(if x < side / 2 { left } else { right });
        }
    }
    FaceImage { width: side, height: side, pixels }
}

fn has_differing_neighbor(img: &FaceImage, x: u32, y: u32) -> bool {
    let center = img.pixel(x, y);
    for dx in -1i64..=1 {
        for dy in -1i64..=1 {
            let nx = x as i64 + dx;
            let ny = y as i64 + dy;
            if nx < 0 || ny < 0 || nx >= img.width as i64 || ny >= img.height as i64 {
                continue;
            }
            if img.pixel(nx as u32, ny as u32) != center {
                return true;
            }
        }
    }
    false
}

#[test]
fn overlay_is_opaque_exactly_on_pixels_with_a_differing_neighbor() {
    let img = two_halves(
        8,
        Rgb8 { r: 100, g: 10, b: 200 },
        Rgb8 { r: 30, g: 30, b: 30 },
    );
    let overlay = detect_borders(&img);
    assert_eq!(overlay.width, 8);
    assert_eq!(overlay.height, 8);
    for x in 0..8u32 {
        for y in 0..8u32 {
            let marked = overlay.pixel(x, y).a != 0;
            assert_eq!(
                marked,
                has_differing_neighbor(&img, x, y),
                "mismatch at ({}, {})",
                x,
                y
            );
        }
    }
}

#[test]
fn boundary_pixels_carry_the_bloomed_source_color() {
    let left = Rgb8 { r: 100, g: 10, b: 200 };
    let right = Rgb8 { r: 30, g: 30, b: 30 };
    let img = two_halves(8, left, right);
    let overlay = detect_borders(&img);
    // Column 3 is the last left-colored column; column 4 starts the right.
    let p = overlay.pixel(3, 5);
    assert_eq!(p.a, BORDER_ALPHA);
    assert_eq!(p.r, 150); // 100 * 3 / 2
    assert_eq!(p.g, 15); // 10 * 3 / 2
    assert_eq!(p.b, 255); // 200 * 3 / 2 capped
    let q = overlay.pixel(4, 5);
    assert_eq!(q.a, BORDER_ALPHA);
    assert_eq!(q.r, 45);
    assert_eq!(q.g, 45);
    assert_eq!(q.b, 45);
}

#[test]
fn uniform_image_blurs_to_a_fully_transparent_overlay() {
    let img = two_halves(6, Rgb8 { r: 9, g: 9, b: 9 }, Rgb8 { r: 9, g: 9, b: 9 });
    let overlays = get_border_images(&vec![img]);
    assert_eq!(overlays.len(), 1);
    for x in 0..6u32 {
        for y in 0..6u32 {
            let p = overlays[0].pixel(x, y);
            assert_eq!((p.r, p.g, p.b, p.a), (0, 0, 0, 0));
        }
    }
}

#[test]
fn blur_spreads_alpha_near_the_boundary_and_leaves_far_pixels_clear() {
    let img = two_halves(
        12,
        Rgb8 { r: 100, g: 10, b: 200 },
        Rgb8 { r: 30, g: 30, b: 30 },
    );
    let overlays = get_border_images(&vec![img]);
    let overlay = &overlays[0];
    // The boundary sits between columns 5 and 6; the blur kernel spans two
    // columns on each side.
    assert!(overlay.pixel(5, 6).a > 0);
    assert!(overlay.pixel(6, 6).a > 0);
    assert!(overlay.pixel(3, 6).a > 0);
    assert_eq!(overlay.pixel(0, 6).a, 0);
    assert_eq!(overlay.pixel(11, 6).a, 0);
    // Alpha fades with distance from the boundary.
    assert!(overlay.pixel(5, 6).a >= overlay.pixel(3, 6).a);
}
