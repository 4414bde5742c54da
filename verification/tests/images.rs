use mojimix::background::{sample_background, BackgroundColor, BackgroundError};
use mojimix::compose::{compose_canvas, scale_to_fit, scaled_size};
use mojimix::crop::{bounding_box, crop, crop_region, crop_to_content, BoundingBox, CropRegion};
use mojimix::flood::{flood_fill, is_background};
use mojimix::pixel::{channel_diff, Pixel};
use mojimix::raster::RawImage;
use mojimix::removal::{color_key, BackgroundRemover, ColorKeyRemover, FloodFillRemover};

const GREEN: Pixel = Pixel { r: 0, g: 255, b: 0, a: 255 };
const RED: Pixel = Pixel { r: 220, g: 20, b: 20, a: 255 };
const CLEAR: Pixel = Pixel { r: 0, g: 0, b: 0, a: 0 };
const BG: BackgroundColor = BackgroundColor { r: 0, g: 255, b: 0 };

fn image_of(width: u32, height: u32, pixel: impl Fn(u32, u32) -> Pixel) -> RawImage {
    let mut data = Vec::new();
    for y in 0..height {
        for x in 0..width {
            let p = pixel(x, y);
            data.extend_from_slice(&[p.r, p.g, p.b, p.a]);
        }
    }
    RawImage::from_rgba(width, height, data).unwrap()
}

fn pixels_of(img: &RawImage) -> Vec<Pixel> {
    (0..img.pixel_count()).map(|i| img.pixel(i)).collect()
}

/// A green field with a red ring whose inside is green again.
fn ring(x: u32, y: u32) -> Pixel {
    let on_ring = (2..=6).contains(&x) && (2..=6).contains(&y);
    let inside = (3..=5).contains(&x) && (3..=5).contains(&y);
    if on_ring && !inside {
        RED
    } else {
        GREEN
    }
}

#[test]
fn raw_image_checks_the_buffer_length() {
    assert!(RawImage::from_rgba(2, 2, vec![0; 16]).is_some());
    assert!(RawImage::from_rgba(2, 2, vec![0; 15]).is_none());
    assert!(RawImage::from_rgba(2, 2, vec![0; 20]).is_none());
    assert!(RawImage::from_rgba(0, 7, vec![]).is_some());
    assert!(RawImage::from_rgba(0, 7, vec![0; 4]).is_none());
}

#[test]
fn raw_image_reads_and_writes_row_major() {
    let mut img = RawImage::from_rgba(2, 2, (0u8..16).collect()).unwrap();
    assert_eq!((img.width(), img.height(), img.pixel_count()), (2, 2, 4));
    assert_eq!(img.get(1, 0), Pixel { r: 4, g: 5, b: 6, a: 7 });
    assert_eq!(img.get(0, 1), Pixel { r: 8, g: 9, b: 10, a: 11 });
    assert_eq!(img.pixel(3), Pixel { r: 12, g: 13, b: 14, a: 15 });
    img.set(1, 1, RED);
    img.set_pixel(0, GREEN);
    assert_eq!(img.get(1, 1), RED);
    assert_eq!(img.get(0, 0), GREEN);
    assert_eq!(img.get(1, 0), Pixel { r: 4, g: 5, b: 6, a: 7 });
    let copy = img.duplicate();
    assert_eq!(copy.into_rgba(), img.into_rgba());
}

#[test]
fn blank_image_is_transparent() {
    let img = RawImage::blank(3, 2);
    assert_eq!(pixels_of(&img), vec![CLEAR; 6]);
    assert_eq!(Pixel::transparent(), CLEAR);
}

#[test]
fn channel_difference_is_absolute() {
    assert_eq!(channel_diff(10, 250), 240);
    assert_eq!(channel_diff(250, 10), 240);
    assert_eq!(channel_diff(7, 7), 0);
}

#[test]
fn sampling_averages_the_corners() {
    let img = image_of(3, 3, |x, y| match (x, y) {
        (0, 0) => Pixel { r: 10, g: 200, b: 20, a: 255 },
        (2, 0) => Pixel { r: 11, g: 201, b: 21, a: 0 },
        (0, 2) => Pixel { r: 12, g: 203, b: 22, a: 9 },
        (2, 2) => Pixel { r: 14, g: 250, b: 24, a: 255 },
        _ => RED,
    });
    // (10+11+12+14)/4 = 11, (200+201+203+250)/4 = 213, (20+21+22+24)/4 = 21
    assert_eq!(sample_background(&img), Ok(BackgroundColor { r: 11, g: 213, b: 21 }));
}

#[test]
fn sampling_accepts_a_difference_of_exactly_the_tolerance() {
    let img = image_of(2, 2, |x, y| match (x, y) {
        (0, 0) => Pixel { r: 50, g: 200, b: 50, a: 255 },
        (1, 0) => Pixel { r: 100, g: 250, b: 0, a: 255 },
        _ => Pixel { r: 50, g: 200, b: 50, a: 255 },
    });
    assert!(sample_background(&img).is_ok());
}

#[test]
fn sampling_reports_the_first_stray_corner() {
    let reference = Pixel { r: 0, g: 200, b: 0, a: 255 };
    let img = image_of(2, 2, |x, y| match (x, y) {
        (0, 0) | (1, 0) => reference,
        (0, 1) => Pixel { r: 51, g: 200, b: 0, a: 255 },
        _ => Pixel { r: 0, g: 100, b: 0, a: 255 },
    });
    assert_eq!(
        sample_background(&img),
        Err(BackgroundError::InconsistentBackground {
            reference: BackgroundColor { r: 0, g: 200, b: 0 },
            index: 2,
            corner: BackgroundColor { r: 51, g: 200, b: 0 },
        })
    );
}

#[test]
fn sampling_rejects_a_backdrop_that_is_not_green() {
    let img = image_of(2, 2, |_, _| Pixel { r: 200, g: 200, b: 10, a: 255 });
    assert_eq!(
        sample_background(&img),
        Err(BackgroundError::NotGreenDominant { average: BackgroundColor { r: 200, g: 200, b: 10 } })
    );
}

#[test]
fn sampling_reads_a_single_pixel_four_times() {
    let img = image_of(1, 1, |_, _| GREEN);
    assert_eq!(sample_background(&img), Ok(BG));
}

#[test]
fn two_images_with_the_same_corners_are_judged_alike() {
    let a = image_of(4, 4, |_, _| GREEN);
    let b = image_of(4, 4, |x, y| if (x == 0 || x == 3) && (y == 0 || y == 3) { GREEN } else { RED });
    assert_eq!(sample_background(&a), sample_background(&b));
}

#[test]
fn background_match_is_strictly_within_forty() {
    assert!(is_background(Pixel { r: 39, g: 216, b: 39, a: 255 }, BG));
    assert!(!is_background(Pixel { r: 40, g: 255, b: 0, a: 255 }, BG));
    assert!(!is_background(Pixel { r: 0, g: 215, b: 0, a: 255 }, BG));
    assert!(is_background(Pixel { r: 0, g: 255, b: 0, a: 0 }, BG));
}

#[test]
fn flood_fill_keeps_enclosed_background() {
    let img = image_of(9, 9, ring);
    let out = flood_fill(&img, BG);
    for y in 0..9 {
        for x in 0..9 {
            let on_ring = (2..=6).contains(&x) && (2..=6).contains(&y);
            let inside = (3..=5).contains(&x) && (3..=5).contains(&y);
            let expected = if inside {
                GREEN
            } else if on_ring {
                RED
            } else {
                CLEAR
            };
            assert_eq!(out.get(x, y), expected, "at ({x}, {y})");
        }
    }
}

#[test]
fn flood_fill_enters_through_a_gap() {
    let img = image_of(9, 9, |x, y| if (x, y) == (4, 2) { GREEN } else { ring(x, y) });
    let out = flood_fill(&img, BG);
    assert_eq!(out.get(4, 4), CLEAR);
    assert_eq!(out.get(3, 5), CLEAR);
    assert_eq!(out.get(2, 2), RED);
}

#[test]
fn flood_fill_does_not_cross_diagonals() {
    // The centre touches the border region only over its corners.
    let img = image_of(5, 5, |x, y| {
        let d = (x as i32 - 2).abs() + (y as i32 - 2).abs();
        if d == 1 {
            RED
        } else {
            GREEN
        }
    });
    let out = flood_fill(&img, BG);
    assert_eq!(out.get(2, 2), GREEN);
    assert_eq!(out.get(1, 1), CLEAR);
    assert_eq!(out.get(2, 1), RED);
}

#[test]
fn flood_fill_leaves_content_on_the_border() {
    let img = image_of(3, 1, |x, _| if x == 1 { RED } else { GREEN });
    let out = flood_fill(&img, BG);
    assert_eq!(pixels_of(&out), vec![CLEAR, RED, CLEAR]);
    let empty = image_of(0, 0, |_, _| GREEN);
    assert_eq!(flood_fill(&empty, BG).pixel_count(), 0);
}

#[test]
fn color_key_clears_wherever_the_colour_lies() {
    let img = image_of(9, 9, ring);
    let out = color_key(&img);
    assert_eq!(out.get(4, 4), CLEAR);
    assert_eq!(out.get(0, 0), CLEAR);
    assert_eq!(out.get(2, 2), RED);
}

#[test]
fn color_key_thresholds_are_strict() {
    let keep = [
        Pixel { r: 60, g: 255, b: 0, a: 255 },
        Pixel { r: 0, g: 200, b: 0, a: 255 },
        Pixel { r: 0, g: 255, b: 60, a: 255 },
    ];
    let go = [Pixel { r: 59, g: 201, b: 59, a: 255 }, Pixel { r: 0, g: 255, b: 0, a: 3 }];
    let img = image_of(5, 1, |x, _| if x < 3 { keep[x as usize] } else { go[x as usize - 3] });
    let out = color_key(&img);
    assert_eq!(pixels_of(&out), vec![keep[0], keep[1], keep[2], CLEAR, CLEAR]);
}

#[test]
fn color_key_does_not_depend_on_position() {
    let a = image_of(4, 1, |x, _| [GREEN, RED, GREEN, RED][x as usize]);
    let b = image_of(1, 4, |_, y| [RED, RED, GREEN, GREEN][y as usize]);
    let (ka, kb) = (color_key(&a), color_key(&b));
    assert_eq!(pixels_of(&ka), vec![CLEAR, RED, CLEAR, RED]);
    assert_eq!(pixels_of(&kb), vec![RED, RED, CLEAR, CLEAR]);
}

#[test]
fn both_strategies_answer_to_one_interface() {
    fn run(remover: &impl BackgroundRemover, img: &RawImage) -> Pixel {
        remover.remove(img, BG).get(4, 4)
    }
    let img = image_of(9, 9, ring);
    assert_eq!(run(&FloodFillRemover, &img), GREEN);
    assert_eq!(run(&ColorKeyRemover, &img), CLEAR);
}

#[test]
fn bounding_box_is_tight() {
    let img = image_of(10, 8, |x, y| match (x, y) {
        (3, 2) | (7, 5) | (4, 6) => RED,
        (9, 7) => Pixel { r: 9, g: 9, b: 9, a: 10 },
        _ => CLEAR,
    });
    assert_eq!(bounding_box(&img), Some(BoundingBox { min_x: 3, min_y: 2, max_x: 7, max_y: 6 }));
    let faint = image_of(4, 4, |_, _| Pixel { r: 1, g: 2, b: 3, a: 10 });
    assert_eq!(bounding_box(&faint), None);
    let dot = image_of(4, 4, |x, y| if (x, y) == (3, 0) { Pixel { r: 1, g: 2, b: 3, a: 11 } } else { CLEAR });
    assert_eq!(bounding_box(&dot), Some(BoundingBox { min_x: 3, min_y: 0, max_x: 3, max_y: 0 }));
}

#[test]
fn crop_region_pads_and_clamps() {
    let inner = BoundingBox { min_x: 10, min_y: 20, max_x: 19, max_y: 24 };
    assert_eq!(crop_region(100, 100, inner), CropRegion { x: 6, y: 16, width: 18, height: 13 });
    let near_origin = BoundingBox { min_x: 1, min_y: 0, max_x: 5, max_y: 5 };
    assert_eq!(crop_region(100, 100, near_origin), CropRegion { x: 0, y: 0, width: 13, height: 14 });
    let near_end = BoundingBox { min_x: 90, min_y: 95, max_x: 99, max_y: 97 };
    assert_eq!(crop_region(100, 100, near_end), CropRegion { x: 86, y: 91, width: 14, height: 9 });
    let all = BoundingBox { min_x: 0, min_y: 0, max_x: 9, max_y: 9 };
    assert_eq!(crop_region(10, 10, all), CropRegion { x: 0, y: 0, width: 10, height: 10 });
}

#[test]
fn crop_copies_the_rectangle() {
    let img = image_of(5, 4, |x, y| Pixel { r: x as u8, g: y as u8, b: 0, a: 255 });
    let out = crop(img, CropRegion { x: 1, y: 2, width: 3, height: 2 });
    assert_eq!((out.width(), out.height()), (3, 2));
    for y in 0..2 {
        for x in 0..3 {
            assert_eq!(out.get(x, y), Pixel { r: x as u8 + 1, g: y as u8 + 2, b: 0, a: 255 });
        }
    }
}

#[test]
fn crop_to_content_keeps_a_margin() {
    let img = image_of(30, 30, |x, y| if (10..=14).contains(&x) && (12..=13).contains(&y) { RED } else { CLEAR });
    let out = crop_to_content(img);
    assert_eq!((out.width(), out.height()), (13, 10));
    assert_eq!(out.get(3, 3), CLEAR);
    assert_eq!(out.get(4, 4), RED);
    assert_eq!(out.get(8, 5), RED);
    assert_eq!(out.get(9, 5), CLEAR);
}

#[test]
fn crop_to_content_hands_back_an_image_without_content() {
    let img = image_of(6, 5, |x, _| Pixel { r: x as u8, g: 1, b: 2, a: 10 });
    let before = img.duplicate().into_rgba();
    let out = crop_to_content(img);
    assert_eq!((out.width(), out.height()), (6, 5));
    assert_eq!(out.into_rgba(), before);
}

#[test]
fn scaled_size_brings_the_long_side_to_120() {
    assert_eq!(scaled_size(240, 120), (120, 60));
    assert_eq!(scaled_size(60, 120), (60, 120));
    assert_eq!(scaled_size(10, 10), (120, 120));
    assert_eq!(scaled_size(7, 3), (120, 51));
    assert_eq!(scaled_size(1000, 1), (120, 0));
    assert_eq!(scaled_size(1024, 1023), (120, 119));
    assert_eq!(scaled_size(4_000_000_000, 4_000_000_000), (120, 120));
    assert_eq!(scaled_size(0, 5), (0, 120));
    assert_eq!(scaled_size(0, 0), (0, 0));
}

#[test]
fn scale_to_fit_resamples_to_the_scaled_size() {
    let img = image_of(40, 20, |x, _| if x < 20 { RED } else { GREEN });
    let out = scale_to_fit(img);
    assert_eq!((out.width(), out.height()), (120, 60));
    assert_eq!(out.get(10, 30), RED);
    assert_eq!(out.get(110, 30), GREEN);
    let fitting = image_of(120, 7, |x, y| Pixel { r: x as u8, g: y as u8, b: 3, a: (x + y) as u8 });
    let kept = fitting.duplicate().into_rgba();
    assert_eq!(scale_to_fit(fitting).into_rgba(), kept);
    let thin = scale_to_fit(image_of(1000, 1, |_, _| RED));
    assert_eq!((thin.width(), thin.height(), thin.pixel_count()), (120, 0, 0));
}

#[test]
fn compose_centres_on_a_transparent_canvas() {
    let content = image_of(120, 60, |_, _| RED);
    let canvas = compose_canvas(&content);
    assert_eq!((canvas.width(), canvas.height()), (128, 128));
    for y in 0..128 {
        for x in 0..128 {
            let covered = (4..124).contains(&x) && (34..94).contains(&y);
            assert_eq!(canvas.get(x, y), if covered { RED } else { CLEAR });
        }
    }
}

#[test]
fn compose_rounds_the_offset_down() {
    let content = image_of(3, 1, |x, _| Pixel { r: x as u8, g: 0, b: 0, a: 255 });
    let canvas = compose_canvas(&content);
    assert_eq!(canvas.get(62, 63), Pixel { r: 0, g: 0, b: 0, a: 255 });
    assert_eq!(canvas.get(64, 63), Pixel { r: 2, g: 0, b: 0, a: 255 });
    assert_eq!(canvas.get(61, 63), CLEAR);
    assert_eq!(canvas.get(62, 62), CLEAR);
    let empty = compose_canvas(&image_of(0, 0, |_, _| RED));
    assert!(pixels_of(&empty).iter().all(|p| *p == CLEAR));
    let full = compose_canvas(&image_of(128, 128, |_, _| GREEN));
    assert!(pixels_of(&full).iter().all(|p| *p == GREEN));
}

#[test]
fn corners_are_compared_with_the_first_one_only() {
    // The second and third corner lie 100 apart, each 50 from the first.
    let img = image_of(2, 2, |x, y| match (x, y) {
        (1, 0) => Pixel { r: 100, g: 200, b: 50, a: 255 },
        (0, 1) => Pixel { r: 0, g: 200, b: 50, a: 255 },
        _ => Pixel { r: 50, g: 200, b: 50, a: 255 },
    });
    assert_eq!(sample_background(&img), Ok(BackgroundColor { r: 50, g: 200, b: 50 }));
}

/// A fill written the plain way: breadth first, from a queue.
fn reference_fill(img: &RawImage, bg: BackgroundColor) -> Vec<Pixel> {
    let (w, h) = (img.width() as i64, img.height() as i64);
    let mut out = pixels_of(img);
    let mut seen = vec![false; out.len()];
    let mut queue = std::collections::VecDeque::new();
    for y in 0..h {
        for x in 0..w {
            if x == 0 || y == 0 || x == w - 1 || y == h - 1 {
                queue.push_back((x, y));
            }
        }
    }
    while let Some((x, y)) = queue.pop_front() {
        if x < 0 || y < 0 || x >= w || y >= h || seen[(y * w + x) as usize] {
            continue;
        }
        seen[(y * w + x) as usize] = true;
        if is_background(img.get(x as u32, y as u32), bg) {
            out[(y * w + x) as usize] = CLEAR;
            queue.extend([(x - 1, y), (x + 1, y), (x, y - 1), (x, y + 1)]);
        }
    }
    out
}

#[test]
fn flood_fill_agrees_with_a_breadth_first_fill() {
    let mut state: u32 = 12345;
    for (w, h) in [(50, 37), (1, 9), (9, 1), (2, 2), (31, 31)] {
        let noise: Vec<bool> = (0..w * h)
            .map(|_| {
                state = state.wrapping_mul(1_664_525).wrapping_add(1_013_904_223);
                (state >> 16) % 100 < 38
            })
            .collect();
        let img = image_of(w, h, |x, y| if noise[(y * w + x) as usize] { RED } else { GREEN });
        assert_eq!(pixels_of(&flood_fill(&img, BG)), reference_fill(&img, BG), "{w} by {h}");
    }
}
