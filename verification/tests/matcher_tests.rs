use screen_pilot::Error;
use screen_pilot::Image;
use screen_pilot::Pixel;
use screen_pilot::Waypoint;
use screen_pilot::locate;
use screen_pilot::rgb_from_rgba;

fn gray(v: u8) -> Pixel {
    Pixel { r: v, g: v, b: v }
}

/// A w-by-h image whose pixel at (x, y) has the gray value base + y*w + x,
/// so every pixel is distinct as long as w*h + base stays below 256.
fn distinct_image(w: u32, h: u32, base: u8) -> Image {
    let mut pixels: Vec<Pixel> = Vec::new();
    for i in 0..(w * h) {
        pixels.push(gray(base + i as u8));
    }
    Image::new(w, h, pixels)
}

/// The w-by-h crop of `im` with its top-left corner at (x0, y0).
fn crop(im: &Image, x0: u32, y0: u32, w: u32, h: u32) -> Image {
    let mut pixels: Vec<Pixel> = Vec::new();
    for y in 0..h {
        for x in 0..w {
            pixels.push(im.pixel(x0 + x, y0 + y));
        }
    }
    Image::new(w, h, pixels)
}

#[test]
fn confidence_below_zero_errors() {
    let hay = distinct_image(4, 4, 0);
    let nee = distinct_image(2, 2, 0);
    assert_eq!(locate(&hay, &nee, Some(-1), None), Err(Error::InvalidConfidence));
}

#[test]
fn confidence_above_one_errors() {
    let hay = distinct_image(4, 4, 0);
    let nee = distinct_image(2, 2, 0);
    assert_eq!(locate(&hay, &nee, Some(1001), None), Err(Error::InvalidConfidence));
}

#[test]
fn confidence_bounds_are_inclusive() {
    let hay = distinct_image(4, 4, 0);
    let nee = crop(&hay, 0, 0, 2, 2);
    assert!(locate(&hay, &nee, Some(0), None).is_ok());
    assert!(locate(&hay, &nee, Some(1000), None).is_ok());
}

#[test]
fn wide_needle_errors() {
    let hay = distinct_image(3, 3, 0);
    let nee = distinct_image(4, 1, 0);
    assert_eq!(locate(&hay, &nee, None, None), Err(Error::NeedleTooLarge));
}

#[test]
fn tall_needle_errors() {
    let hay = distinct_image(3, 3, 0);
    let nee = distinct_image(1, 4, 0);
    assert_eq!(locate(&hay, &nee, None, None), Err(Error::NeedleTooLarge));
}

#[test]
fn stride_beyond_pixel_count_errors() {
    let hay = distinct_image(4, 4, 0);
    let nee = distinct_image(2, 2, 0);
    assert_eq!(locate(&hay, &nee, None, Some(17)), Err(Error::StrideTooLarge));
}

#[test]
fn stride_at_pixel_count_is_accepted() {
    // A stride equal to the pixel count passes validation; it merely leaves
    // no candidate column over a slack of two, so the scan finds nothing.
    let hay = distinct_image(4, 4, 0);
    let nee = crop(&hay, 0, 0, 2, 2);
    assert_eq!(locate(&hay, &nee, None, Some(16)), Err(Error::NoMatchFound));
}

#[test]
fn confidence_checked_before_needle_size() {
    let hay = distinct_image(2, 2, 0);
    let nee = distinct_image(4, 4, 0);
    assert_eq!(locate(&hay, &nee, Some(2000), None), Err(Error::InvalidConfidence));
}

#[test]
fn full_height_needle_finds_nothing() {
    // Candidate rows run over [0, haystackHeight - needleHeight), so a
    // needle as tall as the haystack leaves no candidate at all.
    let hay = distinct_image(4, 4, 0);
    let nee = crop(&hay, 0, 0, 2, 4);
    assert_eq!(locate(&hay, &nee, None, None), Err(Error::NoMatchFound));
}

#[test]
fn locates_exact_crop() {
    let hay = distinct_image(5, 5, 0);
    let nee = crop(&hay, 1, 2, 2, 2);
    assert_eq!(locate(&hay, &nee, None, None), Ok(Waypoint { x: 1, y: 2 }));
}

#[test]
fn locates_crop_at_origin() {
    let hay = distinct_image(6, 4, 0);
    let nee = crop(&hay, 0, 0, 3, 2);
    assert_eq!(locate(&hay, &nee, None, None), Ok(Waypoint { x: 0, y: 0 }));
}

#[test]
fn first_of_equal_minima_wins() {
    // Two identical columns tie at score zero; the scan keeps the earlier.
    let mut pixels: Vec<Pixel> = Vec::new();
    for v in [5u8, 5, 9, 5, 5, 9] {
        pixels.push(gray(v));
    }
    let hay = Image::new(3, 2, pixels);
    let nee = Image::new(1, 1, vec![gray(5)]);
    assert_eq!(locate(&hay, &nee, None, None), Ok(Waypoint { x: 0, y: 0 }));
}

#[test]
fn best_score_is_minimal() {
    // Gray values 0, 10, 30 in one row of height 2; a needle of value 12
    // scores 12 and 2 on the two candidate columns, so column 1 wins.
    let mut pixels: Vec<Pixel> = Vec::new();
    for v in [0u8, 10, 30, 0, 10, 30] {
        pixels.push(gray(v));
    }
    let hay = Image::new(3, 2, pixels);
    let nee = Image::new(1, 1, vec![gray(12)]);
    assert_eq!(locate(&hay, &nee, None, None), Ok(Waypoint { x: 1, y: 0 }));
}

#[test]
fn stride_zero_is_treated_as_one() {
    let hay = distinct_image(5, 5, 0);
    let nee = crop(&hay, 2, 1, 2, 2);
    assert_eq!(
        locate(&hay, &nee, None, Some(0)),
        locate(&hay, &nee, None, Some(1))
    );
}

#[test]
fn stride_shrinks_searched_columns() {
    // The candidate column index is used directly as an x coordinate, so a
    // stride of 2 over a horizontal slack of 8 visits only columns [0, 4).
    // A perfect match at x = 6 is therefore never evaluated.
    let hay = distinct_image(9, 2, 0);
    let nee = crop(&hay, 6, 0, 1, 1);
    let found = locate(&hay, &nee, None, Some(2)).unwrap();
    assert!(found.x < 4);
    assert_eq!(locate(&hay, &nee, None, Some(1)), Ok(Waypoint { x: 6, y: 0 }));
}

#[test]
fn empty_needle_matches_first_candidate() {
    // A needle with no pixels scores zero everywhere; the first candidate
    // position wins.
    let hay = distinct_image(4, 4, 0);
    let nee = Image::new(0, 0, Vec::new());
    assert_eq!(locate(&hay, &nee, None, None), Ok(Waypoint { x: 0, y: 0 }));
}

#[test]
fn rgba_buffer_drops_alpha() {
    let rgba: Vec<u8> = vec![
        1, 2, 3, 255, 4, 5, 6, 0, 7, 8, 9, 128, 10, 11, 12, 64,
    ];
    let im = rgb_from_rgba(2, 2, &rgba);
    assert_eq!(im.width, 2);
    assert_eq!(im.height, 2);
    assert_eq!(im.pixel(0, 0), Pixel { r: 1, g: 2, b: 3 });
    assert_eq!(im.pixel(1, 0), Pixel { r: 4, g: 5, b: 6 });
    assert_eq!(im.pixel(0, 1), Pixel { r: 7, g: 8, b: 9 });
    assert_eq!(im.pixel(1, 1), Pixel { r: 10, g: 11, b: 12 });
}

#[test]
fn locate_finds_crop_of_converted_rgba() {
    let mut rgba: Vec<u8> = Vec::new();
    for i in 0..16u8 {
        rgba.push(i * 3);
        rgba.push(i * 3 + 1);
        rgba.push(i * 3 + 2);
        rgba.push(200);
    }
    let hay = rgb_from_rgba(4, 4, &rgba);
    let nee = crop(&hay, 2, 1, 1, 2);
    assert_eq!(locate(&hay, &nee, None, None), Ok(Waypoint { x: 2, y: 1 }));
}
