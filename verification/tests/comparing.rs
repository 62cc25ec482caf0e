use capture::raster::Raster;
use capture::ScreenCapture;

// A raster whose pixel at (x, y) encodes its position, so any two positions
// hold different pixels.
fn coded_raster(w: u32, h: u32) -> Raster {
    let mut data = Vec::new();
    for y in 0..h {
        for x in 0..w {
            data.push((x % 251) as u8);
            data.push((y % 251) as u8);
            data.push(((x + y) % 251) as u8);
            data.push(255u8);
        }
    }
    Raster::from_bytes(w, h, data).unwrap()
}

fn solid_raster(w: u32, h: u32, value: u8) -> Raster {
    let data = vec![value; (w * h * 4) as usize];
    Raster::from_bytes(w, h, data).unwrap()
}

#[test]
fn identity_is_reflexive() {
    let a = coded_raster(17, 9);
    let engine = ScreenCapture::new();
    assert!(engine.images_are_identical(&a, &a));
    assert!(engine.images_are_identical(&a, &a.dup()));
}

#[test]
fn identity_rejects_single_pixel_difference() {
    let a = coded_raster(17, 9);
    let mut b = a.dup();
    b.put_pixel(11, 4, (9, 9, 9, 9));
    let engine = ScreenCapture::new();
    assert!(!engine.images_are_identical(&a, &b));
    assert!(!engine.images_are_identical(&b, &a));
}

#[test]
fn identity_rejects_mismatched_dimensions() {
    let a = solid_raster(8, 8, 1);
    let b = solid_raster(8, 9, 1);
    let engine = ScreenCapture::new();
    assert!(!engine.images_are_identical(&a, &b));
}

#[test]
fn similarity_rejects_mismatched_dimensions_with_full_difference() {
    let a = solid_raster(8, 8, 1);
    let b = solid_raster(9, 8, 1);
    let engine = ScreenCapture::new();
    let r = engine.images_are_similar(&a, &b, 4, 0, 1);
    assert!(!r.similar);
    assert_eq!(r.diff_permyriad, 10000);
}

#[test]
fn similarity_rejects_overlap_as_tall_as_frame() {
    let a = solid_raster(8, 8, 1);
    let engine = ScreenCapture::new();
    let r = engine.images_are_similar(&a, &a.dup(), 8, 0, 1);
    assert!(!r.similar);
    assert_eq!(r.diff_permyriad, 10000);
}

#[test]
fn zero_threshold_accepts_exact_band_match() {
    // Bottom 3 rows of `a` equal top 3 rows of `b`; everything else differs.
    let w = 10u32;
    let h = 8u32;
    let o = 3u32;
    let mut a_data = Vec::new();
    let mut b_data = Vec::new();
    for y in 0..h {
        for x in 0..w {
            if y >= h - o {
                // shared band content, keyed by position within the band
                let k = (y - (h - o)) as u8;
                a_data.extend_from_slice(&[k, x as u8, 7, 255]);
            } else {
                a_data.extend_from_slice(&[1, 1, 1, 255]);
            }
            if y < o {
                let k = y as u8;
                b_data.extend_from_slice(&[k, x as u8, 7, 255]);
            } else {
                b_data.extend_from_slice(&[2, 2, 2, 255]);
            }
        }
    }
    let a = Raster::from_bytes(w, h, a_data).unwrap();
    let b = Raster::from_bytes(w, h, b_data).unwrap();
    let engine = ScreenCapture::new();
    let r = engine.images_are_similar(&a, &b, o, 0, 1);
    assert!(r.similar);
    assert_eq!(r.diff_permyriad, 0);
    // The frames differ wildly outside the band, so identity still fails.
    assert!(!engine.images_are_identical(&a, &b));
}

#[test]
fn zero_threshold_rejects_one_band_mismatch() {
    let a = solid_raster(10, 8, 5);
    let mut b = a.dup();
    // One pixel inside the top 3 rows of `b` (the band compared).
    b.put_pixel(4, 1, (0, 0, 0, 0));
    let engine = ScreenCapture::new();
    let r = engine.images_are_similar(&a, &b, 3, 0, 1);
    assert!(!r.similar);
    // One mismatch over a 30-pixel band: 3.33%, floored in hundredths.
    assert_eq!(r.diff_permyriad, 1 * 10000 / 30);
}

#[test]
fn threshold_tolerates_mismatches_within_budget() {
    let a = solid_raster(10, 8, 5);
    let mut b = a.dup();
    b.put_pixel(0, 0, (0, 0, 0, 0));
    b.put_pixel(5, 1, (0, 0, 0, 0));
    b.put_pixel(9, 2, (0, 0, 0, 0));
    let engine = ScreenCapture::new();
    // Band of 30 pixels, threshold 10%: budget floor(3.0) = 3.
    let r = engine.images_are_similar(&a, &b, 3, 1, 10);
    assert!(r.similar);
    assert_eq!(r.diff_permyriad, 3 * 10000 / 30);
}

#[test]
fn threshold_exceeded_stops_at_budget_plus_one() {
    let a = solid_raster(10, 8, 5);
    let mut b = a.dup();
    for x in 0..7u32 {
        b.put_pixel(x, 0, (0, 0, 0, 0));
    }
    let engine = ScreenCapture::new();
    // Budget is 3; the scan stops after the fourth mismatch.
    let r = engine.images_are_similar(&a, &b, 3, 1, 10);
    assert!(!r.similar);
    assert_eq!(r.diff_permyriad, 4 * 10000 / 30);
}

#[test]
fn full_threshold_accepts_anything_of_equal_size() {
    let a = solid_raster(6, 6, 0);
    let b = solid_raster(6, 6, 200);
    let engine = ScreenCapture::new();
    let r = engine.images_are_similar(&a, &b, 5, 1, 1);
    assert!(r.similar);
    assert_eq!(r.diff_permyriad, 10000);
}
