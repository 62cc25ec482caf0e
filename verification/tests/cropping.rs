use capture::raster::Raster;
use capture::ScreenCapture;

fn grid_pixel(x: u32, y: u32) -> (u8, u8, u8, u8) {
    ((x % 256) as u8, (y % 256) as u8, ((x + 2 * y) % 256) as u8, 255)
}

fn grid_raster(w: u32, h: u32) -> Raster {
    let mut data = Vec::new();
    for y in 0..h {
        for x in 0..w {
            let (r, g, b, a) = grid_pixel(x, y);
            data.extend_from_slice(&[r, g, b, a]);
        }
    }
    Raster::from_bytes(w, h, data).unwrap()
}

#[test]
fn from_bytes_checks_the_length() {
    assert!(Raster::from_bytes(2, 2, vec![0; 16]).is_some());
    assert!(Raster::from_bytes(2, 2, vec![0; 15]).is_none());
    assert!(Raster::from_bytes(2, 2, vec![0; 17]).is_none());
}

#[test]
fn crop_without_region_returns_the_frame() {
    let engine = ScreenCapture::new();
    let img = grid_raster(12, 9);
    let out = engine.crop_to_region(&img, None);
    assert_eq!(out.bytes(), img.bytes());
}

#[test]
fn crop_cuts_the_fitting_region() {
    let engine = ScreenCapture::new();
    let img = grid_raster(12, 9);
    let out = engine.crop_to_region(&img, Some((3, 2, 5, 4)));
    assert_eq!(out.width(), 5);
    assert_eq!(out.height(), 4);
    for y in 0..4u32 {
        for x in 0..5u32 {
            assert_eq!(out.get_pixel(x, y), grid_pixel(3 + x, 2 + y));
        }
    }
}

#[test]
fn crop_with_negative_origin_degrades_to_full_frame() {
    // A rectangle reaching left of or above the raster is partially outside:
    // fall back to no crop rather than cut elsewhere.
    let engine = ScreenCapture::new();
    let img = grid_raster(12, 9);
    let out = engine.crop_to_region(&img, Some((-4, -1, 5, 4)));
    assert_eq!(out.width(), 12);
    assert_eq!(out.height(), 9);
    assert_eq!(out.bytes(), img.bytes());
}

#[test]
fn crop_with_non_positive_size_degrades_to_full_frame() {
    let engine = ScreenCapture::new();
    let img = grid_raster(12, 9);
    let zero = engine.crop_to_region(&img, Some((3, 2, 0, 4)));
    assert_eq!(zero.bytes(), img.bytes());
    let negative = engine.crop_to_region(&img, Some((3, 2, 5, -4)));
    assert_eq!(negative.bytes(), img.bytes());
}

#[test]
fn crop_out_of_bounds_degrades_to_full_frame() {
    let engine = ScreenCapture::new();
    let img = grid_raster(12, 9);
    let out = engine.crop_to_region(&img, Some((8, 2, 5, 4)));
    assert_eq!(out.width(), 12);
    assert_eq!(out.height(), 9);
    assert_eq!(out.bytes(), img.bytes());
}

#[test]
fn bgra_rows_swap_red_and_blue() {
    // One 2 x 1 image, stride equal to the row width.
    let bytes = vec![1, 2, 3, 4, 5, 6, 7, 8];
    let out = Raster::from_bgra_rows(&bytes, 2, 1, 8);
    assert_eq!(out.get_pixel(0, 0), (3, 2, 1, 4));
    assert_eq!(out.get_pixel(1, 0), (7, 6, 5, 8));
}

#[test]
fn bgra_rows_respect_the_stride() {
    // Two rows of one pixel each, padded to a stride of 6 bytes.
    let bytes = vec![1, 2, 3, 4, 0, 0, 5, 6, 7, 8, 0, 0];
    let out = Raster::from_bgra_rows(&bytes, 1, 2, 6);
    assert_eq!(out.get_pixel(0, 0), (3, 2, 1, 4));
    assert_eq!(out.get_pixel(0, 1), (7, 6, 5, 8));
}

#[test]
fn bgra_rows_leave_truncated_pixels_clear() {
    // The second pixel's bytes lie past the end of the buffer.
    let bytes = vec![1, 2, 3, 4, 5, 6];
    let out = Raster::from_bgra_rows(&bytes, 2, 1, 8);
    assert_eq!(out.get_pixel(0, 0), (3, 2, 1, 4));
    assert_eq!(out.get_pixel(1, 0), (0, 0, 0, 0));
}
