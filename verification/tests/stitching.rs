use capture::errors::CaptureError;
use capture::raster::Raster;
use capture::ScreenCapture;

// Pixel of a tall virtual document at column x, absolute row yy.
fn doc_pixel(x: u32, yy: u32) -> (u8, u8, u8, u8) {
    ((x % 256) as u8, (yy % 256) as u8, ((yy / 2) % 256) as u8, 255)
}

// The window of the virtual document covering rows [top, top + h).
fn doc_window(w: u32, h: u32, top: u32) -> Raster {
    let mut data = Vec::new();
    for y in 0..h {
        for x in 0..w {
            let (r, g, b, a) = doc_pixel(x, top + y);
            data.extend_from_slice(&[r, g, b, a]);
        }
    }
    Raster::from_bytes(w, h, data).unwrap()
}

fn plain_raster(w: u32, h: u32, value: u8) -> Raster {
    Raster::from_bytes(w, h, vec![value; (w * h * 4) as usize]).unwrap()
}

#[test]
fn stitch_of_nothing_is_unit_placeholder() {
    let engine = ScreenCapture::new();
    let out = engine.stitch_images(Vec::new(), 10).unwrap();
    assert_eq!(out.width(), 1);
    assert_eq!(out.height(), 1);
    assert_eq!(out.bytes().as_slice(), &[0, 0, 0, 0]);
}

#[test]
fn stitch_of_one_frame_returns_it_unchanged() {
    let engine = ScreenCapture::new();
    let f = doc_window(13, 20, 0);
    let out = engine.stitch_images(vec![f.dup()], 7).unwrap();
    assert_eq!(out.width(), f.width());
    assert_eq!(out.height(), f.height());
    assert_eq!(out.bytes(), f.bytes());
}

#[test]
fn stitch_of_one_frame_ignores_overlap_value() {
    // A lone frame comes back unchanged even for an overlap taller than the
    // frame: there is no seam to cut.
    let engine = ScreenCapture::new();
    let f = plain_raster(5, 6, 77);
    for overlap in [0u32, 1, 3, 6, 7, 100] {
        let out = engine.stitch_images(vec![f.dup()], overlap).unwrap();
        assert_eq!(out.height(), 6);
        assert_eq!(out.bytes(), f.bytes());
    }
}

#[test]
fn stitch_height_follows_formula() {
    let engine = ScreenCapture::new();
    // 4 frames of height 20 with overlap 6: 20 + 3 * 14 = 62.
    let frames = vec![
        doc_window(9, 20, 0),
        doc_window(9, 20, 14),
        doc_window(9, 20, 28),
        doc_window(9, 20, 42),
    ];
    let out = engine.stitch_images(frames, 6).unwrap();
    assert_eq!(out.width(), 9);
    assert_eq!(out.height(), 62);
}

#[test]
fn stitch_with_zero_overlap_concatenates() {
    let engine = ScreenCapture::new();
    let frames = vec![doc_window(4, 3, 0), doc_window(4, 3, 3)];
    let out = engine.stitch_images(frames, 0).unwrap();
    assert_eq!(out.height(), 6);
    for yy in 0..6u32 {
        for x in 0..4u32 {
            assert_eq!(out.get_pixel(x, yy), doc_pixel(x, yy));
        }
    }
}

#[test]
fn stitch_rejects_mismatched_widths() {
    let engine = ScreenCapture::new();
    let frames = vec![plain_raster(4, 6, 1), plain_raster(5, 6, 1)];
    assert!(matches!(engine.stitch_images(frames, 2), Err(CaptureError::FrameSizeMismatch)));
}

#[test]
fn stitch_rejects_mismatched_heights() {
    let engine = ScreenCapture::new();
    let frames = vec![plain_raster(4, 6, 1), plain_raster(4, 7, 1)];
    assert!(matches!(engine.stitch_images(frames, 2), Err(CaptureError::FrameSizeMismatch)));
}

#[test]
fn stitch_cuts_seam_at_overlap_midpoint() {
    // Two single-column frames of height 4 with overlap 2. The second frame
    // lands at offset 2; the overlap band is output rows 2 and 3. The first
    // frame keeps the top half of the band (row 2), the second supplies the
    // bottom half (row 3), even though their band contents disagree.
    let engine = ScreenCapture::new();
    let a = Raster::from_bytes(
        1,
        4,
        vec![10, 10, 10, 10, 11, 11, 11, 11, 12, 12, 12, 12, 13, 13, 13, 13],
    )
    .unwrap();
    let b = Raster::from_bytes(
        1,
        4,
        vec![20, 20, 20, 20, 21, 21, 21, 21, 22, 22, 22, 22, 23, 23, 23, 23],
    )
    .unwrap();
    let out = engine.stitch_images(vec![a, b], 2).unwrap();
    assert_eq!(out.height(), 6);
    assert_eq!(out.get_pixel(0, 0), (10, 10, 10, 10));
    assert_eq!(out.get_pixel(0, 1), (11, 11, 11, 11));
    // Top half of the seam band: previous frame's content stays.
    assert_eq!(out.get_pixel(0, 2), (12, 12, 12, 12));
    // Bottom half of the seam band: the new frame wins.
    assert_eq!(out.get_pixel(0, 3), (21, 21, 21, 21));
    assert_eq!(out.get_pixel(0, 4), (22, 22, 22, 22));
    assert_eq!(out.get_pixel(0, 5), (23, 23, 23, 23));
}

#[test]
fn scroll_scenario_three_captures() {
    // Three captures of 100 x 200 with overlap 50, each subsequent frame's
    // top 50 rows exactly the previous frame's bottom 50 rows.
    let engine = ScreenCapture::new();
    let f1 = doc_window(100, 200, 0);
    let f2 = doc_window(100, 200, 150);
    let f3 = doc_window(100, 200, 300);

    // Full-frame identity on frames 2 and 3 fails: content differs.
    assert!(!engine.images_are_identical(&f2, &f3));
    // Overlap-similarity on the same pair holds exactly.
    let sim = engine.images_are_similar(&f2, &f3, 50, 0, 1);
    assert!(sim.similar);
    assert_eq!(sim.diff_permyriad, 0);

    let out = engine.stitch_images(vec![f1, f2, f3], 50).unwrap();
    assert_eq!(out.height(), 200 + 2 * 150);
    assert_eq!(out.width(), 100);
    // Aligned seams reproduce the document exactly.
    for yy in (0..500u32).step_by(7) {
        for x in (0..100u32).step_by(13) {
            assert_eq!(out.get_pixel(x, yy), doc_pixel(x, yy));
        }
    }
}
