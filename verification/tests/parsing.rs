use capture::presets;
use capture::region::{parse_crop_region, region_from_corners};
use capture::ScreenCapture;

#[test]
fn parse_comma_separated() {
    assert_eq!(parse_crop_region("10,20,300,400"), Some((10, 20, 300, 400)));
}

#[test]
fn parse_colon_separated() {
    assert_eq!(parse_crop_region("10:20:300:400"), Some((10, 20, 300, 400)));
}

#[test]
fn parse_space_separated() {
    assert_eq!(parse_crop_region("10 20 300 400"), Some((10, 20, 300, 400)));
}

#[test]
fn parse_rejects_zero_width() {
    assert_eq!(parse_crop_region("10,20,0,400"), None);
}

#[test]
fn parse_rejects_zero_height() {
    assert_eq!(parse_crop_region("10,20,300,0"), None);
}

#[test]
fn parse_rejects_negative_size() {
    assert_eq!(parse_crop_region("10,20,-300,400"), None);
}

#[test]
fn parse_rejects_three_fields() {
    assert_eq!(parse_crop_region("10,20,300"), None);
}

#[test]
fn parse_rejects_five_fields() {
    assert_eq!(parse_crop_region("1,2,3,4,5"), None);
}

#[test]
fn parse_rejects_empty_string() {
    assert_eq!(parse_crop_region(""), None);
}

#[test]
fn parse_accepts_negative_position() {
    assert_eq!(parse_crop_region("-5,-7,100,50"), Some((-5, -7, 100, 50)));
}

#[test]
fn parse_accepts_plus_sign() {
    assert_eq!(parse_crop_region("+5,+7,+100,+50"), Some((5, 7, 100, 50)));
}

#[test]
fn parse_drops_non_numeric_fields() {
    // A non-numeric field is dropped, not fatal: four numeric fields remain.
    assert_eq!(parse_crop_region("a,10,20,300,400"), Some((10, 20, 300, 400)));
}

#[test]
fn parse_drops_empty_fields() {
    assert_eq!(parse_crop_region("10,,20,300,400"), Some((10, 20, 300, 400)));
}

#[test]
fn parse_trims_field_whitespace() {
    assert_eq!(parse_crop_region("\t10,20,\t300,400\t"), Some((10, 20, 300, 400)));
}

#[test]
fn parse_trims_unicode_whitespace() {
    // Fields padded with non-ASCII whitespace (a no-break space, an
    // ideographic space) still parse: trimming follows the Unicode set.
    assert_eq!(
        parse_crop_region("\u{a0}10,20,\u{3000}300\u{3000},400\u{a0}"),
        Some((10, 20, 300, 400))
    );
}

#[test]
fn parse_mixed_separators() {
    assert_eq!(parse_crop_region("10,20:300 400"), Some((10, 20, 300, 400)));
}

#[test]
fn parse_drops_overflowing_field() {
    // The first field exceeds the 32-bit range, leaving three fields.
    assert_eq!(parse_crop_region("99999999999,0,10,10"), None);
}

#[test]
fn parse_accepts_extreme_values() {
    assert_eq!(
        parse_crop_region("-2147483648,2147483647,2147483647,1"),
        Some((-2147483648, 2147483647, 2147483647, 1))
    );
}

#[test]
fn parse_rejects_barely_overflowing_value() {
    assert_eq!(parse_crop_region("2147483648,0,10,10"), None);
}

#[test]
fn parse_method_and_free_function_agree() {
    let s = "607,23,690,1007";
    assert_eq!(ScreenCapture::parse_crop_region(s), Some((607, 23, 690, 1007)));
    assert_eq!(presets::parse_crop_region(s), Some((607, 23, 690, 1007)));
}

#[test]
fn corners_give_rectangle() {
    assert_eq!(region_from_corners(10, 20, 110, 220), Some((10, 20, 100, 200)));
}

#[test]
fn corners_order_does_not_matter() {
    assert_eq!(region_from_corners(110, 220, 10, 20), Some((10, 20, 100, 200)));
}

#[test]
fn corners_on_same_column_rejected() {
    assert_eq!(region_from_corners(10, 20, 10, 220), None);
}

#[test]
fn corners_on_same_row_rejected() {
    assert_eq!(region_from_corners(10, 20, 110, 20), None);
}

#[test]
fn resolve_prefers_explicit_crop() {
    let engine = ScreenCapture::new();
    let r = engine.resolve_region(Some("1,2,30,40"), true, Some((9, 9, 9, 9)));
    assert_eq!(r, Some((1, 2, 30, 40)));
}

#[test]
fn resolve_degrades_malformed_crop_to_full() {
    let engine = ScreenCapture::new();
    let r = engine.resolve_region(Some("not a rectangle"), true, Some((9, 9, 9, 9)));
    assert_eq!(r, None);
}

#[test]
fn resolve_uses_window_bounds_when_asked() {
    let engine = ScreenCapture::new();
    let r = engine.resolve_region(None, true, Some((5, 6, 70, 80)));
    assert_eq!(r, Some((5, 6, 70, 80)));
}

#[test]
fn resolve_degrades_unknown_window_to_full() {
    let engine = ScreenCapture::new();
    assert_eq!(engine.resolve_region(None, true, None), None);
}

#[test]
fn resolve_defaults_to_full_screen() {
    let engine = ScreenCapture::new();
    assert_eq!(engine.resolve_region(None, false, Some((9, 9, 9, 9))), None);
}
