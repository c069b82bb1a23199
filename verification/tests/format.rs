use biliass::writer::utils::{ass_escape, convert_color, convert_timestamp, get_zoom_factor};
use biliass::writer::ass::write_head;

#[test]
fn timestamp_zero() {
    assert_eq!(convert_timestamp(0), "0:00:00.00");
}

#[test]
fn timestamp_hour_minute_second() {
    // 3661 seconds
    assert_eq!(convert_timestamp(3661000), "1:01:01.00");
}

#[test]
fn timestamp_negative_clamps_to_zero() {
    assert_eq!(convert_timestamp(-5000), "0:00:00.00");
}

#[test]
fn timestamp_rounds_half_up() {
    assert_eq!(convert_timestamp(1004), "0:00:01.00");
    // 1.005 s rounds half up to 1.01
    assert_eq!(convert_timestamp(1005), "0:00:01.01");
}

#[test]
fn escape_backslash_braces_newline() {
    assert_eq!(ass_escape("a\\b{c}\nd"), "a\\\\b\\{c\\}\\Nd");
}

#[test]
fn escape_keeps_edge_blanks_visible() {
    assert_eq!(ass_escape(" x "), "\u{2007}x\u{2007}");
    assert_eq!(ass_escape("inner  space"), "inner  space");
}

#[test]
fn color_pure_black_and_white_are_fixed() {
    assert_eq!(convert_color(0x000000, None, None), "000000");
    assert_eq!(convert_color(0xFFFFFF, None, None), "FFFFFF");
}

#[test]
fn color_small_stage_swaps_channels() {
    assert_eq!(convert_color(0xFF0000, Some(640), Some(480)), "0000FF");
}

#[test]
fn color_large_stage_applies_matrix() {
    // differs from the plain channel swap "0000FF"
    assert_eq!(convert_color(0xFF0000, None, None), "0200E9");
}

#[test]
fn zoom_factor_is_deterministic() {
    let a = get_zoom_factor((891, 589), (1920, 1080));
    let b = get_zoom_factor((891, 589), (1920, 1080));
    assert_eq!(a, b);
}

#[test]
fn zoom_factor_narrower_target_letterboxes() {
    let z = get_zoom_factor((891, 589), (500, 1000));
    assert_eq!(z.scale_num, 500);
    assert_eq!(z.scale_den, 891);
    assert_eq!(z.offset_x_cp, 0);
    // (1000*891 - 500*589) * 50 / 891
    assert_eq!(z.offset_y_cp, 596500u64 * 50 / 891);
}

#[test]
fn zoom_factor_wider_target_pillarboxes() {
    let z = get_zoom_factor((891, 589), (2000, 500));
    assert_eq!(z.scale_num, 500);
    assert_eq!(z.scale_den, 589);
    assert_eq!(z.offset_y_cp, 0);
    assert!(z.offset_x_cp > 0);
}

#[test]
fn zoom_factor_equal_aspect_has_no_offset() {
    let z = get_zoom_factor((891, 589), (1782, 1178));
    assert_eq!(z.scale_num, 1782);
    assert_eq!(z.scale_den, 891);
    assert_eq!(z.offset_x_cp, 0);
    assert_eq!(z.offset_y_cp, 0);
}

#[test]
fn head_contains_canvas_and_style() {
    let head = write_head(1920, 1080, "sans-serif", 25, 800, "biliass");
    assert!(head.starts_with("[Script Info]"));
    assert!(head.contains("PlayResX: 1920"));
    assert!(head.contains("PlayResY: 1080"));
    // alpha byte: 255 - round(0.8 * 255) = 255 - 204 = 51 = 0x33
    assert!(head.contains("&H33FFFFFF"));
    assert!(head.contains("Style: biliass, sans-serif, 25,"));
}
