use browser::viewport::{
    apply_scroll_delta, chrome_height, clamp_scroll, compute_content_origin_x,
    content_viewport_height_for, scaled, top_margin,
};

#[test]
fn clamps_scroll_to_content_height() {
    assert_eq!(clamp_scroll(10, 200, 300), 0);
    assert_eq!(clamp_scroll(500, 800, 300), 500);
    assert_eq!(clamp_scroll(900, 800, 300), 500);
}

#[test]
fn applies_scroll_delta_with_bounds() {
    assert_eq!(apply_scroll_delta(0, 40, 1000, 200), 40);
    assert_eq!(apply_scroll_delta(10, -40, 1000, 200), 0);
    assert_eq!(apply_scroll_delta(900, 100, 1000, 200), 800);
}

#[test]
fn scrolling_by_extreme_deltas_saturates() {
    assert_eq!(apply_scroll_delta(5, i32::MIN, 1000, 200), 0);
    assert_eq!(apply_scroll_delta(u32::MAX - 1, i32::MAX, u32::MAX, 0), u32::MAX);
    assert_eq!(clamp_scroll(u32::MAX, 1000, 200), 800);
}

#[test]
fn chrome_metrics_scale_and_saturate() {
    assert_eq!(chrome_height(1), 72);
    assert_eq!(chrome_height(2), 144);
    assert_eq!(chrome_height(0), 72);
    assert_eq!(top_margin(3), 36);
    assert_eq!(scaled(u32::MAX, 2), u32::MAX);
}

#[test]
fn content_viewport_height_leaves_room_for_chrome() {
    assert_eq!(content_viewport_height_for(720, 1), 720 - 72 - 24);
    assert_eq!(content_viewport_height_for(720, 2), (720 - 144 - 48) / 2);
    assert_eq!(content_viewport_height_for(50, 1), 1);
    assert_eq!(compute_content_origin_x(960, 400), 32);
    assert_eq!(compute_content_origin_x(10, 400), 9);
    assert_eq!(compute_content_origin_x(0, 400), 0);
}
