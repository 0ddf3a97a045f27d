use browser::chrome::{address_display_text, address_text_origin, toolbar_plan, ChromeOp};
use browser::paint::Color;

#[test]
fn toolbar_of_an_unfocused_window() {
    let ops = toolbar_plan(960, 1, false, None, None, Some("Ready"));
    assert_eq!(
        ops,
        vec![
            ChromeOp::Fill { x: 0, y: 0, width: 960, height: 72, color: Color::rgb(232, 228, 220) },
            ChromeOp::Fill { x: 12, y: 12, width: 936, height: 32, color: Color::rgb(246, 243, 236) },
            ChromeOp::AddressText { color: Color::rgb(32, 35, 40), font_size: 17 },
            ChromeOp::Text { x: 20, y: 52, text: "Ready".to_string(), color: Color::rgb(96, 100, 110), font_size: 13 },
        ]
    );
}

#[test]
fn toolbar_with_selection_and_caret_at_double_scale() {
    let ops = toolbar_plan(1920, 2, true, Some((100, 101)), Some(150), None);
    assert_eq!(
        ops,
        vec![
            ChromeOp::Fill { x: 0, y: 0, width: 1920, height: 144, color: Color::rgb(232, 228, 220) },
            ChromeOp::Fill { x: 24, y: 24, width: 1872, height: 64, color: Color::rgb(255, 255, 255) },
            ChromeOp::Fill { x: 100, y: 28, width: 2, height: 56, color: Color::rgb(205, 222, 246) },
            ChromeOp::AddressText { color: Color::rgb(32, 35, 40), font_size: 34 },
            ChromeOp::Fill { x: 150, y: 32, width: 2, height: 48, color: Color::rgb(46, 50, 56) },
        ]
    );
}

#[test]
fn selection_running_backwards_keeps_its_least_width() {
    let ops = toolbar_plan(400, 3, true, Some((90, 40)), None, None);
    assert_eq!(
        ops[2],
        ChromeOp::Fill { x: 90, y: 42, width: 3, height: 84, color: Color::rgb(205, 222, 246) }
    );
    let ops = toolbar_plan(400, 1, true, Some((i32::MAX, i32::MIN)), None, None);
    assert_eq!(
        ops[2],
        ChromeOp::Fill { x: i32::MAX, y: 14, width: 1, height: 28, color: Color::rgb(205, 222, 246) }
    );
}

#[test]
fn narrow_window_keeps_an_empty_address_bar() {
    let ops = toolbar_plan(10, 1, false, None, None, None);
    assert_eq!(ops[1], ChromeOp::Fill { x: 12, y: 12, width: 0, height: 32, color: Color::rgb(246, 243, 236) });
}

#[test]
fn address_bar_text_and_origin() {
    assert_eq!(address_display_text("example.com", "", true), "> example.com");
    assert_eq!(address_display_text("example.com", "ä", false), "example.comä");
    assert_eq!(address_text_origin(1), (20, 20));
    assert_eq!(address_text_origin(2), (40, 40));
}

#[test]
fn toolbar_scale_limit() {
    assert!(browser::chrome::toolbar_fits_at(82_595_524));
    assert!(!browser::chrome::toolbar_fits_at(82_595_525));
}
