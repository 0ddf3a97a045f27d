use browser::layout::ApproximateTextMeasurer;
use browser::page::{build_page_display_list, layout_width};
use browser::paint::DisplayCommand;

#[test]
fn layout_width_leaves_room_for_margins() {
    assert_eq!(layout_width(960, 1), 960 - 92);
    assert_eq!(layout_width(400, 1), 420);
    assert_eq!(layout_width(2000, 2), (2000 - 92) / 2);
    assert_eq!(layout_width(960, 0), 868);
    assert_eq!(layout_width(960, 4), 217);
    assert_eq!(layout_width(960, 8), 180);
}

#[test]
fn builds_the_page_for_the_window() {
    let list = build_page_display_list(
        "<html><body><h1>Title</h1><p>Some text</p></body></html>",
        960,
        1,
        &ApproximateTextMeasurer,
    );
    let texts: Vec<String> = list
        .commands
        .iter()
        .filter_map(|c| match c {
            DisplayCommand::DrawText { text, .. } => Some(text.clone()),
            _ => None,
        })
        .collect();
    assert_eq!(texts, vec!["Title".to_string(), "Some text".to_string()]);
}
