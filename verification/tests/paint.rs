use browser::paint::{build_display_list, line_height_for_font, parse_color, Color, DisplayCommand, LINE_HEIGHT};
use browser::style::LineHeight;
use browser::{html, layout, style};

#[test]
fn builds_fill_and_text_commands() {
    let document = html::parse(
        r#"
            <html>
              <head><style>.callout { background-color: beige; color: navy; }</style></head>
              <body><p class="callout">hello world</p></body>
            </html>
            "#,
    );
    let stylesheet = style::collect_stylesheets(&document);
    let styled = style::style_tree(&document, &stylesheet);
    let layout = layout::build(&styled, 200);
    let display_list = build_display_list(&layout);

    assert!(display_list.width >= 160);
    assert!(display_list.height >= 80);
    assert!(display_list
        .commands
        .iter()
        .any(|command| { matches!(command, DisplayCommand::FillRect { .. }) }));
    assert!(display_list.commands.iter().any(|command| {
        matches!(command, DisplayCommand::DrawText { text, .. } if text == "hello world")
    }));
}

#[test]
fn scales_metrics_with_font_size() {
    assert!(line_height_for_font(24, LineHeight::Normal) > LINE_HEIGHT);
    assert!(line_height_for_font(16, LineHeight::RelativePercent(170)) > LINE_HEIGHT);
}

#[test]
fn parses_named_and_hex_colors() {
    assert_eq!(parse_color("navy"), Color::rgb(27, 54, 93));
    assert_eq!(parse_color("#ff0000"), Color::rgb(255, 0, 0));
}

#[test]
fn paints_semantic_document_accents() {
    let document = html::parse(
        r#"
            <html>
              <body>
                <blockquote><p>quote</p></blockquote>
                <p>use <code>cargo run</code></p>
                <hr>
              </body>
            </html>
            "#,
    );
    let stylesheet = style::collect_stylesheets(&document);
    let styled = style::style_tree(&document, &stylesheet);
    let layout = layout::build(&styled, 320);
    let display_list = build_display_list(&layout);

    let fill_rects = display_list
        .commands
        .iter()
        .filter(|command| matches!(command, DisplayCommand::FillRect { .. }))
        .count();
    assert!(fill_rects >= 3);
    assert!(display_list.commands.iter().any(|command| {
        matches!(command, DisplayCommand::DrawText { text, .. } if text.contains("cargo run"))
    }));
}

#[test]
fn parses_color_edge_cases() {
    assert_eq!(parse_color("  GREY "), Color::rgb(130, 130, 130));
    assert_eq!(parse_color("#1A2b3C"), Color::rgb(26, 43, 60));
    assert_eq!(parse_color("#zz00ff"), Color::rgb(30, 0, 255));
    assert_eq!(parse_color("#fff"), Color::rgb(30, 30, 30));
    assert_eq!(parse_color("plum"), Color::rgb(30, 30, 30));
}

#[test]
fn exact_line_heights() {
    assert_eq!(line_height_for_font(16, LineHeight::Normal), 22);
    assert_eq!(line_height_for_font(10, LineHeight::Normal), 18);
    assert_eq!(line_height_for_font(16, LineHeight::RelativePercent(170)), 27);
    assert_eq!(line_height_for_font(16, LineHeight::Px(5)), 18);
    assert_eq!(line_height_for_font(16, LineHeight::Px(40)), 40);
}

#[test]
fn link_regions_follow_linked_text() {
    let document = html::parse(r#"<p>see <a href="/next">next page</a></p>"#);
    let stylesheet = style::collect_stylesheets(&document);
    let styled = style::style_tree(&document, &stylesheet);
    let layout = layout::build(&styled, 400);
    let display_list = build_display_list(&layout);
    assert_eq!(display_list.link_regions.len(), 1);
    assert_eq!(display_list.link_regions[0].target, "/next");
    assert_eq!(display_list.background, Color::rgb(250, 248, 242));
}
