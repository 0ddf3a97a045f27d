use browser::dom::Node;
use browser::layout::{
    approximate_text_width, build, build_with_measurer, wrap_fragments, LayoutFragment, LayoutKind,
    MonospaceTextMeasurer, TextMeasurer,
};
use browser::style::{self, Display, FontWeight, LineHeight};

struct FixedWidthTextMeasurer;

impl TextMeasurer for FixedWidthTextMeasurer {
    fn measure_text(&self, text: &str, _font_size: usize, _font_weight: FontWeight) -> usize {
        text.chars().count()
    }
}

fn plain(text: &str) -> LayoutFragment {
    LayoutFragment {
        text: text.to_string(),
        width: 0,
        color: "default".to_string(),
        font_weight: FontWeight::Normal,
        underline: false,
        font_size: 16,
        line_height: LineHeight::Normal,
        href: None,
        background_color: None,
    }
}

#[test]
fn wraps_text_to_requested_width() {
    let fragments = vec![plain("alpha beta gamma")];
    let lines = wrap_fragments(&fragments, 10, &FixedWidthTextMeasurer);
    assert_eq!(lines[0].fragments[0].text, "alpha beta");
    assert_eq!(lines[1].fragments[0].text, "gamma");
}

#[test]
fn measures_wide_glyphs_larger_than_narrow_glyphs() {
    assert!(
        approximate_text_width("WWW", 16, FontWeight::Normal)
            > approximate_text_width("iii", 16, FontWeight::Normal)
    );
}

#[test]
fn keeps_inline_links_in_same_paragraph() {
    let document = browser::html::parse(r#"<p>Hello <a href="https://example.com">world</a></p>"#);
    let stylesheet = style::collect_stylesheets(&document);
    let styled = style::style_tree(&document, &stylesheet);
    let layout = build_with_measurer(&styled, 240, &MonospaceTextMeasurer);
    assert_eq!(layout.children[0].lines.len(), 1);
    assert_eq!(layout.children[0].lines[0].fragments.len(), 2);
    assert_eq!(
        layout.children[0].lines[0].fragments[1].href.as_deref(),
        Some("https://example.com")
    );
}

#[test]
fn keeps_inline_strong_text_in_same_paragraph_flow() {
    let document = browser::html::parse(r#"<p>We <strong>keep bold text</strong> inline.</p>"#);
    let stylesheet = style::collect_stylesheets(&document);
    let styled = style::style_tree(&document, &stylesheet);
    let layout = build_with_measurer(&styled, 240, &MonospaceTextMeasurer);

    assert_eq!(layout.children[0].children.len(), 0);
    assert_eq!(layout.children[0].lines.len(), 1);
    assert_eq!(layout.children[0].lines[0].fragments.len(), 3);
    assert_eq!(layout.children[0].lines[0].fragments[1].font_weight, FontWeight::Bold);
    assert_eq!(layout.children[0].lines[0].fragments[1].text, "keep bold text");
}

#[test]
fn breaks_lines_on_br_elements() {
    let document = browser::html::parse(r#"<p>hello<br>world</p>"#);
    let stylesheet = style::collect_stylesheets(&document);
    let styled = style::style_tree(&document, &stylesheet);
    let layout = build_with_measurer(&styled, 240, &MonospaceTextMeasurer);
    assert_eq!(layout.children[0].lines.len(), 2);
    assert_eq!(layout.children[0].lines[0].fragments[0].text, "hello");
    assert_eq!(layout.children[0].lines[1].fragments[0].text, "world");
}

#[test]
fn skips_display_none_nodes() {
    let document = Node::document(vec![Node::element_with_attrs(
        "div".to_string(),
        vec![("hidden".to_string(), String::new())],
        vec![Node::text("secret".to_string())],
    )]);
    let stylesheet = style::collect_stylesheets(&document);
    let styled = style::style_tree(&document, &stylesheet);
    assert_eq!(styled.children[0].style.display, Display::Hidden);

    let layout = build(&styled, 40);
    assert!(matches!(layout.kind, LayoutKind::Document));
    assert!(layout.children.is_empty());
}

#[test]
fn breaks_words_wider_than_the_line() {
    let fragments = vec![plain("ab abcdefgh c")];
    let lines = wrap_fragments(&fragments, 3, &FixedWidthTextMeasurer);
    let texts: Vec<&str> = lines.iter().map(|line| line.text.as_str()).collect();
    assert_eq!(texts, vec!["ab", "abc", "def", "gh", "c"]);
    assert!(lines.iter().all(|line| line.width <= 3));
}

#[test]
fn empty_line_for_leading_break_and_zero_width_limit() {
    let fragments = vec![plain("\n"), plain("x y")];
    let lines = wrap_fragments(&fragments, 0, &FixedWidthTextMeasurer);
    assert_eq!(lines.len(), 3);
    assert!(lines[0].fragments.is_empty());
    assert_eq!(lines[0].height, 22);
    assert_eq!(lines[1].text, "x");
    assert_eq!(lines[2].text, "y");
}
