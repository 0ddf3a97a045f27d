use browser::dom::{Node, NodeType};
use browser::style::{
    collect_stylesheets, parse_edge_sizes, parse_font_size, parse_length_px, parse_line_height,
    style_tree, Display, EdgeSizes, FontWeight, LineHeight,
};

#[test]
fn extracts_styles_from_style_tag() {
    let document = Node::document(vec![Node::element(
        "style".to_string(),
        vec![Node::text("p { color: tomato; }".to_string())],
    )]);

    let stylesheet = collect_stylesheets(&document);
    assert_eq!(stylesheet.rules.len(), 1);
    assert_eq!(stylesheet.rules[0].declarations[0].value, "tomato");
}

#[test]
fn applies_basic_styles() {
    let document = browser::html::parse(
        r#"
            <html>
              <head>
                <style>
                  #hero { color: blue; }
                  .accent { background-color: yellow; }
                  p { width: 12px; font-size: 20px; line-height: 1.7; margin: 10px 4px; padding: 6px; }
                </style>
              </head>
              <body>
                <p id="hero" class="accent">hello</p>
              </body>
            </html>
            "#,
    );

    let stylesheet = collect_stylesheets(&document);
    let styled = style_tree(&document, &stylesheet);
    let NodeType::Element(body) = &styled.children[0].children[1].node_type else {
        panic!("expected body");
    };
    assert_eq!(body.tag_name, "body");

    let paragraph = &styled.children[0].children[1].children[0];
    assert_eq!(paragraph.style.color, "blue");
    assert_eq!(paragraph.style.background_color.as_deref(), Some("yellow"));
    assert_eq!(paragraph.style.width, Some(12));
    assert_eq!(paragraph.style.font_size, 20);
    assert_eq!(paragraph.style.line_height, LineHeight::RelativePercent(170));
    assert_eq!(
        paragraph.style.margin,
        EdgeSizes {
            top: 10,
            right: 4,
            bottom: 10,
            left: 4,
        }
    );
    assert_eq!(paragraph.style.padding, EdgeSizes::uniform(6));
}

#[test]
fn hides_style_and_hidden_elements() {
    let document = browser::html::parse(
        r#"<html><body><style>p { color: red; }</style><p hidden>secret</p></body></html>"#,
    );

    let stylesheet = collect_stylesheets(&document);
    let styled = style_tree(&document, &stylesheet);

    let style_node = &styled.children[0].children[0].children[0];
    assert_eq!(style_node.style.display, Display::Hidden);

    let hidden_paragraph = &styled.children[0].children[0].children[1];
    assert_eq!(hidden_paragraph.style.display, Display::Hidden);
    assert_eq!(hidden_paragraph.style.font_weight, FontWeight::Normal);
}

#[test]
fn later_rules_and_higher_specificity_win() {
    let document = browser::html::parse(
        r#"<style>p { color: red } .x { color: green } p { color: navy } #y { font-size: large } .x { font-size: 30px }</style><p id="y" class="x">t</p><p>u</p>"#,
    );
    let stylesheet = collect_stylesheets(&document);
    let styled = style_tree(&document, &stylesheet);
    assert_eq!(styled.children[1].style.color, "green");
    assert_eq!(styled.children[1].style.font_size, 20);
    assert_eq!(styled.children[2].style.color, "navy");
}

#[test]
fn parses_lengths_and_keywords() {
    assert_eq!(parse_length_px(" 12px "), Some(12));
    assert_eq!(parse_length_px("+7"), Some(7));
    assert_eq!(parse_length_px("px"), None);
    assert_eq!(parse_length_px("-3px"), None);
    assert_eq!(parse_font_size("X-Large"), Some(24));
    assert_eq!(parse_font_size("huge"), None);
    assert_eq!(parse_line_height("normal"), Some(LineHeight::Normal));
    assert_eq!(parse_line_height("24px"), Some(LineHeight::Px(24)));
    assert_eq!(parse_line_height("1.5"), Some(LineHeight::RelativePercent(150)));
    assert_eq!(parse_line_height("1.005"), Some(LineHeight::RelativePercent(101)));
    assert_eq!(parse_line_height(".25"), Some(LineHeight::RelativePercent(25)));
    assert_eq!(parse_line_height("0"), None);
    assert_eq!(parse_line_height("abc"), None);
    assert_eq!(parse_edge_sizes("1px 2px 3px"), Some(EdgeSizes { top: 1, right: 2, bottom: 3, left: 2 }));
    assert_eq!(parse_edge_sizes("1 2 3 4"), Some(EdgeSizes { top: 1, right: 2, bottom: 3, left: 4 }));
    assert_eq!(parse_edge_sizes("1 2 3 4 5"), None);
    assert_eq!(parse_edge_sizes("1 x"), None);
    assert_eq!(parse_edge_sizes(""), None);
}

#[test]
fn links_are_blue_and_underlined_by_default() {
    let document = browser::html::parse(r#"<a href="x">go</a><span style="">s</span>"#);
    let stylesheet = collect_stylesheets(&document);
    let styled = style_tree(&document, &stylesheet);
    assert_eq!(styled.children[0].style.color, "blue");
    assert!(styled.children[0].style.underline);
    assert_eq!(styled.children[0].style.display, Display::Inline);
    assert_eq!(styled.children[1].style.display, Display::Inline);
}

#[test]
fn line_heights_in_exponent_form() {
    let pct = |s: &str| parse_line_height(s);
    assert_eq!(pct("1e0"), Some(LineHeight::RelativePercent(100)));
    assert_eq!(pct("1.5E0"), Some(LineHeight::RelativePercent(150)));
    assert_eq!(pct("2.5e-1"), Some(LineHeight::RelativePercent(25)));
    assert_eq!(pct("+1e+1"), Some(LineHeight::RelativePercent(1000)));
    assert_eq!(pct("5."), Some(LineHeight::RelativePercent(500)));
    assert_eq!(pct("15e-1"), Some(LineHeight::RelativePercent(150)));
    assert_eq!(pct("1e"), None);
    assert_eq!(pct(".e1"), None);
    assert_eq!(pct("1e1.5"), None);
    assert_eq!(pct("-1"), None);
    assert_eq!(pct("inf"), None);
    assert_eq!(pct("NaN"), None);
    assert_eq!(pct("0e5"), None);
}

#[test]
fn line_heights_outside_the_f32_range() {
    let pct = |s: &str| parse_line_height(s);
    // Below 2^128 - 2^103 the number is a finite f32; from there on it is infinite.
    assert_eq!(pct("340282356779733661637539395458142568447"), Some(LineHeight::RelativePercent(usize::MAX)));
    assert_eq!(pct("340282356779733661637539395458142568448"), None);
    assert_eq!(pct("3.4028235e38"), Some(LineHeight::RelativePercent(usize::MAX)));
    assert_eq!(pct("1e39"), None);
    assert_eq!(pct("1e99999999999999999999999999999999999"), None);
    // At or below 2^-150 the number reads as zero.
    assert_eq!(pct("1e-45"), Some(LineHeight::RelativePercent(0)));
    assert_eq!(pct("1e-46"), None);
    assert_eq!(
        pct("7.00649232162408535461864791644958065640130970938257885878534141944895541342930300743319094181060791015625e-46"),
        None
    );
    assert_eq!(
        pct("7.006492321624085354618647916449580656401309709382578858785341419448955413429303007433190941810607910156251e-46"),
        Some(LineHeight::RelativePercent(0))
    );
    assert_eq!(pct("0.0000000000000000000000000000000000000000000007006492321624085354618647916449580656401309709382578858785341419448955413429303007433190941810607910156249"), None);
    assert_eq!(pct("1e-99999999999999999999999999999999999"), None);
}

#[test]
fn exponent_form_matches_f32_parsing_where_rounding_agrees() {
    for s in ["1e0", "1.5e0", "2.5e-1", "1.25e1", "3e2", "1e-2", "7e-3"] {
        let m: f32 = s.parse().unwrap();
        let expected = (m * 100.0).round() as usize;
        assert_eq!(parse_line_height(s), Some(LineHeight::RelativePercent(expected)), "{s}");
    }
}
