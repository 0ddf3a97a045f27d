use browser::dom::Node;
use browser::layout::build;
use browser::renderer::render;
use browser::style;

#[test]
fn renders_basic_structure() {
    let doc = Node::document(vec![Node::element(
        "p".to_string(),
        vec![Node::text("hello world".to_string())],
    )]);
    let stylesheet = style::collect_stylesheets(&doc);
    let styled = style::style_tree(&doc, &stylesheet);
    let rendered = render(&build(&styled, 200));
    assert!(rendered.contains("<p>"));
    assert!(rendered.contains("hello world"));
}

#[test]
fn renders_style_annotations() {
    let doc = browser::html::parse(
        r#"<html><head><style>p { color: red; font-weight: bold; }</style></head><body><p>hello</p></body></html>"#,
    );
    let stylesheet = style::collect_stylesheets(&doc);
    let styled = style::style_tree(&doc, &stylesheet);
    let rendered = render(&build(&styled, 200));
    assert!(rendered.contains("<p color=red weight=bold>"));
}

#[test]
fn renders_exact_indentation() {
    let doc = browser::html::parse("<div><p>hi</p></div>");
    let stylesheet = style::collect_stylesheets(&doc);
    let styled = style::style_tree(&doc, &stylesheet);
    let rendered = render(&build(&styled, 200));
    assert_eq!(rendered, "<div>\n  <p>\n  hi");
}
