use browser::dom::NodeType;
use browser::html::{parse, tokenize, Token};

#[test]
fn parses_nested_elements() {
    let document = parse("<html><body><h1>Hello</h1><p>world</p></body></html>");
    assert_eq!(document.children.len(), 1);
    assert!(matches!(
        &document.children[0].node_type,
        NodeType::Element(data) if data.tag_name == "html"
    ));
    assert!(matches!(
        &document.children[0].children[0].node_type,
        NodeType::Element(data) if data.tag_name == "body"
    ));

    let h1 = &document.children[0].children[0].children[0];
    assert!(matches!(
        &h1.node_type,
        NodeType::Element(data) if data.tag_name == "h1"
    ));
    assert!(matches!(h1.children[0].node_type, NodeType::Text(_)));
}

#[test]
fn parses_attributes() {
    let document = parse(r#"<div id="main" class="hero card" hidden>hello</div>"#);
    let NodeType::Element(data) = &document.children[0].node_type else {
        panic!("expected element");
    };
    assert_eq!(data.tag_name, "div");
    assert_eq!(
        data.attributes,
        vec![
            ("id".to_string(), "main".to_string()),
            ("class".to_string(), "hero card".to_string()),
            ("hidden".to_string(), String::new()),
        ]
    );
}

#[test]
fn tokenizes_void_comments_and_whitespace() {
    let tokens = tokenize("<!DOCTYPE html>\n<P Class='x'>a \n  b<BR/><img src=pic.png></p>  ");
    assert_eq!(
        tokens,
        vec![
            Token::OpenTag {
                name: "p".to_string(),
                attributes: vec![("class".to_string(), "x".to_string())],
            },
            Token::Text("a b".to_string()),
            Token::OpenTag { name: "br".to_string(), attributes: vec![] },
            Token::CloseTag("br".to_string()),
            Token::OpenTag {
                name: "img".to_string(),
                attributes: vec![("src".to_string(), "pic.png".to_string())],
            },
            Token::CloseTag("img".to_string()),
            Token::CloseTag("p".to_string()),
        ]
    );
}

#[test]
fn closes_unclosed_elements_at_parent_end() {
    let document = parse("<div><p>one<p>two</div>after");
    assert_eq!(document.children.len(), 2);
    let div = &document.children[0];
    assert_eq!(div.children.len(), 1);
    assert_eq!(div.children[0].children.len(), 2);
    assert!(matches!(&document.children[1].node_type, NodeType::Text(t) if t == "after"));
}

#[test]
fn keeps_unterminated_tag_text_as_tag() {
    let document = parse("text <b");
    assert_eq!(document.children.len(), 2);
    assert!(matches!(&document.children[0].node_type, NodeType::Text(t) if t == "text"));
    assert!(matches!(&document.children[1].node_type, NodeType::Element(e) if e.tag_name == "b"));
}

#[test]
fn plain_text_becomes_one_text_node() {
    let document = parse("  hello \n  world ");
    assert!(matches!(document.node_type, NodeType::Document));
    assert_eq!(document.children.len(), 1);
    assert_eq!(document.children[0].node_type, NodeType::Text("hello world".to_string()));
    assert!(document.children[0].children.is_empty());

    let blank = parse(" \t\n ");
    assert!(blank.children.is_empty());
}

fn assert_clean(node: &browser::dom::Node) {
    match &node.node_type {
        NodeType::Document => panic!("a document below the root"),
        NodeType::Text(t) => {
            assert!(node.children.is_empty());
            assert!(!t.is_empty());
            assert_eq!(*t, t.split_whitespace().collect::<Vec<_>>().join(" "));
        }
        NodeType::Element(data) => {
            let clean = |n: &str| !n.is_empty() && !n.chars().any(char::is_whitespace) && n == n.to_ascii_lowercase();
            assert!(clean(&data.tag_name));
            assert!(data.attributes.iter().all(|(k, _)| clean(k)));
            if ["br", "hr", "img", "meta", "link", "input"].contains(&data.tag_name.as_str()) {
                assert!(node.children.is_empty());
            }
        }
    }
    for child in &node.children {
        assert_clean(child);
    }
}

#[test]
fn parsed_trees_are_clean() {
    let document = parse("<DIV Class=x  ID='a'>  Hi\n  there <BR>after</br><img SRC=a.png>text</img><P/>  <  >< !x><p>x</P></DIV>  tail  ");
    assert!(matches!(document.node_type, NodeType::Document));
    assert!(!document.children.is_empty());
    for child in &document.children {
        assert_clean(child);
    }
}

#[test]
fn parser_reads_from_its_current_token() {
    let tokens = tokenize("<p>a</p><b>c</b>");
    let mut parser = browser::html::Parser::new(tokens.clone());
    parser.pos = 3;
    let document = parser.parse_document();
    assert_eq!(document.children.len(), 1);
    assert!(matches!(&document.children[0].node_type, NodeType::Element(data) if data.tag_name == "b"));

    let mut past_end = browser::html::Parser::new(tokens);
    past_end.pos = 99;
    assert!(past_end.parse_nodes(None).is_empty());
    assert_eq!(past_end.pos, 99);
}
