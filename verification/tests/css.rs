use browser::css::parse;

#[test]
fn parses_simple_rules() {
    let stylesheet = parse(
        "
            h1, .hero { color: blue; font-weight: bold; }
            #main { display: none; }
            ",
    );

    assert_eq!(stylesheet.rules.len(), 2);
    assert_eq!(stylesheet.rules[0].selectors.len(), 2);
    assert_eq!(stylesheet.rules[0].declarations[0].name, "color");
    assert_eq!(stylesheet.rules[1].selectors[0].id.as_deref(), Some("main"));
}

#[test]
fn reads_compound_selectors_and_skips_malformed_entries() {
    let stylesheet = parse("DIV#Top.a.b span { COLOR : Red ; junk ; : x; y: ; } p {} em { x: 1 }");
    assert_eq!(stylesheet.rules.len(), 2);
    let selector = &stylesheet.rules[0].selectors[0];
    assert_eq!(selector.tag_name.as_deref(), Some("div"));
    assert_eq!(selector.id.as_deref(), Some("top"));
    assert_eq!(selector.classes, vec!["a".to_string(), "b".to_string()]);
    assert_eq!(stylesheet.rules[0].declarations.len(), 1);
    assert_eq!(stylesheet.rules[0].declarations[0].name, "color");
    assert_eq!(stylesheet.rules[0].declarations[0].value, "Red");
    assert_eq!(stylesheet.rules[1].selectors[0].tag_name.as_deref(), Some("em"));
}

#[test]
fn ignores_text_without_braces() {
    assert!(parse("").rules.is_empty());
    assert!(parse("no rules here").rules.is_empty());
    assert!(parse(" , { color: red }").rules.is_empty());
}

#[test]
fn parsed_rules_are_clean() {
    let sheet = parse("  H1.Big#Top , , .x.Y { COLOR : Red ; : x ; margin: ; Padding:1px } p{} {color:red} EM { Font-Weight: bold; }");
    assert_eq!(sheet.rules.len(), 2);
    for rule in &sheet.rules {
        assert!(!rule.selectors.is_empty());
        assert!(!rule.declarations.is_empty());
        for sel in &rule.selectors {
            assert!(sel.tag_name.is_some() || sel.id.is_some() || !sel.classes.is_empty());
            let names = sel.tag_name.iter().chain(sel.id.iter()).chain(sel.classes.iter());
            for n in names {
                assert!(!n.is_empty());
                assert_eq!(*n, n.to_ascii_lowercase());
                assert!(!n.chars().any(|c| c.is_whitespace() || c == '.' || c == '#'));
            }
        }
        for d in &rule.declarations {
            assert!(!d.name.is_empty() && d.name == d.name.trim() && d.name == d.name.to_ascii_lowercase());
            assert!(!d.name.contains(':'));
            assert!(!d.value.is_empty() && d.value == d.value.trim());
        }
    }
    assert_eq!(sheet.rules[0].declarations[0].name, "color");
    assert_eq!(sheet.rules[0].declarations[0].value, "Red");
    assert_eq!(sheet.rules[1].selectors[0].tag_name.as_deref(), Some("em"));
}
