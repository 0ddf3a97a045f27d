use browser::tabs::{
    is_internal_about_url, parse_js_string_result, record_history_for_tab,
    should_ignore_navigation_for_tab, status_text, tab_label, TabState,
};

fn example_tab(is_loading: bool) -> TabState {
    TabState {
        source: "https://example.com".to_string(),
        current_url: "https://example.com/".to_string(),
        title: "Example".to_string(),
        is_loading,
        history: vec!["https://example.com/".to_string()],
        history_index: 0,
    }
}

#[test]
fn ignores_stale_about_blank_events_for_non_blank_tabs() {
    let tab = example_tab(true);
    assert!(should_ignore_navigation_for_tab(&tab, "about:blank"));
    assert!(should_ignore_navigation_for_tab(&tab, "about:srcdoc"));
    assert!(!should_ignore_navigation_for_tab(
        &tab,
        "https://example.com/next"
    ));
    assert!(should_ignore_navigation_for_tab(
        &tab,
        "https://challenges.cloudflare.com/cdn-cgi/challenge-platform/h/g/turnstile/f/ov2/av0/rch/test/0x4AAAAA/auto/fbE/new/normal?lang=auto"
    ));
}

#[test]
fn parses_js_string_results() {
    assert_eq!(
        parse_js_string_result("\"https://example.com/path\""),
        Some("https://example.com/path".to_string())
    );
    assert_eq!(
        parse_js_string_result("\"https:\\/\\/example.com\\/a\\n\""),
        Some("https://example.com/a\n".to_string())
    );
    assert_eq!(parse_js_string_result("null"), None);
}

#[test]
fn records_tab_history_without_duplicates() {
    let mut tab = example_tab(false);

    record_history_for_tab(&mut tab, "https://example.com/");
    record_history_for_tab(&mut tab, "https://example.com/docs");
    record_history_for_tab(&mut tab, "https://example.com/docs");

    assert_eq!(
        tab.history,
        vec![
            "https://example.com/".to_string(),
            "https://example.com/docs".to_string()
        ]
    );
    assert_eq!(tab.history_index, 1);
}

#[test]
fn recording_after_going_back_drops_forward_entries() {
    let mut tab = example_tab(false);
    record_history_for_tab(&mut tab, "https://example.com/a");
    record_history_for_tab(&mut tab, "https://example.com/b");
    tab.history_index = 0;
    record_history_for_tab(&mut tab, "https://example.com/c");
    assert_eq!(
        tab.history,
        vec![
            "https://example.com/".to_string(),
            "https://example.com/c".to_string()
        ]
    );
    assert_eq!(tab.history_index, 1);
}

#[test]
fn blank_tabs_and_challenges_on_the_challenge_host_are_followed() {
    let mut tab = example_tab(true);
    tab.source = String::new();
    assert!(!should_ignore_navigation_for_tab(&tab, "about:blank"));
    tab.source = "x".to_string();
    tab.current_url = "about:blank".to_string();
    assert!(!should_ignore_navigation_for_tab(&tab, "about:srcdoc#1"));
    tab.current_url = "https://challenges.cloudflare.com/x".to_string();
    assert!(!should_ignore_navigation_for_tab(
        &tab,
        "https://challenges.cloudflare.com/cdn-cgi/challenge-platform/h"
    ));
    assert!(!should_ignore_navigation_for_tab(&tab, "not a url"));
    assert!(is_internal_about_url("about:srcdoc"));
    assert!(!is_internal_about_url("about:blanket"));
}

#[test]
fn decodes_every_escape_form() {
    assert_eq!(parse_js_string_result("  "), None);
    assert_eq!(parse_js_string_result(" undefined "), None);
    assert_eq!(parse_js_string_result("42"), Some("42".to_string()));
    assert_eq!(parse_js_string_result("\""), Some("\"".to_string()));
    assert_eq!(parse_js_string_result("\"\""), Some(String::new()));
    assert_eq!(
        parse_js_string_result("\"\\b\\f\\r\\t\\\"\\\\\\q\""),
        Some("\u{8}\u{c}\r\t\"\\q".to_string())
    );
    assert_eq!(parse_js_string_result("\"\\u00e9!\""), Some("é!".to_string()));
    assert_eq!(parse_js_string_result("\"\\u+041y\""), Some("Ay".to_string()));
    assert_eq!(parse_js_string_result("\"\\u+41x\""), Some(String::new()));
    assert_eq!(parse_js_string_result("\"\\ud800z\""), Some("z".to_string()));
    assert_eq!(parse_js_string_result("\"\\uzz12y\""), Some("y".to_string()));
    assert_eq!(parse_js_string_result("\"\\u4\""), Some("\u{4}".to_string()));
    assert_eq!(parse_js_string_result("\"a\\\""), Some("a".to_string()));
}

#[test]
fn labels_tabs_by_title() {
    assert_eq!(tab_label(""), "New Tab");
    assert_eq!(tab_label("Example Domain"), "Example Domain");
    assert_eq!(tab_label("abcdefghijklmnopqrstuvwx"), "abcdefghijklmnopqrstuvwx");
    assert_eq!(tab_label("abcdefghijklmnopqrstuvwxy"), "abcdefghijklmnopqrstu...");
    assert_eq!(tab_label("ééééééééééééééééééééééééé"), "ééééééééééééééééééééé...");
}

#[test]
fn status_text_marks_loading() {
    assert_eq!(status_text("Loading example.com", true), "Loading example.com...");
    assert_eq!(status_text("Ready", false), "Ready");
}
