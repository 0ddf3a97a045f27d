use browser::source::{
    check_response, classify_source, local_lookup, looks_like_host, normalize_browser_url, resolve_reference,
    supports_text_response, SourceOrigin,
};

#[test]
fn classifies_remote_source() {
    assert_eq!(
        classify_source("https://example.com"),
        SourceOrigin::Remote("https://example.com".to_string())
    );
}

#[test]
fn classifies_local_source() {
    assert_eq!(
        classify_source("examples/welcome.html"),
        SourceOrigin::Local("examples/welcome.html".to_string())
    );
}

#[test]
fn rejects_binary_content_types() {
    assert!(supports_text_response("text/html; charset=utf-8"));
    assert!(supports_text_response("application/xhtml+xml"));
    assert!(!supports_text_response("application/pdf"));
}

#[test]
fn resolves_local_relative_links() {
    assert_eq!(
        resolve_reference("examples/welcome.html", "guide/getting-started.html"),
        std::path::PathBuf::from("examples")
            .join("guide/getting-started.html")
            .display()
            .to_string()
    );
}

#[test]
fn resolves_remote_relative_links() {
    assert_eq!(
        resolve_reference("https://example.com/docs/index.html", "../guide"),
        "https://example.com/guide"
    );
}

#[test]
fn normalizes_remote_browser_urls() {
    assert_eq!(
        normalize_browser_url("example.com", None).expect("host should normalize"),
        "https://example.com/"
    );
    assert_eq!(
        normalize_browser_url("https://example.com/docs", None).expect("url should stay remote"),
        "https://example.com/docs"
    );
}

#[test]
fn normalization_errors_and_local_files() {
    assert_eq!(
        normalize_browser_url("   ", None),
        Err("address is empty".to_string())
    );
    assert_eq!(
        normalize_browser_url("no host here", None),
        Err("unsupported address: no host here".to_string())
    );
    assert_eq!(
        normalize_browser_url("relative/page.html", Some(Ok("relative/page.html".to_string()))),
        Err("failed to convert relative/page.html into a file URL".to_string())
    );
    assert_eq!(
        normalize_browser_url(
            "examples/welcome.html",
            Some(Err("failed to resolve current directory: gone".to_string()))
        ),
        Err("failed to resolve current directory: gone".to_string())
    );
    assert_eq!(
        normalize_browser_url("/srv/a b.html", Some(Ok("/srv/a b.html".to_string()))),
        Ok("file:///srv/a%20b.html".to_string())
    );
}

#[test]
fn normalizes_local_browser_paths() {
    let url = normalize_browser_url(
        "examples/welcome.html",
        Some(Ok("/work/browser/examples/welcome.html".to_string())),
    )
    .expect("fixture should normalize");
    assert!(url.starts_with("file:///"));
    assert!(url.ends_with("/examples/welcome.html"));
}

#[test]
fn resolves_empty_absolute_and_remote_links() {
    assert_eq!(resolve_reference("a/b.html", "  "), "a/b.html");
    assert_eq!(
        resolve_reference("a/b.html", " https://x.org/y "),
        "https://x.org/y"
    );
    assert_eq!(resolve_reference("a/b.html", "/etc/c.html"), "/etc/c.html");
    assert_eq!(
        resolve_reference("https://example.com/docs/", "#top"),
        "https://example.com/docs/#top"
    );
}

#[test]
fn content_types_and_hosts() {
    assert!(!supports_text_response(""));
    assert!(supports_text_response(" TEXT/PLAIN ; charset=ascii"));
    assert!(!supports_text_response("application/json"));
    assert!(!supports_text_response("image/png; x=text/html"));
    assert!(looks_like_host("example.com"));
    assert!(!looks_like_host("example"));
    assert!(looks_like_host("exa mple.com"));
}

#[test]
fn checks_fetched_responses() {
    assert_eq!(check_response("https://a.org/", true, "200 OK", Some("text/html")), Ok(()));
    assert_eq!(check_response("https://a.org/", true, "200 OK", None), Ok(()));
    assert_eq!(
        check_response("https://a.org/", false, "404 Not Found", Some("text/html")),
        Err("request to https://a.org/ failed with status 404 Not Found".to_string())
    );
    assert_eq!(
        check_response("https://a.org/x.pdf", true, "200 OK", Some("application/pdf")),
        Err("unsupported content type from https://a.org/x.pdf: application/pdf".to_string())
    );
}

#[test]
fn looks_on_disk_only_for_non_urls() {
    assert_eq!(local_lookup("  examples/welcome.html "), Some("examples/welcome.html".to_string()));
    assert_eq!(local_lookup("https://example.com/"), None);
    assert_eq!(local_lookup("   "), None);
}
