use contact_crawler::links::{extract_links, is_followed, keep_links, process_links};

fn strings(items: &[&str]) -> Vec<String> {
    items.iter().map(|s| s.to_string()).collect()
}

#[test]
fn mailto_anchor_is_excluded() {
    let body = r#"<html><body>
        <a href="mailto:someone@example.com">write</a>
        <a href="http://example.com/page">page</a>
    </body></html>"#;
    assert_eq!(extract_links(body), Some(strings(&["http://example.com/page"])));
}

#[test]
fn absolute_anchor_is_kept_unchanged() {
    let body = r#"<a href="HTTP://Example.com/A/../b?q=1#frag">x</a>"#;
    assert_eq!(extract_links(body), Some(strings(&["HTTP://Example.com/A/../b?q=1#frag"])));
}

#[test]
fn relative_anchor_is_dropped() {
    let body = r#"<html><body><a href="/contact">contact</a></body></html>"#;
    assert_eq!(extract_links(body), Some(Vec::new()));
}

#[test]
fn anchors_come_in_order_with_repetitions() {
    let body = r#"<p><a href="http://b.example/">b</a><a href="about">rel</a>
        <a href="tel:+1-555-0100">call</a><a href="http://a.example/">a</a>
        <a href="http://b.example/">b again</a><a name="top">no target</a></p>"#;
    assert_eq!(
        extract_links(body),
        Some(strings(&[
            "http://b.example/",
            "tel:+1-555-0100",
            "http://a.example/",
            "http://b.example/",
        ]))
    );
}

#[test]
fn page_without_anchors_has_no_links() {
    assert_eq!(extract_links(""), Some(Vec::new()));
    assert_eq!(extract_links("<p>nothing here</p>"), Some(Vec::new()));
}

#[test]
fn empty_target_is_dropped() {
    assert_eq!(extract_links(r#"<a href="">x</a>"#), Some(Vec::new()));
}

#[test]
fn followed_links_by_scheme() {
    assert!(is_followed("http://example.com"));
    assert!(is_followed("https://example.com/a"));
    assert!(is_followed("tel:+1-555-0100"));
    assert!(is_followed("ftp://example.com"));
    assert!(!is_followed("mailto:a@example.com"));
    assert!(!is_followed("MAILTO:a@example.com"));
    assert!(!is_followed("/contact"));
    assert!(!is_followed("contact.html"));
    assert!(!is_followed("#top"));
    assert!(!is_followed(""));
}

#[test]
fn keep_links_reads_a_missing_target_as_empty() {
    let hrefs = vec![
        Some("http://x.com/".to_string()),
        None,
        Some("mailto:a@x.com".to_string()),
        Some("page.html".to_string()),
        Some("https://y.org".to_string()),
    ];
    assert_eq!(keep_links(hrefs), strings(&["http://x.com/", "https://y.org"]));
    assert_eq!(keep_links(Vec::new()), Vec::<String>::new());
}

#[test]
fn absolute_href_passes_through_join() {
    let out = process_links(strings(&["http://example.com/b"]), "http://example.com/a/");
    assert_eq!(out, strings(&["http://example.com/b"]));
}

#[test]
fn relative_href_is_joined_to_base() {
    let out = process_links(
        strings(&["c.png", "/v1/meta", "//eve.com/b", "../up", "?q=1"]),
        "https://example.net/a/b.html",
    );
    assert_eq!(
        out,
        strings(&[
            "https://example.net/a/c.png",
            "https://example.net/v1/meta",
            "https://eve.com/b",
            "https://example.net/up",
            "https://example.net/a/b.html?q=1",
        ])
    );
}

#[test]
fn join_normalizes_and_keeps_repetitions() {
    let out = process_links(
        strings(&["HTTP://Example.COM", "http://example.com/", "tel:+1-555-0100"]),
        "http://seed.example/",
    );
    assert_eq!(
        out,
        strings(&["http://example.com/", "http://example.com/", "tel:+1-555-0100"])
    );
}

#[test]
fn href_that_does_not_join_is_dropped() {
    let out = process_links(
        strings(&["http://[bad", "http://ok.example/", "https://exa mple.com/"]),
        "http://seed.example/",
    );
    assert_eq!(out, strings(&["http://ok.example/"]));
}

#[test]
fn base_that_is_not_absolute_drops_everything() {
    assert_eq!(process_links(strings(&["http://example.com/b"]), "not a url"), Vec::<String>::new());
    assert_eq!(process_links(strings(&["http://example.com/b"]), "/relative"), Vec::<String>::new());
    assert_eq!(process_links(strings(&["http://example.com/b"]), ""), Vec::<String>::new());
}

#[test]
fn base_that_cannot_be_a_base_drops_relative_links() {
    let out = process_links(strings(&["x", "http://example.com/b"]), "tel:+1-555-0100");
    assert_eq!(out, strings(&["http://example.com/b"]));
}

#[test]
fn no_links_resolve_to_none() {
    assert_eq!(process_links(Vec::new(), "http://example.com/"), Vec::<String>::new());
}
