use j3sg::config::Config;
use j3sg::page::Page;
use j3sg::parse::{known_key, Parse};
use j3sg::uri::Uri;

#[test]
fn renders_markdown_body() {
    let p = Parse::from_str("# Hi");
    assert_eq!(p.content, "<h1>Hi</h1>");
    assert_eq!(p.title, None);
    assert_eq!(p.author, None);
    assert!(p.extra.is_empty());
}

#[test]
fn front_matter_fields_and_extras() {
    let p = Parse::from_str("---\ntitle: T\nauthor: A\ncustom: v\n---\nbody");
    assert_eq!(p.title, Some("T".to_string()));
    assert_eq!(p.author, Some("A".to_string()));
    assert_eq!(p.description, None);
    assert_eq!(p.template, None);
    assert_eq!(p.content, "<p>body</p>");
    assert_eq!(p.extra.len(), 1);
    assert_eq!(p.extra[0].0, "custom");
    assert_eq!(p.extra[0].1.as_str(), Some("v"));
}

#[test]
fn extras_keep_the_block_order() {
    let p = Parse::from_str("---\nzeta: 1\ntitle: T\nalpha: 2\n---\nbody");
    let keys: Vec<&str> = p.extra.iter().map(|e| e.0.as_str()).collect();
    assert_eq!(keys, vec!["zeta", "alpha"]);
    assert_eq!(p.title, Some("T".to_string()));
}

#[test]
fn absent_and_non_string_fields_are_none() {
    let p = Parse::from_str("---\ntitle: 7\nauthor: A\n---\nbody");
    // a non-string value under a dedicated key is no string lookup hit
    assert_eq!(p.title, None);
    assert_eq!(p.author, Some("A".to_string()));
    assert_eq!(p.description, None);
}

#[test]
fn malformed_front_matter_degrades_to_defaults() {
    let p = Parse::from_str("---\n- just\n- a list\n---\ntext");
    assert_eq!(p.title, None);
    assert!(p.extra.is_empty());
    assert_eq!(p.content, "<p>text</p>");
}

#[test]
fn dedicated_keys() {
    assert!(known_key("title"));
    assert!(known_key("author"));
    assert!(known_key("description"));
    assert!(known_key("template"));
    assert!(!known_key("custom"));
    assert!(!known_key("Title"));
}

#[test]
fn page_title_falls_back_to_stem() {
    let u = Uri::new().join("note").unwrap();
    let s = Uri::new();
    let page = Page::new(u, s, "note", "plain body");
    assert_eq!(page.title, "note");
    assert_eq!(page.content, "<p>plain body</p>");
    assert_eq!(page.uri.canonical_string(), "/note");
    assert_eq!(page.section.canonical_string(), "/");
}

#[test]
fn page_title_from_front_matter() {
    let u = Uri::new().join("note").unwrap();
    let s = Uri::new();
    let page = Page::new(u, s, "note", "---\ntitle: Better\n---\nbody");
    assert_eq!(page.title, "Better");
}

#[test]
fn config_defaults_and_overrides() {
    let c = Config::get(None, None, None, None, None);
    assert_eq!(c.static_path, "./static");
    assert_eq!(c.pages_path, "./pages");
    assert_eq!(c.bind_addr, "127.0.0.1:5000");
    assert!(c.tls_pair.is_none());

    let c = Config::get(
        Some("st".to_string()),
        Some("pg".to_string()),
        Some("0.0.0.0:80".to_string()),
        Some("key.pem".to_string()),
        Some("cert.pem".to_string()),
    );
    assert_eq!(c.static_path, "st");
    assert_eq!(c.pages_path, "pg");
    assert_eq!(c.bind_addr, "0.0.0.0:80");
    assert_eq!(c.tls_pair, Some(("key.pem".to_string(), "cert.pem".to_string())));

    let c = Config::get(None, None, None, Some("key.pem".to_string()), None);
    assert!(c.tls_pair.is_none());
}
