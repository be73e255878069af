use barbara::ignore::{path_is_ignored, IgnoreFilter};
use barbara::ingest::{ingest, SiteMapEvent};
use barbara::url_entry::{SiteMapElement, UrlEntryBuilder, UrlEntryBuilderError};

fn start(n: &str) -> SiteMapEvent {
    SiteMapEvent::Start(n.to_string())
}
fn end(n: &str) -> SiteMapEvent {
    SiteMapEvent::End(n.to_string())
}
fn text(t: &str) -> SiteMapEvent {
    SiteMapEvent::Text(t.to_string())
}
fn no_rules() -> IgnoreFilter {
    IgnoreFilter { rules: Vec::new() }
}
fn rules(r: &[&str]) -> IgnoreFilter {
    IgnoreFilter { rules: r.iter().map(|s| s.to_string()).collect() }
}

#[test]
fn builder_emits_full_record() {
    let events = vec![
        start("url"), start("loc"), text("http://x"), end("loc"),
        start("lastmod"), text("2024-01-01"), end("lastmod"), end("url"),
    ];
    let out = ingest(&events, &no_rules());
    assert_eq!(out.entries.len(), 1);
    assert_eq!(out.entries[0].loc, "http://x");
    assert_eq!(out.entries[0].lastmod.as_deref(), Some("2024-01-01"));
    assert_eq!(out.dropped, 0);
}

#[test]
fn builder_missing_location() {
    let out = ingest(&vec![start("url"), end("url")], &no_rules());
    assert!(out.entries.is_empty());
    assert_eq!(out.dropped, 1);
    let b = UrlEntryBuilder::new();
    assert!(matches!(b.build(), Err(UrlEntryBuilderError::MissingLoc)));
}

#[test]
fn builder_methods() {
    let mut b = UrlEntryBuilder::default();
    b.set_text("ignored".to_string());
    b.set_element(SiteMapElement::Loc);
    b.set_text("a".to_string());
    b.set_text("b".to_string());
    assert!(matches!(b.build(), Err(UrlEntryBuilderError::MissingClosingTag)));
    b.set_element(SiteMapElement::Lastmod);
    b.set_text("d".to_string());
    b.set_element(SiteMapElement::Url);
    let e = b.build().ok().unwrap();
    assert_eq!(e.loc, "b");
    assert_eq!(e.lastmod.as_deref(), Some("d"));
    b.reset();
    assert!(matches!(b.build(), Err(UrlEntryBuilderError::MissingLoc)));
}

#[test]
fn exact_rule_matches_only_literal() {
    let f = rules(&["https://site/blog/"]);
    assert!(f.matches("https://site/blog/"));
    assert!(!f.matches("https://site/blog"));
    assert!(!f.matches("https://site/blog/post"));
}

#[test]
fn wildcard_rule_matches_prefix() {
    let f = rules(&["https://site/blog/**"]);
    assert!(f.matches("https://site/blog/post1"));
    assert!(f.matches("https://site/blog/"));
    assert!(!f.matches("https://site/blogger"));
    assert!(!f.matches("https://site/blog"));
}

#[test]
fn empty_filter_matches_nothing() {
    assert!(!no_rules().matches("anything"));
}

#[test]
fn ignored_location_never_emitted() {
    let f = rules(&["https://site/blog/**"]);
    let events = vec![
        start("url"), start("loc"), text("https://site/blog/post1"), end("loc"),
        start("lastmod"), text("2024-02-02"), end("lastmod"), end("url"),
        start("url"), start("loc"), text("https://site/docs"), end("loc"), end("url"),
    ];
    let out = ingest(&events, &f);
    assert_eq!(out.entries.len(), 1);
    assert_eq!(out.entries[0].loc, "https://site/docs");
    assert_eq!(out.entries[0].lastmod, None);
    assert_eq!(out.dropped, 1);
}

#[test]
fn text_is_trimmed_and_blank_text_skipped() {
    let events = vec![
        start("url"), text("\n  "), start("loc"), text("  http://y \n"), end("loc"),
        text("   "), SiteMapEvent::Other, SiteMapEvent::Malformed, end("url"),
    ];
    let out = ingest(&events, &no_rules());
    assert_eq!(out.entries.len(), 1);
    assert_eq!(out.entries[0].loc, "http://y");
    assert_eq!(out.malformed, 1);
}

#[test]
fn mdn_rules() {
    assert!(path_is_ignored("https://developer.mozilla.org/en-US/plus/docs"));
    assert!(path_is_ignored("https://developer.mozilla.org/en-US/"));
    assert!(path_is_ignored("https://developer.mozilla.org/en-US/blog/"));
    assert!(!path_is_ignored("https://developer.mozilla.org/en-US/blog/post"));
    assert!(!path_is_ignored("https://developer.mozilla.org/en-US/docs/Web/HTML"));
}
