use barbara::evict::{files_to_evict, should_evict, CACHE_TTL_SECS};
use barbara::ignore::IgnoreFilter;
use barbara::mdn::{header_level, page_url, selection_items, site_map_from_gzip, site_map_from_xml, Header, PageContent, SiteMapError};
use barbara::url_entry::UrlEntry;
use std::io::Write;

const DOC: &str = "<?xml version=\"1.0\"?><urlset><url><loc>https://developer.mozilla.org/en-US/docs/A</loc><lastmod>2024-01-01</lastmod></url><url><loc>https://developer.mozilla.org/en-US/plus/x</loc></url><url><loc>https://developer.mozilla.org/en-US/docs/B</loc></url></urlset>";

#[test]
fn eviction_boundary() {
    let now = 1_000_000_000u64;
    assert!(should_evict(now, now - CACHE_TTL_SECS - 1));
    assert!(!should_evict(now, now - CACHE_TTL_SECS + 1));
    assert!(!should_evict(now, now - CACHE_TTL_SECS));
    assert!(!should_evict(now, now + 10));
    assert_eq!(files_to_evict(now, &vec![now, now - CACHE_TTL_SECS - 1, now - CACHE_TTL_SECS + 1, 0]), vec![1, 3]);
    assert_eq!(files_to_evict(now, &Vec::new()), Vec::<usize>::new());
}

#[test]
fn site_map_from_document() {
    let out = site_map_from_xml(DOC.as_bytes(), &IgnoreFilter::mdn());
    assert_eq!(out.entries.len(), 2);
    assert_eq!(out.entries[0].loc, "https://developer.mozilla.org/en-US/docs/A");
    assert_eq!(out.entries[0].lastmod.as_deref(), Some("2024-01-01"));
    assert_eq!(out.entries[1].loc, "https://developer.mozilla.org/en-US/docs/B");
    assert_eq!(out.dropped, 1);
}

#[test]
fn site_map_from_compressed_document() {
    let mut enc = flate2::write::GzEncoder::new(Vec::new(), flate2::Compression::default());
    enc.write_all(DOC.as_bytes()).unwrap();
    let gz = enc.finish().unwrap();
    let out = site_map_from_gzip(&gz, &IgnoreFilter::mdn()).ok().unwrap();
    assert_eq!(out.entries.len(), 2);
    assert!(matches!(site_map_from_gzip(DOC.as_bytes(), &IgnoreFilter::mdn()), Err(SiteMapError::Decompress)));
}

#[test]
fn selection_items_drop_base() {
    let v = vec![UrlEntry { loc: "https://developer.mozilla.org/en-US/docs/Web".to_string(), lastmod: None }];
    assert_eq!(selection_items(&v), vec!["docs/Web".to_string()]);
}

#[test]
fn page_url_adds_base_once() {
    assert_eq!(page_url("docs/Web"), "https://developer.mozilla.org/en-US/docs/Web");
    assert_eq!(page_url("https://developer.mozilla.org/en-US/docs/Web"), "https://developer.mozilla.org/en-US/docs/Web");
}

#[test]
fn heading_levels() {
    assert_eq!(header_level("h1"), 1);
    assert_eq!(header_level("h2"), 2);
    assert_eq!(header_level("h3"), 3);
    assert_eq!(header_level("h4"), 0);
}

#[test]
fn page_summary_text() {
    let page = PageContent {
        title: "T".to_string(),
        description: "D".to_string(),
        headers: vec![Header { level: 1, value: "A".to_string() }, Header { level: 2, value: "B".to_string() }],
    };
    assert_eq!(page.render(), "Title: T\nDescription: D\n\n\nHeaders:\n     |-- A\n          |-- B\n");
}

#[test]
fn page_from_parts_trims_and_keeps_last() {
    let page = PageContent::from_parts(
        &vec![" first ".to_string(), "  Array - MDN \n".to_string()],
        &vec![" desc ".to_string()],
        &vec![("h1".to_string(), " Array ".to_string()), ("h3".to_string(), "x".to_string())],
    );
    assert_eq!(page.title, "Array - MDN");
    assert_eq!(page.description, "desc");
    assert_eq!(page.headers.len(), 2);
    assert_eq!(page.headers[0].level, 1);
    assert_eq!(page.headers[0].value, "Array");
    assert_eq!(page.headers[1].level, 3);
    let empty = PageContent::from_parts(&Vec::new(), &Vec::new(), &Vec::new());
    assert_eq!(empty.title, "");
}
