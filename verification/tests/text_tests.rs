use fubako::page_id::PageId;
use fubako::page_io::PageIo;
use fubako::page_meta::PageMeta;
use fubako::search::match_content;
use fubako::sync::{sync_decision, SyncAction};

#[test]
fn test_match_content() {
    let content = "This is a sample page content.";
    // single keyword
    assert!(match_content(content, "This"));
    assert!(match_content(content, "page"));
    // ignore case
    assert!(match_content(content, "this"));
    // multiple keywords
    assert!(match_content(content, "This page"));
    assert!(match_content(content, "This\tpage"));
    assert!(match_content(content, "This\u{3000}page"));
    assert!(match_content(content, "This \t\u{3000}page"));
    // not found
    assert!(!match_content(content, "notfound"));
}

#[test]
fn match_content_empty_query_matches_everything() {
    assert!(match_content("anything", ""));
    assert!(match_content("anything", " \t "));
}

#[test]
fn match_content_uppercase_query() {
    // fails if lower-casing handed its argument back unchanged
    assert!(match_content("This is a sample page content.", "THIS SAMPLE"));
    assert!(!match_content("This is a sample page content.", "SAMPLES"));
}

#[test]
fn page_id_round_trips_through_text() {
    let text = "20251224T123456Z";
    let id = PageId::parse(text).unwrap();
    assert_eq!(id.to_text(), text);
    assert_eq!(PageId::parse(&id.to_text()), Some(id));
}

#[test]
fn page_id_rejects_malformed_text() {
    assert!(PageId::parse("").is_none());
    assert!(PageId::parse("20251224").is_none());
    assert!(PageId::parse("20251224T000000").is_none());
    assert!(PageId::parse("20251224X000000Z").is_none());
    assert!(PageId::parse("2025122AT000000Z").is_none());
    assert!(PageId::parse("20251224T000000Za").is_none());
}

#[test]
fn page_id_orders_like_its_text() {
    let a = PageId::parse("20251224T000000Z").unwrap();
    let b = PageId::parse("20251224T000001Z").unwrap();
    assert!(a.lt(&b));
    assert!(!b.lt(&a));
    assert!(!a.lt(&a));
}

#[test]
fn page_id_root_is_fixed() {
    assert_eq!(PageId::root().to_text(), "00000000T000000Z");
}

#[test]
fn extract_title_and_no_links() {
    let meta = PageMeta::from_markdown("\n# Test Page 1\n\nThis is a test page.\n");
    assert_eq!(meta.title.as_deref(), Some("Test Page 1"));
    assert!(meta.links.is_empty());
}

#[test]
fn extract_title_and_one_link() {
    let meta = PageMeta::from_markdown("---\n# Test Page 2\n\nLink to [[20251224T000000Z]].\n");
    assert_eq!(meta.title.as_deref(), Some("Test Page 2"));
    assert_eq!(meta.links, vec![PageId::parse("20251224T000000Z").unwrap()]);
}

#[test]
fn extract_without_heading_has_no_title() {
    let meta = PageMeta::from_markdown("just text\n\nno heading\n");
    assert!(meta.title.is_none());
}

#[test]
fn extract_ignores_malformed_references() {
    let meta = PageMeta::from_markdown("[[not-a-page-id!!]] and [[20251224T0000]]\n");
    assert!(meta.links.is_empty());
}

#[test]
fn extract_deduplicates_links() {
    let meta =
        PageMeta::from_markdown("[[20251224T000000Z]] twice [[20251224T000000Z]]\n");
    assert_eq!(meta.links, vec![PageId::parse("20251224T000000Z").unwrap()]);
}

#[test]
fn page_path_is_under_data_dir() {
    let config = fubako::config::Config::new("/data".to_owned(), None, None);
    let id = PageId::parse("20251224T000000Z").unwrap();
    assert_eq!(PageIo::page_path(&config, &id), "/data/20251224T000000Z.md");
}

#[test]
fn page_id_from_path_reads_the_stem() {
    let id = PageId::parse("20251224T000000Z").unwrap();
    assert_eq!(PageIo::page_id("/data/20251224T000000Z.md"), Some(id));
    assert_eq!(PageIo::page_id("20251224T000000Z.md"), Some(id));
    assert!(PageIo::page_id("/data/notes.txt").is_none());
    assert!(PageIo::page_id("/data/").is_none());
}

#[test]
fn sync_decision_skips_removes_updates() {
    let id = PageId::parse("20251224T000000Z").unwrap();
    assert!(matches!(
        sync_decision("/data/readme.txt", true),
        SyncAction::Skip
    ));
    match sync_decision("/data/20251224T000000Z.md", true) {
        SyncAction::Update(got) => assert_eq!(got, id),
        _ => panic!("expected an update"),
    }
    match sync_decision("/data/20251224T000000Z.md", false) {
        SyncAction::Remove(got) => assert_eq!(got, id),
        _ => panic!("expected a removal"),
    }
}

#[test]
fn test_shell_words() {
    assert_eq!(
        shell_words::split("code --wait").unwrap(),
        vec!["code", "--wait"]
    );
}

#[test]
fn extract_skips_headings_inside_fenced_code() {
    let meta = PageMeta::from_markdown("```\n# not a title\n```\n\n# Real Title\n");
    assert_eq!(meta.title.as_deref(), Some("Real Title"));
}

#[test]
fn extract_finds_no_title_when_only_fenced_headings_exist() {
    let meta = PageMeta::from_markdown("```rust\n# comment\n```\n");
    assert!(meta.title.is_none());
}
