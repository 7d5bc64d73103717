use fubako::index::Index;
use fubako::page_id::PageId;
use fubako::render::render_markdown;
use fubako::response::{
    build_get_page_by_title, build_get_response, build_list_titles_response, list_entry,
};

fn id(s: &str) -> PageId {
    PageId::parse(s).unwrap()
}

#[test]
fn render_resolves_wiki_links() {
    let html = render_markdown("See [[20251224T000000Z]].\n");
    assert!(html.contains("href=\"/20251224T000000Z\""));
    assert!(html.contains(">20251224T000000Z</a>"));
}

#[test]
fn render_leaves_other_references_alone() {
    let html = render_markdown("See [[not an id]].\n");
    assert!(!html.contains("href"));
    assert!(html.contains("[not an id]"));
}

#[test]
fn render_highlights_fenced_code() {
    let html = render_markdown("# T\n\n```rust\nfn main() {}\n```\n");
    // syntect emits an inline-styled <pre> block instead of plain <code>
    assert!(html.contains("<pre style="));
    assert!(html.contains("background-color"));
    assert!(!html.contains("<code>fn main"));
}

#[test]
fn render_plain_markdown_to_html() {
    let html = render_markdown("# Title\n\nA paragraph.\n");
    assert!(html.contains("<h1>Title</h1>"));
    assert!(html.contains("<p>A paragraph.</p>"));
}

#[test]
fn get_response_carries_backlinks_with_titles() {
    let a = id("20250101T000000Z");
    let b = id("20250101T000001Z");
    let mut index = Index::empty();
    index.update(&a, "# Alpha\n");
    index.update(&b, "# Beta\n\n[[20250101T000000Z]]\n");

    let g = build_get_response(&index, &a, "<p>x</p>".to_owned()).unwrap();
    assert_eq!(g.id, "20250101T000000Z");
    assert_eq!(g.title, "Alpha");
    assert_eq!(g.html, "<p>x</p>");
    assert_eq!(
        g.backlinks,
        vec![("20250101T000001Z".to_owned(), "Beta".to_owned())]
    );

    assert!(build_get_response(&index, &id("20250101T000002Z"), String::new()).is_none());
}

#[test]
fn page_by_title_picks_lowest_id() {
    let p1 = id("20250101T000000Z");
    let p2 = id("20250101T000001Z");
    let mut index = Index::empty();
    index.update(&p2, "# Same\n");
    index.update(&p1, "# Same\n");

    let r = build_get_page_by_title(&index, "Same").unwrap();
    assert_eq!(r.0, p1);
    assert!(build_get_page_by_title(&index, "Other").is_none());
}

#[test]
fn list_titles_covers_every_title_ascending() {
    let p1 = id("20250101T000000Z");
    let p2 = id("20250101T000001Z");
    let p3 = id("20250101T000002Z");
    let mut index = Index::empty();
    index.update(&p2, "# Citrus\n");
    index.update(&p1, "# Apple\n");
    index.update(&p3, "# Banana\n");

    let r = build_list_titles_response(&index);
    let titles: Vec<String> = r.page_titles.iter().map(|t| t.value.clone()).collect();
    assert_eq!(
        titles,
        vec!["Apple".to_owned(), "Banana".to_owned(), "Citrus".to_owned()]
    );
    for row in &r.page_titles {
        assert_eq!(row.page_ids.len(), 1);
    }
}

#[test]
fn list_entry_uses_empty_title_for_untitled_pages() {
    let p = id("20250101T000000Z");
    let mut index = Index::empty();
    index.update(&p, "no heading\n");
    let meta = index.get_meta(&p).unwrap();
    let row = list_entry(&p, meta);
    assert_eq!(row.id, "20250101T000000Z");
    assert_eq!(row.title, "");
}

#[test]
fn root_response_wraps_a_page() {
    let a = id("20250101T000000Z");
    let mut index = Index::empty();
    index.update(&a, "# Alpha\n");
    let g = build_get_response(&index, &a, String::new()).unwrap();
    match fubako::response::GetRootOrListPagesResponse::from(g) {
        fubako::response::GetRootOrListPagesResponse::Get(inner) => {
            assert_eq!(inner.id, "20250101T000000Z");
        }
        fubako::response::GetRootOrListPagesResponse::List => panic!("expected a page"),
    }
}

#[test]
fn list_response_holds_rows_and_query() {
    let p = id("20250101T000000Z");
    let mut index = Index::empty();
    index.update(&p, "# One\n");
    let meta = index.get_meta(&p).unwrap();
    let list = fubako::response::ListResponse {
        page_metas: vec![list_entry(&p, meta)],
        q: "one".to_owned(),
    };
    assert_eq!(list.page_metas.len(), 1);
    assert_eq!(list.page_metas[0].title, "One");
    assert_eq!(list.q, "one");
    let query = fubako::response::ListRequestQuery { q: None };
    assert!(query.q.is_none());
}
