use fubako::index::Index;
use fubako::page_id::PageId;

fn id(s: &str) -> PageId {
    PageId::parse(s).unwrap()
}

#[test]
fn test_new() {
    let page1_id = id("20251224T000000Z");
    let page1_content = "\n# Test Page 1\n\nThis is a test page.\n";
    let page2_id = id("20251224T000001Z");
    let page2_content = "---\n# Test Page 2\n\nLink to [[20251224T000000Z]].\n";

    let pages = vec![
        (page1_id, page1_content.to_owned()),
        (page2_id, page2_content.to_owned()),
    ];
    let index = Index::new(&pages);

    let meta1 = index.get_meta(&page1_id).unwrap();
    assert_eq!(meta1.title.as_deref(), Some("Test Page 1"));
    assert!(meta1.links.is_empty());

    let meta2 = index.get_meta(&page2_id).unwrap();
    assert_eq!(meta2.title.as_deref(), Some("Test Page 2"));
    assert_eq!(meta2.links, vec![page1_id]);

    assert_eq!(index.find_by_title("Test Page 1"), vec![page1_id]);
    assert_eq!(index.find_by_title("Test Page 2"), vec![page2_id]);

    assert_eq!(index.get_backlinks(&page1_id), vec![page2_id]);
    assert!(index.get_backlinks(&page2_id).is_empty());

    let all = index.list_all();
    assert_eq!(all.len(), 2);
    assert_eq!(all[0].0, page1_id);
    assert_eq!(all[1].0, page2_id);
}

#[test]
fn test_remove() {
    let page1_id = id("20251224T000000Z");
    let page1_content = "\n# Test Page 1\n\nThis is a test page.\n";
    let page2_id = id("20251224T000001Z");
    let page2_content = "---\n# Test Page 2\n\nLink to [[20251224T000000Z]].\n";
    let page3_id = id("20251224T000002Z");
    let page3_content = "---\n# Test Page 3\n\nLink to [[20251224T000000Z]].\n";

    let pages = vec![
        (page1_id, page1_content.to_owned()),
        (page2_id, page2_content.to_owned()),
        (page3_id, page3_content.to_owned()),
    ];
    let mut index = Index::new(&pages);

    // verify initial state
    assert_eq!(index.list_all().len(), 3);
    assert!(!index.find_by_title("Test Page 1").is_empty());
    assert!(!index.find_by_title("Test Page 2").is_empty());
    assert!(!index.find_by_title("Test Page 3").is_empty());
    assert_eq!(index.get_backlinks(&page1_id), vec![page2_id, page3_id]);

    index.remove(&page2_id);

    assert_eq!(index.list_all().len(), 2);
    assert!(index.get_meta(&page2_id).is_none());
    assert!(index.find_by_title("Test Page 2").is_empty());
    assert_eq!(index.get_backlinks(&page1_id), vec![page3_id]);

    index.remove(&page1_id);

    assert_eq!(index.list_all().len(), 1);
    assert!(index.get_meta(&page1_id).is_none());
    assert!(index.find_by_title("Test Page 1").is_empty());

    // removing non-existent page should not cause any issues
    let non_existent_id = id("20251225T000000Z");
    index.remove(&non_existent_id);
}

#[test]
fn test_update() {}

#[test]
fn update_registers_page_and_backlinks() {
    let a = id("20250101T000000Z");
    let b = id("20250101T000001Z");
    let mut index = Index::empty();
    index.update(&a, "# Alpha\n\nNo links here.\n");
    index.update(&b, "# Beta\n\nSee [[20250101T000000Z]].\n");

    assert_eq!(index.get_meta(&a).unwrap().title.as_deref(), Some("Alpha"));
    assert_eq!(index.get_backlinks(&a), vec![b]);
    assert_eq!(index.find_by_title("Beta"), vec![b]);
}

#[test]
fn update_replaces_old_links_and_title() {
    let a = id("20250101T000000Z");
    let b = id("20250101T000001Z");
    let c = id("20250101T000002Z");
    let mut index = Index::empty();
    index.update(&a, "# First\n");
    index.update(&c, "# Third\n");
    index.update(&b, "# Second\n\n[[20250101T000000Z]]\n");
    assert_eq!(index.get_backlinks(&a), vec![b]);

    // re-point b from a to c and change its title
    index.update(&b, "# Renamed\n\n[[20250101T000002Z]]\n");
    assert!(index.get_backlinks(&a).is_empty());
    assert_eq!(index.get_backlinks(&c), vec![b]);
    assert!(index.find_by_title("Second").is_empty());
    assert_eq!(index.find_by_title("Renamed"), vec![b]);
}

#[test]
fn update_twice_is_idempotent() {
    let a = id("20250101T000000Z");
    let b = id("20250101T000001Z");
    let content = "# Beta\n\nSee [[20250101T000000Z]].\n";
    let mut once = Index::empty();
    once.update(&a, "# Alpha\n");
    once.update(&b, content);
    let mut twice = Index::empty();
    twice.update(&a, "# Alpha\n");
    twice.update(&b, content);
    twice.update(&b, content);

    assert_eq!(once.list_all().len(), twice.list_all().len());
    assert_eq!(once.get_backlinks(&a), twice.get_backlinks(&a));
    assert_eq!(once.find_by_title("Beta"), twice.find_by_title("Beta"));
    assert_eq!(
        once.get_meta(&b).unwrap().title,
        twice.get_meta(&b).unwrap().title
    );
    assert_eq!(once.get_meta(&b).unwrap().links, twice.get_meta(&b).unwrap().links);
}

#[test]
fn removal_cleans_backlinks() {
    // pages: p1 (no links), p2 -> p1, p3 -> p1
    let p1 = id("20250101T000000Z");
    let p2 = id("20250101T000001Z");
    let p3 = id("20250101T000002Z");
    let mut index = Index::empty();
    index.update(&p1, "# One\n");
    index.update(&p2, "[[20250101T000000Z]]\n");
    index.update(&p3, "[[20250101T000000Z]]\n");

    index.remove(&p2);
    assert_eq!(index.get_backlinks(&p1), vec![p3]);

    index.remove(&p3);
    assert!(index.get_backlinks(&p1).is_empty());
}

#[test]
fn removal_prunes_title() {
    let p1 = id("20250101T000000Z");
    let mut index = Index::empty();
    index.update(&p1, "# X\n");
    assert_eq!(index.find_by_title("X"), vec![p1]);

    index.remove(&p1);
    assert!(index.find_by_title("X").is_empty());
    assert!(fubako::response::build_list_titles_response(&index)
        .page_titles
        .is_empty());
}

#[test]
fn dangling_backlinks_survive_target_removal() {
    // a removed page may still be linked from elsewhere
    let p1 = id("20250101T000000Z");
    let p2 = id("20250101T000001Z");
    let mut index = Index::empty();
    index.update(&p1, "# One\n");
    index.update(&p2, "[[20250101T000000Z]]\n");

    index.remove(&p1);
    assert_eq!(index.get_backlinks(&p1), vec![p2]);
}

#[test]
fn shared_title_maps_to_both_pages() {
    let p1 = id("20250101T000000Z");
    let p2 = id("20250101T000001Z");
    let mut index = Index::empty();
    index.update(&p1, "# Same\n");
    index.update(&p2, "# Same\n");
    assert_eq!(index.find_by_title("Same"), vec![p1, p2]);

    index.remove(&p1);
    assert_eq!(index.find_by_title("Same"), vec![p2]);
}
