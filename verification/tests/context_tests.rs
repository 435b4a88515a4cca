use blog_site::context::calculate_pages;
use blog_site::datetime::Timestamp;
use blog_site::site::{BlogEntry, PageMetadata, Site};

// 2020-01-01T00:00:00Z as seconds since the Unix epoch.
const BASE_SECS: i64 = 1577836800;
const DAY: i64 = 86400;

fn entry(slug: &str, secs: i64, tags: &[&str]) -> BlogEntry {
    BlogEntry {
        title: format!("Title of {}", slug),
        description: String::new(),
        metadata: PageMetadata {
            source_file: format!("/content/blog/{}/content.md", slug),
            associated_files: Vec::new(),
            html_content_file: format!("/rendered/blog/{}.html", slug),
            slug: slug.to_string(),
            template_name: "blog_entry".to_string(),
        },
        tags: tags.iter().map(|t| t.to_string()).collect(),
        created_at: Timestamp::new(secs),
        updated_at: None,
        comments_enabled: true,
        external_discussions: Vec::new(),
    }
}

/// A site of `n` entries named e1, e2, ..., sorted newest first.
fn site_of(n: usize) -> Site {
    let mut blog_entries = Vec::new();
    for i in 0..n {
        let slug = format!("e{}", i + 1);
        blog_entries.push(entry(&slug, BASE_SECS - (i as i64) * DAY, &[]));
    }
    Site { blog_entries }
}

fn slugs_of_stubs(stubs: &[blog_site::context::BlogEntryStub]) -> Vec<String> {
    stubs
        .iter()
        .map(|s| s.url.trim_start_matches("/blog/").to_string())
        .collect()
}

#[test]
fn first_page_of_twenty_five_entries() {
    let site = site_of(25);
    let ctx = site.build_blog_index_context(1);
    let expect: Vec<String> = (1..=10).map(|i| format!("e{}", i)).collect();
    assert_eq!(slugs_of_stubs(&ctx.entries), expect);
    assert_eq!(ctx.previous_page, None);
    assert_eq!(ctx.next_page, Some(2));
}

#[test]
fn third_page_of_twenty_five_entries_is_short_and_last() {
    let site = site_of(25);
    let ctx = site.build_blog_index_context(3);
    let expect: Vec<String> = (21..=25).map(|i| format!("e{}", i)).collect();
    assert_eq!(slugs_of_stubs(&ctx.entries), expect);
    assert_eq!(ctx.previous_page, Some(2));
    assert_eq!(ctx.next_page, None);
}

#[test]
fn page_beyond_the_end_is_empty_not_an_error() {
    let site = site_of(25);
    let ctx = site.build_blog_index_context(4);
    assert!(ctx.entries.is_empty());
    assert_eq!(ctx.previous_page, Some(3));
    assert_eq!(ctx.next_page, None);
}

#[test]
fn calculate_pages_exact_values() {
    assert_eq!(calculate_pages(1, 0, 25, 10), (None, Some(2)));
    assert_eq!(calculate_pages(2, 10, 25, 10), (Some(1), Some(3)));
    assert_eq!(calculate_pages(3, 20, 25, 10), (Some(2), None));
    assert_eq!(calculate_pages(4, 30, 25, 10), (Some(3), None));
    assert_eq!(calculate_pages(1, 0, 0, 10), (None, None));
}

#[test]
fn index_context_lists_five_most_recent_entries() {
    let site = site_of(7);
    let ctx = site.build_index_context();
    assert_eq!(ctx.base.title, "The Rotoclone Zone");
    let expect: Vec<String> = (1..=5).map(|i| format!("e{}", i)).collect();
    assert_eq!(slugs_of_stubs(&ctx.recent_blog_entries), expect);
}

#[test]
fn about_context_titles() {
    let site = site_of(0);
    let ctx = site.build_about_context();
    assert_eq!(ctx.base.title, "About The Rotoclone Zone");
    assert_eq!(ctx.base.meta_description, "It's The Rotoclone Zone");
}

#[test]
fn stub_formats_creation_date() {
    let site = site_of(1);
    let ctx = site.build_index_context();
    assert_eq!(ctx.recent_blog_entries[0].created_at, "January 1st, 2020");
    assert_eq!(ctx.recent_blog_entries[0].title, "Title of e1");
    assert_eq!(ctx.recent_blog_entries[0].url, "/blog/e1");
}

#[test]
fn tag_on_two_of_ten_entries_filters_exactly_those() {
    let mut site = site_of(10);
    site.blog_entries[2].tags = vec!["rust".to_string()];
    site.blog_entries[7].tags = vec!["other".to_string(), "rust".to_string()];
    let ctx = site
        .build_blog_tag_context("rust".to_string(), 1)
        .expect("the tag is present");
    assert_eq!(slugs_of_stubs(&ctx.entries), vec!["e3", "e8"]);
    assert_eq!(ctx.previous_page, None);
    assert_eq!(ctx.next_page, None);
    assert_eq!(ctx.tag, "rust");
    assert_eq!(ctx.base.title, "The Rotoclone Zone Blog - Posts Tagged rust");
}

#[test]
fn unknown_tag_is_not_found_but_late_page_of_known_tag_is_empty() {
    let mut site = site_of(10);
    site.blog_entries[0].tags = vec!["rust".to_string()];
    assert!(site.build_blog_tag_context("python".to_string(), 1).is_none());
    let late = site
        .build_blog_tag_context("rust".to_string(), 9)
        .expect("known tag, page out of range");
    assert!(late.entries.is_empty());
    assert_eq!(late.previous_page, Some(8));
    assert_eq!(late.next_page, None);
}

#[test]
fn tags_context_is_sorted_and_deduplicated() {
    let mut site = site_of(3);
    site.blog_entries[0].tags = vec!["zebra".to_string(), "apple".to_string()];
    site.blog_entries[1].tags = vec!["apple".to_string(), "mango".to_string()];
    site.blog_entries[2].tags = vec!["mango".to_string()];
    let ctx = site.build_blog_tags_context();
    assert_eq!(ctx.tags, vec!["apple", "mango", "zebra"]);
    assert_eq!(ctx.base.title, "The Rotoclone Zone Blog - All Tags");
}

#[test]
fn entry_context_neighbors_follow_the_sorted_order() {
    let site = site_of(3);
    let middle = &site.blog_entries[1];
    let ctx = site.build_blog_entry_context(middle, "<p>content</p>".to_string());
    // e1 is newer than e2, e3 is older.
    assert_eq!(ctx.next_entry.as_ref().map(|s| s.url.clone()), Some("/blog/e1".to_string()));
    assert_eq!(
        ctx.previous_entry.as_ref().map(|s| s.url.clone()),
        Some("/blog/e3".to_string())
    );
    assert_eq!(ctx.entry_content, "<p>content</p>");
    assert_eq!(ctx.base.title, "Title of e2");
}

#[test]
fn entry_context_at_the_ends_has_no_neighbor_beyond() {
    let site = site_of(2);
    let newest = site.build_blog_entry_context(&site.blog_entries[0], String::new());
    assert!(newest.next_entry.is_none());
    assert_eq!(
        newest.previous_entry.as_ref().map(|s| s.url.clone()),
        Some("/blog/e2".to_string())
    );
    let oldest = site.build_blog_entry_context(&site.blog_entries[1], String::new());
    assert!(oldest.previous_entry.is_none());
    assert_eq!(
        oldest.next_entry.as_ref().map(|s| s.url.clone()),
        Some("/blog/e1".to_string())
    );
}

#[test]
fn entry_context_formats_updated_at() {
    let mut site = site_of(1);
    site.blog_entries[0].updated_at = Some(Timestamp::new(BASE_SECS + 31 * DAY));
    let ctx = site.build_blog_entry_context(&site.blog_entries[0], String::new());
    assert_eq!(ctx.created_at, "January 1st, 2020");
    assert_eq!(ctx.updated_at.as_deref(), Some("February 1st, 2020"));
}

#[test]
fn entry_lookup_by_slug() {
    let site = site_of(3);
    let found = site.entry_by_slug(&"e2".to_string()).expect("e2 exists");
    assert_eq!(found.metadata.slug, "e2");
    assert!(site.entry_by_slug(&"nope".to_string()).is_none());
}

#[test]
fn associated_file_lookup_by_relative_path() {
    let mut site = site_of(1);
    site.blog_entries[0].metadata.associated_files = vec![
        blog_site::site::AssociatedFile {
            relative_path: "images/cat.png".to_string(),
            full_path: "/content/blog/e1/images/cat.png".to_string(),
        },
        blog_site::site::AssociatedFile {
            relative_path: "notes.txt".to_string(),
            full_path: "/content/blog/e1/notes.txt".to_string(),
        },
    ];
    let meta = &site.blog_entries[0].metadata;
    let file = meta
        .associated_file_by_relative_path(&"notes.txt".to_string())
        .expect("notes.txt exists");
    assert_eq!(file.full_path, "/content/blog/e1/notes.txt");
    assert!(meta
        .associated_file_by_relative_path(&"missing".to_string())
        .is_none());
}

#[test]
fn second_tag_page_links_back_to_the_first() {
    let mut site = site_of(30);
    for i in 0..12 {
        site.blog_entries[i].tags = vec!["big".to_string()];
    }
    let page2 = site
        .build_blog_tag_context("big".to_string(), 2)
        .expect("the tag is present");
    assert_eq!(page2.entries.len(), 2);
    assert_eq!(page2.previous_page, Some(1));
    assert_eq!(page2.next_page, None);
    let page1 = site
        .build_blog_tag_context("big".to_string(), 1)
        .expect("the tag is present");
    assert_eq!(page1.entries.len(), 10);
    assert_eq!(page1.previous_page, None);
    assert_eq!(page1.next_page, Some(2));
}
