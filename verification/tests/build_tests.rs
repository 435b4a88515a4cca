use blog_site::site::{BuildError, ContentUnit, Site};

fn unit(name: &str, content: &str) -> ContentUnit {
    ContentUnit {
        name: name.to_string(),
        path: format!("/content/blog/{}", name),
        content: content.to_string(),
        associated_file_paths: Vec::new(),
        fallback_created_at: 0,
    }
}

#[test]
fn build_succeeds_on_valid_tree_with_unique_slugs() {
    let units = vec![
        unit(
            "first",
            "+++\ntitle = \"First\"\ncreated_at = 2020-01-01T00:00:00Z\n+++\nhello",
        ),
        unit(
            "second",
            "+++\ntitle = \"Second\"\ncreated_at = 2020-01-02T00:00:00Z\n+++\nworld",
        ),
    ];
    let out = Site::build(units, "/rendered/blog").unwrap();
    let slugs: Vec<&str> = out
        .site
        .blog_entries
        .iter()
        .map(|e| e.metadata.slug.as_str())
        .collect();
    assert_eq!(slugs, vec!["second", "first"]);
    for (i, a) in slugs.iter().enumerate() {
        for (j, b) in slugs.iter().enumerate() {
            if i != j {
                assert_ne!(a, b);
            }
        }
    }
    assert_eq!(out.rendered.len(), 2);
}

#[test]
fn duplicate_explicit_slug_fails_the_build() {
    let units = vec![
        unit("a", "+++\nslug = \"same\"\n+++\nbody a"),
        unit("b", "+++\nslug = \"same\"\n+++\nbody b"),
    ];
    let err = Site::build(units, "/rendered/blog").unwrap_err();
    match err {
        BuildError::DuplicateSlug { slug, path } => {
            assert_eq!(slug, "same");
            assert_eq!(path, "/content/blog/b");
        }
        other => panic!("expected DuplicateSlug, got {:?}", other),
    }
}

#[test]
fn malformed_first_line_fails_with_malformed_content() {
    let units = vec![unit("bad", "title = \"no delimiter\"\n+++\nbody")];
    let err = Site::build(units, "/rendered/blog").unwrap_err();
    match err {
        BuildError::MalformedContent { path } => {
            assert_eq!(path, "/content/blog/bad/content.md");
        }
        other => panic!("expected MalformedContent, got {:?}", other),
    }
}

#[test]
fn missing_closing_delimiter_fails_with_malformed_content() {
    let units = vec![unit("bad", "+++\ntitle = \"open\"\nno closing line")];
    let err = Site::build(units, "/rendered/blog").unwrap_err();
    assert!(matches!(err, BuildError::MalformedContent { .. }));
}

#[test]
fn invalid_toml_fails_with_invalid_front_matter() {
    let units = vec![unit("bad", "+++\ntitle = = broken\n+++\nbody")];
    let err = Site::build(units, "/rendered/blog").unwrap_err();
    assert!(matches!(err, BuildError::InvalidFrontMatter { .. }));
}

#[test]
fn mistyped_field_fails_with_invalid_front_matter() {
    let units = vec![unit("bad", "+++\ntags = \"not-an-array\"\n+++\nbody")];
    let err = Site::build(units, "/rendered/blog").unwrap_err();
    match err {
        BuildError::InvalidFrontMatter { detail, .. } => {
            assert!(detail.contains("tags"));
        }
        other => panic!("expected InvalidFrontMatter, got {:?}", other),
    }
}

#[test]
fn created_at_survives_parse_and_formatting_round_trip() {
    let units = vec![unit(
        "dated",
        "+++\ncreated_at = 2020-05-15T10:30:00Z\n+++\nbody",
    )];
    let out = Site::build(units, "/rendered/blog").unwrap();
    let entry = &out.site.blog_entries[0];
    // 2020-05-15T10:30:00Z as seconds since the Unix epoch.
    assert_eq!(entry.created_at.secs, 1589538600);
    let ctx = out.site.build_blog_entry_context(entry, String::new());
    assert_eq!(ctx.created_at, "May 15th, 2020");
}

#[test]
fn front_matter_defaults_are_applied() {
    let units = vec![unit("plain", "+++\n+++\nbody text")];
    let out = Site::build(units, "/rendered/blog").unwrap();
    let entry = &out.site.blog_entries[0];
    assert_eq!(entry.title, "");
    assert_eq!(entry.description, "");
    assert_eq!(entry.metadata.slug, "plain");
    assert_eq!(entry.metadata.template_name, "blog_entry");
    assert!(entry.tags.is_empty());
    assert!(entry.comments_enabled);
    assert!(entry.external_discussions.is_empty());
    assert!(entry.updated_at.is_none());
    // No created_at in the front matter: the filesystem fallback is used.
    assert_eq!(entry.created_at.secs, 0);
}

#[test]
fn front_matter_fields_are_carried_over() {
    let content = "+++\n\
        slug = \"my-slug\"\n\
        title = \"A Title\"\n\
        description = \"About things\"\n\
        template = \"special\"\n\
        tags = [\"b\", \"a\"]\n\
        created_at = 2021-03-04T05:06:07Z\n\
        updated_at = 2021-03-05T05:06:07Z\n\
        comments_enabled = false\n\
        [[external_discussions]]\n\
        name = \"Forum\"\n\
        url = \"https://example.com/t/1\"\n\
        +++\n\
        body";
    let units = vec![unit("dir-name", content)];
    let out = Site::build(units, "/rendered/blog").unwrap();
    let entry = &out.site.blog_entries[0];
    assert_eq!(entry.metadata.slug, "my-slug");
    assert_eq!(entry.title, "A Title");
    assert_eq!(entry.description, "About things");
    assert_eq!(entry.metadata.template_name, "special");
    assert_eq!(entry.tags, vec!["b".to_string(), "a".to_string()]);
    assert!(!entry.comments_enabled);
    assert!(entry.updated_at.is_some());
    assert_eq!(entry.external_discussions.len(), 1);
    assert_eq!(entry.external_discussions[0].name, "Forum");
    assert_eq!(entry.external_discussions[0].url, "https://example.com/t/1");
}

#[test]
fn markdown_body_is_rendered_to_html() {
    let units = vec![unit("post", "+++\n+++\n# Hi")];
    let out = Site::build(units, "/rendered/blog").unwrap();
    assert_eq!(out.rendered[0].path, "/rendered/blog/post.html");
    assert_eq!(out.rendered[0].html, "<h1>Hi</h1>\n\n");
    assert_eq!(
        out.site.blog_entries[0].metadata.html_content_file,
        "/rendered/blog/post.html"
    );
}

#[test]
fn body_lines_are_rejoined_and_later_delimiters_kept() {
    let units = vec![unit("post", "+++\n+++\nline one\nline two\n+++\nline three")];
    let out = Site::build(units, "/rendered/blog").unwrap();
    // The body is everything after the first closing delimiter.
    assert_eq!(
        out.rendered[0].html,
        blog_site::render::markdown_to_html("line one\nline two\n+++\nline three").to_string() + "\n"
    );
}

#[test]
fn associated_files_are_relativized_and_content_file_excluded() {
    let mut u = unit("post", "+++\n+++\nbody");
    u.associated_file_paths = vec![
        "/content/blog/post/content.md".to_string(),
        "/content/blog/post/images/cat.png".to_string(),
        "/content/blog/post/notes.txt".to_string(),
    ];
    let out = Site::build(vec![u], "/rendered/blog").unwrap();
    let files = &out.site.blog_entries[0].metadata.associated_files;
    assert_eq!(files.len(), 2);
    assert_eq!(files[0].relative_path, "images/cat.png");
    assert_eq!(files[0].full_path, "/content/blog/post/images/cat.png");
    assert_eq!(files[1].relative_path, "notes.txt");
    assert_eq!(files[1].full_path, "/content/blog/post/notes.txt");
}

#[test]
fn stray_associated_file_fails_the_build() {
    let mut u = unit("post", "+++\n+++\nbody");
    u.associated_file_paths = vec!["/elsewhere/file.txt".to_string()];
    let err = Site::build(vec![u], "/rendered/blog").unwrap_err();
    assert!(matches!(err, BuildError::FilesystemError { .. }));
}

#[test]
fn out_of_range_fallback_timestamp_is_clamped() {
    let mut u = unit("post", "+++\n+++\nbody");
    u.fallback_created_at = i64::MAX;
    let out = Site::build(vec![u], "/rendered/blog").unwrap();
    assert_eq!(out.site.blog_entries[0].created_at.secs, 253402300799);
}

#[test]
fn entries_with_equal_created_at_keep_scan_order() {
    let same = "+++\ncreated_at = 2020-01-01T00:00:00Z\n+++\nbody";
    let newer = "+++\ncreated_at = 2020-06-01T00:00:00Z\n+++\nbody";
    let units = vec![
        unit("tie-one", same),
        unit("newest", newer),
        unit("tie-two", same),
        unit("tie-three", same),
    ];
    let out = Site::build(units, "/rendered/blog").unwrap();
    let slugs: Vec<&str> = out
        .site
        .blog_entries
        .iter()
        .map(|e| e.metadata.slug.as_str())
        .collect();
    assert_eq!(slugs, vec!["newest", "tie-one", "tie-two", "tie-three"]);
}

#[test]
fn empty_unit_list_builds_an_empty_site() {
    let out = Site::build(Vec::new(), "/rendered/blog").unwrap();
    assert!(out.site.blog_entries.is_empty());
    assert!(out.rendered.is_empty());
}

#[test]
fn empty_body_after_closing_delimiter_is_accepted() {
    let units = vec![unit("bare", "+++\ntitle = \"t\"\n+++\n")];
    let out = Site::build(units, "/rendered/blog").unwrap();
    assert_eq!(out.site.blog_entries[0].title, "t");
    assert_eq!(out.rendered[0].html, "\n");
}

#[test]
fn single_delimiter_line_without_closing_is_malformed() {
    let units = vec![unit("bare", "+++")];
    let err = Site::build(units, "/rendered/blog").unwrap_err();
    assert!(matches!(err, BuildError::MalformedContent { .. }));
}

#[test]
fn default_slug_strips_the_name_extension() {
    let units = vec![
        unit("legacy.md", "+++\n+++\nbody"),
        unit(".hidden", "+++\n+++\nbody"),
    ];
    let out = Site::build(units, "/rendered/blog").unwrap();
    let mut slugs: Vec<&str> = out
        .site
        .blog_entries
        .iter()
        .map(|e| e.metadata.slug.as_str())
        .collect();
    slugs.sort();
    assert_eq!(slugs, vec![".hidden", "legacy"]);
}

#[test]
fn rebuilding_the_same_tree_gives_the_same_site() {
    let make_units = || {
        vec![
            unit("a", "+++\ncreated_at = 2020-01-01T00:00:00Z\ntags = [\"t\"]\n+++\nx"),
            unit("b", "+++\n+++\ny"),
        ]
    };
    let first = Site::build(make_units(), "/rendered/blog").unwrap().site;
    let second = Site::build(make_units(), "/rendered/blog").unwrap().site;
    assert_eq!(first.blog_entries, second.blog_entries);
}
