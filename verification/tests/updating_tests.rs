use blog_site::site::{BuildError, ContentUnit, Site};
use blog_site::updating_site::{event_triggers_rebuild, UpdatingSite, WatchEventKind};

fn built_site(slug: &str) -> Site {
    let units = vec![ContentUnit {
        name: slug.to_string(),
        path: format!("/content/blog/{}", slug),
        content: "+++\ncreated_at = 2020-01-01T00:00:00Z\n+++\nbody".to_string(),
        associated_file_paths: Vec::new(),
        fallback_created_at: 0,
    }];
    Site::build(units, "/rendered/blog").unwrap().site
}

#[test]
fn reader_keeps_old_snapshot_across_a_replace() {
    let mut model = UpdatingSite::new(built_site("old-post"));
    // A read begins and holds its snapshot.
    let snapshot = model.read();
    // A replace with a new site completes while the read is in flight.
    model.replace(built_site("new-post"));
    // The in-flight reader still observes the old entries, consistently.
    assert_eq!(snapshot.blog_entries.len(), 1);
    assert_eq!(snapshot.blog_entries[0].metadata.slug, "old-post");
    // A read started after the replace sees only the new entries.
    let fresh = model.read();
    assert_eq!(fresh.blog_entries[0].metadata.slug, "new-post");
}

#[test]
fn failed_rebuild_leaves_the_model_untouched() {
    let mut model = UpdatingSite::new(built_site("good"));
    let failure: Result<Site, BuildError> = Err(BuildError::MalformedContent {
        path: "/content/blog/bad/content.md".to_string(),
    });
    let replaced = model.apply_build_result(failure);
    assert!(!replaced);
    assert_eq!(model.read().blog_entries[0].metadata.slug, "good");
}

#[test]
fn successful_rebuild_replaces_the_model() {
    let mut model = UpdatingSite::new(built_site("good"));
    let replaced = model.apply_build_result(Ok(built_site("better")));
    assert!(replaced);
    assert_eq!(model.read().blog_entries[0].metadata.slug, "better");
}

#[test]
fn duplicate_slug_rebuild_does_not_reach_the_model() {
    let mut model = UpdatingSite::new(built_site("good"));
    let units = vec![
        ContentUnit {
            name: "a".to_string(),
            path: "/content/blog/a".to_string(),
            content: "+++\nslug = \"same\"\n+++\nx".to_string(),
            associated_file_paths: Vec::new(),
            fallback_created_at: 0,
        },
        ContentUnit {
            name: "b".to_string(),
            path: "/content/blog/b".to_string(),
            content: "+++\nslug = \"same\"\n+++\ny".to_string(),
            associated_file_paths: Vec::new(),
            fallback_created_at: 0,
        },
    ];
    let result = Site::build(units, "/rendered/blog").map(|out| out.site);
    assert!(matches!(result, Err(BuildError::DuplicateSlug { .. })));
    model.apply_build_result(result);
    assert_eq!(model.read().blog_entries[0].metadata.slug, "good");
}

#[test]
fn malformed_rebuild_does_not_reach_the_model() {
    let mut model = UpdatingSite::new(built_site("good"));
    let units = vec![ContentUnit {
        name: "bad".to_string(),
        path: "/content/blog/bad".to_string(),
        content: "no delimiter first".to_string(),
        associated_file_paths: Vec::new(),
        fallback_created_at: 0,
    }];
    let result = Site::build(units, "/rendered/blog").map(|out| out.site);
    assert!(matches!(result, Err(BuildError::MalformedContent { .. })));
    model.apply_build_result(result);
    assert_eq!(model.read().blog_entries[0].metadata.slug, "good");
}

#[test]
fn access_notifications_are_discarded_and_changes_rebuild() {
    assert!(!event_triggers_rebuild(&WatchEventKind::Access));
    assert!(event_triggers_rebuild(&WatchEventKind::Create));
    assert!(event_triggers_rebuild(&WatchEventKind::Modify));
    assert!(event_triggers_rebuild(&WatchEventKind::Remove));
    assert!(event_triggers_rebuild(&WatchEventKind::Other));
}
