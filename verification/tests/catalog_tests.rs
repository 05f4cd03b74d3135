use vault::catalog::{Catalog, DbError, UpsertOutcome, QueryError, SCHEMA_VERSION};
use vault::post::{Post, PostSource};

fn fresh() -> Catalog {
    Catalog::new(1_700_000_000)
}

fn tags_of(c: &Catalog, md5: &str) -> Vec<String> {
    for p in &c.posts {
        if p.md5 == md5 {
            return p.tags.clone();
        }
    }
    panic!("no post with hash {md5}");
}

#[test]
fn insert_fresh_hash_creates_post() {
    let mut c = fresh();
    let o = c.upsert("aaaa", "img/a.png", "png", 10, 5);
    assert_eq!(o, UpsertOutcome::Inserted);
    assert_eq!(c.posts.len(), 1);
    assert_eq!(c.posts[0].md5, "aaaa");
    assert_eq!(c.posts[0].source_path, "img/a.png");
    assert_eq!(c.posts[0].file_ext, "png");
    assert_eq!(c.posts[0].file_size, 10);
    assert_eq!(c.posts[0].created_at, 5);
    assert_eq!(c.posts[0].updated_at, 5);
    assert_eq!(c.posts[0].tags, vec!["missing_tags".to_string()]);
    assert_eq!(c.sources.len(), 0);
}

#[test]
fn dedup_two_identical_files_single_post() {
    // Two distinct files with identical bytes within one scan, order one.
    let mut c = fresh();
    assert_eq!(c.upsert("h1", "a.png", "png", 4, 1), UpsertOutcome::Inserted);
    assert_eq!(c.upsert("h1", "b.png", "png", 4, 1), UpsertOutcome::Updated);
    assert_eq!(c.posts.len(), 1);
    assert_eq!(c.posts[0].source_path, "b.png");
    assert!(tags_of(&c, "h1").contains(&"has_duplicates".to_string()));
    // The displaced canonical path is deliberately not kept as an alternate.
    assert_eq!(c.sources.len(), 0);
}

#[test]
fn dedup_two_identical_files_other_order() {
    let mut c = fresh();
    assert_eq!(c.upsert("h1", "b.png", "png", 4, 1), UpsertOutcome::Inserted);
    assert_eq!(c.upsert("h1", "a.png", "png", 4, 1), UpsertOutcome::Updated);
    assert_eq!(c.posts.len(), 1);
    assert_eq!(c.posts[0].source_path, "a.png");
    assert!(tags_of(&c, "h1").contains(&"has_duplicates".to_string()));
    assert_eq!(c.sources.len(), 0);
}

#[test]
fn flagged_post_records_alternate_not_update() {
    let mut c = fresh();
    c.upsert("h1", "a.png", "png", 4, 1);
    c.upsert("h1", "b.png", "png", 4, 2);
    // The post is now flagged: a third sighting must not move the canonical path.
    let o = c.upsert("h1", "c.png", "png", 4, 3);
    assert_eq!(o, UpsertOutcome::RecordedAlternate);
    assert_eq!(c.posts.len(), 1);
    assert_eq!(c.posts[0].source_path, "b.png");
    assert_eq!(c.sources.len(), 1);
    assert_eq!(c.sources[0].md5, "h1");
    assert_eq!(c.sources[0].source_path, "c.png");
}

#[test]
fn unflagged_differing_path_updates_canonical() {
    let mut c = fresh();
    c.upsert("h9", "x/old.gif", "gif", 7, 1);
    let o = c.upsert("h9", "x/new.gif", "gif", 7, 9);
    assert_eq!(o, UpsertOutcome::Updated);
    assert_eq!(c.posts[0].source_path, "x/new.gif");
    assert_eq!(c.posts[0].updated_at, 9);
    assert_eq!(c.posts[0].created_at, 1);
    assert_eq!(
        c.posts[0].tags,
        vec!["has_duplicates".to_string(), "missing_tags".to_string()]
    );
}

#[test]
fn same_path_duplicate_records_alternate_once() {
    let mut c = fresh();
    c.upsert("h2", "a.jpg", "jpg", 3, 1);
    // Same canonical path again: not an update, an (ignored-duplicate) alternate.
    assert_eq!(c.upsert("h2", "a.jpg", "jpg", 3, 2), UpsertOutcome::RecordedAlternate);
    assert_eq!(c.upsert("h2", "a.jpg", "jpg", 3, 3), UpsertOutcome::RecordedAlternate);
    assert_eq!(c.posts[0].source_path, "a.jpg");
    assert_eq!(c.sources.len(), 1);
}

#[test]
fn search_bound_fifty_of_two_hundred() {
    let mut c = fresh();
    for i in 0..200u32 {
        let h = format!("hash{i}");
        let p = format!("f{i}.png");
        c.upsert(&h, &p, "png", 1, 1);
    }
    assert_eq!(c.posts.len(), 200);
    let hits = c.search("missing_tags").expect("valid query");
    assert_eq!(hits.len(), 50);
    // Stable, catalog-ordered results.
    assert_eq!(hits[0].source_path, "f0.png");
    assert_eq!(hits[49].source_path, "f49.png");
}

#[test]
fn search_no_match_is_empty_not_error() {
    let mut c = fresh();
    c.upsert("h1", "a.png", "png", 1, 1);
    let hits = c.search("nothing_here").expect("valid query");
    assert!(hits.is_empty());
}

#[test]
fn search_syntax_failure_is_distinguishable() {
    let c = fresh();
    assert_eq!(c.search("").unwrap_err(), QueryError::Syntax);
    assert_eq!(c.search("two words").unwrap_err(), QueryError::Syntax);
}

#[test]
fn schema_gate_higher_lower_equal() {
    // One above the supported version: too new.
    let r = Catalog::open(false, true, SCHEMA_VERSION + 1, 42);
    assert!(matches!(r, Err(DbError::SchemaVersionTooHigh)));
    // Equal: succeeds and exposes the stored epoch anchor.
    let c = Catalog::open(false, true, SCHEMA_VERSION, 42).expect("open");
    assert_eq!(c.epoch, 42);
    // The supported version is the lowest one expressible, so "one below"
    // cannot be stored; any higher stored version is rejected as too new.
    assert!(matches!(
        vault::catalog::migrate_schema(SCHEMA_VERSION + 7),
        Err(DbError::SchemaVersionTooHigh)
    ));
    assert!(vault::catalog::migrate_schema(SCHEMA_VERSION).is_ok());
}

#[test]
fn open_gate_init_and_missing_store() {
    assert!(matches!(
        Catalog::open(true, true, SCHEMA_VERSION, 0),
        Err(DbError::InitExists)
    ));
    assert!(matches!(
        Catalog::open(false, false, SCHEMA_VERSION, 0),
        Err(DbError::UninitNotExists)
    ));
    assert!(Catalog::open(true, false, SCHEMA_VERSION, 0).is_ok());
}

#[test]
fn set_tags_replaces_and_reports_rows() {
    let mut c = fresh();
    c.upsert("h1", "a.png", "png", 1, 1);
    let id = c.posts[0].id;
    let rows = c.set_tags(id, vec!["landscape".to_string(), "night".to_string()]);
    assert_eq!(rows, 1);
    assert_eq!(
        c.posts[0].tags,
        vec!["landscape".to_string(), "night".to_string()]
    );
    // Unknown id: zero rows affected, not an error.
    let rows = c.set_tags(id + 1000, vec!["x".to_string()]);
    assert_eq!(rows, 0);
}

#[test]
fn does_source_exist_sees_canonical_and_alternate() {
    let mut c = fresh();
    c.upsert("h1", "a.png", "png", 1, 1);
    c.upsert("h1", "b.png", "png", 1, 2);
    c.upsert("h1", "c.png", "png", 1, 3);
    assert!(c.does_source_exist("b.png"));
    assert!(c.does_source_exist("c.png"));
    assert!(!c.does_source_exist("d.png"));
    // The displaced prior canonical is no longer recorded anywhere.
    assert!(!c.does_source_exist("a.png"));
}

#[test]
fn restore_rows_from_storage() {
    let mut c = fresh();
    let taken = c.restore_post(Post {
        id: 7,
        created_at: 1,
        updated_at: 2,
        md5: "h7".to_string(),
        source_path: "seven.png".to_string(),
        file_ext: "png".to_string(),
        file_size: 77,
        tags: vec!["missing_tags".to_string()],
    });
    assert!(taken);
    // A duplicate hash or id is refused.
    let dup = c.restore_post(Post {
        id: 8,
        created_at: 1,
        updated_at: 2,
        md5: "h7".to_string(),
        source_path: "other.png".to_string(),
        file_ext: "png".to_string(),
        file_size: 1,
        tags: vec![],
    });
    assert!(!dup);
    assert!(c.restore_source(PostSource {
        md5: "h7".to_string(),
        source_path: "alt.png".to_string(),
    }));
    assert!(!c.restore_source(PostSource {
        md5: "h7".to_string(),
        source_path: "alt.png".to_string(),
    }));
    assert_eq!(c.sources.len(), 1);
    // Fresh inserts get ids above any restored one.
    c.upsert("h8", "eight.png", "png", 1, 1);
    assert_eq!(c.posts[1].id, 8);
}
