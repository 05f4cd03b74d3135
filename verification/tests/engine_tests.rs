use vault::catalog::Catalog;
use vault::engine::{
    apply_batch, elapsed_since_epoch, failed_candidate, filter_candidates, hash_candidate,
    make_batches, run_scan, HashOutcome, HashedFile, ScanError,
};

fn fresh() -> Catalog {
    Catalog::new(0)
}

fn hashed(path: &str, fake_hash: &str) -> HashedFile {
    HashedFile {
        path: path.to_string(),
        size: 1,
        hash: HashOutcome::Hashed(fake_hash.to_string()),
    }
}

#[test]
fn md5_of_known_bytes() {
    let f = hash_candidate("a.bin".to_string(), 3, b"abc");
    match f.hash {
        HashOutcome::Hashed(h) => assert_eq!(h, "900150983cd24fb0d6963f7d28e17f72"),
        HashOutcome::ReadFailed => panic!("hash stage failed"),
    }
    let f = hash_candidate("e.bin".to_string(), 0, b"");
    match f.hash {
        HashOutcome::Hashed(h) => assert_eq!(h, "d41d8cd98f00b204e9800998ecf8427e"),
        HashOutcome::ReadFailed => panic!("hash stage failed"),
    }
}

#[test]
fn extension_is_lowercased_in_catalog() {
    let mut c = fresh();
    let batch = vec![hashed("shot.PNG", "h1")];
    apply_batch(&mut c, &batch, 1).expect("batch applies");
    assert_eq!(c.posts.len(), 1);
    assert_eq!(c.posts[0].file_ext, "png");
}

#[test]
fn no_extension_never_produces_rows() {
    let mut c = fresh();
    let batch = vec![hashed("README", "h1"), hashed(".hidden", "h2"), hashed("a/b/Makefile", "h3")];
    apply_batch(&mut c, &batch, 1).expect("batch applies");
    assert_eq!(c.posts.len(), 0);
    assert_eq!(c.sources.len(), 0);
    // And no tag or search surface can observe them.
    assert!(c.search("missing_tags").unwrap().is_empty());
}

#[test]
fn batch_with_read_failure_is_refused_whole() {
    let mut c = fresh();
    let batch = vec![hashed("ok.png", "h1"), failed_candidate("broken.png".to_string())];
    let r = apply_batch(&mut c, &batch, 1);
    assert_eq!(r, Err(ScanError::FileReadError));
    assert_eq!(c.posts.len(), 0);
}

#[test]
fn batch_boundary_on_fatal_error() {
    // Batch size 2 over five files, file 3 fails its read: files 1 and 2
    // are fully ingested, files 4 and 5 are never attempted.
    let mut c = fresh();
    let paths = vec![
        "f1.png".to_string(),
        "f2.png".to_string(),
        "f3.png".to_string(),
        "f4.png".to_string(),
        "f5.png".to_string(),
    ];
    let chunks = make_batches(&paths, 2);
    assert_eq!(chunks.len(), 3);
    assert_eq!(chunks[0].len(), 2);
    assert_eq!(chunks[2].len(), 1);
    let batches: Vec<Vec<HashedFile>> = chunks
        .iter()
        .map(|chunk| {
            chunk
                .iter()
                .map(|p| {
                    if p == "f3.png" {
                        failed_candidate(p.clone())
                    } else {
                        hashed(p, &format!("hash-{p}"))
                    }
                })
                .collect()
        })
        .collect();
    let r = run_scan(&mut c, &batches, 1);
    assert_eq!(r, Err(ScanError::FileReadError));
    assert_eq!(c.posts.len(), 2);
    assert!(c.does_source_exist("f1.png"));
    assert!(c.does_source_exist("f2.png"));
    assert!(!c.does_source_exist("f3.png"));
    assert!(!c.does_source_exist("f4.png"));
    assert!(!c.does_source_exist("f5.png"));
}

#[test]
fn rescan_of_unchanged_tree_adds_nothing() {
    let mut c = fresh();
    let paths = vec!["a.png".to_string(), "b.png".to_string(), "notes".to_string()];
    // First scan: all candidates survive the filter (empty catalog).
    let survivors = filter_candidates(&c, &paths);
    assert_eq!(survivors, paths);
    let batch: Vec<HashedFile> =
        survivors.iter().map(|p| hashed(p, &format!("hash-{p}"))).collect();
    apply_batch(&mut c, &batch, 1).expect("first scan");
    assert_eq!(c.posts.len(), 2);
    let posts_before = c.posts.clone();
    let sources_before = c.sources.len();
    // Second scan over the unchanged tree: the filter drops recorded paths,
    // and the extension-less survivor is skipped again.
    let survivors = filter_candidates(&c, &paths);
    assert_eq!(survivors, vec!["notes".to_string()]);
    let batch: Vec<HashedFile> =
        survivors.iter().map(|p| hashed(p, &format!("hash-{p}"))).collect();
    apply_batch(&mut c, &batch, 2).expect("second scan");
    assert_eq!(c.posts.len(), posts_before.len());
    assert_eq!(c.sources.len(), sources_before);
    for (a, b) in c.posts.iter().zip(posts_before.iter()) {
        assert_eq!(a.tags, b.tags);
        assert_eq!(a.updated_at, b.updated_at);
        assert_eq!(a.source_path, b.source_path);
    }
}

#[test]
fn filter_drops_known_paths_only() {
    let mut c = fresh();
    c.upsert("h1", "seen.png", "png", 1, 1);
    let paths = vec!["seen.png".to_string(), "new.png".to_string()];
    assert_eq!(filter_candidates(&c, &paths), vec!["new.png".to_string()]);
}

#[test]
fn make_batches_shapes() {
    let paths: Vec<String> = (0..5).map(|i| format!("p{i}")).collect();
    let b = make_batches(&paths, 2);
    assert_eq!(b, vec![
        vec!["p0".to_string(), "p1".to_string()],
        vec!["p2".to_string(), "p3".to_string()],
        vec!["p4".to_string()],
    ]);
    let b = make_batches(&paths, 10);
    assert_eq!(b.len(), 1);
    assert_eq!(b[0].len(), 5);
    let empty: Vec<String> = Vec::new();
    assert!(make_batches(&empty, 3).is_empty());
}

#[test]
fn epoch_invariant_violation_is_fatal() {
    assert_eq!(elapsed_since_epoch(99, 100), Err(ScanError::EpochInvariantViolation));
    assert_eq!(elapsed_since_epoch(100, 100), Ok(0));
    assert_eq!(elapsed_since_epoch(1234, 1000), Ok(234));
}
