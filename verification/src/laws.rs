//! Laws of the ingestion pipeline, proved over the same spec functions
//! that the executable functions' contracts use.

use vstd::prelude::*;

use crate::catalog::{
    cap_limit, has_post, has_source, path_known, post_index, spec_matches, spec_outcome,
    spec_search, spec_upsert, wf, CatalogView, UpsertOutcome, SEARCH_LIMIT,
};
use crate::engine::{spec_apply_item, spec_apply_items, spec_filter, HashedFileView};
use crate::paths::spec_extension;
use crate::post::{dup_token, is_flagged, missing_token};

verus! {

/// A sighting of a file with no extension leaves the catalog exactly as
/// it was: no post, no alternate row, no tag change, whatever the query.
pub proof fn lemma_no_extension_skipped(c: CatalogView, item: HashedFileView, now: u32)
    requires
        spec_extension(item.path) is None,
    ensures
        spec_apply_item(c, item, now) == c,
{
}

/// A duplicate sighting of a post already flagged `has_duplicates`
/// records the pair as an alternate source path and leaves every post —
/// the canonical path included — untouched.
pub proof fn lemma_flagged_records_alternate(
    c: CatalogView,
    h: Seq<char>,
    p: Seq<char>,
    ext: Seq<char>,
    size: u32,
    now: u32,
)
    requires
        wf(c),
        has_post(c, h),
        is_flagged(c.posts[post_index(c, h)]),
    ensures
        spec_outcome(c, h, p) == UpsertOutcome::RecordedAlternate,
        spec_upsert(c, h, p, ext, size, now).posts == c.posts,
        has_source(spec_upsert(c, h, p, ext, size, now), h, p),
{
    let c2 = spec_upsert(c, h, p, ext, size, now);
    if !has_source(c, h, p) {
        assert(c2.sources[c.sources.len() as int].md5 == h);
        assert(c2.sources[c.sources.len() as int].source_path == p);
    }
}

/// A duplicate sighting of a post not flagged `has_duplicates`, at a path
/// that differs from its canonical one, moves the canonical path to the
/// new path, prepends the `has_duplicates` token, and records no
/// alternate row.
pub proof fn lemma_unflagged_updates(
    c: CatalogView,
    h: Seq<char>,
    p: Seq<char>,
    ext: Seq<char>,
    size: u32,
    now: u32,
)
    requires
        wf(c),
        has_post(c, h),
        !is_flagged(c.posts[post_index(c, h)]),
        c.posts[post_index(c, h)].source_path != p,
    ensures
        spec_outcome(c, h, p) == UpsertOutcome::Updated,
        spec_upsert(c, h, p, ext, size, now).sources == c.sources,
        spec_upsert(c, h, p, ext, size, now).posts.len() == c.posts.len(),
        spec_upsert(c, h, p, ext, size, now).posts[post_index(c, h)].source_path == p,
        is_flagged(spec_upsert(c, h, p, ext, size, now).posts[post_index(c, h)]),
        spec_upsert(c, h, p, ext, size, now).posts[post_index(c, h)].tags == seq![dup_token()]
            + c.posts[post_index(c, h)].tags,
    decreases 0int,
{
    let i = post_index(c, h);
    let c2 = spec_upsert(c, h, p, ext, size, now);
    assert(c2.posts[i].tags[0] == dup_token());
    assert(is_flagged(c2.posts[i]));
}

/// Two sightings of the same fresh content hash at two distinct paths
/// within one scan — in either order, since the paths are arbitrary —
/// leave exactly one new post carrying that hash: its canonical path is
/// the second-sighted path, its tags carry `has_duplicates`, and no
/// alternate row is recorded for it.
pub proof fn lemma_dedup_two_sightings(
    c: CatalogView,
    h: Seq<char>,
    p1: Seq<char>,
    p2: Seq<char>,
    ext1: Seq<char>,
    ext2: Seq<char>,
    s1: u32,
    s2: u32,
    n1: u32,
    n2: u32,
)
    requires
        wf(c),
        !has_post(c, h),
        p1 != p2,
        c.next_id < u32::MAX,
    ensures
        spec_outcome(c, h, p1) == UpsertOutcome::Inserted,
        spec_outcome(spec_upsert(c, h, p1, ext1, s1, n1), h, p2) == UpsertOutcome::Updated,
        spec_upsert(spec_upsert(c, h, p1, ext1, s1, n1), h, p2, ext2, s2, n2).posts.len()
            == c.posts.len() + 1,
        spec_upsert(spec_upsert(c, h, p1, ext1, s1, n1), h, p2, ext2, s2, n2).sources == c.sources,
        has_post(spec_upsert(spec_upsert(c, h, p1, ext1, s1, n1), h, p2, ext2, s2, n2), h),
        is_flagged(
            spec_upsert(spec_upsert(c, h, p1, ext1, s1, n1), h, p2, ext2, s2, n2).posts[post_index(
                spec_upsert(spec_upsert(c, h, p1, ext1, s1, n1), h, p2, ext2, s2, n2),
                h,
            )],
        ),
        spec_upsert(spec_upsert(c, h, p1, ext1, s1, n1), h, p2, ext2, s2, n2).posts[post_index(
            spec_upsert(spec_upsert(c, h, p1, ext1, s1, n1), h, p2, ext2, s2, n2),
            h,
        )].source_path == p2,
{
    let c1 = spec_upsert(c, h, p1, ext1, s1, n1);
    let m = c.posts.len() as int;
    assert(c1.posts[m].md5 == h);
    assert(has_post(c1, h));
    let k = post_index(c1, h);
    assert(0 <= k < c1.posts.len() && c1.posts[k].md5 == h);
    if k != m {
        assert(c.posts[k].md5 == h);
        assert(false);
    }
    assert(c1.posts[m].tags == seq![missing_token()]);
    reveal_strlit("missing_tags");
    reveal_strlit("has_duplicates");
    assert(missing_token().len() != dup_token().len());
    assert(!is_flagged(c1.posts[m])) by {
        assert(forall|j: int|
            0 <= j < c1.posts[m].tags.len() ==> c1.posts[m].tags[j] != dup_token());
    }
    assert(c1.posts[m].source_path == p1);
    let c2 = spec_upsert(c1, h, p2, ext2, s2, n2);
    assert(c2.posts[m].md5 == h);
    assert(has_post(c2, h));
    let k2 = post_index(c2, h);
    assert(0 <= k2 < c2.posts.len() && c2.posts[k2].md5 == h);
    if k2 != m {
        assert(c.posts[k2].md5 == h);
        assert(false);
    }
    assert(c2.posts[m].tags[0] == dup_token());
    assert(is_flagged(c2.posts[m]));
}

/// A sighting of a hashed file that has an extension always leaves its
/// path recorded: as the canonical path of a new or updated post, or as
/// an alternate source row.
pub proof fn lemma_apply_records_path(c: CatalogView, item: HashedFileView, now: u32)
    requires
        wf(c),
        c.next_id < u32::MAX,
        spec_extension(item.path) is Some,
        item.hash is Some,
    ensures
        path_known(spec_apply_item(c, item, now), item.path),
{
    let h = item.hash.unwrap();
    let p = item.path;
    let c2 = spec_apply_item(c, item, now);
    if !has_post(c, h) {
        assert(c2.posts[c.posts.len() as int].source_path == p);
    } else {
        let i = post_index(c, h);
        if !is_flagged(c.posts[i]) && c.posts[i].source_path != p {
            assert(c2.posts[i].source_path == p);
        } else if has_source(c, h, p) {
            let j = choose|j: int|
                0 <= j < c.sources.len() && (#[trigger] c.sources[j]).md5 == h
                    && c.sources[j].source_path == p;
            assert(c2.sources[j].source_path == p);
        } else {
            assert(c2.sources[c.sources.len() as int].source_path == p);
        }
    }
}

/// If every candidate whose path has an extension is already recorded,
/// the known-path pre-filter leaves only extension-less candidates.
pub proof fn lemma_filter_leaves_no_extension(c: CatalogView, paths: Seq<Seq<char>>)
    requires
        forall|k: int|
            0 <= k < paths.len() ==> path_known(c, #[trigger] paths[k]) || spec_extension(
                paths[k],
            ) is None,
    ensures
        forall|k: int|
            0 <= k < spec_filter(c, paths).len() ==> spec_extension(
                #[trigger] spec_filter(c, paths)[k],
            ) is None,
    decreases paths.len(),
{
    if paths.len() > 0 {
        assert(forall|k: int|
            0 <= k < paths.drop_first().len() ==> paths.drop_first()[k] == paths[k + 1]);
        lemma_filter_leaves_no_extension(c, paths.drop_first());
        if !path_known(c, paths[0]) {
            assert(spec_filter(c, paths) == seq![paths[0]] + spec_filter(c, paths.drop_first()));
        }
    }
}

/// Applying candidates that all lack extensions changes nothing.
pub proof fn lemma_apply_no_extension_noop(c: CatalogView, items: Seq<HashedFileView>, now: u32)
    requires
        forall|k: int|
            0 <= k < items.len() ==> spec_extension((#[trigger] items[k]).path) is None,
    ensures
        spec_apply_items(c, items, now) == c,
    decreases items.len(),
{
    if items.len() > 0 {
        assert(spec_apply_item(c, items[0], now) == c);
        assert(forall|k: int|
            0 <= k < items.drop_first().len() ==> items.drop_first()[k] == items[k + 1]);
        lemma_apply_no_extension_noop(c, items.drop_first(), now);
    }
}

/// Rescanning an unchanged source tree: when the first scan left every
/// tree path that has an extension recorded in the catalog, the second
/// scan's pre-filter keeps only extension-less candidates, and applying
/// them produces zero new posts, zero new alternate rows and zero tag
/// changes, whatever they hash to.
pub proof fn lemma_second_scan_no_change(
    c1: CatalogView,
    paths: Seq<Seq<char>>,
    items: Seq<HashedFileView>,
    now: u32,
)
    requires
        forall|k: int|
            0 <= k < paths.len() ==> path_known(c1, #[trigger] paths[k]) || spec_extension(
                paths[k],
            ) is None,
        items.len() == spec_filter(c1, paths).len(),
        forall|k: int| 0 <= k < items.len() ==> (#[trigger] items[k]).path == spec_filter(
            c1,
            paths,
        )[k],
    ensures
        spec_apply_items(c1, items, now) == c1,
{
    lemma_filter_leaves_no_extension(c1, paths);
    assert(forall|k: int|
        0 <= k < items.len() ==> spec_extension((#[trigger] items[k]).path) is None);
    lemma_apply_no_extension_noop(c1, items, now);
}

/// A scan whose candidates carry pairwise distinct content hashes, none
/// of them already in the catalog, only appends posts: every post already
/// present — its canonical path included — stays at its index.
pub proof fn lemma_fresh_distinct_extends(c: CatalogView, items: Seq<HashedFileView>, now: u32)
    requires
        wf(c),
        c.next_id + items.len() <= u32::MAX,
        forall|k: int| 0 <= k < items.len() ==> (#[trigger] items[k]).hash is Some,
        forall|k: int| 0 <= k < items.len() ==> !has_post(c, (#[trigger] items[k]).hash.unwrap()),
        forall|k: int, l: int|
            0 <= k < l < items.len() ==> (#[trigger] items[k]).hash.unwrap() != (
            #[trigger] items[l]).hash.unwrap(),
    ensures
        wf(spec_apply_items(c, items, now)),
        spec_apply_items(c, items, now).posts.len() >= c.posts.len(),
        forall|i: int|
            0 <= i < c.posts.len() ==> spec_apply_items(c, items, now).posts[i] == c.posts[i],
        spec_apply_items(c, items, now).sources == c.sources,
    decreases items.len(),
{
    crate::engine::lemma_apply_items_wf(c, items, now);
    if items.len() > 0 {
        let c1 = spec_apply_item(c, items[0], now);
        let rest = items.drop_first();
        assert(forall|k: int| 0 <= k < rest.len() ==> rest[k] == items[k + 1]);
        match spec_extension(items[0].path) {
            None => {
                assert(c1 == c);
            },
            Some(e) => {
                assert(spec_outcome(c, items[0].hash.unwrap(), items[0].path)
                    == UpsertOutcome::Inserted);
            },
        }
        assert(forall|i: int| 0 <= i < c.posts.len() ==> c1.posts[i] == c.posts[i]);
        assert(forall|k: int|
            0 <= k < rest.len() ==> !has_post(c1, (#[trigger] rest[k]).hash.unwrap())) by {
            assert forall|k: int|
                0 <= k < rest.len() implies !has_post(c1, (#[trigger] rest[k]).hash.unwrap()) by {
                let h = rest[k].hash.unwrap();
                assert(h == items[k + 1].hash.unwrap());
                assert(h != items[0].hash.unwrap());
                if has_post(c1, h) {
                    let i = choose|i: int|
                        0 <= i < c1.posts.len() && (#[trigger] c1.posts[i]).md5 == h;
                    if i < c.posts.len() {
                        assert(c.posts[i].md5 == h);
                    }
                }
            }
        }
        crate::catalog::lemma_upsert_preserves_wf(
            c,
            items[0].hash.unwrap(),
            items[0].path,
            crate::paths::lower_of(spec_extension(items[0].path).unwrap()),
            items[0].size,
            now,
        );
        lemma_fresh_distinct_extends(c1, rest, now);
    }
}

/// A scan whose candidates carry pairwise distinct content hashes, none of
/// them already in the catalog, leaves every candidate path that has an
/// extension recorded — so a rescan of the unchanged tree meets the
/// hypothesis of `lemma_second_scan_no_change` and changes nothing.
pub proof fn lemma_fresh_distinct_all_recorded(
    c: CatalogView,
    items: Seq<HashedFileView>,
    now: u32,
)
    requires
        wf(c),
        c.next_id + items.len() <= u32::MAX,
        forall|k: int| 0 <= k < items.len() ==> (#[trigger] items[k]).hash is Some,
        forall|k: int| 0 <= k < items.len() ==> !has_post(c, (#[trigger] items[k]).hash.unwrap()),
        forall|k: int, l: int|
            0 <= k < l < items.len() ==> (#[trigger] items[k]).hash.unwrap() != (
            #[trigger] items[l]).hash.unwrap(),
    ensures
        forall|k: int|
            0 <= k < items.len() && spec_extension((#[trigger] items[k]).path) is Some
                ==> path_known(spec_apply_items(c, items, now), items[k].path),
    decreases items.len(),
{
    if items.len() > 0 {
        let c1 = spec_apply_item(c, items[0], now);
        let rest = items.drop_first();
        assert(forall|k: int| 0 <= k < rest.len() ==> rest[k] == items[k + 1]);
        assert(forall|i: int| 0 <= i < c.posts.len() ==> c1.posts[i] == c.posts[i]);
        assert(forall|k: int|
            0 <= k < rest.len() ==> !has_post(c1, (#[trigger] rest[k]).hash.unwrap())) by {
            assert forall|k: int|
                0 <= k < rest.len() implies !has_post(c1, (#[trigger] rest[k]).hash.unwrap()) by {
                let h = rest[k].hash.unwrap();
                assert(h != items[0].hash.unwrap());
                if has_post(c1, h) {
                    let i = choose|i: int|
                        0 <= i < c1.posts.len() && (#[trigger] c1.posts[i]).md5 == h;
                    if i < c.posts.len() {
                        assert(c.posts[i].md5 == h);
                    }
                }
            }
        }
        crate::catalog::lemma_upsert_preserves_wf(
            c,
            items[0].hash.unwrap(),
            items[0].path,
            crate::paths::lower_of(spec_extension(items[0].path).unwrap()),
            items[0].size,
            now,
        );
        lemma_fresh_distinct_all_recorded(c1, rest, now);
        lemma_fresh_distinct_extends(c1, rest, now);
        let cf = spec_apply_items(c, items, now);
        assert(cf == spec_apply_items(c1, rest, now));
        assert forall|k: int|
            0 <= k < items.len() && spec_extension((#[trigger] items[k]).path) is Some
                implies path_known(cf, items[k].path) by {
            if k == 0 {
                // the first sighting inserts: its path is the canonical path
                // of the appended post, which later fresh sightings never
                // displace
                assert(c1.posts[c.posts.len() as int].source_path == items[0].path);
                assert(cf.posts[c.posts.len() as int].source_path == items[0].path);
            } else {
                assert(rest[k - 1] == items[k]);
                assert(path_known(spec_apply_items(c1, rest, now), rest[k - 1].path));
            }
        }
    }
}

/// The search bound: a query matching at least `SEARCH_LIMIT` posts
/// returns exactly `SEARCH_LIMIT` hits; one matching fewer — zero
/// included — returns exactly the matches, an empty result being a normal
/// outcome.
pub proof fn lemma_search_bound(c: CatalogView, q: Seq<char>)
    ensures
        spec_matches(c.posts, q).len() >= SEARCH_LIMIT ==> spec_search(c, q).len() == SEARCH_LIMIT,
        spec_matches(c.posts, q).len() < SEARCH_LIMIT ==> spec_search(c, q).len() == spec_matches(
            c.posts,
            q,
        ).len(),
{
    assert(cap_limit(spec_matches(c.posts, q)).len() == spec_search(c, q).len());
}

} // verus!
