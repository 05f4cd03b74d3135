//! The catalog: one `Post` per distinct content hash, alternate source
//! paths in `PostSource` rows, the hash-keyed upsert that decides between
//! insert, update and record-alternate, tag search bounded to 50 hits, and
//! the schema gate checked when a store is opened.

use vstd::prelude::*;

use crate::post::{
    dup_token, has_token, is_flagged, missing_token, str_eq, tags_contain, Post, PostSource,
    PostView, SourceView,
};

verus! {

/// Schema version this implementation supports.
pub const SCHEMA_VERSION: u32 = 0;

/// Upper bound on the number of search results.
pub const SEARCH_LIMIT: usize = 50;

/// Failures when opening or initializing a store.
#[derive(Clone, Copy, PartialEq, Eq, Structural, Debug)]
pub enum DbError {
    /// `init` was requested but a store already exists at the location.
    InitExists,
    /// A non-init open was requested but no store exists.
    UninitNotExists,
    /// The store's schema version is newer than this implementation supports.
    SchemaVersionTooHigh,
    /// The store's schema version is older than this implementation supports.
    SchemaVersionTooLow,
}

/// What the upsert did with a sighting.
#[derive(Clone, Copy, PartialEq, Eq, Structural, Debug)]
pub enum UpsertOutcome {
    /// First sighting of the content hash: a new post was created.
    Inserted,
    /// A duplicate sighting moved the canonical path and flagged the post.
    Updated,
    /// A duplicate sighting was recorded (at most once) as an alternate path.
    RecordedAlternate,
}

/// A query-syntax failure, distinct from an empty result.
#[derive(Clone, Copy, PartialEq, Eq, Structural, Debug)]
pub enum QueryError {
    /// The tag expression is empty or holds whitespace.
    Syntax,
}

/// One search result: the post's id, canonical path and tags.
#[derive(Clone, Debug)]
pub struct SearchHit {
    pub id: u32,
    pub source_path: String,
    pub tags: Vec<String>,
}

/// Ghost view of a `SearchHit`.
pub ghost struct SearchHitView {
    pub id: u32,
    pub source_path: Seq<char>,
    pub tags: Seq<Seq<char>>,
}

impl View for SearchHit {
    type V = SearchHitView;

    open spec fn view(&self) -> SearchHitView {
        SearchHitView { id: self.id, source_path: self.source_path@, tags: self.tags.deep_view() }
    }
}

/// The persistent catalog state: posts keyed by content hash, alternate
/// source paths, and the epoch anchor that timestamps are measured from.
pub struct Catalog {
    pub posts: Vec<Post>,
    pub sources: Vec<PostSource>,
    /// The catalog's epoch anchor, in wall-clock seconds.
    pub epoch: u32,
    /// The id the next inserted post will receive.
    pub next_id: u32,
}

/// Ghost view of the catalog.
pub ghost struct CatalogView {
    pub posts: Seq<PostView>,
    pub sources: Seq<SourceView>,
    pub epoch: u32,
    pub next_id: u32,
}

impl View for Catalog {
    type V = CatalogView;

    open spec fn view(&self) -> CatalogView {
        CatalogView {
            posts: self.posts@.map_values(|p: Post| p@),
            sources: self.sources@.map_values(|s: PostSource| s@),
            epoch: self.epoch,
            next_id: self.next_id,
        }
    }
}

/// Well-formedness: content hashes and ids identify at most one post, and
/// every id is below the next fresh id.
pub open spec fn wf(c: CatalogView) -> bool {
    &&& forall|i: int, j: int|
        0 <= i < j < c.posts.len() ==> (#[trigger] c.posts[i]).md5 != (#[trigger] c.posts[j]).md5
    &&& forall|i: int, j: int|
        0 <= i < j < c.posts.len() ==> (#[trigger] c.posts[i]).id != (#[trigger] c.posts[j]).id
    &&& forall|i: int| 0 <= i < c.posts.len() ==> (#[trigger] c.posts[i]).id < c.next_id
}

/// Whether some post carries the given content hash.
pub open spec fn has_post(c: CatalogView, h: Seq<char>) -> bool {
    exists|i: int| 0 <= i < c.posts.len() && (#[trigger] c.posts[i]).md5 == h
}

/// Index of the post carrying the given content hash.
pub open spec fn post_index(c: CatalogView, h: Seq<char>) -> int {
    choose|i: int| 0 <= i < c.posts.len() && (#[trigger] c.posts[i]).md5 == h
}

/// Whether the exact (hash, path) pair is recorded as an alternate source.
pub open spec fn has_source(c: CatalogView, h: Seq<char>, p: Seq<char>) -> bool {
    exists|i: int|
        0 <= i < c.sources.len() && (#[trigger] c.sources[i]).md5 == h
            && c.sources[i].source_path == p
}

/// Whether the path is recorded, as a canonical or an alternate source path.
pub open spec fn path_known(c: CatalogView, p: Seq<char>) -> bool {
    ||| exists|i: int| 0 <= i < c.posts.len() && (#[trigger] c.posts[i]).source_path == p
    ||| exists|i: int| 0 <= i < c.sources.len() && (#[trigger] c.sources[i]).source_path == p
}

/// The post a first sighting creates: both timestamps at `now`, tags
/// initialized to the `missing_tags` sentinel.
pub open spec fn new_post_view(
    c: CatalogView,
    h: Seq<char>,
    p: Seq<char>,
    ext: Seq<char>,
    size: u32,
    now: u32,
) -> PostView {
    PostView {
        id: c.next_id,
        created_at: now,
        updated_at: now,
        md5: h,
        source_path: p,
        file_ext: ext,
        file_size: size,
        tags: seq![missing_token()],
    }
}

/// A qualifying duplicate sighting: the canonical path moves to the new
/// path, `has_duplicates` is prepended, and `updated_at` is refreshed.
pub open spec fn updated_post_view(po: PostView, p: Seq<char>, now: u32) -> PostView {
    PostView { updated_at: now, source_path: p, tags: seq![dup_token()] + po.tags, ..po }
}

/// The decision the upsert takes for a sighting of hash `h` at path `p`.
pub open spec fn spec_outcome(c: CatalogView, h: Seq<char>, p: Seq<char>) -> UpsertOutcome {
    if !has_post(c, h) {
        UpsertOutcome::Inserted
    } else if !is_flagged(c.posts[post_index(c, h)]) && c.posts[post_index(c, h)].source_path != p {
        UpsertOutcome::Updated
    } else {
        UpsertOutcome::RecordedAlternate
    }
}

/// The catalog state after one sighting is applied: exactly one of insert,
/// update, or record-alternate (the latter ignored if the pair exists).
pub open spec fn spec_upsert(
    c: CatalogView,
    h: Seq<char>,
    p: Seq<char>,
    ext: Seq<char>,
    size: u32,
    now: u32,
) -> CatalogView {
    if !has_post(c, h) {
        CatalogView {
            posts: c.posts.push(new_post_view(c, h, p, ext, size, now)),
            next_id: (c.next_id + 1) as u32,
            ..c
        }
    } else {
        let i = post_index(c, h);
        let po = c.posts[i];
        if !is_flagged(po) && po.source_path != p {
            CatalogView { posts: c.posts.update(i, updated_post_view(po, p, now)), ..c }
        } else if has_source(c, h, p) {
            c
        } else {
            CatalogView { sources: c.sources.push(SourceView { md5: h, source_path: p }), ..c }
        }
    }
}

/// The upsert preserves well-formedness.
pub proof fn lemma_upsert_preserves_wf(
    c: CatalogView,
    h: Seq<char>,
    p: Seq<char>,
    ext: Seq<char>,
    size: u32,
    now: u32,
)
    requires
        wf(c),
        c.next_id < u32::MAX,
    ensures
        wf(spec_upsert(c, h, p, ext, size, now)),
{
    let c2 = spec_upsert(c, h, p, ext, size, now);
    if !has_post(c, h) {
        assert forall|i: int, j: int| 0 <= i < j < c2.posts.len() implies (#[trigger] c2.posts[i]).md5
            != (#[trigger] c2.posts[j]).md5 by {
            if j == c.posts.len() {
                assert(!(0 <= i < c.posts.len() && c.posts[i].md5 == h));
            }
        }
    }
}

impl Catalog {
    /// A fresh, empty catalog anchored at the given epoch.
    pub fn new(epoch: u32) -> (c: Catalog)
        ensures
            c@.posts =~= Seq::<PostView>::empty(),
            c@.sources =~= Seq::<SourceView>::empty(),
            c@.epoch == epoch,
            c@.next_id == 1,
            wf(c@),
    {
        Catalog { posts: Vec::new(), sources: Vec::new(), epoch, next_id: 1 }
    }

    /// Gate applied when a store is opened or initialized: `init` against an
    /// existing store and a plain open of a missing store each fail with
    /// their own error; otherwise the stored schema version must equal the
    /// supported one, and the resulting catalog is empty and exposes the
    /// stored epoch anchor.
    pub fn open(init: bool, store_exists: bool, stored_version: u32, epoch: u32) -> (r: Result<
        Catalog,
        DbError,
    >)
        ensures
            (r matches Err(DbError::InitExists)) <==> (init && store_exists),
            (r matches Err(DbError::UninitNotExists)) <==> (!init && !store_exists),
            (r matches Err(DbError::SchemaVersionTooHigh)) <==> (init != store_exists
                && stored_version > SCHEMA_VERSION),
            (r matches Err(DbError::SchemaVersionTooLow)) <==> (init != store_exists
                && stored_version < SCHEMA_VERSION),
            (r is Ok) <==> (init != store_exists && stored_version == SCHEMA_VERSION),
            r matches Ok(c) ==> c@.posts =~= Seq::<PostView>::empty() && c@.sources =~= Seq::<
                SourceView,
            >::empty() && c@.epoch == epoch && wf(c@),
    {
        if init && store_exists {
            return Err(DbError::InitExists);
        }
        if !init && !store_exists {
            return Err(DbError::UninitNotExists);
        }
        match migrate_schema(stored_version) {
            Err(e) => Err(e),
            Ok(()) => Ok(Catalog::new(epoch)),
        }
    }

    /// Index of the post carrying this hash, if any.
    fn find_post(&self, md5: &str) -> (r: Option<usize>)
        requires
            wf(self@),
        ensures
            match r {
                Some(i) => i < self.posts.len() && self@.posts[i as int].md5 == md5@ && has_post(
                    self@,
                    md5@,
                ) && i as int == post_index(self@, md5@),
                None => !has_post(self@, md5@),
            },
    {
        let mut i: usize = 0;
        while i < self.posts.len()
            invariant
                wf(self@),
                0 <= i <= self.posts.len(),
                forall|j: int| 0 <= j < i ==> (#[trigger] self@.posts[j]).md5 != md5@,
            decreases self.posts.len() - i,
        {
            if str_eq(self.posts[i].md5.as_str(), md5) {
                assert(self@.posts[i as int].md5 == md5@);
                assert(i as int == post_index(self@, md5@)) by {
                    let k = post_index(self@, md5@);
                    assert(0 <= k < self@.posts.len() && self@.posts[k].md5 == md5@);
                }
                return Some(i);
            }
            i += 1;
        }
        None
    }

    /// Whether the exact (hash, path) pair is already an alternate source row.
    fn find_source(&self, md5: &str, source_path: &str) -> (r: bool)
        ensures
            r == has_source(self@, md5@, source_path@),
    {
        let mut i: usize = 0;
        while i < self.sources.len()
            invariant
                0 <= i <= self.sources.len(),
                forall|j: int|
                    0 <= j < i ==> !((#[trigger] self@.sources[j]).md5 == md5@
                        && self@.sources[j].source_path == source_path@),
            decreases self.sources.len() - i,
        {
            if str_eq(self.sources[i].md5.as_str(), md5) && str_eq(
                self.sources[i].source_path.as_str(),
                source_path,
            ) {
                assert(self@.sources[i as int].md5 == md5@ && self@.sources[i as int].source_path
                    == source_path@);
                assert(has_source(self@, md5@, source_path@));
                return true;
            }
            i += 1;
        }
        false
    }

    /// Whether the relative path is already recorded, canonically or as an
    /// alternate; the read-only pre-filter of the ingestion pipeline.
    pub fn does_source_exist(&self, source_path: &str) -> (r: bool)
        ensures
            r == path_known(self@, source_path@),
    {
        let mut i: usize = 0;
        while i < self.posts.len()
            invariant
                0 <= i <= self.posts.len(),
                forall|j: int| 0 <= j < i ==> (#[trigger] self@.posts[j]).source_path != source_path@,
            decreases self.posts.len() - i,
        {
            if str_eq(self.posts[i].source_path.as_str(), source_path) {
                assert(self@.posts[i as int].source_path == source_path@);
                return true;
            }
            i += 1;
        }
        let mut k: usize = 0;
        while k < self.sources.len()
            invariant
                0 <= k <= self.sources.len(),
                forall|j: int| 0 <= j < i ==> (#[trigger] self@.posts[j]).source_path != source_path@,
                i == self.posts.len(),
                forall|j: int|
                    0 <= j < k ==> (#[trigger] self@.sources[j]).source_path != source_path@,
            decreases self.sources.len() - k,
        {
            if str_eq(self.sources[k].source_path.as_str(), source_path) {
                assert(self@.sources[k as int].source_path == source_path@);
                return true;
            }
            k += 1;
        }
        false
    }

    /// The single-pass, hash-keyed decision for one sighting: insert a new
    /// post on a fresh hash; on a duplicate hash move the canonical path and
    /// flag the post, but only while the post is unflagged and the path
    /// differs; otherwise record the pair as an alternate source, ignoring
    /// an exact duplicate pair.
    pub fn upsert(
        &mut self,
        md5: &str,
        source_path: &str,
        file_ext: &str,
        file_size: u32,
        now: u32,
    ) -> (o: UpsertOutcome)
        requires
            wf(old(self)@),
            old(self)@.next_id < u32::MAX,
        ensures
            final(self)@ == spec_upsert(old(self)@, md5@, source_path@, file_ext@, file_size, now),
            o == spec_outcome(old(self)@, md5@, source_path@),
            wf(final(self)@),
    {
        proof {
            lemma_upsert_preserves_wf(self@, md5@, source_path@, file_ext@, file_size, now);
        }
        match self.find_post(md5) {
            None => {
                let p = Post {
                    id: self.next_id,
                    created_at: now,
                    updated_at: now,
                    md5: md5.to_owned(),
                    source_path: source_path.to_owned(),
                    file_ext: file_ext.to_owned(),
                    file_size,
                    tags: missing_tags_vec(),
                };
                assert(p@ == new_post_view(self@, md5@, source_path@, file_ext@, file_size, now));
                self.posts.push(p);
                self.next_id = self.next_id + 1;
                proof {
                    assert(self@.posts =~= old(self)@.posts.push(
                        new_post_view(old(self)@, md5@, source_path@, file_ext@, file_size, now),
                    ));
                    assert(self@ == spec_upsert(
                        old(self)@,
                        md5@,
                        source_path@,
                        file_ext@,
                        file_size,
                        now,
                    ));
                }
                UpsertOutcome::Inserted
            },
            Some(i) => {
                let flagged = tags_contain(&self.posts[i].tags, "has_duplicates");
                let same_path = str_eq(self.posts[i].source_path.as_str(), source_path);
                if !flagged && !same_path {
                    let ghost pre = self@;
                    let old_post = self.posts.remove(i);
                    let ghost mid = self.posts@;
                    let Post {
                        id,
                        created_at,
                        updated_at: _,
                        md5: old_md5,
                        source_path: _,
                        file_ext,
                        file_size: old_size,
                        tags: old_tags,
                    } = old_post;
                    let ghost old_tags_view = old_tags.deep_view();
                    let mut tags: Vec<String> = Vec::new();
                    tags.push("has_duplicates".to_owned());
                    let mut rest = old_tags;
                    tags.append(&mut rest);
                    proof {
                        assert(tags.deep_view() =~= seq![dup_token()] + old_tags_view);
                    }
                    let np = Post {
                        id,
                        created_at,
                        updated_at: now,
                        md5: old_md5,
                        source_path: source_path.to_owned(),
                        file_ext,
                        file_size: old_size,
                        tags,
                    };
                    assert(np@ == updated_post_view(pre.posts[i as int], source_path@, now));
                    self.posts.insert(i, np);
                    proof {
                        assert forall|k: int| 0 <= k < self@.posts.len() implies self@.posts[k]
                            == pre.posts.update(
                            i as int,
                            updated_post_view(pre.posts[i as int], source_path@, now),
                        )[k] by {
                            if k < i as int {
                                assert(self.posts@[k] == mid[k]);
                            } else if k > i as int {
                                assert(self.posts@[k] == mid[k - 1]);
                            }
                        }
                        assert(self@.posts =~= pre.posts.update(
                            i as int,
                            updated_post_view(pre.posts[i as int], source_path@, now),
                        ));
                        assert(self@ == spec_upsert(pre, md5@, source_path@, file_ext@, file_size, now));
                    }
                    UpsertOutcome::Updated
                } else {
                    if !self.find_source(md5, source_path) {
                        let row = PostSource {
                            md5: md5.to_owned(),
                            source_path: source_path.to_owned(),
                        };
                        assert(row@ == (SourceView { md5: md5@, source_path: source_path@ }));
                        self.sources.push(row);
                        proof {
                            assert(self@.sources =~= old(self)@.sources.push(
                                SourceView { md5: md5@, source_path: source_path@ },
                            ));
                            assert(self@ == spec_upsert(
                                old(self)@,
                                md5@,
                                source_path@,
                                file_ext@,
                                file_size,
                                now,
                            ));
                        }
                    }
                    UpsertOutcome::RecordedAlternate
                }
            },
        }
    }
}

/// A valid tag query: a single non-empty token without whitespace.
pub open spec fn valid_query(q: Seq<char>) -> bool {
    q.len() > 0 && forall|i: int| 0 <= i < q.len() ==> q[i] != ' ' && q[i] != '\t'
}

/// The fields of a post that a search reports.
pub open spec fn hit_of(p: PostView) -> SearchHitView {
    SearchHitView { id: p.id, source_path: p.source_path, tags: p.tags }
}

/// The posts whose tags carry the query token, in catalog order.
pub open spec fn spec_matches(posts: Seq<PostView>, q: Seq<char>) -> Seq<PostView>
    decreases posts.len(),
{
    if posts.len() == 0 {
        Seq::empty()
    } else if has_token(posts.last().tags, q) {
        spec_matches(posts.drop_last(), q) + seq![posts.last()]
    } else {
        spec_matches(posts.drop_last(), q)
    }
}

/// The first `SEARCH_LIMIT` elements, or all of them if fewer.
pub open spec fn cap_limit(s: Seq<PostView>) -> Seq<PostView> {
    if s.len() <= SEARCH_LIMIT {
        s
    } else {
        s.take(SEARCH_LIMIT as int)
    }
}

/// The hit views of a sequence of posts.
pub open spec fn map_hits(s: Seq<PostView>) -> Seq<SearchHitView> {
    s.map_values(|p: PostView| hit_of(p))
}

/// What a search returns on a valid query: the matching posts in catalog
/// order, capped at `SEARCH_LIMIT`.
pub open spec fn spec_search(c: CatalogView, q: Seq<char>) -> Seq<SearchHitView> {
    map_hits(cap_limit(spec_matches(c.posts, q)))
}

/// View of a list of search hits.
pub open spec fn hits_view(v: Seq<SearchHit>) -> Seq<SearchHitView> {
    v.map_values(|h: SearchHit| h@)
}

/// Whether some post carries the given id.
pub open spec fn has_post_id(c: CatalogView, id: u32) -> bool {
    exists|i: int| 0 <= i < c.posts.len() && (#[trigger] c.posts[i]).id == id
}

/// Index of the post carrying the given id.
pub open spec fn post_id_index(c: CatalogView, id: u32) -> int {
    choose|i: int| 0 <= i < c.posts.len() && (#[trigger] c.posts[i]).id == id
}

/// The catalog after a direct tag edit: the addressed post's tags are
/// replaced outright; an unknown id changes nothing.
pub open spec fn spec_set_tags(c: CatalogView, id: u32, tags: Seq<Seq<char>>) -> CatalogView {
    if has_post_id(c, id) {
        let i = post_id_index(c, id);
        CatalogView { posts: c.posts.update(i, PostView { tags, ..c.posts[i] }), ..c }
    } else {
        c
    }
}

impl Catalog {
    /// Tag search: at most `SEARCH_LIMIT` (id, canonical path, tags) hits in
    /// catalog order. An empty match set is a normal `Ok` outcome; only a
    /// malformed query (empty, or holding whitespace) is an error.
    pub fn search(&self, query: &str) -> (r: Result<Vec<SearchHit>, QueryError>)
        ensures
            (r is Ok) <==> valid_query(query@),
            r matches Ok(v) ==> hits_view(v@) == spec_search(self@, query@),
            r matches Ok(v) ==> v@.len() <= SEARCH_LIMIT,
    {
        let qn = query.unicode_len();
        if qn == 0 {
            return Err(QueryError::Syntax);
        }
        let mut qi: usize = 0;
        while qi < qn
            invariant
                0 <= qi <= qn,
                qn == query@.len(),
                forall|j: int| 0 <= j < qi ==> query@[j] != ' ' && query@[j] != '\t',
            decreases qn - qi,
        {
            let c = query.get_char(qi);
            if c == ' ' || c == '\t' {
                return Err(QueryError::Syntax);
            }
            qi += 1;
        }
        assert(valid_query(query@));

        let ghost q = query@;
        let ghost posts = self@.posts;
        let mut out: Vec<SearchHit> = Vec::new();
        let mut i: usize = 0;
        while i < self.posts.len()
            invariant
                0 <= i <= self.posts.len(),
                posts == self@.posts,
                q == query@,
                out@.len() <= SEARCH_LIMIT,
                hits_view(out@) =~= map_hits(cap_limit(spec_matches(posts.take(i as int), q))),
                out@.len() == cap_limit(spec_matches(posts.take(i as int), q)).len(),
            decreases self.posts.len() - i,
        {
            let ghost m_i = spec_matches(posts.take(i as int), q);
            proof {
                assert(posts.take(i + 1).drop_last() =~= posts.take(i as int));
                assert(posts.take(i + 1).last() == posts[i as int]);
            }
            if tags_contain(&self.posts[i].tags, query) {
                assert(spec_matches(posts.take(i + 1), q) == m_i + seq![posts[i as int]]);
                if out.len() < SEARCH_LIMIT {
                    let hit = SearchHit {
                        id: self.posts[i].id,
                        source_path: self.posts[i].source_path.clone(),
                        tags: self.posts[i].tags.clone(),
                    };
                    proof {
                        assert(hit@.tags =~= posts[i as int].tags);
                        assert(hit@ == hit_of(posts[i as int]));
                        assert(m_i.len() == out@.len());
                        assert(cap_limit(m_i + seq![posts[i as int]]) =~= m_i + seq![
                            posts[i as int],
                        ]);
                    }
                    let ghost out_pre = out@;
                    out.push(hit);
                    proof {
                        let target = m_i + seq![posts[i as int]];
                        assert forall|k: int| 0 <= k < out@.len() implies hits_view(out@)[k]
                            == map_hits(target)[k] by {
                            if k < out_pre.len() {
                                assert(out@[k] == out_pre[k]);
                                assert(hits_view(out_pre)[k] == map_hits(cap_limit(m_i))[k]);
                            } else {
                                assert(out@[k] == hit);
                            }
                        }
                        assert(hits_view(out@) =~= map_hits(target));
                        assert(hits_view(out@) =~= map_hits(
                            cap_limit(spec_matches(posts.take(i + 1), q)),
                        ));
                    }
                } else {
                    proof {
                        assert(m_i.len() >= SEARCH_LIMIT);
                        assert(cap_limit(m_i + seq![posts[i as int]]) =~= cap_limit(m_i));
                    }
                }
            } else {
                assert(spec_matches(posts.take(i + 1), q) == m_i);
            }
            i += 1;
        }
        proof {
            assert(posts.take(self.posts@.len() as int) =~= posts);
        }
        Ok(out)
    }

    /// Direct tag edit, bypassing the dedup policy: replaces the tags of the
    /// post with the given id and reports one affected row, or zero rows if
    /// no post has that id (an unknown id is not an error).
    pub fn set_tags(&mut self, id: u32, tags: Vec<String>) -> (rows: u32)
        requires
            wf(old(self)@),
        ensures
            final(self)@ == spec_set_tags(old(self)@, id, tags.deep_view()),
            rows == if has_post_id(old(self)@, id) {
                1u32
            } else {
                0u32
            },
            wf(final(self)@),
    {
        let mut i: usize = 0;
        while i < self.posts.len()
            invariant
                wf(self@),
                self@ == old(self)@,
                0 <= i <= self.posts.len(),
                forall|j: int| 0 <= j < i ==> (#[trigger] self@.posts[j]).id != id,
            decreases self.posts.len() - i,
        {
            let ghost pre = old(self)@;
            if self.posts[i].id == id {
                assert(pre.posts[i as int].id == id);
                assert(has_post_id(pre, id));
                assert(i as int == post_id_index(pre, id)) by {
                    let k = post_id_index(pre, id);
                    assert(0 <= k < pre.posts.len() && pre.posts[k].id == id);
                }
                let old_post = self.posts.remove(i);
                let ghost mid = self.posts@;
                let Post {
                    id: pid,
                    created_at,
                    updated_at,
                    md5,
                    source_path,
                    file_ext,
                    file_size,
                    tags: _,
                } = old_post;
                let np = Post {
                    id: pid,
                    created_at,
                    updated_at,
                    md5,
                    source_path,
                    file_ext,
                    file_size,
                    tags,
                };
                self.posts.insert(i, np);
                proof {
                    let upd = PostView { tags: np@.tags, ..pre.posts[i as int] };
                    assert(np@ == upd);
                    assert forall|k: int| 0 <= k < self@.posts.len() implies self@.posts[k]
                        == pre.posts.update(i as int, upd)[k] by {
                        if k < i as int {
                            assert(self.posts@[k] == mid[k]);
                        } else if k > i as int {
                            assert(self.posts@[k] == mid[k - 1]);
                        }
                    }
                    assert(self@.posts =~= pre.posts.update(i as int, upd));
                    assert(self@ == spec_set_tags(pre, id, np@.tags));
                }
                return 1;
            }
            i += 1;
        }
        assert(!has_post_id(old(self)@, id));
        0
    }

    /// Loader used when an existing store is opened: appends a stored post
    /// if neither its content hash nor its id is taken, keeping the next
    /// fresh id above it; reports whether the row was taken.
    pub fn restore_post(&mut self, p: Post) -> (added: bool)
        requires
            wf(old(self)@),
            p.id < u32::MAX,
        ensures
            added == (!has_post(old(self)@, p@.md5) && !has_post_id(old(self)@, p@.id)),
            added ==> final(self)@.posts =~= old(self)@.posts.push(p@) && final(self)@.sources
                == old(self)@.sources && final(self)@.epoch == old(self)@.epoch,
            !added ==> final(self)@ == old(self)@,
            wf(final(self)@),
            path_known(final(self)@, p@.source_path) || !added,
    {
        let has_hash = self.find_post(p.md5.as_str()).is_some();
        let mut id_taken = false;
        let mut i: usize = 0;
        while i < self.posts.len()
            invariant
                0 <= i <= self.posts.len(),
                !id_taken ==> forall|j: int|
                    0 <= j < i ==> (#[trigger] self@.posts[j]).id != p.id,
                id_taken ==> has_post_id(self@, p.id),
            decreases self.posts.len() - i,
        {
            if self.posts[i].id == p.id {
                assert(self@.posts[i as int].id == p.id);
                assert(has_post_id(self@, p.id));
                id_taken = true;
            }
            i += 1;
        }
        assert(!id_taken ==> !has_post_id(self@, p.id));
        if has_hash || id_taken {
            return false;
        }
        if p.id >= self.next_id {
            self.next_id = p.id + 1;
        }
        let ghost pv = p@;
        self.posts.push(p);
        proof {
            assert(self@.posts =~= old(self)@.posts.push(pv));
            assert(self@.posts.last().source_path == pv.source_path);
        }
        true
    }

    /// Loader used when an existing store is opened: appends a stored
    /// alternate-source row unless the exact pair is already present.
    pub fn restore_source(&mut self, s: PostSource) -> (added: bool)
        ensures
            added == !has_source(old(self)@, s@.md5, s@.source_path),
            added ==> final(self)@.sources =~= old(self)@.sources.push(s@) && final(self)@.posts
                == old(self)@.posts && final(self)@.epoch == old(self)@.epoch
                && final(self)@.next_id == old(self)@.next_id,
            !added ==> final(self)@ == old(self)@,
    {
        if self.find_source(s.md5.as_str(), s.source_path.as_str()) {
            return false;
        }
        let ghost sv = s@;
        self.sources.push(s);
        proof {
            assert(self@.sources =~= old(self)@.sources.push(sv));
        }
        true
    }
}

/// The initial tag list of a fresh post: the `missing_tags` sentinel alone.
fn missing_tags_vec() -> (v: Vec<String>)
    ensures
        v.deep_view() =~= seq![missing_token()],
{
    let mut v: Vec<String> = Vec::new();
    v.push("missing_tags".to_owned());
    v
}

/// Gate on the stored schema version: equal succeeds, higher and lower fail
/// with their own error kinds (no migration is implemented).
pub fn migrate_schema(v: u32) -> (r: Result<(), DbError>)
    ensures
        (v == SCHEMA_VERSION) <==> (r is Ok),
        (v > SCHEMA_VERSION) <==> (r matches Err(DbError::SchemaVersionTooHigh)),
        (v < SCHEMA_VERSION) <==> (r matches Err(DbError::SchemaVersionTooLow)),
{
    if v == SCHEMA_VERSION {
        Ok(())
    } else if v > SCHEMA_VERSION {
        Err(DbError::SchemaVersionTooHigh)
    } else {
        Err(DbError::SchemaVersionTooLow)
    }
}

} // verus!
