//! Catalog records: `Post` (one per distinct content hash) and
//! `PostSource` (an alternate on-disk location of an existing post's
//! content), together with their ghost views.
//!
//! Tags are a set of space-free tokens; the library keeps them as a vector
//! of strings and the reserved tokens `missing_tags` and `has_duplicates`
//! carry pipeline-internal meaning.

use vstd::prelude::*;

verus! {

/// One catalog entry per distinct content hash.
#[derive(Clone)]
pub struct Post {
    /// Catalog-assigned identity, stable for the life of the record.
    pub id: u32,
    /// Seconds elapsed since the catalog's epoch anchor when the record was created.
    pub created_at: u32,
    /// Seconds elapsed since the catalog's epoch anchor when the record was last updated.
    pub updated_at: u32,
    /// Lowercase hex content hash: the durable identity of the record.
    pub md5: String,
    /// Canonical source path, relative to the source root.
    pub source_path: String,
    /// Lowercase file extension.
    pub file_ext: String,
    /// Size of the file in bytes.
    pub file_size: u32,
    /// Tag tokens, reserved tokens included.
    pub tags: Vec<String>,
}

/// An additional on-disk location holding the same content as an existing post.
#[derive(Clone)]
pub struct PostSource {
    /// Content hash of the post this row belongs to.
    pub md5: String,
    /// The alternate source path, relative to the source root.
    pub source_path: String,
}

/// Ghost view of a `Post`.
pub ghost struct PostView {
    pub id: u32,
    pub created_at: u32,
    pub updated_at: u32,
    pub md5: Seq<char>,
    pub source_path: Seq<char>,
    pub file_ext: Seq<char>,
    pub file_size: u32,
    pub tags: Seq<Seq<char>>,
}

/// Ghost view of a `PostSource`.
pub ghost struct SourceView {
    pub md5: Seq<char>,
    pub source_path: Seq<char>,
}

impl View for Post {
    type V = PostView;

    open spec fn view(&self) -> PostView {
        PostView {
            id: self.id,
            created_at: self.created_at,
            updated_at: self.updated_at,
            md5: self.md5@,
            source_path: self.source_path@,
            file_ext: self.file_ext@,
            file_size: self.file_size,
            tags: self.tags.deep_view(),
        }
    }
}

impl View for PostSource {
    type V = SourceView;

    open spec fn view(&self) -> SourceView {
        SourceView { md5: self.md5@, source_path: self.source_path@ }
    }
}

/// The reserved token marking a post whose content was sighted at more than
/// one path.
pub open spec fn dup_token() -> Seq<char> {
    "has_duplicates"@
}

/// The reserved token given to a freshly inserted post in place of
/// user-assigned tags.
pub open spec fn missing_token() -> Seq<char> {
    "missing_tags"@
}

/// Whether a tag list carries the given token.
pub open spec fn has_token(tags: Seq<Seq<char>>, tok: Seq<char>) -> bool {
    tags.contains(tok)
}

/// Whether the post is flagged as having duplicate sightings.
pub open spec fn is_flagged(p: PostView) -> bool {
    has_token(p.tags, dup_token())
}

/// Executable check that a tag list carries the given token; the runtime
/// counterpart of `has_token`.
pub fn tags_contain(tags: &Vec<String>, tok: &str) -> (r: bool)
    ensures
        r == has_token(tags.deep_view(), tok@),
{
    let mut i: usize = 0;
    while i < tags.len()
        invariant
            0 <= i <= tags@.len(),
            forall|j: int| 0 <= j < i ==> tags.deep_view()[j] != tok@,
        decreases tags@.len() - i,
    {
        if str_eq(tags[i].as_str(), tok) {
            assert(tags.deep_view()[i as int] == tok@);
            return true;
        }
        i += 1;
    }
    assert(!tags.deep_view().contains(tok@)) by {
        assert(forall|j: int|
            0 <= j < tags.deep_view().len() ==> tags.deep_view()[j] != tok@);
    }
    false
}

/// Character-by-character string equality; the runtime counterpart of view
/// equality on strings.
pub fn str_eq(a: &str, b: &str) -> (r: bool)
    ensures
        r == (a@ == b@),
{
    let na = a.unicode_len();
    let nb = b.unicode_len();
    if na != nb {
        assert(a@ != b@) by {
            assert(a@.len() != b@.len());
        }
        return false;
    }
    let mut i: usize = 0;
    while i < na
        invariant
            0 <= i <= na,
            na == a@.len(),
            na == b@.len(),
            forall|j: int| 0 <= j < i ==> a@[j] == b@[j],
        decreases na - i,
    {
        if a.get_char(i) != b.get_char(i) {
            return false;
        }
        i += 1;
    }
    assert(a@ =~= b@);
    true
}

} // verus!
