//! Path calculations of the ingestion pipeline: deriving the
//! catalog-relative key from an absolute path, and extracting the file
//! extension that the extension policy is keyed on.

use vstd::prelude::*;

verus! {

/// Whether the character separates path components.
pub open spec fn is_sep(c: char) -> bool {
    c == '/' || c == '\\'
}

/// Index of the first character of the final path component: right after
/// the last separator, or 0 if there is none.
pub open spec fn file_name_start(p: Seq<char>) -> int
    decreases p.len(),
{
    if p.len() == 0 {
        0
    } else if is_sep(p[p.len() - 1]) {
        p.len() as int
    } else {
        file_name_start(p.drop_last())
    }
}

/// Index of the last `.` in the path, or -1 if there is none.
pub open spec fn last_dot(p: Seq<char>) -> int
    decreases p.len(),
{
    if p.len() == 0 {
        -1
    } else if p[p.len() - 1] == '.' {
        p.len() - 1
    } else {
        last_dot(p.drop_last())
    }
}

/// The extension of the path's final component: what follows its last `.`,
/// unless the component has no `.` past its first character (so a bare
/// name, and a dotfile, have no extension).
pub open spec fn spec_extension(p: Seq<char>) -> Option<Seq<char>> {
    if last_dot(p) > file_name_start(p) {
        Some(p.skip(last_dot(p) + 1))
    } else {
        None
    }
}

proof fn lemma_file_name_start_of_sep(p: Seq<char>, j: int)
    requires
        0 <= j < p.len(),
        is_sep(p[j]),
        forall|k: int| j < k < p.len() ==> !is_sep(p[k]),
    ensures
        file_name_start(p) == j + 1,
    decreases p.len(),
{
    if j == p.len() - 1 {
    } else {
        lemma_file_name_start_of_sep(p.drop_last(), j);
    }
}

proof fn lemma_file_name_start_none(p: Seq<char>)
    requires
        forall|k: int| 0 <= k < p.len() ==> !is_sep(p[k]),
    ensures
        file_name_start(p) == 0,
    decreases p.len(),
{
    if p.len() > 0 {
        lemma_file_name_start_none(p.drop_last());
    }
}

proof fn lemma_last_dot_at(p: Seq<char>, j: int)
    requires
        0 <= j < p.len(),
        p[j] == '.',
        forall|k: int| j < k < p.len() ==> p[k] != '.',
    ensures
        last_dot(p) == j,
    decreases p.len(),
{
    if j == p.len() - 1 {
    } else {
        lemma_last_dot_at(p.drop_last(), j);
    }
}

proof fn lemma_last_dot_below(p: Seq<char>, m: int)
    requires
        0 <= m,
        forall|k: int| m <= k < p.len() ==> p[k] != '.',
    ensures
        last_dot(p) < m,
    decreases p.len(),
{
    if p.len() > 0 && p[p.len() - 1] != '.' {
        lemma_last_dot_below(p.drop_last(), m);
    }
}

/// Runtime counterpart of `spec_extension`: the final component's
/// extension, not yet lowercased.
pub fn file_extension(path: &str) -> (r: Option<String>)
    ensures
        (r is Some) <==> (spec_extension(path@) is Some),
        r matches Some(e) ==> spec_extension(path@) == Some(e@),
{
    let n = path.unicode_len();
    let mut start: usize = 0;
    let mut i: usize = 0;
    while i < n
        invariant
            0 <= start <= i <= n,
            n == path@.len(),
            start > 0 ==> is_sep(path@[start as int - 1]),
            forall|k: int| start <= k < i ==> !is_sep(path@[k]),
        decreases n - i,
    {
        let c = path.get_char(i);
        if c == '/' || c == '\\' {
            start = i + 1;
        }
        i += 1;
    }
    proof {
        if start > 0 {
            lemma_file_name_start_of_sep(path@, start as int - 1);
        } else {
            lemma_file_name_start_none(path@);
        }
        assert(file_name_start(path@) == start);
    }
    let mut j: usize = n;
    while j > start
        invariant
            start <= j <= n,
            n == path@.len(),
            file_name_start(path@) == start,
            forall|k: int| j <= k < n ==> path@[k] != '.',
        decreases j,
    {
        let c = path.get_char(j - 1);
        if c == '.' {
            proof {
                lemma_last_dot_at(path@, j as int - 1);
            }
            if j - 1 > start {
                let ext = path.substring_char(j, n);
                proof {
                    assert(ext@ =~= path@.skip(j as int));
                }
                return Some(ext.to_owned());
            } else {
                // the dot opens the file name: a dotfile has no extension
                return None;
            }
        }
        j -= 1;
    }
    proof {
        lemma_last_dot_below(path@, start as int);
    }
    None
}

/// The catalog-relative key of a path under the source root: the remainder
/// after the root and the separator that follows it. `None` when the path
/// does not lie under the root.
pub open spec fn spec_strip_prefix(root: Seq<char>, p: Seq<char>) -> Option<Seq<char>> {
    if root.len() == 0 {
        Some(p)
    } else if root.len() <= p.len() && p.take(root.len() as int) == root {
        let rest = p.skip(root.len() as int);
        if rest.len() == 0 {
            Some(rest)
        } else if is_sep(root[root.len() - 1]) {
            Some(rest)
        } else if is_sep(rest[0]) {
            Some(rest.skip(1))
        } else {
            None
        }
    } else {
        None
    }
}

/// Runtime counterpart of `spec_strip_prefix`.
pub fn strip_path_prefix(root: &str, path: &str) -> (r: Option<String>)
    ensures
        (r is Some) <==> (spec_strip_prefix(root@, path@) is Some),
        r matches Some(s) ==> spec_strip_prefix(root@, path@) == Some(s@),
{
    let rn = root.unicode_len();
    let pn = path.unicode_len();
    if rn == 0 {
        return Some(path.to_owned());
    }
    if rn > pn {
        return None;
    }
    let mut i: usize = 0;
    while i < rn
        invariant
            0 <= i <= rn,
            rn == root@.len(),
            pn == path@.len(),
            rn <= pn,
            forall|k: int| 0 <= k < i ==> path@[k] == root@[k],
        decreases rn - i,
    {
        if path.get_char(i) != root.get_char(i) {
            assert(path@.take(rn as int)[i as int] != root@[i as int]);
            return None;
        }
        i += 1;
    }
    assert(path@.take(rn as int) =~= root@);
    if rn == pn {
        let rest = path.substring_char(rn, pn);
        assert(rest@ =~= path@.skip(rn as int));
        return Some(rest.to_owned());
    }
    let last_root = root.get_char(rn - 1);
    if last_root == '/' || last_root == '\\' {
        let rest = path.substring_char(rn, pn);
        assert(rest@ =~= path@.skip(rn as int));
        return Some(rest.to_owned());
    }
    let next = path.get_char(rn);
    assert(next == path@.skip(rn as int)[0]);
    if next == '/' || next == '\\' {
        let rest = path.substring_char(rn + 1, pn);
        assert(rest@ =~= path@.skip(rn as int).skip(1));
        return Some(rest.to_owned());
    }
    None
}

/// What `str::to_lowercase` returns: a function of the characters alone.
pub uninterp spec fn lower_of(s: Seq<char>) -> Seq<char>;

/// Relies on str::to_lowercase: the lowercase mapping of the string,
/// depending on its characters alone; empty input stays empty.
#[verifier::external_body]
pub(crate) fn lowercase(s: &str) -> (r: String)
    ensures
        r@ == lower_of(s@),
        s@.len() == 0 ==> r@.len() == 0,
{
    s.to_lowercase()
}

} // verus!
