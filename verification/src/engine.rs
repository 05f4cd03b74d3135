//! The ingestion engine: filters candidates through the known-path check,
//! groups the survivors into bounded batches, and applies each batch's
//! (path, hash) pairs to the catalog with the upsert policy. A batch whose
//! hash stage failed is refused wholesale; the scan stops at the first such
//! batch (fail-fast, no partial-scan resume).

use vstd::prelude::*;

use crate::catalog::{path_known, spec_upsert, wf, Catalog, CatalogView};
use crate::hash::{md5_hex, md5_hex_of};
use crate::paths::{file_extension, lower_of, lowercase, spec_extension};

verus! {

/// Fatal per-scan failures.
#[derive(Clone, Copy, PartialEq, Eq, Structural, Debug)]
pub enum ScanError {
    /// Reading a file's bytes or metadata failed; fatal to the whole scan.
    FileReadError,
    /// The current time precedes the catalog's epoch anchor.
    EpochInvariantViolation,
}

/// The hash stage's result for one candidate.
pub enum HashOutcome {
    /// The file's bytes were read and fingerprinted.
    Hashed(String),
    /// Reading the file's bytes or metadata failed.
    ReadFailed,
}

/// A candidate file after the hash stage: catalog-relative path, size in
/// bytes, and the outcome of fingerprinting its content.
pub struct HashedFile {
    pub path: String,
    pub size: u32,
    pub hash: HashOutcome,
}

/// Ghost view of a `HashedFile`; a failed hash stage is `None`.
pub ghost struct HashedFileView {
    pub path: Seq<char>,
    pub size: u32,
    pub hash: Option<Seq<char>>,
}

impl View for HashedFile {
    type V = HashedFileView;

    open spec fn view(&self) -> HashedFileView {
        HashedFileView {
            path: self.path@,
            size: self.size,
            hash: match self.hash {
                HashOutcome::Hashed(ref s) => Some(s@),
                HashOutcome::ReadFailed => None,
            },
        }
    }
}

/// Views of a list of hashed candidates.
pub open spec fn items_view(s: Seq<HashedFile>) -> Seq<HashedFileView> {
    s.map_values(|f: HashedFile| f@)
}

/// Builds the hash-stage record for a candidate whose bytes were read.
pub fn hash_candidate(path: String, size: u32, bytes: &[u8]) -> (r: HashedFile)
    ensures
        r@.path == path@,
        r@.size == size,
        r@.hash == Some(md5_hex_of(bytes@)),
{
    let digest = md5_hex(bytes);
    HashedFile { path, size, hash: HashOutcome::Hashed(digest) }
}

/// Builds the hash-stage record for a candidate whose bytes could not be
/// read.
pub fn failed_candidate(path: String) -> (r: HashedFile)
    ensures
        r@.path == path@,
        r@.hash is None,
{
    HashedFile { path, size: 0, hash: HashOutcome::ReadFailed }
}

/// Whether every candidate of the batch was fingerprinted.
pub open spec fn all_hashed(items: Seq<HashedFileView>) -> bool {
    forall|i: int| 0 <= i < items.len() ==> (#[trigger] items[i]).hash is Some
}

/// One sighting applied to the catalog: a file with no extension is
/// skipped outright — never inserted, never recorded, no error — and any
/// other file goes through the upsert with its lowercased extension.
pub open spec fn spec_apply_item(c: CatalogView, item: HashedFileView, now: u32) -> CatalogView {
    match spec_extension(item.path) {
        None => c,
        Some(e) => spec_upsert(c, item.hash.unwrap(), item.path, lower_of(e), item.size, now),
    }
}

/// A batch's sightings applied in order.
pub open spec fn spec_apply_items(c: CatalogView, items: Seq<HashedFileView>, now: u32) -> CatalogView
    decreases items.len(),
{
    if items.len() == 0 {
        c
    } else {
        spec_apply_items(spec_apply_item(c, items[0], now), items.drop_first(), now)
    }
}

/// Applying a batch preserves well-formedness and raises the next fresh id
/// by at most one per sighting.
pub proof fn lemma_apply_items_wf(c: CatalogView, items: Seq<HashedFileView>, now: u32)
    requires
        wf(c),
        c.next_id + items.len() <= u32::MAX,
    ensures
        wf(spec_apply_items(c, items, now)),
        spec_apply_items(c, items, now).next_id <= c.next_id + items.len(),
    decreases items.len(),
{
    if items.len() > 0 {
        let c1 = spec_apply_item(c, items[0], now);
        match spec_extension(items[0].path) {
            None => {},
            Some(e) => {
                crate::catalog::lemma_upsert_preserves_wf(
                    c,
                    items[0].hash.unwrap(),
                    items[0].path,
                    lower_of(e),
                    items[0].size,
                    now,
                );
            },
        }
        lemma_apply_items_wf(c1, items.drop_first(), now);
    }
}

/// The apply stage for one batch: if any candidate's hash stage failed the
/// whole batch is refused and the catalog is untouched; otherwise every
/// sighting is applied in batch order.
pub fn apply_batch(cat: &mut Catalog, items: &Vec<HashedFile>, now: u32) -> (r: Result<
    (),
    ScanError,
>)
    requires
        wf(old(cat)@),
        old(cat)@.next_id + items@.len() <= u32::MAX,
    ensures
        (r is Ok) <==> all_hashed(items_view(items@)),
        r is Ok ==> final(cat)@ == spec_apply_items(old(cat)@, items_view(items@), now),
        r matches Err(e) ==> e == ScanError::FileReadError && final(cat)@ == old(cat)@,
        wf(final(cat)@),
{
    let ghost views = items_view(items@);
    let mut i: usize = 0;
    while i < items.len()
        invariant
            0 <= i <= items@.len(),
            views == items_view(items@),
            cat@ == old(cat)@,
            wf(cat@),
            forall|j: int| 0 <= j < i ==> (#[trigger] views[j]).hash is Some,
        decreases items@.len() - i,
    {
        match items[i].hash {
            HashOutcome::ReadFailed => {
                assert(views[i as int].hash is None);
                return Err(ScanError::FileReadError);
            },
            HashOutcome::Hashed(_) => {},
        }
        i += 1;
    }
    assert(all_hashed(views));

    let ghost pre = old(cat)@;
    let mut k: usize = 0;
    proof {
        assert(views.skip(0) =~= views);
    }
    while k < items.len()
        invariant
            0 <= k <= items@.len(),
            views == items_view(items@),
            all_hashed(views),
            wf(cat@),
            cat@.next_id + (items@.len() - k) <= u32::MAX,
            spec_apply_items(pre, views, now) == spec_apply_items(cat@, views.skip(k as int), now),
            pre == old(cat)@,
            pre.next_id + items@.len() <= u32::MAX,
        decreases items@.len() - k,
    {
        proof {
            assert(views.skip(k as int)[0] == views[k as int]);
            assert(views.skip(k as int).drop_first() =~= views.skip(k as int + 1));
        }
        let ghost at_start = cat@;
        match file_extension(items[k].path.as_str()) {
            None => {
                assert(spec_apply_item(at_start, views[k as int], now) == at_start);
            },
            Some(e) => {
                let low = lowercase(e.as_str());
                match &items[k].hash {
                    HashOutcome::Hashed(h) => {
                        assert(views[k as int].hash == Some(h@));
                        cat.upsert(h.as_str(), items[k].path.as_str(), low.as_str(), items[k].size, now);
                        assert(cat@ == spec_apply_item(at_start, views[k as int], now));
                    },
                    HashOutcome::ReadFailed => {
                        proof {
                            assert(views[k as int].hash is Some);
                            assert(false);
                        }
                    },
                }
            },
        }
        k += 1;
    }
    proof {
        assert(views.skip(items@.len() as int) =~= Seq::<HashedFileView>::empty());
    }
    Ok(())
}

/// The known-path pre-filter applied to a candidate list, in order.
pub open spec fn spec_filter(c: CatalogView, paths: Seq<Seq<char>>) -> Seq<Seq<char>>
    decreases paths.len(),
{
    if paths.len() == 0 {
        Seq::empty()
    } else if path_known(c, paths[0]) {
        spec_filter(c, paths.drop_first())
    } else {
        seq![paths[0]] + spec_filter(c, paths.drop_first())
    }
}

/// The known-path pre-filter: drops candidates whose relative path is
/// already recorded as a canonical or alternate source path; a read-only
/// check, deliberately keyed by path and not by content.
pub fn filter_candidates(cat: &Catalog, paths: &Vec<String>) -> (r: Vec<String>)
    ensures
        r.deep_view() == spec_filter(cat@, paths.deep_view()),
{
    let ghost full = paths.deep_view();
    let mut out: Vec<String> = Vec::new();
    let mut i: usize = 0;
    proof {
        assert(full.skip(0) =~= full);
        assert(out.deep_view() + spec_filter(cat@, full) =~= spec_filter(cat@, full));
    }
    while i < paths.len()
        invariant
            0 <= i <= paths@.len(),
            full == paths.deep_view(),
            spec_filter(cat@, full) == out.deep_view() + spec_filter(cat@, full.skip(i as int)),
        decreases paths@.len() - i,
    {
        proof {
            assert(full.skip(i as int)[0] == full[i as int]);
            assert(full.skip(i as int).drop_first() =~= full.skip(i as int + 1));
        }
        let ghost out_pre = out.deep_view();
        if !cat.does_source_exist(paths[i].as_str()) {
            out.push(paths[i].clone());
            proof {
                assert(out.deep_view() =~= out_pre + seq![full[i as int]]);
                assert(out_pre + seq![full[i as int]] + spec_filter(cat@, full.skip(i as int + 1))
                    =~= out_pre + (seq![full[i as int]] + spec_filter(
                    cat@,
                    full.skip(i as int + 1),
                )));
            }
        }
        i += 1;
    }
    proof {
        assert(full.skip(paths@.len() as int) =~= Seq::<Seq<char>>::empty());
        assert(out.deep_view() + Seq::<Seq<char>>::empty() =~= out.deep_view());
    }
    out
}

/// Consecutive batches of at most `size` candidates, in order.
pub open spec fn spec_chunks(s: Seq<Seq<char>>, size: int) -> Seq<Seq<Seq<char>>>
    decreases s.len() when size >= 1
{
    if s.len() == 0 {
        Seq::empty()
    } else if s.len() <= size {
        seq![s]
    } else {
        seq![s.take(size)] + spec_chunks(s.skip(size), size)
    }
}

/// Groups the filtered candidates into batches of at most `batch_size`,
/// the resource bound of the hash-then-apply pipeline.
pub fn make_batches(paths: &Vec<String>, batch_size: usize) -> (r: Vec<Vec<String>>)
    requires
        batch_size >= 1,
    ensures
        r.deep_view() == spec_chunks(paths.deep_view(), batch_size as int),
{
    let ghost full = paths.deep_view();
    let mut out: Vec<Vec<String>> = Vec::new();
    let mut i: usize = 0;
    proof {
        assert(full.skip(0) =~= full);
        assert(out.deep_view() + spec_chunks(full, batch_size as int) =~= spec_chunks(
            full,
            batch_size as int,
        ));
    }
    while i < paths.len()
        invariant
            0 <= i <= paths@.len(),
            full == paths.deep_view(),
            batch_size >= 1,
            spec_chunks(full, batch_size as int) == out.deep_view() + spec_chunks(
                full.skip(i as int),
                batch_size as int,
            ),
        decreases paths@.len() - i,
    {
        let remaining = paths.len() - i;
        let take_n = if remaining < batch_size {
            remaining
        } else {
            batch_size
        };
        let mut chunk: Vec<String> = Vec::new();
        let end = i + take_n;
        let mut k: usize = i;
        proof {
            assert(chunk.deep_view() =~= full.skip(i as int).take(take_n as int).take(0));
        }
        while k < end
            invariant
                i <= k <= end,
                end == i + take_n,
                i + take_n <= paths@.len(),
                full == paths.deep_view(),
                chunk.deep_view() =~= full.skip(i as int).take(take_n as int).take(k - i),
            decreases end - k,
        {
            let ghost prev = chunk.deep_view();
            proof {
                assert(full.len() == paths@.len());
                assert(full.skip(i as int).len() == full.len() - i);
                assert(full.skip(i as int).take(take_n as int).len() == take_n);
                assert(prev.len() == k - i);
            }
            chunk.push(paths[k].clone());
            proof {
                let target = full.skip(i as int).take(take_n as int).take(k - i + 1);
                assert(chunk@.len() == prev.len() + 1);
                assert(chunk.deep_view().len() == k - i + 1);
                assert forall|m: int| 0 <= m < k - i + 1 implies chunk.deep_view()[m] == target[m] by {
                    if m < k - i {
                        assert(chunk@[m] == chunk@.take(k - i)[m]);
                        assert(chunk.deep_view()[m] == prev[m]);
                        assert(target[m] == full.skip(i as int).take(take_n as int).take(k - i)[m]);
                    } else {
                        assert(chunk@[m] == paths@[k as int]);
                        assert(target[m] == full[k as int]);
                    }
                }
                assert(chunk.deep_view() =~= target);
            }
            k += 1;
        }
        let ghost out_pre = out.deep_view();
        proof {
            assert(chunk.deep_view() =~= full.skip(i as int).take(take_n as int));
        }
        out.push(chunk);
        proof {
            let rest = full.skip(i as int);
            assert(out.deep_view() =~= out_pre + seq![rest.take(take_n as int)]);
            if rest.len() <= batch_size as int {
                assert(rest.take(take_n as int) =~= rest);
                assert(spec_chunks(rest, batch_size as int) == seq![rest]);
                assert(full.skip(i as int + take_n as int) =~= Seq::<Seq<char>>::empty());
                assert(out_pre + seq![rest] + Seq::<Seq<Seq<char>>>::empty() =~= out_pre + (seq![
                    rest,
                ] + Seq::<Seq<Seq<char>>>::empty()));
                assert(spec_chunks(Seq::<Seq<char>>::empty(), batch_size as int) == Seq::<
                    Seq<Seq<char>>,
                >::empty());
            } else {
                assert(rest.skip(batch_size as int) =~= full.skip(i as int + take_n as int));
                assert(out_pre + seq![rest.take(take_n as int)] + spec_chunks(
                    rest.skip(batch_size as int),
                    batch_size as int,
                ) =~= out_pre + (seq![rest.take(take_n as int)] + spec_chunks(
                    rest.skip(batch_size as int),
                    batch_size as int,
                )));
            }
        }
        i += take_n;
    }
    proof {
        assert(full.skip(paths@.len() as int) =~= Seq::<Seq<char>>::empty());
        assert(spec_chunks(Seq::<Seq<char>>::empty(), batch_size as int) == Seq::<
            Seq<Seq<char>>,
        >::empty());
        assert(out.deep_view() + Seq::<Seq<Seq<char>>>::empty() =~= out.deep_view());
    }
    out
}

/// Views of a list of batches.
pub open spec fn batches_view(s: Seq<Vec<HashedFile>>) -> Seq<Seq<HashedFileView>> {
    s.map_values(|b: Vec<HashedFile>| items_view(b@))
}

/// Total number of candidates over all batches.
pub open spec fn total_len(batches: Seq<Seq<HashedFileView>>) -> int
    decreases batches.len(),
{
    if batches.len() == 0 {
        0
    } else {
        batches[0].len() + total_len(batches.drop_first())
    }
}

/// The scan's progression over its batches: each fully-hashed batch is
/// applied before the next is looked at; the first batch with a failed
/// hash stage stops the scan with the catalog as the earlier batches left
/// it. The second component reports whether every batch was applied.
pub open spec fn spec_run_scan(
    c: CatalogView,
    batches: Seq<Seq<HashedFileView>>,
    now: u32,
) -> (CatalogView, bool)
    decreases batches.len(),
{
    if batches.len() == 0 {
        (c, true)
    } else if !all_hashed(batches[0]) {
        (c, false)
    } else {
        spec_run_scan(spec_apply_items(c, batches[0], now), batches.drop_first(), now)
    }
}

/// The apply stage over all batches in order, fail-fast: batches before
/// the first hash failure are fully applied and persisted in the catalog,
/// batches from it on are never attempted.
pub fn run_scan(cat: &mut Catalog, batches: &Vec<Vec<HashedFile>>, now: u32) -> (r: Result<
    (),
    ScanError,
>)
    requires
        wf(old(cat)@),
        old(cat)@.next_id + total_len(batches_view(batches@)) <= u32::MAX,
    ensures
        (r is Ok) <==> spec_run_scan(old(cat)@, batches_view(batches@), now).1,
        final(cat)@ == spec_run_scan(old(cat)@, batches_view(batches@), now).0,
        r matches Err(e) ==> e == ScanError::FileReadError,
        wf(final(cat)@),
{
    let ghost views = batches_view(batches@);
    let ghost pre = old(cat)@;
    let mut b: usize = 0;
    proof {
        assert(views.skip(0) =~= views);
    }
    while b < batches.len()
        invariant
            0 <= b <= batches@.len(),
            views == batches_view(batches@),
            pre == old(cat)@,
            wf(cat@),
            cat@.next_id + total_len(views.skip(b as int)) <= u32::MAX,
            forall|k: int| b <= k < views.len() ==> (#[trigger] views[k]).len() >= 0,
            spec_run_scan(pre, views, now) == spec_run_scan(cat@, views.skip(b as int), now),
        decreases batches@.len() - b,
    {
        proof {
            assert(views.skip(b as int)[0] == views[b as int]);
            assert(views.skip(b as int).drop_first() =~= views.skip(b as int + 1));
            lemma_total_len_nonneg(views.skip(b as int + 1));
        }
        let ghost at_start = cat@;
        let batch = &batches[b];
        assert(items_view(batch@) == views[b as int]);
        match apply_batch(cat, batch, now) {
            Err(e) => {
                assert(!all_hashed(views[b as int]));
                assert(spec_run_scan(at_start, views.skip(b as int), now) == (at_start, false));
                return Err(e);
            },
            Ok(()) => {
                proof {
                    lemma_apply_items_wf(at_start, views[b as int], now);
                }
            },
        }
        b += 1;
    }
    proof {
        assert(views.skip(batches@.len() as int) =~= Seq::<Seq<HashedFileView>>::empty());
    }
    Ok(())
}

/// The total candidate count is never negative.
proof fn lemma_total_len_nonneg(batches: Seq<Seq<HashedFileView>>)
    ensures
        total_len(batches) >= 0,
    decreases batches.len(),
{
    if batches.len() > 0 {
        lemma_total_len_nonneg(batches.drop_first());
    }
}

/// Seconds elapsed since the catalog's epoch anchor. A current time before
/// the anchor violates the catalog invariant and is fatal.
pub fn elapsed_since_epoch(now_secs: u64, epoch: u32) -> (r: Result<u32, ScanError>)
    requires
        now_secs <= epoch + u32::MAX,
    ensures
        (r is Ok) <==> now_secs >= epoch,
        r matches Ok(d) ==> d == now_secs - epoch,
        r matches Err(e) ==> e == ScanError::EpochInvariantViolation,
{
    if now_secs < epoch as u64 {
        Err(ScanError::EpochInvariantViolation)
    } else {
        Ok((now_secs - epoch as u64) as u32)
    }
}

} // verus!
