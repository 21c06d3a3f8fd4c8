//! The decisions of an incremental scan: which live files must be read, and
//! what the scan reports once the files that needed it were read.

use vstd::prelude::*;
use crate::blobs::{base_path, base_path_for_cached_path};
use crate::cache::{in_names, BlobsCache, FileBlob, FileEntry};
use crate::table::models;

verus! {

/// A file found by the directory walk: its workspace-relative path and its
/// current mtime.
#[derive(Clone, Debug)]
pub struct LiveFile {
    pub path: String,
    pub mtime: u64,
}

/// What an incremental scan reports.
pub struct ScanResult {
    /// Blobs of the files that were read (new, or mtime changed).
    pub to_upload: Vec<FileBlob>,
    /// Cached blob names of the files whose mtime did not change.
    pub unchanged_blobs: Vec<String>,
    /// Cached paths that no longer stand for local content.
    pub deleted_paths: Vec<String>,
}

/// Cached path `p` belongs to the file at `base`.
pub open spec fn in_group(cache: BlobsCache, base: Seq<char>, p: Seq<char>) -> bool {
    cache.forward().contains_key(p) && base_path(p) == base
}

/// The file at `base` has cached blobs, and every one of them carries
/// `mtime`: its content need not be read.
pub open spec fn unchanged(cache: BlobsCache, base: Seq<char>, mtime: u64) -> bool {
    &&& exists|p: Seq<char>| #[trigger] in_group(cache, base, p)
    &&& forall|p: Seq<char>| #[trigger]
        in_group(cache, base, p) ==> cache.forward()[p].mtime == mtime
}

/// Cached path `p` belongs to a live file whose mtime did not change.
pub open spec fn confirmed(cache: BlobsCache, live: Seq<LiveFile>, p: Seq<char>) -> bool {
    exists|j: int|
        0 <= j < live.len() && (#[trigger] live[j]).path@ == base_path(p) && unchanged(
            cache,
            live[j].path@,
            live[j].mtime,
        )
}

/// Some cached path that belongs to an unchanged live file carries `b`.
pub open spec fn confirmed_blob(cache: BlobsCache, live: Seq<LiveFile>, b: Seq<char>) -> bool {
    exists|p: Seq<char>| #[trigger]
        cache.forward().contains_key(p) && confirmed(cache, live, p)
            && cache.forward()[p].blob_name@ == b
}

/// Some blob of `blobs` has path `p`.
pub open spec fn in_paths(blobs: Seq<FileBlob>, p: Seq<char>) -> bool {
    exists|i: int| 0 <= i < blobs.len() && (#[trigger] blobs[i]).path@ == p
}

fn bases_of(recs: &Vec<(String, FileEntry)>) -> (r: Vec<String>)
    ensures
        r@.len() == recs@.len(),
        forall|k: int| 0 <= k < r@.len() ==> (#[trigger] r@[k])@ == base_path(recs@[k].0@),
{
    let mut out: Vec<String> = Vec::new();
    let mut k: usize = 0;
    while k < recs.len()
        invariant
            k <= recs@.len(),
            out@.len() == k,
            forall|j: int| 0 <= j < k ==> (#[trigger] out@[j])@ == base_path(recs@[j].0@),
        decreases recs@.len() - k,
    {
        out.push(base_path_for_cached_path(recs[k].0.as_str()));
        k = k + 1;
    }
    out
}

fn group_unchanged(
    cache: &BlobsCache,
    recs: &Vec<(String, FileEntry)>,
    bases: &Vec<String>,
    base: &String,
    mtime: u64,
) -> (r: bool)
    requires
        models(recs@, cache.forward()),
        bases@.len() == recs@.len(),
        forall|k: int| 0 <= k < bases@.len() ==> (#[trigger] bases@[k])@ == base_path(recs@[k].0@),
    ensures
        r == unchanged(*cache, base@, mtime),
{
    let mut found = false;
    let mut all = true;
    let mut k: usize = 0;
    while k < recs.len()
        invariant
            k <= recs@.len(),
            bases@.len() == recs@.len(),
            found == exists|j: int| 0 <= j < k && (#[trigger] bases@[j])@ == base@,
            all == forall|j: int|
                0 <= j < k && (#[trigger] bases@[j])@ == base@ ==> recs@[j].1.mtime == mtime,
        decreases recs@.len() - k,
    {
        if bases[k] == *base {
            found = true;
            if recs[k].1.mtime != mtime {
                all = false;
            }
        }
        proof {
            assert(found == exists|j: int| 0 <= j < k + 1 && (#[trigger] bases@[j])@ == base@) by {
                if bases@[k as int]@ == base@ {
                    assert(0 <= k < k + 1);
                }
            }
        }
        k = k + 1;
    }
    proof {
        let c = *cache;
        if found {
            let j = choose|j: int| 0 <= j < recs@.len() && (#[trigger] bases@[j])@ == base@;
            assert(in_group(c, base@, recs@[j].0@));
        } else {
            assert forall|p: Seq<char>| !#[trigger] in_group(c, base@, p) by {
                if in_group(c, base@, p) {
                    let j = choose|j: int| 0 <= j < recs@.len() && recs@[j].0@ == p;
                    assert(bases@[j]@ == base@);
                }
            }
        }
        if all {
            assert forall|p: Seq<char>| #[trigger] in_group(c, base@, p) implies c.forward()[p].mtime
                == mtime by {
                let j = choose|j: int| 0 <= j < recs@.len() && recs@[j].0@ == p;
                assert(bases@[j]@ == base@);
            }
        } else {
            let j = choose|j: int|
                0 <= j < recs@.len() && (#[trigger] bases@[j])@ == base@ && recs@[j].1.mtime
                    != mtime;
            assert(in_group(c, base@, recs@[j].0@));
        }
    }
    found && all
}

/// For each live file, whether its content must be read: it has no cached
/// blob, or some cached blob of it carries another mtime.
pub fn plan_incremental(cache: &BlobsCache, live: &[LiveFile]) -> (r: Vec<bool>)
    requires
        cache.wf(),
    ensures
        r@.len() == live@.len(),
        forall|i: int|
            0 <= i < r@.len() ==> #[trigger] r@[i] == !unchanged(
                *cache,
                live@[i].path@,
                live@[i].mtime,
            ),
{
    let recs = cache.records();
    let bases = bases_of(&recs);
    let mut out: Vec<bool> = Vec::new();
    let mut i: usize = 0;
    while i < live.len()
        invariant
            models(recs@, cache.forward()),
            bases@.len() == recs@.len(),
            forall|k: int| 0 <= k < bases@.len() ==> (#[trigger] bases@[k])@ == base_path(recs@[k].0@),
            i <= live@.len(),
            out@.len() == i,
            forall|j: int|
                0 <= j < i ==> #[trigger] out@[j] == !unchanged(
                    *cache,
                    live@[j].path@,
                    live@[j].mtime,
                ),
        decreases live@.len() - i,
    {
        let same = group_unchanged(cache, &recs, &bases, &live[i].path, live[i].mtime);
        out.push(!same);
        i = i + 1;
    }
    out
}

fn blob_has_path(blobs: &Vec<FileBlob>, p: &String) -> (r: bool)
    ensures
        r == in_paths(blobs@, p@),
{
    let mut i: usize = 0;
    while i < blobs.len()
        invariant
            i <= blobs@.len(),
            forall|j: int| 0 <= j < i ==> (#[trigger] blobs@[j]).path@ != p@,
        decreases blobs@.len() - i,
    {
        if blobs[i].path == *p {
            return true;
        }
        i = i + 1;
    }
    false
}

/// The report of an incremental scan, given the blobs of the live files
/// that had to be read: the cached blob names of the unchanged files, and
/// every cached path that neither belongs to an unchanged file nor was
/// produced again by a read.
#[verifier::spinoff_prover]
pub fn finish_incremental(cache: &BlobsCache, live: &[LiveFile], read: Vec<FileBlob>) -> (r:
    ScanResult)
    requires
        cache.wf(),
    ensures
        r.to_upload@ == read@,
        forall|i: int|
            0 <= i < r.unchanged_blobs@.len() ==> confirmed_blob(
                *cache,
                live@,
                #[trigger] r.unchanged_blobs@[i]@,
            ),
        forall|p: Seq<char>| #[trigger]
            cache.forward().contains_key(p) && confirmed(*cache, live@, p) ==> in_names(
                r.unchanged_blobs@,
                cache.forward()[p].blob_name@,
            ),
        forall|i: int|
            0 <= i < r.deleted_paths@.len() ==> cache.forward().contains_key(
                #[trigger] r.deleted_paths@[i]@,
            ) && !confirmed(*cache, live@, r.deleted_paths@[i]@) && !in_paths(
                read@,
                r.deleted_paths@[i]@,
            ),
        forall|p: Seq<char>| #[trigger]
            cache.forward().contains_key(p) && !confirmed(*cache, live@, p) && !in_paths(read@, p)
                ==> in_names(r.deleted_paths@, p),
{
    let plan = plan_incremental(cache, live);
    let recs = cache.records();
    let bases = bases_of(&recs);
    let mut unchanged_blobs: Vec<String> = Vec::new();
    let mut deleted_paths: Vec<String> = Vec::new();
    let mut k: usize = 0;
    while k < recs.len()
        invariant
            cache.wf(),
            models(recs@, cache.forward()),
            bases@.len() == recs@.len(),
            forall|j: int| 0 <= j < bases@.len() ==> (#[trigger] bases@[j])@ == base_path(recs@[j].0@),
            plan@.len() == live@.len(),
            forall|i: int|
                0 <= i < plan@.len() ==> #[trigger] plan@[i] == !unchanged(
                    *cache,
                    live@[i].path@,
                    live@[i].mtime,
                ),
            k <= recs@.len(),
            forall|i: int|
                0 <= i < unchanged_blobs@.len() ==> confirmed_blob(
                    *cache,
                    live@,
                    #[trigger] unchanged_blobs@[i]@,
                ),
            forall|j: int|
                0 <= j < k && confirmed(*cache, live@, recs@[j].0@) ==> in_names(
                    unchanged_blobs@,
                    #[trigger] recs@[j].1.blob_name@,
                ),
            forall|i: int|
                0 <= i < deleted_paths@.len() ==> cache.forward().contains_key(
                    #[trigger] deleted_paths@[i]@,
                ) && !confirmed(*cache, live@, deleted_paths@[i]@) && !in_paths(
                    read@,
                    deleted_paths@[i]@,
                ),
            forall|j: int|
                0 <= j < k && !confirmed(*cache, live@, recs@[j].0@) && !in_paths(
                    read@,
                    recs@[j].0@,
                ) ==> in_names(deleted_paths@, #[trigger] recs@[j].0@),
        decreases recs@.len() - k,
    {
        let ghost p = recs@[k as int].0@;
        proof {
            assert(cache.forward().contains_key(p));
        }
        // Does a live file with this base path keep its cached blobs?
        let mut kept = false;
        let mut j: usize = 0;
        while j < live.len()
            invariant
                j <= live@.len(),
                plan@.len() == live@.len(),
                bases@.len() == recs@.len(),
                k < recs@.len(),
                kept == exists|i: int|
                    0 <= i < j && (#[trigger] live@[i]).path@ == bases@[k as int]@ && !plan@[i],
            decreases live@.len() - j,
        {
            if live[j].path == bases[k] && !plan[j] {
                kept = true;
            }
            proof {
                if live@[j as int].path@ == bases@[k as int]@ && !plan@[j as int] {
                    assert(0 <= j < j + 1);
                }
            }
            j = j + 1;
        }
        proof {
            if kept {
                let i = choose|i: int|
                    0 <= i < live@.len() && (#[trigger] live@[i]).path@ == bases@[k as int]@
                        && !plan@[i];
                assert(!plan@[i]);
            } else {
                assert(!confirmed(*cache, live@, p)) by {
                    if confirmed(*cache, live@, p) {
                        let i = choose|i: int|
                            0 <= i < live@.len() && (#[trigger] live@[i]).path@ == base_path(p)
                                && unchanged(*cache, live@[i].path@, live@[i].mtime);
                        assert(!plan@[i]);
                    }
                }
            }
        }
        if kept {
            let ghost before = unchanged_blobs@;
            unchanged_blobs.push(recs[k].1.blob_name.clone());
            proof {
                assert(cache.forward()[p] == recs@[k as int].1);
                assert forall|i: int|
                    0 <= i < unchanged_blobs@.len() implies confirmed_blob(
                    *cache,
                    live@,
                    #[trigger] unchanged_blobs@[i]@,
                ) by {
                    if i < before.len() {
                        assert(unchanged_blobs@[i] == before[i]);
                    } else {
                        assert(cache.forward().contains_key(p));
                    }
                }
                assert forall|jj: int|
                    0 <= jj < k + 1 && confirmed(*cache, live@, recs@[jj].0@) implies in_names(
                    unchanged_blobs@,
                    #[trigger] recs@[jj].1.blob_name@,
                ) by {
                    if jj < k {
                        let i = choose|i: int| 0 <= i < before.len() && (#[trigger] before[i])@
                            == recs@[jj].1.blob_name@;
                        assert(unchanged_blobs@[i] == before[i]);
                    } else {
                        assert(unchanged_blobs@[before.len() as int]@ == recs@[jj].1.blob_name@);
                    }
                }
            }
        } else if !blob_has_path(&read, &recs[k].0) {
            let ghost before = deleted_paths@;
            deleted_paths.push(recs[k].0.clone());
            proof {
                assert forall|i: int|
                    0 <= i < deleted_paths@.len() implies cache.forward().contains_key(
                    #[trigger] deleted_paths@[i]@,
                ) && !confirmed(*cache, live@, deleted_paths@[i]@) && !in_paths(
                    read@,
                    deleted_paths@[i]@,
                ) by {
                    if i < before.len() {
                        assert(deleted_paths@[i] == before[i]);
                    }
                }
                assert forall|jj: int|
                    0 <= jj < k + 1 && !confirmed(*cache, live@, recs@[jj].0@) && !in_paths(
                        read@,
                        recs@[jj].0@,
                    ) implies in_names(deleted_paths@, #[trigger] recs@[jj].0@) by {
                    if jj < k {
                        let i = choose|i: int| 0 <= i < before.len() && (#[trigger] before[i])@
                            == recs@[jj].0@;
                        assert(deleted_paths@[i] == before[i]);
                    } else {
                        assert(deleted_paths@[before.len() as int]@ == recs@[jj].0@);
                    }
                }
            }
        }
        k = k + 1;
    }
    proof {
        assert forall|q: Seq<char>| #[trigger]
            cache.forward().contains_key(q) && confirmed(*cache, live@, q) implies in_names(
            unchanged_blobs@,
            cache.forward()[q].blob_name@,
        ) by {
            let j = choose|j: int| 0 <= j < recs@.len() && recs@[j].0@ == q;
            assert(recs@[j].0@ == q);
        }
        assert forall|q: Seq<char>| #[trigger]
            cache.forward().contains_key(q) && !confirmed(*cache, live@, q) && !in_paths(read@, q)
            implies in_names(deleted_paths@, q) by {
            let j = choose|j: int| 0 <= j < recs@.len() && recs@[j].0@ == q;
            assert(recs@[j].0@ == q);
        }
    }
    ScanResult { to_upload: read, unchanged_blobs, deleted_paths }
}

} // verus!
