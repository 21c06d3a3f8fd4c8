//! What a fully acknowledged incremental sync leaves behind: a second scan of
//! the same files reads nothing and reports the same blob names.

use vstd::prelude::*;
use crate::blobs::{base_path, blobs_of_file, first_marker_from, lemma_file_blob_paths};
use crate::cache::{in_names, BlobsCache, FileBlob, FileEntry};
use crate::scan::{confirmed, confirmed_blob, in_group, in_paths, unchanged, LiveFile};
use crate::upload::committed;

verus! {

/// No two live files share a path.
pub open spec fn distinct_paths(live: Seq<LiveFile>) -> bool {
    forall|i: int, j: int|
        0 <= i < live.len() && 0 <= j < live.len() && i != j ==> (#[trigger] live[i]).path@ != (
        #[trigger] live[j]).path@
}

/// No two read blobs share a path.
pub open spec fn distinct_blob_paths(read: Seq<FileBlob>) -> bool {
    forall|a: int, b: int|
        0 <= a < read.len() && 0 <= b < read.len() && a != b ==> (#[trigger] read[a]).path@ != (
        #[trigger] read[b]).path@
}

/// Every read blob belongs to a live file that had to be read, and carries
/// its mtime.
pub open spec fn reads_owned(cache: BlobsCache, live: Seq<LiveFile>, read: Seq<FileBlob>) -> bool {
    forall|r: int| 0 <= r < read.len() ==> has_owner(cache, live, #[trigger] read[r])
}

/// Blob `x` belongs to a live file that had to be read, and carries its
/// mtime.
pub open spec fn has_owner(cache: BlobsCache, live: Seq<LiveFile>, x: FileBlob) -> bool {
    exists|i: int|
        0 <= i < live.len() && (#[trigger] live[i]).path@ == base_path(x.path@) && !unchanged(
            cache,
            live[i].path@,
            live[i].mtime,
        ) && x.mtime == live[i].mtime
}

/// Every live file that had to be read gave at least one blob.
pub open spec fn reads_complete(cache: BlobsCache, live: Seq<LiveFile>, read: Seq<FileBlob>) -> bool {
    forall|i: int|
        0 <= i < live.len() && !unchanged(cache, (#[trigger] live[i]).path@, live[i].mtime)
            ==> exists|r: int| 0 <= r < read.len() && base_path((#[trigger] read[r]).path@) == live[i].path@
}

/// The reads of a scan: every blob belongs to a live file that had to be
/// read and carries its mtime, and every such file gave at least one blob.
pub open spec fn reads_cover(cache: BlobsCache, live: Seq<LiveFile>, read: Seq<FileBlob>) -> bool {
    reads_owned(cache, live, read) && reads_complete(cache, live, read)
}

proof fn lemma_committed(m: Map<Seq<char>, FileEntry>, read: Seq<FileBlob>, seq: u64, p: Seq<char>)
    requires
        distinct_blob_paths(read),
    ensures
        committed(m, read, seq).contains_key(p) <==> m.contains_key(p) || in_paths(read, p),
        !in_paths(read, p) && m.contains_key(p) ==> committed(m, read, seq)[p] == m[p],
        forall|r: int|
            0 <= r < read.len() && (#[trigger] read[r]).path@ == p ==> committed(m, read, seq)[p].mtime
                == read[r].mtime && committed(m, read, seq)[p].blob_name == read[r].blob_name,
    decreases read.len(),
{
    if read.len() > 0 {
        let init = read.drop_last();
        assert(distinct_blob_paths(init)) by {
            assert forall|a: int, b: int|
                0 <= a < init.len() && 0 <= b < init.len() && a != b implies (#[trigger] init[a]).path@
                != (#[trigger] init[b]).path@ by {
                assert(init[a] == read[a] && init[b] == read[b]);
            }
        }
        lemma_committed(m, init, seq, p);
        let last = read.last();
        if in_paths(read, p) && last.path@ != p {
            let r = choose|r: int| 0 <= r < read.len() && (#[trigger] read[r]).path@ == p;
            assert(r < read.len() - 1);
            assert(init[r] == read[r]);
        }
        if in_paths(init, p) {
            let r = choose|r: int| 0 <= r < init.len() && (#[trigger] init[r]).path@ == p;
            assert(read[r] == init[r]);
        }
        if last.path@ == p {
            assert(read[read.len() - 1].path@ == p);
        }
        assert forall|r: int|
            0 <= r < read.len() && (#[trigger] read[r]).path@ == p implies committed(
            m,
            read,
            seq,
        )[p].mtime == read[r].mtime && committed(m, read, seq)[p].blob_name == read[r].blob_name by {
            if r < read.len() - 1 {
                assert(init[r] == read[r]);
                assert(read[read.len() - 1].path@ != p);
            }
        }
    }
}

/// `c2` is what a sync in which every read blob was acknowledged makes of
/// `c0`: the stale paths the scan reported (`deleted`) dropped into `c1`,
/// then the read blobs marked from content sequence number `seq`.
pub open spec fn acknowledged_sync(
    c0: BlobsCache,
    c1: BlobsCache,
    c2: BlobsCache,
    live: Seq<LiveFile>,
    read: Seq<FileBlob>,
    deleted: Seq<String>,
    seq: u64,
) -> bool {
    &&& distinct_paths(live)
    &&& distinct_blob_paths(read)
    &&& reads_cover(c0, live, read)
    &&& forall|p: Seq<char>| #[trigger]
        c0.forward().contains_key(p) && !confirmed(c0, live, p) && !in_paths(read, p) ==> in_names(
            deleted,
            p,
        )
    &&& forall|i: int| 0 <= i < deleted.len() ==> !confirmed(c0, live, #[trigger] deleted[i]@)
    &&& forall|p: Seq<char>| #[trigger]
        c1.forward().contains_key(p) <==> c0.forward().contains_key(p) && !in_names(deleted, p)
    &&& forall|p: Seq<char>| #[trigger]
        c1.forward().contains_key(p) ==> c1.forward()[p] == c0.forward()[p]
    &&& c2.forward() == committed(c1.forward(), read, seq)
}

proof fn lemma_final_path(
    c0: BlobsCache,
    c1: BlobsCache,
    c2: BlobsCache,
    live: Seq<LiveFile>,
    read: Seq<FileBlob>,
    deleted: Seq<String>,
    seq: u64,
    p: Seq<char>,
)
    requires
        acknowledged_sync(c0, c1, c2, live, read, deleted, seq),
        c2.forward().contains_key(p),
    ensures
        in_paths(read, p) || (c0.forward().contains_key(p) && confirmed(c0, live, p)
            && c2.forward()[p] == c0.forward()[p]),
{
    lemma_committed(c1.forward(), read, seq, p);
    if !in_paths(read, p) {
        assert(c1.forward().contains_key(p));
        if !confirmed(c0, live, p) {
            assert(in_names(deleted, p));
        }
    }
}

proof fn lemma_confirmed_kept(
    c0: BlobsCache,
    c1: BlobsCache,
    c2: BlobsCache,
    live: Seq<LiveFile>,
    read: Seq<FileBlob>,
    deleted: Seq<String>,
    seq: u64,
    p: Seq<char>,
)
    requires
        acknowledged_sync(c0, c1, c2, live, read, deleted, seq),
        c0.forward().contains_key(p),
        confirmed(c0, live, p),
    ensures
        !in_paths(read, p),
        c2.forward().contains_key(p),
        c2.forward()[p] == c0.forward()[p],
{
    lemma_committed(c1.forward(), read, seq, p);
    let j = choose|j: int|
        0 <= j < live.len() && (#[trigger] live[j]).path@ == base_path(p) && unchanged(
            c0,
            live[j].path@,
            live[j].mtime,
        );
    if in_paths(read, p) {
        let r = choose|r: int| 0 <= r < read.len() && (#[trigger] read[r]).path@ == p;
        let i = lemma_read_owner(c0, live, read, r);
        assert(i != j);
    }
    if in_names(deleted, p) {
        let k = choose|k: int| 0 <= k < deleted.len() && (#[trigger] deleted[k])@ == p;
        assert(!confirmed(c0, live, deleted[k]@));
    }
    assert(c1.forward().contains_key(p));
}

proof fn lemma_read_kept(
    c0: BlobsCache,
    c1: BlobsCache,
    c2: BlobsCache,
    live: Seq<LiveFile>,
    read: Seq<FileBlob>,
    deleted: Seq<String>,
    seq: u64,
    r: int,
)
    requires
        acknowledged_sync(c0, c1, c2, live, read, deleted, seq),
        0 <= r < read.len(),
    ensures
        c2.forward().contains_key(read[r].path@),
        c2.forward()[read[r].path@].mtime == read[r].mtime,
        c2.forward()[read[r].path@].blob_name == read[r].blob_name,
{
    lemma_committed(c1.forward(), read, seq, read[r].path@);
    assert(in_paths(read, read[r].path@));
}

/// The live file a read blob belongs to.
proof fn lemma_read_owner(
    c0: BlobsCache,
    live: Seq<LiveFile>,
    read: Seq<FileBlob>,
    r: int,
) -> (i: int)
    requires
        reads_cover(c0, live, read),
        0 <= r < read.len(),
    ensures
        0 <= i < live.len(),
        live[i].path@ == base_path(read[r].path@),
        !unchanged(c0, live[i].path@, live[i].mtime),
        read[r].mtime == live[i].mtime,
{
    choose|i: int|
        0 <= i < live.len() && (#[trigger] live[i]).path@ == base_path(read[r].path@) && !unchanged(
            c0,
            live[i].path@,
            live[i].mtime,
        ) && read[r].mtime == live[i].mtime
}

proof fn lemma_unchanged_after(
    c0: BlobsCache,
    c1: BlobsCache,
    c2: BlobsCache,
    live: Seq<LiveFile>,
    read: Seq<FileBlob>,
    deleted: Seq<String>,
    seq: u64,
    i: int,
)
    requires
        acknowledged_sync(c0, c1, c2, live, read, deleted, seq),
        0 <= i < live.len(),
    ensures
        unchanged(c2, live[i].path@, live[i].mtime),
{
    let base = live[i].path@;
    assert forall|p: Seq<char>| #[trigger] in_group(c2, base, p) implies c2.forward()[p].mtime
        == live[i].mtime by {
        lemma_final_path(c0, c1, c2, live, read, deleted, seq, p);
        if in_paths(read, p) {
            let r = choose|r: int| 0 <= r < read.len() && (#[trigger] read[r]).path@ == p;
            let j = lemma_read_owner(c0, live, read, r);
            lemma_read_kept(c0, c1, c2, live, read, deleted, seq, r);
            if j != i {
                assert(live[j].path@ != live[i].path@);
            }
        } else {
            let j = choose|j: int|
                0 <= j < live.len() && (#[trigger] live[j]).path@ == base_path(p) && unchanged(
                    c0,
                    live[j].path@,
                    live[j].mtime,
                );
            if j != i {
                assert(live[j].path@ != live[i].path@);
            }
            assert(in_group(c0, base, p));
        }
    }
    if unchanged(c0, base, live[i].mtime) {
        let p0 = choose|p: Seq<char>| #[trigger] in_group(c0, base, p);
        assert(confirmed(c0, live, p0));
        lemma_confirmed_kept(c0, c1, c2, live, read, deleted, seq, p0);
        assert(in_group(c2, base, p0));
    } else {
        let r0 = choose|r: int| 0 <= r < read.len() && base_path((#[trigger] read[r]).path@) == base;
        lemma_read_kept(c0, c1, c2, live, read, deleted, seq, r0);
        assert(in_group(c2, base, read[r0].path@));
    }
}

/// Idempotence of incremental sync: after a sync in which every blob read
/// was acknowledged (the stale entries the scan reported dropped, the read
/// blobs marked), a second scan of the same live files has nothing to read,
/// and the blob names it reports unchanged are those of the first sync's
/// checkpoint: its unchanged names together with the names just uploaded.
pub proof fn lemma_sync_idempotent(
    c0: BlobsCache,
    c1: BlobsCache,
    c2: BlobsCache,
    live: Seq<LiveFile>,
    read: Seq<FileBlob>,
    deleted: Seq<String>,
    seq: u64,
)
    requires
        acknowledged_sync(c0, c1, c2, live, read, deleted, seq),
    ensures
        forall|i: int| 0 <= i < live.len() ==> unchanged(c2, (#[trigger] live[i]).path@, live[i].mtime),
        forall|b: Seq<char>|
            #[trigger] confirmed_blob(c2, live, b) <==> confirmed_blob(c0, live, b) || exists|r: int|
                0 <= r < read.len() && (#[trigger] read[r]).blob_name@ == b,
{
    assert forall|i: int| 0 <= i < live.len() implies unchanged(
        c2,
        (#[trigger] live[i]).path@,
        live[i].mtime,
    ) by {
        lemma_unchanged_after(c0, c1, c2, live, read, deleted, seq, i);
    }
    assert forall|b: Seq<char>|
        #[trigger] confirmed_blob(c2, live, b) <==> confirmed_blob(c0, live, b) || exists|r: int|
            0 <= r < read.len() && (#[trigger] read[r]).blob_name@ == b by {
        if confirmed_blob(c2, live, b) {
            let p = choose|p: Seq<char>| #[trigger]
                c2.forward().contains_key(p) && confirmed(c2, live, p)
                    && c2.forward()[p].blob_name@ == b;
            lemma_final_path(c0, c1, c2, live, read, deleted, seq, p);
            if in_paths(read, p) {
                let r = choose|r: int| 0 <= r < read.len() && (#[trigger] read[r]).path@ == p;
                lemma_read_kept(c0, c1, c2, live, read, deleted, seq, r);
                assert(read[r].blob_name@ == b);
            }
        }
        if confirmed_blob(c0, live, b) {
            let p = choose|p: Seq<char>| #[trigger]
                c0.forward().contains_key(p) && confirmed(c0, live, p)
                    && c0.forward()[p].blob_name@ == b;
            lemma_confirmed_kept(c0, c1, c2, live, read, deleted, seq, p);
            let j = choose|j: int|
                0 <= j < live.len() && (#[trigger] live[j]).path@ == base_path(p) && unchanged(
                    c0,
                    live[j].path@,
                    live[j].mtime,
                );
            lemma_unchanged_after(c0, c1, c2, live, read, deleted, seq, j);
            assert(confirmed(c2, live, p));
        }
        if exists|r: int| 0 <= r < read.len() && (#[trigger] read[r]).blob_name@ == b {
            let r = choose|r: int| 0 <= r < read.len() && (#[trigger] read[r]).blob_name@ == b;
            lemma_read_kept(c0, c1, c2, live, read, deleted, seq, r);
            let j = lemma_read_owner(c0, live, read, r);
            lemma_unchanged_after(c0, c1, c2, live, read, deleted, seq, j);
            assert(confirmed(c2, live, read[r].path@));
        }
    }
}

/// Mtime-no-read: a file whose cached blobs all carry another mtime than its
/// current one is read again; one whose cached blobs all carry its current
/// mtime is not, whatever its content now is, since the decision depends on
/// the cache and the mtime alone.
pub proof fn lemma_mtime_decides_read(cache: BlobsCache, base: Seq<char>, cached: u64, current: u64)
    requires
        exists|p: Seq<char>| #[trigger] in_group(cache, base, p),
        forall|p: Seq<char>| #[trigger] in_group(cache, base, p) ==> cache.forward()[p].mtime == cached,
    ensures
        cached != current ==> !unchanged(cache, base, current),
        unchanged(cache, base, cached),
{
    let p = choose|p: Seq<char>| #[trigger] in_group(cache, base, p);
    assert(in_group(cache, base, p));
}

/// The files read in a scan: positions `idx` of live files, each once, each
/// one the scan had to read, with a chunk-marker-free path, and `blobs[k]`
/// the blobs of file `idx[k]` scanned with its mtime.
#[verifier::opaque]
pub open spec fn files_read(
    cache: BlobsCache,
    live: Seq<LiveFile>,
    idx: Seq<int>,
    contents: Seq<Seq<u8>>,
    blobs: Seq<Seq<FileBlob>>,
) -> bool {
    &&& idx.len() == blobs.len()
    &&& contents.len() == blobs.len()
    &&& forall|k: int| 0 <= k < idx.len() ==> 0 <= #[trigger] idx[k] < live.len()
    &&& forall|a: int, b: int| 0 <= a < idx.len() && 0 <= b < idx.len() && a != b ==> #[trigger] idx[a] != #[trigger] idx[b]
    &&& forall|k: int| 0 <= k < idx.len() ==> !unchanged(cache, live[#[trigger] idx[k]].path@, live[idx[k]].mtime)
    &&& forall|k: int| 0 <= k < idx.len() ==> first_marker_from(live[#[trigger] idx[k]].path@, 0) is None
    &&& forall|k: int|
        0 <= k < idx.len() ==> blobs_of_file(
            live[idx[k]].path@,
            contents[k],
            live[idx[k]].mtime,
            #[trigger] blobs[k],
        )
}

proof fn lemma_files_read_at(
    cache: BlobsCache,
    live: Seq<LiveFile>,
    idx: Seq<int>,
    contents: Seq<Seq<u8>>,
    blobs: Seq<Seq<FileBlob>>,
    k: int,
)
    requires
        files_read(cache, live, idx, contents, blobs),
        0 <= k < blobs.len(),
    ensures
        idx.len() == blobs.len(),
        0 <= idx[k] < live.len(),
        !unchanged(cache, live[idx[k]].path@, live[idx[k]].mtime),
        blobs[k].len() >= 1,
        forall|t: int| 0 <= t < blobs[k].len() ==> base_path((#[trigger] blobs[k][t]).path@) == live[idx[k]].path@
            && blobs[k][t].mtime == live[idx[k]].mtime,
        forall|a: int, b: int|
            0 <= a < blobs[k].len() && 0 <= b < blobs[k].len() && a != b ==> (#[trigger] blobs[k][a]).path@
                != (#[trigger] blobs[k][b]).path@,
        forall|j: int| 0 <= j < blobs.len() && j != k ==> idx[j] != idx[k],
{
    reveal(files_read);
    let i = idx[k];
    lemma_file_blob_paths(live[i].path@, contents[k], live[i].mtime, blobs[k]);
    reveal(blobs_of_file);
    assert forall|j: int| 0 <= j < blobs.len() && j != k implies idx[j] != idx[k] by {
        assert(idx[j] != idx[k]);
    }
}

/// Blob `x` belongs to one of the first `n` files read.
pub open spec fn owned_by(x: FileBlob, live: Seq<LiveFile>, idx: Seq<int>, n: int) -> bool {
    exists|k: int|
        0 <= k < n && base_path(x.path@) == live[idx[k]].path@ && x.mtime == live[#[trigger] idx[k]].mtime
}

proof fn lemma_append_distinct(prev: Seq<FileBlob>, b: Seq<FileBlob>, base: Seq<char>)
    requires
        distinct_blob_paths(prev),
        distinct_blob_paths(b),
        forall|t: int| 0 <= t < b.len() ==> base_path((#[trigger] b[t]).path@) == base,
        forall|r: int| 0 <= r < prev.len() ==> base_path((#[trigger] prev[r]).path@) != base,
    ensures
        distinct_blob_paths(prev + b),
{
    let all = prev + b;
    assert forall|x: int, y: int|
        0 <= x < all.len() && 0 <= y < all.len() && x != y implies (#[trigger] all[x]).path@ != (
        #[trigger] all[y]).path@ by {
        if x < prev.len() && y < prev.len() {
            assert(all[x] == prev[x] && all[y] == prev[y]);
        } else if x >= prev.len() && y >= prev.len() {
            assert(all[x] == b[x - prev.len()] && all[y] == b[y - prev.len()]);
        } else if x < prev.len() {
            assert(all[x] == prev[x] && all[y] == b[y - prev.len()]);
        } else {
            assert(all[y] == prev[y] && all[x] == b[x - prev.len()]);
        }
    }
}

proof fn lemma_read_prefix(
    cache: BlobsCache,
    live: Seq<LiveFile>,
    idx: Seq<int>,
    contents: Seq<Seq<u8>>,
    blobs: Seq<Seq<FileBlob>>,
    n: int,
)
    requires
        distinct_paths(live),
        files_read(cache, live, idx, contents, blobs),
        0 <= n <= blobs.len(),
    ensures
        distinct_blob_paths(blobs.take(n).flatten()),
        forall|r: int|
            0 <= r < blobs.take(n).flatten().len() ==> owned_by(
                #[trigger] blobs.take(n).flatten()[r],
                live,
                idx,
                n,
            ),
        forall|k: int|
            0 <= k < n ==> exists|r: int|
                0 <= r < blobs.take(n).flatten().len() && base_path(
                    (#[trigger] blobs.take(n).flatten()[r]).path@,
                ) == live[#[trigger] idx[k]].path@,
    decreases n,
{
    if n == 0 {
        assert(blobs.take(0) =~= Seq::<Seq<FileBlob>>::empty());
        assert(blobs.take(0).flatten() =~= Seq::<FileBlob>::empty());
    } else {
        lemma_read_prefix(cache, live, idx, contents, blobs, n - 1);
        let prev = blobs.take(n - 1).flatten();
        let b = blobs[n - 1];
        assert(blobs.take(n) =~= blobs.take(n - 1).push(b));
        blobs.take(n - 1).lemma_flatten_push(b);
        let all = blobs.take(n).flatten();
        assert(all =~= prev + b);
        lemma_files_read_at(cache, live, idx, contents, blobs, n - 1);
        let i = idx[n - 1];
        assert forall|r: int| 0 <= r < prev.len() implies base_path((#[trigger] prev[r]).path@)
            != live[i].path@ by {
            assert(owned_by(prev[r], live, idx, n - 1));
            let k = choose|k: int|
                0 <= k < n - 1 && base_path(prev[r].path@) == live[idx[k]].path@ && prev[r].mtime
                    == live[#[trigger] idx[k]].mtime;
            lemma_files_read_at(cache, live, idx, contents, blobs, k);
            assert(idx[k] != i);
            assert(live[idx[k]].path@ != live[i].path@);
        }
        lemma_append_distinct(prev, b, live[i].path@);
        assert forall|r: int| 0 <= r < all.len() implies owned_by(#[trigger] all[r], live, idx, n) by {
            if r < prev.len() {
                assert(all[r] == prev[r]);
                assert(owned_by(prev[r], live, idx, n - 1));
                let k = choose|k: int|
                    0 <= k < n - 1 && base_path(prev[r].path@) == live[idx[k]].path@
                        && prev[r].mtime == live[#[trigger] idx[k]].mtime;
                assert(0 <= k < n);
            } else {
                assert(all[r] == b[r - prev.len()]);
                assert(base_path(b[r - prev.len()].path@) == live[idx[n - 1]].path@);
                assert(b[r - prev.len()].mtime == live[idx[n - 1]].mtime);
            }
        }
        assert forall|k: int| 0 <= k < n implies exists|r: int|
            0 <= r < all.len() && base_path((#[trigger] all[r]).path@) == live[#[trigger] idx[k]].path@ by {
            if k < n - 1 {
                let r = choose|r: int|
                    0 <= r < prev.len() && base_path((#[trigger] prev[r]).path@) == live[idx[k]].path@;
                assert(all[r] == prev[r]);
            } else {
                assert(all[prev.len() as int] == b[0]);
            }
        }
    }
}

/// The blobs read in a scan, file after file, meet what the idempotence law
/// asks of them, provided every file the scan had to read was read.
pub proof fn lemma_reads_cover(
    cache: BlobsCache,
    live: Seq<LiveFile>,
    idx: Seq<int>,
    contents: Seq<Seq<u8>>,
    blobs: Seq<Seq<FileBlob>>,
)
    requires
        distinct_paths(live),
        files_read(cache, live, idx, contents, blobs),
        forall|i: int|
            0 <= i < live.len() && !unchanged(cache, (#[trigger] live[i]).path@, live[i].mtime)
                ==> exists|k: int| 0 <= k < idx.len() && idx[k] == i,
    ensures
        reads_cover(cache, live, blobs.flatten()),
        distinct_blob_paths(blobs.flatten()),
{
    lemma_read_prefix(cache, live, idx, contents, blobs, blobs.len() as int);
    assert(blobs.take(blobs.len() as int) =~= blobs);
    lemma_reads_owned(cache, live, idx, contents, blobs);
    lemma_reads_complete(cache, live, idx, contents, blobs);
}

proof fn lemma_reads_owned(
    cache: BlobsCache,
    live: Seq<LiveFile>,
    idx: Seq<int>,
    contents: Seq<Seq<u8>>,
    blobs: Seq<Seq<FileBlob>>,
)
    requires
        distinct_paths(live),
        files_read(cache, live, idx, contents, blobs),
    ensures
        reads_owned(cache, live, blobs.flatten()),
{
    lemma_read_prefix(cache, live, idx, contents, blobs, blobs.len() as int);
    assert(blobs.take(blobs.len() as int) =~= blobs);
    let read = blobs.flatten();
    assert forall|r: int| 0 <= r < read.len() implies has_owner(cache, live, #[trigger] read[r]) by {
        assert(owned_by(read[r], live, idx, blobs.len() as int));
        let k = choose|k: int|
            0 <= k < blobs.len() && base_path(read[r].path@) == live[idx[k]].path@
                && read[r].mtime == live[#[trigger] idx[k]].mtime;
        lemma_files_read_at(cache, live, idx, contents, blobs, k);
        let i = idx[k];
        assert(0 <= i < live.len() && live[i].path@ == base_path(read[r].path@)
            && !unchanged(cache, live[i].path@, live[i].mtime) && read[r].mtime == live[i].mtime);
    }
}

proof fn lemma_reads_complete(
    cache: BlobsCache,
    live: Seq<LiveFile>,
    idx: Seq<int>,
    contents: Seq<Seq<u8>>,
    blobs: Seq<Seq<FileBlob>>,
)
    requires
        distinct_paths(live),
        files_read(cache, live, idx, contents, blobs),
        forall|i: int|
            0 <= i < live.len() && !unchanged(cache, (#[trigger] live[i]).path@, live[i].mtime)
                ==> exists|k: int| 0 <= k < idx.len() && idx[k] == i,
    ensures
        reads_complete(cache, live, blobs.flatten()),
{
    lemma_read_prefix(cache, live, idx, contents, blobs, blobs.len() as int);
    assert(blobs.take(blobs.len() as int) =~= blobs);
    assert(idx.len() == blobs.len()) by {
        reveal(files_read);
    }
    let read = blobs.flatten();
    assert forall|i: int|
        0 <= i < live.len() && !unchanged(cache, (#[trigger] live[i]).path@, live[i].mtime)
        implies exists|r: int| 0 <= r < read.len() && base_path((#[trigger] read[r]).path@) == live[i].path@ by {
        let k = choose|k: int| 0 <= k < idx.len() && idx[k] == i;
        assert(live[idx[k]] == live[i]);
        let r = choose|r: int|
            0 <= r < read.len() && base_path((#[trigger] read[r]).path@) == live[idx[k]].path@;
        assert(base_path(read[r].path@) == live[i].path@);
    }
}

} // verus!
