//! Upload batching, the acknowledgement of a batch with its per-blob
//! fallback, the cache commit, and the checkpoint a sync reports.

use vstd::prelude::*;
use crate::cache::{BlobsCache, Checkpoint, FileBlob, FileEntry};
use crate::startup::{contains_text, lower_of, lowercase, occurs};

verus! {

/// Most blobs in one batch request.
pub const MAX_UPLOAD_BATCH_BLOB_COUNT: usize = 128;

/// A batch's content stays under this many bytes (unless one blob alone
/// reaches it).
pub const MAX_UPLOAD_BATCH_BYTE_SIZE: usize = 1_000_000;

pub open spec fn blob_views(files: Seq<FileBlob>) -> Seq<(Seq<char>, Seq<u8>, Seq<char>, u64)> {
    files.map_values(|f: FileBlob| f@)
}

pub open spec fn batch_views(batches: Seq<Vec<FileBlob>>) -> Seq<
    Seq<(Seq<char>, Seq<u8>, Seq<char>, u64)>,
> {
    batches.map_values(|b: Vec<FileBlob>| blob_views(b@))
}

/// Content bytes of a batch.
pub open spec fn batch_bytes(b: Seq<(Seq<char>, Seq<u8>, Seq<char>, u64)>) -> nat
    decreases b.len(),
{
    if b.len() == 0 {
        0
    } else {
        batch_bytes(b.drop_last()) + b.last().1.len()
    }
}

/// Where batch `k` starts in the input.
pub open spec fn batch_start(
    batches: Seq<Seq<(Seq<char>, Seq<u8>, Seq<char>, u64)>>,
    k: int,
) -> int
    decreases k,
{
    if k <= 0 || k > batches.len() {
        0
    } else {
        batch_start(batches, k - 1) + batches[k - 1].len()
    }
}

/// Batch `k` is a non-empty run of the input within both caps (a single
/// blob at or over the byte cap stands alone).
pub open spec fn batch_within(
    files: Seq<(Seq<char>, Seq<u8>, Seq<char>, u64)>,
    batches: Seq<Seq<(Seq<char>, Seq<u8>, Seq<char>, u64)>>,
    k: int,
) -> bool {
    let st = batch_start(batches, k);
    let b = batches[k];
    &&& b.len() > 0
    &&& 0 <= st
    &&& st + b.len() <= files.len()
    &&& b == files.subrange(st, st + b.len())
    &&& b.len() <= MAX_UPLOAD_BATCH_BLOB_COUNT
    &&& (batch_bytes(b) < MAX_UPLOAD_BATCH_BYTE_SIZE || b.len() == 1)
}

/// Adding the blob after batch `k` would meet or pass a cap.
pub open spec fn batch_full(
    files: Seq<(Seq<char>, Seq<u8>, Seq<char>, u64)>,
    batches: Seq<Seq<(Seq<char>, Seq<u8>, Seq<char>, u64)>>,
    k: int,
) -> bool {
    let b = batches[k];
    let next = batch_start(batches, k) + b.len();
    b.len() >= MAX_UPLOAD_BATCH_BLOB_COUNT || batch_bytes(b) + files[next].1.len()
        >= MAX_UPLOAD_BATCH_BYTE_SIZE
}

/// `batches` is the greedy batching of `files`: in order, each batch takes
/// blobs while both caps hold, and no batch is empty.
pub open spec fn greedy_batches(
    files: Seq<(Seq<char>, Seq<u8>, Seq<char>, u64)>,
    batches: Seq<Seq<(Seq<char>, Seq<u8>, Seq<char>, u64)>>,
) -> bool {
    &&& batch_start(batches, batches.len() as int) == files.len()
    &&& forall|k: int| 0 <= k < batches.len() ==> #[trigger] batch_within(files, batches, k)
    &&& forall|k: int| 0 <= k < batches.len() - 1 ==> #[trigger] batch_full(files, batches, k)
}

proof fn lemma_batch_start_push(
    batches: Seq<Seq<(Seq<char>, Seq<u8>, Seq<char>, u64)>>,
    b: Seq<(Seq<char>, Seq<u8>, Seq<char>, u64)>,
    k: int,
)
    requires
        0 <= k <= batches.len(),
    ensures
        batch_start(batches.push(b), k) == batch_start(batches, k),
    decreases k,
{
    if k > 0 {
        lemma_batch_start_push(batches, b, k - 1);
    }
}

proof fn lemma_batch_bytes_push(
    b: Seq<(Seq<char>, Seq<u8>, Seq<char>, u64)>,
    x: (Seq<char>, Seq<u8>, Seq<char>, u64),
)
    ensures
        batch_bytes(b.push(x)) == batch_bytes(b) + x.1.len(),
{
    assert(b.push(x).drop_last() =~= b);
}

proof fn lemma_batches_concat(
    files: Seq<(Seq<char>, Seq<u8>, Seq<char>, u64)>,
    batches: Seq<Seq<(Seq<char>, Seq<u8>, Seq<char>, u64)>>,
    k: int,
)
    requires
        0 <= k <= batches.len(),
        forall|j: int| 0 <= j < batches.len() ==> #[trigger] batch_within(files, batches, j),
    ensures
        batches.take(k).flatten() =~= files.subrange(0, batch_start(batches, k)),
    decreases k,
{
    if k == 0 {
        assert(batches.take(0) =~= Seq::<Seq<(Seq<char>, Seq<u8>, Seq<char>, u64)>>::empty());
    } else {
        lemma_batches_concat(files, batches, k - 1);
        assert(batches.take(k) =~= batches.take(k - 1).push(batches[k - 1]));
        batches.take(k - 1).lemma_flatten_push(batches[k - 1]);
        assert(batch_within(files, batches, k - 1));
        let a = batch_start(batches, k - 1);
        assert(batch_start(batches, k) == a + batches[k - 1].len());
        assert(files.subrange(0, batch_start(batches, k)) =~= files.subrange(0, a) + batches[k
            - 1]);
    }
}

/// Batching: when every blob is under the byte cap, every batch holds at
/// most `MAX_UPLOAD_BATCH_BLOB_COUNT` blobs and under
/// `MAX_UPLOAD_BATCH_BYTE_SIZE` content bytes, and the batches put back
/// together in order give the input.
pub proof fn lemma_batching_bounds(
    files: Seq<(Seq<char>, Seq<u8>, Seq<char>, u64)>,
    batches: Seq<Seq<(Seq<char>, Seq<u8>, Seq<char>, u64)>>,
)
    requires
        greedy_batches(files, batches),
        forall|i: int| 0 <= i < files.len() ==> (#[trigger] files[i]).1.len()
            < MAX_UPLOAD_BATCH_BYTE_SIZE,
    ensures
        forall|k: int|
            0 <= k < batches.len() ==> (#[trigger] batches[k]).len() <= MAX_UPLOAD_BATCH_BLOB_COUNT
                && batch_bytes(batches[k]) < MAX_UPLOAD_BATCH_BYTE_SIZE,
        batches.flatten() == files,
{
    assert forall|k: int| 0 <= k < batches.len() implies (#[trigger] batches[k]).len()
        <= MAX_UPLOAD_BATCH_BLOB_COUNT && batch_bytes(batches[k]) < MAX_UPLOAD_BATCH_BYTE_SIZE by {
        assert(batch_within(files, batches, k));
        let b = batches[k];
        if b.len() == 1 {
            let st = batch_start(batches, k);
            assert(b[0] == files[st]);
            assert(b.drop_last() =~= Seq::<(Seq<char>, Seq<u8>, Seq<char>, u64)>::empty());
            assert(batch_bytes(b.drop_last()) == 0);
            assert(files[st].1.len() < MAX_UPLOAD_BATCH_BYTE_SIZE);
        }
    }
    lemma_batches_concat(files, batches, batches.len() as int);
    assert(batches.take(batches.len() as int) =~= batches);
}

/// Splits blobs, in order, into batches under both caps: a batch is sealed
/// when adding the next blob would meet or pass either cap.
#[verifier::spinoff_prover]
pub fn create_upload_batches(files: &[FileBlob]) -> (r: Vec<Vec<FileBlob>>)
    ensures
        greedy_batches(blob_views(files@), batch_views(r@)),
{
    let ghost fs = blob_views(files@);
    let mut batches: Vec<Vec<FileBlob>> = Vec::new();
    let mut current: Vec<FileBlob> = Vec::new();
    let mut current_bytes: usize = 0;
    let mut i: usize = 0;
    while i < files.len()
        invariant
            fs == blob_views(files@),
            i <= files@.len(),
            batch_start(batch_views(batches@), batches@.len() as int) + current@.len() == i,
            forall|k: int|
                0 <= k < batches@.len() ==> #[trigger] batch_within(fs, batch_views(batches@), k)
                    && batch_full(fs, batch_views(batches@), k),
            blob_views(current@) == fs.subrange(i - current@.len(), i as int),
            current_bytes == batch_bytes(blob_views(current@)),
            current@.len() <= MAX_UPLOAD_BATCH_BLOB_COUNT,
            current@.len() <= i,
            current_bytes < MAX_UPLOAD_BATCH_BYTE_SIZE || current@.len() == 1,
            i > 0 ==> current@.len() > 0,
        decreases files@.len() - i,
    {
        let size = files[i].content.len();
        let exceeds_count = current.len() >= MAX_UPLOAD_BATCH_BLOB_COUNT;
        let exceeds_bytes = current_bytes >= MAX_UPLOAD_BATCH_BYTE_SIZE || size
            >= MAX_UPLOAD_BATCH_BYTE_SIZE - current_bytes;
        if (exceeds_count || exceeds_bytes) && current.len() > 0 {
            let ghost old_views = batch_views(batches@);
            let ghost cv = blob_views(current@);
            proof {
                lemma_batch_start_push(old_views, cv, old_views.len() as int);
                assert forall|k: int| 0 <= k < old_views.len() implies #[trigger] batch_within(
                    fs,
                    old_views.push(cv),
                    k,
                ) && batch_full(fs, old_views.push(cv), k) by {
                    assert(batch_within(fs, old_views, k));
                    assert(batch_full(fs, old_views, k));
                    lemma_batch_start_push(old_views, cv, k);
                    assert(old_views.push(cv)[k] == old_views[k]);
                }
                assert(fs[i as int].1 == files@[i as int].content@);
            }
            batches.push(current);
            proof {
                assert(batch_views(batches@) =~= old_views.push(cv));
                assert(batch_within(fs, batch_views(batches@), old_views.len() as int));
                assert(batch_full(fs, batch_views(batches@), old_views.len() as int));
                assert forall|k: int| 0 <= k < batches@.len() implies #[trigger] batch_within(
                    fs,
                    batch_views(batches@),
                    k,
                ) && batch_full(fs, batch_views(batches@), k) by {
                    if k < old_views.len() {
                        assert(batch_within(fs, old_views.push(cv), k));
                        assert(batch_full(fs, old_views.push(cv), k));
                    }
                }
            }
            current = Vec::new();
            current_bytes = 0;
            assert(blob_views(current@) =~= Seq::<(Seq<char>, Seq<u8>, Seq<char>, u64)>::empty());
        }
        assert(current@.len() == 0 ==> current_bytes == 0) by {
            if current@.len() == 0 {
                assert(blob_views(current@) =~= Seq::<(Seq<char>, Seq<u8>, Seq<char>, u64)>::empty());
            }
        }
        let ghost before = blob_views(current@);
        current.push(files[i].copied());
        proof {
            assert(blob_views(current@) =~= before.push(fs[i as int]));
            lemma_batch_bytes_push(before, fs[i as int]);
            assert(blob_views(current@) =~= fs.subrange(i + 1 - current@.len(), i + 1));
        }
        current_bytes = current_bytes + size;
        i = i + 1;
    }
    if current.len() > 0 {
        let ghost old_views = batch_views(batches@);
        let ghost cv = blob_views(current@);
        proof {
            lemma_batch_start_push(old_views, cv, old_views.len() as int);
            assert forall|k: int| 0 <= k < old_views.len() implies #[trigger] batch_within(
                fs,
                old_views.push(cv),
                k,
            ) && batch_full(fs, old_views.push(cv), k) by {
                assert(batch_within(fs, old_views, k));
                assert(batch_full(fs, old_views, k));
                lemma_batch_start_push(old_views, cv, k);
                assert(old_views.push(cv)[k] == old_views[k]);
            }
        }
        batches.push(current);
        proof {
            assert(batch_views(batches@) =~= old_views.push(cv));
            assert(batch_within(fs, batch_views(batches@), old_views.len() as int));
            let bv = batch_views(batches@);
            assert(batch_start(bv, bv.len() as int) == batch_start(bv, old_views.len() as int)
                + cv.len());
        }
    }
    proof {
        let bv = batch_views(batches@);
        assert forall|k: int| 0 <= k < bv.len() - 1 implies #[trigger] batch_full(fs, bv, k) by {
            assert(batch_within(fs, bv, k) && batch_full(fs, bv, k));
        }
    }
    batches
}

/// The outcome of uploading one batch: what the batch request acknowledged,
/// then what the per-blob fallback added.
pub struct BatchUploadResult {
    /// Blobs acknowledged by the batch request.
    pub batch_uploaded: usize,
    /// Blobs acknowledged one by one afterwards.
    pub sequential_uploaded: usize,
    /// Blob names the server returned.
    pub blob_names: Vec<String>,
    /// Blobs acknowledged, in order: these may be marked in the cache.
    pub uploaded_files: Vec<FileBlob>,
}

/// How many blobs of a batch of `len` the response acknowledged: the first
/// as many as the server returned names, none when the request failed.
pub open spec fn acknowledged_count(len: nat, names: Option<Seq<String>>) -> nat {
    match names {
        Some(n) => if n.len() < len { n.len() } else { len },
        None => 0,
    }
}

impl BatchUploadResult {
    /// Takes in the response to the batch request, `None` if it failed. The
    /// blobs from `batch_uploaded` on are left for the per-blob fallback.
    pub fn from_batch_response(batch: &[FileBlob], response: Option<Vec<String>>) -> (r:
        BatchUploadResult)
        ensures
            r.batch_uploaded == acknowledged_count(
                batch@.len(),
                match response {
                    Some(v) => Some(v@),
                    None => None,
                },
            ),
            r.sequential_uploaded == 0,
            blob_views(r.uploaded_files@) == blob_views(batch@.take(r.batch_uploaded as int)),
            r.blob_names@ == match response {
                Some(v) => v@,
                None => Seq::<String>::empty(),
            },
    {
        let (k, names) = match response {
            Some(v) => {
                let k = if v.len() < batch.len() {
                    v.len()
                } else {
                    batch.len()
                };
                (k, v)
            },
            None => (0, Vec::new()),
        };
        let mut uploaded: Vec<FileBlob> = Vec::new();
        let mut i: usize = 0;
        while i < k
            invariant
                k <= batch@.len(),
                i <= k,
                blob_views(uploaded@) == blob_views(batch@.take(i as int)),
            decreases k - i,
        {
            let ghost before = uploaded@;
            uploaded.push(batch[i].copied());
            proof {
                assert(blob_views(uploaded@) =~= blob_views(before).push(batch@[i as int]@));
                assert(batch@.take(i + 1) =~= batch@.take(i as int).push(batch@[i as int]));
                assert(blob_views(batch@.take(i + 1)) =~= blob_views(batch@.take(i as int)).push(
                    batch@[i as int]@,
                ));
            }
            i = i + 1;
        }
        BatchUploadResult {
            batch_uploaded: k,
            sequential_uploaded: 0,
            blob_names: names,
            uploaded_files: uploaded,
        }
    }

    /// Takes in the response to a single-blob upload of `file`, `None` if it
    /// failed. A response that names a blob acknowledges the file; a failure
    /// or an empty response leaves it for the next sync.
    pub fn record_single(&mut self, file: &FileBlob, response: Option<Vec<String>>)
        requires
            old(self).sequential_uploaded < usize::MAX,
        ensures
            final(self).batch_uploaded == old(self).batch_uploaded,
            match response {
                Some(v) if v@.len() > 0 => {
                    &&& blob_views(final(self).uploaded_files@) == blob_views(
                        old(self).uploaded_files@,
                    ).push(file@)
                    &&& final(self).sequential_uploaded == old(self).sequential_uploaded + 1
                    &&& final(self).blob_names@ == old(self).blob_names@ + v@
                },
                _ => {
                    &&& final(self).uploaded_files@ == old(self).uploaded_files@
                    &&& final(self).sequential_uploaded == old(self).sequential_uploaded
                    &&& final(self).blob_names@ == old(self).blob_names@
                },
            },
    {
        match response {
            Some(mut v) => {
                if v.len() > 0 {
                    let ghost before = self.uploaded_files@;
                    let ghost names = v@;
                    self.blob_names.append(&mut v);
                    self.uploaded_files.push(file.copied());
                    self.sequential_uploaded = self.sequential_uploaded + 1;
                    proof {
                        assert(blob_views(self.uploaded_files@) =~= blob_views(before).push(file@));
                    }
                }
            },
            None => {},
        }
    }
}

/// The cache map after marking `files`, in order, with consecutive content
/// sequence numbers from `seq`; each file keeps its scan-time mtime.
pub open spec fn committed(m: Map<Seq<char>, FileEntry>, files: Seq<FileBlob>, seq: u64) -> Map<
    Seq<char>,
    FileEntry,
>
    decreases files.len(),
{
    if files.len() == 0 {
        m
    } else {
        let f = files.last();
        committed(m, files.drop_last(), seq).insert(
            f.path@,
            FileEntry {
                mtime: f.mtime,
                blob_name: f.blob_name,
                content_seq: (seq + files.len() - 1) as u64,
            },
        )
    }
}

/// Marks acknowledged blobs in the cache with the mtime seen at scan time,
/// never one read again, and consecutive content sequence numbers from
/// `next_seq`; returns the next number.
pub fn mark_files_as_uploaded(cache: &mut BlobsCache, files: &[FileBlob], next_seq: u64) -> (r:
    u64)
    requires
        old(cache).wf(),
        next_seq + files@.len() <= u64::MAX,
    ensures
        final(cache).wf(),
        final(cache).forward() == committed(old(cache).forward(), files@, next_seq),
        r == next_seq + files@.len(),
{
    let ghost start = cache.forward();
    let mut seq = next_seq;
    let mut i: usize = 0;
    while i < files.len()
        invariant
            cache.wf(),
            i <= files@.len(),
            seq == next_seq + i,
            next_seq + files@.len() <= u64::MAX,
            cache.forward() == committed(start, files@.take(i as int), next_seq),
        decreases files@.len() - i,
    {
        let f = &files[i];
        cache.update(f.path.clone(), f.mtime, f.blob_name.clone(), seq);
        proof {
            let t = files@.take(i + 1);
            assert(t.drop_last() =~= files@.take(i as int));
            assert(t.last() == files@[i as int]);
        }
        seq = seq + 1;
        i = i + 1;
    }
    assert(files@.take(files@.len() as int) =~= files@);
    seq
}

/// Drops the entries of `paths` from the cache; returns the blob names
/// of the entries that were there.
pub fn remove_deleted_from_cache(cache: &mut BlobsCache, paths: &[String]) -> (r: Vec<String>)
    requires
        old(cache).wf(),
    ensures
        final(cache).wf(),
        forall|p: Seq<char>| #[trigger]
            final(cache).forward().contains_key(p) <==> old(cache).forward().contains_key(p)
                && !crate::cache::in_names(paths@, p),
        forall|p: Seq<char>| #[trigger]
            final(cache).forward().contains_key(p) ==> final(cache).forward()[p] == old(
                cache,
            ).forward()[p],
        forall|p: Seq<char>| #[trigger]
            old(cache).forward().contains_key(p) && crate::cache::in_names(paths@, p)
                ==> crate::cache::in_names(r@, old(cache).forward()[p].blob_name@),
        forall|i: int| 0 <= i < r@.len() ==> old(cache).holds_blob_name(#[trigger] r@[i]@),
        old(cache).consistent() ==> final(cache).consistent(),
{
    let ghost start = *cache;
    let mut removed: Vec<String> = Vec::new();
    let mut i: usize = 0;
    while i < paths.len()
        invariant
            cache.wf(),
            i <= paths@.len(),
            forall|p: Seq<char>| #[trigger]
                cache.forward().contains_key(p) <==> start.forward().contains_key(p) && !(exists|j: int|
                    0 <= j < i && paths@[j]@ == p),
            forall|p: Seq<char>| #[trigger]
                cache.forward().contains_key(p) ==> cache.forward()[p] == start.forward()[p],
            forall|p: Seq<char>| #[trigger]
                start.forward().contains_key(p) && (exists|j: int| 0 <= j < i && paths@[j]@ == p)
                    ==> crate::cache::in_names(removed@, start.forward()[p].blob_name@),
            forall|k: int| 0 <= k < removed@.len() ==> start.holds_blob_name(#[trigger] removed@[k]@),
            start.consistent() ==> cache.consistent(),
        decreases paths@.len() - i,
    {
        let ghost before = removed@;
        let ghost here = paths@[i as int]@;
        match cache.get_blob_name(paths[i].as_str()) {
            Some(b) => {
                removed.push(b.clone());
                proof {
                    assert(start.forward().contains_key(here));
                    assert(removed@[removed@.len() - 1]@ == start.forward()[here].blob_name@);
                }
            },
            None => {},
        }
        cache.remove(paths[i].as_str());
        proof {
            assert forall|p: Seq<char>| #[trigger] cache.forward().contains_key(p) <==> start.forward().contains_key(p)
                && !(exists|j: int| 0 <= j < i + 1 && paths@[j]@ == p) by {
                if p == here {
                    assert(0 <= i < i + 1 && paths@[i as int]@ == p);
                }
            }
            assert forall|k: int| 0 <= k < removed@.len() implies start.holds_blob_name(#[trigger] removed@[k]@) by {
                if k < before.len() {
                    assert(removed@[k] == before[k]);
                } else {
                    assert(start.forward().contains_key(here));
                }
            }
            assert forall|p: Seq<char>| #[trigger]
                start.forward().contains_key(p) && (exists|j: int| 0 <= j < i + 1 && paths@[j]@ == p)
                implies crate::cache::in_names(removed@, start.forward()[p].blob_name@) by {
                if p == here {
                    if !(exists|j: int| 0 <= j < i && paths@[j]@ == p) {
                        assert(removed@[removed@.len() - 1]@ == start.forward()[here].blob_name@);
                    } else {
                        let k = choose|k: int| 0 <= k < before.len() && (#[trigger] before[k])@
                            == start.forward()[p].blob_name@;
                        assert(removed@[k] == before[k]);
                    }
                } else {
                    let j = choose|j: int| 0 <= j < i + 1 && paths@[j]@ == p;
                    assert(j < i);
                    let k = choose|k: int| 0 <= k < before.len() && (#[trigger] before[k])@
                        == start.forward()[p].blob_name@;
                    assert(removed@[k] == before[k]);
                }
            }
        }
        i = i + 1;
    }
    proof {
        assert forall|p: Seq<char>| #[trigger]
            start.forward().contains_key(p) && crate::cache::in_names(paths@, p) implies crate::cache::in_names(
            removed@,
            start.forward()[p].blob_name@,
        ) by {
            let j = choose|j: int| 0 <= j < paths@.len() && (#[trigger] paths@[j])@ == p;
            assert(exists|jj: int| 0 <= jj < paths@.len() && paths@[jj]@ == p);
        }
        assert forall|p: Seq<char>| #[trigger] cache.forward().contains_key(p) <==> start.forward().contains_key(p)
            && !crate::cache::in_names(paths@, p) by {
            if crate::cache::in_names(paths@, p) {
                let j = choose|j: int| 0 <= j < paths@.len() && (#[trigger] paths@[j])@ == p;
                assert(exists|jj: int| 0 <= jj < paths@.len() && paths@[jj]@ == p);
            }
            if exists|jj: int| 0 <= jj < paths@.len() && paths@[jj]@ == p {
                let jj = choose|jj: int| 0 <= jj < paths@.len() && paths@[jj]@ == p;
                assert(paths@[jj]@ == p);
            }
        }
    }
    removed
}

/// The blobs of `s` whose names the cache does not hold, in order.
pub open spec fn uncached(cache: BlobsCache, s: Seq<FileBlob>) -> Seq<
    (Seq<char>, Seq<u8>, Seq<char>, u64),
>
    decreases s.len(),
{
    if s.len() == 0 {
        Seq::empty()
    } else if cache.backward().contains_key(s.last().blob_name@) {
        uncached(cache, s.drop_last())
    } else {
        uncached(cache, s.drop_last()).push(s.last()@)
    }
}

/// The blobs whose names the cache does not hold yet, in order.
pub fn files_needing_upload(cache: &BlobsCache, blobs: &[FileBlob]) -> (r: Vec<FileBlob>)
    requires
        cache.wf(),
    ensures
        blob_views(r@) == uncached(*cache, blobs@),
{
    let mut out: Vec<FileBlob> = Vec::new();
    let mut i: usize = 0;
    while i < blobs.len()
        invariant
            i <= blobs@.len(),
            cache.wf(),
            blob_views(out@) == uncached(*cache, blobs@.take(i as int)),
        decreases blobs@.len() - i,
    {
        let ghost before = out@;
        proof {
            assert(blobs@.take(i + 1).drop_last() =~= blobs@.take(i as int));
            assert(blobs@.take(i + 1).last() == blobs@[i as int]);
        }
        if !cache.has_blob(blobs[i].blob_name.as_str()) {
            out.push(blobs[i].copied());
            proof {
                assert(blob_views(out@) =~= blob_views(before).push(blobs@[i as int]@));
            }
        }
        i = i + 1;
    }
    assert(blobs@.take(blobs@.len() as int) =~= blobs@);
    out
}

pub open spec fn names_of(files: Seq<FileBlob>) -> Seq<Seq<char>> {
    files.map_values(|f: FileBlob| f.blob_name@)
}

pub open spec fn texts(v: Seq<String>) -> Seq<Seq<char>> {
    v.map_values(|s: String| s@)
}

/// The checkpoint of a sync: the unchanged blob names, then those of the
/// blobs acknowledged now; no id, nothing deleted.
pub fn build_checkpoint(unchanged: Vec<String>, uploaded: &[FileBlob]) -> (r: Checkpoint)
    ensures
        texts(r.added_blobs@) == texts(unchanged@) + names_of(uploaded@),
        r.checkpoint_id is None,
        r.deleted_blobs@.len() == 0,
{
    let mut added = unchanged;
    let ghost base = texts(added@);
    let mut i: usize = 0;
    while i < uploaded.len()
        invariant
            i <= uploaded@.len(),
            texts(added@) == base + names_of(uploaded@.take(i as int)),
        decreases uploaded@.len() - i,
    {
        let ghost before = added@;
        added.push(uploaded[i].blob_name.clone());
        proof {
            assert(uploaded@.take(i + 1) =~= uploaded@.take(i as int).push(uploaded@[i as int]));
            assert(names_of(uploaded@.take(i + 1)) =~= names_of(uploaded@.take(i as int)).push(
                uploaded@[i as int].blob_name@,
            ));
            assert(texts(added@) =~= texts(before).push(uploaded@[i as int].blob_name@));
            assert(texts(added@) =~= base + names_of(uploaded@.take(i + 1)));
        }
        i = i + 1;
    }
    assert(uploaded@.take(uploaded@.len() as int) =~= uploaded@);
    Checkpoint { checkpoint_id: None, added_blobs: added, deleted_blobs: Vec::new() }
}

/// What a sync reports.
pub struct SyncResult {
    pub checkpoint: Checkpoint,
    pub uploaded_count: usize,
    pub unchanged_count: usize,
    pub deleted_count: usize,
}

/// Progress of the background upload.
#[derive(Clone, Debug)]
pub struct UploadStatus {
    pub total_files: usize,
    pub uploaded_files: usize,
    pub is_uploading: bool,
    pub upload_complete: bool,
    pub last_error: Option<String>,
}

impl Default for UploadStatus {
    fn default() -> (r: UploadStatus)
        ensures
            r.total_files == 0 && r.uploaded_files == 0 && !r.is_uploading && !r.upload_complete
                && r.last_error is None,
    {
        UploadStatus {
            total_files: 0,
            uploaded_files: 0,
            is_uploading: false,
            upload_complete: false,
            last_error: None,
        }
    }
}

/// Smallest byte cap that shrinking after a payload-too-large answer reaches.
pub const MIN_BATCH_BYTES: usize = 256 * 1024;

/// Whether an upload error reports a payload that is too large: it names
/// status 413, or says "too large" or "payload" in any case.
pub open spec fn payload_too_large(err: Seq<char>) -> bool {
    occurs(err, "413"@) || occurs(lower_of(err), "too large"@) || occurs(lower_of(err), "payload"@)
}

pub fn is_payload_too_large(err: &str) -> (r: bool)
    ensures
        r == payload_too_large(err@),
{
    if contains_text(err, "413") {
        return true;
    }
    let lower = lowercase(err);
    contains_text(lower.as_str(), "too large") || contains_text(lower.as_str(), "payload")
}

/// The byte cap after a payload-too-large answer: halved, never below
/// `MIN_BATCH_BYTES`; a cap already at or below the floor stays.
pub fn shrink_byte_cap(cap: usize) -> (r: usize)
    ensures
        cap <= MIN_BATCH_BYTES ==> r == cap,
        cap > MIN_BATCH_BYTES ==> r == if cap / 2 > MIN_BATCH_BYTES { cap / 2 } else { MIN_BATCH_BYTES },
{
    if cap <= MIN_BATCH_BYTES {
        cap
    } else if cap / 2 > MIN_BATCH_BYTES {
        cap / 2
    } else {
        MIN_BATCH_BYTES
    }
}

} // verus!
