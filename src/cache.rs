//! The per-workspace blob cache: path to last uploaded blob, and the reverse
//! index from blob name to path.

use vstd::prelude::*;
use vstd::string::*;
use crate::table::{
    find_key, lemma_models_absent, lemma_models_push, lemma_models_remove,
    lemma_models_set, models,
};

verus! {

/// Some element of `v` has the characters `b`.
pub open spec fn in_names(v: Seq<String>, b: Seq<char>) -> bool {
    exists|i: int| 0 <= i < v.len() && (#[trigger] v[i])@ == b
}

/// Whether some element of `v` equals `b`.
pub fn contains_name(v: &[String], b: &String) -> (r: bool)
    ensures
        r == in_names(v@, b@),
{
    let mut i: usize = 0;
    while i < v.len()
        invariant
            i <= v@.len(),
            forall|j: int| 0 <= j < i ==> (#[trigger] v@[j])@ != b@,
        decreases v@.len() - i,
    {
        if v[i] == *b {
            return true;
        }
        i = i + 1;
    }
    false
}

/// Content sequence number given to the first upload of a fresh cache.
pub const FIRST_CONTENT_SEQ: u64 = 1001;

pub open spec fn saturating_next(n: u64) -> u64 {
    if n == u64::MAX { n } else { (n + 1) as u64 }
}

/// No pair of `v` between `i` and `n` has the key of pair `i`.
pub open spec fn last_before<V>(v: Seq<(String, V)>, i: int, n: int) -> bool {
    forall|j: int| i < j < n ==> (#[trigger] v[j]).0@ != v[i].0@
}

/// No later pair of `v` has the key of pair `i`.
pub open spec fn last_for_key<V>(v: Seq<(String, V)>, i: int) -> bool {
    forall|j: int| i < j < v.len() ==> (#[trigger] v[j]).0@ != v[i].0@
}

/// A unit of upload: a workspace-relative path (possibly with a chunk
/// suffix), its content, its blob name and the file's mtime at scan time.
#[derive(Clone, Debug)]
pub struct FileBlob {
    pub path: String,
    pub content: Vec<u8>,
    pub blob_name: String,
    /// Milliseconds since the Unix epoch.
    pub mtime: u64,
}

impl View for FileBlob {
    /// Path, content, blob name and mtime.
    type V = (Seq<char>, Seq<u8>, Seq<char>, u64);

    open spec fn view(&self) -> Self::V {
        (self.path@, self.content@, self.blob_name@, self.mtime)
    }
}

impl FileBlob {
    pub fn copied(&self) -> (r: FileBlob)
        ensures
            r@ == self@,
    {
        FileBlob {
            path: self.path.clone(),
            content: vstd::slice::slice_to_vec(self.content.as_slice()),
            blob_name: self.blob_name.clone(),
            mtime: self.mtime,
        }
    }
}

/// The last blob uploaded for a path.
#[derive(Clone, Debug)]
pub struct FileEntry {
    /// Milliseconds since the Unix epoch, as seen when the blob was scanned.
    pub mtime: u64,
    pub blob_name: String,
    pub content_seq: u64,
}

impl FileEntry {
    pub fn copied(&self) -> (r: FileEntry)
        ensures
            r == *self,
    {
        FileEntry { mtime: self.mtime, blob_name: self.blob_name.clone(), content_seq: self.content_seq }
    }
}

/// The blob names that stand for the workspace in a request.
#[derive(Clone, Debug)]
pub struct Checkpoint {
    pub checkpoint_id: Option<String>,
    pub added_blobs: Vec<String>,
    pub deleted_blobs: Vec<String>,
}

/// Path to entry, and blob name to path.
pub struct BlobsCache {
    entries: Vec<(String, FileEntry)>,
    reverse: Vec<(String, String)>,
    fwd: Ghost<Map<Seq<char>, FileEntry>>,
    rev: Ghost<Map<Seq<char>, String>>,
}

impl BlobsCache {
    /// Path (as characters) to its entry.
    pub closed spec fn forward(&self) -> Map<Seq<char>, FileEntry> {
        self.fwd@
    }

    /// Blob name (as characters) to path.
    pub closed spec fn backward(&self) -> Map<Seq<char>, String> {
        self.rev@
    }

    /// The tables hold the two maps, and every reverse-index pair points at a
    /// path whose entry carries that blob name.
    pub closed spec fn wf(&self) -> bool {
        &&& models(self.entries@, self.fwd@)
        &&& models(self.reverse@, self.rev@)
        &&& forall|b: Seq<char>| #[trigger]
            self.rev@.contains_key(b) ==> self.fwd@.contains_key(self.rev@[b]@)
                && self.fwd@[self.rev@[b]@].blob_name@ == b
    }

    /// Every entry's blob name leads back to its path.
    pub open spec fn consistent(&self) -> bool {
        forall|p: Seq<char>| #[trigger]
            self.forward().contains_key(p) ==> self.backward().contains_key(
                self.forward()[p].blob_name@,
            ) && self.backward()[self.forward()[p].blob_name@]@ == p
    }

    /// No path but `path` carries `blob`.
    pub open spec fn blob_free_for(&self, path: Seq<char>, blob: Seq<char>) -> bool {
        forall|q: Seq<char>| #[trigger]
            self.forward().contains_key(q) && q != path ==> self.forward()[q].blob_name@ != blob
    }

    /// Some path carries `blob`.
    pub open spec fn holds_blob_name(&self, blob: Seq<char>) -> bool {
        exists|p: Seq<char>| #[trigger]
            self.forward().contains_key(p) && self.forward()[p].blob_name@ == blob
    }

    pub fn new() -> (r: BlobsCache)
        ensures
            r.wf(),
            r.forward() == Map::<Seq<char>, FileEntry>::empty(),
            r.backward() == Map::<Seq<char>, String>::empty(),
            r.consistent(),
    {
        BlobsCache {
            entries: Vec::new(),
            reverse: Vec::new(),
            fwd: Ghost(Map::empty()),
            rev: Ghost(Map::empty()),
        }
    }

    /// Consistency of the two maps: with every entry's blob name leading back
    /// to its path, a reverse-index pair exists exactly when the entry of its
    /// path carries its blob name.
    pub proof fn lemma_forward_reverse(&self, p: Seq<char>, b: Seq<char>)
        requires
            self.wf(),
            self.consistent(),
        ensures
            (self.backward().contains_key(b) && self.backward()[b]@ == p) <==> (
            self.forward().contains_key(p) && self.forward()[p].blob_name@ == b),
    {
    }

    /// Blob name of the entry for `path`.
    pub fn get_blob_name(&self, path: &str) -> (r: Option<&String>)
        requires
            self.wf(),
        ensures
            match r {
                Some(b) => self.forward().contains_key(path@) && b@
                    == self.forward()[path@].blob_name@,
                None => !self.forward().contains_key(path@),
            },
    {
        let key = String::from_str(path);
        match find_key(&self.entries, &key) {
            Some(i) => Some(&self.entries[i].1.blob_name),
            None => {
                proof {
                    lemma_models_absent(self.entries@, self.fwd@, path@);
                }
                None
            },
        }
    }

    /// Path recorded for `blob_name` in the reverse index.
    pub fn get_path(&self, blob_name: &str) -> (r: Option<&String>)
        requires
            self.wf(),
        ensures
            match r {
                Some(p) => self.backward().contains_key(blob_name@) && *p
                    == self.backward()[blob_name@],
                None => !self.backward().contains_key(blob_name@),
            },
    {
        let key = String::from_str(blob_name);
        match find_key(&self.reverse, &key) {
            Some(i) => Some(&self.reverse[i].1),
            None => {
                proof {
                    lemma_models_absent(self.reverse@, self.rev@, blob_name@);
                }
                None
            },
        }
    }

    /// Whether the reverse index holds `blob_name`.
    pub fn has_blob(&self, blob_name: &str) -> (r: bool)
        requires
            self.wf(),
        ensures
            r == self.backward().contains_key(blob_name@),
    {
        self.get_path(blob_name).is_some()
    }

    proof fn lemma_len(&self)
        requires
            self.wf(),
        ensures
            self.entries@.len() == self.fwd@.dom().len(),
    {
            let keys = self.entries@.map_values(|e: (String, FileEntry)| e.0@);
            assert(keys.no_duplicates()) by {
                assert forall|i: int, j: int| 0 <= i < keys.len() && 0 <= j < keys.len() && i
                    != j implies keys[i] != keys[j] by {
                    if i < j {
                        assert(self.entries@[i].0@ != self.entries@[j].0@);
                    } else {
                        assert(self.entries@[j].0@ != self.entries@[i].0@);
                    }
                }
            }
            keys.unique_seq_to_set();
            assert(keys.to_set() =~= self.fwd@.dom()) by {
                assert forall|p: Seq<char>| keys.to_set().contains(p) implies self.fwd@.contains_key(
                    p,
                ) by {
                    let i = choose|i: int| 0 <= i < keys.len() && keys[i] == p;
                    assert(self.entries@[i].0@ == p);
                }
                assert forall|p: Seq<char>| self.fwd@.contains_key(p) implies keys.to_set().contains(
                    p,
                ) by {
                    let i = choose|i: int| 0 <= i < self.entries@.len() && self.entries@[i].0@ == p;
                    assert(keys[i] == p);
                }
            }
    }

    /// Number of paths in the cache.
    pub fn len(&self) -> (r: usize)
        requires
            self.wf(),
        ensures
            r == self.forward().dom().len(),
    {
        proof {
            self.lemma_len();
        }
        self.entries.len()
    }

    /// Whether the cache has no path.
    pub fn is_empty(&self) -> (r: bool)
        requires
            self.wf(),
        ensures
            r == (self.forward().dom().len() == 0),
    {
        self.len() == 0
    }

    fn remove_reverse(&mut self, blob_name: &String)
        requires
            models(old(self).reverse@, old(self).rev@),
        ensures
            models(final(self).reverse@, final(self).rev@),
            final(self).rev@ == old(self).rev@.remove(blob_name@),
            final(self).entries == old(self).entries,
            final(self).fwd == old(self).fwd,
    {
        match find_key(&self.reverse, blob_name) {
            Some(i) => {
                proof {
                    lemma_models_remove(self.reverse@, self.rev@, i as int);
                }
                self.reverse.remove(i);
                self.rev = Ghost(self.rev@.remove(blob_name@));
            },
            None => {
                proof {
                    lemma_models_absent(self.reverse@, self.rev@, blob_name@);
                    assert(self.rev@.remove(blob_name@) =~= self.rev@);
                }
            },
        }
    }

    fn insert_reverse(&mut self, blob_name: String, path: String)
        requires
            models(old(self).reverse@, old(self).rev@),
        ensures
            models(final(self).reverse@, final(self).rev@),
            final(self).rev@ == old(self).rev@.insert(blob_name@, path),
            final(self).entries == old(self).entries,
            final(self).fwd == old(self).fwd,
    {
        match find_key(&self.reverse, &blob_name) {
            Some(i) => {
                proof {
                    lemma_models_set(self.reverse@, self.rev@, i as int, blob_name, path);
                }
                self.reverse.set(i, (blob_name, path));
            },
            None => {
                proof {
                    lemma_models_absent(self.reverse@, self.rev@, blob_name@);
                    lemma_models_push(self.reverse@, self.rev@, blob_name, path);
                }
                self.reverse.push((blob_name, path));
            },
        }
        self.rev = Ghost(self.rev@.insert(blob_name@, path));
    }

    /// Records that `blob_name` was uploaded for `path`. A different blob
    /// name that the path had before leaves the reverse index first.
    pub fn update(&mut self, path: String, mtime: u64, blob_name: String, content_seq: u64)
        requires
            old(self).wf(),
        ensures
            final(self).wf(),
            final(self).forward() == old(self).forward().insert(
                path@,
                FileEntry { mtime, blob_name, content_seq },
            ),
            final(self).backward() == (if old(self).forward().contains_key(path@)
                && old(self).forward()[path@].blob_name@ != blob_name@ {
                old(self).backward().remove(old(self).forward()[path@].blob_name@)
            } else {
                old(self).backward()
            }).insert(blob_name@, path),
            old(self).consistent() && old(self).blob_free_for(path@, blob_name@)
                ==> final(self).consistent(),
    {
        let ghost old_self = *self;
        let entry = FileEntry { mtime, blob_name: blob_name.clone(), content_seq };
        match find_key(&self.entries, &path) {
            Some(i) => {
                if self.entries[i].1.blob_name != blob_name {
                    let old_name = self.entries[i].1.blob_name.clone();
                    self.remove_reverse(&old_name);
                }
                proof {
                    lemma_models_set(self.entries@, self.fwd@, i as int, path, entry);
                }
                self.entries.set(i, (path.clone(), entry));
            },
            None => {
                proof {
                    lemma_models_absent(self.entries@, self.fwd@, path@);
                    lemma_models_push(self.entries@, self.fwd@, path, entry);
                }
                self.entries.push((path.clone(), entry));
            },
        }
        self.fwd = Ghost(self.fwd@.insert(path@, entry));
        let ghost mid_rev = self.rev@;
        self.insert_reverse(blob_name, path);
        proof {
            assert forall|b: Seq<char>| #[trigger] self.rev@.contains_key(b) implies self.fwd@.contains_key(
                self.rev@[b]@,
            ) && self.fwd@[self.rev@[b]@].blob_name@ == b by {
                if b != blob_name@ {
                    assert(mid_rev.contains_key(b));
                    assert(old_self.rev@.contains_key(b));
                }
            }
            if old_self.consistent() && old_self.blob_free_for(path@, blob_name@) {
                assert forall|p: Seq<char>| #[trigger] self.fwd@.contains_key(p) implies self.rev@.contains_key(
                    self.fwd@[p].blob_name@,
                ) && self.rev@[self.fwd@[p].blob_name@]@ == p by {
                    if p != path@ {
                        assert(old_self.forward().contains_key(p));
                        assert(old_self.forward()[p].blob_name@ != blob_name@);
                        let b = old_self.forward()[p].blob_name@;
                        assert(old_self.backward().contains_key(b));
                        if old_self.forward().contains_key(path@) && old_self.forward()[path@].blob_name@ != blob_name@ {
                            assert(old_self.backward()[old_self.forward()[path@].blob_name@]@ == path@);
                        }
                    }
                }
            }
        }
    }

    /// Drops the entry for `path` and its blob name from the reverse index.
    pub fn remove(&mut self, path: &str)
        requires
            old(self).wf(),
        ensures
            final(self).wf(),
            final(self).forward() == old(self).forward().remove(path@),
            final(self).backward() == (if old(self).forward().contains_key(path@) {
                old(self).backward().remove(old(self).forward()[path@].blob_name@)
            } else {
                old(self).backward()
            }),
            old(self).consistent() ==> final(self).consistent(),
    {
        let ghost old_self = *self;
        let key = String::from_str(path);
        match find_key(&self.entries, &key) {
            Some(i) => {
                let name = self.entries[i].1.blob_name.clone();
                proof {
                    lemma_models_remove(self.entries@, self.fwd@, i as int);
                }
                self.entries.remove(i);
                self.fwd = Ghost(self.fwd@.remove(path@));
                self.remove_reverse(&name);
                proof {
                    assert forall|b: Seq<char>| #[trigger] self.rev@.contains_key(b) implies self.fwd@.contains_key(
                        self.rev@[b]@,
                    ) && self.fwd@[self.rev@[b]@].blob_name@ == b by {
                        assert(old_self.rev@.contains_key(b));
                    }
                    if old_self.consistent() {
                        assert forall|p: Seq<char>| #[trigger] self.fwd@.contains_key(p) implies self.rev@.contains_key(
                            self.fwd@[p].blob_name@,
                        ) && self.rev@[self.fwd@[p].blob_name@]@ == p by {
                            assert(old_self.forward().contains_key(p));
                            assert(old_self.backward()[old_self.forward()[p].blob_name@]@ == p);
                            assert(old_self.backward()[name@]@ == path@);
                        }
                    }
                }
            },
            None => {
                proof {
                    lemma_models_absent(self.entries@, self.fwd@, path@);
                    assert(self.fwd@.remove(path@) =~= self.fwd@);
                }
            },
        }
    }

    /// Keeps the entries whose blob name is in `valid_blobs` and drops the
    /// others, with their reverse-index pairs; returns the dropped entries'
    /// blob names.
#[verifier::spinoff_prover]
    pub fn retain_blobs(&mut self, valid_blobs: &[String]) -> (r: Vec<String>)
        requires
            old(self).wf(),
        ensures
            final(self).wf(),
            forall|p: Seq<char>| #[trigger]
                final(self).forward().contains_key(p) <==> old(self).forward().contains_key(p)
                    && in_names(valid_blobs@, old(self).forward()[p].blob_name@),
            forall|p: Seq<char>| #[trigger]
                final(self).forward().contains_key(p) ==> final(self).forward()[p] == old(
                    self,
                ).forward()[p],
            forall|b: Seq<char>| #[trigger]
                final(self).backward().contains_key(b) <==> old(self).backward().contains_key(b)
                    && in_names(valid_blobs@, b),
            forall|b: Seq<char>| #[trigger]
                final(self).backward().contains_key(b) ==> final(self).backward()[b] == old(
                    self,
                ).backward()[b],
            forall|i: int|
                0 <= i < r@.len() ==> !in_names(valid_blobs@, #[trigger] r@[i]@)
                    && old(self).holds_blob_name(r@[i]@),
            forall|p: Seq<char>| #[trigger]
                old(self).forward().contains_key(p) && !in_names(
                    valid_blobs@,
                    old(self).forward()[p].blob_name@,
                ) ==> in_names(r@, old(self).forward()[p].blob_name@),
            old(self).consistent() ==> final(self).consistent(),
    {
        let ghost old_self = *self;
        let mut kept: Vec<(String, FileEntry)> = Vec::new();
        let ghost mut kept_map: Map<Seq<char>, FileEntry> = Map::empty();
        let mut deleted: Vec<String> = Vec::new();
        let mut i: usize = 0;
        while i < self.entries.len()
            invariant
                *self == old_self,
                old_self.wf(),
                i <= self.entries@.len(),
                models(kept@, kept_map),
                forall|p: Seq<char>| #[trigger]
                    kept_map.contains_key(p) ==> self.fwd@.contains_key(p) && kept_map[p]
                        == self.fwd@[p] && in_names(valid_blobs@, self.fwd@[p].blob_name@),
                forall|j: int|
                    0 <= j < i && in_names(valid_blobs@, self.entries@[j].1.blob_name@)
                        ==> kept_map.contains_key(#[trigger] self.entries@[j].0@),
                forall|j: int|
                    i <= j < self.entries@.len() ==> !kept_map.contains_key(
                        #[trigger] self.entries@[j].0@,
                    ),
                forall|k: int|
                    0 <= k < deleted@.len() ==> !in_names(valid_blobs@, #[trigger] deleted@[k]@)
                        && old_self.holds_blob_name(deleted@[k]@),
                forall|j: int|
                    0 <= j < i && !in_names(valid_blobs@, self.entries@[j].1.blob_name@)
                        ==> in_names(deleted@, #[trigger] self.entries@[j].1.blob_name@),
            decreases self.entries@.len() - i,
        {
            let name = &self.entries[i].1.blob_name;
            proof {
                assert(self.fwd@.contains_key(self.entries@[i as int].0@));
            }
            if contains_name(valid_blobs, name) {
                let path = self.entries[i].0.clone();
                let entry = self.entries[i].1.copied();
                proof {
                    assert(!kept_map.contains_key(path@));
                    lemma_models_push(kept@, kept_map, path, entry);
                }
                kept.push((path, entry));
                proof {
                    kept_map = kept_map.insert(path@, entry);
                    assert forall|j: int| i < j < self.entries@.len() implies !kept_map.contains_key(
                        #[trigger] self.entries@[j].0@,
                    ) by {
                        assert(self.entries@[i as int].0@ != self.entries@[j].0@);
                    }
                }
            } else {
                let ghost pi = self.entries@[i as int].0@;
                let ghost before = deleted@;
                deleted.push(name.clone());
                proof {
                    assert(old_self.forward().contains_key(pi));
                    assert(deleted@[deleted@.len() - 1]@ == name@);
                    assert forall|j: int|
                        0 <= j <= i && !in_names(valid_blobs@, self.entries@[j].1.blob_name@)
                        implies in_names(deleted@, #[trigger] self.entries@[j].1.blob_name@) by {
                        if j < i {
                            assert(in_names(before, self.entries@[j].1.blob_name@));
                            let k = choose|k: int| 0 <= k < before.len() && before[k]@
                                == self.entries@[j].1.blob_name@;
                            assert(deleted@[k] == before[k]);
                        } else {
                            assert(deleted@[deleted@.len() - 1]@ == self.entries@[j].1.blob_name@);
                        }
                    }
                }
            }
            i = i + 1;
        }
        let mut kept_rev: Vec<(String, String)> = Vec::new();
        let ghost mut kept_rev_map: Map<Seq<char>, String> = Map::empty();
        let mut j: usize = 0;
        while j < self.reverse.len()
            invariant
                *self == old_self,
                old_self.wf(),
                j <= self.reverse@.len(),
                models(kept_rev@, kept_rev_map),
                forall|b: Seq<char>| #[trigger]
                    kept_rev_map.contains_key(b) ==> self.rev@.contains_key(b) && kept_rev_map[b]
                        == self.rev@[b] && in_names(valid_blobs@, b),
                forall|k: int|
                    0 <= k < j && in_names(valid_blobs@, self.reverse@[k].0@)
                        ==> kept_rev_map.contains_key(#[trigger] self.reverse@[k].0@),
                forall|k: int|
                    j <= k < self.reverse@.len() ==> !kept_rev_map.contains_key(
                        #[trigger] self.reverse@[k].0@,
                    ),
            decreases self.reverse@.len() - j,
        {
            proof {
                assert(self.rev@.contains_key(self.reverse@[j as int].0@));
            }
            if contains_name(valid_blobs, &self.reverse[j].0) {
                let b = self.reverse[j].0.clone();
                let p = self.reverse[j].1.clone();
                proof {
                    lemma_models_push(kept_rev@, kept_rev_map, b, p);
                }
                kept_rev.push((b, p));
                proof {
                    kept_rev_map = kept_rev_map.insert(b@, p);
                    assert forall|k: int| j < k < self.reverse@.len() implies !kept_rev_map.contains_key(
                        #[trigger] self.reverse@[k].0@,
                    ) by {
                        assert(self.reverse@[j as int].0@ != self.reverse@[k].0@);
                    }
                }
            }
            j = j + 1;
        }
        self.entries = kept;
        self.fwd = Ghost(kept_map);
        self.reverse = kept_rev;
        self.rev = Ghost(kept_rev_map);
        proof {
            assert forall|p: Seq<char>| #[trigger] old_self.fwd@.contains_key(p) && in_names(
                valid_blobs@,
                old_self.fwd@[p].blob_name@,
            ) implies kept_map.contains_key(p) by {
                let k = choose|k: int| 0 <= k < old_self.entries@.len() && old_self.entries@[k].0@ == p;
                assert(old_self.entries@[k].0@ == p);
            }
            assert forall|b: Seq<char>| #[trigger] old_self.rev@.contains_key(b) && in_names(
                valid_blobs@,
                b,
            ) implies kept_rev_map.contains_key(b) by {
                let k = choose|k: int| 0 <= k < old_self.reverse@.len() && old_self.reverse@[k].0@ == b;
                assert(old_self.reverse@[k].0@ == b);
            }
            assert forall|b: Seq<char>| #[trigger] kept_rev_map.contains_key(b) implies kept_map.contains_key(
                kept_rev_map[b]@,
            ) && kept_map[kept_rev_map[b]@].blob_name@ == b by {
                assert(old_self.rev@.contains_key(b));
            }
            assert forall|p: Seq<char>| #[trigger] old_self.forward().contains_key(p) && !in_names(
                valid_blobs@,
                old_self.forward()[p].blob_name@,
            ) implies in_names(deleted@, old_self.forward()[p].blob_name@) by {
                let k = choose|k: int| 0 <= k < old_self.entries@.len() && old_self.entries@[k].0@ == p;
                assert(old_self.entries@[k].0@ == p);
            }
            if old_self.consistent() {
                assert forall|p: Seq<char>| #[trigger] kept_map.contains_key(p) implies kept_rev_map.contains_key(
                    kept_map[p].blob_name@,
                ) && kept_rev_map[kept_map[p].blob_name@]@ == p by {
                    assert(old_self.forward().contains_key(p));
                }
            }
        }
        deleted
    }

    /// The distinct blob names of all entries.
    pub fn get_uploaded_blob_names(&self) -> (r: Vec<String>)
        requires
            self.wf(),
        ensures
            forall|i: int| 0 <= i < r@.len() ==> self.holds_blob_name(#[trigger] r@[i]@),
            forall|p: Seq<char>| #[trigger]
                self.forward().contains_key(p) ==> in_names(r@, self.forward()[p].blob_name@),
            forall|i: int, j: int| 0 <= i < j < r@.len() ==> (#[trigger] r@[i])@ != (#[trigger] r@[j])@,
    {
        let mut out: Vec<String> = Vec::new();
        let mut i: usize = 0;
        while i < self.entries.len()
            invariant
                self.wf(),
                i <= self.entries@.len(),
                forall|k: int| 0 <= k < out@.len() ==> self.holds_blob_name(#[trigger] out@[k]@),
                forall|j: int| 0 <= j < i ==> in_names(out@, #[trigger] self.entries@[j].1.blob_name@),
                forall|a: int, b: int| 0 <= a < b < out@.len() ==> (#[trigger] out@[a])@ != (#[trigger] out@[b])@,
            decreases self.entries@.len() - i,
        {
            let name = &self.entries[i].1.blob_name;
            proof {
                let p = self.entries@[i as int].0@;
                assert(self.fwd@.contains_key(p));
                assert(self.forward()[p].blob_name@ == name@);
            }
            if !contains_name(out.as_slice(), name) {
                let ghost before = out@;
                out.push(name.clone());
                proof {
                    assert forall|j: int| 0 <= j < i implies in_names(out@, #[trigger] self.entries@[j].1.blob_name@) by {
                        let k = choose|k: int| 0 <= k < before.len() && before[k]@ == self.entries@[j].1.blob_name@;
                        assert(out@[k] == before[k]);
                    }
                    assert(out@[out@.len() - 1]@ == name@);
                }
            }
            i = i + 1;
        }
        proof {
            assert forall|p: Seq<char>| #[trigger] self.forward().contains_key(p) implies in_names(
                out@,
                self.forward()[p].blob_name@,
            ) by {
                let k = choose|k: int| 0 <= k < self.entries@.len() && self.entries@[k].0@ == p;
                assert(self.entries@[k].0@ == p);
            }
        }
        out
    }

    /// One past the largest content sequence number of the entries (never
    /// past `u64::MAX`), or `FIRST_CONTENT_SEQ` for an empty cache.
    pub fn next_content_seq(&self) -> (r: u64)
        requires
            self.wf(),
        ensures
            self.forward().dom().len() == 0 ==> r == FIRST_CONTENT_SEQ,
            self.forward().dom().len() > 0 ==> exists|p: Seq<char>| #[trigger]
                self.forward().contains_key(p) && r == saturating_next(
                    self.forward()[p].content_seq,
                ),
            forall|p: Seq<char>| #[trigger]
                self.forward().contains_key(p) ==> self.forward()[p].content_seq < r || r
                    == u64::MAX,
    {
        proof {
            self.lemma_len();
        }
        if self.entries.len() == 0 {
            proof {
                assert forall|p: Seq<char>| #[trigger] self.forward().contains_key(p) implies false by {
                    let j = choose|j: int| 0 <= j < self.entries@.len() && self.entries@[j].0@ == p;
                }
            }
            return FIRST_CONTENT_SEQ;
        }
        let mut best: u64 = self.entries[0].1.content_seq;
        let mut i: usize = 1;
        while i < self.entries.len()
            invariant
                self.wf(),
                1 <= i <= self.entries@.len(),
                exists|k: int| 0 <= k < i && self.entries@[k].1.content_seq == best,
                forall|k: int| 0 <= k < i ==> (#[trigger] self.entries@[k]).1.content_seq <= best,
            decreases self.entries@.len() - i,
        {
            if self.entries[i].1.content_seq > best {
                best = self.entries[i].1.content_seq;
            }
            i = i + 1;
        }
        proof {
            let k = choose|k: int| 0 <= k < self.entries@.len() && self.entries@[k].1.content_seq == best;
            let p = self.entries@[k].0@;
            assert(self.forward().contains_key(p) && self.forward()[p] == self.entries@[k].1);
            assert forall|q: Seq<char>| #[trigger] self.forward().contains_key(q) implies self.forward()[q].content_seq <= best by {
                let j = choose|j: int| 0 <= j < self.entries@.len() && self.entries@[j].0@ == q;
                assert(self.entries@[j].0@ == q);
            }
        }
        if best == u64::MAX {
            best
        } else {
            best + 1
        }
    }

    /// The entries, path first, each path once.
    pub fn records(&self) -> (r: Vec<(String, FileEntry)>)
        requires
            self.wf(),
        ensures
            models(r@, self.forward()),
    {
        let mut out: Vec<(String, FileEntry)> = Vec::new();
        let mut i: usize = 0;
        while i < self.entries.len()
            invariant
                self.wf(),
                i <= self.entries@.len(),
                out@ == self.entries@.take(i as int),
            decreases self.entries@.len() - i,
        {
            out.push((self.entries[i].0.clone(), self.entries[i].1.copied()));
            proof {
                assert(self.entries@.take(i + 1) =~= self.entries@.take(i as int).push(self.entries@[i as int]));
            }
            i = i + 1;
        }
        assert(self.entries@.take(self.entries@.len() as int) =~= self.entries@);
        out
    }

    /// The reverse index, blob name first, each blob name once.
    pub fn reverse_records(&self) -> (r: Vec<(String, String)>)
        requires
            self.wf(),
        ensures
            models(r@, self.backward()),
    {
        let mut out: Vec<(String, String)> = Vec::new();
        let mut i: usize = 0;
        while i < self.reverse.len()
            invariant
                self.wf(),
                i <= self.reverse@.len(),
                out@ == self.reverse@.take(i as int),
            decreases self.reverse@.len() - i,
        {
            out.push((self.reverse[i].0.clone(), self.reverse[i].1.clone()));
            proof {
                assert(self.reverse@.take(i + 1) =~= self.reverse@.take(i as int).push(self.reverse@[i as int]));
            }
            i = i + 1;
        }
        assert(self.reverse@.take(self.reverse@.len() as int) =~= self.reverse@);
        out
    }

    /// A cache holding the given entries, a later entry for a path replacing
    /// an earlier one, with its reverse index built from them.
    pub fn from_records(records: Vec<(String, FileEntry)>) -> (r: BlobsCache)
        ensures
            r.wf(),
            forall|i: int|
                0 <= i < records@.len() && last_for_key(records@, i) ==> r.forward().contains_key(
                    (#[trigger] records@[i]).0@,
                ) && r.forward()[records@[i].0@] == records@[i].1,
            forall|p: Seq<char>| #[trigger]
                r.forward().contains_key(p) ==> exists|i: int|
                    0 <= i < records@.len() && records@[i].0@ == p,
    {
        let mut cache = BlobsCache::new();
        let mut i: usize = 0;
        while i < records.len()
            invariant
                cache.wf(),
                i <= records@.len(),
                forall|k: int|
                    0 <= k < i && last_before(records@, k, i as int) ==> cache.forward().contains_key(
                        (#[trigger] records@[k]).0@,
                    ) && cache.forward()[records@[k].0@] == records@[k].1,
                forall|p: Seq<char>| #[trigger]
                    cache.forward().contains_key(p) ==> exists|k: int|
                        0 <= k < i && records@[k].0@ == p,
            decreases records@.len() - i,
        {
            let ghost prev = cache.forward();
            cache.update(
                records[i].0.clone(),
                records[i].1.mtime,
                records[i].1.blob_name.clone(),
                records[i].1.content_seq,
            );
            proof {
                assert forall|k: int| 0 <= k < i + 1 && last_before(records@, k, i + 1) implies cache.forward().contains_key(
                    (#[trigger] records@[k]).0@,
                ) && cache.forward()[records@[k].0@] == records@[k].1 by {
                    if k < i {
                        assert(records@[k].0@ != records@[i as int].0@);
                        assert(last_before(records@, k, i as int));
                    }
                }
                assert forall|p: Seq<char>| #[trigger] cache.forward().contains_key(p) implies exists|k: int|
                    0 <= k < i + 1 && records@[k].0@ == p by {
                    if p != records@[i as int].0@ {
                        assert(prev.contains_key(p));
                    }
                }
            }
            i = i + 1;
        }
        cache
    }
}

} // verus!
