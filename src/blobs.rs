//! From a file's content to its blobs, and from a blob path back to its file.

use vstd::prelude::*;
use vstd::string::*;
use crate::cache::FileBlob;
use crate::chunk::{is_chunking_of, lemma_chunking_unique, split_content_into_chunks, views_of};
use crate::digest::{blob_name_of, compute_blob_name};
use crate::text::{chars_of, decimal, decimal_string, digit_char, string_of};

verus! {

pub open spec fn chunk_marker() -> Seq<char> {
    seq!['#', 'c', 'h', 'u', 'n', 'k']
}

/// The path of chunk `i` (counting from 1) of `n`: `<path>#chunk<i>of<n>`.
pub open spec fn chunk_path_of(path: Seq<char>, i: nat, n: nat) -> Seq<char> {
    path + chunk_marker() + decimal(i) + seq!['o', 'f'] + decimal(n)
}

/// Whether the chunk marker starts at `i` in `p`.
pub open spec fn marker_at(p: Seq<char>, i: int) -> bool {
    0 <= i && i + 6 <= p.len() && p.subrange(i, i + 6) == chunk_marker()
}

/// First position at or after `i` where the marker starts, if any.
pub open spec fn first_marker_from(p: Seq<char>, i: int) -> Option<int>
    decreases p.len() - i,
{
    if i < 0 || i + 6 > p.len() {
        None
    } else if marker_at(p, i) {
        Some(i)
    } else {
        first_marker_from(p, i + 1)
    }
}

/// The file path a cached blob path belongs to: everything before the first
/// `#chunk`, or the whole path.
pub open spec fn base_path(p: Seq<char>) -> Seq<char> {
    match first_marker_from(p, 0) {
        Some(i) => p.take(i),
        None => p,
    }
}

/// The blobs of one file: one blob with the file's own path when the
/// content makes one chunk, else one blob per chunk with a chunk path.
pub open spec fn blob_paths_ok(path: Seq<char>, blobs: Seq<FileBlob>) -> bool {
    forall|i: int|
        0 <= i < blobs.len() ==> (#[trigger] blobs[i]).path@ == if blobs.len() == 1 {
            path
        } else {
            chunk_path_of(path, (i + 1) as nat, blobs.len())
        }
}

/// `blobs` are the blobs of the file at `path` with `content`, scanned with
/// `mtime`: the chunks of the content in order, each with its path, its
/// blob name over that path and its bytes, and the mtime.
#[verifier::opaque]
pub open spec fn blobs_of_file(path: Seq<char>, content: Seq<u8>, mtime: u64, blobs: Seq<FileBlob>) -> bool {
    &&& is_chunking_of(content, contents_of(blobs))
    &&& blob_paths_ok(path, blobs)
    &&& forall|i: int|
        0 <= i < blobs.len() ==> (#[trigger] blobs[i]).blob_name@ == blob_name_of(
            blobs[i].path@,
            blobs[i].content@,
        ) && blobs[i].mtime == mtime
}

proof fn lemma_no_marker_from(p: Seq<char>, j: int, i: int)
    requires
        0 <= j <= i,
        first_marker_from(p, j) is None,
    ensures
        !marker_at(p, i),
    decreases i - j,
{
    if j < i && j + 6 <= p.len() {
        lemma_no_marker_from(p, j + 1, i);
    }
}

proof fn lemma_first_marker_skip(q: Seq<char>, j: int, k: int)
    requires
        0 <= j <= k,
        forall|i: int| j <= i < k ==> !#[trigger] marker_at(q, i),
        k + 6 <= q.len(),
    ensures
        first_marker_from(q, j) == first_marker_from(q, k),
    decreases k - j,
{
    if j < k {
        lemma_first_marker_skip(q, j + 1, k);
    }
}

/// The file path of a chunk path is the file's own path, when that path holds
/// no chunk marker.
pub proof fn lemma_base_of_chunk_path(p: Seq<char>, a: nat, n: nat)
    requires
        first_marker_from(p, 0) is None,
    ensures
        base_path(chunk_path_of(p, a, n)) == p,
        base_path(p) == p,
{
    let q = chunk_path_of(p, a, n);
    let m = chunk_marker();
    assert(q.subrange(p.len() as int, p.len() + 6int) =~= m);
    assert forall|i: int| 0 <= i < p.len() implies !#[trigger] marker_at(q, i) by {
        if i + 6 <= p.len() {
            lemma_no_marker_from(p, 0, i);
            assert(q.subrange(i, i + 6) =~= p.subrange(i, i + 6));
        } else if i + 6 <= q.len() {
            let t = p.len() - i;
            assert(q.subrange(i, i + 6)[t] == '#');
            assert(m[t] != '#');
        }
    }
    lemma_first_marker_skip(q, 0, p.len() as int);
    assert(marker_at(q, p.len() as int));
    assert(q.take(p.len() as int) =~= p);
}

proof fn lemma_decimal_nonempty(n: nat)
    ensures
        decimal(n).len() >= 1,
    decreases n,
{
    if n >= 10 {
        lemma_decimal_nonempty(n / 10);
    }
}

proof fn lemma_digit_injective(x: nat, y: nat)
    requires
        x < 10,
        y < 10,
        digit_char(x) == digit_char(y),
    ensures
        x == y,
{
}

/// Distinct numbers are written differently.
pub proof fn lemma_decimal_injective(x: nat, y: nat)
    requires
        decimal(x) == decimal(y),
    ensures
        x == y,
    decreases x + y,
{
    lemma_decimal_nonempty(x / 10);
    lemma_decimal_nonempty(y / 10);
    if x < 10 && y < 10 {
        assert(decimal(x)[0] == digit_char(x));
        assert(decimal(y)[0] == digit_char(y));
        lemma_digit_injective(x, y);
    } else if x >= 10 && y >= 10 {
        let dx = decimal(x / 10);
        let dy = decimal(y / 10);
        assert(decimal(x).last() == digit_char(x % 10));
        assert(decimal(y).last() == digit_char(y % 10));
        lemma_digit_injective(x % 10, y % 10);
        assert(dx =~= decimal(x).drop_last());
        assert(dy =~= decimal(y).drop_last());
        lemma_decimal_injective(x / 10, y / 10);
    } else {
        assert(decimal(x).len() != decimal(y).len());
    }
}

/// Two chunks of one file have different paths.
pub proof fn lemma_chunk_paths_distinct(p: Seq<char>, a: nat, b: nat, n: nat)
    requires
        chunk_path_of(p, a, n) == chunk_path_of(p, b, n),
    ensures
        a == b,
{
    let head = p + chunk_marker();
    let tail = seq!['o', 'f'] + decimal(n);
    let qa = chunk_path_of(p, a, n);
    let qb = chunk_path_of(p, b, n);
    assert(qa =~= head + decimal(a) + tail);
    assert(qb =~= head + decimal(b) + tail);
    assert(decimal(a).len() == decimal(b).len());
    assert(decimal(a) =~= qa.subrange(head.len() as int, (head.len() + decimal(a).len()) as int));
    assert(decimal(b) =~= qb.subrange(head.len() as int, (head.len() + decimal(b).len()) as int));
    lemma_decimal_injective(a, b);
}

/// The blobs of one file: at least one, each named under the file's path,
/// no two with the same path.
pub proof fn lemma_file_blob_paths(path: Seq<char>, content: Seq<u8>, mtime: u64, blobs: Seq<FileBlob>)
    requires
        blobs_of_file(path, content, mtime, blobs),
        first_marker_from(path, 0) is None,
    ensures
        blobs.len() >= 1,
        forall|i: int| 0 <= i < blobs.len() ==> base_path((#[trigger] blobs[i]).path@) == path,
        forall|i: int, j: int|
            0 <= i < blobs.len() && 0 <= j < blobs.len() && i != j ==> (#[trigger] blobs[i]).path@
                != (#[trigger] blobs[j]).path@,
{
    reveal(blobs_of_file);
    assert(contents_of(blobs).len() == blobs.len());
    assert forall|i: int| 0 <= i < blobs.len() implies base_path((#[trigger] blobs[i]).path@) == path by {
        lemma_base_of_chunk_path(path, (i + 1) as nat, blobs.len());
    }
    assert forall|i: int, j: int|
        0 <= i < blobs.len() && 0 <= j < blobs.len() && i != j implies (#[trigger] blobs[i]).path@
        != (#[trigger] blobs[j]).path@ by {
        if blobs[i].path@ == blobs[j].path@ {
            lemma_chunk_paths_distinct(path, (i + 1) as nat, (j + 1) as nat, blobs.len());
        }
    }
}

/// Reading a file again: for the same path and content, the blobs have the
/// same paths, contents and blob names whatever the mtime; only the mtime
/// they carry differs.
pub proof fn lemma_reread_same_names(
    path: Seq<char>,
    content: Seq<u8>,
    m1: u64,
    m2: u64,
    b1: Seq<FileBlob>,
    b2: Seq<FileBlob>,
)
    requires
        blobs_of_file(path, content, m1, b1),
        blobs_of_file(path, content, m2, b2),
    ensures
        b1.len() == b2.len(),
        forall|i: int|
            0 <= i < b1.len() ==> (#[trigger] b1[i]).path@ == b2[i].path@ && b1[i].content@
                == b2[i].content@ && b1[i].blob_name@ == b2[i].blob_name@,
{
    reveal(blobs_of_file);
    lemma_chunking_unique(content, contents_of(b1), contents_of(b2));
    assert(contents_of(b1).len() == b1.len());
    assert forall|i: int| 0 <= i < b1.len() implies (#[trigger] b1[i]).path@ == b2[i].path@
        && b1[i].content@ == b2[i].content@ && b1[i].blob_name@ == b2[i].blob_name@ by {
        assert(contents_of(b1)[i] == b1[i].content@);
        assert(contents_of(b2)[i] == b2[i].content@);
    }
}

pub open spec fn contents_of(blobs: Seq<FileBlob>) -> Seq<Seq<u8>> {
    blobs.map_values(|b: FileBlob| b.content@)
}

fn marker_char(k: usize) -> (c: char)
    requires
        k < 6,
    ensures
        c == chunk_marker()[k as int],
{
    if k == 0 { '#' } else if k == 1 { 'c' } else if k == 2 { 'h' } else if k == 3 { 'u' } else if k == 4 { 'n' } else { 'k' }
}

fn marker_at_exec(p: &Vec<char>, i: usize) -> (r: bool)
    requires
        i + 6 <= p@.len(),
    ensures
        r == marker_at(p@, i as int),
{
    let n = p.len();
    let mut k: usize = 0;
    while k < 6
        invariant
            k <= 6,
            n == p@.len(),
            i + 6 <= p@.len(),
            forall|j: int| 0 <= j < k ==> p@[i + j] == chunk_marker()[j],
        decreases 6 - k,
    {
        if p[i + k] != marker_char(k) {
            assert(p@.subrange(i as int, i + 6)[k as int] != chunk_marker()[k as int]);
            return false;
        }
        k = k + 1;
    }
    assert(p@.subrange(i as int, i + 6) =~= chunk_marker());
    true
}

/// The file path that a cached blob path belongs to.
pub fn base_path_for_cached_path(path: &str) -> (r: String)
    ensures
        r@ == base_path(path@),
{
    let cs = chars_of(path);
    let n = cs.len();
    let mut i: usize = 0;
    while n >= 6 && i <= n - 6
        invariant
            cs@ == path@,
            n == cs@.len(),
            first_marker_from(cs@, 0) == first_marker_from(cs@, i as int),
        decreases n - i,
    {
        if marker_at_exec(&cs, i) {
            let head = string_of(&cs.as_slice()[0..i]);
            return head;
        }
        i = i + 1;
    }
    String::from_str(path)
}

/// Path of chunk `i` of `n` of the file at `path`.
pub fn chunk_path(path: &str, i: u64, n: u64) -> (r: String)
    ensures
        r@ == chunk_path_of(path@, i as nat, n as nat),
{
    let mut r = String::from_str(path);
    let marker = string_of(&[ '#', 'c', 'h', 'u', 'n', 'k' ]);
    r.append(marker.as_str());
    let a = decimal_string(i);
    r.append(a.as_str());
    let of = string_of(&['o', 'f']);
    r.append(of.as_str());
    let b = decimal_string(n);
    r.append(b.as_str());
    proof {
        assert(r@ =~= chunk_path_of(path@, i as nat, n as nat));
    }
    r
}

/// The blobs of a file read at scan time: its content split into chunks,
/// each named by its own path and bytes, all carrying the scan-time mtime.
pub fn file_blobs(relative_path: &str, content: &[u8], mtime: u64) -> (r: Vec<FileBlob>)
    ensures
        blobs_of_file(relative_path@, content@, mtime, r@),
{
    let chunks = split_content_into_chunks(content);
    let n = chunks.len();
    let mut out: Vec<FileBlob> = Vec::new();
    let mut i: usize = 0;
    while i < n
        invariant
            n == chunks@.len(),
            i <= n,
            out@.len() == i,
            forall|k: int| 0 <= k < i ==> (#[trigger] out@[k]).content@ == chunks@[k]@,
            forall|k: int|
                0 <= k < i ==> (#[trigger] out@[k]).path@ == if n == 1 {
                    relative_path@
                } else {
                    chunk_path_of(relative_path@, (k + 1) as nat, n as nat)
                },
            forall|k: int|
                0 <= k < i ==> (#[trigger] out@[k]).blob_name@ == blob_name_of(
                    out@[k].path@,
                    out@[k].content@,
                ) && out@[k].mtime == mtime,
        decreases n - i,
    {
        let path = if n == 1 {
            String::from_str(relative_path)
        } else {
            chunk_path(relative_path, (i + 1) as u64, n as u64)
        };
        let body = chunks[i].clone();
        let blob_name = compute_blob_name(path.as_str(), body.as_slice());
        out.push(FileBlob { path, content: body, blob_name, mtime });
        i = i + 1;
    }
    assert(contents_of(out@) =~= views_of(chunks@));
    proof {
        reveal(blobs_of_file);
    }
    out
}

} // verus!
