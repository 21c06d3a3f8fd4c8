//! Line-preserving chunking of file content.

use vstd::prelude::*;
use vstd::slice::slice_to_vec;

verus! {

/// Largest chunk, in bytes.
pub const MAX_BLOB_SIZE: usize = 128 * 1024;

/// Largest chunk, in lines.
pub const MAX_LINES_PER_BLOB: usize = 800;

/// Files above this size are not read at all.
pub const MAX_READABLE_FILE_SIZE: u64 = 1024 * 1024;

pub open spec fn is_newline(b: u8) -> bool {
    b == 10
}

/// Number of newline bytes in `s`.
pub open spec fn newline_count(s: Seq<u8>) -> nat
    decreases s.len(),
{
    if s.len() == 0 {
        0
    } else {
        newline_count(s.drop_last()) + if is_newline(s.last()) { 1nat } else { 0nat }
    }
}

/// Number of lines in `s`: a last line without a newline counts too.
pub open spec fn line_count(s: Seq<u8>) -> nat {
    newline_count(s) + if s.len() > 0 && !is_newline(s.last()) { 1nat } else { 0nat }
}

/// End (exclusive) of the line that starts at `i`: just past its newline, or
/// the end of `s`.
pub open spec fn line_end(s: Seq<u8>, i: int) -> int
    decreases s.len() - i,
{
    if i < 0 || i >= s.len() {
        s.len() as int
    } else if is_newline(s[i]) {
        i + 1
    } else {
        line_end(s, i + 1)
    }
}

/// Whether `i` is where a line of `s` starts.
pub open spec fn is_line_start(s: Seq<u8>, i: int) -> bool {
    0 <= i < s.len() && (i == 0 || is_newline(s[i - 1]))
}

/// Every line of `s` fits in one chunk.
pub open spec fn lines_fit(s: Seq<u8>) -> bool {
    forall|i: int| #[trigger] is_line_start(s, i) ==> line_end(s, i) - i <= MAX_BLOB_SIZE
}

/// Where chunk `k` starts: the sum of the lengths of the chunks before it.
pub open spec fn chunk_start(chunks: Seq<Seq<u8>>, k: int) -> int
    decreases k,
{
    if k <= 0 || k > chunks.len() {
        0
    } else {
        chunk_start(chunks, k - 1) + chunks[k - 1].len()
    }
}

/// Chunk `k` is a non-empty run of whole lines of `s` within both bounds
/// (a single overlong line stands alone).
pub open spec fn chunk_within(s: Seq<u8>, chunks: Seq<Seq<u8>>, k: int) -> bool {
    let st = chunk_start(chunks, k);
    let c = chunks[k];
    &&& c.len() > 0
    &&& 0 <= st
    &&& st + c.len() <= s.len()
    &&& c == s.subrange(st, st + c.len())
    &&& line_count(c) <= MAX_LINES_PER_BLOB
    &&& (c.len() <= MAX_BLOB_SIZE || line_count(c) == 1)
}

/// Chunk `k` ends with a newline, and the line after it would break a bound.
pub open spec fn chunk_sealed(s: Seq<u8>, chunks: Seq<Seq<u8>>, k: int) -> bool {
    let c = chunks[k];
    let next = chunk_start(chunks, k) + c.len();
    &&& is_newline(c.last())
    &&& (line_count(c) == MAX_LINES_PER_BLOB || c.len() + (line_end(s, next) - next)
        > MAX_BLOB_SIZE)
}

/// Chunk `k` is within bounds and, unless it is the last, sealed.
pub open spec fn chunk_ok(s: Seq<u8>, chunks: Seq<Seq<u8>>, k: int) -> bool {
    &&& chunk_within(s, chunks, k)
    &&& (k + 1 < chunks.len() ==> chunk_sealed(s, chunks, k))
}

/// `chunks` is the greedy chunking of the non-empty content `s`: each chunk
/// takes lines while both bounds hold, and the chunks cover `s` in order.
pub open spec fn greedy_chunks(s: Seq<u8>, chunks: Seq<Seq<u8>>) -> bool {
    &&& chunks.len() > 0
    &&& chunk_start(chunks, chunks.len() as int) == s.len()
    &&& forall|k: int| 0 <= k < chunks.len() ==> #[trigger] chunk_ok(s, chunks, k)
}

/// What splitting `s` gives: one empty chunk for empty content, else the
/// greedy chunking.
pub open spec fn is_chunking_of(s: Seq<u8>, chunks: Seq<Seq<u8>>) -> bool {
    if s.len() == 0 {
        chunks =~= seq![Seq::<u8>::empty()]
    } else {
        greedy_chunks(s, chunks)
    }
}

pub open spec fn views_of(v: Seq<Vec<u8>>) -> Seq<Seq<u8>> {
    v.map_values(|c: Vec<u8>| c@)
}

proof fn lemma_newline_count_append(a: Seq<u8>, b: Seq<u8>)
    ensures
        newline_count(a + b) == newline_count(a) + newline_count(b),
    decreases b.len(),
{
    if b.len() > 0 {
        assert((a + b).drop_last() =~= a + b.drop_last());
        lemma_newline_count_append(a, b.drop_last());
    } else {
        assert(a + b =~= a);
    }
}

proof fn lemma_no_newline(s: Seq<u8>)
    requires
        forall|k: int| 0 <= k < s.len() ==> !is_newline(#[trigger] s[k]),
    ensures
        newline_count(s) == 0,
    decreases s.len(),
{
    if s.len() > 0 {
        lemma_no_newline(s.drop_last());
    }
}

proof fn lemma_line_end(s: Seq<u8>, i: int)
    requires
        0 <= i < s.len(),
    ensures
        i < line_end(s, i) <= s.len(),
        forall|k: int| i <= k < line_end(s, i) - 1 ==> !is_newline(#[trigger] s[k]),
        line_end(s, i) == s.len() || is_newline(s[line_end(s, i) - 1]),
    decreases s.len() - i,
{
    if is_newline(s[i]) {
    } else if i + 1 < s.len() {
        lemma_line_end(s, i + 1);
    } else {
        assert(line_end(s, i + 1) == s.len());
    }
}

/// Lines in a run of whole lines grow by one with each line appended.
proof fn lemma_line_count_step(s: Seq<u8>, a: int, i: int)
    requires
        0 <= a <= i < s.len(),
        i == a || is_newline(s[i - 1]),
    ensures
        line_count(s.subrange(a, line_end(s, i))) == line_count(s.subrange(a, i)) + 1,
{
    let e = line_end(s, i);
    lemma_line_end(s, i);
    let head = s.subrange(a, i);
    let l = s.subrange(i, e);
    assert(s.subrange(a, e) =~= head + l);
    lemma_newline_count_append(head, l);
    lemma_no_newline(l.drop_last());
    assert(l.drop_last() =~= s.subrange(i, e - 1));
}

proof fn lemma_chunk_start_push(chunks: Seq<Seq<u8>>, c: Seq<u8>, k: int)
    requires
        0 <= k <= chunks.len(),
    ensures
        chunk_start(chunks.push(c), k) == chunk_start(chunks, k),
    decreases k,
{
    if k > 0 {
        lemma_chunk_start_push(chunks, c, k - 1);
    }
}

proof fn lemma_chunk_push(s: Seq<u8>, chunks: Seq<Seq<u8>>, c: Seq<u8>, k: int)
    requires
        0 <= k < chunks.len(),
        chunk_within(s, chunks, k),
        chunk_sealed(s, chunks, k),
    ensures
        chunk_within(s, chunks.push(c), k),
        chunk_sealed(s, chunks.push(c), k),
{
    lemma_chunk_start_push(chunks, c, k);
    assert(chunks.push(c)[k] == chunks[k]);
}

proof fn lemma_one_line(s: Seq<u8>, st: int, len: int)
    requires
        is_line_start(s, st),
        len > 0,
        st + len <= s.len(),
        line_count(s.subrange(st, st + len)) == 1,
    ensures
        len <= line_end(s, st) - st,
{
    let e = line_end(s, st);
    lemma_line_end(s, st);
    if st + len > e {
        let c = s.subrange(st, st + len);
        let c1 = s.subrange(st, e);
        let c2 = s.subrange(e, st + len);
        assert(c =~= c1 + c2);
        lemma_newline_count_append(c1, c2);
        assert(c1.last() == s[e - 1]);
        assert(c.last() == c2.last());
    }
}

proof fn lemma_prefix_concat(s: Seq<u8>, chunks: Seq<Seq<u8>>, k: int)
    requires
        0 <= k <= chunks.len(),
        forall|j: int| 0 <= j < chunks.len() ==> #[trigger] chunk_within(s, chunks, j),
    ensures
        chunks.take(k).flatten() =~= s.subrange(0, chunk_start(chunks, k)),
    decreases k,
{
    if k == 0 {
        assert(chunks.take(0) =~= Seq::<Seq<u8>>::empty());
    } else {
        lemma_prefix_concat(s, chunks, k - 1);
        assert(chunks.take(k) =~= chunks.take(k - 1).push(chunks[k - 1]));
        chunks.take(k - 1).lemma_flatten_push(chunks[k - 1]);
        assert(chunk_within(s, chunks, k - 1));
        let a = chunk_start(chunks, k - 1);
        assert(chunk_start(chunks, k) == a + chunks[k - 1].len());
        assert(s.subrange(0, chunk_start(chunks, k)) =~= s.subrange(0, a) + chunks[k - 1]);
    }
}

/// Chunking bounds: when no line of the content is longer than
/// `MAX_BLOB_SIZE`, every chunk holds at most `MAX_LINES_PER_BLOB` lines and
/// `MAX_BLOB_SIZE` bytes, and the chunks put back together in order give the
/// content.
pub proof fn lemma_chunking_bounds(s: Seq<u8>, chunks: Seq<Seq<u8>>)
    requires
        is_chunking_of(s, chunks),
        lines_fit(s),
    ensures
        forall|k: int|
            0 <= k < chunks.len() ==> line_count(#[trigger] chunks[k]) <= MAX_LINES_PER_BLOB
                && chunks[k].len() <= MAX_BLOB_SIZE,
        chunks.flatten() == s,
{
    if s.len() == 0 {
        chunks.lemma_flatten_one_element();
    } else {
        assert forall|k: int| 0 <= k < chunks.len() implies line_count(#[trigger] chunks[k])
            <= MAX_LINES_PER_BLOB && chunks[k].len() <= MAX_BLOB_SIZE by {
            assert(chunk_ok(s, chunks, k));
            let st = chunk_start(chunks, k);
            if chunks[k].len() > MAX_BLOB_SIZE {
                if k > 0 {
                    assert(chunk_ok(s, chunks, k - 1));
                    assert(chunk_within(s, chunks, k - 1));
                    let p = chunks[k - 1];
                    assert(st == chunk_start(chunks, k - 1) + p.len());
                    assert(p.last() == s[st - 1]);
                }
                assert(is_line_start(s, st));
                lemma_one_line(s, st, chunks[k].len() as int);
            }
        }
        assert forall|j: int| 0 <= j < chunks.len() implies #[trigger] chunk_within(
            s,
            chunks,
            j,
        ) by {
            assert(chunk_ok(s, chunks, j));
        }
        lemma_prefix_concat(s, chunks, chunks.len() as int);
        assert(chunks.take(chunks.len() as int) =~= chunks);
    }
}

proof fn lemma_line_end_before(s: Seq<u8>, i: int, q: int)
    requires
        0 <= i < q <= s.len(),
        q == s.len() || is_newline(s[q - 1]),
    ensures
        line_end(s, i) <= q,
{
    lemma_line_end(s, i);
    if line_end(s, i) > q {
        assert(!is_newline(s[q - 1]));
    }
}

proof fn lemma_line_count_extend(x: Seq<u8>, y: Seq<u8>)
    requires
        x.len() > 0,
        is_newline(x.last()),
    ensures
        line_count(x + y) >= line_count(x),
{
    lemma_newline_count_append(x, y);
    if y.len() == 0 {
        assert(x + y =~= x);
    }
}

proof fn lemma_chunk_at_line_start(s: Seq<u8>, c: Seq<Seq<u8>>, k: int)
    requires
        greedy_chunks(s, c),
        0 <= k < c.len(),
    ensures
        chunk_start(c, k) == 0 || is_newline(s[chunk_start(c, k) - 1]),
        chunk_start(c, k) < s.len(),
{
    assert(chunk_ok(s, c, k));
    if k > 0 {
        assert(chunk_ok(s, c, k - 1));
        assert(chunk_start(c, k) == chunk_start(c, k - 1) + c[k - 1].len());
        assert(c[k - 1].last() == s[chunk_start(c, k) - 1]);
    }
}

/// Two greedy chunkings that start chunk `k` at the same place give chunk
/// `k` the same length.
proof fn lemma_same_chunk(s: Seq<u8>, a: Seq<Seq<u8>>, b: Seq<Seq<u8>>, k: int)
    requires
        greedy_chunks(s, a),
        greedy_chunks(s, b),
        0 <= k < a.len(),
        k < b.len(),
        chunk_start(a, k) == chunk_start(b, k),
    ensures
        a[k].len() <= b[k].len(),
{
    assert(chunk_ok(s, a, k));
    assert(chunk_ok(s, b, k));
    let st = chunk_start(a, k);
    let x = a[k];
    let y = b[k];
    if x.len() > y.len() {
        // y is shorter: it must be sealed, yet x holds its next line too
        let next = st + y.len();
        if k + 1 == b.len() {
            assert(chunk_start(b, k + 1) == st + y.len());
        } else {
            assert(chunk_sealed(s, b, k));
            let q = st + x.len();
            if k + 1 == a.len() {
                assert(chunk_start(a, k + 1) == st + x.len());
            } else {
                assert(chunk_sealed(s, a, k));
                assert(x.last() == s[q - 1]);
            }
            lemma_line_end_before(s, next, q);
            let e = line_end(s, next);
            lemma_line_count_step(s, st, next);
            assert(s.subrange(st, next) =~= y);
            lemma_line_end(s, next);
            assert(st < e <= q);
            let head = s.subrange(st, e);
            let rest = s.subrange(e, q);
            assert(x =~= head + rest);
            if e < s.len() {
                assert(head.last() == s[e - 1]);
                lemma_line_count_extend(head, rest);
            } else {
                assert(rest.len() == 0);
                assert(x =~= head);
            }
            assert(y.last() == s[next - 1]);
            lemma_newline_count_append(y.drop_last(), seq![y.last()]);
            assert(y =~= y.drop_last() + seq![y.last()]);
            assert(newline_count(seq![y.last()]) == 1) by {
                assert(seq![y.last()].drop_last() =~= Seq::<u8>::empty());
            }
        }
    }
}

proof fn lemma_starts_agree(s: Seq<u8>, a: Seq<Seq<u8>>, b: Seq<Seq<u8>>, k: int)
    requires
        greedy_chunks(s, a),
        greedy_chunks(s, b),
        0 <= k <= a.len(),
        k <= b.len(),
    ensures
        chunk_start(a, k) == chunk_start(b, k),
        forall|j: int| 0 <= j < k ==> a[j] == b[j],
    decreases k,
{
    if k > 0 {
        lemma_starts_agree(s, a, b, k - 1);
        lemma_same_chunk(s, a, b, k - 1);
        lemma_same_chunk(s, b, a, k - 1);
        assert(chunk_ok(s, a, k - 1));
        assert(chunk_ok(s, b, k - 1));
        assert(chunk_start(a, k) == chunk_start(a, k - 1) + a[k - 1].len());
        assert(chunk_start(b, k) == chunk_start(b, k - 1) + b[k - 1].len());
    }
}

/// The chunking of a content is unique: two results that both meet
/// `is_chunking_of` are the same chunks.
pub proof fn lemma_chunking_unique(s: Seq<u8>, a: Seq<Seq<u8>>, b: Seq<Seq<u8>>)
    requires
        is_chunking_of(s, a),
        is_chunking_of(s, b),
    ensures
        a == b,
{
    if s.len() > 0 {
        if a.len() < b.len() {
            lemma_starts_agree(s, a, b, a.len() as int);
            lemma_chunk_at_line_start(s, b, a.len() as int);
        } else if b.len() < a.len() {
            lemma_starts_agree(s, a, b, b.len() as int);
            lemma_chunk_at_line_start(s, a, b.len() as int);
        } else {
            lemma_starts_agree(s, a, b, a.len() as int);
        }
        assert(a =~= b);
    }
}

fn line_end_at(content: &[u8], i: usize) -> (e: usize)
    requires
        i < content@.len(),
    ensures
        e as int == line_end(content@, i as int),
{
    let mut j: usize = i;
    while j < content.len() && content[j] != 10
        invariant
            i <= j <= content@.len(),
            line_end(content@, i as int) == line_end(content@, j as int),
            forall|k: int| i <= k < j ==> !is_newline(#[trigger] content@[k]),
        decreases content@.len() - j,
    {
        j = j + 1;
    }
    if j < content.len() {
        j + 1
    } else {
        j
    }
}

/// Splits content into chunks of whole lines, at most `MAX_LINES_PER_BLOB`
/// lines and `MAX_BLOB_SIZE` bytes each; a chunk is sealed when the next line
/// would break either bound. A single line longer than `MAX_BLOB_SIZE` stands
/// alone. Empty content gives one empty chunk.
#[verifier::spinoff_prover]
pub fn split_content_into_chunks(content: &[u8]) -> (r: Vec<Vec<u8>>)
    ensures
        is_chunking_of(content@, views_of(r@)),
{
    let ghost s = content@;
    let n = content.len();
    let mut chunks: Vec<Vec<u8>> = Vec::new();
    if n == 0 {
        chunks.push(Vec::new());
        assert(views_of(chunks@) =~= seq![Seq::<u8>::empty()]);
        return chunks;
    }
    let mut cs: usize = 0;
    let mut i: usize = 0;
    let mut cur_lines: usize = 0;
    while i < n
        invariant
            n == s.len(),
            s == content@,
            n > 0,
            cs <= i <= n,
            chunk_start(views_of(chunks@), chunks@.len() as int) == cs,
            forall|k: int|
                0 <= k < chunks@.len() ==> #[trigger] chunk_within(s, views_of(chunks@), k)
                    && chunk_sealed(s, views_of(chunks@), k),
            cs == 0 || is_newline(s[cs - 1]),
            i == cs || i == n || is_newline(s[i - 1]),
            i > cs || i == 0,
            cs == i ==> cur_lines == 0,
            line_count(s.subrange(cs as int, i as int)) == cur_lines,
            cur_lines <= MAX_LINES_PER_BLOB,
            i - cs <= MAX_BLOB_SIZE || cur_lines == 1,
            i < n ==> is_line_start(s, i as int),
        decreases n - i,
    {
        let e = line_end_at(content, i);
        proof {
            lemma_line_end(s, i as int);
        }
        let line_len = e - i;
        if i > cs && (cur_lines >= MAX_LINES_PER_BLOB || (i - cs) + line_len > MAX_BLOB_SIZE) {
            let c = slice_to_vec(&content[cs..i]);
            let ghost old_views = views_of(chunks@);
            proof {
                assert forall|k: int| 0 <= k < old_views.len() implies chunk_within(
                    s,
                    old_views.push(c@),
                    k,
                ) && chunk_sealed(s, old_views.push(c@), k) by {
                    lemma_chunk_push(s, old_views, c@, k);
                }
                lemma_chunk_start_push(old_views, c@, old_views.len() as int);
            }
            chunks.push(c);
            proof {
                assert(views_of(chunks@) =~= old_views.push(c@));
                assert(chunk_within(s, views_of(chunks@), old_views.len() as int));
                assert(chunk_sealed(s, views_of(chunks@), old_views.len() as int));
                assert forall|k: int| 0 <= k < chunks@.len() implies #[trigger] chunk_within(
                    s,
                    views_of(chunks@),
                    k,
                ) && chunk_sealed(s, views_of(chunks@), k) by {
                    if k < old_views.len() {
                        assert(chunk_within(s, old_views.push(c@), k));
                        assert(chunk_sealed(s, old_views.push(c@), k));
                    }
                }
            }
            cs = i;
            cur_lines = 0;
            assert(s.subrange(cs as int, i as int) =~= Seq::<u8>::empty());
        }
        proof {
            lemma_line_count_step(s, cs as int, i as int);
        }
        cur_lines = cur_lines + 1;
        i = e;
        proof {
            if i < n {
                assert(is_line_start(s, i as int));
            }
        }
    }
    let c = slice_to_vec(&content[cs..n]);
    let ghost old_views = views_of(chunks@);
    proof {
        assert forall|k: int| 0 <= k < old_views.len() implies chunk_ok(
            s,
            old_views.push(c@),
            k,
        ) by {
            lemma_chunk_push(s, old_views, c@, k);
        }
        lemma_chunk_start_push(old_views, c@, old_views.len() as int);
    }
    chunks.push(c);
    proof {
        assert(views_of(chunks@) =~= old_views.push(c@));
        assert(chunk_within(s, views_of(chunks@), old_views.len() as int));
    }
    chunks
}

} // verus!
