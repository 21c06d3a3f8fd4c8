//! Content addressing: blob names and the per-workspace cache key.

use vstd::prelude::*;
use vstd::string::*;
use vstd::utf8::encode_utf8;
use sha2::Digest;
use crate::text::{chars_of, string_of};

verus! {

/// The SHA-256 digest of `data`.
pub uninterp spec fn sha256_of(data: Seq<u8>) -> Seq<u8>;

/// The hyphenated lower-case text of the version-5 UUID of `name` under
/// `namespace`.
pub uninterp spec fn uuid_v5_of(namespace: Seq<u8>, name: Seq<u8>) -> Seq<char>;

/// Relies on `sha2::Sha256` (through `digest::Digest`): feeding `a` and then
/// `b` to one hasher digests their concatenation, and the digest is 32 bytes.
#[verifier::external_body]
fn sha256_of_pair(a: &[u8], b: &[u8]) -> (r: Vec<u8>)
    ensures
        r@ == sha256_of(a@ + b@),
        r@.len() == 32,
{
    let mut hasher = sha2::Sha256::new();
    hasher.update(a);
    hasher.update(b);
    hasher.finalize().to_vec()
}

/// Relies on `uuid::Uuid::new_v5` and the `Display` of `Uuid`: the
/// hyphenated form, 36 characters.
#[verifier::external_body]
fn uuid_v5_text(namespace: [u8; 16], name: &[u8]) -> (r: String)
    ensures
        r@ == uuid_v5_of(namespace@, name@),
        r@.len() == 36,
{
    uuid::Uuid::new_v5(&uuid::Uuid::from_bytes(namespace), name).to_string()
}

pub open spec fn hex_digit(d: int) -> char {
    if 0 <= d < 10 {
        ((d + 48) as u8) as char
    } else {
        ((d - 10 + 97) as u8) as char
    }
}

/// Lower-case hexadecimal, two digits per byte, high nibble first.
pub open spec fn hex_of(b: Seq<u8>) -> Seq<char>
    decreases b.len(),
{
    if b.len() == 0 {
        Seq::empty()
    } else {
        hex_of(b.drop_last()) + seq![hex_digit(b.last() as int / 16), hex_digit(b.last() as int % 16)]
    }
}

/// The blob name of a path and its content: the hexadecimal SHA-256 of the
/// path's UTF-8 bytes followed by the content.
pub open spec fn blob_name_of(path: Seq<char>, content: Seq<u8>) -> Seq<char> {
    hex_of(sha256_of(encode_utf8(path) + content))
}

fn hex_char(d: u8) -> (c: char)
    requires
        d < 16,
    ensures
        c == hex_digit(d as int),
{
    if d < 10 {
        (d + 48) as char
    } else {
        (d - 10 + 97) as char
    }
}

/// Writes bytes in lower-case hexadecimal.
pub fn to_hex(b: &[u8]) -> (r: String)
    ensures
        r@ == hex_of(b@),
{
    let mut out: Vec<char> = Vec::new();
    let mut i: usize = 0;
    while i < b.len()
        invariant
            i <= b@.len(),
            out@ == hex_of(b@.take(i as int)),
        decreases b@.len() - i,
    {
        let x = b[i];
        out.push(hex_char(x / 16));
        out.push(hex_char(x % 16));
        proof {
            assert(b@.take(i + 1).drop_last() =~= b@.take(i as int));
        }
        i = i + 1;
    }
    assert(b@.take(b@.len() as int) =~= b@);
    string_of(out.as_slice())
}

proof fn lemma_hex_len(b: Seq<u8>)
    ensures
        hex_of(b).len() == 2 * b.len(),
    decreases b.len(),
{
    if b.len() > 0 {
        lemma_hex_len(b.drop_last());
    }
}

proof fn lemma_hex_digit_injective(x: int, y: int)
    requires
        0 <= x < 16,
        0 <= y < 16,
        hex_digit(x) == hex_digit(y),
    ensures
        x == y,
{
    assert(hex_digit(x) as u32 == if x < 10 { x + 48 } else { x + 87 });
    assert(hex_digit(y) as u32 == if y < 10 { y + 48 } else { y + 87 });
}

/// Distinct byte strings have distinct hexadecimal texts.
pub proof fn lemma_hex_injective(a: Seq<u8>, b: Seq<u8>)
    requires
        hex_of(a) == hex_of(b),
    ensures
        a == b,
    decreases a.len(),
{
    lemma_hex_len(a);
    lemma_hex_len(b);
    if a.len() > 0 {
        let ha = hex_of(a.drop_last());
        let hb = hex_of(b.drop_last());
        lemma_hex_len(a.drop_last());
        lemma_hex_len(b.drop_last());
        assert(hex_of(a)[ha.len() as int] == hex_digit(a.last() as int / 16));
        assert(hex_of(b)[hb.len() as int] == hex_digit(b.last() as int / 16));
        assert(hex_of(a)[ha.len() + 1int] == hex_digit(a.last() as int % 16));
        assert(hex_of(b)[hb.len() + 1int] == hex_digit(b.last() as int % 16));
        lemma_hex_digit_injective(a.last() as int / 16, b.last() as int / 16);
        lemma_hex_digit_injective(a.last() as int % 16, b.last() as int % 16);
        assert(ha =~= hex_of(a).take(ha.len() as int));
        assert(hb =~= hex_of(b).take(hb.len() as int));
        lemma_hex_injective(a.drop_last(), b.drop_last());
        assert(a =~= a.drop_last().push(a.last()));
        assert(b =~= b.drop_last().push(b.last()));
    } else {
        assert(a =~= b);
    }
}

/// Blob identity: the blob name is the hexadecimal SHA-256 of the path
/// bytes followed by the content; two inputs whose digests differ have
/// different blob names.
pub proof fn lemma_blob_identity(p1: Seq<char>, c1: Seq<u8>, p2: Seq<char>, c2: Seq<u8>)
    requires
        sha256_of(encode_utf8(p1) + c1) != sha256_of(encode_utf8(p2) + c2),
    ensures
        blob_name_of(p1, c1) != blob_name_of(p2, c2),
{
    if blob_name_of(p1, c1) == blob_name_of(p2, c2) {
        lemma_hex_injective(sha256_of(encode_utf8(p1) + c1), sha256_of(encode_utf8(p2) + c2));
    }
}

/// The name of the blob for `relative_path` with `content`.
pub fn compute_blob_name(relative_path: &str, content: &[u8]) -> (r: String)
    ensures
        r@ == blob_name_of(relative_path@, content@),
        r@.len() == 64,
{
    let digest = sha256_of_pair(relative_path.as_bytes(), content);
    proof {
        lemma_hex_len(digest@);
    }
    to_hex(digest.as_slice())
}

/// Namespace of the per-workspace cache keys.
pub const WORKSPACE_NAMESPACE: [u8; 16] = [
    0x6b, 0xa7, 0xb8, 0x10, 0x9d, 0xad, 0x11, 0xd1, 0x80, 0xb4, 0x00, 0xc0, 0x4f, 0xd4, 0x30, 0xc8,
];

/// `s` with every backslash turned into a forward slash.
pub open spec fn forward_slashes(s: Seq<char>) -> Seq<char> {
    s.map_values(|c: char| if c == '\\' { '/' } else { c })
}

/// The cache key of a workspace: the version-5 UUID of its path, written with
/// forward slashes, under `WORKSPACE_NAMESPACE`.
pub fn compute_path_uuid(path: &str) -> (r: String)
    ensures
        r@ == uuid_v5_of(WORKSPACE_NAMESPACE@, encode_utf8(forward_slashes(path@))),
{
    let cs = chars_of(path);
    let mut out: Vec<char> = Vec::new();
    let mut i: usize = 0;
    while i < cs.len()
        invariant
            cs@ == path@,
            i <= cs@.len(),
            out@ == forward_slashes(cs@.take(i as int)),
        decreases cs@.len() - i,
    {
        let c = cs[i];
        if c == '\\' {
            out.push('/');
        } else {
            out.push(c);
        }
        proof {
            assert(forward_slashes(cs@.take(i + 1)) =~= forward_slashes(cs@.take(i as int)).push(
                if c == '\\' { '/' } else { c },
            ));
        }
        i = i + 1;
    }
    assert(cs@.take(cs@.len() as int) =~= cs@);
    let normalized = string_of(out.as_slice());
    uuid_v5_text(WORKSPACE_NAMESPACE, normalized.as_str().as_bytes())
}

/// The name of a workspace's cache file: its key followed by `.json`.
pub fn cache_file_name(workspace_path: &str) -> (r: String)
    ensures
        r@ == uuid_v5_of(WORKSPACE_NAMESPACE@, encode_utf8(forward_slashes(workspace_path@)))
            + ".json"@,
{
    let mut r = compute_path_uuid(workspace_path);
    r.append(".json");
    r
}

} // verus!
