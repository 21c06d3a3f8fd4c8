//! The built-in ignore rule: directory and file names that are never indexed.

use vstd::prelude::*;
use vstd::string::*;
use crate::cache::{contains_name, in_names};
use crate::text::{chars_of, string_of};

verus! {

/// Names that are always ignored: version control, dependency, build and
/// virtual-environment directories, the ignore files, OS detritus.
pub open spec fn default_names() -> Seq<Seq<char>> {
    seq![
        ".git"@, ".gitignore"@, ".augmentignore"@, "node_modules"@, "target"@, ".augment"@,
        "dist"@, "build"@, ".next"@, ".venv"@, "venv"@, "__pycache__"@, ".DS_Store"@,
    ]
}

/// Names that are always ignored, wherever they stand in a path.
pub fn default_ignore_names() -> (r: Vec<String>)
    ensures
        r@.map_values(|x: String| x@) == default_names(),
{
    let mut v: Vec<String> = Vec::new();
    v.push(String::from_str(".git"));
    v.push(String::from_str(".gitignore"));
    v.push(String::from_str(".augmentignore"));
    v.push(String::from_str("node_modules"));
    v.push(String::from_str("target"));
    v.push(String::from_str(".augment"));
    v.push(String::from_str("dist"));
    v.push(String::from_str("build"));
    v.push(String::from_str(".next"));
    v.push(String::from_str(".venv"));
    v.push(String::from_str("venv"));
    v.push(String::from_str("__pycache__"));
    v.push(String::from_str(".DS_Store"));
    assert(v@.map_values(|x: String| x@) =~= default_names());
    v
}

/// `p[i..j]` is a whole component of the `/`-separated path `p`.
pub open spec fn segment_at(p: Seq<char>, i: int, j: int) -> bool {
    &&& 0 <= i < j <= p.len()
    &&& (i == 0 || p[i - 1] == '/')
    &&& (j == p.len() || p[j] == '/')
    &&& forall|k: int| i <= k < j ==> #[trigger] p[k] != '/'
}

/// Some component of `p` is one of `names`.
pub open spec fn has_listed_component(p: Seq<char>, names: Seq<String>) -> bool {
    exists|i: int, j: int| #[trigger] segment_at(p, i, j) && in_names(names, p.subrange(i, j))
}

/// Whether some component of the `/`-separated `path` is one of `names`.
pub fn matches_ignored_name(path: &str, names: &[String]) -> (r: bool)
    ensures
        r == has_listed_component(path@, names@),
{
    let cs = chars_of(path);
    let n = cs.len();
    let mut i: usize = 0;
    while i < n
        invariant
            cs@ == path@,
            n == cs@.len(),
            i <= n,
            i == 0 || cs@[i - 1] == '/' || i == n || cs@[i as int] == '/',
            forall|a: int, b: int|
                #[trigger] segment_at(cs@, a, b) && a < i ==> !in_names(names@, cs@.subrange(a, b)),
        decreases n - i,
    {
        if cs[i] == '/' {
            i = i + 1;
        } else {
            let mut j: usize = i;
            while j < n && cs[j] != '/'
                invariant
                    i <= j <= n,
                    n == cs@.len(),
                    forall|k: int| i <= k < j ==> #[trigger] cs@[k] != '/',
                decreases n - j,
            {
                j = j + 1;
            }
            let seg = string_of(&cs.as_slice()[i..j]);
            proof {
                assert(i == 0 || cs@[i - 1] == '/');
                assert(segment_at(cs@, i as int, j as int));
            }
            if contains_name(names, &seg) {
                return true;
            }
            proof {
                assert forall|a: int, b: int|
                    #[trigger] segment_at(cs@, a, b) && a < j implies !in_names(names@, cs@.subrange(a, b)) by {
                    if a == i {
                        if b < j {
                            assert(cs@[b] != '/');
                        } else if b > j {
                            assert(cs@[j as int] == '/');
                        }
                    } else if a > i {
                        assert(cs@[a - 1] != '/');
                    }
                }
            }
            i = j;
        }
    }
    false
}

/// Whether a workspace-relative path lies under, or is, a name that is
/// always ignored.
pub fn is_default_ignored(path: &str) -> (r: bool)
    ensures
        r == exists|i: int, j: int| #[trigger] segment_at(path@, i, j) && default_names().contains(
            path@.subrange(i, j),
        ),
{
    let names = default_ignore_names();
    let r = matches_ignored_name(path, names.as_slice());
    proof {
        let m = names@.map_values(|x: String| x@);
        assert forall|x: Seq<char>| in_names(names@, x) <==> default_names().contains(x) by {
            if in_names(names@, x) {
                let k = choose|k: int| 0 <= k < names@.len() && (#[trigger] names@[k])@ == x;
                assert(m[k] == x);
            }
            if default_names().contains(x) {
                let k = choose|k: int| 0 <= k < m.len() && m[k] == x;
                assert(names@[k]@ == x);
            }
        }
    }
    r
}

/// Globs of files that hold secrets: environment files, keys and
/// certificates, package-manager credentials.
pub open spec fn sensitive_globs() -> Seq<Seq<char>> {
    seq![".env"@, ".env.*"@, "*.pem"@, "*.key"@, "*.p12"@, "id_rsa*"@, "id_ed25519*"@, ".npmrc"@]
}

/// Globs of files that hold secrets; they are never indexed, whatever the
/// ignore files say.
pub fn sensitive_file_globs() -> (r: Vec<String>)
    ensures
        r@.map_values(|x: String| x@) == sensitive_globs(),
{
    let mut v: Vec<String> = Vec::new();
    v.push(String::from_str(".env"));
    v.push(String::from_str(".env.*"));
    v.push(String::from_str("*.pem"));
    v.push(String::from_str("*.key"));
    v.push(String::from_str("*.p12"));
    v.push(String::from_str("id_rsa*"));
    v.push(String::from_str("id_ed25519*"));
    v.push(String::from_str(".npmrc"));
    assert(v@.map_values(|x: String| x@) =~= sensitive_globs());
    v
}

} // verus!
