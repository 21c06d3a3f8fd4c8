//! Small string-keyed tables held in vectors, with the map each one models.

use vstd::prelude::*;

verus! {

/// No key occurs twice.
pub open spec fn keys_unique<V>(v: Seq<(String, V)>) -> bool {
    forall|i: int, j: int| 0 <= i < j < v.len() ==> (#[trigger] v[i]).0@ != (#[trigger] v[j]).0@
}

/// `v` holds exactly the pairs of `m`, each key once.
pub open spec fn models<V>(v: Seq<(String, V)>, m: Map<Seq<char>, V>) -> bool {
    &&& keys_unique(v)
    &&& forall|i: int|
        0 <= i < v.len() ==> m.contains_key((#[trigger] v[i]).0@) && m[v[i].0@] == v[i].1
    &&& forall|k: Seq<char>|
        #[trigger] m.contains_key(k) ==> exists|i: int| 0 <= i < v.len() && v[i].0@ == k
}

/// Position of `key` in `v`, if it is there.
pub fn find_key<V>(v: &Vec<(String, V)>, key: &String) -> (r: Option<usize>)
    ensures
        match r {
            Some(i) => i < v@.len() && v@[i as int].0@ == key@ && forall|j: int|
                0 <= j < i ==> (#[trigger] v@[j]).0@ != key@,
            None => forall|i: int| 0 <= i < v@.len() ==> (#[trigger] v@[i]).0@ != key@,
        },
{
    let mut i: usize = 0;
    while i < v.len()
        invariant
            i <= v@.len(),
            forall|j: int| 0 <= j < i ==> (#[trigger] v@[j]).0@ != key@,
        decreases v@.len() - i,
    {
        if v[i].0 == *key {
            return Some(i);
        }
        i = i + 1;
    }
    None
}

pub proof fn lemma_models_absent<V>(v: Seq<(String, V)>, m: Map<Seq<char>, V>, k: Seq<char>)
    requires
        models(v, m),
        forall|i: int| 0 <= i < v.len() ==> (#[trigger] v[i]).0@ != k,
    ensures
        !m.contains_key(k),
{
}

pub proof fn lemma_models_push<V>(v: Seq<(String, V)>, m: Map<Seq<char>, V>, k: String, x: V)
    requires
        models(v, m),
        !m.contains_key(k@),
    ensures
        models(v.push((k, x)), m.insert(k@, x)),
{
    let w = v.push((k, x));
    let n = m.insert(k@, x);
    assert forall|i: int| 0 <= i < w.len() implies n.contains_key((#[trigger] w[i]).0@) && n[w[i].0@]
        == w[i].1 by {
        if i < v.len() {
            assert(w[i] == v[i]);
        }
    }
    assert forall|q: Seq<char>| #[trigger] n.contains_key(q) implies exists|i: int|
        0 <= i < w.len() && w[i].0@ == q by {
        if q == k@ {
            assert(w[v.len() as int].0@ == q);
        } else {
            let i = choose|i: int| 0 <= i < v.len() && v[i].0@ == q;
            assert(w[i] == v[i]);
        }
    }
}

pub proof fn lemma_models_set<V>(
    v: Seq<(String, V)>,
    m: Map<Seq<char>, V>,
    i: int,
    k: String,
    x: V,
)
    requires
        models(v, m),
        0 <= i < v.len(),
        v[i].0@ == k@,
    ensures
        models(v.update(i, (k, x)), m.insert(k@, x)),
{
    let w = v.update(i, (k, x));
    let n = m.insert(k@, x);
    assert forall|a: int, b: int| 0 <= a < b < w.len() implies (#[trigger] w[a]).0@ != (
    #[trigger] w[b]).0@ by {
        assert(v[a].0@ != v[b].0@);
    }
    assert forall|q: Seq<char>| #[trigger] n.contains_key(q) implies exists|j: int|
        0 <= j < w.len() && w[j].0@ == q by {
        if q == k@ {
            assert(w[i].0@ == q);
        } else {
            let j = choose|j: int| 0 <= j < v.len() && v[j].0@ == q;
            assert(w[j] == v[j]);
        }
    }
}

pub proof fn lemma_models_remove<V>(v: Seq<(String, V)>, m: Map<Seq<char>, V>, i: int)
    requires
        models(v, m),
        0 <= i < v.len(),
    ensures
        models(v.remove(i), m.remove(v[i].0@)),
{
    let w = v.remove(i);
    let k = v[i].0@;
    let n = m.remove(k);
    assert forall|a: int, b: int| 0 <= a < b < w.len() implies (#[trigger] w[a]).0@ != (
    #[trigger] w[b]).0@ by {
        let oa = if a < i { a } else { a + 1 };
        let ob = if b < i { b } else { b + 1 };
        assert(w[a] == v[oa]);
        assert(w[b] == v[ob]);
    }
    assert forall|j: int| 0 <= j < w.len() implies n.contains_key((#[trigger] w[j]).0@) && n[w[j].0@]
        == w[j].1 by {
        let oj = if j < i { j } else { j + 1 };
        assert(w[j] == v[oj]);
    }
    assert forall|q: Seq<char>| #[trigger] n.contains_key(q) implies exists|j: int|
        0 <= j < w.len() && w[j].0@ == q by {
        let o = choose|o: int| 0 <= o < v.len() && v[o].0@ == q;
        assert(o != i);
        let j = if o < i { o } else { o - 1 };
        assert(w[j] == v[o]);
    }
}

} // verus!
