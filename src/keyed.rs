//! A finite map modelled by a sequence of (key, value) pairs with unique keys.
use vstd::prelude::*;

verus! {

pub open spec fn keys_unique<V>(s: Seq<(Seq<u8>, V)>) -> bool {
    forall|i: int, j: int| 0 <= i < s.len() && 0 <= j < s.len() && i != j ==> #[trigger] s[i].0 != #[trigger] s[j].0
}

pub open spec fn has_key<V>(s: Seq<(Seq<u8>, V)>, k: Seq<u8>) -> bool {
    exists|i: int| 0 <= i < s.len() && #[trigger] s[i].0 == k
}

/// The map that a sequence of pairs denotes.
pub open spec fn keyed_map<V>(s: Seq<(Seq<u8>, V)>) -> Map<Seq<u8>, V> {
    Map::new(
        |k: Seq<u8>| has_key(s, k),
        |k: Seq<u8>| s[choose|i: int| 0 <= i < s.len() && #[trigger] s[i].0 == k].1,
    )
}

pub proof fn lemma_keyed_index<V>(s: Seq<(Seq<u8>, V)>, i: int)
    requires
        keys_unique(s),
        0 <= i < s.len(),
    ensures
        keyed_map(s).contains_key(s[i].0),
        keyed_map(s)[s[i].0] == s[i].1,
{
    let k = s[i].0;
    assert(has_key(s, k));
    let j = choose|j: int| 0 <= j < s.len() && #[trigger] s[j].0 == k;
    assert(s[j].0 == s[i].0);
}

pub proof fn lemma_keyed_remove<V>(s: Seq<(Seq<u8>, V)>, i: int)
    requires
        keys_unique(s),
        0 <= i < s.len(),
    ensures
        keys_unique(s.remove(i)),
        keyed_map(s.remove(i)) == keyed_map(s).remove(s[i].0),
{
    let t = s.remove(i);
    assert forall|a: int, b: int| 0 <= a < t.len() && 0 <= b < t.len() && a != b implies #[trigger] t[a].0 != #[trigger] t[b].0 by {
        let a2 = if a < i { a } else { a + 1 };
        let b2 = if b < i { b } else { b + 1 };
        assert(t[a] == s[a2]);
        assert(t[b] == s[b2]);
    }
    let m = keyed_map(s).remove(s[i].0);
    assert forall|k: Seq<u8>| #[trigger] keyed_map(t).contains_key(k) == m.contains_key(k) && (m.contains_key(k) ==> keyed_map(t)[k] == m[k]) by {
        if has_key(t, k) {
            let a = choose|a: int| 0 <= a < t.len() && #[trigger] t[a].0 == k;
            let a2 = if a < i { a } else { a + 1 };
            assert(t[a] == s[a2]);
            lemma_keyed_index(s, a2);
            lemma_keyed_index(t, a);
        }
        if m.contains_key(k) {
            let a2 = choose|a: int| 0 <= a < s.len() && #[trigger] s[a].0 == k;
            assert(a2 != i);
            let a = if a2 < i { a2 } else { a2 - 1 };
            assert(t[a] == s[a2]);
            assert(has_key(t, k));
        }
    }
    assert(keyed_map(t) =~= m);
}

pub proof fn lemma_keyed_insert<V>(s: Seq<(Seq<u8>, V)>, p: int, e: (Seq<u8>, V))
    requires
        keys_unique(s),
        !has_key(s, e.0),
        0 <= p <= s.len(),
    ensures
        keys_unique(s.insert(p, e)),
        keyed_map(s.insert(p, e)) == keyed_map(s).insert(e.0, e.1),
{
    let t = s.insert(p, e);
    assert forall|a: int, b: int| 0 <= a < t.len() && 0 <= b < t.len() && a != b implies #[trigger] t[a].0 != #[trigger] t[b].0 by {
        if a != p && b != p {
            let a2 = if a < p { a } else { a - 1 };
            let b2 = if b < p { b } else { b - 1 };
            assert(t[a] == s[a2]);
            assert(t[b] == s[b2]);
        } else if a == p {
            let b2 = if b < p { b } else { b - 1 };
            assert(t[b] == s[b2]);
        } else {
            let a2 = if a < p { a } else { a - 1 };
            assert(t[a] == s[a2]);
        }
    }
    let m = keyed_map(s).insert(e.0, e.1);
    assert forall|k: Seq<u8>| #[trigger] keyed_map(t).contains_key(k) == m.contains_key(k) && (m.contains_key(k) ==> keyed_map(t)[k] == m[k]) by {
        if k == e.0 {
            assert(t[p] == e);
            lemma_keyed_index(t, p);
        } else {
            if has_key(t, k) {
                let a = choose|a: int| 0 <= a < t.len() && #[trigger] t[a].0 == k;
                let a2 = if a < p { a } else { a - 1 };
                assert(t[a] == s[a2]);
                lemma_keyed_index(s, a2);
                lemma_keyed_index(t, a);
            }
            if has_key(s, k) {
                let a2 = choose|a: int| 0 <= a < s.len() && #[trigger] s[a].0 == k;
                let a = if a2 < p { a2 } else { a2 + 1 };
                assert(t[a] == s[a2]);
                assert(has_key(t, k));
            }
        }
    }
    assert(keyed_map(t) =~= m);
}

pub proof fn lemma_keyed_update<V>(s: Seq<(Seq<u8>, V)>, i: int, v: V)
    requires
        keys_unique(s),
        0 <= i < s.len(),
    ensures
        keys_unique(s.update(i, (s[i].0, v))),
        keyed_map(s.update(i, (s[i].0, v))) == keyed_map(s).insert(s[i].0, v),
{
    let t = s.update(i, (s[i].0, v));
    assert(t.remove(i) =~= s.remove(i));
    assert(t.remove(i).insert(i, (s[i].0, v)) =~= t);
    lemma_keyed_remove(s, i);
    assert(!has_key(s.remove(i), s[i].0)) by {
        if has_key(s.remove(i), s[i].0) {
            let a = choose|a: int| 0 <= a < s.remove(i).len() && #[trigger] s.remove(i)[a].0 == s[i].0;
            let a2 = if a < i { a } else { a + 1 };
            assert(s.remove(i)[a] == s[a2]);
        }
    }
    lemma_keyed_insert(s.remove(i), i, (s[i].0, v));
    assert(keyed_map(s).remove(s[i].0).insert(s[i].0, v) =~= keyed_map(s).insert(s[i].0, v));
}

} // verus!
