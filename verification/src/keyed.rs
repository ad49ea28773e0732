//! Lists of entries with distinct keys, seen as maps.
use vstd::prelude::*;

verus! {

/// Whether no key occurs twice.
pub open spec fn distinct<V>(s: Seq<(Seq<char>, V)>) -> bool {
    forall|i: int, j: int|
        0 <= i < j < s.len() ==> (#[trigger] s[i]).0 != (#[trigger] s[j]).0
}

/// Whether the key `k` occurs.
pub open spec fn has_key<V>(s: Seq<(Seq<char>, V)>, k: Seq<char>) -> bool {
    exists|i: int| 0 <= i < s.len() && (#[trigger] s[i]).0 == k
}

/// Where the key `k` stands.
pub open spec fn place<V>(s: Seq<(Seq<char>, V)>, k: Seq<char>) -> int {
    choose|i: int| 0 <= i < s.len() && (#[trigger] s[i]).0 == k
}

/// The list as a map.
pub open spec fn keyed<V>(s: Seq<(Seq<char>, V)>) -> Map<Seq<char>, V> {
    Map::new(|k: Seq<char>| has_key(s, k), |k: Seq<char>| s[place(s, k)].1)
}

/// The map holds what stands in the list.
pub proof fn lemma_keyed_at<V>(s: Seq<(Seq<char>, V)>, i: int)
    requires
        distinct(s),
        0 <= i < s.len(),
    ensures
        keyed(s).contains_key(s[i].0),
        keyed(s)[s[i].0] == s[i].1,
{
    let k = s[i].0;
    assert(has_key(s, k));
    let j = place(s, k);
    assert(0 <= j < s.len() && s[j].0 == k);
    assert(i == j);
}

/// A list with distinct keys and its map hold the same: each entry of one is an entry
/// of the other.
pub proof fn map_holds_the_list<V>(s: Seq<(Seq<char>, V)>, i: int, k: Seq<char>)
    requires
        forall|a: int, b: int| 0 <= a < s.len() && 0 <= b < s.len() && a != b ==> s[a].0 != s[b].0,
    ensures
        distinct(s),
        0 <= i < s.len() ==> keyed(s).contains_key(s[i].0) && keyed(s)[s[i].0] == s[i].1,
        keyed(s).contains_key(k) ==> exists|a: int|
            0 <= a < s.len() && #[trigger] s[a] == (k, keyed(s)[k]),
{
    if 0 <= i < s.len() {
        lemma_keyed_at(s, i);
    }
    if keyed(s).contains_key(k) {
        let a = place(s, k);
        assert(s[a] == (k, keyed(s)[k]));
    }
}

/// Two lists with distinct keys and the same entries in the same places but for
/// one are the same map but for one key.
pub proof fn lemma_keyed_update<V>(s: Seq<(Seq<char>, V)>, i: int, v: V)
    requires
        distinct(s),
        0 <= i < s.len(),
    ensures
        distinct(s.update(i, (s[i].0, v))),
        keyed(s.update(i, (s[i].0, v))) == keyed(s).insert(s[i].0, v),
{
    let t = s.update(i, (s[i].0, v));
    assert forall|a: int| 0 <= a < s.len() implies (#[trigger] t[a]).0 == s[a].0 by {}
    assert(distinct(t));
    assert forall|k: Seq<char>| has_key(t, k) == has_key(s, k) by {
        if has_key(t, k) {
            assert(s[place(t, k)].0 == k);
        }
        if has_key(s, k) {
            assert(t[place(s, k)].0 == k);
        }
    }
    assert forall|k: Seq<char>| has_key(t, k) implies #[trigger] keyed(t)[k] == keyed(s).insert(
        s[i].0,
        v,
    )[k] by {
        let a = place(t, k);
        lemma_keyed_at(t, a);
        lemma_keyed_at(s, a);
        assert(a == i <==> k == s[i].0);
    }
    lemma_keyed_at(s, i);
    assert(keyed(t) =~= keyed(s).insert(s[i].0, v));
}

/// A new entry under a new key.
pub proof fn lemma_keyed_push<V>(s: Seq<(Seq<char>, V)>, k: Seq<char>, v: V)
    requires
        distinct(s),
        !has_key(s, k),
    ensures
        distinct(s.push((k, v))),
        keyed(s.push((k, v))) == keyed(s).insert(k, v),
{
    let t = s.push((k, v));
    assert forall|a: int, b: int| 0 <= a < b < t.len() implies (#[trigger] t[a]).0 != (
    #[trigger] t[b]).0 by {
        if b == s.len() {
            assert(t[a] == s[a]);
        }
    }
    lemma_keyed_at(t, s.len() as int);
    assert forall|x: Seq<char>| has_key(t, x) == (has_key(s, x) || x == k) by {
        if has_key(s, x) {
            assert(t[place(s, x)].0 == x);
        }
        if has_key(t, x) && x != k {
            assert(s[place(t, x)].0 == x);
        }
    }
    assert forall|x: Seq<char>| has_key(s, x) implies #[trigger] keyed(t)[x] == keyed(s)[x] by {
        let a = place(s, x);
        lemma_keyed_at(s, a);
        lemma_keyed_at(t, a);
    }
    assert(keyed(t) =~= keyed(s).insert(k, v));
}

/// An entry is taken out.
pub proof fn lemma_keyed_remove<V>(s: Seq<(Seq<char>, V)>, i: int)
    requires
        distinct(s),
        0 <= i < s.len(),
    ensures
        distinct(s.remove(i)),
        keyed(s.remove(i)) == keyed(s).remove(s[i].0),
{
    let t = s.remove(i);
    let k = s[i].0;
    assert forall|a: int| 0 <= a < t.len() implies #[trigger] t[a] == s[if a < i {
        a
    } else {
        a + 1
    }] by {}
    assert(distinct(t));
    assert forall|x: Seq<char>| has_key(t, x) == (has_key(s, x) && x != k) by {
        if has_key(s, x) && x != k {
            let a = place(s, x);
            assert(t[if a < i { a } else { a - 1 }].0 == x);
        }
        if has_key(t, x) {
            let b = place(t, x);
            let a = if b < i { b } else { b + 1 };
            assert(s[a].0 == x);
        }
    }
    assert forall|x: Seq<char>| has_key(t, x) implies #[trigger] keyed(t)[x] == keyed(s)[x] by {
        let b = place(t, x);
        let a = if b < i { b } else { b + 1 };
        lemma_keyed_at(t, b);
        lemma_keyed_at(s, a);
    }
    assert(keyed(t) =~= keyed(s).remove(k));
}

/// Every entry is changed in its place.
pub proof fn lemma_keyed_map<V, W>(
    s: Seq<(Seq<char>, V)>,
    t: Seq<(Seq<char>, W)>,
    f: spec_fn(Seq<char>, V) -> W,
)
    requires
        distinct(s),
        t.len() == s.len(),
        forall|i: int| 0 <= i < s.len() ==> #[trigger] t[i] == (s[i].0, f(s[i].0, s[i].1)),
    ensures
        distinct(t),
        keyed(t) == keyed(s).map_entries(f),
{
    assert forall|i: int, j: int| 0 <= i < j < t.len() implies (#[trigger] t[i]).0 != (
    #[trigger] t[j]).0 by {
        assert(s[i].0 != s[j].0);
    }
    assert forall|x: Seq<char>| has_key(t, x) == has_key(s, x) by {
        if has_key(s, x) {
            assert(t[place(s, x)].0 == x);
        }
        if has_key(t, x) {
            assert(s[place(t, x)].0 == x);
        }
    }
    assert forall|x: Seq<char>| has_key(s, x) implies #[trigger] keyed(t)[x] == f(
        x,
        keyed(s)[x],
    ) by {
        let a = place(s, x);
        lemma_keyed_at(s, a);
        lemma_keyed_at(t, a);
    }
    assert(keyed(t) =~= keyed(s).map_entries(f));
}

} // verus!
