//! Association lists: sequences of (key, value) pairs with distinct keys, read as maps.
//! The detectors keep their windows in such lists and state their behaviour over the maps.
use vstd::prelude::*;

verus! {

pub open spec fn keys<K, V>(s: Seq<(K, V)>) -> Seq<K> {
    s.map_values(|p: (K, V)| p.0)
}

/// The position of the first pair with key `k`.
pub open spec fn key_index<K, V>(s: Seq<(K, V)>, k: K) -> int {
    choose|i: int| 0 <= i < s.len() && s[i].0 == k
}

/// The map an association list stands for.
pub open spec fn assoc_map<K, V>(s: Seq<(K, V)>) -> Map<K, V> {
    Map::new(|k: K| keys(s).contains(k), |k: K| s[key_index(s, k)].1)
}

/// No key occurs twice.
pub open spec fn distinct_keys<K, V>(s: Seq<(K, V)>) -> bool {
    keys(s).no_duplicates()
}

pub proof fn lemma_assoc_dom<K, V>(s: Seq<(K, V)>)
    ensures
        assoc_map(s).dom() == keys(s).to_set(),
        assoc_map(s).dom().finite(),
        forall|k: K| #[trigger]
            assoc_map(s).contains_key(k) <==> exists|i: int| 0 <= i < s.len() && s[i].0 == k,
{
    assert(assoc_map(s).dom() =~= keys(s).to_set());
    keys(s).lemma_cardinality_of_set();
    assert forall|k: K| #[trigger] assoc_map(s).contains_key(k) implies exists|i: int|
        0 <= i < s.len() && s[i].0 == k by {
        let j = choose|j: int| 0 <= j < keys(s).len() && keys(s)[j] == k;
        assert(s[j].0 == k);
    }
    assert forall|k: K| (exists|i: int| 0 <= i < s.len() && s[i].0 == k) implies #[trigger]
        assoc_map(s).contains_key(k) by {
        let j = choose|j: int| 0 <= j < s.len() && s[j].0 == k;
        assert(keys(s)[j] == k);
    }
}

pub proof fn lemma_assoc_index<K, V>(s: Seq<(K, V)>, i: int)
    requires
        distinct_keys(s),
        0 <= i < s.len(),
    ensures
        assoc_map(s).contains_key(s[i].0),
        assoc_map(s)[s[i].0] == s[i].1,
{
    lemma_assoc_dom(s);
    let j = key_index(s, s[i].0);
    assert(keys(s)[i] == s[i].0);
    assert(keys(s)[j] == s[j].0);
}

pub proof fn lemma_assoc_len<K, V>(s: Seq<(K, V)>)
    requires
        distinct_keys(s),
    ensures
        assoc_map(s).len() == s.len(),
{
    lemma_assoc_dom(s);
    keys(s).unique_seq_to_set();
}

pub proof fn lemma_assoc_push<K, V>(s: Seq<(K, V)>, k: K, v: V)
    requires
        distinct_keys(s),
        !assoc_map(s).contains_key(k),
    ensures
        distinct_keys(s.push((k, v))),
        assoc_map(s.push((k, v))) == assoc_map(s).insert(k, v),
{
    let t = s.push((k, v));
    lemma_assoc_dom(s);
    lemma_assoc_dom(t);
    assert(keys(t) =~= keys(s).push(k));
    assert(!keys(s).contains(k));
    assert(distinct_keys(t)) by {
        assert forall|a: int, b: int| 0 <= a < keys(t).len() && 0 <= b < keys(t).len() && a != b
            implies keys(t)[a] != keys(t)[b] by {
            if a < s.len() && b < s.len() {
                assert(keys(t)[a] == keys(s)[a]);
                assert(keys(t)[b] == keys(s)[b]);
            } else if a < s.len() {
                assert(keys(s).contains(keys(t)[a]));
            } else {
                assert(keys(s).contains(keys(t)[b]));
            }
        }
    }
    assert forall|x: K| #[trigger] assoc_map(t).contains_key(x) implies assoc_map(t)[x] == assoc_map(
        s,
    ).insert(k, v)[x] by {
        let i = choose|i: int| 0 <= i < t.len() && t[i].0 == x;
        lemma_assoc_index(t, i);
        if i < s.len() {
            lemma_assoc_index(s, i);
        }
    }
    assert(t[s.len() as int].0 == k);
    assert forall|x: K| assoc_map(s).contains_key(x) implies #[trigger] assoc_map(t).contains_key(
        x,
    ) by {
        let j = choose|j: int| 0 <= j < s.len() && s[j].0 == x;
        assert(t[j] == s[j]);
    }
    assert forall|x: K| #[trigger] assoc_map(t).contains_key(x) && x != k implies assoc_map(
        s,
    ).contains_key(x) by {
        let j = choose|j: int| 0 <= j < t.len() && t[j].0 == x;
        assert(j < s.len());
        assert(t[j] == s[j]);
    }
    assert(assoc_map(t) =~= assoc_map(s).insert(k, v));
}

pub proof fn lemma_assoc_remove<K, V>(s: Seq<(K, V)>, i: int)
    requires
        distinct_keys(s),
        0 <= i < s.len(),
    ensures
        distinct_keys(s.remove(i)),
        assoc_map(s.remove(i)) == assoc_map(s).remove(s[i].0),
{
    let t = s.remove(i);
    lemma_assoc_dom(s);
    lemma_assoc_dom(t);
    assert(keys(t) =~= keys(s).remove(i));
    assert(distinct_keys(t)) by {
        assert forall|a: int, b: int| 0 <= a < keys(t).len() && 0 <= b < keys(t).len() && a != b
            implies keys(t)[a] != keys(t)[b] by {
            let a2 = if a < i {
                a
            } else {
                a + 1
            };
            let b2 = if b < i {
                b
            } else {
                b + 1
            };
            assert(keys(t)[a] == keys(s)[a2]);
            assert(keys(t)[b] == keys(s)[b2]);
        }
    }
    assert forall|x: K| #[trigger] assoc_map(t).contains_key(x) implies assoc_map(s).contains_key(x)
        && x != s[i].0 && assoc_map(t)[x] == assoc_map(s)[x] by {
        let j = choose|j: int| 0 <= j < t.len() && t[j].0 == x;
        let j2 = if j < i {
            j
        } else {
            j + 1
        };
        assert(t[j] == s[j2]);
        lemma_assoc_index(t, j);
        lemma_assoc_index(s, j2);
        assert(keys(s)[j2] == x);
        assert(keys(s)[i] == s[i].0);
    }
    assert forall|x: K| assoc_map(s).contains_key(x) && x != s[i].0 implies #[trigger]
        assoc_map(t).contains_key(x) by {
        let j = choose|j: int| 0 <= j < s.len() && s[j].0 == x;
        let j2 = if j < i {
            j
        } else {
            j - 1
        };
        assert(t[j2] == s[j]);
    }
    assert(assoc_map(t) =~= assoc_map(s).remove(s[i].0));
}

pub proof fn lemma_assoc_update<K, V>(s: Seq<(K, V)>, i: int, v: V)
    requires
        distinct_keys(s),
        0 <= i < s.len(),
    ensures
        distinct_keys(s.update(i, (s[i].0, v))),
        assoc_map(s.update(i, (s[i].0, v))) == assoc_map(s).insert(s[i].0, v),
{
    let t = s.update(i, (s[i].0, v));
    lemma_assoc_dom(s);
    lemma_assoc_dom(t);
    assert(keys(t) =~= keys(s));
    assert forall|x: K| #[trigger] assoc_map(t).contains_key(x) implies assoc_map(t)[x] == assoc_map(
        s,
    ).insert(s[i].0, v)[x] by {
        let j = choose|j: int| 0 <= j < t.len() && t[j].0 == x;
        lemma_assoc_index(t, j);
        lemma_assoc_index(s, j);
        if j != i {
            assert(keys(s)[j] != keys(s)[i]);
        }
    }
    assert(assoc_map(t) =~= assoc_map(s).insert(s[i].0, v));
}

/// The pairs before position `i` have distinct keys, none of them the key at `i`.
pub proof fn lemma_assoc_prefix<K, V>(s: Seq<(K, V)>, i: int)
    requires
        distinct_keys(s),
        0 <= i < s.len(),
    ensures
        distinct_keys(s.subrange(0, i)),
        !assoc_map(s.subrange(0, i)).contains_key(s[i].0),
        s.subrange(0, i + 1) == s.subrange(0, i).push(s[i]),
{
    let p = s.subrange(0, i);
    assert(s.subrange(0, i + 1) =~= p.push(s[i]));
    assert(keys(p) =~= keys(s).subrange(0, i));
    assert(distinct_keys(p)) by {
        assert forall|a: int, b: int| 0 <= a < keys(p).len() && 0 <= b < keys(p).len() && a != b
            implies keys(p)[a] != keys(p)[b] by {
            assert(keys(p)[a] == keys(s)[a]);
            assert(keys(p)[b] == keys(s)[b]);
        }
    }
    lemma_assoc_dom(p);
    if assoc_map(p).contains_key(s[i].0) {
        let j = choose|j: int| 0 <= j < p.len() && p[j].0 == s[i].0;
        assert(keys(s)[j] == keys(s)[i]);
    }
}

pub proof fn lemma_assoc_empty<K, V>(s: Seq<(K, V)>)
    requires
        s.len() == 0,
    ensures
        assoc_map(s) == Map::<K, V>::empty(),
        distinct_keys(s),
{
    lemma_assoc_dom(s);
    assert(assoc_map(s) =~= Map::<K, V>::empty());
}

} // verus!
