//! Association lists: sequences of key-value pairs with distinct keys, and the
//! maps they stand for.

use vstd::prelude::*;

verus! {

/// No key occurs twice.
pub open spec fn keys_unique<K, V>(s: Seq<(K, V)>) -> bool {
    forall|i: int, j: int| 0 <= i < s.len() && 0 <= j < s.len() && i != j ==> s[i].0 != s[j].0
}

/// The key occurs in the list.
pub open spec fn has_key<K, V>(s: Seq<(K, V)>, k: K) -> bool {
    exists|i: int| 0 <= i < s.len() && s[i].0 == k
}

/// The map that the list stands for.
pub open spec fn assoc_view<K, V>(s: Seq<(K, V)>) -> Map<K, V> {
    Map::new(
        |k: K| has_key(s, k),
        |k: K| s[choose|i: int| 0 <= i < s.len() && s[i].0 == k].1,
    )
}

/// Each entry of a list with distinct keys is what the map holds at its key.
pub proof fn lemma_assoc_index<K, V>(s: Seq<(K, V)>, j: int)
    requires
        keys_unique(s),
        0 <= j < s.len(),
    ensures
        assoc_view(s).contains_key(s[j].0),
        assoc_view(s)[s[j].0] == s[j].1,
{
    assert(has_key(s, s[j].0));
    let i = choose|i: int| 0 <= i < s.len() && s[i].0 == s[j].0;
    assert(i == j);
}

/// Every entry of a list with distinct keys, as the map holds it.
pub proof fn lemma_assoc_all<K, V>(s: Seq<(K, V)>)
    requires
        keys_unique(s),
    ensures
        forall|j: int| 0 <= j < s.len() ==> #[trigger] assoc_view(s).contains_key(s[j].0) && assoc_view(s)[s[j].0] == s[j].1,
        forall|k: K| #[trigger] assoc_view(s).contains_key(k) ==> exists|j: int| 0 <= j < s.len() && s[j].0 == k,
        assoc_view(s).dom().finite(),
{
    assert forall|j: int| 0 <= j < s.len() implies #[trigger] assoc_view(s).contains_key(s[j].0) && assoc_view(s)[s[j].0] == s[j].1 by {
        lemma_assoc_index(s, j);
    }
    lemma_assoc_finite(s);
}

/// The map of a list has finitely many keys.
pub proof fn lemma_assoc_finite<K, V>(s: Seq<(K, V)>)
    ensures
        assoc_view(s).dom().finite(),
    decreases s.len(),
{
    if s.len() == 0 {
        assert(assoc_view(s).dom() =~= Set::empty());
    } else {
        let t = s.drop_last();
        lemma_assoc_finite(t);
        assert(assoc_view(s).dom() =~= assoc_view(t).dom().insert(s.last().0)) by {
            assert forall|k: K| #[trigger] assoc_view(s).dom().contains(k) implies assoc_view(t).dom().insert(s.last().0).contains(k) by {
                let i = choose|i: int| 0 <= i < s.len() && s[i].0 == k;
                if i < t.len() {
                    assert(t[i].0 == k);
                }
            }
            assert forall|k: K| assoc_view(t).dom().insert(s.last().0).contains(k) implies #[trigger] assoc_view(s).dom().contains(k) by {
                if k == s.last().0 {
                    assert(s[s.len() - 1].0 == k);
                } else {
                    let i = choose|i: int| 0 <= i < t.len() && t[i].0 == k;
                    assert(s[i].0 == k);
                }
            }
        }
    }
}

/// Appending an entry with a new key adds it to the map.
pub proof fn lemma_assoc_push<K, V>(s: Seq<(K, V)>, k: K, v: V)
    requires
        keys_unique(s),
        !assoc_view(s).contains_key(k),
    ensures
        keys_unique(s.push((k, v))),
        assoc_view(s.push((k, v))) =~= assoc_view(s).insert(k, v),
{
    let t = s.push((k, v));
    assert forall|i: int, j: int| 0 <= i < t.len() && 0 <= j < t.len() && i != j implies t[i].0 != t[j].0 by {
        if i == s.len() {
            assert(s[j].0 == t[j].0);
            assert(has_key(s, s[j].0));
        } else if j == s.len() {
            assert(s[i].0 == t[i].0);
            assert(has_key(s, s[i].0));
        }
    }
    assert forall|x: K| #[trigger] assoc_view(t).contains_key(x) <==> assoc_view(s).insert(k, v).contains_key(x) by {
        if has_key(t, x) && x != k {
            let i = choose|i: int| 0 <= i < t.len() && t[i].0 == x;
            assert(s[i].0 == x);
        }
        if has_key(s, x) {
            let i = choose|i: int| 0 <= i < s.len() && s[i].0 == x;
            assert(t[i].0 == x);
        }
        if x == k {
            assert(t[s.len() as int].0 == x);
        }
    }
    assert forall|x: K| #[trigger] assoc_view(t).contains_key(x) implies assoc_view(t)[x] == assoc_view(s).insert(k, v)[x] by {
        if x == k {
            lemma_assoc_index(t, s.len() as int);
        } else {
            let i = choose|i: int| 0 <= i < s.len() && s[i].0 == x;
            lemma_assoc_index(s, i);
            lemma_assoc_index(t, i);
        }
    }
}

/// Replacing the value of an entry replaces it in the map.
pub proof fn lemma_assoc_update<K, V>(s: Seq<(K, V)>, j: int, v: V)
    requires
        keys_unique(s),
        0 <= j < s.len(),
    ensures
        keys_unique(s.update(j, (s[j].0, v))),
        assoc_view(s.update(j, (s[j].0, v))) =~= assoc_view(s).insert(s[j].0, v),
{
    let t = s.update(j, (s[j].0, v));
    assert forall|i: int, l: int| 0 <= i < t.len() && 0 <= l < t.len() && i != l implies t[i].0 != t[l].0 by {
        assert(t[i].0 == s[i].0 && t[l].0 == s[l].0);
    }
    assert forall|x: K| #[trigger] assoc_view(t).contains_key(x) <==> assoc_view(s).insert(s[j].0, v).contains_key(x) by {
        if has_key(t, x) {
            let i = choose|i: int| 0 <= i < t.len() && t[i].0 == x;
            assert(s[i].0 == x);
        }
        if has_key(s, x) {
            let i = choose|i: int| 0 <= i < s.len() && s[i].0 == x;
            assert(t[i].0 == x);
        }
    }
    assert forall|x: K| #[trigger] assoc_view(t).contains_key(x) implies assoc_view(t)[x] == assoc_view(s).insert(s[j].0, v)[x] by {
        let i = choose|i: int| 0 <= i < t.len() && t[i].0 == x;
        lemma_assoc_index(t, i);
        if i != j {
            assert(s[i].0 == x);
            lemma_assoc_index(s, i);
        }
    }
}

/// Removing an entry removes its key from the map.
pub proof fn lemma_assoc_remove<K, V>(s: Seq<(K, V)>, j: int)
    requires
        keys_unique(s),
        0 <= j < s.len(),
    ensures
        keys_unique(s.remove(j)),
        assoc_view(s.remove(j)) =~= assoc_view(s).remove(s[j].0),
{
    let t = s.remove(j);
    assert forall|i: int, l: int| 0 <= i < t.len() && 0 <= l < t.len() && i != l implies t[i].0 != t[l].0 by {
        let i2 = if i < j { i } else { i + 1 };
        let l2 = if l < j { l } else { l + 1 };
        assert(t[i] == s[i2] && t[l] == s[l2]);
    }
    assert forall|x: K| #[trigger] assoc_view(t).contains_key(x) <==> assoc_view(s).remove(s[j].0).contains_key(x) by {
        if has_key(t, x) {
            let i = choose|i: int| 0 <= i < t.len() && t[i].0 == x;
            let i2 = if i < j { i } else { i + 1 };
            assert(t[i] == s[i2]);
            assert(s[i2].0 == x);
        }
        if has_key(s, x) && x != s[j].0 {
            let i = choose|i: int| 0 <= i < s.len() && s[i].0 == x;
            assert(i != j);
            let i2 = if i < j { i } else { i - 1 };
            assert(t[i2] == s[i]);
        }
    }
    assert forall|x: K| #[trigger] assoc_view(t).contains_key(x) implies assoc_view(t)[x] == assoc_view(s).remove(s[j].0)[x] by {
        let i = choose|i: int| 0 <= i < t.len() && t[i].0 == x;
        let i2 = if i < j { i } else { i + 1 };
        assert(t[i] == s[i2]);
        lemma_assoc_index(t, i);
        lemma_assoc_index(s, i2);
    }
}

/// The list has none of its keys equal to `k` where its map does not hold `k`.
pub proof fn lemma_assoc_absent<K, V>(s: Seq<(K, V)>, k: K)
    requires
        forall|i: int| 0 <= i < s.len() ==> s[i].0 != k,
    ensures
        !assoc_view(s).contains_key(k),
{
}

} // verus!
