//! A sequence of entries with distinct keys, read as a map from key to entry.
//! The collections of this library keep their entries in a `Vec`; this is
//! what their views rest on.

use vstd::prelude::*;

verus! {

/// No two entries have the same key.
pub open spec fn keys_distinct<E, K>(s: Seq<E>, key_of: spec_fn(E) -> K) -> bool {
    forall|i: int, j: int| 0 <= i < j < s.len() ==> key_of(s[i]) != key_of(s[j])
}

/// Some entry has the key `key`.
pub open spec fn holds<E, K>(s: Seq<E>, key_of: spec_fn(E) -> K, key: K) -> bool {
    exists|i: int| 0 <= i < s.len() && key_of(#[trigger] s[i]) == key
}

/// Where the entry with the key `key` stands.
pub open spec fn position<E, K>(s: Seq<E>, key_of: spec_fn(E) -> K, key: K) -> int {
    choose|i: int| 0 <= i < s.len() && key_of(#[trigger] s[i]) == key
}

/// The entries as a map from their keys.
pub open spec fn as_map<E, K>(s: Seq<E>, key_of: spec_fn(E) -> K) -> Map<K, E> {
    Map::new(|key: K| holds(s, key_of, key), |key: K| s[position(s, key_of, key)])
}

pub proof fn lemma_as_map_index<E, K>(s: Seq<E>, key_of: spec_fn(E) -> K, i: int)
    requires
        keys_distinct(s, key_of),
        0 <= i < s.len(),
    ensures
        as_map(s, key_of).contains_key(key_of(s[i])),
        as_map(s, key_of)[key_of(s[i])] == s[i],
{
    let key = key_of(s[i]);
    assert(holds(s, key_of, key));
    let p = position(s, key_of, key);
    assert(p == i) by {
        if p < i {
            assert(key_of(s[p]) != key_of(s[i]));
        } else if i < p {
            assert(key_of(s[i]) != key_of(s[p]));
        }
    }
}

pub proof fn lemma_as_map_push<E, K>(s: Seq<E>, key_of: spec_fn(E) -> K, e: E)
    requires
        keys_distinct(s, key_of),
        !holds(s, key_of, key_of(e)),
    ensures
        keys_distinct(s.push(e), key_of),
        as_map(s.push(e), key_of) == as_map(s, key_of).insert(key_of(e), e),
{
    let t = s.push(e);
    assert forall|i: int, j: int| 0 <= i < j < t.len() implies key_of(t[i]) != key_of(t[j]) by {
        if j == s.len() {
            assert(t[i] == s[i]);
            if key_of(s[i]) == key_of(e) {
                assert(holds(s, key_of, key_of(e)));
            }
        } else {
            assert(t[i] == s[i] && t[j] == s[j]);
        }
    }
    assert forall|key: K| #[trigger]
        as_map(t, key_of).contains_key(key) == as_map(s, key_of).insert(key_of(e), e).contains_key(key) by {
        if holds(t, key_of, key) {
            let i = position(t, key_of, key);
            if i < s.len() {
                assert(s[i] == t[i]);
                assert(holds(s, key_of, key));
            }
        }
        if holds(s, key_of, key) {
            let i = position(s, key_of, key);
            assert(t[i] == s[i]);
            assert(holds(t, key_of, key));
        }
        if key == key_of(e) {
            assert(t[s.len() as int] == e);
            assert(holds(t, key_of, key));
        }
    }
    assert forall|key: K| #[trigger] as_map(t, key_of).contains_key(key) implies as_map(t, key_of)[key] == as_map(s, key_of).insert(key_of(e), e)[key] by {
        if key == key_of(e) {
            assert(t[s.len() as int] == e);
            lemma_as_map_index(t, key_of, s.len() as int);
        } else {
            let i = position(s, key_of, key);
            assert(t[i] == s[i]);
            lemma_as_map_index(t, key_of, i);
            lemma_as_map_index(s, key_of, i);
        }
    }
    assert(as_map(t, key_of) =~= as_map(s, key_of).insert(key_of(e), e));
}

pub proof fn lemma_as_map_update<E, K>(s: Seq<E>, key_of: spec_fn(E) -> K, i: int, e: E)
    requires
        keys_distinct(s, key_of),
        0 <= i < s.len(),
        key_of(s[i]) == key_of(e),
    ensures
        keys_distinct(s.update(i, e), key_of),
        as_map(s.update(i, e), key_of) == as_map(s, key_of).insert(key_of(e), e),
{
    let t = s.update(i, e);
    assert forall|a: int, b: int| 0 <= a < b < t.len() implies key_of(t[a]) != key_of(t[b]) by {
        assert(key_of(t[a]) == key_of(s[a]));
        assert(key_of(t[b]) == key_of(s[b]));
    }
    assert forall|key: K| #[trigger]
        as_map(t, key_of).contains_key(key) == as_map(s, key_of).insert(key_of(e), e).contains_key(key) by {
        if holds(t, key_of, key) {
            let p = position(t, key_of, key);
            assert(key_of(s[p]) == key_of(t[p]));
            assert(holds(s, key_of, key));
        }
        if holds(s, key_of, key) {
            let p = position(s, key_of, key);
            assert(key_of(s[p]) == key_of(t[p]));
            assert(holds(t, key_of, key));
        }
        if key == key_of(e) {
            assert(t[i] == e);
            assert(holds(t, key_of, key));
        }
    }
    assert forall|key: K| #[trigger] as_map(t, key_of).contains_key(key) implies as_map(t, key_of)[key] == as_map(s, key_of).insert(key_of(e), e)[key] by {
        if key == key_of(e) {
            assert(t[i] == e);
            lemma_as_map_index(t, key_of, i);
        } else {
            let p = position(s, key_of, key);
            assert(p != i);
            assert(t[p] == s[p]);
            lemma_as_map_index(t, key_of, p);
            lemma_as_map_index(s, key_of, p);
        }
    }
    assert(as_map(t, key_of) =~= as_map(s, key_of).insert(key_of(e), e));
}

pub proof fn lemma_as_map_remove<E, K>(s: Seq<E>, key_of: spec_fn(E) -> K, i: int)
    requires
        keys_distinct(s, key_of),
        0 <= i < s.len(),
    ensures
        keys_distinct(s.remove(i), key_of),
        as_map(s.remove(i), key_of) == as_map(s, key_of).remove(key_of(s[i])),
{
    let t = s.remove(i);
    let gone = key_of(s[i]);
    assert forall|a: int| 0 <= a < t.len() implies #[trigger] t[a] == s[if a < i {
        a
    } else {
        a + 1
    }] by {}
    assert forall|a: int, b: int| 0 <= a < b < t.len() implies key_of(t[a]) != key_of(t[b]) by {
        let a2 = if a < i { a } else { a + 1 };
        let b2 = if b < i { b } else { b + 1 };
        assert(t[a] == s[a2] && t[b] == s[b2]);
    }
    assert forall|key: K| #[trigger]
        as_map(t, key_of).contains_key(key) == as_map(s, key_of).remove(gone).contains_key(key) by {
        if holds(t, key_of, key) {
            let p = position(t, key_of, key);
            let p2 = if p < i { p } else { p + 1 };
            assert(t[p] == s[p2]);
            assert(holds(s, key_of, key));
            if key == gone {
                if p2 < i {
                    assert(key_of(s[p2]) != key_of(s[i]));
                } else {
                    assert(key_of(s[i]) != key_of(s[p2]));
                }
            }
        }
        if holds(s, key_of, key) && key != gone {
            let p = position(s, key_of, key);
            let p2 = if p < i { p } else { p - 1 };
            assert(t[p2] == s[p]);
            assert(holds(t, key_of, key));
        }
    }
    assert forall|key: K| #[trigger] as_map(t, key_of).contains_key(key) implies as_map(t, key_of)[key] == as_map(s, key_of).remove(gone)[key] by {
        let p = position(s, key_of, key);
        let p2 = if p < i { p } else { p - 1 };
        assert(t[p2] == s[p]);
        lemma_as_map_index(t, key_of, p2);
        lemma_as_map_index(s, key_of, p);
    }
    assert(as_map(t, key_of) =~= as_map(s, key_of).remove(gone));
}

/// With distinct keys, the map has as many keys as there are entries.
pub proof fn lemma_as_map_len<E, K>(s: Seq<E>, key_of: spec_fn(E) -> K)
    requires
        keys_distinct(s, key_of),
    ensures
        as_map(s, key_of).dom().finite(),
        as_map(s, key_of).dom().len() == s.len(),
    decreases s.len(),
{
    if s.len() == 0 {
        assert(as_map(s, key_of).dom() =~= Set::empty());
    } else {
        let init = s.drop_last();
        let e = s.last();
        assert(keys_distinct(init, key_of)) by {
            assert forall|i: int, j: int| 0 <= i < j < init.len() implies key_of(init[i])
                != key_of(init[j]) by {
                assert(init[i] == s[i] && init[j] == s[j]);
            }
        }
        assert(!holds(init, key_of, key_of(e))) by {
            if holds(init, key_of, key_of(e)) {
                let p = position(init, key_of, key_of(e));
                assert(init[p] == s[p]);
                assert(key_of(s[p]) != key_of(s[s.len() - 1]));
            }
        }
        lemma_as_map_len(init, key_of);
        lemma_as_map_push(init, key_of, e);
        assert(init.push(e) =~= s);
        assert(as_map(s, key_of).dom() =~= as_map(init, key_of).dom().insert(key_of(e)));
        assert(!as_map(init, key_of).dom().contains(key_of(e)));
    }
}

} // verus!
