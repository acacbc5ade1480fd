use crate::order::{lemma_lex_asymmetric, lemma_lex_irreflexive, lemma_lex_total, lemma_lex_transitive, lex_lt};
use vstd::prelude::*;

verus! {

/// Whether `pairs` lists `m`: every pair of `m` exactly once, in strictly
/// increasing lexicographic order of the keys.
pub open spec fn is_sorted_listing(
    pairs: Seq<(Seq<char>, Seq<char>)>,
    m: Map<Seq<char>, Seq<char>>,
) -> bool {
    &&& forall|i: int, j: int|
        0 <= i < j < pairs.len() ==> lex_lt((#[trigger] pairs[i]).0, (#[trigger] pairs[j]).0)
    &&& forall|i: int|
        0 <= i < pairs.len() ==> m.contains_pair((#[trigger] pairs[i]).0, pairs[i].1)
    &&& forall|k: Seq<char>| #[trigger]
        m.contains_key(k) ==> exists|i: int| 0 <= i < pairs.len() && (#[trigger] pairs[i]).0 == k
}

/// The pairs of `m` in strictly increasing lexicographic order of the
/// keys. It is meant for a finite `m`, which has exactly one such listing.
pub open spec fn sorted_listing(m: Map<Seq<char>, Seq<char>>) -> Seq<(Seq<char>, Seq<char>)> {
    choose|pairs: Seq<(Seq<char>, Seq<char>)>| is_sorted_listing(pairs, m)
}

/// What is left of a sorted listing without its first pair lists the map
/// without that pair's key.
proof fn lemma_listing_tail(pairs: Seq<(Seq<char>, Seq<char>)>, m: Map<Seq<char>, Seq<char>>)
    requires
        is_sorted_listing(pairs, m),
        pairs.len() > 0,
    ensures
        is_sorted_listing(pairs.drop_first(), m.remove(pairs[0].0)),
{
    let tail = pairs.drop_first();
    let rest = m.remove(pairs[0].0);
    assert forall|i: int, j: int| 0 <= i < j < tail.len() implies lex_lt(
        (#[trigger] tail[i]).0,
        (#[trigger] tail[j]).0,
    ) by {
        assert(tail[i] == pairs[i + 1]);
        assert(tail[j] == pairs[j + 1]);
    }
    assert forall|i: int| 0 <= i < tail.len() implies rest.contains_pair(
        (#[trigger] tail[i]).0,
        tail[i].1,
    ) by {
        assert(tail[i] == pairs[i + 1]);
        assert(lex_lt(pairs[0].0, pairs[i + 1].0));
        lemma_lex_irreflexive(pairs[0].0);
    }
    assert forall|k: Seq<char>| #[trigger] rest.contains_key(k) implies exists|i: int|
        0 <= i < tail.len() && (#[trigger] tail[i]).0 == k by {
        assert(m.contains_key(k));
        let i = choose|i: int| 0 <= i < pairs.len() && (#[trigger] pairs[i]).0 == k;
        assert(tail[i - 1] == pairs[i]);
    }
}

/// A map has at most one sorted listing.
pub proof fn lemma_sorted_listing_unique(
    a: Seq<(Seq<char>, Seq<char>)>,
    b: Seq<(Seq<char>, Seq<char>)>,
    m: Map<Seq<char>, Seq<char>>,
)
    requires
        is_sorted_listing(a, m),
        is_sorted_listing(b, m),
    ensures
        a == b,
    decreases a.len(),
{
    if a.len() == 0 {
        if b.len() > 0 {
            assert(m.contains_key(b[0].0));
        }
        assert(a =~= b);
    } else {
        assert(m.contains_key(a[0].0));
        let i = choose|i: int| 0 <= i < b.len() && (#[trigger] b[i]).0 == a[0].0;
        assert(m.contains_key(b[0].0));
        let j = choose|j: int| 0 <= j < a.len() && (#[trigger] a[j]).0 == b[0].0;
        lemma_lex_asymmetric(a[0].0, b[0].0);
        lemma_lex_irreflexive(a[0].0);
        if i > 0 {
            assert(lex_lt(b[0].0, b[i].0));
        }
        if j > 0 {
            assert(lex_lt(a[0].0, a[j].0));
        }
        assert(a[0].0 == b[0].0);
        assert(a[0].1 == m[a[0].0]);
        assert(b[0].1 == m[b[0].0]);
        assert(a[0] == b[0]);
        lemma_listing_tail(a, m);
        lemma_listing_tail(b, m);
        lemma_sorted_listing_unique(a.drop_first(), b.drop_first(), m.remove(a[0].0));
        assert(a =~= seq![a[0]] + a.drop_first());
        assert(b =~= seq![b[0]] + b.drop_first());
    }
}

/// A sorted listing of a map is the map's sorted listing.
pub proof fn lemma_sorted_listing_is(
    pairs: Seq<(Seq<char>, Seq<char>)>,
    m: Map<Seq<char>, Seq<char>>,
)
    requires
        is_sorted_listing(pairs, m),
    ensures
        sorted_listing(m) == pairs,
{
    lemma_sorted_listing_unique(sorted_listing(m), pairs, m);
}

/// `pairs` with `key` bound to `value` at index `at`: in place of the pair
/// that stands there, where that pair has the same key, and before it
/// otherwise.
pub open spec fn listing_put(
    pairs: Seq<(Seq<char>, Seq<char>)>,
    at: int,
    key: Seq<char>,
    value: Seq<char>,
) -> Seq<(Seq<char>, Seq<char>)> {
    if at < pairs.len() && pairs[at].0 == key {
        pairs.update(at, (key, value))
    } else {
        pairs.insert(at, (key, value))
    }
}

/// Binding a key at its place in a sorted listing gives the sorted listing
/// of the map with that binding inserted. The place is the index of the first
/// pair whose key does not come before `key`.
pub proof fn lemma_listing_put(
    pairs: Seq<(Seq<char>, Seq<char>)>,
    m: Map<Seq<char>, Seq<char>>,
    at: int,
    key: Seq<char>,
    value: Seq<char>,
)
    requires
        is_sorted_listing(pairs, m),
        0 <= at <= pairs.len(),
        forall|i: int| 0 <= i < at ==> lex_lt((#[trigger] pairs[i]).0, key),
        at < pairs.len() ==> !lex_lt(pairs[at].0, key),
    ensures
        is_sorted_listing(listing_put(pairs, at, key, value), m.insert(key, value)),
{
    let out = listing_put(pairs, at, key, value);
    let m2 = m.insert(key, value);
    let replaced = at < pairs.len() && pairs[at].0 == key;
    if at < pairs.len() {
        lemma_lex_total(pairs[at].0, key);
    }
    // Where each index of `out` comes from.
    assert forall|i: int| 0 <= i < out.len() && i != at implies #[trigger] out[i] == pairs[if i
        < at || replaced {
        i
    } else {
        i - 1
    }] by {}
    assert(out[at] == (key, value));
    assert forall|i: int| at < i < out.len() implies lex_lt(key, (#[trigger] out[i]).0) by {
        let src = if replaced {
            i
        } else {
            i - 1
        };
        assert(out[i] == pairs[src]);
        if src > at {
            assert(lex_lt(pairs[at].0, pairs[src].0));
            if !replaced {
                lemma_lex_transitive(key, pairs[at].0, pairs[src].0);
            }
        }
    }
    assert forall|i: int, j: int| 0 <= i < j < out.len() implies lex_lt(
        (#[trigger] out[i]).0,
        (#[trigger] out[j]).0,
    ) by {
        if i == at {
        } else if j == at {
            assert(out[i] == pairs[i]);
        } else {
            let si = if i < at || replaced {
                i
            } else {
                i - 1
            };
            let sj = if j < at || replaced {
                j
            } else {
                j - 1
            };
            assert(out[i] == pairs[si]);
            assert(out[j] == pairs[sj]);
            assert(lex_lt(pairs[si].0, pairs[sj].0));
        }
    }
    assert forall|i: int| 0 <= i < out.len() implies m2.contains_pair(
        (#[trigger] out[i]).0,
        out[i].1,
    ) by {
        if i != at {
            let si = if i < at || replaced {
                i
            } else {
                i - 1
            };
            assert(out[i] == pairs[si]);
            lemma_lex_irreflexive(key);
            if i < at {
                assert(lex_lt(pairs[i].0, key));
            } else {
                assert(lex_lt(key, out[i].0));
            }
        }
    }
    assert forall|k: Seq<char>| #[trigger] m2.contains_key(k) implies exists|i: int|
        0 <= i < out.len() && (#[trigger] out[i]).0 == k by {
        if k == key {
            assert(out[at].0 == k);
        } else {
            assert(m.contains_key(k));
            let s = choose|s: int| 0 <= s < pairs.len() && (#[trigger] pairs[s]).0 == k;
            let i = if s < at || replaced {
                s
            } else {
                s + 1
            };
            assert(out[i] == pairs[s]);
        }
    }
}

/// A sorted listing without one of its pairs lists the map without that
/// pair's key.
pub proof fn lemma_listing_remove(
    pairs: Seq<(Seq<char>, Seq<char>)>,
    m: Map<Seq<char>, Seq<char>>,
    at: int,
)
    requires
        is_sorted_listing(pairs, m),
        0 <= at < pairs.len(),
    ensures
        is_sorted_listing(pairs.remove(at), m.remove(pairs[at].0)),
{
    let out = pairs.remove(at);
    let key = pairs[at].0;
    let m2 = m.remove(key);
    lemma_lex_irreflexive(key);
    assert forall|i: int| 0 <= i < out.len() implies #[trigger] out[i] == pairs[if i < at {
        i
    } else {
        i + 1
    }] by {}
    assert forall|i: int, j: int| 0 <= i < j < out.len() implies lex_lt(
        (#[trigger] out[i]).0,
        (#[trigger] out[j]).0,
    ) by {
        let si = if i < at {
            i
        } else {
            i + 1
        };
        let sj = if j < at {
            j
        } else {
            j + 1
        };
        assert(out[i] == pairs[si]);
        assert(out[j] == pairs[sj]);
        assert(lex_lt(pairs[si].0, pairs[sj].0));
    }
    assert forall|i: int| 0 <= i < out.len() implies m2.contains_pair(
        (#[trigger] out[i]).0,
        out[i].1,
    ) by {
        let si = if i < at {
            i
        } else {
            i + 1
        };
        assert(out[i] == pairs[si]);
        if si < at {
            assert(lex_lt(pairs[si].0, pairs[at].0));
        } else {
            assert(lex_lt(pairs[at].0, pairs[si].0));
        }
    }
    assert forall|k: Seq<char>| #[trigger] m2.contains_key(k) implies exists|i: int|
        0 <= i < out.len() && (#[trigger] out[i]).0 == k by {
        assert(m.contains_key(k));
        let s = choose|s: int| 0 <= s < pairs.len() && (#[trigger] pairs[s]).0 == k;
        let i = if s < at {
            s
        } else {
            s - 1
        };
        assert(out[i] == pairs[s]);
    }
}

/// The index in `pairs` of the first pair whose key does not come before
/// `key`; the length of `pairs` when every key does.
pub open spec fn place_of(pairs: Seq<(Seq<char>, Seq<char>)>, key: Seq<char>) -> int
    decreases pairs.len(),
{
    if pairs.len() == 0 || !lex_lt(pairs[0].0, key) {
        0
    } else {
        1 + place_of(pairs.drop_first(), key)
    }
}

/// `place_of` is where `lemma_listing_put` wants a key bound.
pub proof fn lemma_place_of(pairs: Seq<(Seq<char>, Seq<char>)>, key: Seq<char>)
    ensures
        0 <= place_of(pairs, key) <= pairs.len(),
        forall|i: int| 0 <= i < place_of(pairs, key) ==> lex_lt((#[trigger] pairs[i]).0, key),
        place_of(pairs, key) < pairs.len() ==> !lex_lt(pairs[place_of(pairs, key)].0, key),
    decreases pairs.len(),
{
    if pairs.len() > 0 && lex_lt(pairs[0].0, key) {
        let tail = pairs.drop_first();
        lemma_place_of(tail, key);
        assert forall|i: int| 0 <= i < place_of(pairs, key) implies lex_lt(
            (#[trigger] pairs[i]).0,
            key,
        ) by {
            if i > 0 {
                assert(pairs[i] == tail[i - 1]);
            }
        }
        if place_of(pairs, key) < pairs.len() {
            assert(pairs[place_of(pairs, key)] == tail[place_of(tail, key)]);
        }
    }
}

/// Whether `m` has a sorted listing, as every finite map has.
pub open spec fn has_sorted_listing(m: Map<Seq<char>, Seq<char>>) -> bool {
    exists|pairs: Seq<(Seq<char>, Seq<char>)>| is_sorted_listing(pairs, m)
}

/// The sorted listing of a map that has one is sorted and lists the map.
pub proof fn lemma_sorted_listing_lists(m: Map<Seq<char>, Seq<char>>)
    requires
        has_sorted_listing(m),
    ensures
        is_sorted_listing(sorted_listing(m), m),
{
}

/// The empty map has a sorted listing: the empty one.
pub proof fn lemma_empty_has_listing()
    ensures
        has_sorted_listing(Map::<Seq<char>, Seq<char>>::empty()),
{
    assert(is_sorted_listing(Seq::empty(), Map::<Seq<char>, Seq<char>>::empty()));
}

/// A map with a sorted listing still has one after a binding is inserted.
pub proof fn lemma_insert_has_listing(
    m: Map<Seq<char>, Seq<char>>,
    key: Seq<char>,
    value: Seq<char>,
)
    requires
        has_sorted_listing(m),
    ensures
        has_sorted_listing(m.insert(key, value)),
{
    let pairs = sorted_listing(m);
    lemma_place_of(pairs, key);
    lemma_listing_put(pairs, m, place_of(pairs, key), key, value);
}

/// A map with a sorted listing still has one after a key is removed.
pub proof fn lemma_remove_has_listing(m: Map<Seq<char>, Seq<char>>, key: Seq<char>)
    requires
        has_sorted_listing(m),
    ensures
        has_sorted_listing(m.remove(key)),
{
    let pairs = sorted_listing(m);
    if m.contains_key(key) {
        let at = choose|i: int| 0 <= i < pairs.len() && (#[trigger] pairs[i]).0 == key;
        lemma_listing_remove(pairs, m, at);
    } else {
        assert(m.remove(key) =~= m);
    }
}

} // verus!
