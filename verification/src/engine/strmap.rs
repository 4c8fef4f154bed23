//! A small ordered map from text keys to values.
//!
//! Entries are kept in a vector, strictly ascending by key in the character
//! order of `text::lex_lt`, so two maps with the same content have the same
//! layout and walking one always visits keys in lexicographic order.

use vstd::prelude::*;
use crate::engine::text::{
    chars_of, lemma_lex_irreflexive, lemma_lex_total, lemma_lex_transitive, less, lex_lt,
    same_text,
};

verus! {

/// Keys ascend strictly from left to right.
pub open spec fn ascending<V>(pairs: Seq<(Seq<char>, V)>) -> bool {
    forall|i: int, j: int|
        0 <= i < j < pairs.len() ==> lex_lt(#[trigger] pairs[i].0, #[trigger] pairs[j].0)
}

/// How many leading entries of `pairs` have a key below `key`.
pub open spec fn rank<V>(pairs: Seq<(Seq<char>, V)>, key: Seq<char>) -> int
    decreases pairs.len(),
{
    if pairs.len() == 0 {
        0
    } else if lex_lt(pairs.last().0, key) {
        pairs.len() as int
    } else {
        rank(pairs.drop_last(), key)
    }
}

/// `key` is one of the keys of `pairs`.
pub open spec fn holds<V>(pairs: Seq<(Seq<char>, V)>, key: Seq<char>) -> bool {
    let r = rank(pairs, key);
    r < pairs.len() && pairs[r].0 == key
}

/// The value stored under `key`, if any.
pub open spec fn lookup<V>(pairs: Seq<(Seq<char>, V)>, key: Seq<char>) -> Option<V> {
    if holds(pairs, key) {
        Some(pairs[rank(pairs, key)].1)
    } else {
        None
    }
}

/// `pairs` after storing `value` under `key`.
pub open spec fn stored<V>(pairs: Seq<(Seq<char>, V)>, key: Seq<char>, value: V) -> Seq<
    (Seq<char>, V),
> {
    if holds(pairs, key) {
        pairs.update(rank(pairs, key), (key, value))
    } else {
        pairs.insert(rank(pairs, key), (key, value))
    }
}

/// `pairs` without the entry for `key`.
pub open spec fn dropped<V>(pairs: Seq<(Seq<char>, V)>, key: Seq<char>) -> Seq<(Seq<char>, V)> {
    if holds(pairs, key) {
        pairs.remove(rank(pairs, key))
    } else {
        pairs
    }
}

/// In an ascending sequence the rank of `key` is the one position `r` with
/// smaller keys before it and no smaller key from it on.
pub proof fn lemma_rank<V>(pairs: Seq<(Seq<char>, V)>, key: Seq<char>, r: int)
    requires
        ascending(pairs),
        0 <= r <= pairs.len(),
        forall|i: int| 0 <= i < r ==> lex_lt(#[trigger] pairs[i].0, key),
        r < pairs.len() ==> !lex_lt(pairs[r].0, key),
    ensures
        rank(pairs, key) == r,
    decreases pairs.len(),
{
    if pairs.len() > 0 {
        let n = pairs.len() - 1;
        if lex_lt(pairs.last().0, key) {
            // every key is below `key` then, so `r` cannot stop short
            if r < n {
                lemma_lex_transitive(pairs[r].0, pairs[n].0, key);
            }
        } else {
            let t = pairs.drop_last();
            assert(r <= n);
            assert forall|i: int, j: int| 0 <= i < j < t.len() implies lex_lt(
                #[trigger] t[i].0,
                #[trigger] t[j].0,
            ) by {
                assert(t[i] == pairs[i] && t[j] == pairs[j]);
            }
            assert forall|i: int| 0 <= i < r implies lex_lt(#[trigger] t[i].0, key) by {
                assert(t[i] == pairs[i]);
            }
            lemma_rank(t, key, r);
        }
    }
}

/// What `rank` means on an ascending sequence.
pub proof fn lemma_rank_bounds<V>(pairs: Seq<(Seq<char>, V)>, key: Seq<char>)
    requires
        ascending(pairs),
    ensures
        0 <= rank(pairs, key) <= pairs.len(),
        forall|i: int| 0 <= i < rank(pairs, key) ==> lex_lt(#[trigger] pairs[i].0, key),
        forall|i: int| rank(pairs, key) <= i < pairs.len() ==> !lex_lt(#[trigger] pairs[i].0, key),
    decreases pairs.len(),
{
    if pairs.len() > 0 {
        let n = pairs.len() - 1;
        let t = pairs.drop_last();
        assert forall|i: int, j: int| 0 <= i < j < t.len() implies lex_lt(
            #[trigger] t[i].0,
            #[trigger] t[j].0,
        ) by {
            assert(t[i] == pairs[i] && t[j] == pairs[j]);
        }
        if lex_lt(pairs.last().0, key) {
            assert forall|i: int| 0 <= i < pairs.len() implies lex_lt(#[trigger] pairs[i].0, key) by {
                if i < n {
                    lemma_lex_transitive(pairs[i].0, pairs[n].0, key);
                }
            }
        } else {
            lemma_rank_bounds(t, key);
            assert forall|i: int| 0 <= i < rank(pairs, key) implies lex_lt(
                #[trigger] pairs[i].0,
                key,
            ) by {
                assert(t[i] == pairs[i]);
            }
            assert forall|i: int| rank(pairs, key) <= i < pairs.len() implies !lex_lt(
                #[trigger] pairs[i].0,
                key,
            ) by {
                if i < n {
                    assert(t[i] == pairs[i]);
                }
            }
        }
    }
}

/// In an ascending sequence a key is held exactly when some entry carries it,
/// and that entry sits at the key's rank.
pub proof fn lemma_holds_at<V>(pairs: Seq<(Seq<char>, V)>, i: int)
    requires
        ascending(pairs),
        0 <= i < pairs.len(),
    ensures
        rank(pairs, pairs[i].0) == i,
        holds(pairs, pairs[i].0),
        lookup(pairs, pairs[i].0) == Some(pairs[i].1),
{
    let key = pairs[i].0;
    lemma_lex_irreflexive(key);
    lemma_rank(pairs, key, i);
}

/// Storing under `key` keeps the keys ascending.
pub proof fn lemma_stored_ascending<V>(pairs: Seq<(Seq<char>, V)>, key: Seq<char>, value: V)
    requires
        ascending(pairs),
    ensures
        ascending(stored(pairs, key, value)),
{
    let r = rank(pairs, key);
    let q = stored(pairs, key, value);
    lemma_rank_bounds(pairs, key);
    if holds(pairs, key) {
        assert forall|i: int, j: int| 0 <= i < j < q.len() implies lex_lt(
            #[trigger] q[i].0,
            #[trigger] q[j].0,
        ) by {
            assert(q[i].0 == pairs[i].0 && q[j].0 == pairs[j].0);
        }
    } else {
        assert forall|i: int, j: int| 0 <= i < j < q.len() implies lex_lt(
            #[trigger] q[i].0,
            #[trigger] q[j].0,
        ) by {
            // the entries from `r` on are above `key`: not below it, and not it
            if r <= j - 1 && j - 1 < pairs.len() {
                lemma_lex_total(pairs[j - 1].0, key);
                if j - 1 > r {
                    assert(lex_lt(pairs[r].0, pairs[j - 1].0));
                }
            }
            if j < r {
                assert(q[i] == pairs[i] && q[j] == pairs[j]);
            } else if j == r {
                assert(q[i] == pairs[i]);
            } else if i == r {
                assert(q[j] == pairs[j - 1]);
            } else if i < r {
                assert(q[i] == pairs[i] && q[j] == pairs[j - 1]);
            } else {
                assert(q[i] == pairs[i - 1] && q[j] == pairs[j - 1]);
            }
        }
    }
}

/// Dropping a key keeps the keys ascending.
pub proof fn lemma_dropped_ascending<V>(pairs: Seq<(Seq<char>, V)>, key: Seq<char>)
    requires
        ascending(pairs),
    ensures
        ascending(dropped(pairs, key)),
{
    let r = rank(pairs, key);
    let q = dropped(pairs, key);
    lemma_rank_bounds(pairs, key);
    if holds(pairs, key) {
        assert forall|i: int, j: int| 0 <= i < j < q.len() implies lex_lt(
            #[trigger] q[i].0,
            #[trigger] q[j].0,
        ) by {
            let a = if i < r { i } else { i + 1 };
            let b = if j < r { j } else { j + 1 };
            assert(q[i] == pairs[a] && q[j] == pairs[b]);
        }
    }
}

/// What a lookup finds after a store.
pub proof fn lemma_lookup_stored<V>(
    pairs: Seq<(Seq<char>, V)>,
    key: Seq<char>,
    value: V,
    other: Seq<char>,
)
    requires
        ascending(pairs),
    ensures
        lookup(stored(pairs, key, value), other) == if other == key {
            Some(value)
        } else {
            lookup(pairs, other)
        },
        holds(stored(pairs, key, value), other) == (other == key || holds(pairs, other)),
{
    let r = rank(pairs, key);
    let q = stored(pairs, key, value);
    lemma_rank_bounds(pairs, key);
    lemma_rank_bounds(pairs, other);
    lemma_stored_ascending(pairs, key, value);
    lemma_lex_irreflexive(key);
    lemma_lex_irreflexive(other);
    let ro = rank(pairs, other);
    if holds(pairs, key) {
        assert forall|i: int| 0 <= i < q.len() implies (#[trigger] q[i]).0 == pairs[i].0 by {}
        assert forall|i: int| 0 <= i < ro implies lex_lt(#[trigger] q[i].0, other) by {
            assert(q[i].0 == pairs[i].0);
        }
        if ro < q.len() {
            assert(q[ro].0 == pairs[ro].0);
        }
        lemma_rank(q, other, ro);
        if other != key && ro < pairs.len() && ro == r {
            assert(pairs[r].0 == key);
        }
    } else {
        if other == key {
            assert forall|i: int| 0 <= i < r implies lex_lt(#[trigger] q[i].0, key) by {
                assert(q[i] == pairs[i]);
            }
            assert(q[r] == (key, value));
            lemma_rank(q, key, r);
        } else {
            lemma_lex_total(other, key);
            if lex_lt(other, key) {
                // every entry below `other` is below `key`, so `ro <= r`
                if r < ro {
                    assert(lex_lt(pairs[r].0, other));
                    lemma_lex_transitive(pairs[r].0, other, key);
                }
                assert forall|i: int| 0 <= i < ro implies lex_lt(#[trigger] q[i].0, other) by {
                    assert(q[i] == pairs[i]);
                }
                if ro < r {
                    assert(q[ro] == pairs[ro]);
                } else {
                    assert(q[ro] == (key, value));
                    if lex_lt(key, other) {
                        lemma_lex_transitive(key, other, key);
                    }
                    if ro < pairs.len() && pairs[ro].0 == other {
                        // then `other` would not be below `key`
                        assert(!lex_lt(pairs[r].0, key));
                    }
                }
                lemma_rank(q, other, ro);
            } else {
                // `key` is below `other`, so `r <= ro`
                if ro < r {
                    assert(lex_lt(pairs[ro].0, key));
                    lemma_lex_transitive(pairs[ro].0, key, other);
                }
                assert forall|i: int| 0 <= i < ro + 1 implies lex_lt(#[trigger] q[i].0, other) by {
                    if i < r {
                        assert(q[i] == pairs[i]);
                        lemma_lex_transitive(pairs[i].0, key, other);
                    } else if i == r {
                        assert(q[i] == (key, value));
                    } else {
                        assert(q[i] == pairs[i - 1]);
                    }
                }
                if ro + 1 < q.len() {
                    assert(q[ro + 1] == pairs[ro]);
                }
                lemma_rank(q, other, ro + 1);
            }
        }
    }
}

/// What a lookup finds after a drop.
pub proof fn lemma_lookup_dropped<V>(pairs: Seq<(Seq<char>, V)>, key: Seq<char>, other: Seq<char>)
    requires
        ascending(pairs),
    ensures
        lookup(dropped(pairs, key), other) == if other == key {
            None
        } else {
            lookup(pairs, other)
        },
        holds(dropped(pairs, key), other) == (other != key && holds(pairs, other)),
{
    let r = rank(pairs, key);
    let q = dropped(pairs, key);
    lemma_rank_bounds(pairs, key);
    lemma_rank_bounds(pairs, other);
    lemma_dropped_ascending(pairs, key);
    lemma_lex_irreflexive(key);
    lemma_lex_irreflexive(other);
    let ro = rank(pairs, other);
    if holds(pairs, key) {
        if other == key {
            assert forall|i: int| 0 <= i < r implies lex_lt(#[trigger] q[i].0, key) by {
                assert(q[i] == pairs[i]);
            }
            if r < q.len() {
                assert(q[r] == pairs[r + 1]);
                assert(lex_lt(pairs[r].0, pairs[r + 1].0));
                if lex_lt(q[r].0, key) {
                    lemma_lex_transitive(key, q[r].0, key);
                }
            }
            lemma_rank(q, key, r);
        } else {
            lemma_lex_total(other, key);
            if lex_lt(other, key) {
                if r < ro {
                    assert(lex_lt(pairs[r].0, other));
                    lemma_lex_transitive(key, other, key);
                }
                assert forall|i: int| 0 <= i < ro implies lex_lt(#[trigger] q[i].0, other) by {
                    assert(q[i] == pairs[i]);
                }
                if ro < r {
                    assert(q[ro] == pairs[ro]);
                } else if ro < q.len() {
                    assert(q[ro] == pairs[ro + 1]);
                    assert(lex_lt(pairs[r].0, pairs[r + 1].0));
                    if lex_lt(q[ro].0, other) {
                        lemma_lex_transitive(key, q[ro].0, other);
                        lemma_lex_transitive(key, other, key);
                    }
                    if q[ro].0 == other {
                        lemma_lex_transitive(key, other, key);
                    }
                }
                lemma_rank(q, other, ro);
            } else {
                // `key` sits at `r` and is below `other`, so `r < ro`
                if ro <= r {
                    assert(!lex_lt(pairs[r].0, other));
                }
                assert forall|i: int| 0 <= i < ro - 1 implies lex_lt(#[trigger] q[i].0, other) by {
                    if i < r {
                        assert(q[i] == pairs[i]);
                    } else {
                        assert(q[i] == pairs[i + 1]);
                    }
                }
                if ro - 1 < q.len() {
                    assert(q[ro - 1] == pairs[ro]);
                }
                lemma_rank(q, other, ro - 1);
            }
        }
    } else {
        if other == key {
        }
    }
}

/// Every entry after a store is the stored one or was there before.
pub proof fn lemma_stored_entries<V>(pairs: Seq<(Seq<char>, V)>, key: Seq<char>, value: V, i: int)
    requires
        0 <= i < stored(pairs, key, value).len(),
    ensures
        stored(pairs, key, value)[i] == (key, value) || pairs.contains(stored(pairs, key, value)[i]),
{
    let r = rank(pairs, key);
    assert(same_keys(pairs, pairs));
    lemma_same_keys(pairs, pairs, key);
    if holds(pairs, key) {
        if i != r {
            assert(pairs[i] == stored(pairs, key, value)[i]);
        }
    } else {
        pairs.insert_ensures(r, (key, value));
        if i < r {
            assert(pairs[i] == stored(pairs, key, value)[i]);
        } else if i > r {
            assert(pairs[i - 1] == stored(pairs, key, value)[i]);
        }
    }
}

/// Storing a key above every key present appends the entry.
pub proof fn lemma_stored_above<V>(pairs: Seq<(Seq<char>, V)>, key: Seq<char>, value: V)
    requires
        ascending(pairs),
        forall|i: int| 0 <= i < pairs.len() ==> lex_lt(#[trigger] pairs[i].0, key),
    ensures
        stored(pairs, key, value) == pairs.push((key, value)),
{
    lemma_rank(pairs, key, pairs.len() as int);
    assert(pairs.insert(pairs.len() as int, (key, value)) =~= pairs.push((key, value)));
}

/// Two sequences that carry the same keys at the same positions.
pub open spec fn same_keys<V, W>(p: Seq<(Seq<char>, V)>, q: Seq<(Seq<char>, W)>) -> bool {
    p.len() == q.len() && forall|i: int| 0 <= i < p.len() ==> (#[trigger] p[i]).0 == q[i].0
}

/// Ranks and membership depend on the keys alone.
pub proof fn lemma_same_keys<V, W>(p: Seq<(Seq<char>, V)>, q: Seq<(Seq<char>, W)>, key: Seq<char>)
    requires
        same_keys(p, q),
    ensures
        0 <= rank(p, key) <= p.len(),
        rank(p, key) == rank(q, key),
        holds(p, key) == holds(q, key),
        ascending(p) == ascending(q),
    decreases p.len(),
{
    if p.len() > 0 {
        assert(p.last().0 == q.last().0) by {
            assert(p[p.len() - 1].0 == q[p.len() - 1].0);
        }
        let pt = p.drop_last();
        let qt = q.drop_last();
        assert(same_keys(pt, qt)) by {
            assert forall|i: int| 0 <= i < pt.len() implies (#[trigger] pt[i]).0 == qt[i].0 by {
                assert(p[i].0 == q[i].0);
            }
        }
        lemma_same_keys(pt, qt, key);
        if rank(p, key) < p.len() {
            assert(p[rank(p, key)].0 == q[rank(p, key)].0);
        }
    }
    if ascending(p) {
        assert forall|i: int, j: int| 0 <= i < j < q.len() implies lex_lt(
            #[trigger] q[i].0,
            #[trigger] q[j].0,
        ) by {
            assert(p[i].0 == q[i].0 && p[j].0 == q[j].0);
        }
    }
    if ascending(q) {
        assert forall|i: int, j: int| 0 <= i < j < p.len() implies lex_lt(
            #[trigger] p[i].0,
            #[trigger] p[j].0,
        ) by {
            assert(p[i].0 == q[i].0 && p[j].0 == q[j].0);
        }
    }
}

/// `q` carries the keys of `p`, each with the image of its value under `f`.
pub open spec fn images<V, W>(
    p: Seq<(Seq<char>, V)>,
    q: Seq<(Seq<char>, W)>,
    f: spec_fn(V) -> W,
) -> bool {
    p.len() == q.len() && forall|i: int| 0 <= i < p.len() ==> #[trigger] q[i] == (p[i].0, f(p[i].1))
}

/// Storing a value and then taking images is storing the value's image.
pub proof fn lemma_images_stored<V, W>(
    p: Seq<(Seq<char>, V)>,
    q: Seq<(Seq<char>, W)>,
    f: spec_fn(V) -> W,
    key: Seq<char>,
    value: V,
)
    requires
        images(p, q, f),
    ensures
        images(stored(p, key, value), stored(q, key, f(value)), f),
{
    assert(same_keys(p, q)) by {
        assert forall|i: int| 0 <= i < p.len() implies (#[trigger] p[i]).0 == q[i].0 by {
            assert(q[i] == (p[i].0, f(p[i].1)));
        }
    }
    lemma_same_keys(p, q, key);
    let r = rank(p, key);
    let a = stored(p, key, value);
    let b = stored(q, key, f(value));
    if holds(p, key) {
        assert forall|i: int| 0 <= i < a.len() implies #[trigger] b[i] == (a[i].0, f(a[i].1)) by {
            if i != r {
                assert(q[i] == (p[i].0, f(p[i].1)));
            }
        }
    } else {
        p.insert_ensures(r, (key, value));
        q.insert_ensures(r, (key, f(value)));
        assert forall|i: int| 0 <= i < a.len() implies #[trigger] b[i] == (a[i].0, f(a[i].1)) by {
            if i < r {
                assert(a[i] == p[i]);
                assert(q[i] == (p[i].0, f(p[i].1)));
            } else if i > r {
                assert(a[i] == p[i - 1]);
                assert(b[i] == q[i - 1]);
                assert(q[i - 1] == (p[i - 1].0, f(p[i - 1].1)));
            }
        }
    }
}

/// The stored entries with each key read as text.
spec fn model<V>(entries: Seq<(String, V)>) -> Seq<(Seq<char>, V)> {
    entries.map_values(|e: (String, V)| (e.0@, e.1))
}

/// An ordered map keyed by text.
#[derive(Debug)]
pub struct StrMap<V> {
    entries: Vec<(String, V)>,
}

impl<V> StrMap<V> {
    /// The entries as (key, value) pairs, in stored order.
    pub closed spec fn pairs(&self) -> Seq<(Seq<char>, V)> {
        model(self.entries@)
    }

    /// The keys ascend strictly.
    #[verifier::type_invariant]
    pub open spec fn wf(&self) -> bool {
        ascending(self.pairs())
    }

    /// An empty map.
    pub fn new() -> (m: Self)
        ensures
            m.pairs() == Seq::<(Seq<char>, V)>::empty(),
            m.wf(),
    {
        let m = StrMap { entries: Vec::new() };
        assert(m.pairs() == Seq::<(Seq<char>, V)>::empty());
        m
    }

    /// The number of entries.
    pub fn len(&self) -> (n: usize)
        ensures
            n == self.pairs().len(),
    {
        self.entries.len()
    }

    /// The position `rank(self.pairs(), key)`.
    fn locate(&self, key: &str) -> (r: usize)
        ensures
            r == rank(self.pairs(), key@),
            r <= self.pairs().len(),
            self.wf(),
    {
        proof {
            use_type_invariant(self);
        }
        let wanted = chars_of(key);
        let mut r: usize = 0;
        let mut found = false;
        while r < self.entries.len() && !found
            invariant
                r <= self.entries.len(),
                wanted@ == key@,
                forall|i: int| 0 <= i < r ==> lex_lt(#[trigger] self.pairs()[i].0, key@),
                found ==> r < self.entries.len() && !lex_lt(self.pairs()[r as int].0, key@),
            decreases self.entries.len() - r, if found { 0int } else { 1int },
        {
            let here = chars_of(self.entries[r].0.as_str());
            assert(here@ == self.pairs()[r as int].0);
            if less(&here, &wanted) {
                r += 1;
            } else {
                found = true;
            }
        }
        proof {
            lemma_rank(self.pairs(), key@, r as int);
        }
        r
    }

    /// Tests whether the map has no entries.
    pub fn is_empty(&self) -> (b: bool)
        ensures
            b == (self.pairs().len() == 0),
    {
        self.entries.len() == 0
    }

    /// Tests whether `key` is present.
    pub fn contains_key(&self, key: &str) -> (b: bool)
        ensures
            b == holds(self.pairs(), key@),
    {
        let r = self.locate(key);
        if r < self.entries.len() {
            assert(self.pairs()[r as int].0 == self.entries@[r as int].0@);
            same_text(self.entries[r].0.as_str(), key)
        } else {
            false
        }
    }

    /// The value stored under `key`.
    pub fn get(&self, key: &str) -> (v: Option<&V>)
        ensures
            match v {
                Some(found) => lookup(self.pairs(), key@) == Some(*found),
                None => lookup(self.pairs(), key@).is_none(),
            },
    {
        let r = self.locate(key);
        if r < self.entries.len() {
            assert(self.pairs()[r as int] == (self.entries@[r as int].0@, self.entries@[r as int].1));
            if same_text(self.entries[r].0.as_str(), key) {
                return Some(&self.entries[r].1);
            }
        }
        None
    }

    /// The key at position `i` of the ascending order.
    pub fn key_at(&self, i: usize) -> (k: &String)
        requires
            i < self.pairs().len(),
        ensures
            k@ == self.pairs()[i as int].0,
    {
        &self.entries[i].0
    }

    /// The value at position `i` of the ascending order.
    pub fn value_at(&self, i: usize) -> (v: &V)
        requires
            i < self.pairs().len(),
        ensures
            *v == self.pairs()[i as int].1,
    {
        &self.entries[i].1
    }

    /// Stores `value` under `key` and hands back what was stored there before.
    pub fn insert(&mut self, key: String, value: V) -> (previous: Option<V>)
        ensures
            final(self).pairs() == stored(old(self).pairs(), key@, value),
            previous == lookup(old(self).pairs(), key@),
            final(self).wf(),
    {
        let r = self.locate(key.as_str());
        let ghost before = self.pairs();
        proof {
            lemma_stored_ascending(before, key@, value);
        }
        let mut entries: Vec<(String, V)> = Vec::new();
        assert(model(entries@) =~= Seq::<(Seq<char>, V)>::empty());
        std::mem::swap(&mut self.entries, &mut entries);
        let mut previous: Option<V> = None;
        if r < entries.len() {
            assert(before[r as int] == (entries@[r as int].0@, entries@[r as int].1));
            if same_text(entries[r].0.as_str(), key.as_str()) {
                let gone = entries.remove(r);
                assert(model(entries@) =~= before.remove(r as int));
                previous = Some(gone.1);
            }
        }
        let ghost between = model(entries@);
        entries.insert(r, (key, value));
        assert(model(entries@) =~= between.insert(r as int, (key@, value)));
        assert(model(entries@) =~= stored(before, key@, value));
        self.entries = entries;
        previous
    }

    /// Removes the entry for `key` and hands back its value.
    pub fn remove(&mut self, key: &str) -> (previous: Option<V>)
        ensures
            final(self).pairs() == dropped(old(self).pairs(), key@),
            previous == lookup(old(self).pairs(), key@),
            final(self).wf(),
    {
        let r = self.locate(key);
        let ghost before = self.pairs();
        proof {
            lemma_dropped_ascending(before, key@);
        }
        if r < self.entries.len() {
            assert(before[r as int] == (self.entries@[r as int].0@, self.entries@[r as int].1));
            if same_text(self.entries[r].0.as_str(), key) {
                let mut entries: Vec<(String, V)> = Vec::new();
                assert(model(entries@) =~= Seq::<(Seq<char>, V)>::empty());
                std::mem::swap(&mut self.entries, &mut entries);
                let gone = entries.remove(r);
                assert(model(entries@) =~= before.remove(r as int));
                self.entries = entries;
                return Some(gone.1);
            }
        }
        None
    }
}

impl<V: Clone> Clone for StrMap<V> {
    /// A map with the same keys, each with a clone of its value.
    fn clone(&self) -> (r: Self)
        ensures
            same_keys(self.pairs(), r.pairs()),
            forall|i: int|
                0 <= i < self.pairs().len() ==> cloned::<V>(
                    (#[trigger] self.pairs()[i]).1,
                    r.pairs()[i].1,
                ),
    {
        proof {
            use_type_invariant(self);
        }
        let mut entries: Vec<(String, V)> = Vec::new();
        let mut i: usize = 0;
        while i < self.entries.len()
            invariant
                i <= self.entries.len(),
                entries@.len() == i,
                forall|k: int|
                    0 <= k < i ==> (#[trigger] entries@[k]).0@ == self.entries@[k].0@ && cloned::<V>(
                        self.entries@[k].1,
                        entries@[k].1,
                    ),
            decreases self.entries.len() - i,
        {
            let key = self.entries[i].0.clone();
            let value = self.entries[i].1.clone();
            entries.push((key, value));
            i += 1;
        }
        proof {
            assert(same_keys(self.pairs(), model(entries@))) by {
                assert forall|k: int| 0 <= k < self.pairs().len() implies (
                #[trigger] self.pairs()[k]).0 == model(entries@)[k].0 by {
                    assert(entries@[k].0@ == self.entries@[k].0@);
                }
            }
            lemma_same_keys(self.pairs(), model(entries@), Seq::empty());
            assert forall|k: int| 0 <= k < self.pairs().len() implies cloned::<V>(
                (#[trigger] self.pairs()[k]).1,
                model(entries@)[k].1,
            ) by {
                assert(cloned::<V>(self.entries@[k].1, entries@[k].1));
            }
        }
        StrMap { entries }
    }
}

} // verus!
