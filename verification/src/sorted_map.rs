//! A map that keeps its entries in key order.

use vstd::prelude::*;

use crate::order::{Duplicate, Key, Rel, Same};

verus! {

/// Whether `s` spells out `m` in key order: every entry once, keys strictly
/// ascending.
pub open spec fn is_listing<K: Key, V>(s: Seq<(K::V, V)>, m: Map<K::V, V>) -> bool {
    &&& forall|i: int, j: int|
        0 <= i < j < s.len() ==> #[trigger] K::before((#[trigger] s[i]).0, (#[trigger] s[j]).0)
    &&& forall|i: int|
        0 <= i < s.len() ==> m.contains_key((#[trigger] s[i]).0) && m[s[i].0] == s[i].1
    &&& forall|k: K::V| #[trigger]
        m.contains_key(k) ==> exists|i: int| 0 <= i < s.len() && (#[trigger] s[i]).0 == k
}

/// The entries of a finite map, in key order.
pub open spec fn listing<K: Key, V>(m: Map<K::V, V>) -> Seq<(K::V, V)> {
    choose|s: Seq<(K::V, V)>| is_listing::<K, V>(s, m)
}

/// The map that inserting the pairs of `s` one after the other yields.
pub open spec fn map_of<A, V>(s: Seq<(A, V)>) -> Map<A, V>
    decreases s.len(),
{
    if s.len() == 0 {
        Map::empty()
    } else {
        map_of(s.drop_last()).insert(s.last().0, s.last().1)
    }
}

/// Whether the keys of `s` strictly ascend.
pub open spec fn ascends<K: Key, V>(s: Seq<(K::V, V)>) -> bool {
    forall|i: int, j: int|
        0 <= i < j < s.len() ==> #[trigger] K::before((#[trigger] s[i]).0, (#[trigger] s[j]).0)
}

pub proof fn lemma_map_of_finite<A, V>(s: Seq<(A, V)>)
    ensures
        map_of(s).dom().finite(),
    decreases s.len(),
{
    if s.len() > 0 {
        lemma_map_of_finite(s.drop_last());
    }
}

/// Each value of a map is that of one of the pairs that spell it.
proof fn lemma_map_of_value<A, V>(s: Seq<(A, V)>, k: A)
    requires
        map_of(s).contains_key(k),
    ensures
        exists|i: int| 0 <= i < s.len() && #[trigger] s[i] == (k, map_of(s)[k]),
    decreases s.len(),
{
    let rest = s.drop_last();
    if s.last().0 == k {
        assert(s[s.len() - 1] == (k, map_of(s)[k]));
    } else {
        lemma_map_of_value(rest, k);
        let i = choose|i: int| 0 <= i < rest.len() && #[trigger] rest[i] == (k, map_of(rest)[k]);
        assert(s[i] == rest[i]);
    }
}

/// Pairs with ascending keys list the map they spell.
pub proof fn lemma_map_of_listing<K: Key, V>(s: Seq<(K::V, V)>)
    requires
        ascends::<K, V>(s),
    ensures
        is_listing::<K, V>(s, map_of(s)),
        map_of(s).dom().finite(),
        map_of(s).len() == s.len(),
    decreases s.len(),
{
    if s.len() > 0 {
        let rest = s.drop_last();
        let m = map_of(rest);
        assert forall|i: int, j: int| 0 <= i < j < rest.len() implies #[trigger] K::before(
            (#[trigger] rest[i]).0,
            (#[trigger] rest[j]).0,
        ) by {
            assert(rest[i] == s[i] && rest[j] == s[j]);
        }
        lemma_map_of_listing::<K, V>(rest);
        let last = s.last();
        if m.contains_key(last.0) {
            let i = choose|i: int| 0 <= i < rest.len() && (#[trigger] rest[i]).0 == last.0;
            assert(K::before(s[i].0, s[s.len() - 1].0));
            K::irreflexive(last.0);
        }
        assert forall|i: int| 0 <= i < s.len() implies map_of(s).contains_key((#[trigger] s[i]).0)
            && map_of(s)[s[i].0] == s[i].1 by {
            if i < rest.len() {
                assert(rest[i] == s[i]);
                assert(K::before(s[i].0, s[s.len() - 1].0));
                K::irreflexive(last.0);
            }
        }
        assert forall|k: K::V| #[trigger] map_of(s).contains_key(k) implies exists|i: int|
            0 <= i < s.len() && (#[trigger] s[i]).0 == k by {
            if k == last.0 {
                assert(s[s.len() - 1].0 == k);
            } else {
                let i = choose|i: int| 0 <= i < rest.len() && (#[trigger] rest[i]).0 == k;
                assert(s[i].0 == k);
            }
        }
    }
}

/// Two listings of one map agree on every position both have.
proof fn lemma_listing_agrees<K: Key, V>(
    s: Seq<(K::V, V)>,
    t: Seq<(K::V, V)>,
    m: Map<K::V, V>,
    n: int,
)
    requires
        is_listing::<K, V>(s, m),
        is_listing::<K, V>(t, m),
        0 <= n <= s.len(),
    ensures
        n <= t.len(),
        forall|i: int| 0 <= i < n ==> s[i] == t[i],
    decreases n,
{
    if n > 0 {
        lemma_listing_agrees::<K, V>(s, t, m, n - 1);
        let i = n - 1;
        let p = choose|p: int| 0 <= p < t.len() && (#[trigger] t[p]).0 == s[i].0;
        if p < i {
            assert(s[p] == t[p]);
            assert(K::before(s[p].0, s[i].0));
            K::irreflexive(s[i].0);
        }
        if p > i {
            assert(K::before(t[i].0, t[p].0));
            let q = choose|q: int| 0 <= q < s.len() && (#[trigger] s[q]).0 == t[i].0;
            if q < i {
                assert(s[q] == t[q]);
                assert(K::before(t[q].0, t[i].0));
                K::irreflexive(t[i].0);
            } else if q > i {
                assert(K::before(s[i].0, s[q].0));
                K::chains(s[i].0, t[i].0, s[i].0);
                K::irreflexive(s[i].0);
            } else {
                K::irreflexive(t[i].0);
            }
        }
        assert(p == i);
    }
}

/// A map has at most one listing.
pub proof fn lemma_listing_unique<K: Key, V>(
    s: Seq<(K::V, V)>,
    t: Seq<(K::V, V)>,
    m: Map<K::V, V>,
)
    requires
        is_listing::<K, V>(s, m),
        is_listing::<K, V>(t, m),
    ensures
        s == t,
{
    lemma_listing_agrees::<K, V>(s, t, m, s.len() as int);
    lemma_listing_agrees::<K, V>(t, s, m, t.len() as int);
    assert(s =~= t);
}

/// Where a key that no entry carries belongs in an ascending sequence.
proof fn lemma_slot_exists<K: Key, V>(s: Seq<(K::V, V)>, k: K::V) -> (slot: int)
    requires
        ascends::<K, V>(s),
        forall|i: int| 0 <= i < s.len() ==> (#[trigger] s[i]).0 != k,
    ensures
        0 <= slot <= s.len(),
        forall|i: int| 0 <= i < slot ==> K::before((#[trigger] s[i]).0, k),
        forall|i: int| slot <= i < s.len() ==> K::before(k, (#[trigger] s[i]).0),
    decreases s.len(),
{
    if s.len() == 0 {
        0
    } else {
        let rest = s.drop_last();
        assert forall|i: int, j: int| 0 <= i < j < rest.len() implies #[trigger] K::before(
            (#[trigger] rest[i]).0,
            (#[trigger] rest[j]).0,
        ) by {
            assert(rest[i] == s[i] && rest[j] == s[j]);
        }
        let last = s[s.len() - 1].0;
        K::connected(last, k);
        if K::before(last, k) {
            assert forall|i: int| 0 <= i < s.len() implies K::before((#[trigger] s[i]).0, k) by {
                if i < s.len() - 1 {
                    assert(K::before(s[i].0, s[s.len() - 1].0));
                    K::chains(s[i].0, last, k);
                }
            }
            s.len() as int
        } else {
            let slot = lemma_slot_exists::<K, V>(rest, k);
            assert forall|i: int| 0 <= i < slot implies K::before((#[trigger] s[i]).0, k) by {
                assert(rest[i] == s[i]);
            }
            assert forall|i: int| slot <= i < s.len() implies K::before(k, (#[trigger] s[i]).0) by {
                if i < rest.len() {
                    assert(rest[i] == s[i]);
                }
            }
            slot
        }
    }
}

/// Putting a new entry in its place lists the extended map.
proof fn lemma_listing_insert<K: Key, V>(
    s: Seq<(K::V, V)>,
    m: Map<K::V, V>,
    slot: int,
    k: K::V,
    v: V,
)
    requires
        is_listing::<K, V>(s, m),
        !m.contains_key(k),
        0 <= slot <= s.len(),
        forall|i: int| 0 <= i < slot ==> K::before((#[trigger] s[i]).0, k),
        forall|i: int| slot <= i < s.len() ==> K::before(k, (#[trigger] s[i]).0),
    ensures
        is_listing::<K, V>(s.insert(slot, (k, v)), m.insert(k, v)),
{
    let t = s.insert(slot, (k, v));
    let n = m.insert(k, v);
    assert forall|i: int, j: int| 0 <= i < j < t.len() implies #[trigger] K::before(
        (#[trigger] t[i]).0,
        (#[trigger] t[j]).0,
    ) by {
        let i0 = if i < slot { i } else { i - 1 };
        let j0 = if j < slot { j } else { j - 1 };
        if i != slot && j != slot {
            assert(t[i] == s[i0] && t[j] == s[j0]);
        } else if i == slot {
            assert(t[j] == s[j0]);
        } else {
            assert(t[i] == s[i0]);
        }
    }
    assert forall|i: int| 0 <= i < t.len() implies n.contains_key((#[trigger] t[i]).0) && n[t[i].0]
        == t[i].1 by {
        if i != slot {
            let i0 = if i < slot { i } else { i - 1 };
            assert(t[i] == s[i0]);
        }
    }
    assert forall|key: K::V| #[trigger] n.contains_key(key) implies exists|i: int|
        0 <= i < t.len() && (#[trigger] t[i]).0 == key by {
        if key == k {
            assert(t[slot].0 == key);
        } else {
            let i0 = choose|i: int| 0 <= i < s.len() && (#[trigger] s[i]).0 == key;
            let i = if i0 < slot { i0 } else { i0 + 1 };
            assert(t[i] == s[i0]);
        }
    }
}

/// Every finite map has a listing.
pub proof fn lemma_listing_exists<K: Key, V>(m: Map<K::V, V>)
    requires
        m.dom().finite(),
    ensures
        is_listing::<K, V>(listing::<K, V>(m), m),
    decreases m.dom().len(),
{
    if m.dom().len() == 0 {
        assert(m.dom() =~= Set::empty());
        assert(is_listing::<K, V>(Seq::empty(), m));
    } else {
        let k = m.dom().choose();
        let rest = m.remove(k);
        lemma_listing_exists::<K, V>(rest);
        let s = listing::<K, V>(rest);
        let slot = lemma_slot_exists::<K, V>(s, k);
        lemma_listing_insert::<K, V>(s, rest, slot, k, m[k]);
        assert(rest.insert(k, m[k]) =~= m);
        assert(is_listing::<K, V>(s.insert(slot, (k, m[k])), m));
    }
}

/// The listing is as long as the map is large.
pub proof fn lemma_listing_len<K: Key, V>(m: Map<K::V, V>)
    requires
        m.dom().finite(),
    ensures
        listing::<K, V>(m).len() == m.len(),
{
    lemma_listing_exists::<K, V>(m);
    let s = listing::<K, V>(m);
    lemma_map_of_listing::<K, V>(s);
    assert(map_of(s) =~= m);
}

/// The entries a rule keeps, with what it makes of their values.
pub open spec fn kept<A, V, W>(list: Seq<(A, V)>, f: spec_fn(A, V) -> Option<W>) -> Seq<(A, W)>
    decreases list.len(),
{
    if list.len() == 0 {
        Seq::empty()
    } else {
        let rest = kept(list.drop_last(), f);
        match f(list.last().0, list.last().1) {
            Some(w) => rest.push((list.last().0, w)),
            None => rest,
        }
    }
}

/// A map with a rule applied to every entry, dropping those it gives nothing
/// for.
pub open spec fn reworked<A, V, W>(m: Map<A, V>, f: spec_fn(A, V) -> Option<W>) -> Map<A, W> {
    Map::new(
        |k: A| m.contains_key(k) && f(k, m[k]) is Some,
        |k: A| f(k, m[k])->Some_0,
    )
}

proof fn lemma_kept_prefix<K: Key, V, W>(
    list: Seq<(K::V, V)>,
    m: Map<K::V, V>,
    f: spec_fn(K::V, V) -> Option<W>,
    n: int,
    k: K::V,
)
    requires
        is_listing::<K, V>(list, m),
        0 <= n <= list.len(),
    ensures
        map_of(kept(list.take(n), f)).contains_key(k) <==> (exists|i: int|
            0 <= i < n && (#[trigger] list[i]).0 == k && f(k, list[i].1) is Some),
        map_of(kept(list.take(n), f)).contains_key(k) ==> map_of(kept(list.take(n), f))[k] == f(
            k,
            m[k],
        )->Some_0,
    decreases n,
{
    if n > 0 {
        lemma_kept_prefix::<K, V, W>(list, m, f, n - 1, k);
        assert(list.take(n).drop_last() =~= list.take(n - 1));
        let last = list[n - 1];
        assert(list.take(n).last() == last);
        let before = kept(list.take(n - 1), f);
        match f(last.0, last.1) {
            Some(w) => {
                assert(before.push((last.0, w)).drop_last() =~= before);
                if k == last.0 {
                    assert(list[n - 1].0 == k);
                }
            },
            None => {
                if exists|i: int| 0 <= i < n && (#[trigger] list[i]).0 == k && f(k, list[i].1)
                    is Some {
                    let i = choose|i: int|
                        0 <= i < n && (#[trigger] list[i]).0 == k && f(k, list[i].1) is Some;
                    assert(i < n - 1);
                }
            },
        }
    }
}

/// What a rule keeps of a map's entries spells the reworked map.
pub proof fn lemma_kept<K: Key, V, W>(m: Map<K::V, V>, f: spec_fn(K::V, V) -> Option<W>)
    requires
        m.dom().finite(),
    ensures
        map_of(kept(listing::<K, V>(m), f)) == reworked(m, f),
{
    lemma_listing_exists::<K, V>(m);
    let list = listing::<K, V>(m);
    let n = list.len() as int;
    assert(list.take(n) =~= list);
    let a = map_of(kept(list, f));
    let b = reworked(m, f);
    assert forall|k: K::V| a.contains_key(k) <==> b.contains_key(k) by {
        lemma_kept_prefix::<K, V, W>(list, m, f, n, k);
        if b.contains_key(k) {
            let i = choose|i: int| 0 <= i < list.len() && (#[trigger] list[i]).0 == k;
            assert(f(k, list[i].1) is Some);
        }
    }
    assert forall|k: K::V| a.contains_key(k) implies #[trigger] a[k] == b[k] by {
        lemma_kept_prefix::<K, V, W>(list, m, f, n, k);
    }
    assert(a =~= b);
}

/// The keys of a map are those of the pairs that spell it.
pub proof fn lemma_map_of_keys<A, V>(s: Seq<(A, V)>, k: A)
    ensures
        map_of(s).contains_key(k) <==> exists|i: int| 0 <= i < s.len() && (#[trigger] s[i]).0 == k,
    decreases s.len(),
{
    if s.len() > 0 {
        let rest = s.drop_last();
        lemma_map_of_keys(rest, k);
        if map_of(rest).contains_key(k) {
            let i = choose|i: int| 0 <= i < rest.len() && (#[trigger] rest[i]).0 == k;
            assert(s[i].0 == k);
        }
        if s.last().0 == k {
            assert(s[s.len() - 1].0 == k);
        }
        if exists|i: int| 0 <= i < s.len() && (#[trigger] s[i]).0 == k {
            let i = choose|i: int| 0 <= i < s.len() && (#[trigger] s[i]).0 == k;
            if i < rest.len() {
                assert(rest[i].0 == k);
            }
        }
    }
}

proof fn lemma_kept_listed<A, V, W>(list: Seq<(A, V)>, f: spec_fn(A, V) -> Option<W>, k: A, w: W)
    ensures
        kept(list, f).contains((k, w)) <==> exists|i: int|
            0 <= i < list.len() && (#[trigger] list[i]).0 == k && f(k, list[i].1) == Some(w),
    decreases list.len(),
{
    if list.len() > 0 {
        let rest = list.drop_last();
        let last = list.last();
        let before = kept(rest, f);
        let after = kept(list, f);
        lemma_kept_listed(rest, f, k, w);
        assert(forall|i: int| 0 <= i < rest.len() ==> #[trigger] rest[i] == list[i]);
        assert(list[list.len() - 1] == last);
        if before.contains((k, w)) {
            let i = choose|i: int| 0 <= i < before.len() && before[i] == (k, w);
            assert(after[i] == (k, w));
            let n = choose|n: int|
                0 <= n < rest.len() && (#[trigger] rest[n]).0 == k && f(k, rest[n].1) == Some(w);
            assert(list[n] == rest[n]);
        }
        if last.0 == k && f(k, last.1) == Some(w) {
            assert(after.last() == (k, w));
            assert(after[after.len() - 1] == (k, w));
        }
        if after.contains((k, w)) {
            let i = choose|i: int| 0 <= i < after.len() && after[i] == (k, w);
            if i < before.len() {
                assert(before[i] == (k, w));
            }
        }
        if exists|i: int|
            0 <= i < list.len() && (#[trigger] list[i]).0 == k && f(k, list[i].1) == Some(w) {
            let i = choose|i: int|
                0 <= i < list.len() && (#[trigger] list[i]).0 == k && f(k, list[i].1) == Some(w);
            if i < rest.len() {
                assert(rest[i] == list[i]);
            }
        }
    }
}

proof fn lemma_kept_ascends<K: Key, V, W>(
    list: Seq<(K::V, V)>,
    f: spec_fn(K::V, V) -> Option<W>,
)
    requires
        ascends::<K, V>(list),
    ensures
        ascends::<K, W>(kept(list, f)),
    decreases list.len(),
{
    if list.len() > 0 {
        let rest = list.drop_last();
        let before = kept(rest, f);
        let after = kept(list, f);
        assert(forall|i: int| 0 <= i < rest.len() ==> #[trigger] rest[i] == list[i]);
        assert forall|i: int, j: int| 0 <= i < j < rest.len() implies #[trigger] K::before(
            (#[trigger] rest[i]).0,
            (#[trigger] rest[j]).0,
        ) by {
            assert(K::before(list[i].0, list[j].0));
        }
        lemma_kept_ascends::<K, V, W>(rest, f);
        assert forall|i: int, j: int| 0 <= i < j < after.len() implies #[trigger] K::before(
            (#[trigger] after[i]).0,
            (#[trigger] after[j]).0,
        ) by {
            assert(after[i] == before[i]);
            if j < before.len() {
                assert(after[j] == before[j]);
                assert(K::before(before[i].0, before[j].0));
            } else {
                let (k, w) = before[i];
                assert(before.contains((k, w)));
                lemma_kept_listed(rest, f, k, w);
                let n = choose|n: int|
                    0 <= n < rest.len() && (#[trigger] rest[n]).0 == k && f(k, rest[n].1) == Some(
                        w,
                    );
                assert(K::before(list[n].0, list[list.len() - 1].0));
                assert(after[j].0 == list[list.len() - 1].0);
            }
        }
    }
}

/// The entries a rule keeps of a map are those it gives something for, in key
/// order.
pub proof fn kept_entries_are_those_chosen<K: Key, V, W>(
    m: Map<K::V, V>,
    f: spec_fn(K::V, V) -> Option<W>,
)
    requires
        m.dom().finite(),
    ensures
        forall|k: K::V, w: W| #[trigger]
            kept(listing::<K, V>(m), f).contains((k, w)) <==> m.contains_key(k) && f(k, m[k])
                == Some(w),
        ascends::<K, W>(kept(listing::<K, V>(m), f)),
{
    let list = listing::<K, V>(m);
    lemma_listing_exists::<K, V>(m);
    lemma_kept_ascends::<K, V, W>(list, f);
    assert forall|k: K::V, w: W| #[trigger]
        kept(list, f).contains((k, w)) <==> m.contains_key(k) && f(k, m[k]) == Some(w) by {
        lemma_kept_listed(list, f, k, w);
        if m.contains_key(k) {
            let i = choose|i: int| 0 <= i < list.len() && (#[trigger] list[i]).0 == k;
            assert(m[list[i].0] == list[i].1);
        }
    }
}

/// One more kept entry.
pub proof fn lemma_kept_step<A, V, W>(list: Seq<(A, V)>, i: int, f: spec_fn(A, V) -> Option<W>)
    requires
        0 <= i < list.len(),
    ensures
        map_of(kept(list.take(i + 1), f)) == match f(list[i].0, list[i].1) {
            Some(w) => map_of(kept(list.take(i), f)).insert(list[i].0, w),
            None => map_of(kept(list.take(i), f)),
        },
        kept(list.take(i + 1), f) == match f(list[i].0, list[i].1) {
            Some(w) => kept(list.take(i), f).push((list[i].0, w)),
            None => kept(list.take(i), f),
        },
{
    assert(list.take(i + 1).drop_last() =~= list.take(i));
    assert(list.take(i + 1).last() == list[i]);
    let before = kept(list.take(i), f);
    if let Some(w) = f(list[i].0, list[i].1) {
        assert(before.push((list[i].0, w)).drop_last() =~= before);
    }
}

/// A map whose entries stay sorted by key.
pub struct SortedMap<K: Key, V: View> {
    entries: Vec<(K, V)>,
}

/// The views of a sequence of entries.
spec fn viewed<K: Key, V: View>(entries: Seq<(K, V)>) -> Seq<(K::V, V::V)> {
    entries.map_values(|e: (K, V)| (e.0@, e.1@))
}

impl<K: Key, V: View> View for SortedMap<K, V> {
    type V = Map<K::V, V::V>;

    closed spec fn view(&self) -> Map<K::V, V::V> {
        map_of(viewed(self.entries@))
    }
}

impl<K: Key, V: View> SortedMap<K, V> {
    #[verifier::type_invariant]
    spec fn sorted(self) -> bool {
        ascends::<K, V::V>(viewed(self.entries@))
    }

    /// A map always holds finitely many entries.
    pub broadcast proof fn lemma_finite(&self)
        ensures
            #[trigger] self@.dom().finite(),
    {
        lemma_map_of_finite(viewed(self.entries@));
    }

    /// What a map holds under a key is the view of a value.
    pub proof fn lemma_held(&self, k: K::V) -> (value: V)
        requires
            self@.contains_key(k),
        ensures
            self@[k] == value@,
    {
        let list = viewed(self.entries@);
        lemma_map_of_value(list, k);
        let i = choose|i: int| 0 <= i < list.len() && #[trigger] list[i] == (k, self@[k]);
        self.entries@[i].1
    }

    pub fn new() -> (map: Self)
        ensures
            map@ == Map::<K::V, V::V>::empty(),
    {
        let entries: Vec<(K, V)> = Vec::new();
        assert(viewed(entries@) =~= Seq::empty());
        SortedMap { entries }
    }

    /// How many entries the map holds.
    pub fn len(&self) -> (len: usize)
        ensures
            len == self@.len(),
            len == listing::<K, V::V>(self@).len(),
            is_listing::<K, V::V>(listing::<K, V::V>(self@), self@),
    {
        proof {
            use_type_invariant(self);
            lemma_map_of_listing::<K, V::V>(viewed(self.entries@));
            lemma_listing_unique::<K, V::V>(
                viewed(self.entries@),
                listing::<K, V::V>(self@),
                self@,
            );
        }
        self.entries.len()
    }

    pub fn is_empty(&self) -> (empty: bool)
        ensures
            empty == (self@.len() == 0),
            empty == (self@ == Map::<K::V, V::V>::empty()),
    {
        let len: usize = self.len();
        proof {
            self.lemma_finite();
            if len == 0 {
                assert(self@.dom() =~= Set::empty());
                assert(self@ =~= Map::empty());
            }
        }
        len == 0
    }

    /// The entry at a position in key order.
    pub fn entry_at(&self, i: usize) -> (entry: (&K, &V))
        requires
            i < listing::<K, V::V>(self@).len(),
        ensures
            (entry.0@, entry.1@) == listing::<K, V::V>(self@)[i as int],
    {
        proof {
            use_type_invariant(self);
            lemma_map_of_listing::<K, V::V>(viewed(self.entries@));
            lemma_listing_unique::<K, V::V>(
                viewed(self.entries@),
                listing::<K, V::V>(self@),
                self@,
            );
        }
        let entry = &self.entries[i];
        (&entry.0, &entry.1)
    }

    /// Takes the first entry out of the map.
    pub fn take_first(&mut self) -> (entry: (K, V))
        requires
            listing::<K, V::V>(old(self)@).len() > 0,
        ensures
            (entry.0@, entry.1@) == listing::<K, V::V>(old(self)@)[0],
            final(self)@ == old(self)@.remove(entry.0@),
            listing::<K, V::V>(final(self)@) == listing::<K, V::V>(old(self)@).skip(1),
    {
        let ghost s = viewed(self.entries@);
        let ghost m = self@;
        proof {
            use_type_invariant(&*self);
            lemma_map_of_listing::<K, V::V>(s);
            lemma_listing_unique::<K, V::V>(s, listing::<K, V::V>(m), m);
        }
        let mut entries: Vec<(K, V)> = Vec::new();
        assert(viewed(entries@) =~= Seq::<(K::V, V::V)>::empty());
        std::mem::swap(&mut self.entries, &mut entries);
        let entry: (K, V) = entries.remove(0);
        proof {
            let t = viewed(entries@);
            assert(t =~= s.skip(1));
            assert forall|i: int, j: int| 0 <= i < j < t.len() implies #[trigger] K::before(
                (#[trigger] t[i]).0,
                (#[trigger] t[j]).0,
            ) by {
                assert(K::before(s[i + 1].0, s[j + 1].0));
            }
            lemma_map_of_listing::<K, V::V>(t);
            let n = m.remove(entry.0@);
            assert forall|i: int| 0 <= i < t.len() implies n.contains_key((#[trigger] t[i]).0)
                && n[t[i].0] == t[i].1 by {
                assert(t[i] == s[i + 1]);
                assert(K::before(s[0].0, s[i + 1].0));
                K::irreflexive(entry.0@);
            }
            assert forall|k: K::V| #[trigger] n.contains_key(k) implies exists|i: int|
                0 <= i < t.len() && (#[trigger] t[i]).0 == k by {
                let i0 = choose|i: int| 0 <= i < s.len() && (#[trigger] s[i]).0 == k;
                assert(s[0].0 == entry.0@);
                assert(t[i0 - 1] == s[i0]);
            }
            lemma_same_listing::<K, V::V>(t, map_of(t), n);
            assert(is_listing::<K, V::V>(t, n));
            lemma_listing_unique::<K, V::V>(t, listing::<K, V::V>(n), n);
        }
        self.entries = entries;
        entry
    }

    /// The key's position: where it is, or where it would go.
    fn find(&self, key: &K) -> (found: (bool, usize))
        ensures
            found.1 <= self.entries@.len(),
            found.0 == self@.contains_key(key@),
            found.0 ==> found.1 < self.entries@.len() && self.entries@[found.1 as int].0@ == key@
                && self.entries@[found.1 as int].1@ == self@[key@],
            !found.0 ==> forall|i: int|
                0 <= i < found.1 ==> K::before((#[trigger] self.entries@[i]).0@, key@),
            !found.0 ==> forall|i: int|
                found.1 <= i < self.entries@.len() ==> K::before(
                    key@,
                    (#[trigger] self.entries@[i]).0@,
                ),
    {
        let ghost s = viewed(self.entries@);
        proof {
            use_type_invariant(self);
            lemma_map_of_listing::<K, V::V>(s);
        }
        let mut low: usize = 0;
        let mut high: usize = self.entries.len();
        while low < high
            invariant
                s == viewed(self.entries@),
                ascends::<K, V::V>(s),
                is_listing::<K, V::V>(s, self@),
                0 <= low <= high <= self.entries@.len(),
                forall|i: int|
                    0 <= i < low ==> K::before((#[trigger] self.entries@[i]).0@, key@),
                forall|i: int|
                    high <= i < self.entries@.len() ==> K::before(
                        key@,
                        (#[trigger] self.entries@[i]).0@,
                    ),
            decreases high - low,
        {
            let mid: usize = low + (high - low) / 2;
            assert(s[mid as int] == (self.entries@[mid as int].0@, self.entries@[mid as int].1@));
            match self.entries[mid].0.relate(key) {
                Rel::Same => {
                    return (true, mid);
                },
                Rel::Before => {
                    proof {
                        assert forall|i: int| 0 <= i < mid + 1 implies K::before(
                            (#[trigger] self.entries@[i]).0@,
                            key@,
                        ) by {
                            if i < mid {
                                assert(K::before(s[i].0, s[mid as int].0));
                                K::chains(s[i].0, s[mid as int].0, key@);
                            }
                        }
                    }
                    low = mid + 1;
                },
                Rel::After => {
                    proof {
                        assert forall|i: int| mid <= i < self.entries@.len() implies K::before(
                            key@,
                            (#[trigger] self.entries@[i]).0@,
                        ) by {
                            if i > mid {
                                assert(K::before(s[mid as int].0, s[i].0));
                                K::chains(key@, s[mid as int].0, s[i].0);
                            }
                        }
                    }
                    high = mid;
                },
            }
        }
        proof {
            if self@.contains_key(key@) {
                let i = choose|i: int| 0 <= i < s.len() && (#[trigger] s[i]).0 == key@;
                assert(s[i].0 == self.entries@[i].0@);
                K::irreflexive(key@);
            }
        }
        (false, low)
    }

    /// The value under a key.
    pub fn get(&self, key: &K) -> (value: Option<&V>)
        ensures
            match value {
                Some(v) => self@.contains_key(key@) && v@ == self@[key@],
                None => !self@.contains_key(key@),
            },
    {
        let (found, at): (bool, usize) = self.find(key);
        if found {
            Some(&self.entries[at].1)
        } else {
            None
        }
    }

    pub fn contains_key(&self, key: &K) -> (contains: bool)
        ensures
            contains == self@.contains_key(key@),
    {
        let (found, _at): (bool, usize) = self.find(key);
        found
    }

    /// Stores a value under a key, replacing the one that was there.
    pub fn insert(&mut self, key: K, value: V)
        ensures
            final(self)@ == old(self)@.insert(key@, value@),
    {
        let (found, at): (bool, usize) = self.find(&key);
        let ghost before = self.entries@;
        let ghost s = viewed(before);
        let ghost m = self@;
        proof {
            use_type_invariant(&*self);
            lemma_map_of_listing::<K, V::V>(s);
        }
        let mut entries: Vec<(K, V)> = Vec::new();
        assert(viewed(entries@) =~= Seq::<(K::V, V::V)>::empty());
        std::mem::swap(&mut self.entries, &mut entries);
        let ghost pair = (key, value);
        if found {
            entries.set(at, (key, value));
            proof {
                let t = viewed(entries@);
                assert(t =~= s.update(at as int, (pair.0@, pair.1@)));
                assert forall|i: int, j: int| 0 <= i < j < t.len() implies #[trigger] K::before(
                    (#[trigger] t[i]).0,
                    (#[trigger] t[j]).0,
                ) by {
                    assert(t[i].0 == s[i].0 && t[j].0 == s[j].0);
                }
                lemma_map_of_listing::<K, V::V>(t);
                assert forall|k: K::V| map_of(t).contains_key(k) <==> m.contains_key(k) by {
                    if m.contains_key(k) {
                        let i = choose|i: int| 0 <= i < s.len() && (#[trigger] s[i]).0 == k;
                        assert(t[i].0 == k);
                    }
                    if map_of(t).contains_key(k) {
                        let i = choose|i: int| 0 <= i < t.len() && (#[trigger] t[i]).0 == k;
                        assert(s[i].0 == k);
                    }
                }
                assert forall|k: K::V| map_of(t).contains_key(k) implies #[trigger] map_of(t)[k]
                    == m.insert(pair.0@, pair.1@)[k] by {
                    let i = choose|i: int| 0 <= i < t.len() && (#[trigger] t[i]).0 == k;
                    assert(s[i].0 == k);
                    if i != at {
                        assert(t[i] == s[i]);
                        if i < at {
                            assert(K::before(s[i].0, s[at as int].0));
                        } else {
                            assert(K::before(s[at as int].0, s[i].0));
                        }
                        K::irreflexive(k);
                    } else {
                        assert(t[at as int].1 == pair.1@);
                    }
                }
                assert(map_of(t) =~= m.insert(pair.0@, pair.1@));
            }
        } else {
            entries.insert(at, (key, value));
            proof {
                let t = viewed(entries@);
                assert(t =~= s.insert(at as int, (pair.0@, pair.1@)));
                assert forall|i: int| 0 <= i < at implies K::before(
                    (#[trigger] s[i]).0,
                    pair.0@,
                ) by {
                    assert(s[i].0 == before[i].0@);
                }
                assert forall|i: int| at <= i < s.len() implies K::before(
                    pair.0@,
                    (#[trigger] s[i]).0,
                ) by {
                    assert(s[i].0 == before[i].0@);
                }
                lemma_listing_insert::<K, V::V>(s, m, at as int, pair.0@, pair.1@);
                lemma_map_of_listing::<K, V::V>(t);
                lemma_same_listing::<K, V::V>(t, map_of(t), m.insert(pair.0@, pair.1@));
            }
        }
        self.entries = entries;
    }

    /// Takes the entry under a key out of the map.
    pub fn remove(&mut self, key: &K) -> (value: Option<V>)
        ensures
            final(self)@ == old(self)@.remove(key@),
            match value {
                Some(v) => old(self)@.contains_key(key@) && v@ == old(self)@[key@],
                None => !old(self)@.contains_key(key@),
            },
    {
        let (found, at): (bool, usize) = self.find(key);
        let ghost s = viewed(self.entries@);
        let ghost m = self@;
        proof {
            use_type_invariant(&*self);
            lemma_map_of_listing::<K, V::V>(s);
        }
        if !found {
            assert(m.remove(key@) =~= m);
            return None;
        }
        let mut entries: Vec<(K, V)> = Vec::new();
        assert(viewed(entries@) =~= Seq::<(K::V, V::V)>::empty());
        std::mem::swap(&mut self.entries, &mut entries);
        let (_key, value): (K, V) = entries.remove(at);
        proof {
            let t = viewed(entries@);
            assert(t =~= s.remove(at as int));
            let from = |i: int| if i < at { i } else { i + 1 };
            assert forall|i: int| 0 <= i < t.len() implies (#[trigger] t[i]) == s[from(i)] by {}
            assert forall|i: int, j: int| 0 <= i < j < t.len() implies #[trigger] K::before(
                (#[trigger] t[i]).0,
                (#[trigger] t[j]).0,
            ) by {
                assert(K::before(s[from(i)].0, s[from(j)].0));
            }
            lemma_map_of_listing::<K, V::V>(t);
            let n = m.remove(key@);
            assert forall|i: int| 0 <= i < t.len() implies n.contains_key((#[trigger] t[i]).0)
                && n[t[i].0] == t[i].1 by {
                let i0 = from(i);
                assert(t[i] == s[i0]);
                if i0 < at {
                    assert(K::before(s[i0].0, s[at as int].0));
                } else {
                    assert(K::before(s[at as int].0, s[i0].0));
                }
                K::irreflexive(key@);
            }
            assert forall|k: K::V| #[trigger] n.contains_key(k) implies exists|i: int|
                0 <= i < t.len() && (#[trigger] t[i]).0 == k by {
                let i0 = choose|i: int| 0 <= i < s.len() && (#[trigger] s[i]).0 == k;
                let i = if i0 < at { i0 } else { i0 - 1 };
                assert(t[i] == s[i0]);
            }
            lemma_same_listing::<K, V::V>(t, map_of(t), n);
        }
        self.entries = entries;
        Some(value)
    }
}

/// A sequence lists at most one map.
proof fn lemma_same_listing<K: Key, V>(s: Seq<(K::V, V)>, m: Map<K::V, V>, n: Map<K::V, V>)
    requires
        is_listing::<K, V>(s, m),
        is_listing::<K, V>(s, n),
    ensures
        m == n,
{
    assert forall|k: K::V| m.contains_key(k) <==> n.contains_key(k) by {
        if m.contains_key(k) {
            let i = choose|i: int| 0 <= i < s.len() && (#[trigger] s[i]).0 == k;
            assert(n.contains_key(s[i].0));
        }
        if n.contains_key(k) {
            let i = choose|i: int| 0 <= i < s.len() && (#[trigger] s[i]).0 == k;
            assert(m.contains_key(s[i].0));
        }
    }
    assert forall|k: K::V| m.contains_key(k) implies #[trigger] m[k] == n[k] by {
        let i = choose|i: int| 0 <= i < s.len() && (#[trigger] s[i]).0 == k;
        assert(m[s[i].0] == n[s[i].0]);
    }
    assert(m =~= n);
}

impl<K: Key, V: Duplicate> Duplicate for SortedMap<K, V> {
    fn duplicate(&self) -> (copy: Self) {
        let mut copy: SortedMap<K, V> = SortedMap::new();
        let len: usize = self.len();
        let ghost s = listing::<K, V::V>(self@);
        let mut i: usize = 0;
        while i < len
            invariant
                i <= len,
                len == s.len(),
                s == listing::<K, V::V>(self@),
                is_listing::<K, V::V>(s, self@),
                copy@ == map_of(s.take(i as int)),
            decreases len - i,
        {
            let (key, value): (&K, &V) = self.entry_at(i);
            copy.insert(key.duplicate(), value.duplicate());
            proof {
                assert(s.take(i + 1).drop_last() =~= s.take(i as int));
            }
            i = i + 1;
        }
        proof {
            assert(s.take(len as int) =~= s);
            lemma_map_of_listing::<K, V::V>(s);
            lemma_same_listing::<K, V::V>(s, map_of(s), self@);
        }
        copy
    }
}

impl<K: Key, V: Same> Same for SortedMap<K, V> {
    fn same(&self, other: &Self) -> (same: bool) {
        let len: usize = self.len();
        let ghost s = listing::<K, V::V>(self@);
        let ghost t = listing::<K, V::V>(other@);
        if len != other.len() {
            return false;
        }
        let mut i: usize = 0;
        while i < len
            invariant
                i <= len,
                len == s.len(),
                len == t.len(),
                s == listing::<K, V::V>(self@),
                t == listing::<K, V::V>(other@),
                is_listing::<K, V::V>(s, self@),
                is_listing::<K, V::V>(t, other@),
                s.take(i as int) == t.take(i as int),
            decreases len - i,
        {
            let (key, value): (&K, &V) = self.entry_at(i);
            let (other_key, other_value): (&K, &V) = other.entry_at(i);
            let rel = key.relate(other_key);
            proof {
                K::irreflexive(key@);
            }
            if rel != Rel::Same || !value.same(other_value) {
                assert(s[i as int] != t[i as int]);
                return false;
            }
            proof {
                assert(s.take(i + 1) =~= s.take(i as int).push(s[i as int]));
                assert(t.take(i + 1) =~= t.take(i as int).push(t[i as int]));
            }
            i = i + 1;
        }
        proof {
            assert(s.take(len as int) =~= s);
            assert(t.take(len as int) =~= t);
            lemma_same_listing::<K, V::V>(s, self@, other@);
        }
        true
    }
}

} // verus!
