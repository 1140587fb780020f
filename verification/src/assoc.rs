//! Association lists: maps kept as a sequence of entries in insertion order.

use vstd::prelude::*;

use crate::key::KeyEq;

verus! {

/// No two entries of `s` have keys with the same view.
pub open spec fn unique_keys<K: View, V>(s: Seq<(K, V)>) -> bool {
    forall|i: int, j: int|
        0 <= i < s.len() && 0 <= j < s.len() && i != j ==> #[trigger] s[i].0@ != #[trigger] s[j].0@
}

/// Some entry of `s` has a key whose view is `k`.
pub open spec fn has_key<K: View, V>(s: Seq<(K, V)>, k: K::V) -> bool {
    exists|i: int| 0 <= i < s.len() && #[trigger] s[i].0@ == k
}

/// The position of an entry of `s` whose key has the view `k`.
pub open spec fn key_index<K: View, V>(s: Seq<(K, V)>, k: K::V) -> int {
    choose|i: int| 0 <= i < s.len() && #[trigger] s[i].0@ == k
}

/// The value stored for the key with view `k`.
pub open spec fn value_of<K: View, V>(s: Seq<(K, V)>, k: K::V) -> V {
    s[key_index(s, k)].1
}

/// The entries after storing `v` under `k`: the entry for `k` is replaced in
/// place if there is one, and a new entry is appended otherwise.
pub open spec fn stored<K: View, V>(s: Seq<(K, V)>, k: K, v: V) -> Seq<(K, V)> {
    if has_key(s, k@) {
        s.update(key_index(s, k@), (k, v))
    } else {
        s.push((k, v))
    }
}

/// `new` maps `k` to `v` and agrees with `old` on every other key.
pub open spec fn updated<K: View, V>(old: Seq<(K, V)>, new: Seq<(K, V)>, k: K::V, v: V) -> bool {
    &&& has_key(new, k)
    &&& value_of(new, k) == v
    &&& forall|k2: K::V| k2 != k ==> (has_key(new, k2) == has_key(old, k2))
    &&& forall|k2: K::V| k2 != k && has_key(old, k2) ==> value_of(new, k2) == value_of(old, k2)
}

/// The views of the keys of the entries whose value satisfies `p`, in order.
pub open spec fn keys_where<K: View, V>(s: Seq<(K, V)>, p: spec_fn(V) -> bool) -> Seq<K::V>
    decreases s.len(),
{
    if s.len() == 0 {
        Seq::empty()
    } else {
        let rest = keys_where(s.drop_last(), p);
        if p(s.last().1) {
            rest.push(s.last().0@)
        } else {
            rest
        }
    }
}

/// One more entry of the prefix: how `keys_where` grows.
pub proof fn lemma_keys_where_step<K: View, V>(s: Seq<(K, V)>, p: spec_fn(V) -> bool, i: int)
    requires
        0 <= i < s.len(),
    ensures
        keys_where(s.take(i + 1), p) == if p(s[i].1) {
            keys_where(s.take(i), p).push(s[i].0@)
        } else {
            keys_where(s.take(i), p)
        },
{
    assert(s.take(i + 1).drop_last() =~= s.take(i));
}

/// A key listed by `keys_where` is a key of `s`, and its value satisfies
/// the predicate.
pub proof fn lemma_keys_where_member<K: View, V>(s: Seq<(K, V)>, p: spec_fn(V) -> bool, k: K::V)
    requires
        unique_keys(s),
        keys_where(s, p).contains(k),
    ensures
        has_key(s, k),
        p(value_of(s, k)),
    decreases s.len(),
{
    let last = s.len() - 1;
    let rest = s.drop_last();
    assert(unique_keys(rest)) by {
        assert forall|i: int, j: int|
            0 <= i < rest.len() && 0 <= j < rest.len() && i != j implies #[trigger] rest[i].0@ != #[trigger] rest[j].0@ by {
            assert(rest[i] == s[i] && rest[j] == s[j]);
            assert(s[i].0@ != s[j].0@);
        }
    }
    if p(s[last].1) && s[last].0@ == k {
        lemma_key_index(s, last);
    } else {
        assert(keys_where(rest, p).contains(k));
        lemma_keys_where_member(rest, p, k);
        let i = key_index(rest, k);
        assert(rest[i] == s[i]);
        lemma_key_index(s, i);
    }
}

/// With unique keys, an entry whose key has view `k` is at `key_index`.
pub proof fn lemma_key_index<K: View, V>(s: Seq<(K, V)>, i: int)
    requires
        unique_keys(s),
        0 <= i < s.len(),
    ensures
        has_key(s, s[i].0@),
        key_index(s, s[i].0@) == i,
        value_of(s, s[i].0@) == s[i].1,
{
    let k = s[i].0@;
    assert(s[i].0@ == k);
    let j = key_index(s, k);
    assert(s[j].0@ == k);
}

/// Storing a value keeps the keys unique, and the map that the entries
/// describe changes at that key only.
pub proof fn lemma_stored<K: View, V>(s: Seq<(K, V)>, k: K, v: V)
    requires
        unique_keys(s),
    ensures
        unique_keys(stored(s, k, v)),
        updated(s, stored(s, k, v), k@, v),
        has_key(stored(s, k, v), k@),
        value_of(stored(s, k, v), k@) == v,
        forall|k2: K::V| k2 != k@ ==> (has_key(stored(s, k, v), k2) == has_key(s, k2)),
        forall|k2: K::V| k2 != k@ && has_key(s, k2) ==> value_of(stored(s, k, v), k2) == value_of(s, k2),
        forall|k2: K::V| #[trigger] has_key(stored(s, k, v), k2) ==> k2 == k@ || has_key(s, k2),
{
    let t = stored(s, k, v);
    let n: int = if has_key(s, k@) { key_index(s, k@) } else { s.len() as int };
    if has_key(s, k@) {
        assert(s[n].0@ == k@);
    }
    assert(t[n].0@ == k@);
    assert(forall|i: int| 0 <= i < t.len() && i != n ==> t[i] == s[i]);
    assert(unique_keys(t)) by {
        assert forall|i: int, j: int|
            0 <= i < t.len() && 0 <= j < t.len() && i != j implies #[trigger] t[i].0@ != #[trigger] t[j].0@ by {
            if i != n && j != n {
                assert(s[i].0@ != s[j].0@);
            } else if i == n {
                if has_key(s, k@) {
                    assert(s[j].0@ != s[n].0@);
                } else {
                    assert(!(s[j].0@ == k@));
                }
            } else {
                if has_key(s, k@) {
                    assert(s[i].0@ != s[n].0@);
                } else {
                    assert(!(s[i].0@ == k@));
                }
            }
        }
    }
    lemma_key_index(t, n);
    assert forall|k2: K::V| k2 != k@ implies (has_key(t, k2) == has_key(s, k2)) by {
        if has_key(t, k2) {
            let i = key_index(t, k2);
            assert(i != n);
            assert(s[i].0@ == k2);
        }
        if has_key(s, k2) {
            let i = key_index(s, k2);
            assert(i != n);
            assert(t[i].0@ == k2);
        }
    }
    assert forall|k2: K::V| k2 != k@ && has_key(s, k2) implies value_of(t, k2) == value_of(s, k2) by {
        let i = key_index(s, k2);
        assert(i != n);
        assert(t[i] == s[i]);
        lemma_key_index(s, i);
        lemma_key_index(t, i);
    }
    assert forall|k2: K::V| #[trigger] has_key(t, k2) implies k2 == k@ || has_key(s, k2) by {
        if k2 != k@ {
            let i = key_index(t, k2);
            assert(i != n);
            assert(s[i].0@ == k2);
        }
    }
}

/// Storing then looking up: after `v` is stored under `k`, looking up `k`
/// finds `v`, every other key finds what it found before, and the number of
/// entries grows by one exactly when `k` was not stored yet.
pub proof fn law_store_then_lookup<K: View, V>(s: Seq<(K, V)>, k: K, v: V)
    requires
        unique_keys(s),
    ensures
        has_key(stored(s, k, v), k@),
        value_of(stored(s, k, v), k@) == v,
        forall|k2: K::V| k2 != k@ ==> (has_key(stored(s, k, v), k2) == has_key(s, k2)),
        forall|k2: K::V| k2 != k@ && has_key(s, k2) ==> value_of(stored(s, k, v), k2) == value_of(s, k2),
        stored(s, k, v).len() == if has_key(s, k@) { s.len() } else { s.len() + 1 },
{
    lemma_stored(s, k, v);
}

/// Removing then looking up: after the entry of `k` is removed, `k` is no
/// longer found, and every other key finds what it found before.
pub proof fn law_remove_then_lookup<K: View, V>(s: Seq<(K, V)>, k: K::V)
    requires
        unique_keys(s),
        has_key(s, k),
    ensures
        unique_keys(s.remove(key_index(s, k))),
        !has_key(s.remove(key_index(s, k)), k),
        forall|k2: K::V| k2 != k ==> (has_key(s.remove(key_index(s, k)), k2) == has_key(s, k2)),
        forall|k2: K::V| k2 != k && has_key(s, k2) ==> value_of(s.remove(key_index(s, k)), k2) == value_of(s, k2),
{
    let n = key_index(s, k);
    let t = s.remove(n);
    assert(s[n].0@ == k);
    assert forall|i: int| 0 <= i < t.len() implies #[trigger] t[i] == s[if i < n { i } else { i + 1 }] by {}
    assert(unique_keys(t)) by {
        assert forall|a: int, b: int|
            0 <= a < t.len() && 0 <= b < t.len() && a != b implies #[trigger] t[a].0@ != #[trigger] t[b].0@ by {
            let a2 = if a < n { a } else { a + 1 };
            let b2 = if b < n { b } else { b + 1 };
            assert(t[a] == s[a2]);
            assert(t[b] == s[b2]);
        }
    }
    assert(!has_key(t, k)) by {
        if has_key(t, k) {
            let i = key_index(t, k);
            let i2 = if i < n { i } else { i + 1 };
            assert(t[i] == s[i2]);
            assert(s[i2].0@ != s[n].0@);
        }
    }
    assert forall|k2: K::V| k2 != k implies (has_key(t, k2) == has_key(s, k2)) by {
        if has_key(t, k2) {
            let i = key_index(t, k2);
            let i2 = if i < n { i } else { i + 1 };
            assert(t[i] == s[i2]);
        }
        if has_key(s, k2) {
            let j = key_index(s, k2);
            assert(j != n);
            let j2 = if j < n { j } else { j - 1 };
            assert(t[j2] == s[j]);
        }
    }
    assert forall|k2: K::V| k2 != k && has_key(s, k2) implies value_of(t, k2) == value_of(s, k2) by {
        let j = key_index(s, k2);
        assert(j != n);
        let j2 = if j < n { j } else { j - 1 };
        assert(t[j2] == s[j]);
        lemma_key_index(s, j);
        lemma_key_index(t, j2);
    }
}

/// The views of the keys of `s`, in order.
pub open spec fn key_views<K: View, V>(s: Seq<(K, V)>) -> Seq<K::V> {
    s.map_values(|e: (K, V)| e.0@)
}

/// A key is stored exactly when it is among the views of the keys.
pub proof fn lemma_has_key_views<K: View, V>(s: Seq<(K, V)>, k: K::V)
    ensures
        has_key(s, k) <==> key_views(s).contains(k),
{
    if has_key(s, k) {
        let i = key_index(s, k);
        assert(key_views(s)[i] == k);
    }
    if key_views(s).contains(k) {
        let i = choose|i: int| 0 <= i < key_views(s).len() && key_views(s)[i] == k;
        assert(s[i].0@ == k);
    }
}

/// Storing keeps the keys in their order, a new key coming last.
pub proof fn lemma_stored_key_views<K: View, V>(s: Seq<(K, V)>, k: K, v: V)
    requires
        unique_keys(s),
    ensures
        key_views(stored(s, k, v)) == if has_key(s, k@) {
            key_views(s)
        } else {
            key_views(s).push(k@)
        },
{
    if has_key(s, k@) {
        let n = key_index(s, k@);
        assert(key_views(stored(s, k, v)) =~= key_views(s));
    } else {
        assert(key_views(stored(s, k, v)) =~= key_views(s).push(k@));
    }
}

/// With unique keys, the set of key views has one element per entry.
pub proof fn lemma_key_views_len<K: View, V>(s: Seq<(K, V)>)
    requires
        unique_keys(s),
    ensures
        key_views(s).to_set().finite(),
        key_views(s).to_set().len() == s.len(),
        forall|k: K::V| key_views(s).to_set().contains(k) <==> has_key(s, k),
{
    let ks = key_views(s);
    assert(ks.no_duplicates()) by {
        assert forall|i: int, j: int| 0 <= i < ks.len() && 0 <= j < ks.len() && i != j implies ks[i] != ks[j] by {
            assert(s[i].0@ != s[j].0@);
        }
    }
    ks.unique_seq_to_set();
    assert forall|k: K::V| ks.to_set().contains(k) <==> has_key(s, k) by {
        if ks.to_set().contains(k) {
            let i = choose|i: int| 0 <= i < ks.len() && ks[i] == k;
            assert(s[i].0@ == k);
        }
        if has_key(s, k) {
            let i = key_index(s, k);
            assert(ks[i] == k);
        }
    }
}

/// If every key of `a` is a key of `b`, and both have unique keys, then `a`
/// has no more entries than `b`.
pub proof fn lemma_keys_subset_len<K: View, V1, V2>(a: Seq<(K, V1)>, b: Seq<(K, V2)>)
    requires
        unique_keys(a),
        unique_keys(b),
        forall|k: K::V| has_key(a, k) ==> has_key(b, k),
    ensures
        a.len() <= b.len(),
{
    lemma_key_views_len(a);
    lemma_key_views_len(b);
    assert forall|k: K::V| key_views(a).to_set().contains(k) implies key_views(b).to_set().contains(k) by {
        assert(has_key(a, k));
    }
    assert(key_views(a).to_set().subset_of(key_views(b).to_set()));
    vstd::set_lib::lemma_len_subset(key_views(a).to_set(), key_views(b).to_set());
}

/// A map from keys to values that remembers the order in which keys were
/// first stored.
#[derive(Debug)]
pub struct AssocMap<K, V> {
    entries: Vec<(K, V)>,
}

impl<K, V> View for AssocMap<K, V> {
    type V = Seq<(K, V)>;

    closed spec fn view(&self) -> Seq<(K, V)> {
        self.entries@
    }
}

impl<K: KeyEq, V> AssocMap<K, V> {
    /// Well-formedness: no key occurs twice.
    pub open spec fn wf(&self) -> bool {
        unique_keys(self@)
    }

    /// The empty map.
    pub fn new() -> (m: Self)
        ensures
            m@ == Seq::<(K, V)>::empty(),
            m.wf(),
    {
        AssocMap { entries: Vec::new() }
    }

    /// The number of entries.
    pub fn len(&self) -> (n: usize)
        ensures
            n == self@.len(),
    {
        self.entries.len()
    }

    /// The entries, in the order in which their keys were first stored.
    pub fn entries(&self) -> (e: &Vec<(K, V)>)
        ensures
            e@ == self@,
    {
        &self.entries
    }

    /// The entries, given up by the map.
    pub fn into_entries(self) -> (e: Vec<(K, V)>)
        ensures
            e@ == self@,
    {
        self.entries
    }

    /// The position of the entry for `k`, if there is one.
    pub fn find(&self, k: &K) -> (r: Option<usize>)
        requires
            self.wf(),
        ensures
            match r {
                Some(i) => i < self@.len() && self@[i as int].0@ == k@ && key_index(self@, k@) == i,
                None => !has_key(self@, k@),
            },
    {
        let n = self.entries.len();
        let mut i: usize = 0;
        while i < n
            invariant
                n == self@.len(),
                self.wf(),
                i <= n,
                forall|j: int| 0 <= j < i ==> #[trigger] self@[j].0@ != k@,
            decreases n - i,
        {
            if self.entries[i].0.key_eq(k) {
                proof {
                    lemma_key_index(self@, i as int);
                }
                return Some(i);
            }
            i = i + 1;
        }
        None
    }

    /// Whether some entry has the key `k`.
    pub fn contains_key(&self, k: &K) -> (b: bool)
        requires
            self.wf(),
        ensures
            b == has_key(self@, k@),
    {
        self.find(k).is_some()
    }

    /// The value stored under `k`, if any.
    pub fn get(&self, k: &K) -> (r: Option<&V>)
        requires
            self.wf(),
        ensures
            match r {
                Some(v) => has_key(self@, k@) && *v == value_of(self@, k@),
                None => !has_key(self@, k@),
            },
    {
        match self.find(k) {
            Some(i) => Some(&self.entries[i].1),
            None => None,
        }
    }

    /// Takes all entries out, leaving the map empty.
    pub fn take(&mut self) -> (e: Vec<(K, V)>)
        requires
            old(self).wf(),
        ensures
            e@ == old(self)@,
            final(self)@.len() == 0,
            final(self).wf(),
    {
        let mut e: Vec<(K, V)> = Vec::new();
        std::mem::swap(&mut e, &mut self.entries);
        e
    }

    /// Removes the entry for `k`, if there is one, keeping the order of the
    /// others.
    pub fn remove(&mut self, k: &K)
        requires
            old(self).wf(),
        ensures
            final(self).wf(),
            has_key(old(self)@, k@) ==> final(self)@ == old(self)@.remove(key_index(old(self)@, k@)),
            !has_key(old(self)@, k@) ==> final(self)@ == old(self)@,
    {
        match self.find(k) {
            Some(i) => {
                let ghost s = self@;
                self.entries.remove(i);
                proof {
                    let t = self@;
                    assert forall|a: int, b: int|
                        0 <= a < t.len() && 0 <= b < t.len() && a != b implies #[trigger] t[a].0@ != #[trigger] t[b].0@ by {
                        let a2 = if a < i { a } else { a + 1 };
                        let b2 = if b < i { b } else { b + 1 };
                        assert(t[a] == s[a2]);
                        assert(t[b] == s[b2]);
                        assert(s[a2].0@ != s[b2].0@);
                    }
                }
            },
            None => {},
        }
    }

    /// Stores `v` under `k`, replacing an earlier value in place.
    pub fn insert(&mut self, k: K, v: V)
        requires
            old(self).wf(),
        ensures
            final(self)@ == stored(old(self)@, k, v),
            updated(old(self)@, final(self)@, k@, v),
            final(self).wf(),
    {
        proof {
            lemma_stored(self@, k, v);
        }
        match self.find(&k) {
            Some(i) => {
                self.entries.set(i, (k, v));
            },
            None => {
                self.entries.push((k, v));
            },
        }
    }
}

} // verus!
