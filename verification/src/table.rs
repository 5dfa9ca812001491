//! An association table that keeps its entries in the order of their first
//! insertion.
//!
//! Info hashes key every registry of this crate, alone or together with a piece
//! or file index. The registries are small (one entry per torrent, file or pinned
//! piece), so a linear scan over a vector serves them, and the mathematical map
//! behind it is available to every contract.

use vstd::prelude::*;

verus! {

/// A key whose executable comparison decides equality of views.
pub trait TableKey: View + Sized {
    fn same(&self, other: &Self) -> (r: bool)
        ensures
            r == (self@ == other@),
    ;
}

impl TableKey for String {
    fn same(&self, other: &Self) -> (r: bool) {
        *self == *other
    }
}

impl TableKey for (String, i32) {
    fn same(&self, other: &Self) -> (r: bool) {
        self.1 == other.1 && self.0 == other.0
    }
}

impl TableKey for (String, usize) {
    fn same(&self, other: &Self) -> (r: bool) {
        self.1 == other.1 && self.0 == other.0
    }
}

/// No key stands at two places of `s`.
pub open spec fn distinct_keys<A, V>(s: Seq<(A, V)>) -> bool {
    forall|i: int, j: int| 0 <= i < j < s.len() ==> s[i].0 != s[j].0
}

/// Position `i` of `s` holds key `k`.
pub open spec fn key_at<A, V>(s: Seq<(A, V)>, i: int, k: A) -> bool {
    0 <= i < s.len() && s[i].0 == k
}

/// The map that a list of pairs stands for.
pub open spec fn pairs_map<A, V>(s: Seq<(A, V)>) -> Map<A, V> {
    Map::new(
        |k: A| exists|i: int| key_at(s, i, k),
        |k: A| s[choose|i: int| key_at(s, i, k)].1,
    )
}

/// Every listed pair is a binding of the map, and there is no other.
pub proof fn lemma_pairs_map<A, V>(s: Seq<(A, V)>)
    requires
        distinct_keys(s),
    ensures
        forall|i: int|
            0 <= i < s.len() ==> pairs_map(s).contains_key(#[trigger] s[i].0) && pairs_map(s)[s[i].0]
                == s[i].1,
        forall|k: A| #[trigger]
            pairs_map(s).contains_key(k) ==> exists|i: int| key_at(s, i, k),
{
    assert forall|i: int| 0 <= i < s.len() implies pairs_map(s).contains_key(#[trigger] s[i].0)
        && pairs_map(s)[s[i].0] == s[i].1 by {
        let k = s[i].0;
        assert(key_at(s, i, k));
        let j = choose|j: int| key_at(s, j, k);
        assert(key_at(s, j, k));
        assert(i == j);
    }
}

/// Appending a fresh key adds one binding.
proof fn lemma_pairs_push<A, V>(s: Seq<(A, V)>, k: A, v: V)
    requires
        distinct_keys(s),
        !pairs_map(s).contains_key(k),
    ensures
        distinct_keys(s.push((k, v))),
        pairs_map(s.push((k, v))) == pairs_map(s).insert(k, v),
{
    let t = s.push((k, v));
    lemma_pairs_map(s);
    assert forall|i: int, j: int| 0 <= i < j < t.len() implies t[i].0 != t[j].0 by {
        if j == s.len() {
            assert(key_at(s, i, s[i].0));
        }
    }
    lemma_same_bindings(t, pairs_map(s).insert(k, v), |a: A| {
        if a == k {
            s.len() as int
        } else {
            choose|i: int| key_at(s, i, a)
        }
    });
}

/// Overwriting a value in place rebinds its key.
proof fn lemma_pairs_update<A, V>(s: Seq<(A, V)>, i: int, v: V)
    requires
        distinct_keys(s),
        0 <= i < s.len(),
    ensures
        distinct_keys(s.update(i, (s[i].0, v))),
        pairs_map(s.update(i, (s[i].0, v))) == pairs_map(s).insert(s[i].0, v),
{
    let t = s.update(i, (s[i].0, v));
    lemma_pairs_map(s);
    lemma_same_bindings(t, pairs_map(s).insert(s[i].0, v), |a: A| {
        if a == s[i].0 {
            i
        } else {
            choose|j: int| key_at(s, j, a)
        }
    });
}

/// Cutting a pair out drops its binding.
proof fn lemma_pairs_remove<A, V>(s: Seq<(A, V)>, i: int)
    requires
        distinct_keys(s),
        0 <= i < s.len(),
    ensures
        distinct_keys(s.remove(i)),
        pairs_map(s.remove(i)) == pairs_map(s).remove(s[i].0),
{
    let t = s.remove(i);
    lemma_pairs_map(s);
    assert forall|j: int| 0 <= j < t.len() implies #[trigger] t[j] == s[if j < i { j } else { j + 1 }] by {}
    lemma_same_bindings(t, pairs_map(s).remove(s[i].0), |a: A| {
        let j = choose|j: int| key_at(s, j, a);
        if j < i {
            j
        } else {
            j - 1
        }
    });
}

/// A list stands for `m` when each of its pairs is a binding of `m` and `at`
/// finds a place for each key of `m`.
proof fn lemma_same_bindings<A, V>(s: Seq<(A, V)>, m: Map<A, V>, at: spec_fn(A) -> int)
    requires
        distinct_keys(s),
        forall|i: int| 0 <= i < s.len() ==> m.contains_key(#[trigger] s[i].0) && m[s[i].0] == s[i].1,
        forall|a: A| #[trigger] m.contains_key(a) ==> key_at(s, at(a), a),
    ensures
        pairs_map(s) == m,
{
    lemma_pairs_map(s);
    assert forall|a: A| pairs_map(s).contains_key(a) <==> m.contains_key(a) by {
        if pairs_map(s).contains_key(a) {
            let i = choose|i: int| key_at(s, i, a);
            assert(m.contains_key(s[i].0));
        }
        if m.contains_key(a) {
            assert(key_at(s, at(a), a));
        }
    }
    assert forall|a: A| m.contains_key(a) implies pairs_map(s)[a] == m[a] by {
        let i = at(a);
        assert(key_at(s, i, a));
        assert(s[i].0 == a);
    }
    assert(pairs_map(s) =~= m);
}

/// A map from keys to values, held as a list of pairs.
pub struct Table<K: TableKey, V> {
    entries: Vec<(K, V)>,
}

impl<K: TableKey, V> Table<K, V> {
    /// The entries in order, keys taken by their views.
    pub closed spec fn pairs(self) -> Seq<(K::V, V)> {
        self.entries@.map_values(|e: (K, V)| (e.0@, e.1))
    }

    pub open spec fn view(&self) -> Map<K::V, V> {
        pairs_map(self.pairs())
    }

    /// No key occurs twice.
    pub open spec fn wf(self) -> bool {
        distinct_keys(self.pairs())
    }

    pub fn new() -> (r: Self)
        ensures
            r.wf(),
            r@ == Map::<K::V, V>::empty(),
            r.pairs().len() == 0,
    {
        let r = Table { entries: Vec::new() };
        assert(r@ =~= Map::<K::V, V>::empty());
        r
    }

    pub fn len(&self) -> (n: usize)
        ensures
            n == self.pairs().len(),
    {
        self.entries.len()
    }

    /// The key at position `i`.
    pub fn key(&self, i: usize) -> (k: &K)
        requires
            i < self.pairs().len(),
        ensures
            k@ == self.pairs()[i as int].0,
    {
        &self.entries[i].0
    }

    /// The value at position `i`.
    pub fn value(&self, i: usize) -> (v: &V)
        requires
            i < self.pairs().len(),
        ensures
            *v == self.pairs()[i as int].1,
    {
        &self.entries[i].1
    }

    fn position(&self, k: &K) -> (r: Option<usize>)
        requires
            self.wf(),
        ensures
            match r {
                Some(i) => key_at(self.pairs(), i as int, k@) && self@.contains_key(k@)
                    && self@[k@] == self.pairs()[i as int].1,
                None => !self@.contains_key(k@),
            },
    {
        proof {
            lemma_pairs_map(self.pairs());
        }
        let mut i: usize = 0;
        while i < self.entries.len()
            invariant
                self.wf(),
                i <= self.entries.len(),
                forall|j: int| 0 <= j < i ==> !key_at(self.pairs(), j, k@),
            decreases self.entries.len() - i,
        {
            if self.entries[i].0.same(k) {
                assert(self.pairs()[i as int].0 == k@);
                proof {
                    lemma_pairs_map(self.pairs());
                }
                return Some(i);
            }
            i += 1;
        }
        None
    }

    pub fn get(&self, k: &K) -> (r: Option<&V>)
        requires
            self.wf(),
        ensures
            match r {
                Some(v) => self@.contains_key(k@) && *v == self@[k@],
                None => !self@.contains_key(k@),
            },
    {
        match self.position(k) {
            Some(i) => Some(&self.entries[i].1),
            None => None,
        }
    }

    pub fn get_mut(&mut self, k: &K) -> (r: Option<&mut V>)
        requires
            old(self).wf(),
        ensures
            final(self).wf(),
            match r {
                Some(v) => old(self)@.contains_key(k@) && *v == old(self)@[k@] && final(self)@
                    == old(self)@.insert(k@, *final(v)),
                None => !old(self)@.contains_key(k@) && final(self)@ == old(self)@,
            },
    {
        match self.position(k) {
            Some(i) => {
                let ghost before = self.pairs();
                proof {
                    let list = self.entries@;
                    assert forall|e: (K, V)| e.0@ == k@ implies {
                        let after = (#[trigger] list.update(i as int, e)).map_values(
                            |p: (K, V)| (p.0@, p.1),
                        );
                        distinct_keys(after) && pairs_map(after) == pairs_map(before).insert(k@, e.1)
                    } by {
                        let after = list.update(i as int, e).map_values(|p: (K, V)| (p.0@, p.1));
                        assert(after =~= before.update(i as int, (before[i as int].0, e.1)));
                        lemma_pairs_update(before, i as int, e.1);
                    }
                }
                let e = &mut self.entries[i];
                let r = &mut e.1;
                Some(r)
            },
            None => None,
        }
    }

    pub fn contains(&self, k: &K) -> (r: bool)
        requires
            self.wf(),
        ensures
            r == self@.contains_key(k@),
    {
        self.position(k).is_some()
    }

    /// Binds `k` to `v`; an existing binding keeps its place.
    pub fn insert(&mut self, k: K, v: V)
        requires
            old(self).wf(),
        ensures
            final(self).wf(),
            final(self)@ == old(self)@.insert(k@, v),
    {
        match self.position(&k) {
            Some(i) => {
                let ghost before = self.pairs();
                self.entries.set(i, (k, v));
                proof {
                    lemma_pairs_update(before, i as int, v);
                    assert(self.pairs() =~= before.update(i as int, (before[i as int].0, v)));
                }
            },
            None => {
                let ghost before = self.pairs();
                self.entries.push((k, v));
                proof {
                    lemma_pairs_push(before, k@, v);
                    assert(self.pairs() =~= before.push((k@, v)));
                }
            },
        }
    }

    /// Drops the binding of `k` and hands its value out.
    pub fn remove(&mut self, k: &K) -> (r: Option<V>)
        requires
            old(self).wf(),
        ensures
            final(self).wf(),
            final(self)@ == old(self)@.remove(k@),
            match r {
                Some(v) => old(self)@.contains_key(k@) && v == old(self)@[k@],
                None => !old(self)@.contains_key(k@),
            },
    {
        match self.position(k) {
            Some(i) => {
                let ghost before = self.pairs();
                let e = self.entries.remove(i);
                proof {
                    lemma_pairs_remove(before, i as int);
                    assert(self.pairs() =~= before.remove(i as int));
                }
                Some(e.1)
            },
            None => {
                assert(self@.remove(k@) =~= self@);
                None
            },
        }
    }
}

} // verus!
