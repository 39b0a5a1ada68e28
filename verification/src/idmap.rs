//! Ordered collections keyed by participant identifiers.
//!
//! Participant bookkeeping needs a set of identifiers and mappings from an
//! identifier to received round data. Both are kept as vectors sorted
//! strictly by identifier: membership is unambiguous, and iteration order is
//! deterministic across participants, so anything derived from walking a
//! collection is reproducible.

use vstd::prelude::*;

verus! {

/// Whether the identifier sequence is strictly increasing.
pub open spec fn ids_sorted(s: Seq<usize>) -> bool {
    forall|i: int, j: int| 0 <= i < j < s.len() ==> s[i] < s[j]
}

/// Whether the entry sequence has strictly increasing keys.
pub open spec fn entries_sorted<V>(m: Seq<(usize, V)>) -> bool {
    forall|i: int, j: int| 0 <= i < j < m.len() ==> (#[trigger] m[i]).0 < (#[trigger] m[j]).0
}

/// Whether some entry of `m` has key `k`.
pub open spec fn map_has<V>(m: Seq<(usize, V)>, k: usize) -> bool {
    exists|i: int| 0 <= i < m.len() && (#[trigger] m[i]).0 == k
}

/// Whether one of the first `n` entries of `m` has key `k`.
pub open spec fn prefix_has<V>(m: Seq<(usize, V)>, n: int, k: usize) -> bool {
    exists|i: int| 0 <= i < n && i < m.len() && (#[trigger] m[i]).0 == k
}

/// The index of the entry of `m` with key `k`.
pub open spec fn map_idx<V>(m: Seq<(usize, V)>, k: usize) -> int {
    choose|i: int| 0 <= i < m.len() && (#[trigger] m[i]).0 == k
}

/// The value of the entry of `m` with key `k`.
pub open spec fn map_val<V>(m: Seq<(usize, V)>, k: usize) -> V {
    m[map_idx(m, k)].1
}

/// A set of participant identifiers, kept strictly sorted.
pub struct IdSet {
    items: Vec<usize>,
}

impl View for IdSet {
    type V = Seq<usize>;

    closed spec fn view(&self) -> Seq<usize> {
        self.items@
    }
}

impl IdSet {
    #[verifier::type_invariant]
    spec fn wf(self) -> bool {
        ids_sorted(self.items@)
    }

    /// The empty identifier set.
    pub fn new() -> (r: IdSet)
        ensures
            r@ == Seq::<usize>::empty(),
    {
        IdSet { items: Vec::new() }
    }

    /// How many identifiers the set holds.
    pub fn len(&self) -> (r: usize)
        ensures
            r == self@.len(),
    {
        self.items.len()
    }

    /// The identifiers are strictly increasing.
    pub fn sorted_lemma(&self)
        ensures
            ids_sorted(self@),
    {
        proof {
            use_type_invariant(self);
        }
    }

    /// The identifier at position `i` in increasing order.
    pub fn elem_at(&self, i: usize) -> (r: usize)
        requires
            i < self@.len(),
        ensures
            r == self@[i as int],
    {
        self.items[i]
    }

    /// Whether `k` is in the set.
    pub fn contains(&self, k: usize) -> (r: bool)
        ensures
            r == self@.contains(k),
    {
        let mut i: usize = 0;
        while i < self.items.len()
            invariant
                i <= self.items@.len(),
                forall|j: int| 0 <= j < i ==> self.items@[j] != k,
        decreases self.items@.len() - i,
        {
            if self.items[i] == k {
                return true;
            }
            i += 1;
        }
        false
    }

    /// Add `k` to the set; adding a present identifier changes nothing.
    pub fn insert(&mut self, k: usize)
        ensures
            final(self)@.contains(k),
            forall|j: usize| #[trigger] final(self)@.contains(j) <==> (old(self)@.contains(j) || j == k),
            old(self)@.contains(k) ==> final(self)@ == old(self)@,
            !old(self)@.contains(k) ==> final(self)@.len() == old(self)@.len() + 1,
    {
        proof {
            use_type_invariant(&*self);
        }
        let mut items: Vec<usize> = Vec::new();
        std::mem::swap(&mut items, &mut self.items);
        let mut i: usize = 0;
        while i < items.len() && items[i] < k
            invariant
                i <= items@.len(),
                ids_sorted(items@),
                self.items@.len() == 0,
                forall|j: int| 0 <= j < i ==> items@[j] < k,
            decreases items@.len() - i,
        {
            i += 1;
        }
        if i < items.len() && items[i] == k {
            proof {
                assert(items@.contains(k));
            }
            std::mem::swap(&mut items, &mut self.items);
            return;
        }
        proof {
            assert(forall|j: int| 0 <= j < items@.len() ==> items@[j] != k) by {
                assert(forall|j: int| i < j < items@.len() ==> items@[j] > items@[i as int]);
            }
            assert(!items@.contains(k));
        }
        let ghost before = items@;
        items.insert(i, k);
        proof {
            assert(forall|x: int| 0 <= x < i ==> items@[x] == before[x]);
            assert(forall|x: int| i < x < items@.len() ==> items@[x] == before[x - 1]);
            assert(items@[i as int] == k);
            assert forall|j: usize| #[trigger] items@.contains(j) implies (before.contains(j) || j == k) by {
                let x = choose|x: int| 0 <= x < items@.len() && items@[x] == j;
                if x < i {
                    assert(before[x] == j);
                } else if x > i {
                    assert(before[x - 1] == j);
                }
            }
            assert forall|j: usize| before.contains(j) || j == k implies #[trigger] items@.contains(j) by {
                if before.contains(j) {
                    let x = choose|x: int| 0 <= x < before.len() && before[x] == j;
                    if x < i {
                        assert(items@[x] == j);
                    } else {
                        assert(items@[x + 1] == j);
                    }
                }
                assert(items@.contains(j));
            }
            assert(ids_sorted(items@)) by {
                assert forall|x: int, y: int| 0 <= x < y < items@.len() implies items@[x] < items@[y] by {
                    if y == i {
                        assert(items@[x] == before[x]);
                    } else if x == i && y > i {
                        assert(items@[y] == before[y - 1]);
                        assert(before[y - 1] > k);
                    } else if x < i && y > i {
                        assert(items@[x] == before[x]);
                        assert(items@[y] == before[y - 1]);
                        if y - 1 < i {
                            assert(before[y - 1] < k);
                        } else {
                            assert(before[y - 1] > k);
                        }
                    }
                }
            }
        }
        std::mem::swap(&mut items, &mut self.items);
    }

    /// Whether the two sets hold exactly the same identifiers.
    pub fn equals(&self, other: &IdSet) -> (r: bool)
        ensures
            r == (self@ == other@),
    {
        if self.items.len() != other.items.len() {
            return false;
        }
        let mut i: usize = 0;
        let mut ok = true;
        while i < self.items.len()
            invariant
                i <= self.items@.len(),
                self.items@.len() == other.items@.len(),
                ok == (forall|j: int| 0 <= j < i ==> self.items@[j] == other.items@[j]),
            decreases self.items@.len() - i,
        {
            ok = ok && self.items[i] == other.items[i];
            i += 1;
        }
        proof {
            if ok {
                assert(self.items@ =~= other.items@);
            }
        }
        ok
    }
}

impl Clone for IdSet {
    fn clone(&self) -> (r: Self)
        ensures
            r@ == self@,
    {
        proof {
            use_type_invariant(self);
        }
        let mut items: Vec<usize> = Vec::new();
        let mut i: usize = 0;
        while i < self.items.len()
            invariant
                i <= self.items@.len(),
                items@ == self.items@.subrange(0, i as int),
            decreases self.items@.len() - i,
        {
            items.push(self.items[i]);
            i += 1;
        }
        proof {
            assert(items@ =~= self.items@);
        }
        IdSet { items }
    }
}

/// A mapping from participant identifiers to round data, kept strictly
/// sorted by identifier.
pub struct IdMap<V> {
    entries: Vec<(usize, V)>,
}

impl<V> View for IdMap<V> {
    type V = Seq<(usize, V)>;

    closed spec fn view(&self) -> Seq<(usize, V)> {
        self.entries@
    }
}

impl<V> IdMap<V> {
    #[verifier::type_invariant]
    spec fn wf(self) -> bool {
        entries_sorted(self.entries@)
    }

    /// The empty mapping.
    pub fn new() -> (r: IdMap<V>)
        ensures
            r@ == Seq::<(usize, V)>::empty(),
    {
        IdMap { entries: Vec::new() }
    }

    /// How many entries the mapping holds.
    pub fn len(&self) -> (r: usize)
        ensures
            r == self@.len(),
    {
        self.entries.len()
    }

    /// The keys are strictly increasing.
    pub fn sorted_lemma(&self)
        ensures
            entries_sorted(self@),
    {
        proof {
            use_type_invariant(self);
        }
    }

    /// The key of the entry at position `i` in increasing key order.
    pub fn key_at(&self, i: usize) -> (r: usize)
        requires
            i < self@.len(),
        ensures
            r == self@[i as int].0,
            map_has(self@, r),
            map_val(self@, r) == self@[i as int].1,
    {
        proof {
            use_type_invariant(self);
            let k = self.entries@[i as int].0;
            assert(map_has(self.entries@, k));
            lemma_entry_unique(self.entries@, map_idx(self.entries@, k), i as int);
        }
        self.entries[i].0
    }

    /// A borrow of the value at position `i` in increasing key order.
    pub fn val_at(&self, i: usize) -> (r: &V)
        requires
            i < self@.len(),
        ensures
            *r == self@[i as int].1,
    {
        &self.entries[i].1
    }

    /// Whether some entry has key `k`.
    pub fn contains_key(&self, k: usize) -> (r: bool)
        ensures
            r == map_has(self@, k),
    {
        let mut i: usize = 0;
        while i < self.entries.len()
            invariant
                i <= self.entries@.len(),
                forall|j: int| 0 <= j < i ==> (#[trigger] self.entries@[j]).0 != k,
            decreases self.entries@.len() - i,
        {
            if self.entries[i].0 == k {
                proof {
                    assert(map_has(self.entries@, k));
                }
                return true;
            }
            i += 1;
        }
        false
    }

    /// A borrow of the value stored under `k`, if any.
    pub fn get(&self, k: usize) -> (r: Option<&V>)
        ensures
            match r {
                Some(v) => map_has(self@, k) && *v == map_val(self@, k),
                None => !map_has(self@, k),
            },
    {
        proof {
            use_type_invariant(self);
        }
        let mut i: usize = 0;
        while i < self.entries.len()
            invariant
                i <= self.entries@.len(),
                entries_sorted(self.entries@),
                forall|j: int| 0 <= j < i ==> (#[trigger] self.entries@[j]).0 != k,
            decreases self.entries@.len() - i,
        {
            if self.entries[i].0 == k {
                proof {
                    assert(map_has(self.entries@, k));
                    lemma_entry_unique(self.entries@, map_idx(self.entries@, k), i as int);
                }
                return Some(&self.entries[i].1);
            }
            i += 1;
        }
        None
    }

    /// Store `v` under `k`, replacing any entry already there.
    pub fn insert(&mut self, k: usize, v: V)
        ensures
            map_has(final(self)@, k),
            map_val(final(self)@, k) == v,
            forall|j: usize| #[trigger] map_has(final(self)@, j) <==> (map_has(old(self)@, j) || j == k),
            forall|j: usize| j != k && #[trigger] map_has(old(self)@, j) ==> map_val(final(self)@, j) == map_val(old(self)@, j),
            final(self)@.len() == if map_has(old(self)@, k) { old(self)@.len() } else { old(self)@.len() + 1 },
    {
        proof {
            use_type_invariant(&*self);
        }
        let mut entries: Vec<(usize, V)> = Vec::new();
        std::mem::swap(&mut entries, &mut self.entries);
        let ghost before = entries@;
        let mut i: usize = 0;
        while i < entries.len() && entries[i].0 < k
            invariant
                i <= entries@.len(),
                entries_sorted(entries@),
                entries@ == before,
                self.entries@.len() == 0,
                forall|j: int| 0 <= j < i ==> (#[trigger] entries@[j]).0 < k,
            decreases entries@.len() - i,
        {
            i += 1;
        }
        let found = i < entries.len() && entries[i].0 == k;
        proof {
            if !found {
                assert(forall|j: int| i < j < entries@.len() ==> (#[trigger] entries@[j]).0 > entries@[i as int].0);
                assert(forall|j: int| i <= j < entries@.len() ==> (#[trigger] entries@[j]).0 > k);
            } else {
                assert(forall|j: int| i < j < entries@.len() ==> (#[trigger] entries@[j]).0 > k);
            }
        }
        if found {
            entries.remove(i);
            proof {
                assert(forall|x: int| 0 <= x < i ==> entries@[x] == before[x]);
                assert(forall|x: int| i <= x < entries@.len() ==> entries@[x] == before[x + 1]);
                assert(entries_sorted(entries@));
                assert(forall|x: int| i <= x < entries@.len() ==> (#[trigger] entries@[x]).0 > k);
            }
        } else {
            proof {
                assert(forall|j: int| 0 <= j < before.len() ==> (#[trigger] before[j]).0 != k);
                assert(!map_has(before, k));
            }
        }
        let ghost mid = entries@;
        entries.insert(i, (k, v));
        proof {
            assert(forall|x: int| 0 <= x < i ==> entries@[x] == mid[x]);
            assert(forall|x: int| i < x < entries@.len() ==> entries@[x] == mid[x - 1]);
            assert(entries@[i as int] == (k, v));
            if found {
                assert(entries@ =~= before.update(i as int, (k, v)));
                lemma_map_update(before, entries@, i as int, k, v);
            } else {
                lemma_map_insert_new(before, entries@, i as int, k, v);
            }
        }
        std::mem::swap(&mut entries, &mut self.entries);
    }
}

/// Two entries of a strictly sorted sequence with the same key are the same
/// entry.
proof fn lemma_entry_unique<V>(m: Seq<(usize, V)>, i: int, j: int)
    requires
        entries_sorted(m),
        0 <= i < m.len(),
        0 <= j < m.len(),
        m[i].0 == m[j].0,
    ensures
        i == j,
{
    if i < j {
        assert(m[i].0 < m[j].0);
    }
    if j < i {
        assert(m[j].0 < m[i].0);
    }
}

/// Replacing the entry at a key's position keeps the sequence sorted and
/// changes only that key's value.
proof fn lemma_map_update<V>(before: Seq<(usize, V)>, after: Seq<(usize, V)>, i: int, k: usize, v: V)
    requires
        entries_sorted(before),
        0 <= i < before.len(),
        before[i].0 == k,
        after == before.update(i, (k, v)),
    ensures
        entries_sorted(after),
        map_has(after, k),
        map_val(after, k) == v,
        forall|j: usize| #[trigger] map_has(after, j) <==> (map_has(before, j) || j == k),
        forall|j: usize| j != k && #[trigger] map_has(before, j) ==> map_val(after, j) == map_val(before, j),
        after.len() == before.len(),
        map_has(before, k),
{
    assert(forall|x: int| 0 <= x < after.len() ==> (#[trigger] after[x]).0 == before[x].0);
    assert(entries_sorted(after));
    assert(map_has(before, k));
    assert(after[i].0 == k);
    assert(map_has(after, k));
    lemma_entry_unique(after, map_idx(after, k), i);
    assert(map_val(after, k) == v);
    assert forall|j: usize| #[trigger] map_has(after, j) implies (map_has(before, j) || j == k) by {
        let x = map_idx(after, j);
        assert(before[x].0 == j);
        assert(map_has(before, j));
    }
    assert forall|j: usize| map_has(before, j) || j == k implies #[trigger] map_has(after, j) by {
        if map_has(before, j) {
            let x = map_idx(before, j);
            assert(after[x].0 == j);
            assert(map_has(after, j));
        }
    }
    assert forall|j: usize| j != k && #[trigger] map_has(before, j) implies map_val(after, j) == map_val(before, j) by {
        let x = map_idx(before, j);
        assert(before[x].0 == j);
        assert(x != i);
        assert(after[x] == before[x]);
        assert(map_has(after, j));
        lemma_entry_unique(after, map_idx(after, j), x);
    }
}

/// Inserting an absent key at its sorted position keeps the sequence sorted,
/// adds exactly that key, and changes no other entry.
proof fn lemma_map_insert_new<V>(before: Seq<(usize, V)>, after: Seq<(usize, V)>, i: int, k: usize, v: V)
    requires
        entries_sorted(before),
        0 <= i <= before.len(),
        forall|x: int| 0 <= x < i ==> (#[trigger] before[x]).0 < k,
        forall|x: int| i <= x < before.len() ==> (#[trigger] before[x]).0 > k,
        after == before.insert(i, (k, v)),
    ensures
        entries_sorted(after),
        map_has(after, k),
        map_val(after, k) == v,
        forall|j: usize| #[trigger] map_has(after, j) <==> (map_has(before, j) || j == k),
        forall|j: usize| j != k && #[trigger] map_has(before, j) ==> map_val(after, j) == map_val(before, j),
        after.len() == before.len() + 1,
        !map_has(before, k),
{
    assert(forall|x: int| 0 <= x < i ==> after[x] == before[x]);
    assert(forall|x: int| i < x < after.len() ==> after[x] == before[x - 1]);
    assert(after[i] == (k, v));
    assert(!map_has(before, k));
    assert(entries_sorted(after)) by {
        assert forall|x: int, y: int| 0 <= x < y < after.len() implies (#[trigger] after[x]).0 < (#[trigger] after[y]).0 by {
            if x < i && y < i {
            } else if x == i {
                assert(after[y] == before[y - 1]);
            } else if y == i {
                assert(after[x] == before[x]);
            } else if x > i {
                assert(after[x] == before[x - 1]);
                assert(after[y] == before[y - 1]);
            } else {
                assert(after[x] == before[x]);
                assert(after[y] == before[y - 1]);
                if y - 1 < i {
                    assert(before[y - 1].0 < k);
                    assert(x < y - 1 || x == y - 1);
                } else {
                    assert(before[x].0 < k);
                    assert(before[y - 1].0 > k);
                }
            }
        }
    }
    assert(map_has(after, k));
    lemma_entry_unique(after, map_idx(after, k), i);
    assert(map_val(after, k) == v);
    assert forall|j: usize| #[trigger] map_has(after, j) implies (map_has(before, j) || j == k) by {
        let x = map_idx(after, j);
        if x != i {
            if x < i {
                assert(before[x].0 == j);
            } else {
                assert(before[x - 1].0 == j);
            }
            assert(map_has(before, j));
        }
    }
    assert forall|j: usize| map_has(before, j) || j == k implies #[trigger] map_has(after, j) by {
        if map_has(before, j) {
            let x = map_idx(before, j);
            if x < i {
                assert(after[x].0 == j);
            } else {
                assert(after[x + 1].0 == j);
            }
        }
        assert(map_has(after, j));
    }
    assert forall|j: usize| j != k && #[trigger] map_has(before, j) implies map_val(after, j) == map_val(before, j) by {
        let x = map_idx(before, j);
        if x < i {
            assert(after[x] == before[x]);
            lemma_entry_unique(after, map_idx(after, j), x);
        } else {
            assert(after[x + 1] == before[x]);
            lemma_entry_unique(after, map_idx(after, j), x + 1);
        }
    }
}

} // verus!
