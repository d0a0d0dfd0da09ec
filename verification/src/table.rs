//! The table: its state, what it stands for, and its operations.

use crate::entry::Entry;
use crate::key::{hash_key, TableKey};
use crate::slots::{
    absent, ahead, contents, home, lemma_counts_bounded, lemma_occupied_prefix,
    lemma_prefix_step, lemma_probe_decides, lemma_vacant_exists, lemma_wf_clear, lemma_wf_fill,
    lemma_wf_replace, lemma_wf_vacant, occupied_count, probe_ends, slots_wf, solid, unique_keys,
    vacant_count, within,
};
use vstd::prelude::*;

verus! {

/// An open-addressing hash table from keys to values.
///
/// The table starts with no slots. The first insertion allocates 64 of them,
/// and later rebuilds double the array or keep its size.
pub struct HashMap<Key, Val> {
    xs: Vec<Entry<Key, Val>>,
    n_occupied: usize,
    n_vacant: usize,
}

impl<Key: TableKey, Val> View for HashMap<Key, Val> {
    type V = Map<Key::V, Val>;

    /// The map from the views of the stored keys to their values.
    closed spec fn view(&self) -> Map<Key::V, Val> {
        contents(self.xs@)
    }
}

impl<Key: TableKey, Val> HashMap<Key, Val> {
    /// The table is consistent: its counters agree with its slots, no key is
    /// stored twice, and every stored key is found by its probe.
    pub closed spec fn wf(&self) -> bool {
        &&& slots_wf(self.xs@)
        &&& self.n_occupied == occupied_count(self.xs@)
        &&& self.n_vacant == vacant_count(self.xs@)
    }

    /// The number of stored pairs.
    pub closed spec fn spec_len(&self) -> nat {
        self.n_occupied as nat
    }

    /// The number of slots.
    pub closed spec fn spec_capacity(&self) -> nat {
        self.xs@.len()
    }

    /// The number of vacant slots. The slots that are not vacant are the
    /// occupied ones and the tombstones.
    pub closed spec fn spec_vacant(&self) -> nat {
        self.n_vacant as nat
    }

    /// Whether the load factor, the fraction of the slots that are not
    /// vacant, has reached three quarters. A table without slots counts as
    /// fully loaded.
    pub open spec fn spec_load_reached(&self) -> bool {
        self.spec_capacity() == 0 || 4 * (self.spec_capacity() - self.spec_vacant()) >= 3
            * self.spec_capacity()
    }

    /// Whether more than three quarters of the slots are occupied. A table
    /// without slots counts as crowded.
    pub open spec fn spec_crowded(&self) -> bool {
        self.spec_capacity() == 0 || 4 * self.spec_len() > 3 * self.spec_capacity()
    }

    /// The capacity that a rebuild gives the table: twice the capacity if
    /// the table is crowded, the same capacity if it is not, and 64 at least.
    pub open spec fn rebuilt_capacity(&self) -> nat {
        let grown = if self.spec_crowded() {
            2 * self.spec_capacity()
        } else {
            self.spec_capacity()
        };
        if grown < 64 {
            64
        } else {
            grown
        }
    }

    /// What a lookup of `key` finds: the value stored under the key, if
    /// there is one.
    pub open spec fn spec_get(&self, key: &Key) -> Option<&Val> {
        if self@.contains_key(key@) {
            Some(&self@[key@])
        } else {
            None
        }
    }

    /// The table is as `new` makes it: empty and without slots.
    pub open spec fn fresh(&self) -> bool {
        &&& self.wf()
        &&& self@ == Map::<Key::V, Val>::empty()
        &&& self.spec_len() == 0
        &&& self.spec_capacity() == 0
        &&& self.spec_vacant() == 0
    }

    /// `post` and `previous` are what `insert(key, val)` makes of this table
    /// and returns.
    ///
    /// The pair is in the map, and the value that the key had before comes
    /// back. A new key takes one vacant slot. If the load factor had reached
    /// three quarters, the pair was written into a rebuilt table, which has
    /// no tombstones; otherwise the capacity is unchanged.
    pub open spec fn inserts(&self, key: Key, val: Val, post: Self, previous: Option<Val>) -> bool {
        let added = if self@.contains_key(key@) {
            0nat
        } else {
            1nat
        };
        &&& post.wf()
        &&& post@ == self@.insert(key@, val)
        &&& previous == (if self@.contains_key(key@) {
            Some(self@[key@])
        } else {
            None
        })
        &&& post.spec_len() == self.spec_len() + added
        &&& if self.spec_load_reached() {
            &&& post.spec_capacity() == self.rebuilt_capacity()
            &&& post.spec_vacant() == self.rebuilt_capacity() - self.spec_len() - added
        } else {
            &&& post.spec_capacity() == self.spec_capacity()
            &&& post.spec_vacant() == self.spec_vacant() - added
        }
    }

    /// `post` and `removed` are what `remove(key)` makes of this table and
    /// returns.
    ///
    /// The key is not in the map any more, and the value that it had comes
    /// back. The slot of a removed pair becomes a tombstone, so neither the
    /// capacity nor the number of vacant slots changes.
    pub open spec fn removes(&self, key: &Key, post: Self, removed: Option<Val>) -> bool {
        &&& post.wf()
        &&& post@ == self@.remove(key@)
        &&& removed == (if self@.contains_key(key@) {
            Some(self@[key@])
        } else {
            None
        })
        &&& post.spec_len() == self.spec_len() - (if self@.contains_key(key@) {
            1nat
        } else {
            0nat
        })
        &&& post.spec_capacity() == self.spec_capacity()
        &&& post.spec_vacant() == self.spec_vacant()
    }

    /// `post` is this table after `val` was written through the handle that
    /// `get_mut(key)` gave: the key has the new value and nothing else
    /// changed.
    pub open spec fn writes(&self, key: &Key, val: Val, post: Self) -> bool {
        &&& post.wf()
        &&& self@.contains_key(key@)
        &&& post@ == self@.insert(key@, val)
        &&& post.spec_len() == self.spec_len()
        &&& post.spec_capacity() == self.spec_capacity()
        &&& post.spec_vacant() == self.spec_vacant()
    }

    /// What every well-formed table satisfies: the length is the size of the
    /// map, the capacity is 0 or at least 64, no slot is counted twice, and
    /// at most one slot more than three quarters of the slots is in use.
    pub proof fn lemma_wf_bounds(&self)
        requires
            self.wf(),
        ensures
            self@.dom().finite(),
            self.spec_len() == self@.len(),
            self.spec_capacity() == 0 || self.spec_capacity() >= 64,
            self.spec_capacity() <= usize::MAX,
            self.spec_len() + self.spec_vacant() <= self.spec_capacity(),
            4 * (self.spec_capacity() - self.spec_vacant()) <= 3 * self.spec_capacity() + 4,
    {
        lemma_counts_bounded(self.xs@);
        assert(self.xs@.len() == self.xs.len());
    }

    /// An empty table without slots.
    pub fn new() -> (table: Self)
        ensures
            table.fresh(),
    {
        let table = Self { xs: Vec::new(), n_occupied: 0, n_vacant: 0 };
        assert(contents(table.xs@) =~= Map::<Key::V, Val>::empty());
        table
    }

    /// The number of stored pairs.
    pub fn len(&self) -> (n: usize)
        requires
            self.wf(),
        ensures
            n == self.spec_len(),
            n == self@.len(),
    {
        self.n_occupied
    }

    /// The number of slots.
    pub fn capacity(&self) -> (n: usize)
        ensures
            n == self.spec_capacity(),
    {
        self.xs.len()
    }

    /// The slot at which the probe for `key` starts.
    fn get_index(&self, key: &Key) -> (idx: usize)
        requires
            self.xs@.len() > 0,
        ensures
            idx == home::<Key>(key@, self.xs@.len() as int),
            idx < self.xs@.len(),
    {
        (hash_key(key) % (self.xs.len() as u64)) as usize
    }

    /// Walks the probe path of `key` to the slot that ends it: the first
    /// one that is vacant or holds the key.
    fn probe(&self, key: &Key) -> (idx: usize)
        requires
            self.wf(),
            self.xs@.len() > 0,
        ensures
            probe_ends(self.xs@, key@, idx as int),
    {
        let n = self.xs.len();
        let mut idx = self.get_index(key);
        let ghost start = idx as int;
        let ghost mut d: int = 0;
        loop
            invariant
                n == self.xs@.len(),
                self.n_vacant == vacant_count(self.xs@),
                self.n_vacant > 0,
                start == home::<Key>(key@, n as int),
                0 <= start < n,
                0 <= d < n,
                idx == ahead(start, d, n as int),
                solid(self.xs@, start, d),
                absent(self.xs@, start, d, key@),
            ensures
                probe_ends(self.xs@, key@, idx as int),
            decreases n - d,
        {
            match &self.xs[idx] {
                Entry::Vacant => {
                    break ;
                },
                Entry::Occupied { key: k, .. } => {
                    if k.same(key) {
                        break ;
                    }
                },
                _ => {},
            }
            proof {
                if d + 1 == n {
                    // Every slot was visited and none is vacant.
                    let v = lemma_vacant_exists(self.xs@);
                    assert(within(start, d + 1, n as int, v));
                    assert(false);
                }
                d = d + 1;
                if idx + 1 < n {
                    vstd::arithmetic::div_mod::lemma_small_mod((idx + 1) as nat, n as nat);
                } else {
                    vstd::arithmetic::div_mod::lemma_mod_self_0(n as int);
                }
            }
            idx = (idx + 1) % n;
        }
        idx
    }

    /// The value stored under `key`, if there is one.
    pub fn get(&self, key: &Key) -> (found: Option<&Val>)
        requires
            self.wf(),
        ensures
            found == self.spec_get(key),
    {
        if self.len() == 0 {
            return None;
        }
        let idx = self.probe(key);
        proof {
            lemma_probe_decides(self.xs@, key@, idx as int);
        }
        match &self.xs[idx] {
            Entry::Occupied { val, .. } => Some(val),
            _ => None,
        }
    }

    /// A handle on the value stored under `key`, if there is one. Writing
    /// through the handle changes that value and nothing else.
    pub fn get_mut(&mut self, key: &Key) -> (found: Option<&mut Val>)
        requires
            old(self).wf(),
        ensures
            final(self).wf(),
            match found {
                Some(val) => *val == old(self)@[key@] && old(self).writes(
                    key,
                    *final(val),
                    *final(self),
                ),
                None => {
                    &&& !old(self)@.contains_key(key@)
                    &&& final(self)@ == old(self)@
                    &&& final(self).spec_len() == old(self).spec_len()
                    &&& final(self).spec_capacity() == old(self).spec_capacity()
                    &&& final(self).spec_vacant() == old(self).spec_vacant()
                },
            },
    {
        if self.len() == 0 {
            return None;
        }
        let idx = self.probe(key);
        let ghost s = self.xs@;
        proof {
            lemma_probe_decides(s, key@, idx as int);
            // Whatever is written through the handle, the slot keeps its key.
            assert forall|e: Entry<Key, Val>|
                e is Occupied && s[idx as int] is Occupied && e->key == s[idx as int]->key implies {
                    let t = #[trigger] s.update(idx as int, e);
                    &&& slots_wf(t)
                    &&& contents(t) == contents(s).insert(key@, e->val)
                    &&& vacant_count(t) == vacant_count(s)
                    &&& occupied_count(t) == occupied_count(s)
                } by {
                lemma_wf_replace(s, idx as int, e->val);
            }
            assert(s.update(idx as int, s[idx as int]) =~= s);
        }
        match &mut self.xs[idx] {
            Entry::Occupied { val, .. } => Some(val),
            _ => None,
        }
    }

    /// Removes the pair stored under `key`, if there is one, and returns its
    /// value. The slot becomes a tombstone.
    pub fn remove(&mut self, key: &Key) -> (removed: Option<Val>)
        requires
            old(self).wf(),
        ensures
            final(self).wf(),
            old(self).removes(key, *final(self), removed),
    {
        if self.len() == 0 {
            assert(self@.remove(key@) =~= self@);
            return None;
        }
        let idx = self.probe(key);
        let ghost s = self.xs@;
        proof {
            lemma_probe_decides(s, key@, idx as int);
            if s[idx as int] is Occupied {
                lemma_wf_clear(s, idx as int);
            } else {
                assert(self@.remove(key@) =~= self@);
            }
        }
        let result = self.xs[idx].take();
        proof {
            if s[idx as int] is Occupied {
                assert(self.xs@ =~= s.update(idx as int, Entry::Tombstone));
            } else {
                assert(self.xs@ =~= s);
            }
        }
        if result.is_some() {
            self.n_occupied -= 1;
        }
        result
    }

    /// Stores the pair at the end of the probe for `key`: in place of the
    /// value of the slot that holds the key, or in the first vacant slot.
    fn insert_helper(&mut self, key: Key, val: Val) -> (previous: Option<Val>)
        requires
            old(self).wf(),
            old(self).xs@.len() > 0,
            4 * (old(self).xs@.len() - old(self).n_vacant) <= 3 * old(self).xs@.len(),
        ensures
            final(self).wf(),
            final(self)@ == old(self)@.insert(key@, val),
            previous == (if old(self)@.contains_key(key@) {
                Some(old(self)@[key@])
            } else {
                None
            }),
            final(self).xs@.len() == old(self).xs@.len(),
            final(self).n_occupied == old(self).n_occupied + (if old(self)@.contains_key(key@) {
                0nat
            } else {
                1nat
            }),
            final(self).n_vacant == old(self).n_vacant - (if old(self)@.contains_key(key@) {
                0nat
            } else {
                1nat
            }),
    {
        let idx = self.probe(&key);
        let ghost s = self.xs@;
        proof {
            lemma_probe_decides(s, key@, idx as int);
            lemma_counts_bounded(s);
            assert(s.len() == self.xs.len());
        }
        if let Entry::Vacant = &self.xs[idx] {
            proof {
                lemma_wf_fill(s, idx as int, key, val);
            }
            self.xs[idx] = Entry::Occupied { key, val };
            self.n_occupied += 1;
            self.n_vacant -= 1;
            proof {
                assert(self.xs@ =~= s.update(idx as int, Entry::Occupied { key, val }));
            }
            None
        } else {
            proof {
                lemma_wf_replace(s, idx as int, val);
            }
            let previous = self.xs[idx].replace(val);
            proof {
                assert(self.xs@ =~= s.update(
                    idx as int,
                    Entry::Occupied { key: s[idx as int]->key, val },
                ));
            }
            previous
        }
    }

    /// Whether the load factor has reached three quarters.
    fn load_reached(&self) -> (reached: bool)
        requires
            self.wf(),
        ensures
            reached == self.spec_load_reached(),
    {
        if self.xs.is_empty() {
            true
        } else {
            proof {
                lemma_counts_bounded(self.xs@);
            }
            4 * ((self.xs.len() - self.n_vacant) as u128) >= 3 * (self.xs.len() as u128)
        }
    }

    /// Whether more than three quarters of the slots are occupied.
    fn crowded(&self) -> (crowded: bool)
        requires
            self.wf(),
        ensures
            crowded == self.spec_crowded(),
    {
        if self.xs.is_empty() {
            true
        } else {
            4 * (self.n_occupied as u128) > 3 * (self.xs.len() as u128)
        }
    }

    /// A table of `n` vacant slots.
    fn with_vacant_slots(n: usize) -> (table: Self)
        requires
            n >= 64,
        ensures
            table.wf(),
            table@ == Map::<Key::V, Val>::empty(),
            table.xs@.len() == n,
            table.n_occupied == 0,
            table.n_vacant == n,
    {
        let mut xs: Vec<Entry<Key, Val>> = Vec::new();
        let mut i: usize = 0;
        while i < n
            invariant
                i <= n,
                xs@.len() == i,
                forall|j: int| 0 <= j < xs@.len() ==> #[trigger] xs@[j] is Vacant,
            decreases n - i,
        {
            xs.push(Entry::Vacant);
            i += 1;
        }
        proof {
            lemma_wf_vacant(xs@);
        }
        Self { xs, n_occupied: 0, n_vacant: n }
    }

    /// Rebuilds the table in a fresh slot array, which drops the tombstones.
    /// The array is twice as large as the old one if more than three
    /// quarters of the old slots are occupied, and as large otherwise, and
    /// it has 64 slots at least.
    fn resize(&mut self)
        requires
            old(self).wf(),
            old(self).rebuilt_capacity() <= usize::MAX,
        ensures
            final(self).wf(),
            final(self)@ == old(self)@,
            final(self).spec_len() == old(self).spec_len(),
            final(self).spec_capacity() == old(self).rebuilt_capacity(),
            final(self).spec_capacity() >= 64,
            final(self).spec_vacant() == final(self).spec_capacity() - final(self).spec_len(),
            4 * final(self).spec_len() <= 3 * final(self).spec_capacity(),
    {
        let resize_factor: usize = if self.crowded() {
            2
        } else {
            1
        };
        let grown = self.xs.len() * resize_factor;
        let new_size = if grown < 64 {
            64
        } else {
            grown
        };
        let mut new_table = Self::with_vacant_slots(new_size);

        let mut old_xs: Vec<Entry<Key, Val>> = Vec::new();
        std::mem::swap(&mut self.xs, &mut old_xs);
        let ghost s = old_xs@;
        proof {
            lemma_counts_bounded(s);
            assert(s.subrange(0, 0) =~= Seq::<Entry<Key, Val>>::empty());
            assert(contents(s.subrange(0, 0)) =~= Map::<Key::V, Val>::empty());
        }
        for entry in it: old_xs
            invariant
                it.seq() == s,
                unique_keys(s),
                4 * occupied_count(s) <= 3 * new_size,
                new_table.wf(),
                new_table.xs@.len() == new_size,
                new_table.n_occupied + new_table.n_vacant == new_size,
                new_table.n_occupied == occupied_count(s.subrange(0, it.index())),
                new_table@ == contents(s.subrange(0, it.index())),
        {
            proof {
                lemma_prefix_step(s, it.index());
                lemma_occupied_prefix(s, it.index() + 1);
            }
            if let Entry::Occupied { key, val } = entry {
                new_table.insert_helper(key, val);
            }
        }
        proof {
            assert(s.subrange(0, s.len() as int) =~= s);
        }
        std::mem::swap(self, &mut new_table);
    }

    /// Stores `val` under `key` and returns the value that was stored under
    /// it before, if there was one.
    ///
    /// If the load factor has reached three quarters, the table is rebuilt
    /// first.
    pub fn insert(&mut self, key: Key, val: Val) -> (previous: Option<Val>)
        requires
            old(self).wf(),
            old(self).rebuilt_capacity() <= usize::MAX,
        ensures
            final(self).wf(),
            old(self).inserts(key, val, *final(self), previous),
    {
        if self.load_reached() {
            self.resize();
        }
        self.insert_helper(key, val)
    }
}

} // verus!
