//! Laws that relate the operations of the table to each other.
//!
//! Each law speaks of tables before and after calls, through the relations
//! that the operations promise: `inserts`, `removes`, `writes` and
//! `spec_get`.

use crate::key::TableKey;
use crate::table::HashMap;
use vstd::prelude::*;

verus! {

/// One change to a table.
pub enum Step<Key, Val> {
    /// `insert(key, val)`
    Insert { key: Key, val: Val },
    /// `remove(key)`
    Remove { key: Key },
    /// `val` written through the handle of `get_mut(key)`
    Write { key: Key, val: Val },
}

impl<Key: TableKey, Val> Step<Key, Val> {
    /// The view of the key that the step is about.
    pub open spec fn key_view(&self) -> Key::V {
        match *self {
            Step::Insert { key, .. } => key@,
            Step::Remove { key } => key@,
            Step::Write { key, .. } => key@,
        }
    }

    /// The step leads from `pre` to `post`.
    pub open spec fn leads(&self, pre: HashMap<Key, Val>, post: HashMap<Key, Val>) -> bool {
        match *self {
            Step::Insert { key, val } => exists|previous: Option<Val>|
                pre.inserts(key, val, post, previous),
            Step::Remove { key } => exists|removed: Option<Val>| pre.removes(&key, post, removed),
            Step::Write { key, val } => pre.writes(&key, val, post),
        }
    }
}

/// The views of the first `n` keys of `keys`.
pub open spec fn key_views<Key: TableKey>(keys: Seq<Key>, n: int) -> Set<Key::V> {
    Set::new(|k: Key::V| exists|j: int| 0 <= j < n && (#[trigger] keys[j])@ == k)
}

/// After the first `n` of a run of insertions of distinct keys that the
/// table did not hold, the table holds `n` keys more, and no insertion has
/// returned a value.
pub proof fn lemma_distinct_inserts<Key: TableKey, Val>(
    tables: Seq<HashMap<Key, Val>>,
    keys: Seq<Key>,
    vals: Seq<Val>,
    previous: Seq<Option<Val>>,
    n: int,
)
    requires
        tables.len() == keys.len() + 1,
        vals.len() == keys.len(),
        previous.len() == keys.len(),
        tables[0].wf(),
        forall|i: int| 0 <= i < keys.len() ==> !tables[0]@.contains_key((#[trigger] keys[i])@),
        forall|i: int|
            0 <= i < keys.len() ==> (#[trigger] tables[i]).inserts(
                keys[i],
                vals[i],
                tables[i + 1],
                previous[i],
            ),
        forall|i: int, j: int|
            0 <= i < j < keys.len() ==> (#[trigger] keys[i])@ != (#[trigger] keys[j])@,
        0 <= n <= keys.len(),
    ensures
        tables[n].wf(),
        tables[n]@.dom() == tables[0]@.dom().union(key_views(keys, n)),
        tables[n].spec_len() == tables[0].spec_len() + n,
        forall|i: int| 0 <= i < n ==> (#[trigger] previous[i]) is None,
    decreases n,
{
    if n == 0 {
        assert(tables[0]@.dom() =~= tables[0]@.dom().union(key_views(keys, 0)));
    } else {
        lemma_distinct_inserts(tables, keys, vals, previous, n - 1);
        let pre = tables[n - 1];
        let key = keys[n - 1];
        assert(pre.inserts(key, vals[n - 1], tables[n], previous[n - 1]));
        if pre@.contains_key(key@) {
            assert(key_views(keys, n - 1).contains(key@));
            let j = choose|j: int| 0 <= j < n - 1 && (#[trigger] keys[j])@ == key@;
            assert(keys[j]@ != keys[n - 1]@);
        }
        assert forall|k: Key::V| key_views(keys, n).contains(k) <==> key_views(
            keys,
            n - 1,
        ).contains(k) || k == key@ by {
            if key_views(keys, n).contains(k) {
                let j = choose|j: int| 0 <= j < n && (#[trigger] keys[j])@ == k;
                if j < n - 1 {
                    assert(key_views(keys, n - 1).contains(k));
                }
            }
            if key_views(keys, n - 1).contains(k) {
                let j = choose|j: int| 0 <= j < n - 1 && (#[trigger] keys[j])@ == k;
                assert(0 <= j < n && keys[j]@ == k);
            }
            if k == key@ {
                assert(0 <= n - 1 < n && keys[n - 1]@ == k);
            }
        }
        assert(tables[n]@.dom() =~= tables[0]@.dom().union(key_views(keys, n)));
    }
}

/// After any run of insertions of distinct keys that the table did not
/// hold, the length of the table has grown by the number of keys inserted.
/// From a table as `new` makes it, the length is that number.
pub proof fn law_len_counts_distinct_keys<Key: TableKey, Val>(
    tables: Seq<HashMap<Key, Val>>,
    keys: Seq<Key>,
    vals: Seq<Val>,
    previous: Seq<Option<Val>>,
)
    requires
        tables.len() == keys.len() + 1,
        vals.len() == keys.len(),
        previous.len() == keys.len(),
        tables[0].wf(),
        forall|i: int| 0 <= i < keys.len() ==> !tables[0]@.contains_key((#[trigger] keys[i])@),
        forall|i: int|
            0 <= i < keys.len() ==> (#[trigger] tables[i]).inserts(
                keys[i],
                vals[i],
                tables[i + 1],
                previous[i],
            ),
        forall|i: int, j: int|
            0 <= i < j < keys.len() ==> (#[trigger] keys[i])@ != (#[trigger] keys[j])@,
    ensures
        tables.last().spec_len() == tables[0].spec_len() + keys.len(),
        tables.last()@.len() == tables[0]@.len() + keys.len(),
        tables[0].fresh() ==> tables.last().spec_len() == keys.len(),
        forall|i: int| 0 <= i < keys.len() ==> (#[trigger] previous[i]) is None,
{
    lemma_distinct_inserts(tables, keys, vals, previous, keys.len() as int);
    tables[0].lemma_wf_bounds();
    tables.last().lemma_wf_bounds();
}

/// A second insertion under the same key returns the value of the first,
/// leaves the length as it was, and a lookup then finds the second value.
pub proof fn law_insert_twice<Key: TableKey, Val>(
    t0: HashMap<Key, Val>,
    t1: HashMap<Key, Val>,
    t2: HashMap<Key, Val>,
    key: Key,
    v1: Val,
    v2: Val,
    out1: Option<Val>,
    out2: Option<Val>,
)
    requires
        t0.wf(),
        t0.inserts(key, v1, t1, out1),
        t1.inserts(key, v2, t2, out2),
    ensures
        out2 == Some(v1),
        t2.spec_len() == t1.spec_len(),
        t2.spec_get(&key) == Some(&v2),
{
}

/// Removing a key that the table does not hold returns nothing and leaves
/// the map and the length as they were.
pub proof fn law_remove_absent<Key: TableKey, Val>(
    t0: HashMap<Key, Val>,
    t1: HashMap<Key, Val>,
    key: Key,
    removed: Option<Val>,
)
    requires
        t0.wf(),
        t0.spec_get(&key) is None,
        t0.removes(&key, t1, removed),
    ensures
        removed is None,
        t1.spec_len() == t0.spec_len(),
        t1@ == t0@,
{
    assert(t0@.remove(key@) =~= t0@);
}

/// Removing a key returns the value that was last inserted under it and
/// takes one off the length, and a lookup then finds nothing.
pub proof fn law_insert_then_remove<Key: TableKey, Val>(
    t0: HashMap<Key, Val>,
    t1: HashMap<Key, Val>,
    t2: HashMap<Key, Val>,
    key: Key,
    val: Val,
    previous: Option<Val>,
    removed: Option<Val>,
)
    requires
        t0.wf(),
        t0.inserts(key, val, t1, previous),
        t1.removes(&key, t2, removed),
    ensures
        removed == Some(val),
        t2.spec_len() == t1.spec_len() - 1,
        t2.spec_get(&key) is None,
{
}

/// A lookup finds what was inserted, and goes on finding it through any
/// run of steps on other keys.
pub proof fn law_round_trip<Key: TableKey, Val>(
    t0: HashMap<Key, Val>,
    key: Key,
    val: Val,
    previous: Option<Val>,
    tables: Seq<HashMap<Key, Val>>,
    steps: Seq<Step<Key, Val>>,
)
    requires
        t0.wf(),
        tables.len() == steps.len() + 1,
        t0.inserts(key, val, tables[0], previous),
        forall|i: int| 0 <= i < steps.len() ==> (#[trigger] steps[i]).leads(tables[i], tables[i + 1]),
        forall|i: int| 0 <= i < steps.len() ==> (#[trigger] steps[i]).key_view() != key@,
    ensures
        forall|i: int| 0 <= i < tables.len() ==> (#[trigger] tables[i]).spec_get(&key) == Some(&val),
{
    assert forall|i: int| 0 <= i < tables.len() implies (#[trigger] tables[i]).spec_get(&key)
        == Some(&val) by {
        lemma_other_steps_keep(tables, steps, key, val, i);
    }
}

/// Steps on other keys leave the value of `key` as it is.
pub proof fn lemma_other_steps_keep<Key: TableKey, Val>(
    tables: Seq<HashMap<Key, Val>>,
    steps: Seq<Step<Key, Val>>,
    key: Key,
    val: Val,
    n: int,
)
    requires
        tables.len() == steps.len() + 1,
        tables[0].spec_get(&key) == Some(&val),
        forall|i: int| 0 <= i < steps.len() ==> (#[trigger] steps[i]).leads(tables[i], tables[i + 1]),
        forall|i: int| 0 <= i < steps.len() ==> (#[trigger] steps[i]).key_view() != key@,
        0 <= n < tables.len(),
    ensures
        tables[n].spec_get(&key) == Some(&val),
    decreases n,
{
    if n > 0 {
        lemma_other_steps_keep(tables, steps, key, val, n - 1);
        assert(steps[n - 1].leads(tables[n - 1], tables[n]));
        assert(steps[n - 1].key_view() != key@);
    }
}

/// An insertion rebuilds the table before it writes whenever the load
/// factor has reached three quarters, and only then. The rebuilt table has
/// 64 slots at least, no tombstones, and at most three quarters of its
/// slots occupied. Either way at most three quarters of the slots were in
/// use when the pair was written.
pub proof fn law_load_stays_bounded<Key: TableKey, Val>(
    t0: HashMap<Key, Val>,
    t1: HashMap<Key, Val>,
    key: Key,
    val: Val,
    previous: Option<Val>,
)
    requires
        t0.wf(),
        t0.inserts(key, val, t1, previous),
    ensures
        t1.spec_capacity() >= 64,
        !t0.spec_load_reached() ==> t1.spec_capacity() == t0.spec_capacity(),
        t0.spec_load_reached() ==> {
            &&& t1.spec_capacity() == t0.rebuilt_capacity()
            &&& 4 * t0.spec_len() <= 3 * t1.spec_capacity()
            &&& t1.spec_len() + t1.spec_vacant() == t1.spec_capacity()
        },
        4 * (t1.spec_capacity() - t1.spec_vacant() - (t1.spec_len() - t0.spec_len())) <= 3
            * t1.spec_capacity(),
{
    t0.lemma_wf_bounds();
    t1.lemma_wf_bounds();
}

/// Inserting a key, removing it and inserting it again brings the length
/// back to what it was after the first insertion, with the counters still
/// in step with the slots.
pub proof fn law_reinsert_restores_len<Key: TableKey, Val>(
    t0: HashMap<Key, Val>,
    t1: HashMap<Key, Val>,
    t2: HashMap<Key, Val>,
    t3: HashMap<Key, Val>,
    key: Key,
    v1: Val,
    v2: Val,
    out1: Option<Val>,
    removed: Option<Val>,
    out3: Option<Val>,
)
    requires
        t0.wf(),
        t0.inserts(key, v1, t1, out1),
        t1.removes(&key, t2, removed),
        t2.inserts(key, v2, t3, out3),
    ensures
        removed == Some(v1),
        out3 is None,
        t2.spec_len() == t1.spec_len() - 1,
        t3.spec_len() == t1.spec_len(),
        out1 is None ==> t2.spec_len() == t0.spec_len(),
        t3.wf(),
        t3.spec_len() == t3@.len(),
        t3.spec_len() + t3.spec_vacant() <= t3.spec_capacity(),
        t3.spec_get(&key) == Some(&v2),
{
    t3.lemma_wf_bounds();
}

} // verus!
