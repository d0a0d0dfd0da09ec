//! The slot array as a mathematical sequence: how many slots are in which
//! state, which slots a probe visits, and which map the array stands for.

use crate::entry::Entry;
use crate::key::{spec_hash, TableKey};
use vstd::prelude::*;

verus! {

/// Whether slot `e` is occupied by the key with view `k`.
pub open spec fn holds<Key: TableKey, Val>(e: Entry<Key, Val>, k: Key::V) -> bool {
    match e {
        Entry::Occupied { key, .. } => key@ == k,
        _ => false,
    }
}

/// The number of vacant slots of `s`.
pub open spec fn vacant_count<Key, Val>(s: Seq<Entry<Key, Val>>) -> nat
    decreases s.len(),
{
    if s.len() == 0 {
        0
    } else {
        vacant_count(s.drop_last()) + if s.last() is Vacant {
            1nat
        } else {
            0nat
        }
    }
}

/// The number of occupied slots of `s`.
pub open spec fn occupied_count<Key, Val>(s: Seq<Entry<Key, Val>>) -> nat
    decreases s.len(),
{
    if s.len() == 0 {
        0
    } else {
        occupied_count(s.drop_last()) + if s.last() is Occupied {
            1nat
        } else {
            0nat
        }
    }
}

/// The slot at which the probe for the key with view `k` starts in a table
/// of `n` slots: the key's hash modulo `n`.
pub open spec fn home<Key: TableKey>(k: Key::V, n: int) -> int {
    (spec_hash::<Key>(k) as int) % n
}

/// The slot reached `d` steps after `start` in a ring of `n` slots.
pub open spec fn ahead(start: int, d: int, n: int) -> int {
    if start + d < n {
        start + d
    } else {
        start + d - n
    }
}

/// The number of steps from `start` forward to slot `j` in a ring of `n` slots.
pub open spec fn distance(start: int, j: int, n: int) -> int {
    if j >= start {
        j - start
    } else {
        j - start + n
    }
}

/// Whether slot `j` is one of the first `d` slots that a probe from `start`
/// visits in a ring of `n` slots.
pub open spec fn within(start: int, d: int, n: int, j: int) -> bool {
    start <= j < start + d || j < start + d - n
}

/// None of the first `d` slots on the probe path from `start` is vacant.
pub open spec fn solid<Key, Val>(s: Seq<Entry<Key, Val>>, start: int, d: int) -> bool {
    forall|j: int| 0 <= j < s.len() && within(start, d, s.len() as int, j) ==> !(#[trigger] s[j] is Vacant)
}

/// None of the first `d` slots on the probe path from `start` holds `k`.
pub open spec fn absent<Key: TableKey, Val>(
    s: Seq<Entry<Key, Val>>,
    start: int,
    d: int,
    k: Key::V,
) -> bool {
    forall|j: int| 0 <= j < s.len() && within(start, d, s.len() as int, j) ==> !holds(#[trigger] s[j], k)
}

/// The probe for the key in slot `i` reaches slot `i`: no vacant slot lies
/// between the key's home and `i`.
pub open spec fn reachable<Key: TableKey, Val>(s: Seq<Entry<Key, Val>>, i: int) -> bool {
    s[i] is Occupied ==> solid(
        s,
        home::<Key>(s[i]->key@, s.len() as int),
        distance(home::<Key>(s[i]->key@, s.len() as int), i, s.len() as int),
    )
}

/// Every occupied slot is reached by the probe for its key.
pub open spec fn all_reachable<Key: TableKey, Val>(s: Seq<Entry<Key, Val>>) -> bool {
    forall|i: int| 0 <= i < s.len() ==> #[trigger] reachable(s, i)
}

/// No key occupies two slots.
pub open spec fn unique_keys<Key: TableKey, Val>(s: Seq<Entry<Key, Val>>) -> bool {
    forall|i: int, j: int|
        0 <= i < s.len() && 0 <= j < s.len() && i != j && (#[trigger] s[i]) is Occupied && (
        #[trigger] s[j]) is Occupied ==> s[i]->key@ != s[j]->key@
}

/// The map that the slot array stands for: each occupied slot contributes
/// its pair, under the view of its key.
pub open spec fn contents<Key: TableKey, Val>(s: Seq<Entry<Key, Val>>) -> Map<Key::V, Val> {
    Map::new(
        |k: Key::V| exists|i: int| 0 <= i < s.len() && holds(#[trigger] s[i], k),
        |k: Key::V| s[choose|i: int| 0 <= i < s.len() && holds(#[trigger] s[i], k)]->val,
    )
}

/// The probe for `k` ends at slot `idx`: every slot before it on the path
/// from the key's home is neither vacant nor a match, and slot `idx` is one
/// or the other.
pub open spec fn probe_ends<Key: TableKey, Val>(
    s: Seq<Entry<Key, Val>>,
    k: Key::V,
    idx: int,
) -> bool {
    let n = s.len() as int;
    let start = home::<Key>(k, n);
    let d = distance(start, idx, n);
    &&& 0 <= idx < n
    &&& solid(s, start, d)
    &&& absent(s, start, d, k)
    &&& (s[idx] is Vacant || holds(s[idx], k))
}

/// What holds of the slot array of every table: the keys are unique, every
/// key is on its probe path, the capacity is 0 or at least 64, at most one
/// slot more than three quarters of the slots is in use, and the number of
/// occupied slots is the size of the map.
pub open spec fn slots_wf<Key: TableKey, Val>(s: Seq<Entry<Key, Val>>) -> bool {
    &&& s.len() == 0 || s.len() >= 64
    &&& unique_keys(s)
    &&& all_reachable(s)
    &&& 4 * (s.len() - vacant_count(s)) <= 3 * s.len() + 4
    &&& contents(s).dom().finite()
    &&& contents(s).dom().len() == occupied_count(s)
}

/// A slot is counted once at most.
pub proof fn lemma_counts_bounded<Key, Val>(s: Seq<Entry<Key, Val>>)
    ensures
        vacant_count(s) + occupied_count(s) <= s.len(),
    decreases s.len(),
{
    if s.len() > 0 {
        lemma_counts_bounded(s.drop_last());
    }
}

/// An array with a positive vacant count has a vacant slot.
pub proof fn lemma_vacant_exists<Key, Val>(s: Seq<Entry<Key, Val>>) -> (i: int)
    requires
        vacant_count(s) > 0,
    ensures
        0 <= i < s.len(),
        s[i] is Vacant,
    decreases s.len(),
{
    if s.last() is Vacant {
        s.len() - 1
    } else {
        lemma_vacant_exists(s.drop_last())
    }
}

/// Appending a slot adds it to the counts.
pub proof fn lemma_counts_push<Key, Val>(s: Seq<Entry<Key, Val>>, e: Entry<Key, Val>)
    ensures
        vacant_count(s.push(e)) == vacant_count(s) + if e is Vacant {
            1nat
        } else {
            0nat
        },
        occupied_count(s.push(e)) == occupied_count(s) + if e is Occupied {
            1nat
        } else {
            0nat
        },
{
    assert(s.push(e).drop_last() =~= s);
}

/// Writing slot `i` moves the counts by the difference between the old and
/// the new state of that slot.
pub proof fn lemma_counts_update<Key, Val>(s: Seq<Entry<Key, Val>>, i: int, e: Entry<Key, Val>)
    requires
        0 <= i < s.len(),
    ensures
        vacant_count(s.update(i, e)) + (if s[i] is Vacant {
            1nat
        } else {
            0nat
        }) == vacant_count(s) + (if e is Vacant {
            1nat
        } else {
            0nat
        }),
        occupied_count(s.update(i, e)) + (if s[i] is Occupied {
            1nat
        } else {
            0nat
        }) == occupied_count(s) + (if e is Occupied {
            1nat
        } else {
            0nat
        }),
    decreases s.len(),
{
    let t = s.update(i, e);
    if i == s.len() - 1 {
        assert(t.drop_last() =~= s.drop_last());
    } else {
        lemma_counts_update(s.drop_last(), i, e);
        assert(t.drop_last() =~= s.drop_last().update(i, e));
    }
}

/// A prefix has no more occupied slots than the whole array.
pub proof fn lemma_occupied_prefix<Key, Val>(s: Seq<Entry<Key, Val>>, i: int)
    requires
        0 <= i <= s.len(),
    ensures
        occupied_count(s.subrange(0, i)) <= occupied_count(s),
    decreases s.len(),
{
    if i == s.len() {
        assert(s.subrange(0, i) =~= s);
    } else {
        lemma_occupied_prefix(s.drop_last(), i);
        assert(s.drop_last().subrange(0, i) =~= s.subrange(0, i));
    }
}

/// The pair in an occupied slot is a pair of the map.
pub proof fn lemma_contents_at<Key: TableKey, Val>(s: Seq<Entry<Key, Val>>, i: int)
    requires
        unique_keys(s),
        0 <= i < s.len(),
        s[i] is Occupied,
    ensures
        contents(s).contains_key(s[i]->key@),
        contents(s)[s[i]->key@] == s[i]->val,
{
    let k = s[i]->key@;
    assert(holds(s[i], k));
    let c = choose|c: int| 0 <= c < s.len() && holds(#[trigger] s[c], k);
    assert(c == i);
}

/// Filling a slot that is not occupied with a key that no slot holds adds
/// the pair to the map.
pub proof fn lemma_contents_fill<Key: TableKey, Val>(
    s: Seq<Entry<Key, Val>>,
    i: int,
    key: Key,
    val: Val,
)
    requires
        unique_keys(s),
        0 <= i < s.len(),
        !(s[i] is Occupied),
        !contents(s).contains_key(key@),
    ensures
        unique_keys(s.update(i, Entry::Occupied { key, val })),
        contents(s.update(i, Entry::Occupied { key, val })) == contents(s).insert(key@, val),
{
    let t = s.update(i, Entry::Occupied { key, val });
    assert forall|a: int, b: int|
        0 <= a < t.len() && 0 <= b < t.len() && a != b && (#[trigger] t[a]) is Occupied && (
        #[trigger] t[b]) is Occupied implies t[a]->key@ != t[b]->key@ by {
        if a == i {
            assert(holds(s[b], s[b]->key@));
        } else if b == i {
            assert(holds(s[a], s[a]->key@));
        } else {
            assert(s[a] is Occupied && s[b] is Occupied);
        }
    }
    let m = contents(s).insert(key@, val);
    assert forall|k: Key::V| contents(t).contains_key(k) <==> m.contains_key(k) by {
        if contents(t).contains_key(k) {
            let c = choose|c: int| 0 <= c < t.len() && holds(#[trigger] t[c], k);
            if c != i {
                assert(holds(s[c], k));
            }
        }
        if m.contains_key(k) {
            if k == key@ {
                assert(holds(t[i], k));
            } else {
                let c = choose|c: int| 0 <= c < s.len() && holds(#[trigger] s[c], k);
                assert(holds(t[c], k));
            }
        }
    }
    assert forall|k: Key::V| contents(t).contains_key(k) implies contents(t)[k] == m[k] by {
        let c = choose|c: int| 0 <= c < t.len() && holds(#[trigger] t[c], k);
        lemma_contents_at(t, c);
        if c != i {
            assert(s[c] is Occupied);
            lemma_contents_at(s, c);
        }
    }
    assert(contents(t) =~= m);
}

/// Replacing the value in an occupied slot replaces it in the map.
pub proof fn lemma_contents_replace<Key: TableKey, Val>(
    s: Seq<Entry<Key, Val>>,
    i: int,
    val: Val,
)
    requires
        unique_keys(s),
        0 <= i < s.len(),
        s[i] is Occupied,
    ensures
        unique_keys(s.update(i, Entry::Occupied { key: s[i]->key, val })),
        contents(s.update(i, Entry::Occupied { key: s[i]->key, val })) == contents(s).insert(
            s[i]->key@,
            val,
        ),
{
    let key = s[i]->key;
    let t = s.update(i, Entry::Occupied { key, val });
    assert forall|a: int, b: int|
        0 <= a < t.len() && 0 <= b < t.len() && a != b && (#[trigger] t[a]) is Occupied && (
        #[trigger] t[b]) is Occupied implies t[a]->key@ != t[b]->key@ by {
        assert(s[a] is Occupied && s[b] is Occupied);
    }
    let m = contents(s).insert(key@, val);
    assert forall|k: Key::V| contents(t).contains_key(k) <==> m.contains_key(k) by {
        if contents(t).contains_key(k) {
            let c = choose|c: int| 0 <= c < t.len() && holds(#[trigger] t[c], k);
            assert(holds(s[c], k));
        }
        if m.contains_key(k) {
            if k == key@ {
                assert(holds(t[i], k));
            } else {
                let c = choose|c: int| 0 <= c < s.len() && holds(#[trigger] s[c], k);
                assert(holds(t[c], k));
            }
        }
    }
    assert forall|k: Key::V| contents(t).contains_key(k) implies contents(t)[k] == m[k] by {
        let c = choose|c: int| 0 <= c < t.len() && holds(#[trigger] t[c], k);
        lemma_contents_at(t, c);
        if c != i {
            assert(s[c] is Occupied);
            lemma_contents_at(s, c);
        }
    }
    assert(contents(t) =~= m);
}

/// Clearing an occupied slot removes its key from the map.
pub proof fn lemma_contents_clear<Key: TableKey, Val>(s: Seq<Entry<Key, Val>>, i: int)
    requires
        unique_keys(s),
        0 <= i < s.len(),
        s[i] is Occupied,
    ensures
        unique_keys(s.update(i, Entry::Tombstone)),
        contents(s.update(i, Entry::Tombstone)) == contents(s).remove(s[i]->key@),
{
    let key = s[i]->key;
    let t = s.update(i, Entry::<Key, Val>::Tombstone);
    assert forall|a: int, b: int|
        0 <= a < t.len() && 0 <= b < t.len() && a != b && (#[trigger] t[a]) is Occupied && (
        #[trigger] t[b]) is Occupied implies t[a]->key@ != t[b]->key@ by {
        assert(s[a] is Occupied && s[b] is Occupied);
    }
    let m = contents(s).remove(key@);
    assert forall|k: Key::V| contents(t).contains_key(k) <==> m.contains_key(k) by {
        if contents(t).contains_key(k) {
            let c = choose|c: int| 0 <= c < t.len() && holds(#[trigger] t[c], k);
            assert(holds(s[c], k));
            assert(s[c] is Occupied && s[i] is Occupied);
        }
        if m.contains_key(k) {
            let c = choose|c: int| 0 <= c < s.len() && holds(#[trigger] s[c], k);
            assert(holds(t[c], k));
        }
    }
    assert forall|k: Key::V| contents(t).contains_key(k) implies contents(t)[k] == m[k] by {
        let c = choose|c: int| 0 <= c < t.len() && holds(#[trigger] t[c], k);
        lemma_contents_at(t, c);
        assert(s[c] is Occupied);
        lemma_contents_at(s, c);
    }
    assert(contents(t) =~= m);
}

/// Where the probe for `k` ends decides whether `k` is in the map: it is
/// exactly when the probe ends at a slot that holds it.
pub proof fn lemma_probe_decides<Key: TableKey, Val>(
    s: Seq<Entry<Key, Val>>,
    k: Key::V,
    idx: int,
)
    requires
        unique_keys(s),
        all_reachable(s),
        probe_ends(s, k, idx),
    ensures
        contents(s).contains_key(k) <==> holds(s[idx], k),
        holds(s[idx], k) ==> contents(s)[k] == s[idx]->val,
{
    let n = s.len() as int;
    let start = home::<Key>(k, n);
    let d = distance(start, idx, n);
    if holds(s[idx], k) {
        lemma_contents_at(s, idx);
    } else {
        if contents(s).contains_key(k) {
            let c = choose|c: int| 0 <= c < s.len() && holds(#[trigger] s[c], k);
            assert(reachable(s, c));
            let dc = distance(start, c, n);
            // The vacant slot `idx` is not before `c` on the path, so `c`
            // is before `idx`, where no slot holds `k`.
            assert(!within(start, dc, n, idx));
            assert(within(start, d, n, c));
            assert(false);
        }
    }
}

/// Writing slot `i` keeps every key on its probe path, as long as the write
/// makes no slot vacant and the slot either keeps its key or gets a key
/// whose path up to `i` has no vacant slot.
pub proof fn lemma_reachable_update<Key: TableKey, Val>(
    s: Seq<Entry<Key, Val>>,
    i: int,
    e: Entry<Key, Val>,
)
    requires
        all_reachable(s),
        0 <= i < s.len(),
        !(e is Vacant),
        e is Occupied ==> (s[i] is Occupied && s[i]->key@ == e->key@) || solid(
            s,
            home::<Key>(e->key@, s.len() as int),
            distance(home::<Key>(e->key@, s.len() as int), i, s.len() as int),
        ),
    ensures
        all_reachable(s.update(i, e)),
{
    let t = s.update(i, e);
    let n = s.len() as int;
    assert forall|a: int| 0 <= a < t.len() implies #[trigger] reachable(t, a) by {
        if t[a] is Occupied {
            let start = home::<Key>(t[a]->key@, n);
            let d = distance(start, a, n);
            assert(reachable(s, a));
            assert(solid(s, start, d));
            assert forall|j: int| 0 <= j < t.len() && within(start, d, n, j) implies !(
            #[trigger] t[j] is Vacant) by {
                if j != i {
                    assert(!(s[j] is Vacant));
                }
            }
        }
    }
}

/// Filling the vacant slot at which the probe for `key` ended gives a
/// well-formed array that stands for the map with the pair added.
pub proof fn lemma_wf_fill<Key: TableKey, Val>(
    s: Seq<Entry<Key, Val>>,
    idx: int,
    key: Key,
    val: Val,
)
    requires
        slots_wf(s),
        4 * (s.len() - vacant_count(s)) <= 3 * s.len(),
        probe_ends(s, key@, idx),
        s[idx] is Vacant,
    ensures
        slots_wf(s.update(idx, Entry::Occupied { key, val })),
        !contents(s).contains_key(key@),
        contents(s.update(idx, Entry::Occupied { key, val })) == contents(s).insert(key@, val),
        vacant_count(s.update(idx, Entry::Occupied { key, val })) == vacant_count(s) - 1,
        occupied_count(s.update(idx, Entry::Occupied { key, val })) == occupied_count(s) + 1,
{
    let e = Entry::Occupied { key, val };
    lemma_probe_decides(s, key@, idx);
    lemma_contents_fill(s, idx, key, val);
    lemma_reachable_update(s, idx, e);
    lemma_counts_update(s, idx, e);
}

/// Replacing the value of an occupied slot gives a well-formed array that
/// stands for the map with the value replaced.
pub proof fn lemma_wf_replace<Key: TableKey, Val>(s: Seq<Entry<Key, Val>>, idx: int, val: Val)
    requires
        slots_wf(s),
        0 <= idx < s.len(),
        s[idx] is Occupied,
    ensures
        slots_wf(s.update(idx, Entry::Occupied { key: s[idx]->key, val })),
        contents(s).contains_key(s[idx]->key@),
        contents(s)[s[idx]->key@] == s[idx]->val,
        contents(s.update(idx, Entry::Occupied { key: s[idx]->key, val })) == contents(s).insert(
            s[idx]->key@,
            val,
        ),
        vacant_count(s.update(idx, Entry::Occupied { key: s[idx]->key, val })) == vacant_count(s),
        occupied_count(s.update(idx, Entry::Occupied { key: s[idx]->key, val }))
            == occupied_count(s),
{
    let e = Entry::Occupied { key: s[idx]->key, val };
    lemma_contents_at(s, idx);
    lemma_contents_replace(s, idx, val);
    lemma_reachable_update(s, idx, e);
    lemma_counts_update(s, idx, e);
    assert(contents(s).insert(s[idx]->key@, val).dom() =~= contents(s).dom());
}

/// Turning an occupied slot into a tombstone gives a well-formed array that
/// stands for the map without the slot's key.
pub proof fn lemma_wf_clear<Key: TableKey, Val>(s: Seq<Entry<Key, Val>>, idx: int)
    requires
        slots_wf(s),
        0 <= idx < s.len(),
        s[idx] is Occupied,
    ensures
        slots_wf(s.update(idx, Entry::Tombstone)),
        contents(s).contains_key(s[idx]->key@),
        contents(s)[s[idx]->key@] == s[idx]->val,
        contents(s.update(idx, Entry::Tombstone)) == contents(s).remove(s[idx]->key@),
        vacant_count(s.update(idx, Entry::Tombstone)) == vacant_count(s),
        occupied_count(s.update(idx, Entry::Tombstone)) == occupied_count(s) - 1,
{
    let e = Entry::<Key, Val>::Tombstone;
    lemma_contents_at(s, idx);
    lemma_contents_clear(s, idx);
    lemma_reachable_update(s, idx, e);
    lemma_counts_update(s, idx, e);
}

/// An array of vacant slots is well formed and stands for the empty map.
pub proof fn lemma_wf_vacant<Key: TableKey, Val>(s: Seq<Entry<Key, Val>>)
    requires
        s.len() >= 64,
        forall|j: int| 0 <= j < s.len() ==> #[trigger] s[j] is Vacant,
    ensures
        slots_wf(s),
        contents(s) == Map::<Key::V, Val>::empty(),
        vacant_count(s) == s.len(),
        occupied_count(s) == 0,
{
    assert(contents(s) =~= Map::<Key::V, Val>::empty());
    lemma_all_vacant_counts(s);
    assert forall|i: int| 0 <= i < s.len() implies #[trigger] reachable(s, i) by {
        assert(s[i] is Vacant);
    }
}

/// In an array of vacant slots every slot counts as vacant.
pub proof fn lemma_all_vacant_counts<Key, Val>(s: Seq<Entry<Key, Val>>)
    requires
        forall|j: int| 0 <= j < s.len() ==> #[trigger] s[j] is Vacant,
    ensures
        vacant_count(s) == s.len(),
        occupied_count(s) == 0,
    decreases s.len(),
{
    if s.len() > 0 {
        let p = s.drop_last();
        assert forall|j: int| 0 <= j < p.len() implies #[trigger] p[j] is Vacant by {
            assert(s[j] is Vacant);
        }
        lemma_all_vacant_counts(p);
        assert(s.last() is Vacant);
    }
}

/// What slot `i` adds to the map and to the occupied count of the slots
/// before it: its pair, under a key that none of them holds, if it is
/// occupied, and nothing otherwise.
pub proof fn lemma_prefix_step<Key: TableKey, Val>(s: Seq<Entry<Key, Val>>, i: int)
    requires
        unique_keys(s),
        0 <= i < s.len(),
    ensures
        occupied_count(s.subrange(0, i + 1)) == occupied_count(s.subrange(0, i)) + if s[i] is Occupied {
            1nat
        } else {
            0nat
        },
        match s[i] {
            Entry::Occupied { key, val } => {
                &&& !contents(s.subrange(0, i)).contains_key(key@)
                &&& contents(s.subrange(0, i + 1)) == contents(s.subrange(0, i)).insert(key@, val)
            },
            _ => contents(s.subrange(0, i + 1)) == contents(s.subrange(0, i)),
        },
{
    let p = s.subrange(0, i);
    let q = s.subrange(0, i + 1);
    assert(q =~= p.push(s[i]));
    lemma_counts_push(p, s[i]);
    assert forall|k: Key::V| contents(p).contains_key(k) implies contents(q).contains_key(k)
        && contents(q)[k] == contents(p)[k] by {
        let c = choose|c: int| 0 <= c < p.len() && holds(#[trigger] p[c], k);
        assert(holds(q[c], k));
        let c2 = choose|c2: int| 0 <= c2 < q.len() && holds(#[trigger] q[c2], k);
        assert(s[c] is Occupied && s[c2] is Occupied);
    }
    assert forall|k: Key::V| contents(q).contains_key(k) && !holds(s[i], k) implies contents(
        p,
    ).contains_key(k) by {
        let c = choose|c: int| 0 <= c < q.len() && holds(#[trigger] q[c], k);
        assert(holds(p[c], k));
    }
    match s[i] {
        Entry::Occupied { key, val } => {
            if contents(p).contains_key(key@) {
                let c = choose|c: int| 0 <= c < p.len() && holds(#[trigger] p[c], key@);
                assert(s[c] is Occupied && s[i] is Occupied);
                assert(false);
            }
            assert(holds(q[i], key@));
            let c2 = choose|c2: int| 0 <= c2 < q.len() && holds(#[trigger] q[c2], key@);
            assert(s[c2] is Occupied && s[i] is Occupied);
            assert(contents(q) =~= contents(p).insert(key@, val));
        },
        _ => {
            assert(contents(q) =~= contents(p));
        },
    }
}

} // verus!
