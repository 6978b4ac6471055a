//! Laws of the table model, relating inserts and lookups.

use crate::table::{
    first_stop, fragment, get_model, insert_result, insert_table, is_occupied, lemma_target_hash,
    probe, probe_from, probe_slot, start_slot, stops_at, target_hash, HashmapEntry, InsertError,
};
use vstd::prelude::*;

verus! {

/// A step that is the first to stop decides the probe.
proof fn lemma_first_stop_decides<V: Copy>(e: Seq<HashmapEntry<V>>, s: int, h: u64, k: int)
    requires
        first_stop(e, s, h, k),
    ensures
        probe_from(e, s, h) == Some(probe_slot(e.len(), s, k)),
{
    let c = choose|c: int| first_stop(e, s, h, c);
    assert(first_stop(e, s, h, c));
    if c < k {
        assert(!stops_at(e, probe_slot(e.len(), s, c), h));
    } else if c > k {
        assert(!stops_at(e, probe_slot(e.len(), s, k), h));
    }
}

/// Some step that stops means that a first one does.
proof fn lemma_some_stop<V: Copy>(e: Seq<HashmapEntry<V>>, s: int, h: u64, k: int)
    requires
        0 <= k < e.len(),
        stops_at(e, probe_slot(e.len(), s, k), h),
    ensures
        probe_from(e, s, h) is Some,
    decreases k,
{
    if exists|j: int| 0 <= j < k && stops_at(e, #[trigger] probe_slot(e.len(), s, j), h) {
        let j = choose|j: int| 0 <= j < k && stops_at(e, #[trigger] probe_slot(e.len(), s, j), h);
        lemma_some_stop(e, s, h, j);
    } else {
        assert(first_stop(e, s, h, k));
        lemma_first_stop_decides(e, s, h, k);
    }
}

/// Where a probe ends, with the step that reaches it.
proof fn lemma_probe_step<V: Copy>(e: Seq<HashmapEntry<V>>, h: u64) -> (k: int)
    requires
        probe(e, h) is Some,
    ensures
        e.len() > 0,
        0 <= start_slot(h, e.len()) < e.len(),
        first_stop(e, start_slot(h, e.len()), target_hash(h), k),
        probe(e, h) == Some(probe_slot(e.len(), start_slot(h, e.len()), k)),
        0 <= probe_slot(e.len(), start_slot(h, e.len()), k) < e.len(),
{
    let s = start_slot(h, e.len());
    choose|k: int| first_stop(e, s, target_hash(h), k)
}

/// Distinct steps of one probe visit distinct slots.
proof fn lemma_steps_distinct(cap: nat, s: int, j: int, k: int)
    requires
        0 <= s < cap,
        0 <= j < cap,
        0 <= k < cap,
        j != k,
    ensures
        probe_slot(cap, s, j) != probe_slot(cap, s, k),
        0 <= probe_slot(cap, s, j) < cap,
{
}

/// After an insert that succeeds, a lookup of the same key returns the value
/// just inserted.
pub proof fn lemma_insert_then_get<V: Copy>(e: Seq<HashmapEntry<V>>, h: u64, v: V)
    requires
        insert_result(e, h) is Ok,
    ensures
        get_model(insert_table(e, h, v), h) == Some(v),
{
    let k = lemma_probe_step(e, h);
    let s = start_slot(h, e.len());
    let t = target_hash(h);
    let i = probe_slot(e.len(), s, k);
    let e2 = insert_table(e, h, v);
    lemma_target_hash(h);
    assert(e2 == e.update(i, HashmapEntry { state: t, value: v }));
    assert forall|j: int| 0 <= j < k implies !stops_at(e2, #[trigger] probe_slot(e2.len(), s, j), t) by {
        lemma_steps_distinct(e.len(), s, j, k);
        assert(!stops_at(e, probe_slot(e.len(), s, j), t));
    }
    assert(stops_at(e2, i, t));
    assert(first_stop(e2, s, t, k));
    lemma_first_stop_decides(e2, s, t, k);
}

/// An insert under one key leaves a lookup of a key with another fragment
/// as it was, when that key is present.
pub proof fn lemma_insert_keeps_other<V: Copy>(e: Seq<HashmapEntry<V>>, h1: u64, h2: u64, v: V)
    requires
        fragment(h1) != fragment(h2),
        get_model(e, h1) is Some,
    ensures
        get_model(insert_table(e, h2, v), h1) == get_model(e, h1),
{
    let k1 = lemma_probe_step(e, h1);
    let s1 = start_slot(h1, e.len());
    let t1 = target_hash(h1);
    let t2 = target_hash(h2);
    let i1 = probe_slot(e.len(), s1, k1);
    lemma_target_hash(h1);
    lemma_target_hash(h2);
    if probe(e, h2) is Some {
        let k2 = lemma_probe_step(e, h2);
        let i2 = probe_slot(e.len(), start_slot(h2, e.len()), k2);
        let e2 = insert_table(e, h2, v);
        assert(e2 == e.update(i2, HashmapEntry { state: t2, value: v }));
        assert(i1 != i2) by {
            assert(stops_at(e, i2, t2));
        }
        assert forall|j: int| 0 <= j < k1 implies !stops_at(e2, #[trigger] probe_slot(e2.len(), s1, j), t1) by {
            lemma_steps_distinct(e.len(), s1, j, k1);
            assert(!stops_at(e, probe_slot(e.len(), s1, j), t1));
        }
        assert(first_stop(e2, s1, t1, k1));
        lemma_first_stop_decides(e2, s1, t1, k1);
    }
}

/// Inserting the same key twice: the first insert returns `Ok(None)` when the
/// key was absent, the second returns the value of the first, and a lookup
/// then returns the value of the second.
pub proof fn lemma_upsert<V: Copy>(e: Seq<HashmapEntry<V>>, h: u64, v1: V, v2: V)
    requires
        insert_result(e, h) is Ok,
    ensures
        get_model(e, h) is None ==> insert_result(e, h) == Ok::<Option<V>, InsertError>(None),
        insert_result(insert_table(e, h, v1), h) == Ok::<Option<V>, InsertError>(Some(v1)),
        get_model(insert_table(insert_table(e, h, v1), h, v2), h) == Some(v2),
{
    let e1 = insert_table(e, h, v1);
    lemma_insert_then_get(e, h, v1);
    assert(probe(e1, h) is Some);
    lemma_insert_then_get(e1, h, v2);
}

/// A key whose fragment no occupied slot holds is absent: a lookup returns
/// `None`.
pub proof fn lemma_absent_key<V: Copy>(e: Seq<HashmapEntry<V>>, h: u64)
    requires
        forall|i: int|
            0 <= i < e.len() && is_occupied(#[trigger] e[i].state) ==> fragment(e[i].state)
                != fragment(h),
    ensures
        get_model(e, h) is None,
{
    if probe(e, h) is Some {
        let k = lemma_probe_step(e, h);
        lemma_target_hash(h);
    }
}

/// In a table whose slots are all occupied, by fragments other than the
/// key's, an insert of the key fails with `IsFull` and changes nothing, and a
/// lookup of the key returns `None`.
pub proof fn lemma_full_table<V: Copy>(e: Seq<HashmapEntry<V>>, h: u64, v: V)
    requires
        forall|i: int| 0 <= i < e.len() ==> is_occupied(#[trigger] e[i].state),
        forall|i: int| 0 <= i < e.len() ==> fragment(#[trigger] e[i].state) != fragment(h),
    ensures
        insert_result(e, h) == Err::<Option<V>, InsertError>(InsertError::IsFull),
        insert_table(e, h, v) == e,
        get_model(e, h) is None,
{
    if probe(e, h) is Some {
        let k = lemma_probe_step(e, h);
        lemma_target_hash(h);
    }
}

/// In a table with an empty slot, every insert succeeds.
pub proof fn lemma_vacancy<V: Copy>(e: Seq<HashmapEntry<V>>, h: u64, i: int)
    requires
        0 <= i < e.len(),
        !is_occupied(e[i].state),
    ensures
        insert_result(e, h) is Ok,
{
    let s = start_slot(h, e.len());
    let k = if i >= s { i - s } else { i + e.len() - s };
    assert(probe_slot(e.len(), s, k) == i);
    lemma_some_stop(e, s, target_hash(h), k);
}

/// The number of occupied slots.
pub open spec fn occupied_count<V: Copy>(e: Seq<HashmapEntry<V>>) -> nat
    decreases e.len(),
{
    if e.len() == 0 {
        0
    } else {
        occupied_count(e.drop_last()) + if is_occupied(e.last().state) {
            1nat
        } else {
            0nat
        }
    }
}

/// The table after inserting `vs[0]` under `hs[0]`, then `vs[1]` under
/// `hs[1]`, and so on.
pub open spec fn insert_all<V: Copy>(e: Seq<HashmapEntry<V>>, hs: Seq<u64>, vs: Seq<V>) -> Seq<
    HashmapEntry<V>,
>
    recommends
        hs.len() == vs.len(),
    decreases hs.len(),
{
    if hs.len() == 0 {
        e
    } else {
        insert_table(insert_all(e, hs.drop_last(), vs.drop_last()), hs.last(), vs.last())
    }
}

/// A table whose slots are all empty, as a fresh one is, has no occupied
/// slot.
pub proof fn lemma_fresh_count<V: Copy>(e: Seq<HashmapEntry<V>>)
    requires
        forall|i: int| 0 <= i < e.len() ==> !is_occupied(#[trigger] e[i].state),
    ensures
        occupied_count(e) == 0,
    decreases e.len(),
{
    if e.len() > 0 {
        lemma_fresh_count(e.drop_last());
    }
}

/// Fewer occupied slots than slots means an empty slot.
proof fn lemma_count_vacancy<V: Copy>(e: Seq<HashmapEntry<V>>) -> (i: int)
    requires
        occupied_count(e) < e.len(),
    ensures
        0 <= i < e.len(),
        !is_occupied(e[i].state),
    decreases e.len(),
{
    if is_occupied(e.last().state) {
        let i = lemma_count_vacancy(e.drop_last());
        i
    } else {
        e.len() - 1
    }
}

/// Writing one slot adds at most one occupied slot.
proof fn lemma_count_update<V: Copy>(e: Seq<HashmapEntry<V>>, i: int, x: HashmapEntry<V>)
    requires
        0 <= i < e.len(),
    ensures
        occupied_count(e.update(i, x)) <= occupied_count(e) + 1,
    decreases e.len(),
{
    let e2 = e.update(i, x);
    if i < e.len() - 1 {
        assert(e2.drop_last() == e.drop_last().update(i, x));
        lemma_count_update(e.drop_last(), i, x);
    } else {
        assert(e2.drop_last() == e.drop_last());
    }
}

/// An insert adds at most one occupied slot.
proof fn lemma_count_insert<V: Copy>(e: Seq<HashmapEntry<V>>, h: u64, v: V)
    ensures
        insert_table(e, h, v).len() == e.len(),
        occupied_count(insert_table(e, h, v)) <= occupied_count(e) + 1,
{
    if probe(e, h) is Some {
        let k = lemma_probe_step(e, h);
        let i = probe(e, h)->Some_0;
        lemma_count_update(e, i, HashmapEntry { state: target_hash(h), value: v });
    }
}

/// Inserting keys with pairwise distinct fragments, fewer than the table's
/// empty slots: each insert succeeds, and afterwards a lookup of each key
/// returns the value inserted under it.
pub proof fn lemma_insert_all_then_get<V: Copy>(e: Seq<HashmapEntry<V>>, hs: Seq<u64>, vs: Seq<V>)
    requires
        hs.len() == vs.len(),
        occupied_count(e) + hs.len() < e.len(),
        forall|a: int, b: int|
            0 <= a < hs.len() && 0 <= b < hs.len() && a != b ==> fragment(#[trigger] hs[a])
                != fragment(#[trigger] hs[b]),
    ensures
        insert_all(e, hs, vs).len() == e.len(),
        occupied_count(insert_all(e, hs, vs)) <= occupied_count(e) + hs.len(),
        hs.len() > 0 ==> insert_result(insert_all(e, hs.drop_last(), vs.drop_last()), hs.last()) is Ok,
        forall|i: int| 0 <= i < hs.len() ==> get_model(insert_all(e, hs, vs), #[trigger] hs[i]) == Some(vs[i]),
    decreases hs.len(),
{
    if hs.len() > 0 {
        let n = hs.len() - 1;
        let hp = hs.drop_last();
        let vp = vs.drop_last();
        lemma_insert_all_then_get(e, hp, vp);
        let ep = insert_all(e, hp, vp);
        let i = lemma_count_vacancy(ep);
        lemma_vacancy(ep, hs[n], i);
        lemma_count_insert(ep, hs[n], vs[n]);
        lemma_insert_then_get(ep, hs[n], vs[n]);
        assert forall|j: int| 0 <= j < hs.len() implies get_model(insert_all(e, hs, vs), #[trigger] hs[j]) == Some(vs[j]) by {
            if j < n {
                assert(hp[j] == hs[j]);
                lemma_insert_keeps_other(ep, hs[j], hs[n], vs[n]);
            }
        }
    }
}

} // verus!
