//! Slot resolution for the table: hash encoding, linear probing, and the
//! insert and lookup operations over the table's records.
//!
//! A table is the sequence of its records, one per slot; its capacity is the
//! number of records. Every sequence of records is a valid table: a record
//! whose occupied bit is clear is empty, whatever else it holds.
//!
//! Only a key's hash fragment is stored, never the key. Two keys with equal
//! fragments are therefore one key to the table: an insert of the second
//! replaces the value of the first, and a lookup of either returns it. This is
//! the table's stated policy on fragment collisions, not an error.

use std::hash::Hash;
use crate::hashing::hash_key;
use vstd::prelude::*;

verus! {

/// Set in a record's state word once the slot holds an entry.
pub const OCCUPIED_MASK: u64 = 0x8000_0000_0000_0000;

/// The bits of a state word that hold the hash fragment.
pub const HASH_MASK: u64 = 0x7FFF_FFFF_FFFF_FFFF;

/// The only error of an insert: no slot along the key's probe sequence is
/// empty or holds the key's fragment.
#[derive(Clone, Copy, Debug, PartialEq, Eq, Structural)]
pub enum InsertError {
    IsFull,
}

/// One slot of the table: a state word (top bit: occupied; low 63 bits: hash
/// fragment of the key last written here) and the value stored with it.
#[derive(Copy, Default)]
pub struct HashmapEntry<V: Copy> {
    pub state: u64,
    pub value: V,
}

impl<V: Copy> Clone for HashmapEntry<V> {
    fn clone(&self) -> (r: HashmapEntry<V>)
        ensures
            r == *self,
    {
        *self
    }
}

// ---------------------------------------------------------------------------
// The model
// ---------------------------------------------------------------------------

/// A state word marks its slot occupied.
pub open spec fn is_occupied(state: u64) -> bool {
    state & OCCUPIED_MASK == OCCUPIED_MASK
}

/// The fragment of a hash word that slots compare.
pub open spec fn fragment(h: u64) -> u64 {
    h & HASH_MASK
}

/// The state word written for a key whose hash is `h`.
pub open spec fn target_hash(h: u64) -> u64 {
    h | OCCUPIED_MASK
}

/// The first slot probed for a key whose hash is `h`, in a table of `cap` slots.
pub open spec fn start_slot(h: u64, cap: nat) -> int
    recommends
        cap > 0,
{
    (target_hash(h) as int) % (cap as int)
}

/// The slot probed at step `k` from `start`: `k` slots further on, wrapping
/// around at the capacity (for `start < cap` and `0 <= k < cap`).
pub open spec fn probe_slot(cap: nat, start: int, k: int) -> int {
    if start + k < cap {
        start + k
    } else {
        start + k - cap
    }
}

/// A probe for hash `h` stops at slot `i`: the slot is empty, or holds `h`'s
/// fragment.
pub open spec fn stops_at<V: Copy>(e: Seq<HashmapEntry<V>>, i: int, h: u64) -> bool {
    !is_occupied(e[i].state) || fragment(e[i].state) == fragment(h)
}

/// Step `k` of the probe from `start` is the first one that stops.
pub open spec fn first_stop<V: Copy>(e: Seq<HashmapEntry<V>>, start: int, h: u64, k: int) -> bool {
    &&& 0 <= k < e.len()
    &&& stops_at(e, probe_slot(e.len(), start, k), h)
    &&& forall|j: int| 0 <= j < k ==> !stops_at(e, #[trigger] probe_slot(e.len(), start, j), h)
}

/// The slot that a probe from `start` for hash `h` ends at, if any: the first
/// slot of `start, start + 1, ...` (wrapping, each slot once) at which it stops.
pub open spec fn probe_from<V: Copy>(e: Seq<HashmapEntry<V>>, start: int, h: u64) -> Option<int> {
    if exists|k: int| first_stop(e, start, h, k) {
        Some(probe_slot(e.len(), start, choose|k: int| first_stop(e, start, h, k)))
    } else {
        None
    }
}

/// The slot that the key whose hash is `h` resolves to, if any: the probe
/// from its start slot for its target hash.
pub open spec fn probe<V: Copy>(e: Seq<HashmapEntry<V>>, h: u64) -> Option<int> {
    if e.len() == 0 {
        None
    } else {
        probe_from(e, start_slot(h, e.len()), target_hash(h))
    }
}

/// What a lookup of the key whose hash is `h` returns.
pub open spec fn get_model<V: Copy>(e: Seq<HashmapEntry<V>>, h: u64) -> Option<V> {
    match probe(e, h) {
        Some(i) => if is_occupied(e[i].state) {
            Some(e[i].value)
        } else {
            None
        },
        None => None,
    }
}

/// The table after inserting `v` under the key whose hash is `h`.
pub open spec fn insert_table<V: Copy>(e: Seq<HashmapEntry<V>>, h: u64, v: V) -> Seq<HashmapEntry<V>> {
    match probe(e, h) {
        Some(i) => e.update(i, HashmapEntry { state: target_hash(h), value: v }),
        None => e,
    }
}

/// What inserting under the key whose hash is `h` returns: the value it
/// replaced, or `IsFull` when the key has no slot.
pub open spec fn insert_result<V: Copy>(e: Seq<HashmapEntry<V>>, h: u64) -> Result<Option<V>, InsertError> {
    match probe(e, h) {
        Some(_) => Ok(get_model(e, h)),
        None => Err(InsertError::IsFull),
    }
}

// ---------------------------------------------------------------------------
// Hash words
// ---------------------------------------------------------------------------

/// Whether two hash words carry the same fragment.
pub fn hash_equal(h1: u64, h2: u64) -> (r: bool)
    ensures
        r == (fragment(h1) == fragment(h2)),
{
    h1 & HASH_MASK == h2 & HASH_MASK
}

/// Whether a state word marks its slot occupied.
pub fn state_is_occupeid(state: u64) -> (r: bool)
    ensures
        r == is_occupied(state),
{
    state & OCCUPIED_MASK == OCCUPIED_MASK
}

/// The target hash of a key always marks a slot occupied, and carries the
/// key's own fragment.
pub proof fn lemma_target_hash(h: u64)
    ensures
        is_occupied(target_hash(h)),
        fragment(target_hash(h)) == fragment(h),
{
    assert((h | 0x8000_0000_0000_0000u64) & 0x8000_0000_0000_0000u64 == 0x8000_0000_0000_0000u64)
        by (bit_vector);
    assert((h | 0x8000_0000_0000_0000u64) & 0x7FFF_FFFF_FFFF_FFFFu64 == h & 0x7FFF_FFFF_FFFF_FFFFu64)
        by (bit_vector);
}

/// The start slot and target hash for a key whose hash is `h`, in a table of
/// `capacity` slots.
pub fn get_slot_and_hash(h: u64, capacity: u64) -> (r: (u64, u64))
    requires
        capacity > 0,
    ensures
        r.1 == target_hash(h),
        r.0 == start_slot(h, capacity as nat),
        r.0 < capacity,
{
    let hash = h | OCCUPIED_MASK;
    (hash % capacity, hash)
}

// ---------------------------------------------------------------------------
// Probing
// ---------------------------------------------------------------------------

/// Probes from `start_slot` for the hash word `hash`: returns the first slot,
/// visiting each slot once and wrapping at the end, that is empty or holds
/// `hash`'s fragment, or `None` when every slot is occupied by another
/// fragment.
pub fn find_entry_slot<V: Copy>(entries: &[HashmapEntry<V>], start_slot: u64, hash: u64) -> (r:
    Option<u64>)
    requires
        start_slot < entries@.len(),
    ensures
        r == (match probe_from(entries@, start_slot as int, hash) {
            Some(i) => Some(i as u64),
            None => None::<u64>,
        }),
{
    let size = entries.len() as u64;
    let mut slot_counter = start_slot;
    let mut index: usize = slot_counter as usize;
    let ghost mut k: int = 0;

    while !hash_equal(entries[index].state, hash) && state_is_occupeid(entries[index].state)
        invariant
            size == entries@.len(),
            start_slot < size,
            0 <= k < size,
            slot_counter == probe_slot(entries@.len(), start_slot as int, k),
            index == slot_counter,
            forall|j: int|
                0 <= j < k ==> !stops_at(entries@, #[trigger] probe_slot(entries@.len(), start_slot as int, j), hash),
        decreases size - k,
    {
        assert(!stops_at(entries@, probe_slot(entries@.len(), start_slot as int, k), hash));
        slot_counter = if slot_counter + 1 == size {
            0
        } else {
            slot_counter + 1
        };
        index = slot_counter as usize;
        proof {
            k = k + 1;
        }
        if slot_counter == start_slot {
            assert(k == size);
            assert(forall|j: int| 0 <= j < entries@.len() ==> !first_stop(entries@, start_slot as int, hash, j)) by {
                assert(forall|j: int| 0 <= j < k ==> !stops_at(entries@, #[trigger] probe_slot(entries@.len(), start_slot as int, j), hash));
            }
            return None;
        }
    }
    assert(first_stop(entries@, start_slot as int, hash, k));
    proof {
        let c = choose|c: int| first_stop(entries@, start_slot as int, hash, c);
        if c < k {
        } else if c > k {
        }
        assert(c == k);
    }
    Some(slot_counter)
}

// ---------------------------------------------------------------------------
// Insert and lookup
// ---------------------------------------------------------------------------

/// Inserts `v` under the key whose hash is `h`. On the slot that the key
/// resolves to, writes the key's target hash and `v`, and returns the value
/// that the slot held for the key (`None` when the slot was empty). When the
/// key resolves to no slot, returns `IsFull` and changes nothing.
pub fn insert_hashed<V: Copy>(entries: &mut [HashmapEntry<V>], h: u64, v: V) -> (r: Result<
    Option<V>,
    InsertError,
>)
    ensures
        final(entries)@ == insert_table(old(entries)@, h, v),
        r == insert_result(old(entries)@, h),
{
    if entries.len() == 0 {
        return Err(InsertError::IsFull);
    }
    let (slot, hash) = get_slot_and_hash(h, entries.len() as u64);

    let entry_slot = match find_entry_slot(entries, slot, hash) {
        Some(slot) => slot,
        None => return Err(InsertError::IsFull),
    };

    let index: usize = entry_slot as usize;
    let entry = entries[index];

    if state_is_occupeid(entry.state) {
        let old = entry.value;
        entries[index] = HashmapEntry { state: hash, value: v };
        Ok(Some(old))
    } else {
        entries[index] = HashmapEntry { state: hash, value: v };
        Ok(None)
    }
}

/// Looks up the key whose hash is `h`: the value of the slot that it resolves
/// to, when that slot is occupied.
pub fn get_hashed<V: Copy>(entries: &[HashmapEntry<V>], h: u64) -> (r: Option<V>)
    ensures
        r == get_model(entries@, h),
{
    if entries.len() == 0 {
        return None;
    }
    let (slot, hash) = get_slot_and_hash(h, entries.len() as u64);

    let entry_slot = match find_entry_slot(entries, slot, hash) {
        Some(slot) => slot,
        None => return None,
    };

    let index: usize = entry_slot as usize;
    let entry = entries[index];

    if state_is_occupeid(entry.state) {
        Some(entry.value)
    } else {
        None
    }
}

/// Inserts `v` under the key `k`, hashed with the table's hash function.
/// Whatever the hash, the outcome is that of `insert_hashed` on it.
pub fn insert<Q: ?Sized + Hash, V: Copy>(entries: &mut [HashmapEntry<V>], k: &Q, v: V) -> (r:
    Result<Option<V>, InsertError>)
    ensures
        exists|h: u64|
            final(entries)@ == insert_table(old(entries)@, h, v) && r == insert_result(
                old(entries)@,
                h,
            ),
{
    let h = hash_key(k);
    insert_hashed(entries, h, v)
}

/// Looks up the key `k`, hashed with the table's hash function. Whatever the
/// hash, the outcome is that of `get_hashed` on it.
pub fn get<Q: ?Sized + Hash, V: Copy>(entries: &[HashmapEntry<V>], k: &Q) -> (r: Option<V>)
    ensures
        exists|h: u64| r == get_model(entries@, h),
{
    let h = hash_key(k);
    get_hashed(entries, h)
}

} // verus!
