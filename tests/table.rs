use persistent_hashmap::{
    find_entry_slot, get, get_hashed, get_slot_and_hash, hash_equal, insert, insert_hashed,
    state_is_occupeid, HashmapEntry, InsertError, HASH_MASK, OCCUPIED_MASK,
};

fn rec(state: u64, value: u32) -> HashmapEntry<u32> {
    HashmapEntry { state, value }
}

fn states(t: &[HashmapEntry<u32>]) -> Vec<u64> {
    t.iter().map(|e| e.state).collect()
}

fn values(t: &[HashmapEntry<u32>]) -> Vec<u32> {
    t.iter().map(|e| e.value).collect()
}

#[test]
fn hash_words_compare_fragments_only() {
    assert!(hash_equal(OCCUPIED_MASK | 5, 5));
    assert!(hash_equal(HASH_MASK, u64::MAX));
    assert!(!hash_equal(5, 6));
    assert!(!hash_equal(0, OCCUPIED_MASK | 1));
}

#[test]
fn occupied_bit_decides_occupancy() {
    assert!(!state_is_occupeid(0));
    assert!(!state_is_occupeid(HASH_MASK));
    assert!(state_is_occupeid(OCCUPIED_MASK));
    assert!(state_is_occupeid(OCCUPIED_MASK | 77));
}

#[test]
fn slot_and_hash_use_the_target_hash() {
    assert_eq!(get_slot_and_hash(1, 3), (0, 0x8000_0000_0000_0001));
    assert_eq!(get_slot_and_hash(0, 3), (2, 0x8000_0000_0000_0000));
    assert_eq!(get_slot_and_hash(3, 5), (1, 0x8000_0000_0000_0003));
    assert_eq!(get_slot_and_hash(12345, 1), (0, OCCUPIED_MASK | 12345));
}

#[test]
fn probe_stops_at_empty_or_matching_slot() {
    let t = vec![rec(OCCUPIED_MASK | 9, 0), rec(OCCUPIED_MASK | 8, 0), rec(0, 0)];
    assert_eq!(find_entry_slot(&t, 0, OCCUPIED_MASK | 7), Some(2));
    assert_eq!(find_entry_slot(&t, 0, OCCUPIED_MASK | 8), Some(1));
    assert_eq!(find_entry_slot(&t, 1, OCCUPIED_MASK | 9), Some(2));
    assert_eq!(find_entry_slot(&t, 2, OCCUPIED_MASK | 9), Some(2));
}

#[test]
fn probe_wraps_and_gives_up_after_one_round() {
    let t = vec![rec(OCCUPIED_MASK | 9, 0), rec(OCCUPIED_MASK | 8, 0), rec(OCCUPIED_MASK | 6, 0)];
    assert_eq!(find_entry_slot(&t, 1, OCCUPIED_MASK | 9), Some(0));
    assert_eq!(find_entry_slot(&t, 1, OCCUPIED_MASK | 7), None);
    assert_eq!(find_entry_slot(&t, 0, 7), None);
}

#[test]
fn colliding_start_slots_fill_linearly_then_full() {
    // Hashes 1, 4, 7 and 10 all start at slot 0 of three.
    let mut t = vec![rec(0, 0); 3];
    assert_eq!(insert_hashed(&mut t, 1, 10), Ok(None));
    assert_eq!(insert_hashed(&mut t, 4, 40), Ok(None));
    assert_eq!(insert_hashed(&mut t, 7, 70), Ok(None));
    assert_eq!(
        states(&t),
        vec![OCCUPIED_MASK | 1, OCCUPIED_MASK | 4, OCCUPIED_MASK | 7]
    );
    assert_eq!(values(&t), vec![10, 40, 70]);
    let before = states(&t);
    assert_eq!(insert_hashed(&mut t, 10, 100), Err(InsertError::IsFull));
    assert_eq!(states(&t), before);
    assert_eq!(values(&t), vec![10, 40, 70]);
    assert_eq!(get_hashed(&t, 4), Some(40));
    assert_eq!(get_hashed(&t, 7), Some(70));
    assert_eq!(get_hashed(&t, 10), None);
}

#[test]
fn probe_wraps_to_slot_zero() {
    // Hashes 0 and 3 both start at slot 2 of three.
    let mut t = vec![rec(0, 0); 3];
    assert_eq!(insert_hashed(&mut t, 0, 1), Ok(None));
    assert_eq!(insert_hashed(&mut t, 3, 2), Ok(None));
    assert_eq!(states(&t), vec![OCCUPIED_MASK | 3, 0, OCCUPIED_MASK]);
    assert_eq!(get_hashed(&t, 3), Some(2));
    assert_eq!(get_hashed(&t, 0), Some(1));
}

#[test]
fn upsert_returns_previous_value() {
    let mut t = vec![rec(0, 0); 4];
    assert_eq!(insert_hashed(&mut t, 42, 1), Ok(None));
    assert_eq!(insert_hashed(&mut t, 42, 2), Ok(Some(1)));
    assert_eq!(get_hashed(&t, 42), Some(2));
    let mut s = vec![rec(0, 0); 8];
    assert_eq!(insert(&mut s, "key", 7), Ok(None));
    assert_eq!(insert(&mut s, "key", 8), Ok(Some(7)));
    assert_eq!(get(&s, "key"), Some(8));
}

#[test]
fn equal_fragments_are_one_key() {
    let mut t = vec![rec(0, 0); 5];
    assert_eq!(insert_hashed(&mut t, 5, 1), Ok(None));
    assert_eq!(insert_hashed(&mut t, OCCUPIED_MASK | 5, 2), Ok(Some(1)));
    assert_eq!(get_hashed(&t, 5), Some(2));
}

#[test]
fn clear_occupied_bit_is_empty_whatever_the_fragment() {
    let mut t = vec![rec(5, 9); 1];
    assert_eq!(get_hashed(&t, 5), None);
    assert_eq!(insert_hashed(&mut t, 5, 3), Ok(None));
    assert_eq!(states(&t), vec![OCCUPIED_MASK | 5]);
    assert_eq!(get_hashed(&t, 5), Some(3));
}

#[test]
fn table_without_slots() {
    let mut t: Vec<HashmapEntry<u32>> = Vec::new();
    assert_eq!(insert_hashed(&mut t, 1, 1), Err(InsertError::IsFull));
    assert_eq!(get_hashed(&t, 1), None);
    assert_eq!(insert(&mut t, "a", 1), Err(InsertError::IsFull));
    assert_eq!(get(&t, "a"), None);
}

#[test]
fn missing_key_is_none_before_and_after_full() {
    let mut t = vec![rec(0, 0); 3];
    assert_eq!(get_hashed(&t, 10), None);
    insert_hashed(&mut t, 1, 10).unwrap();
    insert_hashed(&mut t, 4, 40).unwrap();
    assert_eq!(get_hashed(&t, 10), None);
    insert_hashed(&mut t, 7, 70).unwrap();
    assert_eq!(get_hashed(&t, 10), None);
    assert_eq!(insert_hashed(&mut t, 10, 1), Err(InsertError::IsFull));
}

#[test]
fn same_keys_give_same_records() {
    let keys = ["x", "y", "z", "w", "x", "v"];
    let mut a = vec![rec(0, 0); 7];
    let mut b = vec![rec(0, 0); 7];
    for (i, k) in keys.iter().enumerate() {
        let ra = insert(&mut a, *k, i as u32);
        let rb = insert(&mut b, *k, i as u32);
        assert_eq!(ra, rb);
    }
    assert_eq!(states(&a), states(&b));
    assert_eq!(values(&a), values(&b));
}

#[test]
fn keys_are_hashed_before_placement() {
    let mut t = vec![rec(0, 0); 64];
    assert_eq!(insert(&mut t, &7u64, 1), Ok(None));
    let occupied: Vec<u64> = states(&t).into_iter().filter(|s| *s != 0).collect();
    assert_eq!(occupied.len(), 1);
    assert_ne!(occupied[0], OCCUPIED_MASK | 7);
    assert_eq!(get(&t, &7u64), Some(1));
    assert_eq!(get(&t, &8u64), None);
}
