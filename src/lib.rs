//! A fixed-capacity key/value table with open addressing and linear probing,
//! laid out as a flat sequence of fixed-size records so that the records can
//! live in durable storage and be reattached later.

mod hashing;
pub mod laws;
pub mod table;

pub use table::{
    find_entry_slot, get, get_hashed, get_slot_and_hash, hash_equal, insert, insert_hashed,
    state_is_occupeid, HashmapEntry, InsertError, HASH_MASK, OCCUPIED_MASK,
};
