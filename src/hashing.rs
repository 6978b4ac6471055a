use std::hash::Hash;
use std::hash::Hasher;
use twox_hash::XxHash;
use vstd::prelude::*;

verus! {

/// Relies on twox_hash's `XxHash` (XXH64 with seed 0) fed by the key's `Hash`
/// impl and then `Hasher::finish`. The result depends on the key's `Hash` impl,
/// which belongs to the caller, so nothing is stated of it.
#[verifier::external_body]
pub(crate) fn hash_key<Q: ?Sized + Hash>(k: &Q) -> (r: u64) {
    let mut s = XxHash::with_seed(0);
    k.hash(&mut s);
    s.finish()
}

} // verus!
