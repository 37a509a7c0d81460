//! From a structured key to the number under which the store files it.
//!
//! The flat key is the digest that a fresh `DefaultHasher` gives for the bytes
//! of the key. Each field is preceded by its length as eight little-endian
//! bytes, which is what std's derived `Hash` feeds the hasher on a 64-bit
//! little-endian target. A hasher is never used for two keys.

use crate::types::{FlatKey, Key};
use std::collections::hash_map::DefaultHasher;
use std::hash::Hasher;
use vstd::prelude::*;
use vstd::std_specs::hash::DefaultHasherAdditionalSpecFns;

verus! {

/// What goes before a field of `len` bytes.
pub open spec fn length_prefix(len: u8) -> Seq<u8> {
    seq![len, 0, 0, 0, 0, 0, 0, 0]
}

/// What is fed to the hasher for a key, write by write.
pub open spec fn key_writes(key: Key) -> Seq<Seq<u8>> {
    seq![length_prefix(20), key.address@, length_prefix(32), key.slot@]
}

/// The flat key of a key.
pub open spec fn flat_key_of(key: Key) -> FlatKey {
    DefaultHasher::spec_finish(key_writes(key))
}

/// Derives the flat key of a key.
pub fn flat_key(key: &Key) -> (flat: FlatKey)
    ensures
        flat == flat_key_of(*key),
{
    let address_prefix: [u8; 8] = [20, 0, 0, 0, 0, 0, 0, 0];
    let slot_prefix: [u8; 8] = [32, 0, 0, 0, 0, 0, 0, 0];
    let mut hasher = DefaultHasher::new();
    hasher.write(address_prefix.as_slice());
    hasher.write(key.address.as_slice());
    hasher.write(slot_prefix.as_slice());
    hasher.write(key.slot.as_slice());
    proof {
        assert(address_prefix@ =~= length_prefix(20));
        assert(slot_prefix@ =~= length_prefix(32));
        assert(hasher@ =~= key_writes(*key));
    }
    hasher.finish()
}

/// The flat key depends on the bytes of the key and on nothing else: two
/// keys of the same bytes have the same flat key, whenever and wherever they
/// are derived.
pub proof fn lemma_flat_key_pure(a: Key, b: Key)
    requires
        a.address@ == b.address@,
        a.slot@ == b.slot@,
    ensures
        flat_key_of(a) == flat_key_of(b),
{
}

} // verus!
