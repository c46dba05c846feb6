//! The slot map of the `slotmap` crate: storage with stable keys, as Verus
//! sees it.
//!
//! A slot map is opaque here: each kind of value that the library stores in one
//! has a struct of its own that holds the map in a private field, a name for
//! what the map holds (a `Map` from the key, as the 64-bit number
//! `KeyData::as_ffi` gives, to the value) and a few trusted wrappers that say
//! what each call does to that map.

use vstd::prelude::*;

verus! {

/// A key that a slot map hands out: its version, the high half of the 64-bit
/// form, is odd (`insert` sets the low bit of the slot's version).
pub open spec fn key_is_issued(k: u64) -> bool {
    (k / 0x1_0000_0000) % 2 == 1
}

/// The most values a slot map holds before `insert` panics ("SlotMap is full").
pub const SLOTS_MAX: usize = 0xFFFF_FFFE;

} // verus!
