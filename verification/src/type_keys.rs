//! The keys by which a node names message types.

use vstd::prelude::*;

verus! {

/// The node-local key of a message type.
#[derive(Clone, Copy, Debug, PartialEq, Eq, Structural, Hash, PartialOrd, Ord)]
pub struct LocalTypeKey(pub u64);

/// The key that a peer node gives a message type.
#[derive(Clone, Copy, Debug, PartialEq, Eq, Structural, Hash, PartialOrd, Ord)]
pub struct ForeignTypeKey(pub u64);

/// The null key: the form that a slot-map key takes before it is issued.
pub const NULL_TYPE_KEY: u64 = 0x0000_0000_FFFF_FFFF;

impl Default for LocalTypeKey {
    fn default() -> (r: LocalTypeKey)
        ensures
            r.0 == NULL_TYPE_KEY,
    {
        LocalTypeKey(NULL_TYPE_KEY)
    }
}

} // verus!
