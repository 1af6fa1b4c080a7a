use vstd::prelude::*;

verus! {

/// Number of slots in every actor's attribute table, and so the largest
/// number of attributes that can ever be registered.
pub const ATTRIBUTE_SET_SIZE: usize = 64;

/// Number of bit positions in every tag bitset, and so the largest number of
/// tags that can ever be registered.
pub const GAMEPLAY_TAG_SIZE: usize = 512;

} // verus!
