//! An in-memory relation-indexing engine: binary relations between two
//! identifier domains stored as a forward index and a backward index that are
//! kept mutually consistent under insert, remove and bulk eviction, with
//! capability-scoped accessors, a shared wrapper with per-handle caching, and
//! restartable two-ended traversal cursors.

use vstd::prelude::*;

pub mod cursor;
pub mod junction;
pub mod many_to_many;
pub mod one_to_one;
pub mod set_to_set;
pub mod shared;
pub mod shared_one_to_one;
pub mod to_set;

verus! {

} // verus!
