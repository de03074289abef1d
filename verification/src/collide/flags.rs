//! The roles that an edge of a moving shape can have at its ends.

use vstd::prelude::*;
use crate::collide::Flags;

verus! {

/// A contact at the end of this edge counts as standing on a floor.
pub const FLOOR_END: Flags = 1;

/// A contact at the start of this edge counts as standing on a floor.
pub const FLOOR_START: Flags = 2;

/// A corner that arrives just short of the end of this edge is stepped over.
pub const BUMP_END: Flags = 4;

/// A corner that arrives just past the start of this edge is stepped over.
pub const BUMP_START: Flags = 8;

} // verus!
