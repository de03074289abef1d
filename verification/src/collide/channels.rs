//! The channels on which edges collide. Two edges can collide where they
//! share a channel.

use vstd::prelude::*;
use crate::collide::Channels;

verus! {

/// Everything solid.
pub const MAIN: Channels = 1;

/// What can be stood on.
pub const FLOOR: Channels = 2;

} // verus!
