//! Names shared by the whole library.

use vstd::prelude::*;

verus! {

/// The small integer by which a class of particles or of walls is addressed.
pub type ClassId = u8;

} // verus!
