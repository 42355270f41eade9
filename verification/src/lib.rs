use vstd::prelude::*;

pub mod fields;
pub mod genres;
pub mod rowid;
pub mod trim;
pub mod weights;

verus! {

/// Number of analysis metrics stored for every track.
pub const DIMENSIONS: usize = 23;

} // verus!
