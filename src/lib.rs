use vstd::prelude::*;

pub mod durable;
pub mod graph;
pub mod laws;
pub mod policy;
pub mod registry;

verus! {

/// A scheduling point: a place where a checker driving the run may switch
/// threads or probe a reordering. It never blocks or fails, and leaves every
/// registry as it is.
pub fn push() {
}

} // verus!
