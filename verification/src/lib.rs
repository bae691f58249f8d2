//! Discrete logic of a small extended-position-based-dynamics (XPBD) solver
//! for 2D circles: the broad-phase pair scan, the contact lists the solver
//! records, the order in which the solver stages run, and the fixed-frame
//! counter. Entities are identified by their 64-bit id (`Entity::to_bits`),
//! whose order and equality are those of the entity handles themselves.
use vstd::prelude::*;

pub mod contacts;
pub mod frame;
pub mod pairs;
pub mod schedule;

verus! {

/// Number of solver substeps in one frame.
pub const NUM_SUBSTEPS: i32 = 10;

} // verus!
