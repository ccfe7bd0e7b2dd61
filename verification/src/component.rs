//! Marker components attached to entities.

use vstd::prelude::*;

verus! {

/// Tag for entities that are eligible for directional movement.
///
/// It carries no data: its presence alone enables the per-tick position update.
#[derive(Clone, Copy, Debug, PartialEq, Eq, Structural)]
pub struct Mover;

impl Default for Mover {
    fn default() -> (m: Self)
        ensures
            m == Mover,
    {
        Mover {  }
    }
}

} // verus!
