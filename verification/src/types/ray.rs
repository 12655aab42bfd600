//! Rays.

use vstd::prelude::*;
use crate::types::tuple::Tuple;

verus! {

/// A half-line: the point it starts from and the direction it takes.
#[derive(Clone, Copy, Debug)]
pub struct Ray {
    pub origin: Tuple,
    pub direction: Tuple,
}

impl Ray {
    /// The ray from the point `origin` in the direction `direction`.
    pub fn new(origin: Tuple, direction: Tuple) -> (r: Self)
        requires
            origin.spec_is_point(),
            direction.spec_is_vector(),
        ensures
            r == (Ray { origin, direction }),
    {
        Self { origin, direction }
    }
}

} // verus!
