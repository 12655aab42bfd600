//! Point lights.

use vstd::prelude::*;
use crate::types::colour::Colour;
use crate::types::tuple::Tuple;

verus! {

/// A light without size that shines equally in every direction.
#[derive(Clone, Copy, Debug)]
pub struct PointLight {
    pub intensity: Colour,
    pub pos: Tuple,
}

impl PointLight {
    /// A light of this intensity at the point `pos`.
    pub fn new(intensity: Colour, pos: Tuple) -> (l: Self)
        requires
            pos.spec_is_point(),
        ensures
            l == (PointLight { intensity, pos }),
    {
        Self { intensity, pos }
    }
}

} // verus!
