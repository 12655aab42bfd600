//! Colours.

use vstd::prelude::*;
use crate::types::scalar::Scalar;

verus! {

/// Red, green and blue, each nominally between zero and one.
#[derive(Clone, Copy, Debug)]
pub struct Colour {
    pub r: Scalar,
    pub g: Scalar,
    pub b: Scalar,
}

impl Colour {
    /// No light at all.
    pub open spec fn spec_black() -> Colour {
        Colour { r: Scalar::spec_zero(), g: Scalar::spec_zero(), b: Scalar::spec_zero() }
    }

    /// The colour of these three channels.
    pub fn new(r: Scalar, g: Scalar, b: Scalar) -> (c: Self)
        ensures
            c == (Colour { r, g, b }),
    {
        Self { r, g, b }
    }

    /// No light at all.
    #[verifier::when_used_as_spec(spec_black)]
    pub fn black() -> (c: Self)
        ensures
            c == Colour::spec_black(),
    {
        Self { r: Scalar::zero(), g: Scalar::zero(), b: Scalar::zero() }
    }
}

} // verus!
