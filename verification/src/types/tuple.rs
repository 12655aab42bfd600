//! Points and directions in homogeneous coordinates.

use vstd::prelude::*;
use crate::types::scalar::Scalar;

verus! {

/// Four homogeneous coordinates: a point where `w` is one, a direction where
/// `w` is zero.
#[derive(Clone, Copy, Debug)]
pub struct Tuple {
    pub x: Scalar,
    pub y: Scalar,
    pub z: Scalar,
    pub w: Scalar,
}

impl Tuple {
    /// A direction: `w` equals zero. Either zero will do.
    pub open spec fn spec_is_vector(&self) -> bool {
        self.w.spec_eq(Scalar::spec_zero())
    }

    /// A point: `w` equals one.
    pub open spec fn spec_is_point(&self) -> bool {
        self.w.spec_eq(Scalar::spec_one())
    }

    /// The tuple with the sign of every coordinate changed.
    pub open spec fn spec_neg(self) -> Tuple {
        Tuple { x: self.x.spec_neg(), y: self.y.spec_neg(), z: self.z.spec_neg(), w: self.w.spec_neg() }
    }

    /// The tuple of these four coordinates.
    pub fn new(x: Scalar, y: Scalar, z: Scalar, w: Scalar) -> (r: Self)
        ensures
            r == (Tuple { x, y, z, w }),
    {
        Self { x, y, z, w }
    }

    /// The direction with these coordinates.
    pub fn vector(x: Scalar, y: Scalar, z: Scalar) -> (r: Self)
        ensures
            r == (Tuple { x, y, z, w: Scalar::spec_zero() }),
            r.spec_is_vector(),
    {
        Self { x, y, z, w: Scalar::zero() }
    }

    /// The point with these coordinates.
    pub fn point(x: Scalar, y: Scalar, z: Scalar) -> (r: Self)
        ensures
            r == (Tuple { x, y, z, w: Scalar::spec_one() }),
            r.spec_is_point(),
    {
        Self { x, y, z, w: Scalar::one() }
    }

    /// Whether this is a direction.
    #[verifier::when_used_as_spec(spec_is_vector)]
    pub fn is_vector(&self) -> (r: bool)
        ensures
            r == self.spec_is_vector(),
    {
        self.w.num_eq(Scalar::zero())
    }

    /// Whether this is a point.
    #[verifier::when_used_as_spec(spec_is_point)]
    pub fn is_point(&self) -> (r: bool)
        ensures
            r == self.spec_is_point(),
    {
        self.w.num_eq(Scalar::one())
    }

    /// The tuple with the sign of every coordinate changed.
    #[verifier::when_used_as_spec(spec_neg)]
    pub fn neg(self) -> (r: Tuple)
        ensures
            r == self.spec_neg(),
    {
        Tuple { x: self.x.neg(), y: self.y.neg(), z: self.z.neg(), w: self.w.neg() }
    }

    /// A direction with its sign changed is a direction still, and twice
    /// changed it is the direction it was. A point does not stay a point.
    pub proof fn lemma_neg_keeps_vectors(t: Tuple)
        ensures
            t.spec_neg().spec_neg() == t,
            t.spec_is_vector() <==> t.spec_neg().spec_is_vector(),
            t.spec_is_point() ==> !t.spec_neg().spec_is_point(),
            !(t.spec_is_point() && t.spec_is_vector()),
    {
        Scalar::lemma_neg_mirrors(t.x, t.x);
        Scalar::lemma_neg_mirrors(t.y, t.y);
        Scalar::lemma_neg_mirrors(t.z, t.z);
        Scalar::lemma_neg_mirrors(t.w, t.w);
    }
}

} // verus!
