//! Spheres, and the intersections that the roots of a ray stand for.

use vstd::prelude::*;
use crate::types::intersection::Intersection;
use crate::types::material::Material;
use crate::types::matrix::Matrix;
use crate::types::scalar::Scalar;

verus! {

/// What solving a ray against the unit sphere gave: the discriminant of the
/// quadratic and, where it is not negative, the two parameters at which the
/// ray crosses the surface.
#[derive(Clone, Copy, Debug)]
pub struct Roots {
    pub discriminant: Scalar,
    pub t1: Scalar,
    pub t2: Scalar,
}

/// The unit sphere about the origin, placed in the world by a transform.
///
/// The inverse of the transform is kept beside it, and the two are only ever
/// replaced together.
#[derive(Clone, Copy, Debug)]
pub struct Sphere {
    id: u128,
    transform: Matrix,
    pub material: Material,
    transform_inverse: Matrix,
}

/// Draws a random identifier with `uuid::Uuid::new_v4` and gives its 128
/// bits as `Uuid::as_u128` packs them. Nothing is known of the bits but what
/// every such identifier has: the version is 4 and the variant is `10`.
/// The call panics if the system cannot supply random bytes.
#[verifier::external_body]
fn fresh_id() -> (id: u128)
    ensures
        (id / 0x1000_0000_0000_0000_0000) % 16 == 4,
        (id / 0x4000_0000_0000_0000) % 4 == 2,
{
    uuid::Uuid::new_v4().as_u128()
}

impl Roots {
    /// The intersections of the surface `obj` that these roots stand for:
    /// none where the discriminant is negative, else one for each root.
    pub open spec fn intersections(self, obj: usize) -> Seq<Intersection> {
        if self.discriminant.is_negative() {
            Seq::empty()
        } else {
            seq![Intersection { t: self.t1, obj }, Intersection { t: self.t2, obj }]
        }
    }
}

impl Sphere {
    /// The identifier.
    pub closed spec fn spec_id(&self) -> u128 {
        self.id
    }

    /// The transform that places the sphere in the world.
    pub closed spec fn spec_transform(&self) -> Matrix {
        self.transform
    }

    /// The matrix kept as the inverse of the transform.
    pub closed spec fn spec_transform_inverse(&self) -> Matrix {
        self.transform_inverse
    }

    /// The material.
    pub closed spec fn spec_material(&self) -> Material {
        self.material
    }

    /// A sphere with a new identifier. `transform_inverse` is the inverse of
    /// `transform`.
    pub fn new(transform: Matrix, transform_inverse: Matrix, material: Material) -> (s: Self)
        requires
            transform@.len() == 4,
            transform_inverse@.len() == 4,
        ensures
            s.spec_transform() == transform,
            s.spec_transform_inverse() == transform_inverse,
            s.spec_material() == material,
            (s.spec_id() / 0x1000_0000_0000_0000_0000) % 16 == 4,
            (s.spec_id() / 0x4000_0000_0000_0000) % 4 == 2,
    {
        Self { id: fresh_id(), transform, material, transform_inverse }
    }

    /// The identifier, which copies of the sphere share.
    #[verifier::when_used_as_spec(spec_id)]
    pub fn id(&self) -> (id: u128)
        ensures
            id == self.spec_id(),
    {
        self.id
    }

    /// The transform that places the sphere in the world.
    #[verifier::when_used_as_spec(spec_transform)]
    pub fn transform(&self) -> (m: Matrix)
        ensures
            m == self.spec_transform(),
    {
        self.transform
    }

    /// The matrix kept as the inverse of the transform.
    #[verifier::when_used_as_spec(spec_transform_inverse)]
    pub fn transform_inverse(&self) -> (m: Matrix)
        ensures
            m == self.spec_transform_inverse(),
    {
        self.transform_inverse
    }

    /// Whether the two are one surface: whether their identifiers agree.
    pub fn same_surface(&self, other: &Sphere) -> (r: bool)
        ensures
            r == (self.spec_id() == other.spec_id()),
    {
        self.id == other.id
    }

    /// Replaces the transform and its inverse together.
    pub fn set_transform(&mut self, transform: Matrix, transform_inverse: Matrix)
        requires
            transform@.len() == 4,
            transform_inverse@.len() == 4,
        ensures
            final(self).spec_transform() == transform,
            final(self).spec_transform_inverse() == transform_inverse,
            final(self).spec_material() == old(self).spec_material(),
            final(self).spec_id() == old(self).spec_id(),
    {
        self.transform = transform;
        self.transform_inverse = transform_inverse;
    }

    /// The intersections of a ray with the surface that stands at `obj` in
    /// its world, from the roots found for that ray.
    pub fn intersect(obj: usize, roots: Roots) -> (r: Vec<Intersection>)
        ensures
            r@ == roots.intersections(obj),
    {
        if roots.discriminant.lt(Scalar::zero()) {
            let r: Vec<Intersection> = Vec::new();
            r
        } else {
            let mut r: Vec<Intersection> = Vec::new();
            r.push(Intersection::new(roots.t1, obj));
            r.push(Intersection::new(roots.t2, obj));
            assert(r@ =~= roots.intersections(obj));
            r
        }
    }
}

impl Default for Sphere {
    /// The unit sphere where it stands, with the default material.
    fn default() -> (s: Self)
        ensures
            s.spec_transform()@ == Matrix::grid(Matrix::identity_entries(), 4),
            s.spec_transform_inverse()@ == Matrix::grid(Matrix::identity_entries(), 4),
            s.spec_material() == Material::spec_default(),
    {
        Self::new(Matrix::identity(4), Matrix::identity(4), Material::default())
    }
}

} // verus!
