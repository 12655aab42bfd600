//! The world: every surface a ray meets, in order, and what it sees first.

use vstd::prelude::*;
use vstd::multiset::Multiset;
use vstd::seq_lib::*;
use crate::types::colour::Colour;
use crate::types::intersection::Intersection;
use crate::types::light::PointLight;
use crate::types::material::Material;
use crate::types::matrix::Matrix;
use crate::types::scalar::Scalar;
use crate::types::sphere::{Roots, Sphere};
use crate::types::tuple::Tuple;

verus! {

/// A scene: its surfaces, each known by its index, and at most one light.
pub struct World {
    pub objects: Vec<Sphere>,
    pub light: Option<PointLight>,
}

impl World {
    /// Every intersection that `roots` stand for, surface after surface:
    /// `roots[i]` belongs to the surface at index `i`.
    pub open spec fn found(roots: Seq<Roots>) -> Seq<Intersection>
        decreases roots.len(),
    {
        if roots.len() == 0 {
            Seq::empty()
        } else {
            Self::found(roots.drop_last()) + roots.last().intersections(
                (roots.len() - 1) as usize,
            )
        }
    }

    /// No parameter is above a later one.
    pub open spec fn ascending(inters: Seq<Intersection>) -> bool {
        forall|i: int, j: int|
            0 <= i < j < inters.len() ==> (#[trigger] inters[i]).t.rank() <= (
            #[trigger] inters[j]).t.rank()
    }

    /// No parameter is a NaN.
    pub open spec fn numbers(inters: Seq<Intersection>) -> bool {
        forall|i: int| 0 <= i < inters.len() ==> !(#[trigger] inters[i]).t.is_nan()
    }

    /// Every intersection names one of the first `count` surfaces.
    pub open spec fn within(inters: Seq<Intersection>, count: int) -> bool {
        forall|i: int| 0 <= i < inters.len() ==> (#[trigger] inters[i]).obj < count
    }

    /// Some intersection lies in front of the ray's origin and nearer than
    /// `distance`.
    pub open spec fn blocked(inters: Seq<Intersection>, distance: Scalar) -> bool {
        exists|k: int|
            0 <= k < inters.len() && (#[trigger] inters[k]).t.is_positive() && inters[k].t.spec_lt(
                distance,
            )
    }

    /// The light of the default world: white, up and to the left behind the
    /// viewer, at `(-10, 10, -10)`.
    pub open spec fn default_light() -> PointLight {
        PointLight {
            intensity: Colour { r: Scalar::spec_one(), g: Scalar::spec_one(), b: Scalar::spec_one() },
            pos: Tuple {
                x: Scalar { bits: 0xC120_0000 },
                y: Scalar { bits: 0x4120_0000 },
                z: Scalar { bits: 0xC120_0000 },
                w: Scalar::spec_one(),
            },
        }
    }

    /// The material of the outer sphere of the default world: the default
    /// one, but of the colour `(0.8, 1.0, 0.6)`, diffuse 0.7, specular 0.2.
    pub open spec fn default_outer_material() -> Material {
        Material {
            colour: Colour {
                r: Scalar { bits: 0x3F4C_CCCD },
                g: Scalar::spec_one(),
                b: Scalar { bits: 0x3F19_999A },
            },
            diffuse: Scalar { bits: 0x3F33_3333 },
            specular: Scalar { bits: 0x3E4C_CCCD },
            ..Material::spec_default()
        }
    }

    /// The world of these surfaces and this light.
    pub fn new(objects: Vec<Sphere>, light: Option<PointLight>) -> (w: Self)
        ensures
            w.objects == objects,
            w.light == light,
    {
        Self { objects, light }
    }

    /// Whether `roots` stand for numbers only, so that their intersections
    /// can be put in order.
    pub fn comparable(roots: &Vec<Roots>) -> (ok: bool)
        ensures
            ok == Self::numbers(Self::found(roots@)),
    {
        let mut i: usize = 0;
        while i < roots.len()
            invariant
                i <= roots.len(),
                Self::numbers(Self::found(roots@.take(i as int))),
            decreases roots.len() - i,
        {
            let r = roots[i];
            proof {
                Self::lemma_found_take(roots@, i as int);
            }
            let ghost head = Self::found(roots@.take(i as int));
            let ghost here = r.intersections(i);
            if !r.discriminant.lt(Scalar::zero()) && (r.t1.nan() || r.t2.nan()) {
                proof {
                    let bad: int = if r.t1.is_nan() {
                        0
                    } else {
                        1
                    };
                    assert(here[bad].t.is_nan());
                    if Self::numbers(Self::found(roots@)) {
                        Self::lemma_found_holds(roots@, i as int);
                    }
                }
                return false;
            }
            proof {
                assert forall|k: int| 0 <= k < (head + here).len() implies !(#[trigger] (head
                    + here)[k]).t.is_nan() by {
                    if k < head.len() {
                        assert((head + here)[k] == head[k]);
                    } else {
                        assert((head + here)[k] == here[k - head.len()]);
                    }
                }
            }
            i += 1;
        }
        assert(roots@.take(i as int) =~= roots@);
        true
    }

    /// Puts `x` into `sorted` behind everything that is not above it.
    fn place(sorted: &mut Vec<Intersection>, x: Intersection)
        requires
            Self::ascending(old(sorted)@),
            Self::numbers(old(sorted)@),
            !x.t.is_nan(),
        ensures
            Self::ascending(final(sorted)@),
            Self::numbers(final(sorted)@),
            final(sorted)@.to_multiset() == old(sorted)@.to_multiset().insert(x),
    {
        let mut i: usize = 0;
        while i < sorted.len() && sorted[i].t.le(x.t)
            invariant
                i <= sorted.len(),
                sorted@ == old(sorted)@,
                Self::numbers(sorted@),
                !x.t.is_nan(),
                forall|k: int| 0 <= k < i ==> (#[trigger] sorted@[k]).t.rank() <= x.t.rank(),
            decreases sorted.len() - i,
        {
            i += 1;
        }
        proof {
            to_multiset_insert(sorted@, i as int, x);
        }
        sorted.insert(i, x);
    }

    /// The intersections of a ray with every surface, nearest parameter
    /// first, where `roots[i]` was found for the surface at index `i`.
    pub fn intersect(&self, roots: &Vec<Roots>) -> (r: Vec<Intersection>)
        requires
            roots.len() == self.objects.len(),
            Self::numbers(Self::found(roots@)),
        ensures
            Self::ascending(r@),
            r@.to_multiset() == Self::found(roots@).to_multiset(),
            Self::within(r@, self.objects@.len() as int),
    {
        let mut result: Vec<Intersection> = Vec::new();
        let mut i: usize = 0;
        while i < roots.len()
            invariant
                i <= roots.len(),
                Self::numbers(Self::found(roots@)),
                Self::ascending(result@),
                Self::numbers(result@),
                result@.to_multiset() == Self::found(roots@.take(i as int)).to_multiset(),
            decreases roots.len() - i,
        {
            let here = Sphere::intersect(i, roots[i]);
            proof {
                Self::lemma_found_take(roots@, i as int);
                Self::lemma_found_holds(roots@, i as int);
                lemma_multiset_commutative(Self::found(roots@.take(i as int)), here@);
            }
            let ghost before = result@;
            proof {
                to_multiset_len(here@.take(0));
                assert(here@.take(0).to_multiset() =~= Multiset::empty());
                assert(result@.to_multiset() =~= before.to_multiset().add(
                    here@.take(0).to_multiset(),
                ));
            }
            let mut k: usize = 0;
            while k < here.len()
                invariant
                    k <= here.len(),
                    Self::ascending(result@),
                    Self::numbers(result@),
                    Self::numbers(here@),
                    result@.to_multiset() == before.to_multiset().add(
                        here@.take(k as int).to_multiset(),
                    ),
                decreases here.len() - k,
            {
                proof {
                    assert(here@.take(k + 1) =~= here@.take(k as int).push(here@[k as int]));
                    to_multiset_build(here@.take(k as int), here@[k as int]);
                }
                Self::place(&mut result, here[k]);
                k += 1;
                assert(result@.to_multiset() =~= before.to_multiset().add(
                    here@.take(k as int).to_multiset(),
                ));
            }
            assert(here@.take(k as int) =~= here@);
            i += 1;
        }
        assert(roots@.take(i as int) =~= roots@);
        proof {
            let all = Self::found(roots@);
            Self::lemma_found_within(roots@);
            assert forall|k: int| 0 <= k < result@.len() implies (#[trigger] result@[k]).obj
                < roots@.len() by {
                let x = result@[k];
                assert(result@.contains(x));
                to_multiset_contains(result@, x);
                to_multiset_contains(all, x);
                let j = choose|j: int| 0 <= j < all.len() && all[j] == x;
                assert(all[j].obj < roots@.len());
            }
        }
        result
    }

    /// `h` is what a ray sees first among `inters`: it lies in front of the
    /// ray's origin, and nothing in front of the origin lies nearer.
    pub open spec fn is_nearest(inters: Seq<Intersection>, h: Intersection) -> bool {
        &&& inters.contains(h)
        &&& h.t.is_positive()
        &&& forall|k: int|
            0 <= k < inters.len() && (#[trigger] inters[k]).t.is_positive() ==> h.t.rank()
                <= inters[k].t.rank()
    }

    /// What a ray sees first, where `roots[i]` was found for the surface at
    /// index `i`: the nearest intersection in front of the ray's origin, or
    /// nothing where every surface is missed or behind.
    pub fn hit(&self, roots: &Vec<Roots>) -> (r: Option<Intersection>)
        requires
            roots.len() == self.objects.len(),
            Self::numbers(Self::found(roots@)),
        ensures
            match r {
                Some(h) => Self::is_nearest(Self::found(roots@), h) && h.obj < self.objects@.len(),
                None => Intersection::all_behind(Self::found(roots@)),
            },
    {
        let inters = self.intersect(roots);
        let hit = Intersection::hit(&inters);
        proof {
            let all = Self::found(roots@);
            assert forall|x: Intersection| inters@.contains(x) <==> all.contains(x) by {
                to_multiset_contains(inters@, x);
                to_multiset_contains(all, x);
            }
            match hit {
                Some(h) => {
                    let i = choose|i: int| Intersection::is_hit_at(inters@, i) && h == inters@[i];
                    assert(inters@.contains(h));
                    assert forall|k: int|
                        0 <= k < all.len() && (#[trigger] all[k]).t.is_positive() implies h.t.rank()
                        <= all[k].t.rank() by {
                        assert(all.contains(all[k]));
                        assert(inters@.contains(all[k]));
                        let j = choose|j: int| 0 <= j < inters@.len() && inters@[j] == all[k];
                        assert(inters@[j].t.is_positive());
                    }
                },
                None => {
                    assert forall|k: int| 0 <= k < all.len() implies !(#[trigger] all[k]).t.is_positive() by {
                        assert(all.contains(all[k]));
                        assert(inters@.contains(all[k]));
                        let j = choose|j: int| 0 <= j < inters@.len() && inters@[j] == all[k];
                        assert(!inters@[j].t.is_positive());
                    }
                },
            }
        }
        hit
    }

    /// Whether something stands between a point and the light: whether the
    /// ray from the point towards the light, for which `roots` were found,
    /// meets a surface before it has gone `distance`.
    pub fn is_shadowed(&self, roots: &Vec<Roots>, distance: Scalar) -> (r: bool)
        requires
            roots.len() == self.objects.len(),
            Self::numbers(Self::found(roots@)),
        ensures
            r == Self::blocked(Self::found(roots@), distance),
    {
        let hit = self.hit(roots);
        proof {
            let all = Self::found(roots@);
            match hit {
                Some(h) => {
                    if h.t.spec_lt(distance) {
                        let k = choose|k: int| 0 <= k < all.len() && all[k] == h;
                        assert(all[k].t.is_positive() && all[k].t.spec_lt(distance));
                    }
                },
                None => {},
            }
        }
        match hit {
            Some(h) => h.t.lt(distance),
            None => false,
        }
    }

    /// What one more surface adds to the intersections found.
    proof fn lemma_found_take(roots: Seq<Roots>, i: int)
        requires
            0 <= i < roots.len(),
        ensures
            Self::found(roots.take(i + 1)) == Self::found(roots.take(i)) + roots[i].intersections(
                i as usize,
            ),
    {
        assert(roots.take(i + 1).drop_last() =~= roots.take(i));
    }

    /// What is found names surfaces that roots were given for.
    pub proof fn lemma_found_within(roots: Seq<Roots>)
        requires
            roots.len() <= usize::MAX,
        ensures
            Self::within(Self::found(roots), roots.len() as int),
        decreases roots.len(),
    {
        if roots.len() > 0 {
            Self::lemma_found_within(roots.drop_last());
            let head = Self::found(roots.drop_last());
            let last = roots.last().intersections((roots.len() - 1) as usize);
            assert forall|i: int| 0 <= i < (head + last).len() implies (#[trigger] (head
                + last)[i]).obj < roots.len() by {
                if i < head.len() {
                    assert((head + last)[i] == head[i]);
                } else {
                    assert((head + last)[i] == last[i - head.len()]);
                }
            }
        }
    }

    /// The intersections of one surface are among those of all.
    proof fn lemma_found_holds(roots: Seq<Roots>, i: int)
        requires
            0 <= i < roots.len(),
            Self::numbers(Self::found(roots)),
        ensures
            Self::numbers(roots[i].intersections(i as usize)),
        decreases roots.len(),
    {
        let last = roots.last().intersections((roots.len() - 1) as usize);
        let head = Self::found(roots.drop_last());
        assert forall|k: int| 0 <= k < head.len() implies !(#[trigger] head[k]).t.is_nan() by {
            assert((head + last)[k] == head[k]);
        }
        assert forall|k: int| 0 <= k < last.len() implies !(#[trigger] last[k]).t.is_nan() by {
            assert((head + last)[head.len() + k] == last[k]);
        }
        if i < roots.len() - 1 {
            Self::lemma_found_holds(roots.drop_last(), i);
        }
    }
}

impl Default for World {
    /// Two spheres about the origin, the inner one half the size of the
    /// outer, and one white light.
    fn default() -> (w: Self)
        ensures
            w.light == Some(World::default_light()),
            w.objects@.len() == 2,
            w.objects@[0].spec_material() == World::default_outer_material(),
            w.objects@[0].spec_transform()@ == Matrix::grid(Matrix::identity_entries(), 4),
            w.objects@[0].spec_transform_inverse()@ == Matrix::grid(Matrix::identity_entries(), 4),
            w.objects@[1].spec_material() == Material::spec_default(),
            w.objects@[1].spec_transform()@ == Matrix::grid(
                Matrix::scaling_entries(
                    Scalar { bits: 0x3F00_0000 },
                    Scalar { bits: 0x3F00_0000 },
                    Scalar { bits: 0x3F00_0000 },
                ),
                4,
            ),
            w.objects@[1].spec_transform_inverse()@ == Matrix::grid(
                Matrix::scaling_entries(
                    Scalar { bits: 0x4000_0000 },
                    Scalar { bits: 0x4000_0000 },
                    Scalar { bits: 0x4000_0000 },
                ),
                4,
            ),
    {
        let ten = Scalar::from_bits(0x4120_0000);
        let light = PointLight::new(
            Colour::new(Scalar::one(), Scalar::one(), Scalar::one()),
            Tuple::point(ten.neg(), ten, ten.neg()),
        );
        let mut outer = Material::default();
        outer.colour = Colour::new(
            Scalar::from_bits(0x3F4C_CCCD),
            Scalar::one(),
            Scalar::from_bits(0x3F19_999A),
        );
        outer.diffuse = Scalar::from_bits(0x3F33_3333);
        outer.specular = Scalar::from_bits(0x3E4C_CCCD);
        let s1 = Sphere::new(Matrix::identity(4), Matrix::identity(4), outer);
        let half = Scalar::from_bits(0x3F00_0000);
        let two = Scalar::from_bits(0x4000_0000);
        let mut s2 = Sphere::default();
        s2.set_transform(Matrix::scaling(half, half, half), Matrix::scaling(two, two, two));
        let mut objects: Vec<Sphere> = Vec::new();
        objects.push(s1);
        objects.push(s2);
        Self::new(objects, Some(light))
    }
}

} // verus!
