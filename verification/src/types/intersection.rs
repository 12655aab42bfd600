//! Intersections of a ray with surfaces, and the rule that picks the visible one.

use core::cmp::Ordering;
use vstd::prelude::*;
use crate::types::scalar::Scalar;
use crate::types::tuple::Tuple;

verus! {

/// A place where a ray meets a surface: the ray's parameter there, and the
/// surface's index among the objects of its world.
#[derive(Clone, Copy, Debug)]
pub struct Intersection {
    pub t: Scalar,
    pub obj: usize,
}

/// What shading needs to know of an intersection: where it lies, the same
/// point lifted a little off the surface, the direction to the eye, the
/// normal on the side of the eye, and whether the eye is inside the surface.
#[derive(Clone, Copy, Debug)]
pub struct IntersectionComps {
    pub t: Scalar,
    pub obj: usize,
    pub point: Tuple,
    pub over_point: Tuple,
    pub eye: Tuple,
    pub normal: Tuple,
    pub inside: bool,
}

impl IntersectionComps {
    /// The normal on the side of the eye, and whether that is the inside:
    /// a normal that points away from the eye, as the negative product of
    /// the two shows, is turned round.
    pub open spec fn spec_facing(normal: Tuple, normal_dot_eye: Scalar) -> (Tuple, bool) {
        if normal_dot_eye.is_negative() {
            (normal.spec_neg(), true)
        } else {
            (normal, false)
        }
    }

    /// The normal on the side of the eye, and whether that is the inside.
    pub fn facing(normal: Tuple, normal_dot_eye: Scalar) -> (r: (Tuple, bool))
        ensures
            r == Self::spec_facing(normal, normal_dot_eye),
    {
        if normal_dot_eye.lt(Scalar::zero()) {
            (normal.neg(), true)
        } else {
            (normal, false)
        }
    }
}

/// Two intersections are equal where their parameters are equal numbers and
/// their surfaces are the same.
impl PartialEq for Intersection {
    fn eq(&self, other: &Self) -> (r: bool) {
        self.t.num_eq(other.t) && self.obj == other.obj
    }
}

impl vstd::std_specs::cmp::PartialEqSpecImpl for Intersection {
    open spec fn obeys_eq_spec() -> bool {
        true
    }

    open spec fn eq_spec(&self, other: &Self) -> bool {
        self.t.spec_eq(other.t) && self.obj == other.obj
    }
}

/// Intersections are ordered by their parameters alone; a NaN compares with
/// nothing.
impl PartialOrd for Intersection {
    fn partial_cmp(&self, other: &Self) -> (r: Option<Ordering>) {
        if self.t.lt(other.t) {
            Some(Ordering::Less)
        } else if other.t.lt(self.t) {
            Some(Ordering::Greater)
        } else if self.t.num_eq(other.t) {
            Some(Ordering::Equal)
        } else {
            None
        }
    }
}

impl vstd::std_specs::cmp::PartialOrdSpecImpl for Intersection {
    open spec fn obeys_partial_cmp_spec() -> bool {
        true
    }

    open spec fn partial_cmp_spec(&self, other: &Self) -> Option<Ordering> {
        if self.t.spec_lt(other.t) {
            Some(Ordering::Less)
        } else if other.t.spec_lt(self.t) {
            Some(Ordering::Greater)
        } else if self.t.spec_eq(other.t) {
            Some(Ordering::Equal)
        } else {
            None
        }
    }
}

impl Intersection {
    /// The entry at `i` lies in front of the ray's origin, nothing in front
    /// of the origin lies nearer, and nothing before it lies as near.
    pub open spec fn is_hit_at(inters: Seq<Intersection>, i: int) -> bool {
        &&& 0 <= i < inters.len()
        &&& inters[i].t.is_positive()
        &&& forall|j: int|
            0 <= j < inters.len() && (#[trigger] inters[j]).t.is_positive() ==> inters[i].t.rank()
                <= inters[j].t.rank()
        &&& forall|j: int|
            0 <= j < i && (#[trigger] inters[j]).t.is_positive() ==> inters[i].t.rank()
                < inters[j].t.rank()
    }

    /// Nothing lies in front of the ray's origin.
    pub open spec fn all_behind(inters: Seq<Intersection>) -> bool {
        forall|j: int| 0 <= j < inters.len() ==> !(#[trigger] inters[j]).t.is_positive()
    }

    /// The intersection at parameter `t` with the surface at index `obj`.
    pub fn new(t: Scalar, obj: usize) -> (r: Self)
        ensures
            r == (Intersection { t, obj }),
    {
        Self { t, obj }
    }

    /// The visible intersection: the nearest of those in front of the ray's
    /// origin, and the first of them where several are as near.
    pub fn hit(inters: &Vec<Intersection>) -> (r: Option<Intersection>)
        ensures
            match r {
                Some(h) => exists|i: int| Self::is_hit_at(inters@, i) && h == inters@[i],
                None => Self::all_behind(inters@),
            },
            r is None <==> Self::all_behind(inters@),
    {
        let mut best: Option<Intersection> = None;
        let ghost mut at: int = 0;
        let mut k: usize = 0;
        while k < inters.len()
            invariant
                k <= inters.len(),
                match best {
                    Some(h) => Self::is_hit_at(inters@.take(k as int), at) && h == inters@[at],
                    None => Self::all_behind(inters@.take(k as int)),
                },
            decreases inters.len() - k,
        {
            let cur = inters[k];
            let ghost before = inters@.take(k as int);
            let ghost after = inters@.take(k + 1);
            assert(forall|j: int| 0 <= j < k ==> after[j] == before[j]);
            assert(after[k as int] == cur);
            if cur.t.gt(Scalar::zero()) {
                match best {
                    Some(h) => {
                        if cur.t.lt(h.t) {
                            best = Some(cur);
                            proof {
                                at = k as int;
                            }
                        }
                    },
                    None => {
                        best = Some(cur);
                        proof {
                            at = k as int;
                        }
                    },
                }
            }
            k += 1;
        }
        assert(inters@.take(k as int) =~= inters@);
        best
    }

    /// At most one entry is the hit.
    pub proof fn lemma_hit_is_unique(inters: Seq<Intersection>, i: int, j: int)
        requires
            Self::is_hit_at(inters, i),
            Self::is_hit_at(inters, j),
        ensures
            i == j,
    {
    }

    /// Where the parameters ascend, the hit is the first entry in front of
    /// the ray's origin.
    pub proof fn lemma_hit_of_ascending(inters: Seq<Intersection>, i: int)
        requires
            forall|a: int, b: int|
                0 <= a < b < inters.len() ==> (#[trigger] inters[a]).t.rank() <= (
                #[trigger] inters[b]).t.rank(),
            forall|a: int| 0 <= a < inters.len() ==> !(#[trigger] inters[a]).t.is_nan(),
            0 <= i < inters.len(),
            inters[i].t.is_positive(),
            forall|a: int| 0 <= a < i ==> !(#[trigger] inters[a]).t.is_positive(),
        ensures
            Self::is_hit_at(inters, i),
    {
    }
}

} // verus!
