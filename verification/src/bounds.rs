//! Bounding-box accumulation: component-wise minimum and maximum.

use crate::geometry::Vec3D;
use vstd::prelude::*;
use vstd::std_specs::cmp::PartialOrdIs;
use vstd::std_specs::cmp::PartialOrdSpec;

verus! {

/// The lesser of `candidate` and `current`; `current` where the two are
/// equal or cannot be compared.
pub open spec fn lesser<T: PartialOrd>(candidate: T, current: T) -> T {
    if candidate.is_lt(&current) {
        candidate
    } else {
        current
    }
}

/// The greater of `candidate` and `current`; `current` where the two are
/// equal or cannot be compared.
pub open spec fn greater<T: PartialOrd>(candidate: T, current: T) -> T {
    if candidate.is_gt(&current) {
        candidate
    } else {
        current
    }
}

impl<T: PartialOrd> Vec3D<T> {
    /// Lowers each component of `self` to that of `v` where `v`'s is smaller,
    /// and hands `self` back so that calls can be chained.
    pub fn min_bound(&mut self, v: Vec3D<T>) -> (r: &mut Self)
        ensures
            *final(self) == *final(r),
            r.x == v.x || r.x == old(self).x,
            r.y == v.y || r.y == old(self).y,
            r.z == v.z || r.z == old(self).z,
            T::obeys_partial_cmp_spec() ==> r.x == lesser(v.x, old(self).x),
            T::obeys_partial_cmp_spec() ==> r.y == lesser(v.y, old(self).y),
            T::obeys_partial_cmp_spec() ==> r.z == lesser(v.z, old(self).z),
    {
        if v.x < self.x {
            self.x = v.x;
        }
        if v.y < self.y {
            self.y = v.y;
        }
        if v.z < self.z {
            self.z = v.z;
        }
        self
    }

    /// Raises each component of `self` to that of `v` where `v`'s is larger,
    /// and hands `self` back so that calls can be chained.
    pub fn max_bound(&mut self, v: Vec3D<T>) -> (r: &mut Self)
        ensures
            *final(self) == *final(r),
            r.x == v.x || r.x == old(self).x,
            r.y == v.y || r.y == old(self).y,
            r.z == v.z || r.z == old(self).z,
            T::obeys_partial_cmp_spec() ==> r.x == greater(v.x, old(self).x),
            T::obeys_partial_cmp_spec() ==> r.y == greater(v.y, old(self).y),
            T::obeys_partial_cmp_spec() ==> r.z == greater(v.z, old(self).z),
    {
        if v.x > self.x {
            self.x = v.x;
        }
        if v.y > self.y {
            self.y = v.y;
        }
        if v.z > self.z {
            self.z = v.z;
        }
        self
    }
}

} // verus!
