//! Two- and three-component vectors over any numeric element type.
//!
//! The arithmetic is generic: a vector operation is defined wherever the
//! element operation is, and its result is described through the element's
//! own operator specification.

use std::ops::Add;
use std::ops::Div;
use std::ops::Mul;
use std::ops::Sub;
use vstd::prelude::*;
use vstd::std_specs::cmp::PartialEqSpec;
use vstd::std_specs::ops::AddSpec;
use vstd::std_specs::ops::DivSpec;
use vstd::std_specs::ops::MulSpec;
use vstd::std_specs::ops::SubSpec;

verus! {

/// A point or displacement in the plane.
#[derive(Debug, Copy, Clone)]
pub struct Vec2D<T> {
    pub x: T,
    pub y: T,
}

/// A point or displacement in space.
#[derive(Debug, Copy, Clone)]
pub struct Vec3D<T> {
    pub x: T,
    pub y: T,
    pub z: T,
}

pub type Vec2Di = Vec2D<i32>;

pub type Vec2Du = Vec2D<u32>;

pub type Vec3Di = Vec3D<i32>;

pub type Vec3Du = Vec3D<u32>;

impl<T: Add<Output = T>> vstd::std_specs::ops::AddSpecImpl for Vec2D<T> {
    open spec fn obeys_add_spec() -> bool {
        T::obeys_add_spec()
    }

    open spec fn add_req(self, other: Vec2D<T>) -> bool {
        self.x.add_req(other.x) && self.y.add_req(other.y)
    }

    open spec fn add_spec(self, other: Vec2D<T>) -> Vec2D<T> {
        Vec2D { x: self.x.add_spec(other.x), y: self.y.add_spec(other.y) }
    }
}

impl<T: Add<Output = T>> Add for Vec2D<T> {
    type Output = Vec2D<T>;

    /// Component-wise sum.
    fn add(self, other: Vec2D<T>) -> Vec2D<T> {
        Vec2D { x: self.x + other.x, y: self.y + other.y }
    }
}

impl<T: Sub<Output = T>> vstd::std_specs::ops::SubSpecImpl for Vec2D<T> {
    open spec fn obeys_sub_spec() -> bool {
        T::obeys_sub_spec()
    }

    open spec fn sub_req(self, other: Vec2D<T>) -> bool {
        self.x.sub_req(other.x) && self.y.sub_req(other.y)
    }

    open spec fn sub_spec(self, other: Vec2D<T>) -> Vec2D<T> {
        Vec2D { x: self.x.sub_spec(other.x), y: self.y.sub_spec(other.y) }
    }
}

impl<T: Sub<Output = T>> Sub for Vec2D<T> {
    type Output = Vec2D<T>;

    /// Component-wise difference.
    fn sub(self, other: Vec2D<T>) -> Vec2D<T> {
        Vec2D { x: self.x - other.x, y: self.y - other.y }
    }
}

impl<T: Add<Output = T>> vstd::std_specs::ops::AddSpecImpl for Vec3D<T> {
    open spec fn obeys_add_spec() -> bool {
        T::obeys_add_spec()
    }

    open spec fn add_req(self, other: Vec3D<T>) -> bool {
        self.x.add_req(other.x) && self.y.add_req(other.y) && self.z.add_req(other.z)
    }

    open spec fn add_spec(self, other: Vec3D<T>) -> Vec3D<T> {
        Vec3D {
            x: self.x.add_spec(other.x),
            y: self.y.add_spec(other.y),
            z: self.z.add_spec(other.z),
        }
    }
}

impl<T: Add<Output = T>> Add for Vec3D<T> {
    type Output = Vec3D<T>;

    /// Component-wise sum.
    fn add(self, other: Vec3D<T>) -> Vec3D<T> {
        Vec3D { x: self.x + other.x, y: self.y + other.y, z: self.z + other.z }
    }
}

impl<T: Sub<Output = T>> vstd::std_specs::ops::SubSpecImpl for Vec3D<T> {
    open spec fn obeys_sub_spec() -> bool {
        T::obeys_sub_spec()
    }

    open spec fn sub_req(self, other: Vec3D<T>) -> bool {
        self.x.sub_req(other.x) && self.y.sub_req(other.y) && self.z.sub_req(other.z)
    }

    open spec fn sub_spec(self, other: Vec3D<T>) -> Vec3D<T> {
        Vec3D {
            x: self.x.sub_spec(other.x),
            y: self.y.sub_spec(other.y),
            z: self.z.sub_spec(other.z),
        }
    }
}

impl<T: Sub<Output = T>> Sub for Vec3D<T> {
    type Output = Vec3D<T>;

    /// Component-wise difference.
    fn sub(self, other: Vec3D<T>) -> Vec3D<T> {
        Vec3D { x: self.x - other.x, y: self.y - other.y, z: self.z - other.z }
    }
}

impl<T: Mul<Output = T> + Add<Output = T>> vstd::std_specs::ops::MulSpecImpl for Vec3D<T> {
    open spec fn obeys_mul_spec() -> bool {
        T::obeys_mul_spec() && T::obeys_add_spec()
    }

    /// The three products and the two sums of the dot product are all defined.
    open spec fn mul_req(self, other: Vec3D<T>) -> bool {
        &&& T::obeys_mul_spec()
        &&& T::obeys_add_spec()
        &&& self.x.mul_req(other.x)
        &&& self.y.mul_req(other.y)
        &&& self.z.mul_req(other.z)
        &&& self.x.mul_spec(other.x).add_req(self.y.mul_spec(other.y))
        &&& self.x.mul_spec(other.x).add_spec(self.y.mul_spec(other.y)).add_req(
            self.z.mul_spec(other.z),
        )
    }

    open spec fn mul_spec(self, other: Vec3D<T>) -> T {
        self.x.mul_spec(other.x).add_spec(self.y.mul_spec(other.y)).add_spec(
            self.z.mul_spec(other.z),
        )
    }
}

impl<T: Mul<Output = T> + Add<Output = T>> Mul for Vec3D<T> {
    type Output = T;

    /// Dot product.
    fn mul(self, other: Vec3D<T>) -> T {
        self.x * other.x + self.y * other.y + self.z * other.z
    }
}

impl<T: Mul<Output = T> + Sub<Output = T> + Copy> Vec3D<T> {
    /// The six products and the three differences of the cross product are
    /// all defined.
    pub open spec fn cross_req(self, other: Vec3D<T>) -> bool {
        &&& T::obeys_mul_spec()
        &&& T::obeys_sub_spec()
        &&& self.y.mul_req(other.z)
        &&& self.z.mul_req(other.y)
        &&& self.z.mul_req(other.x)
        &&& self.x.mul_req(other.z)
        &&& self.x.mul_req(other.y)
        &&& self.y.mul_req(other.x)
        &&& self.y.mul_spec(other.z).sub_req(self.z.mul_spec(other.y))
        &&& self.z.mul_spec(other.x).sub_req(self.x.mul_spec(other.z))
        &&& self.x.mul_spec(other.y).sub_req(self.y.mul_spec(other.x))
    }

    /// The right-handed cross product, written over the element operations.
    pub open spec fn cross_spec(self, other: Vec3D<T>) -> Vec3D<T> {
        Vec3D {
            x: self.y.mul_spec(other.z).sub_spec(self.z.mul_spec(other.y)),
            y: self.z.mul_spec(other.x).sub_spec(self.x.mul_spec(other.z)),
            z: self.x.mul_spec(other.y).sub_spec(self.y.mul_spec(other.x)),
        }
    }

    /// Right-handed cross product of `self` and `other`.
    pub fn cross(&self, other: Vec3D<T>) -> (r: Vec3D<T>)
        requires
            self.cross_req(other),
        ensures
            r == self.cross_spec(other),
    {
        Vec3D {
            x: self.y * other.z - self.z * other.y,
            y: self.z * other.x - self.x * other.z,
            z: self.x * other.y - self.y * other.x,
        }
    }
}

impl<T: Mul<Output = T> + Copy> Vec3D<T> {
    /// Each component can be multiplied by `s`.
    pub open spec fn scale_req(self, s: T) -> bool {
        self.x.mul_req(s) && self.y.mul_req(s) && self.z.mul_req(s)
    }

    /// Each component multiplied by `s`.
    pub open spec fn scale_spec(self, s: T) -> Vec3D<T> {
        Vec3D { x: self.x.mul_spec(s), y: self.y.mul_spec(s), z: self.z.mul_spec(s) }
    }

    /// The vector with each component multiplied by `s`.
    pub fn scale(&self, s: T) -> (r: Vec3D<T>)
        requires
            self.scale_req(s),
        ensures
            T::obeys_mul_spec() ==> r == self.scale_spec(s),
    {
        Vec3D { x: self.x * s, y: self.y * s, z: self.z * s }
    }
}

impl<T: Div<Output = T> + PartialEq + Copy> Vec3D<T> {
    /// Each component can be divided by `length`.
    pub open spec fn shrink_req(self, length: T) -> bool {
        self.x.div_req(length) && self.y.div_req(length) && self.z.div_req(length)
    }

    /// Each component divided by `length`.
    pub open spec fn shrink_spec(self, length: T) -> Vec3D<T> {
        Vec3D {
            x: self.x.div_spec(length),
            y: self.y.div_spec(length),
            z: self.z.div_spec(length),
        }
    }

    /// The vector brought to length one: each component divided by
    /// `length`, the length of the vector. A vector of length `zero` comes
    /// back unchanged rather than being divided by zero.
    ///
    /// The caller computes `length`, since taking a square root is not an
    /// operation of every element type, and hands in the `zero` of the
    /// element type to compare it with.
    pub fn normalized(self, length: T, zero: T) -> (r: Vec3D<T>)
        requires
            (T::obeys_eq_spec() && length.eq_spec(&zero)) || self.shrink_req(length),
        ensures
            T::obeys_eq_spec() && length.eq_spec(&zero) ==> r == self,
            T::obeys_eq_spec() && !length.eq_spec(&zero) && T::obeys_div_spec() ==> r
                == self.shrink_spec(length),
    {
        if length == zero {
            self
        } else {
            Vec3D { x: self.x / length, y: self.y / length, z: self.z / length }
        }
    }
}

/// Adding a vector and taking it away again gives the vector back: for
/// integer vectors whose sum is representable, `(a + b) - b == a` exactly.
pub proof fn lemma_add_then_sub_2d(a: Vec2D<i32>, b: Vec2D<i32>)
    requires
        a.add_req(b),
    ensures
        a.add_spec(b).sub_req(b),
        a.add_spec(b).sub_spec(b) == a,
{
}

/// Adding a vector and taking it away again gives the vector back: for
/// integer vectors whose sum is representable, `(a + b) - b == a` exactly.
pub proof fn lemma_add_then_sub_3d(a: Vec3D<i32>, b: Vec3D<i32>)
    requires
        a.add_req(b),
    ensures
        a.add_spec(b).sub_req(b),
        a.add_spec(b).sub_spec(b) == a,
{
}

/// The cross product is perpendicular to both of its factors: for integer
/// vectors whose cross product is representable, the dot products of
/// `cross(a, b)` with `a` and with `b`, taken over the integers, are zero.
pub proof fn lemma_cross_is_perpendicular(a: Vec3D<i32>, b: Vec3D<i32>)
    requires
        a.cross_req(b),
    ensures
        ({
            let c = a.cross_spec(b);
            &&& c.x * a.x + c.y * a.y + c.z * a.z == 0
            &&& c.x * b.x + c.y * b.y + c.z * b.z == 0
        }),
{
    let c = a.cross_spec(b);
    let (ax, ay, az) = (a.x as int, a.y as int, a.z as int);
    let (bx, by, bz) = (b.x as int, b.y as int, b.z as int);
    assert(c.x == ay * bz - az * by);
    assert(c.y == az * bx - ax * bz);
    assert(c.z == ax * by - ay * bx);
    assert((ay * bz - az * by) * ax + (az * bx - ax * bz) * ay + (ax * by - ay * bx) * az == 0)
        by (nonlinear_arith);
    assert((ay * bz - az * by) * bx + (az * bx - ax * bz) * by + (ax * by - ay * bx) * bz == 0)
        by (nonlinear_arith);
}

/// Where the dot product of `cross(a, b)` with `a` is itself representable,
/// the executable operators compute exactly zero.
pub proof fn lemma_cross_dot_is_zero(a: Vec3D<i32>, b: Vec3D<i32>)
    requires
        a.cross_req(b),
        a.cross_spec(b).mul_req(a),
        a.cross_spec(b).mul_req(b),
    ensures
        a.cross_spec(b).mul_spec(a) == 0,
        a.cross_spec(b).mul_spec(b) == 0,
{
    lemma_cross_is_perpendicular(a, b);
}

} // verus!
