//! `Vec2`, `Vec3` and `Vec4`: arrays of two, three and four scalars.
//!
//! A scalar is anything with `+ - * /`, copying and comparison. What an
//! operator computes on a given scalar type is taken from the operator
//! specifications of that type, so every result below is stated through
//! `add_spec`, `sub_spec`, `mul_spec` and `neg_spec`; on the primitive integers
//! these are the usual operations, defined where they do not overflow.
use vstd::prelude::*;
use core::ops::{Add, Div, Mul, Neg, Sub};
use vstd::std_specs::ops::{AddSpec, MulSpec, NegSpec, SubSpec};

verus! {

/// The scalars a vector can be built from.
pub trait Field: Mul<Output = Self> + Div<Output = Self> + Add<Output = Self> + Sub<
    Output = Self,
> + Copy + PartialEq + PartialOrd {

}

impl<S> Field for S where
    S: Mul<Output = S> + Div<Output = S> + Add<Output = S> + Sub<Output = S> + Copy + PartialEq
        + PartialOrd,
 {

}

/// Whether `+`, `-` and `*` on `S` compute what their specifications say.
pub open spec fn obeys_arithmetic<S: Field>() -> bool {
    S::obeys_add_spec() && S::obeys_sub_spec() && S::obeys_mul_spec()
}

/// `a * b - c * d` is defined: neither product nor the difference leaves `S`.
pub open spec fn det_req<S: Field>(a: S, b: S, c: S, d: S) -> bool {
    &&& a.mul_req(b)
    &&& c.mul_req(d)
    &&& a.mul_spec(b).sub_req(c.mul_spec(d))
}

/// `a * b - c * d`.
pub open spec fn det_spec<S: Field>(a: S, b: S, c: S, d: S) -> S {
    a.mul_spec(b).sub_spec(c.mul_spec(d))
}

pub(crate) fn det<S: Field>(a: S, b: S, c: S, d: S) -> (r: S)
    requires
        obeys_arithmetic::<S>(),
        det_req(a, b, c, d),
    ensures
        r == det_spec(a, b, c, d),
{
    a * b - c * d
}

/// `a * b + c * d` is defined.
pub open spec fn dot2_req<S: Field>(a: S, b: S, c: S, d: S) -> bool {
    &&& a.mul_req(b)
    &&& c.mul_req(d)
    &&& a.mul_spec(b).add_req(c.mul_spec(d))
}

/// `a * b + c * d`.
pub open spec fn dot2_spec<S: Field>(a: S, b: S, c: S, d: S) -> S {
    a.mul_spec(b).add_spec(c.mul_spec(d))
}

/// Adding `a * b` to `sum` is defined.
pub open spec fn mul_add_req<S: Field>(sum: S, a: S, b: S) -> bool {
    a.mul_req(b) && sum.add_req(a.mul_spec(b))
}

/// `sum + a * b`.
pub open spec fn mul_add_spec<S: Field>(sum: S, a: S, b: S) -> S {
    sum.add_spec(a.mul_spec(b))
}

pub(crate) fn mul_add<S: Field>(sum: S, a: S, b: S) -> (r: S)
    requires
        obeys_arithmetic::<S>(),
        mul_add_req(sum, a, b),
    ensures
        r == mul_add_spec(sum, a, b),
{
    sum + a * b
}

/// Vectors with an inner product.
pub trait Vector: Sized {
    type Scalar: Field;

    /// The inner product is defined: no step of it leaves the scalars.
    spec fn dot_req(&self, rhs: &Self) -> bool;

    /// The inner product: the sum of the products of the components, taken
    /// from the first component on.
    spec fn dot_spec(&self, rhs: &Self) -> Self::Scalar;

    fn dot(&self, rhs: &Self) -> (r: Self::Scalar)
        requires
            obeys_arithmetic::<Self::Scalar>(),
            self.dot_req(rhs),
        ensures
            r == self.dot_spec(rhs),
    ;

    /// The inner product of the vector with itself.
    #[inline]
    fn squared_norm(&self) -> (r: Self::Scalar)
        requires
            obeys_arithmetic::<Self::Scalar>(),
            self.dot_req(self),
        ensures
            r == self.dot_spec(self),
    {
        self.dot(self)
    }
}

#[derive(Clone, Copy, Debug)]
pub struct Vec2<Scalar: Field>(pub [Scalar; 2]);

#[derive(Clone, Copy, Debug)]
pub struct Vec3<Scalar: Field>(pub [Scalar; 3]);

#[derive(Clone, Copy, Debug)]
pub struct Vec4<Scalar: Field>(pub [Scalar; 4]);

pub fn vec2<S: Field>(x: S, y: S) -> (v: Vec2<S>)
    ensures
        v.0@ == seq![x, y],
{
    Vec2::new(x, y)
}

pub fn vec3<S: Field>(x: S, y: S, z: S) -> (v: Vec3<S>)
    ensures
        v.0@ == seq![x, y, z],
{
    Vec3::new(x, y, z)
}

pub fn vec4<S: Field>(x: S, y: S, z: S, w: S) -> (v: Vec4<S>)
    ensures
        v.0@ == seq![x, y, z, w],
{
    Vec4::new(x, y, z, w)
}

impl<Scalar: Field> Vec2<Scalar> {
    pub fn new(x: Scalar, y: Scalar) -> (v: Self)
        ensures
            v.0@ == seq![x, y],
    {
        Vec2([x, y])
    }

    pub open spec fn cross_req(self, rhs: Self) -> bool {
        det_req(self.0[0], rhs.0[1], self.0[1], rhs.0[0])
    }

    /// The z component of the three-dimensional cross product of the two
    /// vectors laid in the plane.
    pub open spec fn cross_spec(self, rhs: Self) -> Scalar {
        det_spec(self.0[0], rhs.0[1], self.0[1], rhs.0[0])
    }

    pub fn cross(&self, rhs: &Self) -> (r: Scalar)
        requires
            obeys_arithmetic::<Scalar>(),
            self.cross_req(*rhs),
        ensures
            r == self.cross_spec(*rhs),
    {
        det(self.0[0], rhs.0[1], self.0[1], rhs.0[0])
    }

    /// The vector turned a quarter turn counter-clockwise.
    pub fn normal(&self) -> (v: Vec2<Scalar>) where Scalar: Neg<Output = Scalar>
        requires
            self.0[1].neg_req(),
        ensures
            Scalar::obeys_neg_spec() ==> v.0[0] == self.0[1].neg_spec(),
            v.0[1] == self.0[0],
    {
        Vec2::new(self.0[1].neg(), self.0[0])
    }

    /// Exchanges the two components.
    pub fn swap(&mut self)
        ensures
            final(self).0@ == seq![old(self).0[1], old(self).0[0]],
    {
        self.0 = [self.0[1], self.0[0]];
    }

    pub fn from_array(array: [Scalar; 2]) -> (v: Self)
        ensures
            v.0 == array,
    {
        Vec2(array)
    }
}

impl<Scalar: Field> Vec3<Scalar> {
    pub fn new(x: Scalar, y: Scalar, z: Scalar) -> (v: Self)
        ensures
            v.0@ == seq![x, y, z],
    {
        Vec3([x, y, z])
    }

    pub open spec fn cross_req(self, rhs: Self) -> bool {
        cross_of_req(self.0@, rhs.0@)
    }

    /// The components of the cross product, in order.
    pub open spec fn cross_spec(self, rhs: Self) -> Seq<Scalar> {
        cross_of(self.0@, rhs.0@)
    }

    pub fn cross(&self, rhs: &Vec3<Scalar>) -> (v: Self)
        requires
            obeys_arithmetic::<Scalar>(),
            self.cross_req(*rhs),
        ensures
            v.0@ == self.cross_spec(*rhs),
    {
        let (lx, ly, lz) = (self.0[0], self.0[1], self.0[2]);
        let (rx, ry, rz) = (rhs.0[0], rhs.0[1], rhs.0[2]);
        Vec3::new(det(ly, rz, lz, ry), det(lz, rx, lx, rz), det(lx, ry, ly, rx))
    }

    pub fn array(&self) -> (a: &[Scalar; 3])
        ensures
            *a == self.0,
    {
        &self.0
    }

    pub fn from_array(array: [Scalar; 3]) -> (v: Self)
        ensures
            v.0 == array,
    {
        Vec3(array)
    }
}

impl<Scalar: Field> Vec4<Scalar> {
    pub fn new(x: Scalar, y: Scalar, z: Scalar, w: Scalar) -> (v: Self)
        ensures
            v.0@ == seq![x, y, z, w],
    {
        Vec4([x, y, z, w])
    }

    /// The first three components.
    pub fn xyz(&self) -> (v: Vec3<Scalar>)
        ensures
            v.0@ == self.0@.take(3),
    {
        Vec3([self.0[0], self.0[1], self.0[2]])
    }

    pub fn array(&self) -> (a: &[Scalar; 4])
        ensures
            *a == self.0,
    {
        &self.0
    }

    pub fn from_array(array: [Scalar; 4]) -> (v: Self)
        ensures
            v.0 == array,
    {
        Vec4(array)
    }
}

impl<Scalar: Field> Vector for Vec2<Scalar> {
    type Scalar = Scalar;

    open spec fn dot_req(&self, rhs: &Self) -> bool {
        dot2_req(self.0[0], rhs.0[0], self.0[1], rhs.0[1])
    }

    open spec fn dot_spec(&self, rhs: &Self) -> Scalar {
        dot2_spec(self.0[0], rhs.0[0], self.0[1], rhs.0[1])
    }

    #[inline]
    fn dot(&self, rhs: &Self) -> (r: Scalar) {
        self.0[0] * rhs.0[0] + self.0[1] * rhs.0[1]
    }
}

impl<Scalar: Field> Vector for Vec3<Scalar> {
    type Scalar = Scalar;

    open spec fn dot_req(&self, rhs: &Self) -> bool {
        &&& dot2_req(self.0[0], rhs.0[0], self.0[1], rhs.0[1])
        &&& mul_add_req(
            dot2_spec(self.0[0], rhs.0[0], self.0[1], rhs.0[1]),
            self.0[2],
            rhs.0[2],
        )
    }

    open spec fn dot_spec(&self, rhs: &Self) -> Scalar {
        mul_add_spec(dot2_spec(self.0[0], rhs.0[0], self.0[1], rhs.0[1]), self.0[2], rhs.0[2])
    }

    #[inline]
    fn dot(&self, rhs: &Self) -> (r: Scalar) {
        let first = self.0[0] * rhs.0[0] + self.0[1] * rhs.0[1];
        mul_add(first, self.0[2], rhs.0[2])
    }
}

impl<Scalar: Field> Vector for Vec4<Scalar> {
    type Scalar = Scalar;

    open spec fn dot_req(&self, rhs: &Self) -> bool {
        &&& dot2_req(self.0[0], rhs.0[0], self.0[1], rhs.0[1])
        &&& mul_add_req(
            dot2_spec(self.0[0], rhs.0[0], self.0[1], rhs.0[1]),
            self.0[2],
            rhs.0[2],
        )
        &&& mul_add_req(
            mul_add_spec(dot2_spec(self.0[0], rhs.0[0], self.0[1], rhs.0[1]), self.0[2], rhs.0[2]),
            self.0[3],
            rhs.0[3],
        )
    }

    open spec fn dot_spec(&self, rhs: &Self) -> Scalar {
        mul_add_spec(
            mul_add_spec(dot2_spec(self.0[0], rhs.0[0], self.0[1], rhs.0[1]), self.0[2], rhs.0[2]),
            self.0[3],
            rhs.0[3],
        )
    }

    #[inline]
    fn dot(&self, rhs: &Self) -> (r: Scalar) {
        let first = self.0[0] * rhs.0[0] + self.0[1] * rhs.0[1];
        let second = mul_add(first, self.0[2], rhs.0[2]);
        mul_add(second, self.0[3], rhs.0[3])
    }
}

impl<Scalar: Field> Vec3<Scalar> {
    /// The difference of the two vectors is defined.
    pub open spec fn difference_req(self, rhs: Self) -> bool {
        &&& self.0[0].sub_req(rhs.0[0])
        &&& self.0[1].sub_req(rhs.0[1])
        &&& self.0[2].sub_req(rhs.0[2])
    }

    /// The components of the difference of the two vectors.
    pub open spec fn difference_spec(self, rhs: Self) -> Seq<Scalar> {
        seq![
            self.0[0].sub_spec(rhs.0[0]),
            self.0[1].sub_spec(rhs.0[1]),
            self.0[2].sub_spec(rhs.0[2]),
        ]
    }

    /// The vector from `rhs` to `self`.
    pub fn difference(&self, rhs: &Self) -> (v: Self)
        requires
            Scalar::obeys_sub_spec(),
            self.difference_req(*rhs),
        ensures
            v.0@ == self.difference_spec(*rhs),
    {
        Vec3::new(self.0[0] - rhs.0[0], self.0[1] - rhs.0[1], self.0[2] - rhs.0[2])
    }
}

/// The components of the cross product of two vectors given by their
/// components.
pub open spec fn cross_of<S: Field>(a: Seq<S>, b: Seq<S>) -> Seq<S> {
    seq![
        det_spec(a[1], b[2], a[2], b[1]),
        det_spec(a[2], b[0], a[0], b[2]),
        det_spec(a[0], b[1], a[1], b[0]),
    ]
}

/// The cross product of two vectors given by their components is defined.
pub open spec fn cross_of_req<S: Field>(a: Seq<S>, b: Seq<S>) -> bool {
    &&& det_req(a[1], b[2], a[2], b[1])
    &&& det_req(a[2], b[0], a[0], b[2])
    &&& det_req(a[0], b[1], a[1], b[0])
}

} // verus!
