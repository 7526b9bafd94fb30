//! Scalar fields: functions of three coordinates whose level sets are the
//! surfaces to mesh.
use vstd::prelude::*;
use vstd::std_specs::ops::{AddSpec, DivSpec, SubSpec};
use crate::math::vector::{
    dot2_req, dot2_spec, mul_add, mul_add_req, mul_add_spec, obeys_arithmetic, Field,
};

verus! {

/// A function from three coordinates to a scalar. The same point always has
/// the same value.
pub trait ScalarField<Scalar: Field> {
    /// Whether the field can be evaluated at a point.
    spec fn defined_at(&self, x: Scalar, y: Scalar, z: Scalar) -> bool;

    /// The value of the field at a point.
    spec fn value_spec(&self, x: Scalar, y: Scalar, z: Scalar) -> Scalar;

    fn value_at(&self, x: Scalar, y: Scalar, z: Scalar) -> (value: Scalar)
        requires
            obeys_arithmetic::<Scalar>(),
            self.defined_at(x, y, z),
        ensures
            value == self.value_spec(x, y, z),
    ;

    /// The gradient of the field at a point by central differences with
    /// step `eps`: along each axis the value one step ahead minus the value
    /// one step back, divided by the distance of the two points, which is
    /// `eps + eps`.
    #[inline]
    fn gradient_at(&self, x: Scalar, y: Scalar, z: Scalar, eps: Scalar) -> (gradient: [Scalar; 3])
        requires
            obeys_arithmetic::<Scalar>(),
            Scalar::obeys_div_spec(),
            eps.add_req(eps),
            x.add_req(eps) && x.sub_req(eps),
            y.add_req(eps) && y.sub_req(eps),
            z.add_req(eps) && z.sub_req(eps),
            self.defined_at(x.add_spec(eps), y, z) && self.defined_at(x.sub_spec(eps), y, z),
            self.defined_at(x, y.add_spec(eps), z) && self.defined_at(x, y.sub_spec(eps), z),
            self.defined_at(x, y, z.add_spec(eps)) && self.defined_at(x, y, z.sub_spec(eps)),
            self.value_spec(x.add_spec(eps), y, z).sub_req(self.value_spec(x.sub_spec(eps), y, z)),
            self.value_spec(x, y.add_spec(eps), z).sub_req(self.value_spec(x, y.sub_spec(eps), z)),
            self.value_spec(x, y, z.add_spec(eps)).sub_req(self.value_spec(x, y, z.sub_spec(eps))),
            self.value_spec(x.add_spec(eps), y, z).sub_spec(
                self.value_spec(x.sub_spec(eps), y, z),
            ).div_req(eps.add_spec(eps)),
            self.value_spec(x, y.add_spec(eps), z).sub_spec(
                self.value_spec(x, y.sub_spec(eps), z),
            ).div_req(eps.add_spec(eps)),
            self.value_spec(x, y, z.add_spec(eps)).sub_spec(
                self.value_spec(x, y, z.sub_spec(eps)),
            ).div_req(eps.add_spec(eps)),
        ensures
            gradient@ == seq![
                self.value_spec(x.add_spec(eps), y, z).sub_spec(
                    self.value_spec(x.sub_spec(eps), y, z),
                ).div_spec(eps.add_spec(eps)),
                self.value_spec(x, y.add_spec(eps), z).sub_spec(
                    self.value_spec(x, y.sub_spec(eps), z),
                ).div_spec(eps.add_spec(eps)),
                self.value_spec(x, y, z.add_spec(eps)).sub_spec(
                    self.value_spec(x, y, z.sub_spec(eps)),
                ).div_spec(eps.add_spec(eps)),
            ],
    {
        let distance = eps + eps;
        let dx = (self.value_at(x + eps, y, z) - self.value_at(x - eps, y, z)) / distance;
        let dy = (self.value_at(x, y + eps, z) - self.value_at(x, y - eps, z)) / distance;
        let dz = (self.value_at(x, y, z + eps) - self.value_at(x, y, z - eps)) / distance;
        [dx, dy, dz]
    }
}

/// The field whose value is the square of the distance from the origin.
#[derive(Clone, Copy, Debug)]
pub struct SquareField;

impl<Scalar: Field> ScalarField<Scalar> for SquareField {
    open spec fn defined_at(&self, x: Scalar, y: Scalar, z: Scalar) -> bool {
        dot2_req(x, x, y, y) && mul_add_req(dot2_spec(x, x, y, y), z, z)
    }

    open spec fn value_spec(&self, x: Scalar, y: Scalar, z: Scalar) -> Scalar {
        mul_add_spec(dot2_spec(x, x, y, y), z, z)
    }

    #[inline]
    fn value_at(&self, x: Scalar, y: Scalar, z: Scalar) -> (value: Scalar) {
        mul_add(x * x + y * y, z, z)
    }
}

} // verus!
