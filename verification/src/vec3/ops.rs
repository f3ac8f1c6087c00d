//! The arithmetic operators of vectors, on values and on references.

use super::Vec3;
use crate::fixed::Fixed;
use core::ops::Neg;
use vstd::prelude::*;

verus! {

impl core::ops::Add for Vec3 {
    type Output = Vec3;

    /// The componentwise sum.
    fn add(self, rhs: Vec3) -> (r: Vec3)
        ensures
            r == self.spec_add(rhs),
    {
        Vec3 { x: self.x + rhs.x, y: self.y + rhs.y, z: self.z + rhs.z }
    }
}

impl vstd::std_specs::ops::AddSpecImpl for Vec3 {
    open spec fn obeys_add_spec() -> bool {
        true
    }

    open spec fn add_req(self, rhs: Vec3) -> bool {
        true
    }

    open spec fn add_spec(self, rhs: Vec3) -> Vec3 {
        self.spec_add(rhs)
    }
}

impl<'b> core::ops::Add<&'b Vec3> for Vec3 {
    type Output = Vec3;

    /// The componentwise sum.
    fn add(self, rhs: &'b Vec3) -> (r: Vec3)
        ensures
            r == self.spec_add((*rhs)),
    {
        Vec3 { x: self.x + rhs.x, y: self.y + rhs.y, z: self.z + rhs.z }
    }
}

impl<'b> vstd::std_specs::ops::AddSpecImpl<&'b Vec3> for Vec3 {
    open spec fn obeys_add_spec() -> bool {
        true
    }

    open spec fn add_req(self, rhs: &'b Vec3) -> bool {
        true
    }

    open spec fn add_spec(self, rhs: &'b Vec3) -> Vec3 {
        self.spec_add((*rhs))
    }
}

impl<'a> core::ops::Add<Vec3> for &'a Vec3 {
    type Output = Vec3;

    /// The componentwise sum.
    fn add(self, rhs: Vec3) -> (r: Vec3)
        ensures
            r == (*self).spec_add(rhs),
    {
        Vec3 { x: self.x + rhs.x, y: self.y + rhs.y, z: self.z + rhs.z }
    }
}

impl<'a> vstd::std_specs::ops::AddSpecImpl<Vec3> for &'a Vec3 {
    open spec fn obeys_add_spec() -> bool {
        true
    }

    open spec fn add_req(self, rhs: Vec3) -> bool {
        true
    }

    open spec fn add_spec(self, rhs: Vec3) -> Vec3 {
        (*self).spec_add(rhs)
    }
}

impl<'a, 'b> core::ops::Add<&'b Vec3> for &'a Vec3 {
    type Output = Vec3;

    /// The componentwise sum.
    fn add(self, rhs: &'b Vec3) -> (r: Vec3)
        ensures
            r == (*self).spec_add((*rhs)),
    {
        Vec3 { x: self.x + rhs.x, y: self.y + rhs.y, z: self.z + rhs.z }
    }
}

impl<'a, 'b> vstd::std_specs::ops::AddSpecImpl<&'b Vec3> for &'a Vec3 {
    open spec fn obeys_add_spec() -> bool {
        true
    }

    open spec fn add_req(self, rhs: &'b Vec3) -> bool {
        true
    }

    open spec fn add_spec(self, rhs: &'b Vec3) -> Vec3 {
        (*self).spec_add((*rhs))
    }
}

impl core::ops::AddAssign for Vec3 {
    /// Replaces this vector by the componentwise sum.
    fn add_assign(&mut self, rhs: Vec3)
        ensures
            *final(self) == old(self).spec_add(rhs),
    {
        self.x = self.x + rhs.x;
        self.y = self.y + rhs.y;
        self.z = self.z + rhs.z;
    }
}

impl<'b> core::ops::AddAssign<&'b Vec3> for Vec3 {
    /// Replaces this vector by the componentwise sum.
    fn add_assign(&mut self, rhs: &'b Vec3)
        ensures
            *final(self) == old(self).spec_add((*rhs)),
    {
        self.x = self.x + rhs.x;
        self.y = self.y + rhs.y;
        self.z = self.z + rhs.z;
    }
}

impl core::ops::Sub for Vec3 {
    type Output = Vec3;

    /// The componentwise difference.
    fn sub(self, rhs: Vec3) -> (r: Vec3)
        ensures
            r == self.spec_sub(rhs),
    {
        Vec3 { x: self.x - rhs.x, y: self.y - rhs.y, z: self.z - rhs.z }
    }
}

impl vstd::std_specs::ops::SubSpecImpl for Vec3 {
    open spec fn obeys_sub_spec() -> bool {
        true
    }

    open spec fn sub_req(self, rhs: Vec3) -> bool {
        true
    }

    open spec fn sub_spec(self, rhs: Vec3) -> Vec3 {
        self.spec_sub(rhs)
    }
}

impl<'b> core::ops::Sub<&'b Vec3> for Vec3 {
    type Output = Vec3;

    /// The componentwise difference.
    fn sub(self, rhs: &'b Vec3) -> (r: Vec3)
        ensures
            r == self.spec_sub((*rhs)),
    {
        Vec3 { x: self.x - rhs.x, y: self.y - rhs.y, z: self.z - rhs.z }
    }
}

impl<'b> vstd::std_specs::ops::SubSpecImpl<&'b Vec3> for Vec3 {
    open spec fn obeys_sub_spec() -> bool {
        true
    }

    open spec fn sub_req(self, rhs: &'b Vec3) -> bool {
        true
    }

    open spec fn sub_spec(self, rhs: &'b Vec3) -> Vec3 {
        self.spec_sub((*rhs))
    }
}

impl<'a> core::ops::Sub<Vec3> for &'a Vec3 {
    type Output = Vec3;

    /// The componentwise difference.
    fn sub(self, rhs: Vec3) -> (r: Vec3)
        ensures
            r == (*self).spec_sub(rhs),
    {
        Vec3 { x: self.x - rhs.x, y: self.y - rhs.y, z: self.z - rhs.z }
    }
}

impl<'a> vstd::std_specs::ops::SubSpecImpl<Vec3> for &'a Vec3 {
    open spec fn obeys_sub_spec() -> bool {
        true
    }

    open spec fn sub_req(self, rhs: Vec3) -> bool {
        true
    }

    open spec fn sub_spec(self, rhs: Vec3) -> Vec3 {
        (*self).spec_sub(rhs)
    }
}

impl<'a, 'b> core::ops::Sub<&'b Vec3> for &'a Vec3 {
    type Output = Vec3;

    /// The componentwise difference.
    fn sub(self, rhs: &'b Vec3) -> (r: Vec3)
        ensures
            r == (*self).spec_sub((*rhs)),
    {
        Vec3 { x: self.x - rhs.x, y: self.y - rhs.y, z: self.z - rhs.z }
    }
}

impl<'a, 'b> vstd::std_specs::ops::SubSpecImpl<&'b Vec3> for &'a Vec3 {
    open spec fn obeys_sub_spec() -> bool {
        true
    }

    open spec fn sub_req(self, rhs: &'b Vec3) -> bool {
        true
    }

    open spec fn sub_spec(self, rhs: &'b Vec3) -> Vec3 {
        (*self).spec_sub((*rhs))
    }
}

impl core::ops::SubAssign for Vec3 {
    /// Replaces this vector by the componentwise difference.
    fn sub_assign(&mut self, rhs: Vec3)
        ensures
            *final(self) == old(self).spec_sub(rhs),
    {
        self.x = self.x - rhs.x;
        self.y = self.y - rhs.y;
        self.z = self.z - rhs.z;
    }
}

impl<'b> core::ops::SubAssign<&'b Vec3> for Vec3 {
    /// Replaces this vector by the componentwise difference.
    fn sub_assign(&mut self, rhs: &'b Vec3)
        ensures
            *final(self) == old(self).spec_sub((*rhs)),
    {
        self.x = self.x - rhs.x;
        self.y = self.y - rhs.y;
        self.z = self.z - rhs.z;
    }
}

impl core::ops::Mul for Vec3 {
    type Output = Vec3;

    /// The componentwise product.
    fn mul(self, rhs: Vec3) -> (r: Vec3)
        ensures
            r == self.spec_mul(rhs),
    {
        Vec3 { x: self.x * rhs.x, y: self.y * rhs.y, z: self.z * rhs.z }
    }
}

impl vstd::std_specs::ops::MulSpecImpl for Vec3 {
    open spec fn obeys_mul_spec() -> bool {
        true
    }

    open spec fn mul_req(self, rhs: Vec3) -> bool {
        true
    }

    open spec fn mul_spec(self, rhs: Vec3) -> Vec3 {
        self.spec_mul(rhs)
    }
}

impl<'b> core::ops::Mul<&'b Vec3> for Vec3 {
    type Output = Vec3;

    /// The componentwise product.
    fn mul(self, rhs: &'b Vec3) -> (r: Vec3)
        ensures
            r == self.spec_mul((*rhs)),
    {
        Vec3 { x: self.x * rhs.x, y: self.y * rhs.y, z: self.z * rhs.z }
    }
}

impl<'b> vstd::std_specs::ops::MulSpecImpl<&'b Vec3> for Vec3 {
    open spec fn obeys_mul_spec() -> bool {
        true
    }

    open spec fn mul_req(self, rhs: &'b Vec3) -> bool {
        true
    }

    open spec fn mul_spec(self, rhs: &'b Vec3) -> Vec3 {
        self.spec_mul((*rhs))
    }
}

impl<'a> core::ops::Mul<Vec3> for &'a Vec3 {
    type Output = Vec3;

    /// The componentwise product.
    fn mul(self, rhs: Vec3) -> (r: Vec3)
        ensures
            r == (*self).spec_mul(rhs),
    {
        Vec3 { x: self.x * rhs.x, y: self.y * rhs.y, z: self.z * rhs.z }
    }
}

impl<'a> vstd::std_specs::ops::MulSpecImpl<Vec3> for &'a Vec3 {
    open spec fn obeys_mul_spec() -> bool {
        true
    }

    open spec fn mul_req(self, rhs: Vec3) -> bool {
        true
    }

    open spec fn mul_spec(self, rhs: Vec3) -> Vec3 {
        (*self).spec_mul(rhs)
    }
}

impl<'a, 'b> core::ops::Mul<&'b Vec3> for &'a Vec3 {
    type Output = Vec3;

    /// The componentwise product.
    fn mul(self, rhs: &'b Vec3) -> (r: Vec3)
        ensures
            r == (*self).spec_mul((*rhs)),
    {
        Vec3 { x: self.x * rhs.x, y: self.y * rhs.y, z: self.z * rhs.z }
    }
}

impl<'a, 'b> vstd::std_specs::ops::MulSpecImpl<&'b Vec3> for &'a Vec3 {
    open spec fn obeys_mul_spec() -> bool {
        true
    }

    open spec fn mul_req(self, rhs: &'b Vec3) -> bool {
        true
    }

    open spec fn mul_spec(self, rhs: &'b Vec3) -> Vec3 {
        (*self).spec_mul((*rhs))
    }
}

impl core::ops::MulAssign for Vec3 {
    /// Replaces this vector by the componentwise product.
    fn mul_assign(&mut self, rhs: Vec3)
        ensures
            *final(self) == old(self).spec_mul(rhs),
    {
        self.x = self.x * rhs.x;
        self.y = self.y * rhs.y;
        self.z = self.z * rhs.z;
    }
}

impl<'b> core::ops::MulAssign<&'b Vec3> for Vec3 {
    /// Replaces this vector by the componentwise product.
    fn mul_assign(&mut self, rhs: &'b Vec3)
        ensures
            *final(self) == old(self).spec_mul((*rhs)),
    {
        self.x = self.x * rhs.x;
        self.y = self.y * rhs.y;
        self.z = self.z * rhs.z;
    }
}

impl core::ops::Div for Vec3 {
    type Output = Vec3;

    /// The componentwise quotient.
    fn div(self, rhs: Vec3) -> (r: Vec3)
        ensures
            r == self.spec_div(rhs),
    {
        Vec3 { x: self.x / rhs.x, y: self.y / rhs.y, z: self.z / rhs.z }
    }
}

impl vstd::std_specs::ops::DivSpecImpl for Vec3 {
    open spec fn obeys_div_spec() -> bool {
        true
    }

    open spec fn div_req(self, rhs: Vec3) -> bool {
        true
    }

    open spec fn div_spec(self, rhs: Vec3) -> Vec3 {
        self.spec_div(rhs)
    }
}

impl<'b> core::ops::Div<&'b Vec3> for Vec3 {
    type Output = Vec3;

    /// The componentwise quotient.
    fn div(self, rhs: &'b Vec3) -> (r: Vec3)
        ensures
            r == self.spec_div((*rhs)),
    {
        Vec3 { x: self.x / rhs.x, y: self.y / rhs.y, z: self.z / rhs.z }
    }
}

impl<'b> vstd::std_specs::ops::DivSpecImpl<&'b Vec3> for Vec3 {
    open spec fn obeys_div_spec() -> bool {
        true
    }

    open spec fn div_req(self, rhs: &'b Vec3) -> bool {
        true
    }

    open spec fn div_spec(self, rhs: &'b Vec3) -> Vec3 {
        self.spec_div((*rhs))
    }
}

impl<'a> core::ops::Div<Vec3> for &'a Vec3 {
    type Output = Vec3;

    /// The componentwise quotient.
    fn div(self, rhs: Vec3) -> (r: Vec3)
        ensures
            r == (*self).spec_div(rhs),
    {
        Vec3 { x: self.x / rhs.x, y: self.y / rhs.y, z: self.z / rhs.z }
    }
}

impl<'a> vstd::std_specs::ops::DivSpecImpl<Vec3> for &'a Vec3 {
    open spec fn obeys_div_spec() -> bool {
        true
    }

    open spec fn div_req(self, rhs: Vec3) -> bool {
        true
    }

    open spec fn div_spec(self, rhs: Vec3) -> Vec3 {
        (*self).spec_div(rhs)
    }
}

impl<'a, 'b> core::ops::Div<&'b Vec3> for &'a Vec3 {
    type Output = Vec3;

    /// The componentwise quotient.
    fn div(self, rhs: &'b Vec3) -> (r: Vec3)
        ensures
            r == (*self).spec_div((*rhs)),
    {
        Vec3 { x: self.x / rhs.x, y: self.y / rhs.y, z: self.z / rhs.z }
    }
}

impl<'a, 'b> vstd::std_specs::ops::DivSpecImpl<&'b Vec3> for &'a Vec3 {
    open spec fn obeys_div_spec() -> bool {
        true
    }

    open spec fn div_req(self, rhs: &'b Vec3) -> bool {
        true
    }

    open spec fn div_spec(self, rhs: &'b Vec3) -> Vec3 {
        (*self).spec_div((*rhs))
    }
}

impl core::ops::DivAssign for Vec3 {
    /// Replaces this vector by the componentwise quotient.
    fn div_assign(&mut self, rhs: Vec3)
        ensures
            *final(self) == old(self).spec_div(rhs),
    {
        self.x = self.x / rhs.x;
        self.y = self.y / rhs.y;
        self.z = self.z / rhs.z;
    }
}

impl<'b> core::ops::DivAssign<&'b Vec3> for Vec3 {
    /// Replaces this vector by the componentwise quotient.
    fn div_assign(&mut self, rhs: &'b Vec3)
        ensures
            *final(self) == old(self).spec_div((*rhs)),
    {
        self.x = self.x / rhs.x;
        self.y = self.y / rhs.y;
        self.z = self.z / rhs.z;
    }
}

impl core::ops::Neg for Vec3 {
    type Output = Vec3;

    /// The opposite vector.
    fn neg(self) -> (r: Vec3)
        ensures
            r == self.spec_neg(),
    {
        Vec3 { x: self.x.neg(), y: self.y.neg(), z: self.z.neg() }
    }
}

impl vstd::std_specs::ops::NegSpecImpl for Vec3 {
    open spec fn obeys_neg_spec() -> bool {
        true
    }

    open spec fn neg_req(self) -> bool {
        true
    }

    open spec fn neg_spec(self) -> Vec3 {
        self.spec_neg()
    }
}

impl<'a> core::ops::Neg for &'a Vec3 {
    type Output = Vec3;

    /// The opposite vector.
    fn neg(self) -> (r: Vec3)
        ensures
            r == (*self).spec_neg(),
    {
        Vec3 { x: self.x.neg(), y: self.y.neg(), z: self.z.neg() }
    }
}

impl<'a> vstd::std_specs::ops::NegSpecImpl for &'a Vec3 {
    open spec fn obeys_neg_spec() -> bool {
        true
    }

    open spec fn neg_req(self) -> bool {
        true
    }

    open spec fn neg_spec(self) -> Vec3 {
        (*self).spec_neg()
    }
}

impl core::ops::Mul<Fixed> for Vec3 {
    type Output = Vec3;

    /// Each component times the factor.
    fn mul(self, rhs: Fixed) -> (r: Vec3)
        ensures
            r == self.spec_scale(rhs),
    {
        Vec3 { x: self.x * rhs, y: self.y * rhs, z: self.z * rhs }
    }
}

impl vstd::std_specs::ops::MulSpecImpl<Fixed> for Vec3 {
    open spec fn obeys_mul_spec() -> bool {
        true
    }

    open spec fn mul_req(self, rhs: Fixed) -> bool {
        true
    }

    open spec fn mul_spec(self, rhs: Fixed) -> Vec3 {
        self.spec_scale(rhs)
    }
}

impl core::ops::Div<Fixed> for Vec3 {
    type Output = Vec3;

    /// Each component divided by the divisor.
    fn div(self, rhs: Fixed) -> (r: Vec3)
        ensures
            r == self.spec_div_by(rhs),
    {
        Vec3 { x: self.x / rhs, y: self.y / rhs, z: self.z / rhs }
    }
}

impl vstd::std_specs::ops::DivSpecImpl<Fixed> for Vec3 {
    open spec fn obeys_div_spec() -> bool {
        true
    }

    open spec fn div_req(self, rhs: Fixed) -> bool {
        true
    }

    open spec fn div_spec(self, rhs: Fixed) -> Vec3 {
        self.spec_div_by(rhs)
    }
}

impl core::ops::Mul<Vec3> for Fixed {
    type Output = Vec3;

    /// The factor times each component.
    fn mul(self, rhs: Vec3) -> (r: Vec3)
        ensures
            r == rhs.spec_scale(self),
    {
        Vec3 { x: self * rhs.x, y: self * rhs.y, z: self * rhs.z }
    }
}

impl vstd::std_specs::ops::MulSpecImpl<Vec3> for Fixed {
    open spec fn obeys_mul_spec() -> bool {
        true
    }

    open spec fn mul_req(self, rhs: Vec3) -> bool {
        true
    }

    open spec fn mul_spec(self, rhs: Vec3) -> Vec3 {
        rhs.spec_scale(self)
    }
}

impl<'a> core::ops::Mul<Fixed> for &'a Vec3 {
    type Output = Vec3;

    /// Each component times the factor.
    fn mul(self, rhs: Fixed) -> (r: Vec3)
        ensures
            r == (*self).spec_scale(rhs),
    {
        Vec3 { x: self.x * rhs, y: self.y * rhs, z: self.z * rhs }
    }
}

impl<'a> vstd::std_specs::ops::MulSpecImpl<Fixed> for &'a Vec3 {
    open spec fn obeys_mul_spec() -> bool {
        true
    }

    open spec fn mul_req(self, rhs: Fixed) -> bool {
        true
    }

    open spec fn mul_spec(self, rhs: Fixed) -> Vec3 {
        (*self).spec_scale(rhs)
    }
}

impl<'a> core::ops::Div<Fixed> for &'a Vec3 {
    type Output = Vec3;

    /// Each component divided by the divisor.
    fn div(self, rhs: Fixed) -> (r: Vec3)
        ensures
            r == (*self).spec_div_by(rhs),
    {
        Vec3 { x: self.x / rhs, y: self.y / rhs, z: self.z / rhs }
    }
}

impl<'a> vstd::std_specs::ops::DivSpecImpl<Fixed> for &'a Vec3 {
    open spec fn obeys_div_spec() -> bool {
        true
    }

    open spec fn div_req(self, rhs: Fixed) -> bool {
        true
    }

    open spec fn div_spec(self, rhs: Fixed) -> Vec3 {
        (*self).spec_div_by(rhs)
    }
}

impl<'a> core::ops::Mul<&'a Vec3> for Fixed {
    type Output = Vec3;

    /// The factor times each component.
    fn mul(self, rhs: &'a Vec3) -> (r: Vec3)
        ensures
            r == (*rhs).spec_scale(self),
    {
        Vec3 { x: self * rhs.x, y: self * rhs.y, z: self * rhs.z }
    }
}

impl<'a> vstd::std_specs::ops::MulSpecImpl<&'a Vec3> for Fixed {
    open spec fn obeys_mul_spec() -> bool {
        true
    }

    open spec fn mul_req(self, rhs: &'a Vec3) -> bool {
        true
    }

    open spec fn mul_spec(self, rhs: &'a Vec3) -> Vec3 {
        (*rhs).spec_scale(self)
    }
}

impl core::ops::MulAssign<Fixed> for Vec3 {
    /// Replaces this vector by itself scaled by the factor.
    fn mul_assign(&mut self, rhs: Fixed)
        ensures
            *final(self) == old(self).spec_scale(rhs),
    {
        self.x = self.x * rhs;
        self.y = self.y * rhs;
        self.z = self.z * rhs;
    }
}

impl core::ops::DivAssign<Fixed> for Vec3 {
    /// Replaces this vector by itself divided by the divisor.
    fn div_assign(&mut self, rhs: Fixed)
        ensures
            *final(self) == old(self).spec_div_by(rhs),
    {
        self.x = self.x / rhs;
        self.y = self.y / rhs;
        self.z = self.z / rhs;
    }
}

} // verus!
