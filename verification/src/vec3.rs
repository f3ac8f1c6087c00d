//! Three-component vectors, used as positions, directions and colors.

use crate::fixed::Fixed;
use crate::utils::helpers::random_fixed;
use core::ops::Index;
use vstd::prelude::*;

pub mod laws;
mod ops;

verus! {

broadcast use {Fixed::lemma_of_view, Fixed::lemma_view_of};

/// The raw magnitude below which a component counts as zero: a hundred
/// millionth.
pub const NEAR_ZERO_RAW: i128 = 184467440737;

/// One of the three coordinate axes.
#[derive(Debug, Copy, Clone)]
pub enum Axis {
    X,
    Y,
    Z,
}

/// A vector of three fixed-point components.
#[derive(Copy, Clone, Debug, PartialEq, Eq, PartialOrd, Structural)]
pub struct Vec3 {
    pub x: Fixed,
    pub y: Fixed,
    pub z: Fixed,
}

/// A linear-light color: red, green and blue in `x`, `y` and `z`.
pub type Color3 = Vec3;

/// A position in space.
pub type Pos3 = Vec3;

impl Vec3 {
    /// The components as a triple.
    pub open spec fn triple(self) -> (Fixed, Fixed, Fixed) {
        (self.x, self.y, self.z)
    }

    /// Whether every component lies in the representable range, as it does
    /// in every vector that executable code can hold.
    pub open spec fn in_range(self) -> bool {
        self.x.in_range() && self.y.in_range() && self.z.in_range()
    }

    /// Whether some component lies at an end of the range.
    pub open spec fn is_clamped_spec(self) -> bool {
        self.x.is_clamped_spec() || self.y.is_clamped_spec() || self.z.is_clamped_spec()
    }

    pub open spec fn spec_from_float(value: Fixed) -> Vec3 {
        Vec3 { x: value, y: value, z: value }
    }

    pub open spec fn spec_zero() -> Vec3 {
        Vec3::spec_from_float(Fixed::zero())
    }

    pub open spec fn spec_one() -> Vec3 {
        Vec3::spec_from_float(Fixed::one())
    }

    pub open spec fn component_spec(self, axis: Axis) -> Fixed {
        match axis {
            Axis::X => self.x,
            Axis::Y => self.y,
            Axis::Z => self.z,
        }
    }

    pub open spec fn with_component(self, axis: Axis, value: Fixed) -> Vec3 {
        match axis {
            Axis::X => Vec3 { x: value, ..self },
            Axis::Y => Vec3 { y: value, ..self },
            Axis::Z => Vec3 { z: value, ..self },
        }
    }

    /// The componentwise sum.
    pub open spec fn spec_add(self, rhs: Vec3) -> Vec3 {
        Vec3 { x: self.x.spec_add(rhs.x), y: self.y.spec_add(rhs.y), z: self.z.spec_add(rhs.z) }
    }

    /// The componentwise difference.
    pub open spec fn spec_sub(self, rhs: Vec3) -> Vec3 {
        Vec3 { x: self.x.spec_sub(rhs.x), y: self.y.spec_sub(rhs.y), z: self.z.spec_sub(rhs.z) }
    }

    /// The componentwise product.
    pub open spec fn spec_mul(self, rhs: Vec3) -> Vec3 {
        Vec3 { x: self.x.spec_mul(rhs.x), y: self.y.spec_mul(rhs.y), z: self.z.spec_mul(rhs.z) }
    }

    /// The componentwise quotient.
    pub open spec fn spec_div(self, rhs: Vec3) -> Vec3 {
        Vec3 { x: self.x.spec_div(rhs.x), y: self.y.spec_div(rhs.y), z: self.z.spec_div(rhs.z) }
    }

    /// The opposite vector.
    pub open spec fn spec_neg(self) -> Vec3 {
        Vec3 { x: self.x.spec_neg(), y: self.y.spec_neg(), z: self.z.spec_neg() }
    }

    /// Each component times `k`.
    pub open spec fn spec_scale(self, k: Fixed) -> Vec3 {
        Vec3 { x: self.x.spec_mul(k), y: self.y.spec_mul(k), z: self.z.spec_mul(k) }
    }

    /// Each component divided by `k`.
    pub open spec fn spec_div_by(self, k: Fixed) -> Vec3 {
        Vec3 { x: self.x.spec_div(k), y: self.y.spec_div(k), z: self.z.spec_div(k) }
    }

    /// The scalar product, rounded once.
    pub open spec fn dot_spec(a: Vec3, b: Vec3) -> Fixed {
        Fixed::dot3_spec(a.triple(), b.triple())
    }

    /// The vector product, each component rounded once.
    pub open spec fn cross_spec(a: Vec3, b: Vec3) -> Vec3 {
        Vec3 {
            x: Fixed::cross_term_spec(a.y, b.z, a.z, b.y),
            y: Fixed::cross_term_spec(a.z, b.x, a.x, b.z),
            z: Fixed::cross_term_spec(a.x, b.y, a.y, b.x),
        }
    }

    pub open spec fn length_squared_spec(self) -> Fixed {
        Vec3::dot_spec(self, self)
    }

    /// The Euclidean length, rounded down.
    pub open spec fn length_spec(self) -> Fixed {
        Fixed::norm3_spec(self.triple())
    }

    /// Each component divided by the length.
    pub open spec fn normalize_spec(self) -> Vec3 {
        self.spec_div_by(self.length_spec())
    }

    pub open spec fn min_spec(self, other: Vec3) -> Vec3 {
        Vec3 {
            x: self.x.min_spec(other.x),
            y: self.y.min_spec(other.y),
            z: self.z.min_spec(other.z),
        }
    }

    pub open spec fn max_spec(self, other: Vec3) -> Vec3 {
        Vec3 {
            x: self.x.max_spec(other.x),
            y: self.y.max_spec(other.y),
            z: self.z.max_spec(other.z),
        }
    }

    /// Whether every component is closer to zero than `NEAR_ZERO_RAW` raw
    /// units.
    pub open spec fn near_zero_spec(self) -> bool {
        &&& -NEAR_ZERO_RAW < self.x@ < NEAR_ZERO_RAW
        &&& -NEAR_ZERO_RAW < self.y@ < NEAR_ZERO_RAW
        &&& -NEAR_ZERO_RAW < self.z@ < NEAR_ZERO_RAW
    }

    /// Whether some component lies at an end of the range, where a result
    /// that left the range was clamped to.
    pub fn is_clamped(&self) -> (r: bool)
        ensures
            r == self.is_clamped_spec(),
    {
        self.x.is_clamped() || self.y.is_clamped() || self.z.is_clamped()
    }

    /// The vector with all three components equal to `value`.
    #[verifier::when_used_as_spec(spec_from_float)]
    pub fn from_float(value: Fixed) -> (r: Vec3)
        ensures
            r == Vec3::spec_from_float(value),
    {
        Vec3 { x: value, y: value, z: value }
    }

    /// The vector with the given components.
    pub fn new(x: Fixed, y: Fixed, z: Fixed) -> (r: Vec3)
        ensures
            r == (Vec3 { x, y, z }),
    {
        Vec3 { x, y, z }
    }

    /// The zero vector.
    #[verifier::when_used_as_spec(spec_zero)]
    pub fn zero() -> (r: Vec3)
        ensures
            r == Vec3::spec_zero(),
    {
        Vec3::from_float(Fixed::zero())
    }

    /// The vector of ones.
    #[verifier::when_used_as_spec(spec_one)]
    pub fn one() -> (r: Vec3)
        ensures
            r == Vec3::spec_one(),
    {
        Vec3::from_float(Fixed::one())
    }

    /// The component of this vector along `axis`.
    pub fn component(&self, axis: Axis) -> (r: Fixed)
        ensures
            r == self.component_spec(axis),
    {
        match axis {
            Axis::X => self.x,
            Axis::Y => self.y,
            Axis::Z => self.z,
        }
    }

    /// Sets the component of this vector along `axis` and leaves the other
    /// two as they were.
    pub fn set_component(&mut self, axis: Axis, value: Fixed)
        ensures
            *final(self) == old(self).with_component(axis, value),
    {
        match axis {
            Axis::X => {
                self.x = value;
            },
            Axis::Y => {
                self.y = value;
            },
            Axis::Z => {
                self.z = value;
            },
        }
    }

    /// The vector divided by its length. The zero vector stays as it is. No
    /// component of the result lies beyond one, and the largest is one half
    /// or more where the vector has a length.
    pub fn normalize(&self) -> (r: Vec3)
        ensures
            r == self.normalize_spec(),
            r.within_unit_cube(),
            0 < self.length_spec()@ ==> r.has_direction(),
    {
        proof {
            use_type_invariant(&self.x);
            use_type_invariant(&self.y);
            use_type_invariant(&self.z);
            self.lemma_normalize_bounded();
            if 0 < self.length_spec()@ {
                self.lemma_normalize_has_direction();
            }
        }
        *self / self.length()
    }

    /// The Euclidean length, rounded down.
    pub fn length(&self) -> (r: Fixed)
        ensures
            r == self.length_spec(),
    {
        Fixed::norm3((self.x, self.y, self.z))
    }

    /// The componentwise minimum.
    pub fn min(&self, other: &Vec3) -> (r: Vec3)
        ensures
            r == self.min_spec(*other),
    {
        Vec3 { x: self.x.min(other.x), y: self.y.min(other.y), z: self.z.min(other.z) }
    }

    /// The componentwise maximum.
    pub fn max(&self, other: &Vec3) -> (r: Vec3)
        ensures
            r == self.max_spec(*other),
    {
        Vec3 { x: self.x.max(other.x), y: self.y.max(other.y), z: self.z.max(other.z) }
    }

    /// The scalar product of the vector with itself.
    pub fn length_squared(&self) -> (r: Fixed)
        ensures
            r == self.length_squared_spec(),
    {
        Vec3::dot(self, self)
    }

    /// The scalar product, rounded once.
    pub fn dot(a: &Vec3, b: &Vec3) -> (r: Fixed)
        ensures
            r == Vec3::dot_spec(*a, *b),
    {
        Fixed::dot3((a.x, a.y, a.z), (b.x, b.y, b.z))
    }

    /// The vector product, each component rounded once.
    pub fn cross(a: &Vec3, b: &Vec3) -> (r: Vec3)
        ensures
            r == Vec3::cross_spec(*a, *b),
    {
        Vec3 {
            x: Fixed::cross_term(a.y, b.z, a.z, b.y),
            y: Fixed::cross_term(a.z, b.x, a.x, b.z),
            z: Fixed::cross_term(a.x, b.y, a.y, b.x),
        }
    }

    /// A vector whose components are drawn independently and uniformly from
    /// `[lo, hi)`.
    pub fn random(lo: Fixed, hi: Fixed) -> (r: Vec3)
        requires
            lo@ < hi@,
        ensures
            lo@ <= r.x@ < hi@,
            lo@ <= r.y@ < hi@,
            lo@ <= r.z@ < hi@,
    {
        Vec3 { x: random_fixed(lo, hi), y: random_fixed(lo, hi), z: random_fixed(lo, hi) }
    }

    /// Whether every component is closer to zero than `NEAR_ZERO_RAW` raw
    /// units.
    pub fn near_zero(&self) -> (r: bool)
        ensures
            r == self.near_zero_spec(),
    {
        let bound: Fixed = Fixed::from_raw(NEAR_ZERO_RAW);
        self.x.abs() < bound && self.y.abs() < bound && self.z.abs() < bound
    }
}

impl Default for Vec3 {
    fn default() -> (r: Vec3)
        ensures
            r == Vec3::spec_zero(),
    {
        Vec3::zero()
    }
}

impl Vec3 {
    /// The component at `index`: `x`, `y` and `z` at 0, 1 and 2.
    pub open spec fn at(self, index: int) -> Fixed {
        if index == 0 {
            self.x
        } else if index == 1 {
            self.y
        } else {
            self.z
        }
    }

    /// The vector with `value` in place of the component at `index`.
    pub open spec fn with_at(self, index: int, value: Fixed) -> Vec3 {
        if index == 0 {
            Vec3 { x: value, ..self }
        } else if index == 1 {
            Vec3 { y: value, ..self }
        } else {
            Vec3 { z: value, ..self }
        }
    }
}

impl core::ops::Index<usize> for Vec3 {
    type Output = Fixed;

    /// The component at `index`, which must be 0, 1 or 2.
    fn index(&self, index: usize) -> (r: &Fixed)
        ensures
            *r == self.at(index as int),
    {
        if index == 0 {
            &self.x
        } else if index == 1 {
            &self.y
        } else {
            &self.z
        }
    }
}

impl vstd::std_specs::core::IndexSpecImpl<usize> for Vec3 {
    open spec fn index_req(&self, index: &usize) -> bool {
        *index < 3
    }
}

impl core::ops::IndexMut<usize> for Vec3 {
    /// The component at `index` for writing; an index above 2 stands for
    /// `z`, as 2 does.
    fn index_mut(&mut self, index: usize) -> (r: &mut Fixed)
        ensures
            *r == old(self).at(index as int),
            *final(self) == old(self).with_at(index as int, *final(r)),
    {
        if index == 0 {
            &mut self.x
        } else if index == 1 {
            &mut self.y
        } else {
            &mut self.z
        }
    }
}

impl Color3 {
    pub open spec fn spec_white() -> Color3 {
        Vec3::spec_one()
    }

    pub open spec fn spec_black() -> Color3 {
        Vec3::spec_zero()
    }

    /// The color with each channel 255 times the given one.
    pub open spec fn spec_from_f32(r: Fixed, g: Fixed, b: Fixed) -> Color3 {
        Vec3 { x: r, y: g, z: b }.spec_scale(Fixed::spec_from_int(255))
    }

    /// White: one in every channel.
    #[verifier::when_used_as_spec(spec_white)]
    pub fn white() -> (r: Color3)
        ensures
            r == Color3::spec_white(),
    {
        Vec3::one()
    }

    /// Black: zero in every channel.
    #[verifier::when_used_as_spec(spec_black)]
    pub fn black() -> (r: Color3)
        ensures
            r == Color3::spec_black(),
    {
        Vec3::zero()
    }

    /// The red channel.
    pub fn red(&self) -> (r: Fixed)
        ensures
            r == self.x,
    {
        self.x
    }

    /// The green channel.
    pub fn green(&self) -> (r: Fixed)
        ensures
            r == self.y,
    {
        self.y
    }

    /// The blue channel.
    pub fn blue(&self) -> (r: Fixed)
        ensures
            r == self.z,
    {
        self.z
    }

    /// A color on the scale of 0 to 255 from channels on the scale of 0 to
    /// 1.
    #[verifier::when_used_as_spec(spec_from_f32)]
    pub fn from_f32(r: Fixed, g: Fixed, b: Fixed) -> (c: Color3)
        ensures
            c == Color3::spec_from_f32(r, g, b),
    {
        let full = Fixed::from_int(255);
        Color3 { x: full * r, y: full * g, z: full * b }
    }
}

} // verus!
