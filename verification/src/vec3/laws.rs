//! Laws of vector arithmetic that the shading laws build on.

use super::{Color3, Vec3};
use crate::fixed::{Fixed, SCALE};
use vstd::prelude::*;

verus! {

impl Vec3 {
    /// Whether every component lies between minus one and one, bounds
    /// included.
    pub open spec fn within_unit_cube(self) -> bool {
        &&& -SCALE <= self.x@ <= SCALE
        &&& -SCALE <= self.y@ <= SCALE
        &&& -SCALE <= self.z@ <= SCALE
    }

    /// Whether every component lies between zero and one, bounds included:
    /// as a color, no darker than black and no brighter than white.
    pub open spec fn within_white(self) -> bool {
        self.x.is_fraction() && self.y.is_fraction() && self.z.is_fraction()
    }

    /// The unit vector along the y axis.
    pub open spec fn up() -> Vec3 {
        Vec3 { x: Fixed::zero(), y: Fixed::one(), z: Fixed::zero() }
    }

    /// The scalar product with the unit vector along the y axis is the y
    /// component.
    pub proof fn lemma_dot_with_up(self)
        requires
            self.y.in_range(),
        ensures
            Vec3::dot_spec(self, Vec3::up()) == self.y,
    {
        broadcast use {Fixed::lemma_of_view, Fixed::lemma_view_of};

        assert(self.x@ * 0 + self.y@ * SCALE + self.z@ * 0 == self.y@ * SCALE);
        Fixed::lemma_mul_one(self.y);
    }

    /// Whether some component has a magnitude of one half or more, as the
    /// largest component of every vector of length one has.
    pub open spec fn has_direction(self) -> bool {
        ||| crate::fixed::magnitude(self.x@) >= SCALE / 2
        ||| crate::fixed::magnitude(self.y@) >= SCALE / 2
        ||| crate::fixed::magnitude(self.z@) >= SCALE / 2
    }

    /// A vector with a length keeps a direction when it is normalized: its
    /// largest component comes out at one half or more.
    pub proof fn lemma_normalize_has_direction(self)
        requires
            0 < self.length_spec()@,
        ensures
            self.normalize_spec().has_direction(),
    {
        let len = self.length_spec();
        let (x, y, z) = (
            crate::fixed::magnitude(self.x@),
            crate::fixed::magnitude(self.y@),
            crate::fixed::magnitude(self.z@),
        );
        if x >= y && x >= z {
            Fixed::lemma_norm3_at_most_twice_largest(self.triple(), self.x);
            Fixed::lemma_div_by_at_most_twice(self.x, len);
        } else if y >= z {
            Fixed::lemma_norm3_at_most_twice_largest(self.triple(), self.y);
            Fixed::lemma_div_by_at_most_twice(self.y, len);
        } else {
            Fixed::lemma_norm3_at_most_twice_largest(self.triple(), self.z);
            Fixed::lemma_div_by_at_most_twice(self.z, len);
        }
    }

    /// The vector product stands at a right angle to both of its factors,
    /// up to rounding: its scalar product with either is at most the sum of
    /// the magnitudes of that factor's components, in steps of the numbers;
    /// for a factor within the unit cube that is three steps.
    pub proof fn lemma_cross_is_orthogonal(a: Vec3, b: Vec3)
        requires
            !Vec3::cross_spec(a, b).is_clamped_spec(),
        ensures
            crate::fixed::magnitude(Vec3::dot_spec(a, Vec3::cross_spec(a, b))@) * SCALE <= (
            crate::fixed::magnitude(a.x@) + crate::fixed::magnitude(a.y@) + crate::fixed::magnitude(
                a.z@,
            )),
            crate::fixed::magnitude(Vec3::dot_spec(b, Vec3::cross_spec(a, b))@) * SCALE <= (
            crate::fixed::magnitude(b.x@) + crate::fixed::magnitude(b.y@) + crate::fixed::magnitude(
                b.z@,
            )),
    {
        broadcast use Fixed::lemma_of_view;

        let scale = SCALE as int;
        let c = Vec3::cross_spec(a, b);
        let ex = a.y@ * b.z@ - a.z@ * b.y@;
        let ey = a.z@ * b.x@ - a.x@ * b.z@;
        let ez = a.x@ * b.y@ - a.y@ * b.x@;
        crate::fixed::laws::lemma_quot_remainder(ex, scale);
        crate::fixed::laws::lemma_quot_remainder(ey, scale);
        crate::fixed::laws::lemma_quot_remainder(ez, scale);
        assert(c.x@ == crate::fixed::quot(ex, scale));
        assert(c.y@ == crate::fixed::quot(ey, scale));
        assert(c.z@ == crate::fixed::quot(ez, scale));
        let rx = ex - c.x@ * scale;
        let ry = ey - c.y@ * scale;
        let rz = ez - c.z@ * scale;
        lemma_triple_product(a.x@, a.y@, a.z@, b.x@, b.y@, b.z@);
        lemma_dot_of_remainders(a.x@, a.y@, a.z@, c.x@, c.y@, c.z@, ex, ey, ez);
        lemma_dot_of_remainders(b.x@, b.y@, b.z@, c.x@, c.y@, c.z@, ex, ey, ez);
    }

    /// A normalized vector has length one, up to rounding. With `l` the raw
    /// length of the vector that was normalized, the length of the result
    /// is below `1 + 1 / l`, and it reaches one when each component is taken
    /// one raw unit further from zero.
    pub proof fn lemma_normalize_is_unit(self)
        requires
            self.in_range(),
            0 < self.length_spec()@ < crate::fixed::RAW_MAX,
        ensures
            ({
                let unit = self.normalize_spec();
                let len = self.length_spec()@;
                let (x, y, z) = (
                    crate::fixed::magnitude(unit.x@),
                    crate::fixed::magnitude(unit.y@),
                    crate::fixed::magnitude(unit.z@),
                );
                &&& (x * x + y * y + z * z) * (len * len) < (SCALE * SCALE) * ((len + 1) * (len
                    + 1))
                &&& (x + 1) * (x + 1) + (y + 1) * (y + 1) + (z + 1) * (z + 1) > SCALE * SCALE
            }),
    {
        broadcast use Fixed::lemma_of_view;

        let unit = self.normalize_spec();
        let len = self.length_spec()@;
        let scale = SCALE as int;
        Fixed::lemma_norm3_dominates(self.triple());
        let sum = self.x@ * self.x@ + self.y@ * self.y@ + self.z@ * self.z@;
        assert(sum >= 0) by (nonlinear_arith)
            requires
                sum == self.x@ * self.x@ + self.y@ * self.y@ + self.z@ * self.z@,
        ;
        crate::fixed::lemma_floor_sqrt_exists(sum);
        assert(len == crate::fixed::floor_sqrt(sum));
        assert(len * len <= sum < (len + 1) * (len + 1));
        let (a, b, c) = (
            crate::fixed::magnitude(self.x@),
            crate::fixed::magnitude(self.y@),
            crate::fixed::magnitude(self.z@),
        );
        assert(sum == a * a + b * b + c * c) by (nonlinear_arith)
            requires
                sum == self.x@ * self.x@ + self.y@ * self.y@ + self.z@ * self.z@,
                a == crate::fixed::magnitude(self.x@),
                b == crate::fixed::magnitude(self.y@),
                c == crate::fixed::magnitude(self.z@),
        ;
        let (x, y, z) = (
            crate::fixed::magnitude(unit.x@),
            crate::fixed::magnitude(unit.y@),
            crate::fixed::magnitude(unit.z@),
        );
        lemma_component_of_unit(self.x@, len, unit.x@);
        lemma_component_of_unit(self.y@, len, unit.y@);
        lemma_component_of_unit(self.z@, len, unit.z@);
        let ll = len * len;
        let ss = scale * scale;
        assert(ll > 0) by (nonlinear_arith)
            requires
                ll == len * len,
                len > 0,
        ;
        assert((x * x + y * y + z * z) * ll == x * x * ll + y * y * ll + z * z * ll)
            by (nonlinear_arith);
        assert(ss * sum == ss * (a * a) + ss * (b * b) + ss * (c * c)) by (nonlinear_arith)
            requires
                sum == a * a + b * b + c * c,
        ;
        assert(ss * sum < ss * ((len + 1) * (len + 1))) by (nonlinear_arith)
            requires
                sum < (len + 1) * (len + 1),
                ss == scale * scale,
                scale > 0,
        ;
        let up = (x + 1) * (x + 1) + (y + 1) * (y + 1) + (z + 1) * (z + 1);
        assert(up * ll == (x + 1) * (x + 1) * ll + (y + 1) * (y + 1) * ll + (z + 1) * (z + 1)
            * ll) by (nonlinear_arith)
            requires
                up == (x + 1) * (x + 1) + (y + 1) * (y + 1) + (z + 1) * (z + 1),
        ;
        assert(ss * sum >= ss * ll) by (nonlinear_arith)
            requires
                sum >= ll,
                ss == scale * scale,
        ;
        assert(up * ll > ss * ll);
        if up <= ss {
            assert(up * ll <= ss * ll) by (nonlinear_arith)
                requires
                    up <= ss,
                    ll > 0,
            ;
        }
    }

    /// No component of a normalized vector lies beyond one.
    pub proof fn lemma_normalize_bounded(self)
        requires
            self.in_range(),
        ensures
            self.normalize_spec().within_unit_cube(),
            self.normalize_spec().in_range(),
    {
        Fixed::lemma_norm3_dominates(self.triple());
        let len = self.length_spec();
        Fixed::lemma_div_by_larger(self.x, len);
        Fixed::lemma_div_by_larger(self.y, len);
        Fixed::lemma_div_by_larger(self.z, len);
    }

    /// The componentwise product of two colors that are no brighter than
    /// white is no brighter than either.
    pub proof fn lemma_mul_within_white(a: Color3, b: Color3)
        requires
            a.within_white(),
            b.within_white(),
        ensures
            a.spec_mul(b).within_white(),
            a.spec_mul(b).x@ <= a.x@ && a.spec_mul(b).x@ <= b.x@,
            a.spec_mul(b).y@ <= a.y@ && a.spec_mul(b).y@ <= b.y@,
            a.spec_mul(b).z@ <= a.z@ && a.spec_mul(b).z@ <= b.z@,
    {
        Fixed::lemma_mul_by_fraction(a.x, b.x);
        Fixed::lemma_mul_by_fraction(a.y, b.y);
        Fixed::lemma_mul_by_fraction(a.z, b.z);
        Fixed::lemma_mul_by_fraction(b.x, a.x);
        Fixed::lemma_mul_by_fraction(b.y, a.y);
        Fixed::lemma_mul_by_fraction(b.z, a.z);
    }
}

/// One component of a normalized vector, between the two multiples of the
/// length that its rounding leaves it.
proof fn lemma_component_of_unit(component: int, len: int, unit: int)
    requires
        0 < len,
        crate::fixed::magnitude(component) <= len,
        unit == crate::fixed::div_raw(component, len),
    ensures
        ({
            let k = crate::fixed::magnitude(unit);
            let m = crate::fixed::magnitude(component);
            &&& k * k * (len * len) <= (SCALE * SCALE) * (m * m)
            &&& (SCALE * SCALE) * (m * m) < (k + 1) * (k + 1) * (len * len)
        }),
{
    let scale = SCALE as int;
    let m = crate::fixed::magnitude(component);
    assert(crate::fixed::magnitude(component * scale) == m * scale) by (nonlinear_arith)
        requires
            m == crate::fixed::magnitude(component),
            scale > 0,
    ;
    assert(0 <= m * scale <= len * scale) by (nonlinear_arith)
        requires
            0 <= m <= len,
            scale > 0,
    ;
    let k = (m * scale) / len;
    vstd::arithmetic::div_mod::lemma_fundamental_div_mod(m * scale, len);
    vstd::arithmetic::div_mod::lemma_div_pos_is_pos(m * scale, len);
    vstd::arithmetic::div_mod::lemma_div_is_ordered(m * scale, len * scale, len);
    vstd::arithmetic::div_mod::lemma_div_multiples_vanish(scale, len);
    assert(len * scale == len * (SCALE as int));
    assert(crate::fixed::magnitude(unit) == k);
    let rest = (m * scale) % len;
    assert(0 <= k * len <= m * scale) by (nonlinear_arith)
        requires
            m * scale == len * k + rest,
            rest >= 0,
            k >= 0,
            len > 0,
    ;
    assert(m * scale < (k + 1) * len) by (nonlinear_arith)
        requires
            m * scale == len * k + rest,
            rest < len,
    ;
    assert((k * len) * (k * len) <= (m * scale) * (m * scale)) by (nonlinear_arith)
        requires
            0 <= k * len <= m * scale,
    ;
    assert((m * scale) * (m * scale) < ((k + 1) * len) * ((k + 1) * len)) by (nonlinear_arith)
        requires
            0 <= m * scale < (k + 1) * len,
    ;
    assert((k * len) * (k * len) == k * k * (len * len)) by (nonlinear_arith);
    assert(((k + 1) * len) * ((k + 1) * len) == (k + 1) * (k + 1) * (len * len))
        by (nonlinear_arith);
    assert((m * scale) * (m * scale) == (scale * scale) * (m * m)) by (nonlinear_arith);
}

/// The scalar product of a vector with the rounded quotients of a vector
/// that it stands at a right angle to.
proof fn lemma_dot_of_remainders(
    x: int,
    y: int,
    z: int,
    cx: int,
    cy: int,
    cz: int,
    ex: int,
    ey: int,
    ez: int,
)
    requires
        x * ex + y * ey + z * ez == 0,
        crate::fixed::magnitude(ex - cx * SCALE) < SCALE,
        crate::fixed::magnitude(ey - cy * SCALE) < SCALE,
        crate::fixed::magnitude(ez - cz * SCALE) < SCALE,
    ensures
        crate::fixed::magnitude(
            crate::fixed::sat(crate::fixed::quot(x * cx + y * cy + z * cz, SCALE as int)),
        ) * SCALE <= crate::fixed::magnitude(x) + crate::fixed::magnitude(y)
            + crate::fixed::magnitude(z),
{
    let scale = SCALE as int;
    let sum = x * cx + y * cy + z * cz;
    let (rx, ry, rz) = (ex - cx * scale, ey - cy * scale, ez - cz * scale);
    assert((x * cx) * scale == x * ex - x * rx) by (nonlinear_arith)
        requires
            rx == ex - cx * scale,
    ;
    assert((y * cy) * scale == y * ey - y * ry) by (nonlinear_arith)
        requires
            ry == ey - cy * scale,
    ;
    assert((z * cz) * scale == z * ez - z * rz) by (nonlinear_arith)
        requires
            rz == ez - cz * scale,
    ;
    assert(sum * scale == (x * cx) * scale + (y * cy) * scale + (z * cz) * scale)
        by (nonlinear_arith)
        requires
            sum == x * cx + y * cy + z * cz,
    ;
    assert(sum * scale == -(x * rx + y * ry + z * rz));
    let (mx, my, mz) = (
        crate::fixed::magnitude(x),
        crate::fixed::magnitude(y),
        crate::fixed::magnitude(z),
    );
    assert(crate::fixed::magnitude(x * rx) <= mx * scale) by (nonlinear_arith)
        requires
            mx == crate::fixed::magnitude(x),
            crate::fixed::magnitude(rx) < scale,
    ;
    assert(crate::fixed::magnitude(y * ry) <= my * scale) by (nonlinear_arith)
        requires
            my == crate::fixed::magnitude(y),
            crate::fixed::magnitude(ry) < scale,
    ;
    assert(crate::fixed::magnitude(z * rz) <= mz * scale) by (nonlinear_arith)
        requires
            mz == crate::fixed::magnitude(z),
            crate::fixed::magnitude(rz) < scale,
    ;
    let total = mx + my + mz;
    assert(crate::fixed::magnitude(sum * scale) <= total * scale) by (nonlinear_arith)
        requires
            sum * scale == -(x * rx + y * ry + z * rz),
            crate::fixed::magnitude(x * rx) <= mx * scale,
            crate::fixed::magnitude(y * ry) <= my * scale,
            crate::fixed::magnitude(z * rz) <= mz * scale,
            total == mx + my + mz,
    ;
    let m = crate::fixed::magnitude(sum);
    assert(crate::fixed::magnitude(sum * scale) == m * scale) by (nonlinear_arith)
        requires
            m == crate::fixed::magnitude(sum),
            scale > 0,
    ;
    assert(m <= total) by (nonlinear_arith)
        requires
            m * scale <= total * scale,
            scale > 0,
    ;
    let k = m / scale;
    vstd::arithmetic::div_mod::lemma_fundamental_div_mod(m, scale);
    vstd::arithmetic::div_mod::lemma_div_pos_is_pos(m, scale);
    assert(k * scale <= m) by (nonlinear_arith)
        requires
            m == scale * k + m % scale,
            m % scale >= 0,
    ;
    assert(crate::fixed::magnitude(crate::fixed::quot(sum, scale)) == k);
    assert(crate::fixed::magnitude(crate::fixed::sat(crate::fixed::quot(sum, scale))) <= k);
    let shown = crate::fixed::magnitude(crate::fixed::sat(crate::fixed::quot(sum, scale)));
    assert(shown * scale <= k * scale) by (nonlinear_arith)
        requires
            0 <= shown <= k,
            scale > 0,
    ;
}

/// The vector product of two vectors stands at a right angle to both, in
/// exact arithmetic.
proof fn lemma_triple_product(ax: int, ay: int, az: int, bx: int, by: int, bz: int)
    ensures
        ax * (ay * bz - az * by) + ay * (az * bx - ax * bz) + az * (ax * by - ay * bx) == 0,
        bx * (ay * bz - az * by) + by * (az * bx - ax * bz) + bz * (ax * by - ay * bx) == 0,
{
    assert(ax * (ay * bz - az * by) == ax * (ay * bz) - ax * (az * by)) by (nonlinear_arith);
    assert(ay * (az * bx - ax * bz) == ay * (az * bx) - ay * (ax * bz)) by (nonlinear_arith);
    assert(az * (ax * by - ay * bx) == az * (ax * by) - az * (ay * bx)) by (nonlinear_arith);
    assert(ax * (ay * bz) == ay * (ax * bz)) by (nonlinear_arith);
    assert(ax * (az * by) == az * (ax * by)) by (nonlinear_arith);
    assert(ay * (az * bx) == az * (ay * bx)) by (nonlinear_arith);
    assert(bx * (ay * bz - az * by) == bx * (ay * bz) - bx * (az * by)) by (nonlinear_arith);
    assert(by * (az * bx - ax * bz) == by * (az * bx) - by * (ax * bz)) by (nonlinear_arith);
    assert(bz * (ax * by - ay * bx) == bz * (ax * by) - bz * (ay * bx)) by (nonlinear_arith);
    assert(bx * (ay * bz) == bz * (ay * bx)) by (nonlinear_arith);
    assert(bx * (az * by) == by * (az * bx)) by (nonlinear_arith);
    assert(by * (ax * bz) == bz * (ax * by)) by (nonlinear_arith);
}

} // verus!
