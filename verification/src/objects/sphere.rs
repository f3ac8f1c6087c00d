//! Spheres.

use super::object::{below, HitRecord, Object};
use crate::fixed::{Fixed, SCALE};
use crate::material::MaterialKind;
use crate::ray::Ray;
use crate::utils::interval::Interval;
use crate::vec3::{Pos3, Vec3};
use vstd::prelude::*;

verus! {

/// A sphere with a material.
#[derive(Copy, Clone, Debug, PartialEq, Eq, Structural)]
pub struct Sphere {
    pub center: Pos3,
    pub radius: Fixed,
    pub material: MaterialKind,
}

impl Sphere {
    /// A quarter of the discriminant of `|O + t D - C|^2 = r^2` as a
    /// quadratic in `t`: `h^2 - a c` with `a = |D|^2`, `h = D . (C - O)` and
    /// `c = |C - O|^2 - r^2`.
    pub open spec fn discriminant(self, ray: Ray) -> Fixed {
        let to_center = self.center.spec_sub(ray.pos);
        let a = ray.dir.length_squared_spec();
        let h = Vec3::dot_spec(ray.dir, to_center);
        let c = to_center.length_squared_spec().spec_sub(self.radius.spec_mul(self.radius));
        Fixed::cross_term_spec(h, h, a, c)
    }

    /// Whether the sphere lies within the ray's reach: the way to the
    /// center, the squared lengths and the products that the intersection
    /// takes all lie inside the range of the numbers. Beyond `2^30` or so a
    /// squared distance leaves it.
    pub open spec fn within_reach(self, ray: Ray) -> bool {
        let to_center = self.center.spec_sub(ray.pos);
        let a = ray.dir.length_squared_spec();
        let h = Vec3::dot_spec(ray.dir, to_center);
        let squared_radius = self.radius.spec_mul(self.radius);
        &&& !to_center.is_clamped_spec()
        &&& !a.is_clamped_spec()
        &&& !h.is_clamped_spec()
        &&& !to_center.length_squared_spec().is_clamped_spec()
        &&& !squared_radius.is_clamped_spec()
        &&& !to_center.length_squared_spec().spec_sub(squared_radius).is_clamped_spec()
        &&& !self.discriminant(ray).is_clamped_spec()
    }

    /// The two ray parameters at which the ray's line meets the sphere, the
    /// smaller one first: `(h - sqrt(d)) / a` and `(h + sqrt(d)) / a`. There
    /// are none where the discriminant is negative, the direction has no
    /// length, or the sphere lies beyond the ray's reach.
    pub open spec fn roots(self, ray: Ray) -> Option<(Fixed, Fixed)> {
        let a = ray.dir.length_squared_spec();
        let h = Vec3::dot_spec(ray.dir, self.center.spec_sub(ray.pos));
        let d = self.discriminant(ray);
        if !self.within_reach(ray) || a@ <= 0 || d@ < 0 {
            None
        } else {
            let s = d.sqrt_spec();
            Some((h.spec_sub(s).spec_div(a), h.spec_add(s).spec_div(a)))
        }
    }

    /// The parameter of the hit: the smaller root if the interval surrounds
    /// it, else the larger root if the interval surrounds that one.
    pub open spec fn hit_scalar(self, ray: Ray, t_interval: Interval) -> Option<Fixed> {
        match self.roots(ray) {
            None => None,
            Some((near, far)) => {
                if t_interval.surrounds_spec(near) {
                    Some(near)
                } else if t_interval.surrounds_spec(far) {
                    Some(far)
                } else {
                    None
                }
            },
        }
    }

    /// The outward normal at a point of the surface: `(point - center) /
    /// radius`.
    pub open spec fn outward_normal(self, point: Pos3) -> Vec3 {
        point.spec_sub(self.center).spec_div_by(self.radius)
    }

    /// The record of the ray meeting the sphere at parameter `t`.
    pub open spec fn record_at(self, ray: Ray, t: Fixed) -> HitRecord {
        let point = ray.cast_spec(t);
        HitRecord::facing(ray, point, self.outward_normal(point), t, self.material)
    }

    /// A ray aimed at the center of a sphere meets it. Where the direction is
    /// `center - origin` and has a length, the ray's line crosses the sphere
    /// twice, before and after the center, which lies at parameter one. The
    /// first crossing is not behind an origin that is not inside the sphere.
    /// So every search interval that begins before the center and ends
    /// beyond the second crossing finds a hit.
    pub proof fn lemma_aimed_at_center(self, ray: Ray, t_interval: Interval)
        requires
            ray.dir == self.center.spec_sub(ray.pos),
            0 < ray.dir.length_squared_spec()@,
            self.within_reach(ray),
        ensures
            match self.roots(ray) {
                Some((near, far)) => {
                    &&& near@ <= SCALE <= far@
                    &&& self.radius.spec_mul(self.radius)@ <= ray.dir.length_squared_spec()@
                        ==> 0 <= near@
                    &&& t_interval.min@ < SCALE && far@ < t_interval.max@ ==> self.hit_scalar(
                        ray,
                        t_interval,
                    ) is Some
                },
                None => false,
            },
    {
        broadcast use Fixed::lemma_of_view;

        let a = ray.dir.length_squared_spec();
        let h = Vec3::dot_spec(ray.dir, self.center.spec_sub(ray.pos));
        assert(h == a);
        let squared_radius = self.radius.spec_mul(self.radius);
        let c = a.spec_sub(squared_radius);
        Fixed::lemma_square_nonnegative(self.radius);
        Fixed::lemma_cross_term_nonnegative(a, c);
        let d = self.discriminant(ray);
        assert(d == Fixed::cross_term_spec(a, a, a, c));
        let s = d.sqrt_spec();
        Fixed::lemma_sqrt_nonnegative(d);
        Fixed::lemma_div_self(a);
        Fixed::lemma_div_monotone(h.spec_sub(s), a, a);
        Fixed::lemma_div_monotone(a, h.spec_add(s), a);
        if squared_radius@ <= a@ {
            Fixed::lemma_cross_term_at_most_square(a, c);
            Fixed::lemma_sqrt_at_most(d, a);
            Fixed::lemma_div_nonnegative(h.spec_sub(s), a);
        }
    }

    /// Whether the parameter `t` solves the sphere's equation for the ray, up
    /// to rounding. With `a`, `h`, `c` and `s` the raw values of the squared
    /// length of the direction, of `D . (C - O)`, of `|C - O|^2 - r^2` and of
    /// the root of the discriminant, `a t^2 - 2 h t + c`, times `a` and in raw
    /// units of the fourth order, lies above `-(S^2 (2 s + 1) + 2 s S a +
    /// S^3)` and is at most `2 s S a + a^2 + S^3`. In numbers: the equation
    /// is off by no more than `(2 s / a + 2 s + 1 / a + 1) / 2^64`, and a bit.
    pub open spec fn solves(self, ray: Ray, t: Fixed) -> bool {
        let scale = SCALE as int;
        let to_center = self.center.spec_sub(ray.pos);
        let a = ray.dir.length_squared_spec()@;
        let h = Vec3::dot_spec(ray.dir, to_center)@;
        let c = to_center.length_squared_spec().spec_sub(self.radius.spec_mul(self.radius))@;
        let s = self.discriminant(ray).sqrt_spec()@;
        let value = a * (a * t@ * t@ - 2 * h * t@ * scale + c * (scale * scale));
        &&& -(scale * scale * (2 * s + 1) + 2 * s * scale * a + scale * scale * scale) < value
        &&& value <= 2 * s * scale * a + a * a + scale * scale * scale
    }

    /// Whether neither `h - s` nor `h + s`, which the two crossings are
    /// formed from, left the range.
    pub open spec fn sums_in_range(self, ray: Ray) -> bool {
        let h = Vec3::dot_spec(ray.dir, self.center.spec_sub(ray.pos));
        let s = self.discriminant(ray).sqrt_spec();
        !h.spec_sub(s).is_clamped_spec() && !h.spec_add(s).is_clamped_spec()
    }

    /// Both crossings solve the sphere's equation up to rounding, for every
    /// ray, where no step of the way to them was clamped.
    pub proof fn lemma_roots_solve(self, ray: Ray)
        ensures
            match self.roots(ray) {
                Some((near, far)) => {
                    let h = Vec3::dot_spec(ray.dir, self.center.spec_sub(ray.pos));
                    let s = self.discriminant(ray).sqrt_spec();
                    &&& !h.spec_sub(s).is_clamped_spec() && !near.is_clamped_spec()
                        ==> self.solves(ray, near)
                    &&& !h.spec_add(s).is_clamped_spec() && !far.is_clamped_spec() ==> self.solves(
                        ray,
                        far,
                    )
                },
                None => true,
            },
    {
        broadcast use Fixed::lemma_of_view;

        if self.roots(ray) is Some {
            let scale = SCALE as int;
            let to_center = self.center.spec_sub(ray.pos);
            let a = ray.dir.length_squared_spec();
            let h = Vec3::dot_spec(ray.dir, to_center);
            let c = to_center.length_squared_spec().spec_sub(self.radius.spec_mul(self.radius));
            let d = self.discriminant(ray);
            let s = d.sqrt_spec();
            let (near, far) = self.roots(ray)->Some_0;
            Fixed::lemma_sqrt_nonnegative(d);
            assert(d@ == crate::fixed::quot(h@ * h@ - a@ * c@, scale));
            assert(d@ * scale >= 0) by (nonlinear_arith)
                requires
                    d@ >= 0,
                    scale > 0,
            ;
            crate::fixed::lemma_floor_sqrt_exists(d@ * scale);
            let root = crate::fixed::floor_sqrt(d@ * scale);
            assert(d@ * scale <= 0x1000_0000_0000_0000_0000_0000_0000_0000 * scale)
                by (nonlinear_arith)
                requires
                    d@ <= 0x1000_0000_0000_0000_0000_0000_0000_0000,
                    scale > 0,
            ;
            if root > 0x4000_0000_0000_0000_0000_0000 {
                assert(root * root > 0x4000_0000_0000_0000_0000_0000int
                    * 0x4000_0000_0000_0000_0000_0000) by (nonlinear_arith)
                    requires
                        root > 0x4000_0000_0000_0000_0000_0000,
                ;
                assert(0x4000_0000_0000_0000_0000_0000int * 0x4000_0000_0000_0000_0000_0000
                    == 0x1000_0000_0000_0000_0000_0000_0000_0000int * 0x1_0000_0000_0000_0000);
            }
            assert(s@ == root);
            if !h.spec_sub(s).is_clamped_spec() && !near.is_clamped_spec() {
                assert(near@ == crate::fixed::quot((h@ + (-s@)) * scale, a@));
                crate::fixed::laws::lemma_rounded_root_solves(
                    a@,
                    h@,
                    c@,
                    d@,
                    s@,
                    -s@,
                    near@,
                );
            }
            if !h.spec_add(s).is_clamped_spec() && !far.is_clamped_spec() {
                assert(far@ == crate::fixed::quot((h@ + s@) * scale, a@));
                crate::fixed::laws::lemma_rounded_root_solves(a@, h@, c@, d@, s@, s@, far@);
            }
        }
    }

    /// How far the first crossing of a ray aimed at the center is from the
    /// sphere. With the direction `center - origin` of squared length `q`
    /// (exactly, in raw units squared), and the first crossing at parameter
    /// `t`, the crossing lies `1 - t` of the way from the center, so that
    /// `(1 - t)^2 q` is the square of the radius `r`. With `w`, `a`, `s` and
    /// `r` the raw values of `1 - t`, of the rounded squared length, of the
    /// root of the discriminant and of the radius, and `S = 2^64`:
    ///
    /// `-S^3 (a + S + 2 s + 1) < a (w^2 q - r^2 S^2) < r^2 S^2 + (a + 1) (2 s S^2 + a S)`.
    ///
    /// Read in numbers, with `a` and `s` as the values they stand for:
    /// `(1 - t)^2 |center - origin|^2 - r^2` lies above
    /// `-(1 + (1 + 2 s) / a) / 2^64` and below about `(r^2 / a + 2 s) / 2^64`,
    /// where `s` is at most `a`.
    pub proof fn lemma_aimed_crossing_is_close(self, ray: Ray)
        requires
            ray.dir == self.center.spec_sub(ray.pos),
            0 < ray.dir.length_squared_spec()@,
            self.within_reach(ray),
            0 <= self.radius@,
            self.radius.spec_mul(self.radius)@ <= ray.dir.length_squared_spec()@,
        ensures
            match self.roots(ray) {
                Some((near, far)) => {
                    let q = ray.dir.x@ * ray.dir.x@ + ray.dir.y@ * ray.dir.y@ + ray.dir.z@
                        * ray.dir.z@;
                    let w = SCALE - near@;
                    let a = ray.dir.length_squared_spec()@;
                    let root = self.discriminant(ray).sqrt_spec()@;
                    let r = self.radius@;
                    let off = a * (w * w * q - r * r * (SCALE * SCALE));
                    &&& 0 <= w <= SCALE
                    &&& 0 <= root <= a
                    &&& -(SCALE * SCALE * SCALE) * (a + SCALE + 2 * root + 1) < off
                    &&& off < r * r * (SCALE * SCALE) + (a + 1) * (2 * root * (SCALE * SCALE) + a
                        * SCALE)
                },
                None => false,
            },
    {
        broadcast use Fixed::lemma_of_view;

        self.lemma_aimed_at_center(ray, Ray::search_interval());
        let scale = SCALE as int;
        let a_fixed = ray.dir.length_squared_spec();
        let h_fixed = Vec3::dot_spec(ray.dir, self.center.spec_sub(ray.pos));
        assert(h_fixed == a_fixed);
        let squared_radius = self.radius.spec_mul(self.radius);
        let c_fixed = a_fixed.spec_sub(squared_radius);
        Fixed::lemma_square_nonnegative(self.radius);
        let d_fixed = self.discriminant(ray);
        assert(d_fixed == Fixed::cross_term_spec(a_fixed, a_fixed, a_fixed, c_fixed));
        Fixed::lemma_cross_term_nonnegative(a_fixed, c_fixed);
        Fixed::lemma_cross_term_at_most_square(a_fixed, c_fixed);
        Fixed::lemma_sqrt_at_most(d_fixed, a_fixed);
        Fixed::lemma_sqrt_nonnegative(d_fixed);
        let s_fixed = d_fixed.sqrt_spec();
        let near_fixed = h_fixed.spec_sub(s_fixed).spec_div(a_fixed);

        let q = ray.dir.x@ * ray.dir.x@ + ray.dir.y@ * ray.dir.y@ + ray.dir.z@ * ray.dir.z@;
        let a = a_fixed@;
        let r = self.radius@;
        let rr = squared_radius@;
        let d = d_fixed@;
        let root = s_fixed@;
        let near = near_fixed@;
        let w = scale - near;

        // what each rounding leaves
        assert(q >= 0) by (nonlinear_arith)
            requires
                q == ray.dir.x@ * ray.dir.x@ + ray.dir.y@ * ray.dir.y@ + ray.dir.z@ * ray.dir.z@,
        ;
        vstd::arithmetic::div_mod::lemma_fundamental_div_mod(q, scale);
        assert(a == q / scale);
        assert(a * scale <= q < (a + 1) * scale) by (nonlinear_arith)
            requires
                q == scale * a + q % scale,
                0 <= q % scale < scale,
        ;
        assert(r * r >= 0) by (nonlinear_arith);
        vstd::arithmetic::div_mod::lemma_fundamental_div_mod(r * r, scale);
        assert(rr == (r * r) / scale);
        assert(rr * scale <= r * r < (rr + 1) * scale) by (nonlinear_arith)
            requires
                r * r == scale * rr + (r * r) % scale,
                0 <= (r * r) % scale < scale,
        ;
        assert(c_fixed@ == a - rr);
        assert(a * a - a * (a - rr) == a * rr) by (nonlinear_arith);
        assert(a * rr >= 0) by (nonlinear_arith)
            requires
                a >= 0,
                rr >= 0,
        ;
        vstd::arithmetic::div_mod::lemma_fundamental_div_mod(a * rr, scale);
        assert(d == (a * rr) / scale);
        assert(d * scale <= a * rr < (d + 1) * scale) by (nonlinear_arith)
            requires
                a * rr == scale * d + (a * rr) % scale,
                0 <= (a * rr) % scale < scale,
        ;
        assert(d * scale >= 0) by (nonlinear_arith)
            requires
                d >= 0,
                scale > 0,
        ;
        crate::fixed::lemma_floor_sqrt_exists(d * scale);
        assert(root == crate::fixed::floor_sqrt(d * scale));
        assert(root * root <= d * scale < (root + 1) * (root + 1));
        let left = (a - root) * scale;
        assert(left >= 0) by (nonlinear_arith)
            requires
                left == (a - root) * scale,
                a - root >= 0,
                scale > 0,
        ;
        vstd::arithmetic::div_mod::lemma_fundamental_div_mod(left, a);
        assert(h_fixed.spec_sub(s_fixed)@ == a - root);
        assert(near == left / a);
        assert(near * a <= left < (near + 1) * a) by (nonlinear_arith)
            requires
                left == a * near + left % a,
                0 <= left % a < a,
        ;
        let wa = w * a;
        assert(wa == scale * a - near * a) by (nonlinear_arith)
            requires
                wa == w * a,
                w == scale - near,
        ;
        assert(left == a * scale - root * scale) by (nonlinear_arith)
            requires
                left == (a - root) * scale,
        ;
        assert(root * scale <= wa < root * scale + a) by (nonlinear_arith)
            requires
                wa == scale * a - near * a,
                left == a * scale - root * scale,
                near * a <= left < (near + 1) * a,
        ;
        let cube = scale * scale * scale;
        let square = scale * scale;

        let ww = w * w;
        let t1 = a * (ww * q);
        let t3 = a * (r * r * square);
        let off = a * (ww * q - r * r * square);
        assert(off == t1 - t3) by (nonlinear_arith)
            requires
                off == a * (ww * q - r * r * square),
                t1 == a * (ww * q),
                t3 == a * (r * r * square),
        ;
        assert(wa * wa == (ww * a) * a) by (nonlinear_arith)
            requires
                wa == w * a,
                ww == w * w,
        ;
        assert(ww >= 0) by (nonlinear_arith)
            requires
                ww == w * w,
        ;
        let wwa = ww * a;
        assert(wwa >= 0) by (nonlinear_arith)
            requires
                wwa == ww * a,
                ww >= 0,
                a > 0,
        ;
        assert(t1 == wwa * q) by (nonlinear_arith)
            requires
                t1 == a * (ww * q),
                wwa == ww * a,
        ;
        let rs = root * scale;
        assert(0 <= rs) by (nonlinear_arith)
            requires
                rs == root * scale,
                root >= 0,
                scale > 0,
        ;
        let rrs = root * root * scale;
        assert(rs * rs == rrs * scale) by (nonlinear_arith)
            requires
                rs == root * scale,
                rrs == root * root * scale,
        ;
        let ar2 = a * (r * r);
        let arr = a * rr;
        assert(t3 == (ar2 * scale) * scale) by (nonlinear_arith)
            requires
                t3 == a * (r * r * square),
                ar2 == a * (r * r),
                square == scale * scale,
        ;

        // from below
        let slack = a + scale + 2 * root + 1;
        assert(root * root + 2 * root + 1 == (root + 1) * (root + 1)) by (nonlinear_arith);
        assert(d * scale + scale > arr) by (nonlinear_arith)
            requires
                arr < (d + 1) * scale,
        ;
        assert(root * root > arr - scale - 2 * root - 1);
        assert(rrs > arr * scale - (scale + 2 * root + 1) * scale) by (nonlinear_arith)
            requires
                rrs == root * root * scale,
                root * root > arr - scale - 2 * root - 1,
                scale > 0,
        ;
        assert(ar2 < arr * scale + a * scale) by (nonlinear_arith)
            requires
                ar2 == a * (r * r),
                arr == a * rr,
                r * r < (rr + 1) * scale,
                a > 0,
        ;
        assert((scale + 2 * root + 1) * scale + a * scale == slack * scale) by (nonlinear_arith)
            requires
                slack == a + scale + 2 * root + 1,
        ;
        assert(rrs > ar2 - slack * scale);
        assert(rrs * scale > (ar2 - slack * scale) * scale) by (nonlinear_arith)
            requires
                rrs > ar2 - slack * scale,
                scale > 0,
        ;
        assert(wa * wa >= rs * rs) by (nonlinear_arith)
            requires
                0 <= rs <= wa,
        ;
        assert((wa * wa) * scale > ((ar2 - slack * scale) * scale) * scale) by (nonlinear_arith)
            requires
                wa * wa > (ar2 - slack * scale) * scale,
                scale > 0,
        ;
        let t4 = cube * slack;
        assert(((ar2 - slack * scale) * scale) * scale == (ar2 * scale) * scale - t4)
            by (nonlinear_arith)
            requires
                t4 == cube * slack,
                cube == scale * scale * scale,
        ;
        assert(wwa * q >= wwa * (a * scale)) by (nonlinear_arith)
            requires
                wwa >= 0,
                q >= a * scale,
        ;
        assert(wwa * (a * scale) == (wa * wa) * scale) by (nonlinear_arith)
            requires
                wa * wa == wwa * a,
        ;
        assert(off > -t4);
        assert(-(SCALE * SCALE * SCALE) * (a + SCALE + 2 * root + 1) == -t4) by (nonlinear_arith)
            requires
                t4 == cube * slack,
                cube == scale * scale * scale,
                slack == a + scale + 2 * root + 1,
                scale == SCALE,
        ;

        // from above
        assert(root * root <= arr);
        assert(rrs <= arr * scale) by (nonlinear_arith)
            requires
                rrs == root * root * scale,
                root * root <= arr,
                scale > 0,
        ;
        assert(arr * scale <= ar2) by (nonlinear_arith)
            requires
                arr == a * rr,
                ar2 == a * (r * r),
                rr * scale <= r * r,
                a > 0,
        ;
        assert(wa * wa < (rs + a) * (rs + a)) by (nonlinear_arith)
            requires
                0 <= wa < rs + a,
        ;
        assert((rs + a) * (rs + a) == rs * rs + 2 * rs * a + a * a) by (nonlinear_arith);
        assert(rrs * scale <= ar2 * scale) by (nonlinear_arith)
            requires
                rrs <= ar2,
                scale > 0,
        ;
        let bound = r * r * scale + 2 * rs + a;
        assert(ar2 * scale + 2 * rs * a + a * a == a * bound) by (nonlinear_arith)
            requires
                ar2 == a * (r * r),
                bound == r * r * scale + 2 * rs + a,
        ;
        assert(wa * wa < a * bound);
        let wide = (a + 1) * scale;
        assert(wide > 0) by (nonlinear_arith)
            requires
                wide == (a + 1) * scale,
                a > 0,
                scale > 0,
        ;
        assert((wa * wa) * q <= (wa * wa) * wide) by (nonlinear_arith)
            requires
                q < wide,
                wa * wa >= 0,
        ;
        assert((wa * wa) * wide < (a * bound) * wide) by (nonlinear_arith)
            requires
                wa * wa < a * bound,
                wide > 0,
        ;
        assert((wa * wa) * q == a * t1) by (nonlinear_arith)
            requires
                wa * wa == wwa * a,
                t1 == wwa * q,
        ;
        assert((a * bound) * wide == a * (bound * wide)) by (nonlinear_arith);
        assert(t1 < bound * wide) by (nonlinear_arith)
            requires
                a * t1 < a * (bound * wide),
                a > 0,
        ;
        let edge = 2 * root * square + a * scale;
        assert(bound * scale == r * r * square + edge) by (nonlinear_arith)
            requires
                bound == r * r * scale + 2 * rs + a,
                rs == root * scale,
                square == scale * scale,
                edge == 2 * root * square + a * scale,
        ;
        assert(bound * wide == (a + 1) * (bound * scale)) by (nonlinear_arith)
            requires
                wide == (a + 1) * scale,
        ;
        assert((a + 1) * (r * r * square + edge) == t3 + r * r * square + (a + 1) * edge)
            by (nonlinear_arith)
            requires
                t3 == a * (r * r * square),
        ;
        assert(off < r * r * square + (a + 1) * edge);
        assert(w * w * q == ww * q);
        assert(r * r * (SCALE * SCALE) == r * r * square);
    }

    /// Whether `normal`, the outward normal at a crossing at parameter `t`
    /// of a ray along `center - origin`, is what it is in exact arithmetic up
    /// to rounding: times the radius, it is `1 - t` of the way from the
    /// center back to the origin, to within one raw unit of area for the
    /// step of the numbers and one for each raw unit of the radius.
    pub open spec fn normal_is_close(self, ray: Ray, t: Fixed, normal: Vec3) -> bool {
        let w = SCALE - t@;
        let r = self.radius@;
        &&& crate::fixed::magnitude(normal.x@ * r + ray.dir.x@ * w) < SCALE + r
        &&& crate::fixed::magnitude(normal.y@ * r + ray.dir.y@ * w) < SCALE + r
        &&& crate::fixed::magnitude(normal.z@ * r + ray.dir.z@ * w) < SCALE + r
    }

    /// The outward normal where a ray aimed at the center first crosses the
    /// sphere points back along the ray, and has the length that
    /// `lemma_aimed_crossing_is_close` bounds: it is `-(1 - t) (center -
    /// origin) / r` in each component, to within `(1 + 1 / r) / 2^64`.
    pub proof fn lemma_aimed_normal_is_close(self, ray: Ray)
        requires
            ray.dir == self.center.spec_sub(ray.pos),
            0 < ray.dir.length_squared_spec()@,
            self.within_reach(ray),
            0 < self.radius@,
            self.radius.in_range(),
            self.radius.spec_mul(self.radius)@ <= ray.dir.length_squared_spec()@,
            self.center.in_range(),
            ray.pos.in_range(),
        ensures
            match self.roots(ray) {
                Some((near, far)) => {
                    let point = ray.cast_spec(near);
                    let normal = self.outward_normal(point);
                    !point.is_clamped_spec() && !normal.is_clamped_spec() ==> self.normal_is_close(
                        ray,
                        near,
                        normal,
                    )
                },
                None => false,
            },
    {
        broadcast use Fixed::lemma_of_view;

        self.lemma_aimed_crossing_is_close(ray);
        let near = self.roots(ray)->Some_0.0;
        let point = ray.cast_spec(near);
        let normal = self.outward_normal(point);
        if !point.is_clamped_spec() && !normal.is_clamped_spec() {
            lemma_normal_component(
                ray.pos.x@,
                self.center.x@,
                near@,
                self.radius@,
                ray.dir.x@,
                point.x@,
                normal.x@,
            );
            lemma_normal_component(
                ray.pos.y@,
                self.center.y@,
                near@,
                self.radius@,
                ray.dir.y@,
                point.y@,
                normal.y@,
            );
            lemma_normal_component(
                ray.pos.z@,
                self.center.z@,
                near@,
                self.radius@,
                ray.dir.z@,
                point.z@,
                normal.z@,
            );
        }
    }

    /// A ray aimed at the center meets the sphere from outside: at its first
    /// crossing the outward normal opposes the ray, so that the hit counts as
    /// one of the front face and keeps the outward normal. The radius must
    /// stand out from the rounding: it is 24 raw units or more, and `3 a r^2`
    /// is at least `4 S (3 a + S + 1)` in raw values, which for a direction
    /// of length one or more asks for a radius of a billionth.
    pub proof fn lemma_aimed_hit_faces_front(self, ray: Ray)
        requires
            ray.dir == self.center.spec_sub(ray.pos),
            0 < ray.dir.length_squared_spec()@,
            self.within_reach(ray),
            24 <= self.radius@,
            self.radius.in_range(),
            self.radius.spec_mul(self.radius)@ <= ray.dir.length_squared_spec()@,
            self.center.in_range(),
            ray.pos.in_range(),
            3 * ray.dir.length_squared_spec()@ * (self.radius@ * self.radius@) >= 4 * SCALE * (3
                * ray.dir.length_squared_spec()@ + SCALE + 1),
        ensures
            match self.roots(ray) {
                Some((near, far)) => {
                    let point = ray.cast_spec(near);
                    let normal = self.outward_normal(point);
                    !point.is_clamped_spec() && !normal.is_clamped_spec() ==> {
                        &&& HitRecord::faces_front(ray.dir, normal)
                        &&& self.record_at(ray, near).front_face
                        &&& self.record_at(ray, near).normal == normal
                        &&& self.normal_is_close(ray, near, normal)
                    }
                },
                None => false,
            },
    {
        broadcast use Fixed::lemma_of_view;

        self.lemma_aimed_crossing_is_close(ray);
        self.lemma_aimed_normal_is_close(ray);
        let near = self.roots(ray)->Some_0.0;
        let point = ray.cast_spec(near);
        let normal = self.outward_normal(point);
        if !point.is_clamped_spec() && !normal.is_clamped_spec() {
            let scale = SCALE as int;
            let (x, y, z) = (ray.dir.x@, ray.dir.y@, ray.dir.z@);
            let q = x * x + y * y + z * z;
            let a = ray.dir.length_squared_spec()@;
            let r = self.radius@;
            let w = scale - near@;
            let root = self.discriminant(ray).sqrt_spec()@;
            let len = ray.dir.length_spec()@;
            Fixed::lemma_norm3_dominates(ray.dir.triple());
            assert(q >= 0) by (nonlinear_arith)
                requires
                    q == x * x + y * y + z * z,
            ;
            crate::fixed::lemma_floor_sqrt_exists(q);
            let exact_len = crate::fixed::floor_sqrt(q);
            assert(len <= exact_len);
            assert(len * len <= q) by (nonlinear_arith)
                requires
                    0 <= len <= exact_len,
                    exact_len * exact_len <= q,
            ;
            // the length is 4 raw units or more
            vstd::arithmetic::div_mod::lemma_fundamental_div_mod(q, scale);
            assert(q >= scale) by (nonlinear_arith)
                requires
                    q == scale * a + q % scale,
                    q % scale >= 0,
                    a >= 1,
                    scale > 0,
            ;
            crate::fixed::laws::lemma_below_root(4, exact_len, q);
            assert(len >= 4);

            // the crossing lies a good way from the center: 2 w q > r S L
            let square = scale * scale;
            let cube = scale * scale * scale;
            let wwq = w * w * q;
            let off = a * (wwq - r * r * square);
            let rrs = r * r * square;
            assert(cube * (a + scale + 2 * root + 1) <= cube * (3 * a + scale + 1))
                by (nonlinear_arith)
                requires
                    root <= a,
                    cube == scale * scale * scale,
                    scale > 0,
            ;
            assert(4 * (cube * (3 * a + scale + 1)) <= 3 * (a * rrs)) by (nonlinear_arith)
                requires
                    3 * a * (r * r) >= 4 * scale * (3 * a + scale + 1),
                    rrs == r * r * square,
                    square == scale * scale,
                    cube == scale * scale * scale,
                    scale > 0,
            ;
            assert(off == a * wwq - a * rrs) by (nonlinear_arith)
                requires
                    off == a * (wwq - rrs),
            ;
            assert(4 * (a * wwq) > a * rrs);
            assert(a * (4 * wwq) == 4 * (a * wwq)) by (nonlinear_arith);
            assert(4 * wwq > rrs) by (nonlinear_arith)
                requires
                    a * (4 * wwq) > a * rrs,
                    a > 0,
            ;
            let wq = w * q;
            assert(wq >= 0) by (nonlinear_arith)
                requires
                    wq == w * q,
                    w >= 0,
                    q >= 0,
            ;
            assert(wq * wq == wwq * q) by (nonlinear_arith)
                requires
                    wq == w * q,
                    wwq == w * w * q,
            ;
            let rsl = r * scale * len;
            assert(rsl >= 0) by (nonlinear_arith)
                requires
                    rsl == r * scale * len,
                    r >= 0,
                    len >= 0,
                    scale > 0,
            ;
            assert(rsl * rsl == rrs * (len * len)) by (nonlinear_arith)
                requires
                    rsl == r * scale * len,
                    rrs == r * r * square,
                    square == scale * scale,
            ;
            assert(rrs >= 0) by (nonlinear_arith)
                requires
                    rrs == r * r * square,
                    square == scale * scale,
            ;
            assert(rrs * (len * len) <= rrs * q) by (nonlinear_arith)
                requires
                    len * len <= q,
                    rrs >= 0,
            ;
            assert((4 * wwq) * q >= rrs * q) by (nonlinear_arith)
                requires
                    4 * wwq > rrs,
                    q >= 0,
            ;
            assert((2 * wq) * (2 * wq) == (4 * wwq) * q) by (nonlinear_arith)
                requires
                    wq * wq == wwq * q,
            ;
            if q > 0 {
                assert((4 * wwq) * q > rrs * q) by (nonlinear_arith)
                    requires
                        4 * wwq > rrs,
                        q > 0,
                ;
            }
            assert(2 * wq > rsl) by (nonlinear_arith)
                requires
                    (2 * wq) * (2 * wq) > rsl * rsl,
                    wq >= 0,
                    rsl >= 0,
            ;

            // the normal, component by component
            let (nx, ny, nz) = (normal.x@, normal.y@, normal.z@);
            let dx = nx * r + x * w;
            let dy = ny * r + y * w;
            let dz = nz * r + z * w;
            let dot = x * nx + y * ny + z * nz;
            assert((x * nx) * r == x * dx - (x * x) * w) by (nonlinear_arith)
                requires
                    dx == nx * r + x * w,
            ;
            assert((y * ny) * r == y * dy - (y * y) * w) by (nonlinear_arith)
                requires
                    dy == ny * r + y * w,
            ;
            assert((z * nz) * r == z * dz - (z * z) * w) by (nonlinear_arith)
                requires
                    dz == nz * r + z * w,
            ;
            assert(dot * r == (x * nx) * r + (y * ny) * r + (z * nz) * r) by (nonlinear_arith)
                requires
                    dot == x * nx + y * ny + z * nz,
            ;
            assert(wq == (x * x) * w + (y * y) * w + (z * z) * w) by (nonlinear_arith)
                requires
                    wq == w * q,
                    q == x * x + y * y + z * z,
            ;
            assert(dot * r == -wq + (x * dx + y * dy + z * dz));
            let edge = scale + r;
            lemma_small_times_bounded(x, dx, len, edge);
            lemma_small_times_bounded(y, dy, len, edge);
            lemma_small_times_bounded(z, dz, len, edge);
            let le = len * edge;
            assert(dot * r <= -wq + 3 * le);
            // r S L dominates what rounding can add
            assert(6 * le == 6 * (len * scale) + 6 * (len * r)) by (nonlinear_arith)
                requires
                    le == len * edge,
                    edge == scale + r,
            ;
            assert(rsl == r * (len * scale)) by (nonlinear_arith)
                requires
                    rsl == r * scale * len,
            ;
            assert(rsl == scale * (len * r)) by (nonlinear_arith)
                requires
                    rsl == r * scale * len,
            ;
            assert(len * scale >= 0 && len * r >= 0) by (nonlinear_arith)
                requires
                    len >= 0,
                    r >= 0,
                    scale > 0,
            ;
            assert(r * (len * scale) >= 24 * (len * scale)) by (nonlinear_arith)
                requires
                    r >= 24,
                    len * scale >= 0,
            ;
            assert(scale * (len * r) >= 24 * (len * r)) by (nonlinear_arith)
                requires
                    scale >= 24,
                    len * r >= 0,
            ;
            assert(scale * (len * r) >= 4 * (scale * r)) by (nonlinear_arith)
                requires
                    len >= 4,
                    r >= 0,
                    scale > 0,
            ;
            assert(2 * (dot * r) < -2 * (scale * r));
            assert(dot * r < -(scale * r));
            if dot > -scale {
                assert(dot * r >= -(scale * r)) by (nonlinear_arith)
                    requires
                        dot >= -scale + 1,
                        r > 0,
                ;
            }
            assert(dot <= -scale);
            crate::fixed::laws::lemma_quot_monotone(dot, -scale, scale);
            assert(crate::fixed::quot(-scale, scale) == -1) by {
                vstd::arithmetic::div_mod::lemma_div_multiples_vanish(1, scale);
            }
        }
    }

    /// The smaller root is not above the larger one.
    pub proof fn lemma_roots_ordered(self, ray: Ray)
        ensures
            match self.roots(ray) {
                Some((near, far)) => near@ <= far@,
                None => true,
            },
    {
        let a = ray.dir.length_squared_spec();
        let h = Vec3::dot_spec(ray.dir, self.center.spec_sub(ray.pos));
        let d = self.discriminant(ray);
        if self.roots(ray).is_some() {
            broadcast use Fixed::lemma_of_view;

            let s = d.sqrt_spec();
            Fixed::lemma_sqrt_nonnegative(d);
            Fixed::lemma_div_monotone(h.spec_sub(s), h.spec_add(s), a);
        }
    }

    /// Lowering the upper bound of the interval only removes hits at or
    /// beyond the new bound.
    pub proof fn lemma_hit_narrowed(self, ray: Ray, t_interval: Interval, bound: Fixed)
        requires
            bound@ <= t_interval.max@,
        ensures
            self.hit_spec(ray, t_interval.up_to(bound)) == below(
                self.hit_spec(ray, t_interval),
                bound,
            ),
    {
        self.lemma_roots_ordered(ray);
    }

    /// The sphere about `position` with the given radius and material.
    pub fn new(position: Vec3, radius: Fixed, material: MaterialKind) -> (r: Self)
        ensures
            r == (Sphere { center: position, radius, material }),
    {
        Sphere { center: position, radius, material }
    }
}

/// A sphere is hit at the nearest of the two crossings of the ray's line that
/// the interval surrounds. The crossings solve the sphere's equation up to
/// rounding, so that the point of a hit lies on the sphere to within a few
/// steps of the numbers.
impl Object for Sphere {
    open spec fn hit_spec(&self, ray: Ray, t_interval: Interval) -> Option<HitRecord> {
        match self.hit_scalar(ray, t_interval) {
            None => None,
            Some(t) => Some(self.record_at(ray, t)),
        }
    }

    fn hit(&self, ray: &Ray, t_interval: &Interval) -> (r: Option<HitRecord>)
        ensures
            r == self.hit_spec(*ray, *t_interval),
            match r {
                Some(h) => {
                    &&& h.material == self.material
                    &&& h.front_face == HitRecord::faces_front(
                        ray.dir,
                        self.outward_normal(h.point),
                    )
                    &&& h.normal == HitRecord::facing_normal(ray.dir, self.outward_normal(h.point))
                    &&& self.within_reach(*ray)
                    &&& self.sums_in_range(*ray) ==> self.solves(*ray, h.ray_scalar)
                },
                None => self.hit_scalar(*ray, *t_interval) is None,
            },
    {
        proof {
            use_type_invariant(&t_interval.min);
            use_type_invariant(&t_interval.max);
            self.lemma_roots_solve(*ray);
        }
        let ray_to_sphere = self.center - ray.pos;
        let a = ray.dir.length_squared();
        let h = Vec3::dot(&ray.dir, &ray_to_sphere);
        let to_center_squared = ray_to_sphere.length_squared();
        let squared_radius = self.radius * self.radius;
        let c = to_center_squared - squared_radius;
        let discriminant = Fixed::cross_term(h, h, a, c);

        let beyond_reach = ray_to_sphere.is_clamped() || a.is_clamped() || h.is_clamped()
            || to_center_squared.is_clamped() || squared_radius.is_clamped() || c.is_clamped()
            || discriminant.is_clamped();
        if beyond_reach || a <= Fixed::zero() || discriminant < Fixed::zero() {
            return None;
        }
        let disc_sqr = discriminant.sqrt();
        let mut root: Fixed = (h - disc_sqr) / a;

        // try first root
        if !t_interval.surrounds(root) {
            // try second root
            root = (h + disc_sqr) / a;
            if !t_interval.surrounds(root) {
                return None;
            }
        }
        let hit_point = ray.cast(root);
        let normal = (hit_point - self.center) / self.radius;
        let mut hit_record = HitRecord {
            ray_scalar: root,
            point: hit_point,
            normal,
            front_face: false,
            material: self.material,
        };
        hit_record.set_face_normal(ray, &normal);

        Some(hit_record)
    }
}

/// One component of the outward normal at a crossing, followed through its
/// three roundings.
proof fn lemma_normal_component(
    origin: int,
    center: int,
    t: int,
    radius: int,
    toward: int,
    point: int,
    normal: int,
)
    requires
        -crate::fixed::RAW_MAX <= origin <= crate::fixed::RAW_MAX,
        -crate::fixed::RAW_MAX <= center <= crate::fixed::RAW_MAX,
        -crate::fixed::RAW_MAX < toward < crate::fixed::RAW_MAX,
        toward == center - origin,
        0 <= t <= SCALE,
        0 < radius <= crate::fixed::RAW_MAX,
        point == crate::fixed::sat(origin + crate::fixed::mul_raw(toward, t)),
        -crate::fixed::RAW_MAX < point < crate::fixed::RAW_MAX,
        normal == crate::fixed::div_raw(crate::fixed::sat(point - center), radius),
        -crate::fixed::RAW_MAX < normal < crate::fixed::RAW_MAX,
    ensures
        crate::fixed::magnitude(normal * radius + toward * (SCALE - t)) < SCALE + radius,
{
    let scale = SCALE as int;
    let step = crate::fixed::quot(toward * t, scale);
    crate::fixed::laws::lemma_quot_remainder(toward * t, scale);
    let first = toward * t - step * scale;
    let m = crate::fixed::magnitude(toward);
    assert(crate::fixed::magnitude(toward * t) <= m * scale) by (nonlinear_arith)
        requires
            m == crate::fixed::magnitude(toward),
            0 <= t <= scale,
    ;
    assert(crate::fixed::magnitude(step) * scale <= crate::fixed::magnitude(toward * t)
        + crate::fixed::magnitude(first)) by (nonlinear_arith)
        requires
            first == toward * t - step * scale,
            scale > 0,
    ;
    assert(crate::fixed::magnitude(step) <= m) by (nonlinear_arith)
        requires
            crate::fixed::magnitude(step) * scale < m * scale + scale,
            scale > 0,
    ;
    assert(toward >= 0 ==> toward * t >= 0) by (nonlinear_arith)
        requires
            t >= 0,
    ;
    assert(toward <= 0 ==> toward * t <= 0) by (nonlinear_arith)
        requires
            t >= 0,
    ;
    vstd::arithmetic::div_mod::lemma_div_pos_is_pos(crate::fixed::magnitude(toward * t), scale);
    assert(toward >= 0 ==> 0 <= step <= toward);
    assert(toward <= 0 ==> toward <= step <= 0);
    assert(crate::fixed::mul_raw(toward, t) == step);
    assert(point == origin + step);
    let back = point - center;
    assert(back == step - toward);
    assert(crate::fixed::sat(back) == back);
    let second_of = back * scale;
    crate::fixed::laws::lemma_quot_remainder(second_of, radius);
    assert(normal == crate::fixed::quot(second_of, radius));
    let second = second_of - normal * radius;
    assert(normal * radius + toward * (scale - t) == -(first + second)) by (nonlinear_arith)
        requires
            first == toward * t - step * scale,
            second == (step - toward) * scale - normal * radius,
    ;
}

/// A factor that is no larger than `size` in magnitude, times one that is
/// smaller than `edge`, is not above `size * edge`.
proof fn lemma_small_times_bounded(factor: int, other: int, size: int, edge: int)
    requires
        crate::fixed::magnitude(factor) <= size,
        crate::fixed::magnitude(other) < edge,
    ensures
        factor * other <= size * edge,
{
    assert(factor * other <= size * edge) by (nonlinear_arith)
        requires
            -size <= factor <= size,
            -edge < other < edge,
    ;
}

} // verus!
