//! Random sampling, reflection and refraction, and output encoding.

use crate::fixed::{Fixed, SCALE};
use crate::vec3::{Color3, Vec3};
use core::ops::Neg;
use rand::Rng;
use vstd::prelude::*;

pub use crate::image::color_to_ppm;

verus! {

broadcast use {Fixed::lemma_of_view, Fixed::lemma_view_of};

/// Draws an integer uniformly from `lo..hi` by `rand::Rng::gen_range` on the
/// generator of `rand::thread_rng`. The range must not be empty; the result
/// lies in it. Which member comes back is left open.
#[verifier::external_body]
fn uniform_raw(lo: i128, hi: i128) -> (r: i128)
    requires
        lo < hi,
    ensures
        lo <= r < hi,
{
    rand::thread_rng().gen_range(lo..hi)
}

/// A random number, uniform over the representable values in `[lo, hi)`.
pub fn random_fixed(lo: Fixed, hi: Fixed) -> (r: Fixed)
    requires
        lo@ < hi@,
    ensures
        lo@ <= r@ < hi@,
{
    let raw: i128 = uniform_raw(lo.raw(), hi.raw());
    Fixed::from_raw(raw)
}

/// The raw value of pi, rounded to the nearest representable number.
pub const PI_RAW: i128 = 57952155664616982739;

/// How often a rejection sampler draws before it gives up.
pub const SAMPLING_TRIES: u32 = 64;

pub open spec fn degrees_to_radians_spec(deg: Fixed) -> Fixed {
    deg.spec_mul(Fixed::of(PI_RAW as int)).spec_div(Fixed::spec_from_int(180))
}

/// Converts an angle in degrees to radians.
pub fn degrees_to_radians(deg: Fixed) -> (r: Fixed)
    ensures
        r == degrees_to_radians_spec(deg),
{
    deg * Fixed::from_raw(PI_RAW) / Fixed::from_int(180)
}

/// Whether every component of `v` lies in `[-1, 1)`.
pub open spec fn in_sampling_cube(v: Vec3) -> bool {
    &&& -SCALE <= v.x@ < SCALE
    &&& -SCALE <= v.y@ < SCALE
    &&& -SCALE <= v.z@ < SCALE
}

/// What a draw from the unit ball can be: a vector of the cube whose squared
/// length is positive and less than one.
pub open spec fn is_ball_sample(v: Vec3) -> bool {
    in_sampling_cube(v) && inside_unit_ball_spec(v)
}

/// The point that a rejection sampler falls back on: one half along the x
/// axis, which lies in the unit ball and in the unit disk.
pub open spec fn fallback_sample_spec() -> Vec3 {
    Vec3 { x: Fixed::of(SCALE / 2), y: Fixed::zero(), z: Fixed::zero() }
}

/// The point that a rejection sampler falls back on.
pub fn fallback_sample() -> (r: Vec3)
    ensures
        r == fallback_sample_spec(),
        is_disk_sample(r),
{
    proof {
        lemma_fallback_sample();
    }
    Vec3::new(Fixed::from_raw(SCALE / 2), Fixed::zero(), Fixed::zero())
}

/// The fallback point lies in the unit disk, and so in the unit ball; the
/// direction to it is the x axis.
pub proof fn lemma_fallback_sample()
    ensures
        is_disk_sample(fallback_sample_spec()),
        fallback_sample_spec().normalize_spec() == (Vec3 {
            x: Fixed::one(),
            y: Fixed::zero(),
            z: Fixed::zero(),
        }),
{
    let half = SCALE / 2;
    assert(half * half == 0x4000_0000_0000_0000_0000_0000_0000_0000) by (nonlinear_arith)
        requires
            half == 0x8000_0000_0000_0000,
    ;
    assert(0x4000_0000_0000_0000_0000_0000_0000_0000int / 0x1_0000_0000_0000_0000
        == 0x4000_0000_0000_0000);
    assert(half * half + 0int * 0int + 0int * 0int == 0x4000_0000_0000_0000_0000_0000_0000_0000);
    assert(fallback_sample_spec().length_squared_spec()@ == 0x4000_0000_0000_0000);
    Fixed::lemma_norm3_of_axis(Fixed::of(half));
    assert(fallback_sample_spec().length_spec()@ == half);
    assert(half * SCALE == 0x8000_0000_0000_0000_0000_0000_0000_0000) by (nonlinear_arith)
        requires
            half == 0x8000_0000_0000_0000,
            SCALE == 0x1_0000_0000_0000_0000,
    ;
    assert(0x8000_0000_0000_0000_0000_0000_0000_0000int / 0x8000_0000_0000_0000
        == 0x1_0000_0000_0000_0000);
    assert(0int * SCALE == 0);
    assert(0int / 0x8000_0000_0000_0000 == 0);
}

/// What a draw of a random direction can be: a ball sample, normalized.
pub open spec fn is_unit_sample(u: Vec3) -> bool {
    exists|v: Vec3| is_ball_sample(v) && u == v.normalize_spec()
}

/// What a draw from the unit disk can be: a ball sample in the plane
/// `z = 0`.
pub open spec fn is_disk_sample(v: Vec3) -> bool {
    is_ball_sample(v) && v.z@ == 0
}

/// Whether the squared length of `v` is positive and less than one: the test
/// by which the rejection samplers accept a draw.
pub open spec fn inside_unit_ball_spec(v: Vec3) -> bool {
    0 < v.length_squared_spec()@ < SCALE
}

/// Tells whether a drawn vector lies inside the unit ball, apart from its
/// center.
pub fn inside_unit_ball(v: &Vec3) -> (r: bool)
    ensures
        r == inside_unit_ball_spec(*v),
{
    let len_sq = v.length_squared();
    Fixed::zero() < len_sq && len_sq < Fixed::one()
}

/// Whether the vector has length one to within a billionth: its squared
/// length is below `(1 + 2^-32)^2`, and reaches one when each component is
/// taken one raw unit further from zero.
pub open spec fn is_nearly_unit(u: Vec3) -> bool {
    let (x, y, z) = (
        crate::fixed::magnitude(u.x@),
        crate::fixed::magnitude(u.y@),
        crate::fixed::magnitude(u.z@),
    );
    &&& (x * x + y * y + z * z) * 0x1_0000_0000_0000_0000 < (SCALE * SCALE) * (0x1_0000_0001
        * 0x1_0000_0001)
    &&& (x + 1) * (x + 1) + (y + 1) * (y + 1) + (z + 1) * (z + 1) > SCALE * SCALE
}

/// A random direction is a direction: it has length one to within a
/// billionth, no component of it lies beyond one, and its largest is one
/// half or more.
pub proof fn lemma_unit_sample_bounded(u: Vec3)
    requires
        is_unit_sample(u),
    ensures
        u.within_unit_cube(),
        u.in_range(),
        u.has_direction(),
        is_nearly_unit(u),
{
    let v = choose|v: Vec3| is_ball_sample(v) && u == v.normalize_spec();
    v.lemma_normalize_bounded();
    lemma_ball_sample_has_length(v);
    v.lemma_normalize_has_direction();
    v.lemma_normalize_is_unit();
    let len = v.length_spec()@;
    let (x, y, z) = (
        crate::fixed::magnitude(u.x@),
        crate::fixed::magnitude(u.y@),
        crate::fixed::magnitude(u.z@),
    );
    let n2 = x * x + y * y + z * z;
    let ss = SCALE * SCALE;
    let low = 0x1_0000_0000int;
    assert((len + 1) * low <= len * (low + 1)) by (nonlinear_arith)
        requires
            low <= len,
    ;
    assert(((len + 1) * low) * ((len + 1) * low) <= (len * (low + 1)) * (len * (low + 1)))
        by (nonlinear_arith)
        requires
            0 <= (len + 1) * low <= len * (low + 1),
    ;
    let ll = len * len;
    assert(ll > 0) by (nonlinear_arith)
        requires
            ll == len * len,
            len > 0,
    ;
    assert(((len + 1) * low) * ((len + 1) * low) == ((len + 1) * (len + 1)) * (low * low))
        by (nonlinear_arith);
    assert((len * (low + 1)) * (len * (low + 1)) == ll * ((low + 1) * (low + 1)))
        by (nonlinear_arith)
        requires
            ll == len * len,
    ;
    assert(n2 * ll * (low * low) < ss * ((len + 1) * (len + 1)) * (low * low)) by (nonlinear_arith)
        requires
            n2 * ll < ss * ((len + 1) * (len + 1)),
            low == 0x1_0000_0000,
    ;
    assert(ss * ((len + 1) * (len + 1)) * (low * low) <= ss * (ll * ((low + 1) * (low + 1))))
        by (nonlinear_arith)
        requires
            ((len + 1) * (len + 1)) * (low * low) <= ll * ((low + 1) * (low + 1)),
            ss >= 0,
    ;
    assert(n2 * ll * (low * low) == (n2 * (low * low)) * ll) by (nonlinear_arith);
    assert(ss * (ll * ((low + 1) * (low + 1))) == (ss * ((low + 1) * (low + 1))) * ll)
        by (nonlinear_arith);
    if n2 * (low * low) >= ss * ((low + 1) * (low + 1)) {
        assert((n2 * (low * low)) * ll >= (ss * ((low + 1) * (low + 1))) * ll)
            by (nonlinear_arith)
            requires
                n2 * (low * low) >= ss * ((low + 1) * (low + 1)),
                ll > 0,
        ;
    }
    assert(low * low == 0x1_0000_0000_0000_0000);
}

/// A vector whose squared length is positive and below one has a length of
/// `2^-32` or more, and below one.
pub proof fn lemma_ball_sample_has_length(v: Vec3)
    requires
        inside_unit_ball_spec(v),
    ensures
        0x1_0000_0000 <= v.length_spec()@ < SCALE,
{
    let sum = v.x@ * v.x@ + v.y@ * v.y@ + v.z@ * v.z@;
    if sum < SCALE {
        assert(sum >= 0) by (nonlinear_arith)
            requires
                sum == v.x@ * v.x@ + v.y@ * v.y@ + v.z@ * v.z@,
        ;
        vstd::arithmetic::div_mod::lemma_basic_div(sum, SCALE as int);
    }
    crate::fixed::lemma_floor_sqrt_exists(sum);
    let r = crate::fixed::floor_sqrt(sum);
    assert(0x1_0000_0000int * 0x1_0000_0000 == SCALE);
    crate::fixed::laws::lemma_below_root(0x1_0000_0000, r, sum);
    assert(sum >= 0) by (nonlinear_arith)
        requires
            sum == v.x@ * v.x@ + v.y@ * v.y@ + v.z@ * v.z@,
    ;
    vstd::arithmetic::div_mod::lemma_fundamental_div_mod(sum, SCALE as int);
    let q = sum / (SCALE as int);
    assert(q < SCALE);
    assert(sum < SCALE * SCALE) by (nonlinear_arith)
        requires
            sum == SCALE * q + sum % (SCALE as int),
            sum % (SCALE as int) < SCALE,
            q + 1 <= SCALE,
    ;
    if r >= SCALE {
        assert(r * r >= SCALE * SCALE) by (nonlinear_arith)
            requires
                r >= SCALE,
        ;
    }
}

/// A random vector inside the unit ball, by rejection from the cube. After
/// `SAMPLING_TRIES` rejected draws the fallback point is returned.
pub fn random_in_unit_sphere() -> (r: Vec3)
    ensures
        is_ball_sample(r),
{
    let mut tries: u32 = 0;
    while tries < SAMPLING_TRIES
        invariant
            tries <= SAMPLING_TRIES,
        decreases SAMPLING_TRIES - tries,
    {
        let v = Vec3::random(Fixed::from_int(-1), Fixed::from_int(1));
        if inside_unit_ball(&v) {
            return v;
        }
        tries = tries + 1;
    }
    fallback_sample()
}

/// A random direction: a draw from the unit ball, normalized. It has length
/// one to within a billionth; none of its components lies beyond one, and
/// the largest is one half or more.
pub fn random_in_unit_sphere_normalized() -> (r: Vec3)
    ensures
        is_unit_sample(r),
        is_nearly_unit(r),
        r.within_unit_cube(),
        r.has_direction(),
{
    let v = random_in_unit_sphere();
    let unit = v.normalize();
    proof {
        lemma_unit_sample_bounded(unit);
    }
    unit
}

/// A random vector inside the unit disk of the plane `z = 0`, by rejection
/// from the square. After `SAMPLING_TRIES` rejected draws the fallback point
/// is returned.
pub fn random_in_unit_disk() -> (r: Vec3)
    ensures
        is_disk_sample(r),
{
    let mut tries: u32 = 0;
    while tries < SAMPLING_TRIES
        invariant
            tries <= SAMPLING_TRIES,
        decreases SAMPLING_TRIES - tries,
    {
        let v = Vec3::new(
            random_fixed(Fixed::from_int(-1), Fixed::from_int(1)),
            random_fixed(Fixed::from_int(-1), Fixed::from_int(1)),
            Fixed::zero(),
        );
        if inside_unit_ball(&v) {
            return v;
        }
        tries = tries + 1;
    }
    fallback_sample()
}

pub open spec fn linear_to_gamma_spec(value: Fixed) -> Fixed {
    if value@ > 0 {
        value.sqrt_spec()
    } else {
        Fixed::zero()
    }
}

/// Gamma-encodes a linear channel value with gamma 2: the square root of a
/// positive value, zero otherwise.
pub fn linear_to_gamma_color(value: Fixed) -> (r: Fixed)
    ensures
        r == linear_to_gamma_spec(value),
{
    if value > Fixed::zero() {
        value.sqrt()
    } else {
        Fixed::zero()
    }
}

/// The mirror image of `vec` about a surface with the given normal:
/// `vec - 2 (vec . normal) normal`.
pub open spec fn reflect_spec(vec: Vec3, normal: Vec3) -> Vec3 {
    vec.spec_sub(normal.spec_scale(Fixed::spec_from_int(2).spec_mul(Vec3::dot_spec(vec, normal))))
}

/// Mirrors `vec` about a surface with the given normal.
pub fn reflect_vector(vec: &Vec3, normal: &Vec3) -> (r: Vec3)
    ensures
        r == reflect_spec(*vec, *normal),
{
    *vec - (Fixed::from_int(2) * Vec3::dot(vec, normal)) * *normal
}

/// The cosine of the angle between `-vec` and `normal`, capped at one.
pub open spec fn cos_theta_spec(vec: Vec3, normal: Vec3) -> Fixed {
    Vec3::dot_spec(vec.spec_neg(), normal).min_spec(Fixed::one())
}

/// The part of the refracted direction that is perpendicular to the normal.
pub open spec fn refract_perp_spec(vec: Vec3, normal: Vec3, refraction_ratio: Fixed) -> Vec3 {
    vec.spec_add(normal.spec_scale(cos_theta_spec(vec, normal))).spec_scale(refraction_ratio)
}

/// The direction of `vec` after it crosses a surface by Snell's law: the
/// perpendicular part, plus the normal scaled by
/// `-sqrt(|1 - |perp|^2|)`.
pub open spec fn refract_spec(vec: Vec3, normal: Vec3, refraction_ratio: Fixed) -> Vec3 {
    let perp = refract_perp_spec(vec, normal, refraction_ratio);
    let along = Fixed::one().spec_sub(perp.length_squared_spec()).abs_spec().sqrt_spec();
    perp.spec_add(normal.spec_scale(along.spec_neg()))
}

/// A ray that enters glass head on and leaves it head on has its direction
/// again: refraction by one over the index and then by the index restores
/// the opposite of a normal that is at least one long.
pub proof fn lemma_round_trip_head_on(normal: Vec3, refraction_index: Fixed)
    requires
        normal.in_range(),
        normal.length_squared_spec()@ >= SCALE,
    ensures
        refract_spec(
            refract_spec(normal.spec_neg(), normal, Fixed::one().spec_div(refraction_index)),
            normal,
            refraction_index,
        ) == normal.spec_neg(),
{
    lemma_refract_head_on(normal, Fixed::one().spec_div(refraction_index));
    lemma_refract_head_on(normal, refraction_index);
}

/// A ray that meets a surface head on passes straight through, whatever the
/// refractive indices: where `vec` is the opposite of a normal that is at
/// least one long, refraction leaves it as it is.
pub proof fn lemma_refract_head_on(normal: Vec3, refraction_ratio: Fixed)
    requires
        normal.in_range(),
        normal.length_squared_spec()@ >= SCALE,
    ensures
        refract_spec(normal.spec_neg(), normal, refraction_ratio) == normal.spec_neg(),
{
    let vec = normal.spec_neg();
    Fixed::lemma_neg_exact(normal.x);
    Fixed::lemma_neg_exact(normal.y);
    Fixed::lemma_neg_exact(normal.z);
    Fixed::lemma_neg_exact(vec.x);
    Fixed::lemma_neg_exact(vec.y);
    Fixed::lemma_neg_exact(vec.z);
    assert(vec.spec_neg() == normal);
    let cos_theta = cos_theta_spec(vec, normal);
    assert(cos_theta == Fixed::one());
    Fixed::lemma_mul_one(normal.x);
    Fixed::lemma_mul_one(normal.y);
    Fixed::lemma_mul_one(normal.z);
    assert(vec.spec_add(normal.spec_scale(cos_theta)) == Vec3::zero());
    Fixed::lemma_zero_mul(refraction_ratio);
    let perp = refract_perp_spec(vec, normal, refraction_ratio);
    assert(perp == Vec3::zero());
    assert(0int * 0int + 0int * 0int + 0int * 0int == 0);
    assert(perp.length_squared_spec() == Fixed::zero());
    Fixed::lemma_sqrt_one();
    let along = Fixed::one().spec_sub(perp.length_squared_spec()).abs_spec().sqrt_spec();
    assert(along == Fixed::one());
    Fixed::lemma_mul_minus_one(normal.x);
    Fixed::lemma_mul_minus_one(normal.y);
    Fixed::lemma_mul_minus_one(normal.z);
}

/// Bends the unit vector `vec` as it crosses a surface with the given
/// normal, by Snell's law.
pub fn refract_vector(vec: &Vec3, normal: &Vec3, refraction_ratio: Fixed) -> (r: Vec3)
    ensures
        r == refract_spec(*vec, *normal, refraction_ratio),
{
    let cos_theta = Vec3::dot(&vec.neg(), normal).min(Fixed::one());
    let ref_vec_perp = refraction_ratio * (*vec + cos_theta * *normal);
    let along = (Fixed::one() - ref_vec_perp.length_squared()).abs().sqrt();
    let ref_vec_para = along.neg() * *normal;
    ref_vec_perp + ref_vec_para
}

/// The reflectance of a surface that is met head on:
/// `((1 - n) / (1 + n))^2`.
pub open spec fn head_on_reflectance(refraction_index: Fixed) -> Fixed {
    let one = Fixed::one();
    one.spec_sub(refraction_index).spec_div(one.spec_add(refraction_index)).powi_spec(2)
}

/// Schlick's approximation of the reflectance at the given cosine:
/// `r0 + (1 - r0) (1 - cosine)^5` with `r0` the reflectance head on.
pub open spec fn reflectance_spec(cosine: Fixed, refraction_index: Fixed) -> Fixed {
    let one = Fixed::one();
    let r0 = head_on_reflectance(refraction_index);
    r0.spec_add(one.spec_sub(r0).spec_mul(one.spec_sub(cosine).powi_spec(5)))
}

/// For a refractive index that is not negative the reflectance head on is
/// a fraction: it lies between zero and one.
pub proof fn lemma_head_on_reflectance_is_fraction(refraction_index: Fixed)
    requires
        0 <= refraction_index@,
        refraction_index.in_range(),
    ensures
        head_on_reflectance(refraction_index).is_fraction(),
{
    let one = Fixed::one();
    let above = one.spec_add(refraction_index);
    let below = one.spec_sub(refraction_index);
    let ratio = below.spec_div(above);
    Fixed::lemma_div_by_larger(below, above);
    Fixed::lemma_powi_two(ratio);
    Fixed::lemma_square_of_small(ratio);
}

/// The reflectance head on is the square of `(1 - n) / (1 + n)` to within
/// three steps of the numbers, and never above it: with `N` and `D` the raw
/// values of `1 - n` and `1 + n`, it lies in `(N^2 / D^2 - 3 / 2^64,
/// N^2 / D^2]`.
pub proof fn lemma_head_on_reflectance_close(refraction_index: Fixed)
    requires
        0 <= refraction_index@ <= crate::fixed::RAW_MAX - SCALE,
    ensures
        ({
            let below = SCALE - refraction_index@;
            let above = SCALE + refraction_index@;
            let r0 = head_on_reflectance(refraction_index)@;
            r0 * (above * above) <= SCALE * (below * below) < (r0 + 3) * (above * above)
        }),
{
    let one = Fixed::one();
    let scale = SCALE as int;
    let below = scale - refraction_index@;
    let above = scale + refraction_index@;
    let ratio = one.spec_sub(refraction_index).spec_div(one.spec_add(refraction_index));
    Fixed::lemma_div_by_larger(one.spec_sub(refraction_index), one.spec_add(refraction_index));
    Fixed::lemma_powi_two(ratio);
    let m = crate::fixed::magnitude(below);
    assert(crate::fixed::magnitude(below * scale) == m * scale) by (nonlinear_arith)
        requires
            m == crate::fixed::magnitude(below),
            scale > 0,
    ;
    let k = (m * scale) / above;
    assert(m * scale >= 0) by (nonlinear_arith)
        requires
            m >= 0,
            scale > 0,
    ;
    vstd::arithmetic::div_mod::lemma_fundamental_div_mod(m * scale, above);
    vstd::arithmetic::div_mod::lemma_div_pos_is_pos(m * scale, above);
    let rest = (m * scale) % above;
    assert(crate::fixed::magnitude(ratio@) == k);
    assert(ratio@ * ratio@ == k * k) by (nonlinear_arith)
        requires
            crate::fixed::magnitude(ratio@) == k,
    ;
    assert(k * k >= 0) by (nonlinear_arith);
    let r0 = (k * k) / scale;
    vstd::arithmetic::div_mod::lemma_fundamental_div_mod(k * k, scale);
    vstd::arithmetic::div_mod::lemma_div_pos_is_pos(k * k, scale);
    let left = (k * k) % scale;
    Fixed::lemma_square_of_small(ratio);
    assert(head_on_reflectance(refraction_index)@ == r0);
    assert(below * below == m * m) by (nonlinear_arith)
        requires
            m == crate::fixed::magnitude(below),
    ;
    let square = above * above;
    // never above: r0 S <= k^2 and k D <= m S
    assert(k * above <= m * scale) by (nonlinear_arith)
        requires
            m * scale == above * k + rest,
            rest >= 0,
    ;
    assert((k * above) * (k * above) <= (m * scale) * (m * scale)) by (nonlinear_arith)
        requires
            0 <= k * above <= m * scale,
    ;
    assert(0 <= k * above) by (nonlinear_arith)
        requires
            k >= 0,
            above > 0,
    ;
    assert((k * above) * (k * above) == (k * k) * square) by (nonlinear_arith)
        requires
            square == above * above,
    ;
    assert((m * scale) * (m * scale) == (scale * (m * m)) * scale) by (nonlinear_arith);
    assert(r0 * scale <= k * k);
    assert(square >= 0) by (nonlinear_arith)
        requires
            square == above * above,
    ;
    assert((r0 * scale) * square <= (k * k) * square) by (nonlinear_arith)
        requires
            r0 * scale <= k * k,
            square >= 0,
    ;
    assert((r0 * square) * scale == (r0 * scale) * square) by (nonlinear_arith);
    assert(r0 * square <= scale * (m * m)) by (nonlinear_arith)
        requires
            (r0 * square) * scale <= (scale * (m * m)) * scale,
            scale > 0,
    ;
    // within three steps: m S < (k + 1) D and k^2 < r0 S + S and k <= S
    assert(m * scale < (k + 1) * above) by (nonlinear_arith)
        requires
            m * scale == above * k + rest,
            rest < above,
    ;
    assert((m * scale) * (m * scale) < ((k + 1) * above) * ((k + 1) * above)) by (nonlinear_arith)
        requires
            0 <= m * scale < (k + 1) * above,
    ;
    assert(((k + 1) * above) * ((k + 1) * above) == (k * k + 2 * k + 1) * square)
        by (nonlinear_arith)
        requires
            square == above * above,
    ;
    assert(k <= scale);
    assert(k * k + 2 * k + 1 <= (r0 + 3) * scale) by (nonlinear_arith)
        requires
            k * k == scale * r0 + left,
            left < scale,
            k <= scale,
    ;
    assert((k * k + 2 * k + 1) * square <= ((r0 + 3) * scale) * square) by (nonlinear_arith)
        requires
            k * k + 2 * k + 1 <= (r0 + 3) * scale,
            square >= 0,
    ;
    assert(((r0 + 3) * scale) * square == ((r0 + 3) * square) * scale) by (nonlinear_arith);
    assert(scale * (m * m) < (r0 + 3) * square) by (nonlinear_arith)
        requires
            (scale * (m * m)) * scale < ((r0 + 3) * square) * scale,
            scale > 0,
    ;
}

/// Met head on, a surface reflects its head-on share: at cosine one the
/// approximation is `r0` itself.
pub proof fn lemma_reflectance_head_on(refraction_index: Fixed)
    ensures
        reflectance_spec(Fixed::one(), refraction_index) == head_on_reflectance(refraction_index),
{
    let one = Fixed::one();
    let r0 = head_on_reflectance(refraction_index);
    assert(one.spec_sub(one) == Fixed::zero());
    Fixed::lemma_powi_of_zero(5);
    Fixed::lemma_mul_zero(one.spec_sub(r0));
    assert(r0.powi_spec(0) == one);
    let ratio = one.spec_sub(refraction_index).spec_div(one.spec_add(refraction_index));
    assert(r0 == ratio.powi_spec(1).spec_mul(ratio));
    assert(r0.in_range());
}

/// Grazed, a surface reflects everything: at cosine zero the approximation
/// is one, for every refractive index that is not negative.
pub proof fn lemma_reflectance_grazing(refraction_index: Fixed)
    requires
        0 <= refraction_index@,
        refraction_index.in_range(),
    ensures
        reflectance_spec(Fixed::zero(), refraction_index) == Fixed::one(),
{
    let one = Fixed::one();
    let r0 = head_on_reflectance(refraction_index);
    lemma_head_on_reflectance_is_fraction(refraction_index);
    assert(one.spec_sub(Fixed::zero()) == one);
    Fixed::lemma_powi_of_one(5);
    Fixed::lemma_mul_one(one.spec_sub(r0));
}

/// For cosines between zero and one the reflectance lies between the
/// head-on share and one.
pub proof fn lemma_reflectance_bounds(cosine: Fixed, refraction_index: Fixed)
    requires
        cosine.is_fraction(),
        0 <= refraction_index@,
        refraction_index.in_range(),
    ensures
        head_on_reflectance(refraction_index)@ <= reflectance_spec(cosine, refraction_index)@
            <= SCALE,
{
    let one = Fixed::one();
    let r0 = head_on_reflectance(refraction_index);
    lemma_head_on_reflectance_is_fraction(refraction_index);
    let rest = one.spec_sub(r0);
    let away = one.spec_sub(cosine);
    lemma_powi_of_fraction(away, 5);
    Fixed::lemma_mul_by_fraction(rest, away.powi_spec(5));
}

/// Every power of a fraction is a fraction.
pub proof fn lemma_powi_of_fraction(a: Fixed, n: u32)
    requires
        a.is_fraction(),
    ensures
        a.powi_spec(n).is_fraction(),
    decreases n,
{
    if n > 0 {
        lemma_powi_of_fraction(a, (n - 1) as u32);
        Fixed::lemma_mul_by_fraction(a.powi_spec((n - 1) as u32), a);
    }
}

/// The share of light that a transparent surface reflects, by Schlick's
/// approximation. Met head on the surface reflects its head-on share, and
/// for cosines between zero and one never less, and never more than all.
pub fn reflectance(cosine: Fixed, refraction_index: Fixed) -> (r: Fixed)
    ensures
        r == reflectance_spec(cosine, refraction_index),
        cosine == Fixed::one() ==> r == head_on_reflectance(refraction_index),
        cosine.is_fraction() && 0 <= refraction_index@ ==> head_on_reflectance(
            refraction_index,
        )@ <= r@ <= SCALE,
        cosine@ == 0 && 0 <= refraction_index@ ==> r == Fixed::one(),
{
    proof {
        use_type_invariant(&refraction_index);
        lemma_reflectance_head_on(refraction_index);
        if 0 <= refraction_index@ {
            if cosine.is_fraction() {
                lemma_reflectance_bounds(cosine, refraction_index);
            }
            if cosine@ == 0 {
                lemma_reflectance_grazing(refraction_index);
            }
        }
    }
    let one = Fixed::one();
    let r0 = ((one - refraction_index) / (one + refraction_index)).powi(2);
    r0 + (one - r0) * (one - cosine).powi(5)
}

/// A pixel of the output: red, green and blue from 0 to 255.
#[derive(Copy, Clone, Debug, PartialEq, Eq, Structural)]
pub struct Rgb {
    pub r: u8,
    pub g: u8,
    pub b: u8,
}

/// The output value of a linear channel value: gamma-encoded, capped just
/// below one, and scaled to 256 levels.
pub open spec fn channel_byte_spec(value: Fixed) -> int {
    linear_to_gamma_spec(value).min_spec(Fixed::of(SCALE - 1))@ * 256 / (SCALE as int)
}

/// Encodes a linear channel value for output. Nothing at or below zero
/// shows, and everything from one up shows at the top level.
pub fn channel_byte(value: Fixed) -> (r: u8)
    ensures
        r == channel_byte_spec(value),
        value@ <= 0 ==> r == 0,
        value@ >= SCALE ==> r == 255,
{
    let gamma = linear_to_gamma_color(value);
    let cap = Fixed::from_raw(SCALE - 1);
    let capped = gamma.min(cap);
    let level: i128 = capped.raw();
    proof {
        use_type_invariant(&value);
        Fixed::lemma_sqrt_nonnegative(value);
        Fixed::lemma_sqrt_of_one_or_more(value);
        assert(cap@ == SCALE - 1);
        assert(gamma@ >= 0);
        assert(0 <= level <= SCALE - 1);
        assert(level == linear_to_gamma_spec(value).min_spec(Fixed::of(SCALE - 1))@);
        if value@ <= 0 {
            assert(gamma@ == 0);
            assert(level == 0);
        }
        if value@ >= SCALE {
            assert(gamma@ >= SCALE);
            assert(level == SCALE - 1);
        }
    }
    let scaled: u128 = (level as u128) * 256;
    let byte: u128 = scaled / (SCALE as u128);
    proof {
        assert(scaled == level * 256);
        assert(scaled <= 0xFFFF_FFFF_FFFF_FFFF * 256);
        assert(byte <= 255);
        assert(byte == level * 256 / (SCALE as int));
        if level == 0 {
            assert(byte == 0);
        }
        if level == SCALE - 1 {
            assert(scaled == 0xFF_FFFF_FFFF_FFFF_FF00);
            assert(byte == 255);
        }
    }
    byte as u8
}

/// Black is written as three zeros.
pub proof fn lemma_black_encodes_to_zero()
    ensures
        color_to_rgb_spec(Color3::black()) == (Rgb { r: 0, g: 0, b: 0 }),
{
    assert(linear_to_gamma_spec(Fixed::zero()) == Fixed::zero());
    assert(channel_byte_spec(Fixed::zero()) == 0);
}

pub open spec fn color_to_rgb_spec(color: Color3) -> Rgb {
    Rgb {
        r: channel_byte_spec(color.x) as u8,
        g: channel_byte_spec(color.y) as u8,
        b: channel_byte_spec(color.z) as u8,
    }
}

/// Encodes a linear color for output, channel by channel.
pub fn color_to_rgb(color: &Color3) -> (r: Rgb)
    ensures
        r == color_to_rgb_spec(*color),
{
    Rgb { r: channel_byte(color.x), g: channel_byte(color.y), b: channel_byte(color.z) }
}

} // verus!
