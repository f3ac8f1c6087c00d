//! Laws of fixed-point arithmetic that the rest of the library builds on.

use super::{floor_sqrt, lemma_floor_sqrt_exists, lemma_floor_sqrt_unique, magnitude, quot, Fixed, SCALE};
use vstd::prelude::*;

verus! {

/// Rounding toward zero keeps the order of dividends over a positive
/// divisor.
pub proof fn lemma_quot_monotone(x: int, y: int, d: int)
    requires
        x <= y,
        0 < d,
    ensures
        quot(x, d) <= quot(y, d),
{
    if x >= 0 {
        vstd::arithmetic::div_mod::lemma_div_is_ordered(x, y, d);
    } else if y >= 0 {
        vstd::arithmetic::div_mod::lemma_div_pos_is_pos(-x, d);
        vstd::arithmetic::div_mod::lemma_div_pos_is_pos(y, d);
    } else {
        vstd::arithmetic::div_mod::lemma_div_is_ordered(-y, -x, d);
    }
}

/// Rounding toward zero commutes with negating the dividend.
pub proof fn lemma_quot_negated(x: int, d: int)
    ensures
        quot(-x, d) == -quot(x, d),
{
    if d != 0 && x == 0 {
        assert(0int / magnitude(d) == 0) by (nonlinear_arith)
            requires
                magnitude(d) > 0,
        ;
    }
}

/// How well a rounded root of a quadratic solves it. For `a t^2 - 2 h t + c`
/// with raw coefficients `a > 0`, `h` and `c`, the rounded discriminant
/// `d = (h^2 - a c) / S`, its rounded root `s` and the rounded solution
/// `t = (h + e) S / a`, where `e` is `s` or `-s`, the value of the quadratic at
/// `t`, times `a` and in raw units of the fourth order, is `(a t - h S)^2 -
/// (h^2 - a c) S^2`, and lies within the bounds that the three roundings
/// leave: above `-(S^2 (2 s + 1) + 2 s S a + S^3)` and at most `2 s S a +
/// a^2 + S^3`.
pub proof fn lemma_rounded_root_solves(a: int, h: int, c: int, d: int, s: int, e: int, t: int)
    requires
        0 < a,
        0 <= d,
        d == quot(h * h - a * c, SCALE as int),
        0 <= s,
        s * s <= d * SCALE < (s + 1) * (s + 1),
        e == s || e == -s,
        t == quot((h + e) * SCALE, a),
    ensures
        ({
            let scale = SCALE as int;
            let value = a * (a * t * t - 2 * h * t * scale + c * (scale * scale));
            &&& value == (a * t - h * scale) * (a * t - h * scale) - (h * h - a * c) * (scale
                * scale)
            &&& -(scale * scale * (2 * s + 1) + 2 * s * scale * a + scale * scale * scale) < value
            &&& value <= 2 * s * scale * a + a * a + scale * scale * scale
        }),
{
    let scale = SCALE as int;
    let exact = h * h - a * c;
    lemma_quot_remainder(exact, scale);
    let rem = exact - d * scale;
    assert(exact == scale * d + rem) by (nonlinear_arith)
        requires
            rem == exact - d * scale,
    ;
    assert(-scale < rem < scale);
    lemma_quot_remainder((h + e) * scale, a);
    let rho = (h + e) * scale - t * a;
    assert(magnitude(rho) < a);
    let u = a * t - h * scale;
    assert(u == e * scale - rho) by (nonlinear_arith)
        requires
            u == a * t - h * scale,
            rho == (h + e) * scale - t * a,
    ;
    let ss = scale * scale;
    let value = a * (a * t * t - 2 * h * t * scale + c * ss);
    let at = a * t;
    let hs = h * scale;
    assert(value == a * (a * t * t) - 2 * (a * (h * t * scale)) + a * (c * ss))
        by (nonlinear_arith)
        requires
            value == a * (a * t * t - 2 * h * t * scale + c * ss),
    ;
    assert(u * u == at * at - 2 * (at * hs) + hs * hs) by (nonlinear_arith)
        requires
            u == at - hs,
    ;
    assert(at * at == a * (a * t * t)) by (nonlinear_arith)
        requires
            at == a * t,
    ;
    assert(at * hs == a * (h * t * scale)) by (nonlinear_arith)
        requires
            at == a * t,
            hs == h * scale,
    ;
    assert(hs * hs == (h * h) * ss) by (nonlinear_arith)
        requires
            hs == h * scale,
            ss == scale * scale,
    ;
    assert(exact * ss == (h * h) * ss - a * (c * ss)) by (nonlinear_arith)
        requires
            exact == h * h - a * c,
    ;
    assert(value == u * u - exact * ss);
    let es = e * scale;
    assert(u * u == es * es - 2 * es * rho + rho * rho) by (nonlinear_arith)
        requires
            u == es - rho,
    ;
    assert(es * es == (s * s) * ss) by (nonlinear_arith)
        requires
            es == e * scale,
            e == s || e == -s,
            ss == scale * scale,
    ;
    assert(exact * ss == (d * scale) * ss + rem * ss) by (nonlinear_arith)
        requires
            exact == scale * d + rem,
    ;
    let gap = s * s - d * scale;
    assert(-(2 * s + 1) < gap <= 0) by (nonlinear_arith)
        requires
            gap == s * s - d * scale,
            s * s <= d * scale,
            d * scale < (s + 1) * (s + 1),
    ;
    assert((s * s) * ss - (d * scale) * ss == gap * ss) by (nonlinear_arith)
        requires
            gap == s * s - d * scale,
    ;
    assert(-(2 * s + 1) * ss < gap * ss <= 0) by (nonlinear_arith)
        requires
            -(2 * s + 1) < gap <= 0,
            ss == scale * scale,
            scale > 0,
    ;
    let middle = 2 * es * rho;
    assert(magnitude(middle) <= 2 * s * scale * a) by (nonlinear_arith)
        requires
            middle == 2 * es * rho,
            es == e * scale,
            e == s || e == -s,
            magnitude(rho) < a,
            s >= 0,
            scale > 0,
    ;
    assert(0 <= rho * rho <= a * a) by (nonlinear_arith)
        requires
            magnitude(rho) < a,
    ;
    assert(-(scale * ss) < rem * ss < scale * ss) by (nonlinear_arith)
        requires
            -scale < rem < scale,
            ss == scale * scale,
            scale > 0,
    ;
    assert(value == gap * ss - middle + rho * rho - rem * ss);
    assert(scale * scale * scale == scale * ss) by (nonlinear_arith)
        requires
            ss == scale * scale,
    ;
    assert(scale * scale * (2 * s + 1) == (2 * s + 1) * ss) by (nonlinear_arith)
        requires
            ss == scale * scale,
    ;
}

/// Rounding toward zero leaves a remainder that is smaller than the divisor.
pub proof fn lemma_quot_remainder(a: int, b: int)
    requires
        b != 0,
    ensures
        magnitude(a - quot(a, b) * b) < magnitude(b),
{
    let m = magnitude(a);
    let d = magnitude(b);
    let k = m / d;
    vstd::arithmetic::div_mod::lemma_fundamental_div_mod(m, d);
    let r = m % d;
    assert(0 <= r < d);
    assert(m == d * k + r);
    if (a < 0) == (b < 0) {
        assert(quot(a, b) == k);
        if a < 0 {
            assert(k * b == -(d * k)) by (nonlinear_arith)
                requires
                    b == -d,
            ;
        } else {
            assert(k * b == d * k) by (nonlinear_arith)
                requires
                    b == d,
            ;
        }
    } else {
        assert(quot(a, b) == -k);
        if a < 0 {
            assert((-k) * b == -(d * k)) by (nonlinear_arith)
                requires
                    b == d,
            ;
        } else {
            assert((-k) * b == d * k) by (nonlinear_arith)
                requires
                    b == -d,
            ;
        }
    }
}

impl Fixed {
    /// Dividing and multiplying back comes close: where no result is
    /// clamped, `(n / d) * d` differs from `n` by at most `|d|` steps plus
    /// one, in raw units by `|d| / 2^64 + 1`.
    pub proof fn lemma_div_mul_back(n: Fixed, d: Fixed)
        requires
            n.in_range(),
            d.in_range(),
            d@ != 0,
            !n.spec_div(d).is_clamped_spec(),
        ensures
            magnitude(d.spec_mul(n.spec_div(d))@ - n@) <= magnitude(d@) / (SCALE as int) + 1,
    {
        broadcast use Fixed::lemma_of_view;

        let scale = SCALE as int;
        let t = quot(n@ * scale, d@);
        assert(n.spec_div(d)@ == t);
        lemma_quot_remainder(n@ * scale, d@);
        let first = n@ * scale - t * d@;
        let e = quot(d@ * t, scale);
        lemma_quot_remainder(d@ * t, scale);
        let second = d@ * t - e * scale;
        assert(d@ * t == t * d@) by (nonlinear_arith);
        assert((e - n@) * scale == -(first + second)) by (nonlinear_arith)
            requires
                first == n@ * scale - t * d@,
                second == t * d@ - e * scale,
        ;
        let gap = magnitude(e - n@);
        assert(gap * scale == magnitude((e - n@) * scale)) by (nonlinear_arith)
            requires
                gap == magnitude(e - n@),
                scale > 0,
        ;
        let bound = magnitude(d@) / scale;
        vstd::arithmetic::div_mod::lemma_fundamental_div_mod(magnitude(d@), scale);
        assert(gap <= bound + 1) by (nonlinear_arith)
            requires
                gap * scale < magnitude(d@) + scale,
                magnitude(d@) == scale * bound + magnitude(d@) % scale,
                magnitude(d@) % scale < scale,
                scale > 0,
        ;
    }

    /// Dividing by a positive number keeps the order.
    pub proof fn lemma_div_monotone(a: Fixed, b: Fixed, d: Fixed)
        requires
            a@ <= b@,
            0 < d@,
        ensures
            a.spec_div(d)@ <= b.spec_div(d)@,
    {
        broadcast use Fixed::lemma_of_view;

        assert(a@ * SCALE <= b@ * SCALE) by (nonlinear_arith)
            requires
                a@ <= b@,
        ;
        lemma_quot_monotone(a@ * SCALE, b@ * SCALE, d@);
    }

    /// A square root is never negative.
    pub proof fn lemma_sqrt_nonnegative(a: Fixed)
        ensures
            0 <= a.sqrt_spec()@,
    {
        broadcast use Fixed::lemma_of_view;

        if a@ * SCALE >= 0 {
            lemma_floor_sqrt_exists(a@ * SCALE);
        }
    }

    /// Negating a value in range is exact.
    pub proof fn lemma_neg_exact(a: Fixed)
        requires
            a.in_range(),
        ensures
            a.spec_neg()@ == -a@,
            a.spec_neg().in_range(),
    {
        broadcast use Fixed::lemma_of_view;

    }

    /// Negating one factor of a scalar product negates the product.
    pub proof fn lemma_dot3_negated(a: (Fixed, Fixed, Fixed), b: (Fixed, Fixed, Fixed))
        requires
            b.0.in_range(),
            b.1.in_range(),
            b.2.in_range(),
        ensures
            Fixed::dot3_spec(a, (b.0.spec_neg(), b.1.spec_neg(), b.2.spec_neg()))@
                == -Fixed::dot3_spec(a, b)@,
    {
        broadcast use Fixed::lemma_of_view;

        Fixed::lemma_neg_exact(b.0);
        Fixed::lemma_neg_exact(b.1);
        Fixed::lemma_neg_exact(b.2);
        let sum = a.0@ * b.0@ + a.1@ * b.1@ + a.2@ * b.2@;
        assert(a.0@ * (-b.0@) + a.1@ * (-b.1@) + a.2@ * (-b.2@) == -sum) by (nonlinear_arith)
            requires
                sum == a.0@ * b.0@ + a.1@ * b.1@ + a.2@ * b.2@,
        ;
        lemma_quot_negated(sum, SCALE as int);
    }

    /// Multiplying a value in range by one leaves it as it is.
    pub proof fn lemma_mul_one(a: Fixed)
        requires
            a.in_range(),
        ensures
            a.spec_mul(Fixed::one()) == a,
    {
        broadcast use {Fixed::lemma_of_view, Fixed::lemma_view_of};

        let m = magnitude(a@);
        vstd::arithmetic::div_mod::lemma_div_multiples_vanish(m, SCALE as int);
        assert(magnitude(a@ * SCALE) == m * SCALE) by (nonlinear_arith)
            requires
                m == magnitude(a@),
        ;
        assert((a@ * SCALE < 0) == (a@ < 0)) by (nonlinear_arith);
    }

    /// Multiplying by zero gives zero.
    pub proof fn lemma_mul_zero(a: Fixed)
        ensures
            a.spec_mul(Fixed::zero()) == Fixed::zero(),
    {
        broadcast use {Fixed::lemma_of_view, Fixed::lemma_view_of};

        assert(a@ * 0 == 0);
    }

    /// Dividing a value in range by one leaves it as it is.
    pub proof fn lemma_div_one(a: Fixed)
        requires
            a.in_range(),
        ensures
            a.spec_div(Fixed::one()) == a,
    {
        broadcast use {Fixed::lemma_of_view, Fixed::lemma_view_of};

        let m = magnitude(a@);
        vstd::arithmetic::div_mod::lemma_div_multiples_vanish(m, SCALE as int);
        assert(magnitude(a@ * SCALE) == m * SCALE) by (nonlinear_arith)
            requires
                m == magnitude(a@),
        ;
        assert((a@ * SCALE < 0) == (a@ < 0)) by (nonlinear_arith);
    }

    /// One half is half of one.
    pub proof fn lemma_one_half()
        ensures
            Fixed::spec_from_ratio(1, 2)@ == SCALE / 2,
    {
        broadcast use Fixed::lemma_of_view;

        assert(Fixed::spec_from_int(1)@ == SCALE);
        assert(Fixed::spec_from_int(2)@ == 2 * SCALE);
        assert((SCALE as int) * (SCALE as int) == 0x1_0000_0000_0000_0000_0000_0000_0000_0000)
            by (nonlinear_arith);
        assert(0x1_0000_0000_0000_0000_0000_0000_0000_0000int / 0x2_0000_0000_0000_0000
            == 0x8000_0000_0000_0000) by (nonlinear_arith);
    }

    /// A vector along one axis has the magnitude of its one component as
    /// its length.
    pub proof fn lemma_norm3_of_axis(a: Fixed)
        requires
            a.in_range(),
        ensures
            Fixed::norm3_spec((Fixed::zero(), a, Fixed::zero()))@ == magnitude(a@),
            Fixed::norm3_spec((a, Fixed::zero(), Fixed::zero()))@ == magnitude(a@),
            Fixed::norm3_spec((Fixed::zero(), Fixed::zero(), a))@ == magnitude(a@),
    {
        broadcast use Fixed::lemma_of_view;

        let m = magnitude(a@);
        assert(a@ * a@ == m * m) by (nonlinear_arith)
            requires
                m == magnitude(a@),
        ;
        assert((m + 1) * (m + 1) > m * m) by (nonlinear_arith)
            requires
                m >= 0,
        ;
        lemma_floor_sqrt_unique(m * m, m);
        let zero = Fixed::zero()@;
        assert(zero * zero == 0);
        assert(zero * zero + a@ * a@ + zero * zero == m * m);
        assert(a@ * a@ + zero * zero + zero * zero == m * m);
        assert(zero * zero + zero * zero + a@ * a@ == m * m);
    }

    /// A positive value divided by itself is one.
    pub proof fn lemma_div_self(a: Fixed)
        requires
            0 < a@,
        ensures
            a.spec_div(a) == Fixed::one(),
    {
        broadcast use Fixed::lemma_of_view;

        vstd::arithmetic::div_mod::lemma_div_multiples_vanish(SCALE as int, a@);
        assert(a@ * SCALE == a@ * (SCALE as int));
        assert(a@ * SCALE > 0) by (nonlinear_arith)
            requires
                a@ > 0,
        ;
    }

    /// The product of a value with itself is never negative.
    pub proof fn lemma_square_nonnegative(a: Fixed)
        ensures
            0 <= a.spec_mul(a)@,
    {
        broadcast use Fixed::lemma_of_view;

        assert(a@ * a@ >= 0) by (nonlinear_arith);
        vstd::arithmetic::div_mod::lemma_div_pos_is_pos(a@ * a@, SCALE as int);
    }

    /// `a a - a c` is never negative where `a` is not negative and `c` is
    /// not above `a`.
    pub proof fn lemma_cross_term_nonnegative(a: Fixed, c: Fixed)
        requires
            0 <= a@,
            c@ <= a@,
        ensures
            0 <= Fixed::cross_term_spec(a, a, a, c)@,
    {
        broadcast use Fixed::lemma_of_view;

        let n = a@ * a@ - a@ * c@;
        assert(n >= 0) by (nonlinear_arith)
            requires
                n == a@ * a@ - a@ * c@,
                0 <= a@,
                c@ <= a@,
        ;
        vstd::arithmetic::div_mod::lemma_div_pos_is_pos(n, SCALE as int);
    }

    /// The square root of a value that is at least one is at least one.
    pub proof fn lemma_sqrt_of_one_or_more(a: Fixed)
        requires
            a.in_range(),
        ensures
            a@ >= SCALE ==> a.sqrt_spec()@ >= SCALE,
    {
        broadcast use Fixed::lemma_of_view;

        if a@ >= SCALE {
            let n = a@ * SCALE;
            assert(SCALE * SCALE <= n) by (nonlinear_arith)
                requires
                    n == a@ * SCALE,
                    a@ >= SCALE,
            ;
            lemma_floor_sqrt_exists(n);
            lemma_below_root(SCALE as int, floor_sqrt(n), n);
        }
    }

    /// Zero times anything is zero.
    pub proof fn lemma_zero_mul(a: Fixed)
        ensures
            Fixed::zero().spec_mul(a) == Fixed::zero(),
    {
        broadcast use {Fixed::lemma_of_view, Fixed::lemma_view_of};

        assert(0 * a@ == 0);
    }

    /// Multiplying a value in range by minus one negates it.
    pub proof fn lemma_mul_minus_one(a: Fixed)
        requires
            a.in_range(),
        ensures
            a.spec_mul(Fixed::one().spec_neg()) == a.spec_neg(),
    {
        broadcast use {Fixed::lemma_of_view, Fixed::lemma_view_of};

        Fixed::lemma_mul_one(a);
        assert(a@ * (-SCALE) == -(a@ * SCALE)) by (nonlinear_arith);
        lemma_quot_negated(a@ * SCALE, SCALE as int);
    }

    /// The square root of one is one.
    pub proof fn lemma_sqrt_one()
        ensures
            Fixed::one().sqrt_spec() == Fixed::one(),
    {
        broadcast use {Fixed::lemma_of_view, Fixed::lemma_view_of};

        let one = SCALE as int;
        assert(one * one == 0x1_0000_0000_0000_0000_0000_0000_0000_0000) by (nonlinear_arith)
            requires
                one == 0x1_0000_0000_0000_0000,
        ;
        assert((one + 1) * (one + 1) > one * one) by (nonlinear_arith)
            requires
                one == 0x1_0000_0000_0000_0000,
        ;
        lemma_floor_sqrt_unique(one * one, one);
    }

    /// `a a - a c` times one is not above the square of `a` where `c` lies
    /// between zero and `a`.
    pub proof fn lemma_cross_term_at_most_square(a: Fixed, c: Fixed)
        requires
            0 <= c@ <= a@,
        ensures
            Fixed::cross_term_spec(a, a, a, c)@ * SCALE <= a@ * a@,
    {
        broadcast use Fixed::lemma_of_view;

        let n = a@ * a@ - a@ * c@;
        assert(0 <= n <= a@ * a@) by (nonlinear_arith)
            requires
                n == a@ * a@ - a@ * c@,
                0 <= c@ <= a@,
        ;
        vstd::arithmetic::div_mod::lemma_div_pos_is_pos(n, SCALE as int);
        vstd::arithmetic::div_mod::lemma_fundamental_div_mod(n, SCALE as int);
        let q = n / (SCALE as int);
        assert(q * SCALE <= n) by (nonlinear_arith)
            requires
                n == SCALE * q + n % (SCALE as int),
                0 <= n % (SCALE as int),
        ;
        let d = Fixed::cross_term_spec(a, a, a, c)@;
        assert(0 <= d <= q);
        assert(d * SCALE <= q * SCALE) by (nonlinear_arith)
            requires
                0 <= d <= q,
        ;
    }

    /// The square root of a value is not above a bound whose square the
    /// value does not exceed.
    pub proof fn lemma_sqrt_at_most(a: Fixed, bound: Fixed)
        requires
            0 <= bound@,
            a@ * SCALE <= bound@ * bound@,
        ensures
            a.sqrt_spec()@ <= bound@,
    {
        broadcast use Fixed::lemma_of_view;

        let n = a@ * SCALE;
        if n >= 0 {
            lemma_floor_sqrt_exists(n);
            let r = floor_sqrt(n);
            if r > bound@ {
                assert(r * r > bound@ * bound@) by (nonlinear_arith)
                    requires
                        r > bound@,
                        bound@ >= 0,
                ;
            }
        }
    }

    /// The component of a triple that is largest in magnitude is at least
    /// half the triple's norm, and the norm of a triple whose squares sum to
    /// one raw unit of area or more is positive.
    pub proof fn lemma_norm3_at_most_twice_largest(a: (Fixed, Fixed, Fixed), largest: Fixed)
        requires
            magnitude(a.0@) <= magnitude(largest@),
            magnitude(a.1@) <= magnitude(largest@),
            magnitude(a.2@) <= magnitude(largest@),
        ensures
            Fixed::norm3_spec(a)@ <= 2 * magnitude(largest@),
    {
        broadcast use Fixed::lemma_of_view;

        let m = magnitude(largest@);
        let sum = a.0@ * a.0@ + a.1@ * a.1@ + a.2@ * a.2@;
        assert(0 <= sum <= 3 * (m * m)) by (nonlinear_arith)
            requires
                sum == a.0@ * a.0@ + a.1@ * a.1@ + a.2@ * a.2@,
                magnitude(a.0@) <= m,
                magnitude(a.1@) <= m,
                magnitude(a.2@) <= m,
        ;
        lemma_floor_sqrt_exists(sum);
        let r = floor_sqrt(sum);
        if r > 2 * m {
            assert(r * r > 3 * (m * m)) by (nonlinear_arith)
                requires
                    r > 2 * m,
                    m >= 0,
            ;
        }
    }

    /// Dividing a value by a positive one that is at most twice its
    /// magnitude gives a result of magnitude one half or more.
    pub proof fn lemma_div_by_at_most_twice(a: Fixed, d: Fixed)
        requires
            0 < d@ <= 2 * magnitude(a@),
        ensures
            magnitude(a.spec_div(d)@) >= SCALE / 2,
    {
        broadcast use Fixed::lemma_of_view;

        let m = magnitude(a@);
        assert(magnitude(a@ * SCALE) == m * SCALE) by (nonlinear_arith)
            requires
                m == magnitude(a@),
        ;
        let half = SCALE / 2;
        assert(half * d@ <= m * SCALE) by (nonlinear_arith)
            requires
                d@ <= 2 * m,
                half * 2 == SCALE,
                d@ > 0,
        ;
        vstd::arithmetic::div_mod::lemma_div_is_ordered(half * d@, m * SCALE, d@);
        vstd::arithmetic::div_mod::lemma_div_multiples_vanish(half, d@);
        assert(half * d@ == d@ * half) by (nonlinear_arith);
    }

    /// Every power of one is one.
    pub proof fn lemma_powi_of_one(n: u32)
        ensures
            Fixed::one().powi_spec(n) == Fixed::one(),
        decreases n,
    {
        broadcast use Fixed::lemma_of_view;

        if n > 0 {
            Fixed::lemma_powi_of_one((n - 1) as u32);
            Fixed::lemma_mul_one(Fixed::one());
        }
    }

    /// Every power of zero but the zeroth is zero.
    pub proof fn lemma_powi_of_zero(n: u32)
        requires
            n > 0,
        ensures
            Fixed::zero().powi_spec(n) == Fixed::zero(),
    {
        Fixed::lemma_mul_zero(Fixed::zero().powi_spec((n - 1) as u32));
    }

    /// The second power of a value in range is its product with itself.
    pub proof fn lemma_powi_two(a: Fixed)
        requires
            a.in_range(),
        ensures
            a.powi_spec(2) == a.spec_mul(a),
    {
        Fixed::lemma_one_mul(a);
        assert(a.powi_spec(0) == Fixed::one());
        assert(a.powi_spec(1) == a.powi_spec(0).spec_mul(a));
        assert(a.powi_spec(2) == a.powi_spec(1).spec_mul(a));
    }

    /// The product with itself of a value between minus one and one is a
    /// fraction.
    pub proof fn lemma_square_of_small(a: Fixed)
        requires
            -SCALE <= a@ <= SCALE,
        ensures
            a.spec_mul(a).is_fraction(),
    {
        broadcast use Fixed::lemma_of_view;

        assert(0 <= a@ * a@ <= SCALE * SCALE) by (nonlinear_arith)
            requires
                -SCALE <= a@ <= SCALE,
        ;
        vstd::arithmetic::div_mod::lemma_div_pos_is_pos(a@ * a@, SCALE as int);
        vstd::arithmetic::div_mod::lemma_div_is_ordered(a@ * a@, SCALE * SCALE, SCALE as int);
        vstd::arithmetic::div_mod::lemma_div_multiples_vanish(SCALE as int, SCALE as int);
    }

    /// A quotient times its whole divisor falls short of the dividend by
    /// less than the divisor, in raw units, and never overshoots it.
    pub proof fn lemma_div_by_whole(a: Fixed, n: int)
        requires
            a.in_range(),
            0 < n <= i32::MAX,
        ensures
            magnitude(a.spec_div(Fixed::spec_from_int(n))@ * n) <= magnitude(a@),
            magnitude(a@) - magnitude(a.spec_div(Fixed::spec_from_int(n))@ * n) < n,
            (a@ >= 0) ==> a.spec_div(Fixed::spec_from_int(n))@ >= 0,
            (a@ <= 0) ==> a.spec_div(Fixed::spec_from_int(n))@ <= 0,
    {
        broadcast use Fixed::lemma_of_view;

        let d = n * SCALE;
        assert(0 < d <= 0x7FFF_FFFF * SCALE) by (nonlinear_arith)
            requires
                d == n * SCALE,
                0 < n <= 0x7FFF_FFFF,
        ;
        assert(Fixed::spec_from_int(n)@ == d);
        let m = magnitude(a@);
        assert(magnitude(a@ * SCALE) == m * SCALE) by (nonlinear_arith)
            requires
                m == magnitude(a@),
        ;
        assert((a@ * SCALE < 0) == (a@ < 0)) by (nonlinear_arith);
        let k = (m * SCALE) / d;
        vstd::arithmetic::div_mod::lemma_fundamental_div_mod(m * SCALE, d);
        vstd::arithmetic::div_mod::lemma_div_pos_is_pos(m * SCALE, d);
        let r = (m * SCALE) % d;
        assert(0 <= m - k * n < n) by (nonlinear_arith)
            requires
                m * SCALE == d * k + r,
                0 <= r < d,
                d == n * SCALE,
                SCALE > 0,
        ;
        assert(0 <= k <= m) by (nonlinear_arith)
            requires
                0 <= m - k * n,
                n >= 1,
                k >= 0,
        ;
        assert(magnitude(k * n) == k * n) by (nonlinear_arith)
            requires
                k >= 0,
                n > 0,
        ;
        assert(magnitude((-k) * n) == k * n) by (nonlinear_arith)
            requires
                k >= 0,
                n > 0,
        ;
    }

    /// Whether the value lies between zero and one, bounds included.
    pub open spec fn is_fraction(self) -> bool {
        0 <= self@ <= SCALE
    }

    /// Multiplying a value that is not negative by a fraction brings it no
    /// further from zero.
    pub proof fn lemma_mul_by_fraction(a: Fixed, t: Fixed)
        requires
            0 <= a@,
            a.in_range(),
            t.is_fraction(),
        ensures
            0 <= a.spec_mul(t)@ <= a@,
            0 <= t.spec_mul(a)@ <= a@,
    {
        broadcast use Fixed::lemma_of_view;

        let p = a@ * t@;
        assert(0 <= p <= a@ * SCALE) by (nonlinear_arith)
            requires
                p == a@ * t@,
                0 <= a@,
                0 <= t@ <= SCALE,
        ;
        assert(t@ * a@ == p) by (nonlinear_arith)
            requires
                p == a@ * t@,
        ;
        vstd::arithmetic::div_mod::lemma_div_pos_is_pos(p, SCALE as int);
        vstd::arithmetic::div_mod::lemma_div_is_ordered(p, a@ * SCALE, SCALE as int);
        vstd::arithmetic::div_mod::lemma_div_multiples_vanish(a@, SCALE as int);
        assert(a@ * SCALE == SCALE * a@) by (nonlinear_arith);
    }

    /// One times a value in range is that value.
    pub proof fn lemma_one_mul(a: Fixed)
        requires
            a.in_range(),
        ensures
            Fixed::one().spec_mul(a) == a,
    {
        broadcast use Fixed::lemma_of_view;

        Fixed::lemma_mul_one(a);
        assert(SCALE * a@ == a@ * SCALE) by (nonlinear_arith);
    }

    /// No component of a triple in range exceeds the triple's norm.
    pub proof fn lemma_norm3_dominates(a: (Fixed, Fixed, Fixed))
        requires
            a.0.in_range(),
            a.1.in_range(),
            a.2.in_range(),
        ensures
            magnitude(a.0@) <= Fixed::norm3_spec(a)@,
            magnitude(a.1@) <= Fixed::norm3_spec(a)@,
            magnitude(a.2@) <= Fixed::norm3_spec(a)@,
    {
        broadcast use Fixed::lemma_of_view;

        let x = magnitude(a.0@);
        let y = magnitude(a.1@);
        let z = magnitude(a.2@);
        let sum = a.0@ * a.0@ + a.1@ * a.1@ + a.2@ * a.2@;
        assert(sum == x * x + y * y + z * z) by (nonlinear_arith)
            requires
                sum == a.0@ * a.0@ + a.1@ * a.1@ + a.2@ * a.2@,
                x == magnitude(a.0@),
                y == magnitude(a.1@),
                z == magnitude(a.2@),
        ;
        assert(x * x >= 0 && y * y >= 0 && z * z >= 0) by (nonlinear_arith);
        lemma_floor_sqrt_exists(sum);
        let r = floor_sqrt(sum);
        lemma_below_root(x, r, sum);
        lemma_below_root(y, r, sum);
        lemma_below_root(z, r, sum);
    }

    /// The quotient of a value that is not negative by a positive one is not
    /// negative.
    pub proof fn lemma_div_nonnegative(a: Fixed, d: Fixed)
        requires
            0 <= a@,
            0 <= d@,
        ensures
            0 <= a.spec_div(d)@,
    {
        broadcast use Fixed::lemma_of_view;

        if d@ > 0 {
            assert(a@ * SCALE >= 0) by (nonlinear_arith)
                requires
                    a@ >= 0,
            ;
            vstd::arithmetic::div_mod::lemma_div_pos_is_pos(a@ * SCALE, d@);
        }
    }

    /// Dividing a value by one that is at least as large in magnitude gives
    /// a result between minus one and one.
    pub proof fn lemma_div_by_larger(a: Fixed, d: Fixed)
        requires
            magnitude(a@) <= d@,
        ensures
            -SCALE <= a.spec_div(d)@ <= SCALE,
    {
        broadcast use Fixed::lemma_of_view;

        if d@ != 0 {
            let m = magnitude(a@);
            assert(magnitude(a@ * SCALE) == m * SCALE) by (nonlinear_arith)
                requires
                    m == magnitude(a@),
            ;
            assert(0 <= m * SCALE <= d@ * SCALE) by (nonlinear_arith)
                requires
                    0 <= m <= d@,
            ;
            vstd::arithmetic::div_mod::lemma_div_pos_is_pos(m * SCALE, d@);
            vstd::arithmetic::div_mod::lemma_div_is_ordered(m * SCALE, d@ * SCALE, d@);
            vstd::arithmetic::div_mod::lemma_div_multiples_vanish(SCALE as int, d@);
            assert(d@ * SCALE == d@ * (SCALE as int));
        }
    }
}

/// A natural number whose square does not exceed `n` is not above the floor
/// square root of `n`.
pub proof fn lemma_below_root(x: int, r: int, n: int)
    requires
        0 <= x,
        x * x <= n,
        0 <= r,
        n < (r + 1) * (r + 1),
    ensures
        x <= r,
{
    if x > r {
        assert((r + 1) * (r + 1) <= x * x) by (nonlinear_arith)
            requires
                0 <= r,
                r + 1 <= x,
        ;
    }
}

} // verus!
