//! Saturating fixed-point scalars with 64 fractional bits.
//!
//! A [`Fixed`] stands for the rational number `raw / 2^64`, with a magnitude
//! of up to `2^60`. Every operation is total: quotients round toward zero,
//! and a result that leaves the range is clamped to the nearest bound.
//! Products, scalar products and norms are formed exactly, in 256 bits, and
//! rounded once.

use vstd::prelude::*;

pub mod laws;
mod order;
mod wide;

use wide::Wide;

verus! {

/// The raw value that stands for one: `2^64`.
pub const SCALE: i128 = 0x1_0000_0000_0000_0000;

/// The largest magnitude a raw value may have: `2^124`, which stands for
/// `2^60`.
pub const RAW_MAX: i128 = 0x1000_0000_0000_0000_0000_0000_0000_0000;

/// Clamps an integer into the representable raw range.
pub open spec fn sat(v: int) -> int {
    if v > RAW_MAX {
        RAW_MAX as int
    } else if v < -RAW_MAX {
        -RAW_MAX
    } else {
        v
    }
}

/// The magnitude of an integer.
pub open spec fn magnitude(a: int) -> int {
    if a < 0 {
        -a
    } else {
        a
    }
}

/// The quotient `a / b` rounded toward zero; zero when `b` is zero.
pub open spec fn quot(a: int, b: int) -> int {
    if b == 0 {
        0
    } else if (a < 0) == (b < 0) {
        magnitude(a) / magnitude(b)
    } else {
        -(magnitude(a) / magnitude(b))
    }
}

/// Whether `r` is the integer square root of `n`, rounded down.
pub open spec fn is_floor_sqrt(n: int, r: int) -> bool {
    0 <= r && r * r <= n < (r + 1) * (r + 1)
}

/// The integer square root of `n`, rounded down; zero for negative `n`.
pub open spec fn floor_sqrt(n: int) -> int {
    if n < 0 {
        0
    } else {
        choose|r: int| is_floor_sqrt(n, r)
    }
}

/// The raw product of two raw values.
pub open spec fn mul_raw(a: int, b: int) -> int {
    sat(quot(a * b, SCALE as int))
}

/// The raw quotient of two raw values. Dividing by zero saturates in the
/// direction of the dividend's sign.
pub open spec fn div_raw(a: int, b: int) -> int {
    if b == 0 {
        if a > 0 {
            RAW_MAX as int
        } else if a < 0 {
            -RAW_MAX
        } else {
            0
        }
    } else {
        sat(quot(a * SCALE, b))
    }
}

/// The raw square root of a raw value; zero for a negative one.
pub open spec fn sqrt_raw(a: int) -> int {
    sat(floor_sqrt(a * SCALE))
}

/// The whole number nearest to a raw value; a tie goes to the larger one.
pub open spec fn round_raw(a: int) -> int {
    (a + SCALE / 2) / (SCALE as int)
}

/// The raw scalar product of two triples of raw values, rounded once.
pub open spec fn dot_raw(a: (int, int, int), b: (int, int, int)) -> int {
    sat(quot(a.0 * b.0 + a.1 * b.1 + a.2 * b.2, SCALE as int))
}

/// The raw value of `a * b - c * d`, rounded once.
pub open spec fn cross_raw(a: int, b: int, c: int, d: int) -> int {
    sat(quot(a * b - c * d, SCALE as int))
}

/// The raw Euclidean norm of a triple of raw values.
pub open spec fn norm_raw(a: (int, int, int)) -> int {
    sat(floor_sqrt(a.0 * a.0 + a.1 * a.1 + a.2 * a.2))
}

/// There is only one floor square root.
pub proof fn lemma_floor_sqrt_unique(n: int, r: int)
    requires
        is_floor_sqrt(n, r),
    ensures
        floor_sqrt(n) == r,
{
    let s = floor_sqrt(n);
    assert(n >= 0) by (nonlinear_arith)
        requires
            r * r <= n,
    ;
    assert(is_floor_sqrt(n, s));
    if s < r {
        assert((s + 1) * (s + 1) <= r * r) by (nonlinear_arith)
            requires
                0 <= s,
                s + 1 <= r,
        ;
    } else if r < s {
        assert((r + 1) * (r + 1) <= s * s) by (nonlinear_arith)
            requires
                0 <= r,
                r + 1 <= s,
        ;
    }
}

/// Every natural number has a floor square root.
pub proof fn lemma_floor_sqrt_exists(n: int)
    requires
        0 <= n,
    ensures
        is_floor_sqrt(n, floor_sqrt(n)),
    decreases n,
{
    if n == 0 {
        assert(is_floor_sqrt(0, 0));
    } else {
        lemma_floor_sqrt_exists(n - 1);
        let p = floor_sqrt(n - 1);
        if (p + 1) * (p + 1) <= n {
            assert((p + 1) * (p + 1) == n);
            assert(n < (p + 2) * (p + 2)) by (nonlinear_arith)
                requires
                    (p + 1) * (p + 1) == n,
                    0 <= p,
            ;
            assert(is_floor_sqrt(n, p + 1));
        } else {
            assert(is_floor_sqrt(n, p));
        }
    }
}

/// Computes the integer square root of `n`.
pub fn integer_sqrt(n: u128) -> (r: u128)
    ensures
        r == floor_sqrt(n as int),
        r < 0x1_0000_0000_0000_0000,
{
    let root = (Wide { hi: 0, lo: n }).root();
    proof {
        lemma_floor_sqrt_exists(n as int);
        if root >= 0x1_0000_0000_0000_0000 {
            assert(root * root >= 0x1_0000_0000_0000_0000 * 0x1_0000_0000_0000_0000)
                by (nonlinear_arith)
                requires
                    root >= 0x1_0000_0000_0000_0000,
            ;
        }
    }
    root
}

/// The magnitude of a raw value.
fn magnitude_of(raw: i128) -> (m: u128)
    requires
        -RAW_MAX <= raw <= RAW_MAX,
    ensures
        m == magnitude(raw as int),
        m <= RAW_MAX,
{
    if raw < 0 {
        (-raw) as u128
    } else {
        raw as u128
    }
}

/// The sum of three signed products, each given by its sign and its exact
/// magnitude, divided by `2^64` and rounded toward zero; nothing where that
/// does not fit in 128 bits. The sign is told apart.
fn signed_sum(
    negative: (bool, bool, bool),
    terms: (Wide, Wide, Wide),
    Ghost(sum): Ghost<int>,
) -> (r: (bool, Option<u128>))
    requires
        terms.0.hi <= 0x400_0000_0000_0000_0000_0000_0000_0000,
        terms.1.hi <= 0x400_0000_0000_0000_0000_0000_0000_0000,
        terms.2.hi <= 0x400_0000_0000_0000_0000_0000_0000_0000,
        sum == (if negative.0 {
            -terms.0.value()
        } else {
            terms.0.value()
        }) + (if negative.1 {
            -terms.1.value()
        } else {
            terms.1.value()
        }) + (if negative.2 {
            -terms.2.value()
        } else {
            terms.2.value()
        }),
    ensures
        r.0 == (sum < 0),
        match r.1 {
            Some(q) => q == magnitude(sum) / (SCALE as int),
            None => magnitude(sum) / (SCALE as int) > RAW_MAX,
        },
{
    let zero = Wide::zero();
    let mut gain = zero;
    let mut loss = zero;
    if negative.0 {
        loss = loss.plus(terms.0);
    } else {
        gain = gain.plus(terms.0);
    }
    if negative.1 {
        loss = loss.plus(terms.1);
    } else {
        gain = gain.plus(terms.1);
    }
    if negative.2 {
        loss = loss.plus(terms.2);
    } else {
        gain = gain.plus(terms.2);
    }
    assert(sum == gain.value() - loss.value());
    if loss.at_most(gain) {
        (false, gain.minus(loss).scaled_down())
    } else {
        (true, loss.minus(gain).scaled_down())
    }
}

/// A fixed-point number with 64 fractional bits, kept within
/// `[-2^60, 2^60]`.
#[derive(Clone, Copy, Debug, PartialEq, Eq, Structural)]
pub struct Fixed {
    raw: i128,
}

impl View for Fixed {
    type V = int;

    /// The raw representation: the number times `2^64`.
    closed spec fn view(&self) -> int {
        self.raw as int
    }
}

impl Fixed {
    /// Every value that executable code can hold lies in the representable
    /// range.
    #[verifier::type_invariant]
    pub open spec fn in_range(self) -> bool {
        -RAW_MAX <= self@ <= RAW_MAX
    }

    /// Whether the value lies at an end of the range or beyond.
    pub open spec fn is_clamped_spec(self) -> bool {
        self@ >= RAW_MAX || self@ <= -RAW_MAX
    }

    /// The value whose raw representation is `v`.
    pub closed spec fn of(v: int) -> Fixed {
        Fixed { raw: v as i128 }
    }

    /// A value in range is recovered from its raw representation.
    pub broadcast proof fn lemma_of_view(v: int)
        requires
            -RAW_MAX <= v <= RAW_MAX,
        ensures
            (#[trigger] Fixed::of(v))@ == v,
    {
    }

    /// Two values with the same raw representation are the same value.
    pub broadcast proof fn lemma_view_of(a: Fixed)
        ensures
            Fixed::of(#[trigger] a@) == a,
    {
    }

    pub open spec fn spec_zero() -> Fixed {
        Fixed::of(0)
    }

    pub open spec fn spec_one() -> Fixed {
        Fixed::of(SCALE as int)
    }

    pub open spec fn spec_max_value() -> Fixed {
        Fixed::of(RAW_MAX as int)
    }

    /// The whole number `n`, clamped into range.
    pub open spec fn spec_from_int(n: int) -> Fixed {
        Fixed::of(sat(n * SCALE))
    }

    /// The sum, clamped into range.
    pub open spec fn spec_add(self, rhs: Fixed) -> Fixed {
        Fixed::of(sat(self@ + rhs@))
    }

    /// The difference, clamped into range.
    pub open spec fn spec_sub(self, rhs: Fixed) -> Fixed {
        Fixed::of(sat(self@ - rhs@))
    }

    /// The negation.
    pub open spec fn spec_neg(self) -> Fixed {
        Fixed::of(sat(-self@))
    }

    /// The product, rounded toward zero and clamped into range.
    pub open spec fn spec_mul(self, rhs: Fixed) -> Fixed {
        Fixed::of(mul_raw(self@, rhs@))
    }

    /// The quotient, rounded toward zero and clamped into range.
    pub open spec fn spec_div(self, rhs: Fixed) -> Fixed {
        Fixed::of(div_raw(self@, rhs@))
    }

    /// The quotient of two whole numbers.
    pub open spec fn spec_from_ratio(num: int, den: int) -> Fixed {
        Fixed::spec_from_int(num).spec_div(Fixed::spec_from_int(den))
    }

    /// The product of `n` copies of this value, multiplied from the left.
    pub open spec fn powi_spec(self, n: u32) -> Fixed
        decreases n,
    {
        if n == 0 {
            Fixed::spec_one()
        } else {
            self.powi_spec((n - 1) as u32).spec_mul(self)
        }
    }

    pub open spec fn sqrt_spec(self) -> Fixed {
        Fixed::of(sqrt_raw(self@))
    }

    pub open spec fn abs_spec(self) -> Fixed {
        Fixed::of(sat(magnitude(self@)))
    }

    pub open spec fn min_spec(self, other: Fixed) -> Fixed {
        if other@ < self@ {
            other
        } else {
            self
        }
    }

    pub open spec fn max_spec(self, other: Fixed) -> Fixed {
        if other@ > self@ {
            other
        } else {
            self
        }
    }

    /// The scalar product of two triples, rounded once.
    pub open spec fn dot3_spec(a: (Fixed, Fixed, Fixed), b: (Fixed, Fixed, Fixed)) -> Fixed {
        Fixed::of(dot_raw((a.0@, a.1@, a.2@), (b.0@, b.1@, b.2@)))
    }

    /// `a * b - c * d`, rounded once.
    pub open spec fn cross_term_spec(a: Fixed, b: Fixed, c: Fixed, d: Fixed) -> Fixed {
        Fixed::of(cross_raw(a@, b@, c@, d@))
    }

    /// The Euclidean norm of a triple.
    pub open spec fn norm3_spec(a: (Fixed, Fixed, Fixed)) -> Fixed {
        Fixed::of(norm_raw((a.0@, a.1@, a.2@)))
    }

    /// The value of the given sign and magnitude, clamped into range. No
    /// magnitude stands for one beyond 128 bits.
    fn from_sign_magnitude(negative: bool, magnitude: Option<u128>) -> (r: Fixed)
        ensures
            match magnitude {
                Some(m) => r@ == sat(
                    if negative {
                        -m
                    } else {
                        m as int
                    },
                ),
                None => r@ == (if negative {
                    -RAW_MAX
                } else {
                    RAW_MAX as int
                }),
            },
    {
        let clamped: i128 = match magnitude {
            Some(m) => if m > RAW_MAX as u128 {
                RAW_MAX
            } else {
                m as i128
            },
            None => RAW_MAX,
        };
        if negative {
            Fixed { raw: -clamped }
        } else {
            Fixed { raw: clamped }
        }
    }

    /// Whether the value lies at an end of the range, where a result that
    /// left the range was clamped to.
    pub fn is_clamped(self) -> (r: bool)
        ensures
            r == self.is_clamped_spec(),
    {
        self.raw >= RAW_MAX || self.raw <= -RAW_MAX
    }

    /// The value with the given raw representation, clamped into range.
    pub fn from_raw(raw: i128) -> (r: Fixed)
        ensures
            r == Fixed::of(sat(raw as int)),
            r@ == sat(raw as int),
    {
        if raw > RAW_MAX {
            Fixed { raw: RAW_MAX }
        } else if raw < -RAW_MAX {
            Fixed { raw: -RAW_MAX }
        } else {
            Fixed { raw }
        }
    }

    /// The raw representation of this value.
    pub fn raw(self) -> (r: i128)
        ensures
            r == self@,
            -RAW_MAX <= r <= RAW_MAX,
    {
        proof {
            use_type_invariant(&self);
        }
        self.raw
    }

    /// The whole number `n`, exactly.
    pub fn from_int(n: i32) -> (r: Fixed)
        ensures
            r == Fixed::spec_from_int(n as int),
            r@ == n * SCALE,
    {
        assert(-0x8000_0000 * 0x1_0000_0000_0000_0000 <= n * 0x1_0000_0000_0000_0000
            <= 0x8000_0000 * 0x1_0000_0000_0000_0000);
        Fixed { raw: (n as i128) * SCALE }
    }

    /// Zero.
    #[verifier::when_used_as_spec(spec_zero)]
    pub fn zero() -> (r: Fixed)
        ensures
            r == Fixed::spec_zero(),
            r@ == 0,
    {
        Fixed { raw: 0 }
    }

    /// One.
    #[verifier::when_used_as_spec(spec_one)]
    pub fn one() -> (r: Fixed)
        ensures
            r == Fixed::spec_one(),
            r@ == SCALE,
    {
        Fixed { raw: SCALE }
    }

    /// The largest representable value.
    #[verifier::when_used_as_spec(spec_max_value)]
    pub fn max_value() -> (r: Fixed)
        ensures
            r == Fixed::spec_max_value(),
            r@ == RAW_MAX,
    {
        Fixed { raw: RAW_MAX }
    }

    /// The square root, rounded down; zero for a negative value.
    #[verifier::when_used_as_spec(sqrt_spec)]
    pub fn sqrt(self) -> (r: Fixed)
        ensures
            r == self.sqrt_spec(),
    {
        proof {
            use_type_invariant(&self);
        }
        if self.raw <= 0 {
            proof {
                if self.raw == 0 {
                    lemma_floor_sqrt_unique(0, 0);
                }
                assert(self@ * SCALE <= 0) by (nonlinear_arith)
                    requires
                        self@ <= 0,
                ;
            }
            Fixed { raw: 0 }
        } else {
            let target = Wide::scaled_up(self.raw as u128);
            let root: u128 = target.root();
            Fixed::from_sign_magnitude(false, Some(root))
        }
    }

    /// The magnitude of this value.
    #[verifier::when_used_as_spec(abs_spec)]
    pub fn abs(self) -> (r: Fixed)
        ensures
            r == self.abs_spec(),
            r@ == magnitude(self@),
    {
        proof {
            use_type_invariant(&self);
        }
        if self.raw < 0 {
            Fixed { raw: -self.raw }
        } else {
            self
        }
    }

    /// The smaller of two values.
    #[verifier::when_used_as_spec(min_spec)]
    pub fn min(self, other: Fixed) -> (r: Fixed)
        ensures
            r == self.min_spec(other),
    {
        if other.raw < self.raw {
            other
        } else {
            self
        }
    }

    /// The larger of two values.
    #[verifier::when_used_as_spec(max_spec)]
    pub fn max(self, other: Fixed) -> (r: Fixed)
        ensures
            r == self.max_spec(other),
    {
        if other.raw > self.raw {
            other
        } else {
            self
        }
    }

    /// The quotient of two whole numbers, `num / den`.
    pub fn from_ratio(num: i32, den: i32) -> (r: Fixed)
        ensures
            r == Fixed::spec_from_ratio(num as int, den as int),
    {
        Fixed::from_int(num) / Fixed::from_int(den)
    }

    /// This value raised to the power `n`.
    pub fn powi(self, n: u32) -> (r: Fixed)
        ensures
            r == self.powi_spec(n),
    {
        let mut acc: Fixed = Fixed::one();
        let mut i: u32 = 0;
        while i < n
            invariant
                i <= n,
                acc == self.powi_spec(i),
            decreases n - i,
        {
            acc = acc * self;
            i = i + 1;
        }
        acc
    }

    /// The nearest whole number; a tie goes to the larger one.
    pub fn round(self) -> (r: i64)
        ensures
            r == round_raw(self@),
    {
        proof {
            use_type_invariant(&self);
        }
        let shifted: i128 = self.raw + SCALE / 2;
        if shifted >= 0 {
            (shifted / SCALE) as i64
        } else {
            let up: i128 = (-shifted + (SCALE - 1)) / SCALE;
            proof {
                let q = shifted as int / (SCALE as int);
                assert(up == -q) by (nonlinear_arith)
                    requires
                        q == shifted as int / 0x1_0000_0000_0000_0000,
                        up == (-shifted + 0xFFFF_FFFF_FFFF_FFFF) / 0x1_0000_0000_0000_0000,
                        shifted < 0,
                ;
            }
            (-up) as i64
        }
    }

    /// The exact product of the magnitudes of two values, and whether the
    /// product of the values is negative.
    fn signed_product(a: Fixed, b: Fixed) -> (r: (bool, Wide))
        ensures
            r.1.value() == magnitude(a@ * b@),
            r.0 ==> a@ * b@ <= 0,
            !r.0 ==> a@ * b@ >= 0,
            r.1.hi <= 0x400_0000_0000_0000_0000_0000_0000_0000,
    {
        proof {
            use_type_invariant(&a);
            use_type_invariant(&b);
        }
        let ma = magnitude_of(a.raw);
        let mb = magnitude_of(b.raw);
        proof {
            assert(magnitude(a@ * b@) == ma * mb) by (nonlinear_arith)
                requires
                    ma == magnitude(a@),
                    mb == magnitude(b@),
            ;
            assert((a.raw < 0) != (b.raw < 0) ==> a@ * b@ <= 0) by (nonlinear_arith);
            assert((a.raw < 0) == (b.raw < 0) ==> a@ * b@ >= 0) by (nonlinear_arith);
        }
        ((a.raw < 0) != (b.raw < 0), Wide::product(ma, mb))
    }

    /// The scalar product of two triples, with a single rounding at the end.
    pub fn dot3(a: (Fixed, Fixed, Fixed), b: (Fixed, Fixed, Fixed)) -> (r: Fixed)
        ensures
            r == Fixed::dot3_spec(a, b),
    {
        let p0 = Fixed::signed_product(a.0, b.0);
        let p1 = Fixed::signed_product(a.1, b.1);
        let p2 = Fixed::signed_product(a.2, b.2);
        let ghost sum = a.0@ * b.0@ + a.1@ * b.1@ + a.2@ * b.2@;
        let s = signed_sum((p0.0, p1.0, p2.0), (p0.1, p1.1, p2.1), Ghost(sum));
        let r = Fixed::from_sign_magnitude(s.0, s.1);
        proof {
            lemma_quot_by_scale(sum);
            Fixed::lemma_view_of(r);
        }
        r
    }

    /// `a * b - c * d`, with a single rounding at the end.
    pub fn cross_term(a: Fixed, b: Fixed, c: Fixed, d: Fixed) -> (r: Fixed)
        ensures
            r == Fixed::cross_term_spec(a, b, c, d),
    {
        let p0 = Fixed::signed_product(a, b);
        let p1 = Fixed::signed_product(c, d);
        let ghost sum = a@ * b@ - c@ * d@;
        let s = signed_sum((p0.0, !p1.0, false), (p0.1, p1.1, Wide::zero()), Ghost(sum));
        let r = Fixed::from_sign_magnitude(s.0, s.1);
        proof {
            lemma_quot_by_scale(sum);
            Fixed::lemma_view_of(r);
        }
        r
    }

    /// The Euclidean norm of a triple, rounded down.
    pub fn norm3(a: (Fixed, Fixed, Fixed)) -> (r: Fixed)
        ensures
            r == Fixed::norm3_spec(a),
    {
        let p0 = Fixed::signed_product(a.0, a.0);
        let p1 = Fixed::signed_product(a.1, a.1);
        let p2 = Fixed::signed_product(a.2, a.2);
        proof {
            use_type_invariant(&a.0);
            use_type_invariant(&a.1);
            use_type_invariant(&a.2);
            lemma_square_bound(a.0@, p0.1.hi as int, p0.1.lo as int);
            lemma_square_bound(a.1@, p1.1.hi as int, p1.1.lo as int);
            lemma_square_bound(a.2@, p2.1.hi as int, p2.1.lo as int);
        }
        let sum = p0.1.plus(p1.1).plus(p2.1);
        let root: u128 = sum.root();
        let r = Fixed::from_sign_magnitude(false, Some(root));
        proof {
            Fixed::lemma_view_of(r);
        }
        r
    }
}

/// Rounding toward zero, told by sign and magnitude.
proof fn lemma_quot_by_scale(sum: int)
    ensures
        quot(sum, SCALE as int) == (if sum < 0 {
            -(magnitude(sum) / (SCALE as int))
        } else {
            magnitude(sum) / (SCALE as int)
        }),
        0 <= magnitude(sum) / (SCALE as int),
{
    vstd::arithmetic::div_mod::lemma_div_pos_is_pos(magnitude(sum), SCALE as int);
}

/// The square of a raw value in range, in halves, has a small upper half.
proof fn lemma_square_bound(a: int, hi: int, lo: int)
    requires
        -RAW_MAX <= a <= RAW_MAX,
        hi * wide::pow128() + lo == magnitude(a * a),
        0 <= lo,
        0 <= hi,
    ensures
        hi <= 0x100_0000_0000_0000_0000_0000_0000_0000,
        a * a >= 0,
{
    assert(0 <= a * a <= 0x1000_0000_0000_0000_0000_0000_0000_0000
        * 0x1000_0000_0000_0000_0000_0000_0000_0000) by (nonlinear_arith)
        requires
            -0x1000_0000_0000_0000_0000_0000_0000_0000 <= a
                <= 0x1000_0000_0000_0000_0000_0000_0000_0000,
    ;
    assert(0x1000_0000_0000_0000_0000_0000_0000_0000int * 0x1000_0000_0000_0000_0000_0000_0000_0000
        == 0x100_0000_0000_0000_0000_0000_0000_0000 * wide::pow128());
    if hi > 0x100_0000_0000_0000_0000_0000_0000_0000 {
        assert(hi * wide::pow128() >= (0x100_0000_0000_0000_0000_0000_0000_0000 + 1)
            * wide::pow128()) by (nonlinear_arith)
            requires
                hi >= 0x100_0000_0000_0000_0000_0000_0000_0000 + 1,
        ;
    }
}

impl core::ops::Add for Fixed {
    type Output = Fixed;

    /// The sum, clamped into range.
    fn add(self, rhs: Fixed) -> (r: Fixed)
        ensures
            r == self.spec_add(rhs),
    {
        proof {
            use_type_invariant(&self);
            use_type_invariant(&rhs);
        }
        Fixed::from_raw(self.raw + rhs.raw)
    }
}

impl vstd::std_specs::ops::AddSpecImpl for Fixed {
    open spec fn obeys_add_spec() -> bool {
        true
    }

    open spec fn add_req(self, rhs: Fixed) -> bool {
        true
    }

    open spec fn add_spec(self, rhs: Fixed) -> Fixed {
        self.spec_add(rhs)
    }
}

impl core::ops::Sub for Fixed {
    type Output = Fixed;

    /// The difference, clamped into range.
    fn sub(self, rhs: Fixed) -> (r: Fixed)
        ensures
            r == self.spec_sub(rhs),
    {
        proof {
            use_type_invariant(&self);
            use_type_invariant(&rhs);
        }
        Fixed::from_raw(self.raw - rhs.raw)
    }
}

impl vstd::std_specs::ops::SubSpecImpl for Fixed {
    open spec fn obeys_sub_spec() -> bool {
        true
    }

    open spec fn sub_req(self, rhs: Fixed) -> bool {
        true
    }

    open spec fn sub_spec(self, rhs: Fixed) -> Fixed {
        self.spec_sub(rhs)
    }
}

impl core::ops::Neg for Fixed {
    type Output = Fixed;

    /// The negation, which is always exact.
    fn neg(self) -> (r: Fixed)
        ensures
            r == self.spec_neg(),
    {
        proof {
            use_type_invariant(&self);
        }
        Fixed { raw: -self.raw }
    }
}

impl vstd::std_specs::ops::NegSpecImpl for Fixed {
    open spec fn obeys_neg_spec() -> bool {
        true
    }

    open spec fn neg_req(self) -> bool {
        true
    }

    open spec fn neg_spec(self) -> Fixed {
        self.spec_neg()
    }
}

impl core::ops::Mul for Fixed {
    type Output = Fixed;

    /// The product, rounded toward zero and clamped into range.
    fn mul(self, rhs: Fixed) -> (r: Fixed)
        ensures
            r == self.spec_mul(rhs),
    {
        let p = Fixed::signed_product(self, rhs);
        let q = p.1.scaled_down();
        let r = Fixed::from_sign_magnitude(p.0, q);
        proof {
            lemma_quot_by_scale(self@ * rhs@);
            Fixed::lemma_view_of(r);
        }
        r
    }
}

impl vstd::std_specs::ops::MulSpecImpl for Fixed {
    open spec fn obeys_mul_spec() -> bool {
        true
    }

    open spec fn mul_req(self, rhs: Fixed) -> bool {
        true
    }

    open spec fn mul_spec(self, rhs: Fixed) -> Fixed {
        self.spec_mul(rhs)
    }
}

impl core::ops::Div for Fixed {
    type Output = Fixed;

    /// The quotient, rounded toward zero and clamped into range. Dividing by
    /// zero saturates in the direction of the dividend's sign.
    fn div(self, rhs: Fixed) -> (r: Fixed)
        ensures
            r == self.spec_div(rhs),
    {
        proof {
            use_type_invariant(&self);
            use_type_invariant(&rhs);
        }
        if rhs.raw == 0 {
            if self.raw > 0 {
                Fixed { raw: RAW_MAX }
            } else if self.raw < 0 {
                Fixed { raw: -RAW_MAX }
            } else {
                Fixed { raw: 0 }
            }
        } else {
            let dividend = magnitude_of(self.raw);
            let divisor = magnitude_of(rhs.raw);
            let q = Wide::scaled_up(dividend).quotient_up_to(divisor, RAW_MAX as u128);
            let r = Fixed::from_sign_magnitude((self.raw < 0) != (rhs.raw < 0), Some(q));
            proof {
                assert(magnitude(self@ * SCALE) == dividend * SCALE) by (nonlinear_arith)
                    requires
                        dividend == magnitude(self@),
                ;
                assert((self@ * SCALE < 0) == (self@ < 0)) by (nonlinear_arith);
                vstd::arithmetic::div_mod::lemma_div_pos_is_pos(
                    dividend * SCALE,
                    divisor as int,
                );
                if self.raw == 0 {
                    assert(0int * SCALE == 0);
                    assert(0int / (divisor as int) == 0) by (nonlinear_arith)
                        requires
                            divisor > 0,
                    ;
                }
                Fixed::lemma_view_of(r);
            }
            r
        }
    }
}

impl vstd::std_specs::ops::DivSpecImpl for Fixed {
    open spec fn obeys_div_spec() -> bool {
        true
    }

    open spec fn div_req(self, rhs: Fixed) -> bool {
        true
    }

    open spec fn div_spec(self, rhs: Fixed) -> Fixed {
        self.spec_div(rhs)
    }
}

} // verus!
