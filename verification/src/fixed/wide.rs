//! Unsigned integers of 256 bits, for the exact intermediates of fixed-point
//! arithmetic.

use super::{floor_sqrt, is_floor_sqrt, lemma_floor_sqrt_unique};
use vstd::prelude::*;

verus! {

/// The base of a limb: `2^64`.
pub const BASE: u128 = 0x1_0000_0000_0000_0000;

/// The largest factor of a wide product: `2^125`.
pub const FACTOR_MAX: u128 = 0x2000_0000_0000_0000_0000_0000_0000_0000;

/// `2^128`.
pub open spec fn pow128() -> int {
    0x1_0000_0000_0000_0000_0000_0000_0000_0000int
}

/// An unsigned integer of up to 256 bits, in two halves.
#[derive(Clone, Copy)]
pub struct Wide {
    pub hi: u128,
    pub lo: u128,
}

impl Wide {
    /// The integer that the two halves stand for.
    pub open spec fn value(self) -> int {
        self.hi * pow128() + self.lo
    }

    /// Zero.
    pub fn zero() -> (w: Wide)
        ensures
            w.value() == 0,
    {
        Wide { hi: 0, lo: 0 }
    }

    /// `a` times `2^64`.
    pub fn scaled_up(a: u128) -> (w: Wide)
        ensures
            w.value() == a * BASE,
            w.hi < BASE,
    {
        let high: u128 = a / BASE;
        let low: u128 = a % BASE;
        proof {
            assert(a == high * BASE + low);
            assert(low * BASE <= 0xFFFF_FFFF_FFFF_FFFF * 0x1_0000_0000_0000_0000) by (nonlinear_arith)
                requires
                    low <= 0xFFFF_FFFF_FFFF_FFFF,
                    BASE == 0x1_0000_0000_0000_0000,
            ;
            assert(a * BASE == high * pow128() + low * BASE) by (nonlinear_arith)
                requires
                    a == high * BASE + low,
                    BASE * BASE == pow128(),
            ;
        }
        Wide { hi: high, lo: low * BASE }
    }

    /// The exact product of two factors.
    pub fn product(a: u128, b: u128) -> (w: Wide)
        requires
            a <= FACTOR_MAX,
            b <= FACTOR_MAX,
        ensures
            w.value() == a * b,
            w.hi <= 0x400_0000_0000_0000_0000_0000_0000_0000,
    {
        let a1: u128 = a / BASE;
        let a0: u128 = a % BASE;
        let b1: u128 = b / BASE;
        let b0: u128 = b % BASE;
        proof {
            assert(a1 <= 0x2000_0000_0000_0000 && b1 <= 0x2000_0000_0000_0000);
            assert(a0 <= 0xFFFF_FFFF_FFFF_FFFF && b0 <= 0xFFFF_FFFF_FFFF_FFFF);
            lemma_limb_product(a0 as int, b0 as int, 0xFFFF_FFFF_FFFF_FFFF, 0xFFFF_FFFF_FFFF_FFFF);
            lemma_limb_product(a0 as int, b1 as int, 0xFFFF_FFFF_FFFF_FFFF, 0x2000_0000_0000_0000);
            lemma_limb_product(a1 as int, b0 as int, 0x2000_0000_0000_0000, 0xFFFF_FFFF_FFFF_FFFF);
            lemma_limb_product(a1 as int, b1 as int, 0x2000_0000_0000_0000, 0x2000_0000_0000_0000);
            assert(0xFFFF_FFFF_FFFF_FFFFint * 0xFFFF_FFFF_FFFF_FFFF
                == 0xFFFF_FFFF_FFFF_FFFE_0000_0000_0000_0001);
            assert(0xFFFF_FFFF_FFFF_FFFFint * 0x2000_0000_0000_0000
                == 0x1FFF_FFFF_FFFF_FFFF_E000_0000_0000_0000);
            assert(0x2000_0000_0000_0000int * 0x2000_0000_0000_0000
                == 0x400_0000_0000_0000_0000_0000_0000_0000);
        }
        let p00: u128 = a0 * b0;
        let p01: u128 = a0 * b1;
        let p10: u128 = a1 * b0;
        let p11: u128 = a1 * b1;
        let mid: u128 = p01 + p10;
        let mid_high: u128 = mid / BASE;
        let mid_low: u128 = mid % BASE;
        let low_high: u128 = p00 / BASE;
        let low_low: u128 = p00 % BASE;
        let carry: u128 = mid_low + low_high;
        let carry_high: u128 = carry / BASE;
        let carry_low: u128 = carry % BASE;
        proof {
            assert(carry_low * BASE <= 0xFFFF_FFFF_FFFF_FFFF * 0x1_0000_0000_0000_0000) by (nonlinear_arith)
                requires
                    carry_low <= 0xFFFF_FFFF_FFFF_FFFF,
                    BASE == 0x1_0000_0000_0000_0000,
            ;
        }
        let lo: u128 = carry_low * BASE + low_low;
        let hi: u128 = p11 + mid_high + carry_high;
        proof {
            lemma_product_in_limbs(
                a as int,
                b as int,
                a1 as int,
                a0 as int,
                b1 as int,
                b0 as int,
                mid_high as int,
                mid_low as int,
                low_high as int,
                low_low as int,
                carry_high as int,
                carry_low as int,
            );
            lemma_limb_product(a as int, b as int, FACTOR_MAX as int, FACTOR_MAX as int);
            assert(0x2000_0000_0000_0000_0000_0000_0000_0000int
                * 0x2000_0000_0000_0000_0000_0000_0000_0000
                == 0x400_0000_0000_0000_0000_0000_0000_0000 * pow128());
            if hi > 0x400_0000_0000_0000_0000_0000_0000_0000 {
                assert(hi * pow128() >= (0x400_0000_0000_0000_0000_0000_0000_0000 + 1)
                    * pow128()) by (nonlinear_arith)
                    requires
                        hi >= 0x400_0000_0000_0000_0000_0000_0000_0000 + 1,
                ;
            }
        }
        Wide { hi, lo }
    }

    /// Whether this integer is at most the other.
    pub fn at_most(self, other: Wide) -> (r: bool)
        ensures
            r == (self.value() <= other.value()),
    {
        proof {
            lemma_halves_order(self.hi as int, self.lo as int, other.hi as int, other.lo as int);
            lemma_halves_order(other.hi as int, other.lo as int, self.hi as int, self.lo as int);
        }
        self.hi < other.hi || (self.hi == other.hi && self.lo <= other.lo)
    }

    /// The sum of two integers whose upper halves leave room for it.
    pub fn plus(self, other: Wide) -> (w: Wide)
        requires
            self.hi + other.hi < 0xFFFF_FFFF_FFFF_FFFF_FFFF_FFFF_FFFF_FFFF,
        ensures
            w.value() == self.value() + other.value(),
            w.hi <= self.hi + other.hi + 1,
    {
        let w = if self.lo > u128::MAX - other.lo {
            Wide { hi: self.hi + other.hi + 1, lo: self.lo - (u128::MAX - other.lo) - 1 }
        } else {
            Wide { hi: self.hi + other.hi, lo: self.lo + other.lo }
        };
        proof {
            assert(u128::MAX == pow128() - 1);
            assert((self.hi + other.hi + 1) * pow128() == self.hi * pow128() + other.hi * pow128()
                + pow128()) by (nonlinear_arith);
            assert((self.hi + other.hi) * pow128() == self.hi * pow128() + other.hi * pow128())
                by (nonlinear_arith);
        }
        w
    }

    /// The difference of this integer and one that is not larger.
    pub fn minus(self, other: Wide) -> (w: Wide)
        requires
            other.value() <= self.value(),
        ensures
            w.value() == self.value() - other.value(),
    {
        proof {
            lemma_halves_order(other.hi as int, other.lo as int, self.hi as int, self.lo as int);
            assert(u128::MAX == pow128() - 1);
        }
        let w = if self.lo >= other.lo {
            Wide { hi: self.hi - other.hi, lo: self.lo - other.lo }
        } else {
            Wide { hi: self.hi - other.hi - 1, lo: self.lo + (u128::MAX - other.lo) + 1 }
        };
        proof {
            assert((self.hi - other.hi) * pow128() == self.hi * pow128() - other.hi * pow128())
                by (nonlinear_arith);
            assert((self.hi - other.hi - 1) * pow128() == self.hi * pow128() - other.hi * pow128()
                - pow128()) by (nonlinear_arith);
        }
        w
    }

    /// This integer over `2^64`, rounded down, where that fits in 128 bits.
    pub fn scaled_down(self) -> (r: Option<u128>)
        ensures
            match r {
                Some(q) => q == self.value() / (BASE as int),
                None => self.value() / (BASE as int) >= pow128(),
            },
    {
        let low_high: u128 = self.lo / BASE;
        let low_low: u128 = self.lo % BASE;
        proof {
            lemma_scaled_down(self.hi as int, self.lo as int, low_high as int, low_low as int);
        }
        if self.hi < BASE {
            proof {
                assert(self.hi * BASE <= 0xFFFF_FFFF_FFFF_FFFF * 0x1_0000_0000_0000_0000) by (nonlinear_arith)
                    requires
                        self.hi <= 0xFFFF_FFFF_FFFF_FFFF,
                        BASE == 0x1_0000_0000_0000_0000,
                ;
            }
            Some(self.hi * BASE + low_high)
        } else {
            proof {
                assert(self.hi * BASE >= pow128()) by (nonlinear_arith)
                    requires
                        self.hi >= BASE,
                        BASE * BASE == pow128(),
                        BASE > 0,
                ;
            }
            None
        }
    }

    /// The integer square root, rounded down.
    pub fn root(self) -> (r: u128)
        requires
            self.hi < 0x400_0000_0000_0000_0000_0000_0000_0000,
        ensures
            r == floor_sqrt(self.value()),
            r < FACTOR_MAX,
    {
        let mut lo: u128 = 0;
        let mut hi: u128 = FACTOR_MAX;
        proof {
            assert(0x2000_0000_0000_0000_0000_0000_0000_0000int
                * 0x2000_0000_0000_0000_0000_0000_0000_0000
                == 0x400_0000_0000_0000_0000_0000_0000_0000 * pow128());
            assert(self.value() < 0x400_0000_0000_0000_0000_0000_0000_0000 * pow128())
                by (nonlinear_arith)
                requires
                    self.value() == self.hi * pow128() + self.lo,
                    self.hi + 1 <= 0x400_0000_0000_0000_0000_0000_0000_0000,
                    self.lo < pow128(),
            ;
            assert(0int * 0int == 0);
        }
        while hi - lo > 1
            invariant
                lo < hi <= FACTOR_MAX,
                lo * lo <= self.value() < hi * hi,
            decreases hi - lo,
        {
            let mid: u128 = lo + (hi - lo) / 2;
            if Wide::product(mid, mid).at_most(self) {
                lo = mid;
            } else {
                hi = mid;
            }
        }
        proof {
            assert(hi == lo + 1);
            assert(is_floor_sqrt(self.value(), lo as int));
            lemma_floor_sqrt_unique(self.value(), lo as int);
        }
        lo
    }

    /// The largest `q` up to `bound` with `q * divisor` at most this integer.
    pub fn quotient_up_to(self, divisor: u128, bound: u128) -> (q: u128)
        requires
            0 < divisor <= FACTOR_MAX,
            bound < FACTOR_MAX,
        ensures
            q == (if self.value() / (divisor as int) > bound {
                bound as int
            } else {
                self.value() / (divisor as int)
            }),
    {
        let mut lo: u128 = 0;
        let mut hi: u128 = bound + 1;
        proof {
            assert(0 * divisor == 0);
        }
        while hi - lo > 1
            invariant
                lo < hi <= bound + 1,
                bound < FACTOR_MAX,
                0 < divisor <= FACTOR_MAX,
                lo * divisor <= self.value(),
                hi <= bound ==> self.value() < hi * divisor,
            decreases hi - lo,
        {
            let mid: u128 = lo + (hi - lo) / 2;
            if Wide::product(mid, divisor).at_most(self) {
                lo = mid;
            } else {
                hi = mid;
            }
        }
        proof {
            let n = self.value();
            let d = divisor as int;
            if hi <= bound {
                assert((lo + 1) * d == lo * d + d) by (nonlinear_arith);
                vstd::arithmetic::div_mod::lemma_fundamental_div_mod_converse(
                    n,
                    d,
                    lo as int,
                    n - lo * d,
                );
            } else {
                vstd::arithmetic::div_mod::lemma_div_is_ordered(lo * d, n, d);
                vstd::arithmetic::div_mod::lemma_div_multiples_vanish(lo as int, d);
                assert(lo * d == d * lo) by (nonlinear_arith);
            }
        }
        lo
    }
}

/// The product of two limbs within their bounds is within the product of
/// the bounds.
proof fn lemma_limb_product(x: int, y: int, x_max: int, y_max: int)
    requires
        0 <= x <= x_max,
        0 <= y <= y_max,
    ensures
        0 <= x * y <= x_max * y_max,
{
    assert(0 <= x * y <= x_max * y_max) by (nonlinear_arith)
        requires
            0 <= x <= x_max,
            0 <= y <= y_max,
    ;
}

/// The schoolbook product of two numbers of two limbs each.
proof fn lemma_product_in_limbs(
    a: int,
    b: int,
    a1: int,
    a0: int,
    b1: int,
    b0: int,
    mid_high: int,
    mid_low: int,
    low_high: int,
    low_low: int,
    carry_high: int,
    carry_low: int,
)
    requires
        a == a1 * BASE + a0,
        b == b1 * BASE + b0,
        a0 * b1 + a1 * b0 == mid_high * BASE + mid_low,
        a0 * b0 == low_high * BASE + low_low,
        mid_low + low_high == carry_high * BASE + carry_low,
    ensures
        a * b == (a1 * b1 + mid_high + carry_high) * pow128() + (carry_low * BASE + low_low),
{
    let base = BASE as int;
    assert(base * base == pow128());
    let x = a1 * base;
    let y = b1 * base;
    assert(a * b == x * b + a0 * b) by (nonlinear_arith)
        requires
            a == x + a0,
    ;
    assert(x * b == x * y + x * b0) by (nonlinear_arith)
        requires
            b == y + b0,
    ;
    assert(a0 * b == a0 * y + a0 * b0) by (nonlinear_arith)
        requires
            b == y + b0,
    ;
    assert(x * y == a1 * b1 * pow128()) by (nonlinear_arith)
        requires
            x == a1 * base,
            y == b1 * base,
            base * base == pow128(),
    ;
    assert(x * b0 == a1 * b0 * base) by (nonlinear_arith)
        requires
            x == a1 * base,
    ;
    assert(a0 * y == a0 * b1 * base) by (nonlinear_arith)
        requires
            y == b1 * base,
    ;
    let mid = a0 * b1 + a1 * b0;
    assert(a0 * b1 * base + a1 * b0 * base == mid * base) by (nonlinear_arith)
        requires
            mid == a0 * b1 + a1 * b0,
    ;
    assert(a * b == a1 * b1 * pow128() + mid * base + a0 * b0);
    assert(mid * base == mid_high * pow128() + mid_low * base) by (nonlinear_arith)
        requires
            mid == mid_high * base + mid_low,
            base * base == pow128(),
    ;
    let carry = mid_low + low_high;
    assert(mid_low * base + low_high * base == carry * base) by (nonlinear_arith)
        requires
            carry == mid_low + low_high,
    ;
    assert(carry * base == carry_high * pow128() + carry_low * base) by (nonlinear_arith)
        requires
            carry == carry_high * base + carry_low,
            base * base == pow128(),
    ;
    assert((a1 * b1 + mid_high + carry_high) * pow128() == a1 * b1 * pow128() + mid_high
        * pow128() + carry_high * pow128()) by (nonlinear_arith);
}

/// Two integers in halves are ordered by their upper halves first.
proof fn lemma_halves_order(hi: int, lo: int, other_hi: int, other_lo: int)
    requires
        0 <= lo < pow128(),
        0 <= other_lo < pow128(),
    ensures
        hi < other_hi ==> hi * pow128() + lo < other_hi * pow128() + other_lo,
        hi == other_hi ==> (hi * pow128() + lo <= other_hi * pow128() + other_lo <==> lo
            <= other_lo),
{
    if hi < other_hi {
        assert(hi * pow128() + pow128() <= other_hi * pow128()) by (nonlinear_arith)
            requires
                hi + 1 <= other_hi,
        ;
    }
}

/// Dropping the lowest limb of an integer in halves.
proof fn lemma_scaled_down(hi: int, lo: int, low_high: int, low_low: int)
    requires
        0 <= hi,
        lo == low_high * BASE + low_low,
        0 <= low_low < BASE,
        0 <= low_high,
    ensures
        (hi * pow128() + lo) / (BASE as int) == hi * BASE + low_high,
{
    let base = BASE as int;
    assert(base * base == pow128());
    assert(hi * pow128() + lo == (hi * base + low_high) * base + low_low) by (nonlinear_arith)
        requires
            lo == low_high * base + low_low,
            base * base == pow128(),
    ;
    assert(hi * base >= 0) by (nonlinear_arith)
        requires
            hi >= 0,
            base > 0,
    ;
    vstd::arithmetic::div_mod::lemma_fundamental_div_mod_converse(
        hi * pow128() + lo,
        base,
        hi * base + low_high,
        low_low,
    );
}

} // verus!
