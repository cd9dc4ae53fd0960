//! Binary64 values held by their bit patterns, with the order of IEEE 754.
//!
//! The library never does floating-point arithmetic. What it does with a
//! floating-point number is compare it, and for that the bit pattern is enough:
//! `scaled` gives the number that a pattern stands for, as an exact integer
//! multiple of the smallest positive value, and every comparison here is proved
//! to be the comparison of those integers.

use vstd::arithmetic::power2::{lemma_pow2_adds, lemma_pow2_pos, lemma_pow2_strictly_increases, lemma_pow2_unfold, pow2};
use vstd::prelude::*;

verus! {

/// The weight of the sign bit.
pub const SIGN_WEIGHT: u64 = 0x8000_0000_0000_0000;

/// The weight of the lowest exponent bit.
pub const EXPONENT_WEIGHT: u64 = 0x0010_0000_0000_0000;

/// The unsigned bits of an infinity. Larger unsigned bits are a NaN.
pub const INFINITY_BITS: u64 = 0x7ff0_0000_0000_0000;

/// A binary64 value held by its bit pattern. The derived `==` compares
/// patterns; `equals` compares numbers.
#[derive(Clone, Copy, Debug, PartialEq, Eq, Structural)]
pub struct Binary64 {
    /// Sign, 11 exponent bits and 52 fraction bits, from the top.
    pub bits: u64,
}

/// The size of the number with unsigned bits `m`, in units of the smallest
/// positive binary64 value. An infinity comes out as two to the power 2098,
/// above every finite number.
pub open spec fn scaled_magnitude(m: int) -> int {
    let exponent = m / EXPONENT_WEIGHT as int;
    let fraction = m % EXPONENT_WEIGHT as int;
    if exponent == 0 {
        fraction
    } else {
        (EXPONENT_WEIGHT + fraction) * pow2((exponent - 1) as nat)
    }
}

/// `r` is the larger of two numbers: one of them and no smaller than either. A NaN
/// gives way to the other.
pub open spec fn is_max(a: Binary64, b: Binary64, r: Binary64) -> bool {
    &&& r == a || r == b
    &&& a.nan() ==> r == b
    &&& !a.nan() && b.nan() ==> r == a
    &&& !a.nan() && !b.nan() ==> a.at_most(r) && b.at_most(r)
}

/// `r` is the smaller of two numbers, under the same rules.
pub open spec fn is_min(a: Binary64, b: Binary64, r: Binary64) -> bool {
    &&& r == a || r == b
    &&& a.nan() ==> r == b
    &&& !a.nan() && b.nan() ==> r == a
    &&& !a.nan() && !b.nan() ==> r.at_most(a) && r.at_most(b)
}

/// A larger unsigned pattern is a larger number.
pub proof fn lemma_scaled_magnitude_increases(a: int, b: int)
    requires
        0 <= a < b,
    ensures
        0 <= scaled_magnitude(a) < scaled_magnitude(b),
{
    let w = EXPONENT_WEIGHT as int;
    let ea = a / w;
    let eb = b / w;
    let fa = a % w;
    let fb = b % w;
    assert(0 <= ea <= eb);
    assert(a == ea * w + fa && b == eb * w + fb);
    if ea == eb {
        if ea > 0 {
            let p = pow2((ea - 1) as nat) as int;
            lemma_pow2_pos((ea - 1) as nat);
            assert(0 <= (w + fa) * p < (w + fb) * p) by (nonlinear_arith)
                requires
                    p > 0,
                    0 <= w + fa < w + fb,
            ;
        }
    } else {
        let q = pow2((eb - 1) as nat) as int;
        lemma_pow2_pos((eb - 1) as nat);
        assert(scaled_magnitude(b) >= w * q) by (nonlinear_arith)
            requires
                q > 0,
                fb >= 0,
                scaled_magnitude(b) == (w + fb) * q,
        ;
        if ea == 0 {
            assert(w * q >= w) by (nonlinear_arith)
                requires
                    q >= 1,
                    w > 0,
            ;
        } else {
            let p = pow2((ea - 1) as nat) as int;
            lemma_pow2_pos((ea - 1) as nat);
            lemma_pow2_unfold(ea as nat);
            if ea < eb - 1 {
                lemma_pow2_strictly_increases(ea as nat, (eb - 1) as nat);
            }
            assert(2 * p <= q);
            assert(0 <= (w + fa) * p < w * q) by (nonlinear_arith)
                requires
                    p > 0,
                    2 * p <= q,
                    0 <= fa < w,
            ;
        }
    }
}

impl Binary64 {
    /// The bits below the sign.
    pub open spec fn unsigned(self) -> int {
        self.bits as int % SIGN_WEIGHT as int
    }

    pub open spec fn is_negative(self) -> bool {
        self.bits >= SIGN_WEIGHT
    }

    pub open spec fn nan(self) -> bool {
        self.unsigned() > INFINITY_BITS
    }

    /// The number that the pattern stands for, in units of the smallest positive
    /// binary64 value. Meaningless on a NaN.
    pub open spec fn scaled(self) -> int {
        if self.is_negative() {
            -scaled_magnitude(self.unsigned())
        } else {
            scaled_magnitude(self.unsigned())
        }
    }

    /// `self < other` of IEEE 754.
    pub open spec fn less(self, other: Self) -> bool {
        !self.nan() && !other.nan() && self.scaled() < other.scaled()
    }

    /// `self <= other` of IEEE 754.
    pub open spec fn at_most(self, other: Self) -> bool {
        !self.nan() && !other.nan() && self.scaled() <= other.scaled()
    }

    /// `self == other` of IEEE 754.
    pub open spec fn same_number(self, other: Self) -> bool {
        !self.nan() && !other.nan() && self.scaled() == other.scaled()
    }

    /// The signed integer that orders patterns as their numbers are ordered.
    spec fn key(self) -> int {
        if self.is_negative() {
            -self.unsigned()
        } else {
            self.unsigned()
        }
    }

    /// Takes a pattern as `f64::to_bits` gives it.
    pub fn from_bits(bits: u64) -> (r: Self)
        ensures
            r.bits == bits,
    {
        Binary64 { bits }
    }

    /// Positive zero.
    pub fn zero() -> (r: Self)
        ensures
            r.bits == 0,
            !r.nan(),
            r.scaled() == 0,
    {
        Binary64 { bits: 0 }
    }

    /// Positive infinity.
    pub fn infinity() -> (r: Self)
        ensures
            r.bits == INFINITY_BITS,
            !r.nan(),
    {
        Binary64 { bits: INFINITY_BITS }
    }

    /// Negative infinity.
    pub fn negative_infinity() -> (r: Self)
        ensures
            r.bits == SIGN_WEIGHT + INFINITY_BITS,
            !r.nan(),
    {
        Binary64 { bits: SIGN_WEIGHT + INFINITY_BITS }
    }

    /// A quiet NaN.
    pub fn quiet_nan() -> (r: Self)
        ensures
            r.nan(),
    {
        Binary64 { bits: 0x7ff8_0000_0000_0000 }
    }

    pub fn is_nan(self) -> (r: bool)
        ensures
            r == self.nan(),
    {
        self.bits % SIGN_WEIGHT > INFINITY_BITS
    }

    fn order_key(self) -> (r: i64)
        ensures
            r == self.key(),
    {
        let m: i64 = (self.bits % SIGN_WEIGHT) as i64;
        if self.bits >= SIGN_WEIGHT {
            -m
        } else {
            m
        }
    }

    /// `self < other`, false where either is a NaN.
    pub fn lt(self, other: Self) -> (r: bool)
        ensures
            r == self.less(other),
    {
        proof {
            lemma_key_orders(self, other);
        }
        !self.is_nan() && !other.is_nan() && self.order_key() < other.order_key()
    }

    /// `self <= other`, false where either is a NaN.
    pub fn le(self, other: Self) -> (r: bool)
        ensures
            r == self.at_most(other),
    {
        proof {
            lemma_key_orders(self, other);
        }
        !self.is_nan() && !other.is_nan() && self.order_key() <= other.order_key()
    }

    /// `self == other` as numbers: the two zeros are equal, a NaN equals nothing.
    pub fn equals(self, other: Self) -> (r: bool)
        ensures
            r == self.same_number(other),
    {
        proof {
            lemma_key_orders(self, other);
        }
        !self.is_nan() && !other.is_nan() && self.order_key() == other.order_key()
    }

    /// The larger of two numbers. A NaN gives way to the other argument; of two
    /// equal numbers either may come back.
    pub fn max(self, other: Self) -> (r: Self)
        ensures
            is_max(self, other, r),
    {
        if self.is_nan() || self.lt(other) {
            other
        } else {
            self
        }
    }

    /// The smaller of two numbers, under the same rules as `max`.
    pub fn min(self, other: Self) -> (r: Self)
        ensures
            is_min(self, other, r),
    {
        if self.is_nan() || other.lt(self) {
            other
        } else {
            self
        }
    }

    /// The same number with the other sign.
    pub fn negate(self) -> (r: Self)
        ensures
            r.is_negative() != self.is_negative(),
            r.unsigned() == self.unsigned(),
            r.nan() == self.nan(),
            r.scaled() == -self.scaled(),
    {
        if self.bits >= SIGN_WEIGHT {
            Binary64 { bits: self.bits - SIGN_WEIGHT }
        } else {
            Binary64 { bits: self.bits + SIGN_WEIGHT }
        }
    }

    /// The absolute value: the pattern with its sign bit cleared.
    pub fn abs(self) -> (r: Self)
        ensures
            r.bits == self.unsigned(),
            r.nan() == self.nan(),
            !r.nan() ==> r.scaled() == if self.scaled() < 0 {
                -self.scaled()
            } else {
                self.scaled()
            },
    {
        proof {
            if self.unsigned() > 0 {
                lemma_scaled_magnitude_increases(0, self.unsigned());
            }
        }
        Binary64 { bits: self.bits % SIGN_WEIGHT }
    }
}

/// Comparing keys is comparing numbers.
proof fn lemma_key_orders(a: Binary64, b: Binary64)
    ensures
        a.key() < b.key() <==> a.scaled() < b.scaled(),
        a.key() == b.key() <==> a.scaled() == b.scaled(),
{
    let ua = a.unsigned();
    let ub = b.unsigned();
    assert(scaled_magnitude(0) == 0);
    if ua > 0 {
        lemma_scaled_magnitude_increases(0, ua);
    }
    if ub > 0 {
        lemma_scaled_magnitude_increases(0, ub);
    }
    if ua < ub {
        lemma_scaled_magnitude_increases(ua, ub);
    }
    if ub < ua {
        lemma_scaled_magnitude_increases(ub, ua);
    }
}

/// Two numbers that are not NaN are always comparable.
pub proof fn law_order_is_total(a: Binary64, b: Binary64)
    requires
        !a.nan(),
        !b.nan(),
    ensures
        a.at_most(b) || b.at_most(a),
        a.less(b) <==> !b.at_most(a),
        a.at_most(b) && b.at_most(a) <==> a.same_number(b),
{
}

/// The order is transitive.
pub proof fn law_order_is_transitive(a: Binary64, b: Binary64, c: Binary64)
    requires
        a.at_most(b),
        b.at_most(c),
    ensures
        a.at_most(c),
        a.less(b) || b.less(c) ==> a.less(c),
{
}

/// Only the two zeros are equal numbers with different patterns.
pub proof fn law_equal_numbers_have_equal_bits(a: Binary64, b: Binary64)
    requires
        a.same_number(b),
        a.unsigned() != 0,
    ensures
        a.bits == b.bits,
{
    lemma_key_orders(a, b);
}

/// No number lies outside the infinities.
pub proof fn law_infinities_bound_every_number(x: Binary64, low: Binary64, high: Binary64)
    requires
        !x.nan(),
        low.bits == SIGN_WEIGHT + INFINITY_BITS,
        high.bits == INFINITY_BITS,
    ensures
        low.at_most(x),
        x.at_most(high),
{
    lemma_key_orders(low, x);
    lemma_key_orders(x, high);
}

/// The number one.
pub open spec fn one() -> int {
    (Binary64 { bits: 0x3ff0_0000_0000_0000 }).scaled()
}

/// `x` is the quotient of two whole numbers, as exactly as a binary64 number can be:
/// off by less than one part in two to the power 50.
pub open spec fn is_quotient(x: Binary64, num: int, den: int) -> bool {
    let exact = num * one();
    let got = den * x.scaled();
    &&& !x.nan()
    &&& (got - exact) * 0x4_0000_0000_0000 <= exact
    &&& (exact - got) * 0x4_0000_0000_0000 <= exact
}

/// A number with exponent `1023 - k` is its fraction times a power of two of which
/// one is two to the power `k` times as much.
pub(crate) proof fn lemma_below_one(x: Binary64, k: nat) -> (p: int)
    requires
        x.bits < SIGN_WEIGHT,
        k <= 1022,
        x.bits as int / EXPONENT_WEIGHT as int == 1023 - k,
    ensures
        p > 0,
        !x.nan(),
        x.scaled() == (EXPONENT_WEIGHT + x.bits as int % EXPONENT_WEIGHT as int) * p,
        one() == EXPONENT_WEIGHT * (pow2(k) * p),
{
    let w = EXPONENT_WEIGHT as int;
    let p = pow2((1022 - k) as nat) as int;
    lemma_pow2_pos((1022 - k) as nat);
    lemma_pow2_adds(k, (1022 - k) as nat);
    assert(0x3ff0_0000_0000_0000int / w == 1023 && 0x3ff0_0000_0000_0000int % w == 0);
    assert(x.bits as int == x.unsigned());
    assert(x.bits as int == w * (x.bits as int / w) + x.bits as int % w);
    p
}

/// The same for a number with exponent `1023 + k`.
pub(crate) proof fn lemma_above_one(x: Binary64, k: nat) -> (p: int)
    requires
        x.bits < SIGN_WEIGHT,
        k <= 1000,
        x.bits as int / EXPONENT_WEIGHT as int == 1023 + k,
    ensures
        p > 0,
        !x.nan(),
        x.scaled() == (EXPONENT_WEIGHT + x.bits as int % EXPONENT_WEIGHT as int) * (pow2(k) * p),
        one() == EXPONENT_WEIGHT * p,
{
    let w = EXPONENT_WEIGHT as int;
    let p = pow2(1022) as int;
    lemma_pow2_pos(1022);
    lemma_pow2_adds(k, 1022);
    assert(0x3ff0_0000_0000_0000int / w == 1023 && 0x3ff0_0000_0000_0000int % w == 0);
    assert(x.bits as int == x.unsigned());
    assert(x.bits as int == w * (x.bits as int / w) + x.bits as int % w);
    p
}

} // verus!
