//! Double-precision numbers by their bit pattern.
//!
//! The library never computes with such a number. It asks whether one is
//! greater than zero and which of two is the greater, and answers from the
//! bits alone. This module says what number a pattern stands for, and proves
//! that the answers from the bits are the answers for the numbers.

use vstd::arithmetic::power2::{lemma_pow2_pos, lemma_pow2_strictly_increases, lemma_pow2_unfold, pow2};
use vstd::prelude::*;

verus! {

/// The bit that holds the sign.
pub const SIGN_BIT: u64 = 0x8000_0000_0000_0000;

/// The magnitude of the two infinities. A larger magnitude is not a number.
pub const INFINITY_MAGNITUDE: u64 = 0x7FF0_0000_0000_0000;

/// The magnitude of the least pattern with an exponent field above zero: two
/// to the power of the number of fraction bits, 52.
pub const HIDDEN_BIT: u64 = 0x0010_0000_0000_0000;

/// A double-precision number in the IEEE 754 binary64 interchange format:
/// one sign bit, eleven bits of exponent, and 52 bits of fraction. Two are
/// equal where their bits are, so the two zeros differ.
#[derive(Clone, Copy, Debug, PartialEq, Eq, Structural)]
pub struct Binary64 {
    pub bits: u64,
}

/// The exponent field of a pattern with magnitude `m`.
pub open spec fn exponent_field(m: int) -> int {
    m / (HIDDEN_BIT as int)
}

/// The fraction field of a pattern with magnitude `m`.
pub open spec fn fraction_field(m: int) -> int {
    m % (HIDDEN_BIT as int)
}

/// The significand of a pattern with magnitude `m`, in units of the last
/// fraction bit: the fraction, and before it a one unless the exponent field
/// is zero.
pub open spec fn significand(m: int) -> int {
    if exponent_field(m) == 0 {
        fraction_field(m)
    } else {
        HIDDEN_BIT + fraction_field(m)
    }
}

/// The power of two that the significand of a pattern with magnitude `m` is
/// scaled by, counted from that of the least exponent field, which is 1 for
/// the exponent fields 0 and 1 alike.
pub open spec fn scale(m: int) -> nat {
    if exponent_field(m) <= 0 {
        1
    } else {
        exponent_field(m) as nat
    }
}

/// The absolute value of the number with magnitude `m`, multiplied by two to
/// the power of 1075, which makes it an integer. The magnitude of the
/// infinities gets the value that the format would give it if it went on.
pub open spec fn scaled_magnitude(m: int) -> int {
    significand(m) * pow2(scale(m))
}

proof fn lemma_product_increases(a: int, b: int, p: int, q: int)
    by (nonlinear_arith)
    requires
        0 <= a,
        a < b,
        0 < p,
        p <= q,
    ensures
        a * p < b * q,
{
}

proof fn lemma_scaled_magnitude_increases(m: int, n: int)
    requires
        0 <= m < n,
    ensures
        0 <= scaled_magnitude(m) < scaled_magnitude(n),
{
    let e = exponent_field(m);
    let f = exponent_field(n);
    lemma_pow2_pos(scale(m));
    lemma_pow2_pos(scale(n));
    assert(0 <= significand(m) * pow2(scale(m))) by (nonlinear_arith)
        requires
            0 <= significand(m),
            0 < pow2(scale(m)),
    ;
    assert(e <= f);
    if e == f {
        lemma_product_increases(
            significand(m),
            significand(n),
            pow2(scale(m)) as int,
            pow2(scale(n)) as int,
        );
    } else if e == 0 {
        if f > 1 {
            lemma_pow2_strictly_increases(1, scale(n));
        }
        lemma_product_increases(
            significand(m),
            significand(n),
            pow2(scale(m)) as int,
            pow2(scale(n)) as int,
        );
    } else {
        // One step up in the exponent doubles the scale, and the
        // significand is less than twice the hidden bit.
        lemma_pow2_unfold((scale(m) + 1) as nat);
        if scale(m) + 1 < scale(n) {
            lemma_pow2_strictly_increases((scale(m) + 1) as nat, scale(n));
        }
        let p = pow2(scale(m)) as int;
        let q = pow2(scale(n)) as int;
        assert(2 * p <= q);
        assert(significand(m) * p < (HIDDEN_BIT as int) * q) by (nonlinear_arith)
            requires
                0 <= significand(m) < 2 * (HIDDEN_BIT as int),
                0 < p,
                2 * p <= q,
        ;
        assert((HIDDEN_BIT as int) * q <= significand(n) * q) by (nonlinear_arith)
            requires
                HIDDEN_BIT as int <= significand(n),
                0 < q,
        ;
    }
}

impl Binary64 {
    /// Whether the sign bit is set.
    pub open spec fn negative(self) -> bool {
        self.bits >= SIGN_BIT
    }

    /// The 63 bits below the sign bit, as a number.
    pub open spec fn magnitude(self) -> int {
        if self.bits >= SIGN_BIT {
            self.bits - SIGN_BIT
        } else {
            self.bits as int
        }
    }

    /// Whether the pattern stands for no number.
    pub open spec fn is_nan(self) -> bool {
        self.magnitude() > INFINITY_MAGNITUDE
    }

    /// The number that the pattern stands for, multiplied by two to the
    /// power of 1075, which makes it an integer. An infinity gets a value
    /// beyond that of every number on its side. Of a pattern that stands for
    /// no number the value means nothing.
    pub open spec fn scaled_value(self) -> int {
        if self.negative() {
            -scaled_magnitude(self.magnitude())
        } else {
            scaled_magnitude(self.magnitude())
        }
    }

    /// Whether the pattern stands for a number greater than zero.
    pub open spec fn is_positive(self) -> bool {
        !self.is_nan() && self.scaled_value() > 0
    }

    /// Whether `self` is less than `other`; false where either is no number.
    pub open spec fn less_than(self, other: Binary64) -> bool {
        !self.is_nan() && !other.is_nan() && self.scaled_value() < other.scaled_value()
    }

    /// The magnitude with the sign before it: an integer that is cheap to
    /// get from the bits, and that orders the patterns as their numbers are
    /// ordered (see [`order_key_orders_as_value`]).
    pub open spec fn order_key(self) -> int {
        if self.negative() {
            -self.magnitude()
        } else {
            self.magnitude()
        }
    }

    /// The key by which scores are put in order: the order key of a number,
    /// and a key below that of every number for a pattern that stands for
    /// none.
    pub open spec fn sort_key(self) -> int {
        if self.is_nan() {
            i64::MIN as int
        } else {
            self.order_key()
        }
    }

    /// The number with the bit pattern `bits`.
    pub fn from_bits(bits: u64) -> (r: Binary64)
        ensures
            r.bits == bits,
    {
        Binary64 { bits }
    }

    /// The bit pattern of the number.
    pub fn to_bits(self) -> (r: u64)
        ensures
            r == self.bits,
    {
        self.bits
    }

    /// Whether the pattern stands for no number.
    pub fn nan(self) -> (r: bool)
        ensures
            r == self.is_nan(),
    {
        if self.bits >= SIGN_BIT {
            self.bits - SIGN_BIT > INFINITY_MAGNITUDE
        } else {
            self.bits > INFINITY_MAGNITUDE
        }
    }

    /// The order key of the pattern.
    pub fn key(self) -> (r: i64)
        ensures
            r == self.order_key(),
    {
        if self.bits >= SIGN_BIT {
            let m: u64 = self.bits - SIGN_BIT;
            -(m as i64)
        } else {
            self.bits as i64
        }
    }

    /// The sort key of the pattern.
    pub fn sorting_key(self) -> (r: i64)
        ensures
            r == self.sort_key(),
    {
        if self.nan() {
            i64::MIN
        } else {
            self.key()
        }
    }

    /// Whether the pattern stands for a number greater than zero.
    pub fn positive(self) -> (r: bool)
        ensures
            r == self.is_positive(),
    {
        proof {
            order_key_orders_as_value(self, Binary64 { bits: 0 });
        }
        0 < self.bits && self.bits <= INFINITY_MAGNITUDE
    }

    /// Whether `self` is less than `other`; false where either is no number.
    pub fn lt(self, other: Binary64) -> (r: bool)
        ensures
            r == self.less_than(other),
    {
        proof {
            order_key_orders_as_value(self, other);
        }
        !self.nan() && !other.nan() && self.key() < other.key()
    }
}

/// The order key orders the patterns as the numbers that they stand for:
/// the key of `a` is less than that of `b` exactly where the value of `a` is
/// less than that of `b`, and the keys are equal exactly where the values
/// are. The two zeros have the key 0 and the value 0.
pub proof fn order_key_orders_as_value(a: Binary64, b: Binary64)
    ensures
        a.order_key() < b.order_key() <==> a.scaled_value() < b.scaled_value(),
        a.order_key() == b.order_key() <==> a.scaled_value() == b.scaled_value(),
        a.order_key() == 0 <==> a.scaled_value() == 0,
{
    let m = a.magnitude();
    let n = b.magnitude();
    assert(scaled_magnitude(0) == 0) by (nonlinear_arith)
        requires
            significand(0) == 0,
    ;
    if m < n {
        lemma_scaled_magnitude_increases(m, n);
    } else if n < m {
        lemma_scaled_magnitude_increases(n, m);
    }
    if 0 < m {
        lemma_scaled_magnitude_increases(0, m);
    }
    if 0 < n {
        lemma_scaled_magnitude_increases(0, n);
    }
}

} // verus!
