//! Numbers: IEEE-754 doubles, held as their 64-bit patterns.
//!
//! This module reads a pattern (sign, exponent, fraction) and decides what
//! can be decided on integers: order, equality, zero, and the floor. What
//! takes rounding (arithmetic, reading a numeral, turning an integer into
//! a double) is asked of the host (`NumericRequest`).
use vstd::arithmetic::div_mod::{lemma_fundamental_div_mod, lemma_fundamental_div_mod_converse};
use vstd::arithmetic::power2::{
    lemma2_to64, lemma2_to64_rest, lemma_pow2_pos, lemma_pow2_strictly_increases,
    lemma_pow2_unfold, pow2,
};
use vstd::prelude::*;

verus! {

/// The sign bit: 2^63.
pub const SIGN_BIT: u64 = 0x8000_0000_0000_0000;

/// The bit above the fraction: 2^52.
pub const HIDDEN_BIT: u64 = 0x0010_0000_0000_0000;

/// The pattern of positive infinity; a greater magnitude is not a number.
pub const INFINITY_BITS: u64 = 0x7ff0_0000_0000_0000;

/// A double, as its bit pattern.
#[derive(Clone, Copy, Debug, PartialEq, Eq, Hash, Structural)]
pub struct Number {
    pub bits: u64,
}

pub open spec fn negative(bits: u64) -> bool {
    bits >= SIGN_BIT
}

/// The pattern without its sign bit. Among numbers, a greater magnitude is a
/// greater absolute value.
pub open spec fn magnitude(bits: u64) -> int {
    if bits >= SIGN_BIT {
        bits - SIGN_BIT
    } else {
        bits as int
    }
}

pub open spec fn is_nan(bits: u64) -> bool {
    magnitude(bits) > INFINITY_BITS
}

/// Positive or negative zero.
pub open spec fn is_zero(bits: u64) -> bool {
    magnitude(bits) == 0
}

/// An integer that orders the numbers as their values do; both zeros get 0.
pub open spec fn order_key(bits: u64) -> int {
    if negative(bits) {
        -magnitude(bits)
    } else {
        magnitude(bits)
    }
}

/// An integer that orders all patterns as the IEEE total order does: negative
/// before positive, -0 before +0, and what is not a number at the two ends.
pub open spec fn total_key(bits: u64) -> int {
    if negative(bits) {
        -magnitude(bits) - 1
    } else {
        magnitude(bits)
    }
}

/// IEEE equality: false where either side is not a number, and -0 equals +0.
pub open spec fn numeric_eq(a: u64, b: u64) -> bool {
    !is_nan(a) && !is_nan(b) && order_key(a) == order_key(b)
}

/// IEEE less-than: false where either side is not a number.
pub open spec fn numeric_lt(a: u64, b: u64) -> bool {
    !is_nan(a) && !is_nan(b) && order_key(a) < order_key(b)
}

/// The biased exponent field.
pub open spec fn exponent(bits: u64) -> int {
    magnitude(bits) / (HIDDEN_BIT as int)
}

/// The fraction field.
pub open spec fn fraction(bits: u64) -> int {
    magnitude(bits) % (HIDDEN_BIT as int)
}

/// The significand as an integer: the fraction, with the hidden bit unless
/// the number is subnormal.
pub open spec fn significand(bits: u64) -> int {
    if exponent(bits) == 0 {
        fraction(bits)
    } else {
        fraction(bits) + HIDDEN_BIT
    }
}

/// The power of two that the significand is scaled by: the value of a finite
/// number is `significand * 2^scale`, with its sign.
pub open spec fn scale(bits: u64) -> int {
    (if exponent(bits) == 0 {
        1
    } else {
        exponent(bits)
    }) - 1075
}

pub open spec fn signed_significand(bits: u64) -> int {
    if negative(bits) {
        -significand(bits)
    } else {
        significand(bits)
    }
}

/// The greatest integer not above the value (an infinity gives an integer
/// beyond every `i64`, with its sign).
pub open spec fn exact_floor(bits: u64) -> int {
    if scale(bits) >= 0 {
        signed_significand(bits) * pow2(scale(bits) as nat)
    } else {
        signed_significand(bits) / (pow2((-scale(bits)) as nat) as int)
    }
}

/// The floor as an `i64`: 0 for what is not a number, and the nearest `i64`
/// where the floor is out of range.
pub open spec fn floor_of(bits: u64) -> int {
    if is_nan(bits) {
        0
    } else if exact_floor(bits) < i64::MIN {
        i64::MIN as int
    } else if exact_floor(bits) > i64::MAX {
        i64::MAX as int
    } else {
        exact_floor(bits)
    }
}

/// The value is finite and an integer.
pub open spec fn is_integral(bits: u64) -> bool {
    magnitude(bits) < INFINITY_BITS && (scale(bits) >= 0 || significand(bits) % (pow2(
        (-scale(bits)) as nat,
    ) as int) == 0)
}

/// The greatest `i64` is the floor of no double: where the floor is given as
/// `i64::MAX`, the value lies beyond every `i64`.
pub proof fn lemma_floor_at_top(bits: u64)
    ensures
        floor_of(bits) == i64::MAX ==> exact_floor(bits) > i64::MAX,
{
    if !is_nan(bits) && exact_floor(bits) <= i64::MAX {
        let m = significand(bits);
        let sc = scale(bits);
        lemma2_to64();
        lemma2_to64_rest();
        if sc >= 0 {
            let p = pow2(sc as nat) as int;
            if sc >= 11 {
                if sc > 11 {
                    lemma_pow2_strictly_increases(11, sc as nat);
                }
                assert(m * p >= 0x0010_0000_0000_0000 * 2048) by (nonlinear_arith)
                    requires
                        m >= 0x0010_0000_0000_0000,
                        p >= 2048,
                ;
                assert((-m) * p == -(m * p)) by (nonlinear_arith);
            } else {
                if sc < 10 {
                    lemma_pow2_strictly_increases(sc as nat, 10);
                }
                assert(m * p <= 0x001f_ffff_ffff_ffff * 1024) by (nonlinear_arith)
                    requires
                        0 <= m <= 0x001f_ffff_ffff_ffff,
                        0 <= p <= 1024,
                ;
                assert((-m) * p == -(m * p)) by (nonlinear_arith);
            }
        } else {
            let p = pow2((-sc) as nat) as int;
            lemma_pow2_pos((-sc) as nat);
            let x = signed_significand(bits);
            lemma_fundamental_div_mod(x, p);
            assert(x / p <= 0x001f_ffff_ffff_ffff) by (nonlinear_arith)
                requires
                    x == p * (x / p) + x % p,
                    0 <= x % p < p,
                    p >= 1,
                    x <= 0x001f_ffff_ffff_ffff,
            ;
        }
    }
}

/// 2^k.
fn power_of_two(k: u64) -> (p: u64)
    requires
        k <= 62,
    ensures
        p == pow2(k as nat),
        p <= 0x4000_0000_0000_0000,
{
    let mut p: u64 = 1;
    let mut i: u64 = 0;
    proof {
        lemma2_to64();
    }
    while i < k
        invariant
            i <= k <= 62,
            p == pow2(i as nat),
            p <= 0x4000_0000_0000_0000,
        decreases k - i,
    {
        proof {
            lemma_pow2_unfold((i + 1) as nat);
            lemma2_to64_rest();
            if i + 1 < 62 {
                lemma_pow2_strictly_increases((i + 1) as nat, 62);
            }
        }
        p = p * 2;
        i = i + 1;
    }
    p
}

impl Number {
    pub fn new(bits: u64) -> (n: Number)
        ensures
            n.bits == bits,
    {
        Number { bits }
    }

    /// The pattern without its sign bit.
    fn magnitude(&self) -> (m: u64)
        ensures
            m == magnitude(self.bits),
            m < SIGN_BIT,
    {
        if self.bits >= SIGN_BIT {
            self.bits - SIGN_BIT
        } else {
            self.bits
        }
    }

    pub fn is_nan(&self) -> (r: bool)
        ensures
            r == is_nan(self.bits),
    {
        self.magnitude() > INFINITY_BITS
    }

    pub fn is_zero(&self) -> (r: bool)
        ensures
            r == is_zero(self.bits),
    {
        self.magnitude() == 0
    }

    fn order_key(&self) -> (k: i64)
        ensures
            k == order_key(self.bits),
    {
        let m = self.magnitude() as i64;
        if self.bits >= SIGN_BIT {
            -m
        } else {
            m
        }
    }

    fn total_key(&self) -> (k: i64)
        ensures
            k == total_key(self.bits),
    {
        let m = self.magnitude() as i64;
        if self.bits >= SIGN_BIT {
            -m - 1
        } else {
            m
        }
    }

    /// IEEE equality.
    pub fn equals(&self, other: &Number) -> (r: bool)
        ensures
            r == numeric_eq(self.bits, other.bits),
    {
        !self.is_nan() && !other.is_nan() && self.order_key() == other.order_key()
    }

    /// IEEE less-than.
    pub fn less_than(&self, other: &Number) -> (r: bool)
        ensures
            r == numeric_lt(self.bits, other.bits),
    {
        !self.is_nan() && !other.is_nan() && self.order_key() < other.order_key()
    }

    /// Whether `self` comes no later than `other` in the total order.
    pub fn precedes(&self, other: &Number) -> (r: bool)
        ensures
            r == (total_key(self.bits) <= total_key(other.bits)),
    {
        self.total_key() <= other.total_key()
    }

    /// The significand and the biased exponent, 1 for a subnormal number.
    fn parts(&self) -> (r: (u64, u64))
        ensures
            r.0 == significand(self.bits),
            r.1 == scale(self.bits) + 1075,
            r.0 < 2 * HIDDEN_BIT,
            1 <= r.1 <= 2047,
            r.1 >= 2 ==> r.0 >= HIDDEN_BIT,
    {
        let m = self.magnitude();
        let raw = m / HIDDEN_BIT;
        let frac = m % HIDDEN_BIT;
        if raw == 0 {
            (frac, 1)
        } else {
            (frac + HIDDEN_BIT, raw)
        }
    }

    /// The floor of the value as an `i64`.
    pub fn floor(&self) -> (r: i64)
        ensures
            r == floor_of(self.bits),
    {
        if self.is_nan() {
            return 0;
        }
        let down = self.bits >= SIGN_BIT;
        let (m, e) = self.parts();
        proof {
            lemma2_to64();
            lemma2_to64_rest();
        }
        if e >= 1075 {
            let k = e - 1075;
            if k >= 11 {
                proof {
                    if k > 11 {
                        lemma_pow2_strictly_increases(11, k as nat);
                    }
                    let p = pow2(k as nat) as int;
                    assert(m * p >= 0x0010_0000_0000_0000 * 2048) by (nonlinear_arith)
                        requires
                            m >= 0x0010_0000_0000_0000,
                            p >= 2048,
                    ;
                    assert((-(m as int)) * p == -(m * p)) by (nonlinear_arith);
                }
                if down {
                    i64::MIN
                } else {
                    i64::MAX
                }
            } else {
                let p = power_of_two(k);
                proof {
                    if k < 10 {
                        lemma_pow2_strictly_increases(k as nat, 10);
                    }
                    assert(m * p <= 0x001f_ffff_ffff_ffff * 1024) by (nonlinear_arith)
                        requires
                            0 <= m <= 0x001f_ffff_ffff_ffff,
                            0 <= p <= 1024,
                    ;
                    assert((-(m as int)) * (p as int) == -(m * p)) by (nonlinear_arith);
                }
                let v = (m * p) as i64;
                if down {
                    -v
                } else {
                    v
                }
            }
        } else {
            let d = 1075 - e;
            if d >= 53 {
                proof {
                    if d > 53 {
                        lemma_pow2_strictly_increases(53, d as nat);
                    }
                    let p = pow2(d as nat) as int;
                    lemma_fundamental_div_mod_converse(m as int, p, 0, m as int);
                    if m > 0 {
                        lemma_fundamental_div_mod_converse(-(m as int), p, -1, p - m);
                    }
                }
                if down && m > 0 {
                    -1
                } else {
                    0
                }
            } else {
                let p = power_of_two(d);
                let q = m / p;
                let rest = m % p;
                proof {
                    lemma_pow2_pos(d as nat);
                    let pi = p as int;
                    lemma_fundamental_div_mod(m as int, pi);
                    assert(pi * (q as int) == q * pi) by (nonlinear_arith);
                    assert(m == q * pi + rest);
                    if rest == 0 {
                        assert(-(m as int) == (-(q as int)) * pi + 0) by (nonlinear_arith)
                            requires
                                m == q * pi + rest,
                                rest == 0,
                        ;
                        lemma_fundamental_div_mod_converse(-(m as int), pi, -(q as int), 0);
                    } else {
                        assert(-(m as int) == (-(q as int) - 1) * pi + (pi - rest))
                            by (nonlinear_arith)
                            requires
                                m == q * pi + rest,
                        ;
                        lemma_fundamental_div_mod_converse(
                            -(m as int),
                            pi,
                            -(q as int) - 1,
                            pi - rest,
                        );
                    }
                }
                let v = q as i64;
                if !down {
                    v
                } else if rest == 0 {
                    -v
                } else {
                    -v - 1
                }
            }
        }
    }

    /// Whether the value is finite and an integer.
    pub fn is_integral(&self) -> (r: bool)
        ensures
            r == is_integral(self.bits),
    {
        if self.magnitude() >= INFINITY_BITS {
            return false;
        }
        let (m, e) = self.parts();
        proof {
            lemma2_to64();
            lemma2_to64_rest();
        }
        if e >= 1075 {
            true
        } else {
            let d = 1075 - e;
            if d >= 53 {
                proof {
                    if d > 53 {
                        lemma_pow2_strictly_increases(53, d as nat);
                    }
                    lemma_fundamental_div_mod_converse(m as int, pow2(d as nat) as int, 0, m as int);
                }
                m == 0
            } else {
                let p = power_of_two(d);
                proof {
                    lemma_pow2_pos(d as nat);
                }
                m % p == 0
            }
        }
    }
}

} // verus!
