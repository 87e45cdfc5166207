//! Single-precision constants and the expressions computed from them.
//!
//! A [`Float`] is the bit pattern of an IEEE-754 single. Comparisons are decided on the bits;
//! arithmetic is kept as a [`Scalar`] expression, to be computed by whatever runs the graph.

use std::sync::Arc;
use vstd::arithmetic::power2::{
    lemma2_to64, lemma_pow2_pos, lemma_pow2_strictly_increases, lemma_pow2_unfold, pow2,
};
use vstd::prelude::*;

verus! {

/// The bit pattern of an IEEE-754 single-precision number.
#[derive(Clone, Copy, PartialEq, Eq, Debug, Structural)]
pub struct Float {
    pub bits: u32,
}

/// The bit that holds the sign.
pub const SIGN_BIT: u32 = 0x8000_0000;

/// The bit pattern of positive infinity; larger magnitudes are not numbers.
pub const INFINITY_BITS: u32 = 0x7f80_0000;

/// The bit pattern of zero.
pub const ZERO_BITS: u32 = 0;

/// The bit pattern of one.
pub const ONE_BITS: u32 = 0x3f80_0000;

/// The bit pattern of negative infinity.
pub const NEG_INFINITY_BITS: u32 = 0xff80_0000;

/// The bit pattern of two.
pub const TWO_BITS: u32 = 0x4000_0000;

/// The constant with the given bits.
pub open spec fn lit(bits: u32) -> Scalar {
    Scalar::Lit(Float { bits })
}

impl Float {
    /// The bits without the sign.
    pub open spec fn magnitude(self) -> int {
        if self.bits >= SIGN_BIT {
            self.bits - SIGN_BIT
        } else {
            self.bits as int
        }
    }

    /// Whether the bits stand for no number.
    pub open spec fn is_nan(self) -> bool {
        self.magnitude() > INFINITY_BITS
    }

    /// The place of a number in the order of all numbers; the two zeros share one.
    pub open spec fn rank(self) -> int {
        if self.bits >= SIGN_BIT {
            -self.magnitude()
        } else {
            self.magnitude()
        }
    }

    /// `self < other`, false where either is not a number.
    pub open spec fn less(self, other: Float) -> bool {
        !self.is_nan() && !other.is_nan() && self.rank() < other.rank()
    }

    /// `self == other`, false where either is not a number.
    pub open spec fn same(self, other: Float) -> bool {
        !self.is_nan() && !other.is_nan() && self.rank() == other.rank()
    }

    /// The exponent field.
    pub open spec fn exponent(self) -> int {
        self.magnitude() / 0x80_0000
    }

    /// The significand of a number of at least one, as an integer.
    pub open spec fn significand(self) -> int {
        self.magnitude() % 0x80_0000 + 0x80_0000
    }

    /// The absolute value, cut down to an integer; numbers past the 32-bit range count as 2^31.
    pub open spec fn whole(self) -> int {
        if self.exponent() < 127 {
            0
        } else if self.exponent() >= 158 {
            0x8000_0000
        } else if self.exponent() <= 150 {
            self.significand() / pow2((150 - self.exponent()) as nat) as int
        } else {
            self.significand() * pow2((self.exponent() - 150) as nat)
        }
    }

    /// The number cut down to a 32-bit integer: what is not a number becomes zero, what is out of
    /// range becomes the nearest bound.
    pub open spec fn truncated(self) -> int {
        if self.is_nan() {
            0
        } else if self.bits >= SIGN_BIT {
            -self.whole()
        } else if self.whole() > i32::MAX {
            i32::MAX as int
        } else {
            self.whole()
        }
    }

    /// Cuts the number down to a 32-bit integer.
    pub fn to_i32(self) -> (r: i32)
        ensures
            r == self.truncated(),
    {
        let (negative, magnitude): (bool, u32) = self.sign_and_magnitude();
        if magnitude > INFINITY_BITS {
            return 0;
        }
        let exponent: u32 = magnitude / 0x80_0000;
        let significand: u32 = magnitude % 0x80_0000 + 0x80_0000;
        let whole: u32 = if exponent < 127 {
            0
        } else if exponent >= 158 {
            0x8000_0000
        } else if exponent <= 150 {
            let p: u32 = power_of_two(150 - exponent);
            significand / p
        } else {
            let p: u32 = power_of_two(exponent - 150);
            proof {
                lemma2_to64();
                assert(p <= 0x80) by {
                    if exponent < 157 {
                        lemma_pow2_strictly_increases((exponent - 150) as nat, 7);
                    }
                }
                assert(significand * p <= 0x100_0000 * 0x80) by (nonlinear_arith)
                    requires
                        significand <= 0x100_0000,
                        p <= 0x80,
                ;
            }
            significand * p
        };
        assert(whole == self.whole());
        if negative {
            if whole >= 0x8000_0000 {
                -0x8000_0000
            } else {
                -(whole as i32)
            }
        } else if whole > 0x7fff_ffff {
            0x7fff_ffff
        } else {
            whole as i32
        }
    }

    /// The significand as an integer; that of a tiny number has no leading digit.
    pub open spec fn digits(self) -> nat {
        if self.exponent() == 0 {
            (self.magnitude() % 0x80_0000) as nat
        } else {
            self.significand() as nat
        }
    }

    /// The absolute value of the product with an integer, each step rounded to single precision, cut
    /// down to an integer; at most 2^31.
    pub open spec fn product_whole(self, n: i32) -> nat {
        let rounded = rounded24(rounded24(absolute(n)) * self.digits());
        let exact = if self.exponent() >= 150 {
            rounded * pow2((self.exponent() - 150) as nat)
        } else {
            rounded / pow2((150 - self.exponent()) as nat)
        };
        if exact < 0x8000_0000 {
            exact
        } else {
            0x8000_0000
        }
    }

    /// The product with an integer in single precision, cut down to a 32-bit integer: what is not
    /// a number becomes zero, what is out of range becomes the nearest bound.
    pub open spec fn product_truncated(self, n: i32) -> int {
        if self.is_nan() {
            0
        } else if (self.bits >= SIGN_BIT) != (n < 0) {
            -self.product_whole(n)
        } else if self.product_whole(n) > i32::MAX {
            i32::MAX as int
        } else {
            self.product_whole(n) as int
        }
    }

    /// Multiplies by an integer in single precision and cuts the product down to an integer.
    pub fn times_int(self, n: i32) -> (r: i32)
        ensures
            r == self.product_truncated(n),
    {
        let (negative, magnitude): (bool, u32) = self.sign_and_magnitude();
        if magnitude > INFINITY_BITS {
            return 0;
        }
        let exponent: u32 = magnitude / 0x80_0000;
        let digits: u64 = if exponent == 0 {
            (magnitude % 0x80_0000) as u64
        } else {
            (magnitude % 0x80_0000 + 0x80_0000) as u64
        };
        let size: u64 = if n < 0 {
            (-(n as i64)) as u64
        } else {
            n as u64
        };
        let a: u64 = round24(size);
        proof {
            lemma_rounded24(size as nat);
            assert(a * digits <= 0x1_0000_0000 * 0x100_0000) by (nonlinear_arith)
                requires
                    a <= 0x1_0000_0000,
                    digits <= 0x100_0000,
            ;
        }
        let product: u64 = a * digits;
        let rounded: u64 = round24(product);
        proof {
            lemma_rounded24(product as nat);
        }
        let whole: u64 = if rounded == 0 {
            proof {
                if exponent >= 150 {
                    assert(0 * pow2((exponent - 150) as nat) == 0);
                } else {
                    lemma_pow2_pos((150 - exponent) as nat);
                    vstd::arithmetic::div_mod::lemma_div_basics(
                        pow2((150 - exponent) as nat) as int,
                    );
                }
            }
            0
        } else if exponent >= 181 {
            proof {
                let k = (exponent - 150) as nat;
                lemma2_to64();
                if k > 31 {
                    lemma_pow2_strictly_increases(31, k);
                }
                assert(rounded * pow2(k) >= 0x8000_0000) by (nonlinear_arith)
                    requires
                        rounded >= 1,
                        pow2(k) >= 0x8000_0000,
                ;
            }
            0x8000_0000
        } else if exponent >= 150 {
            let p: u32 = power_of_two(exponent - 150);
            proof {
                lemma2_to64();
                if exponent < 181 {
                    if exponent - 150 < 31 {
                        lemma_pow2_strictly_increases((exponent - 150) as nat, 31);
                    }
                }
                assert(rounded * p <= 0x1_0000_0000_0000_0000 * 0x8000_0000) by (nonlinear_arith)
                    requires
                        0 <= rounded <= 0x1_0000_0000_0000_0000,
                        0 <= p <= 0x8000_0000,
                ;
            }
            let wide: u128 = rounded as u128 * p as u128;
            if wide < 0x8000_0000 {
                wide as u64
            } else {
                0x8000_0000
            }
        } else {
            let wide: u64 = halved(rounded, 150 - exponent);
            if wide < 0x8000_0000 {
                wide
            } else {
                0x8000_0000
            }
        };
        assert(whole == self.product_whole(n));
        if negative != (n < 0) {
            (-(whole as i64)) as i32
        } else if whole > 0x7fff_ffff {
            0x7fff_ffff
        } else {
            whole as i32
        }
    }

    fn sign_and_magnitude(self) -> (r: (bool, u32))
        ensures
            r.0 == (self.bits >= SIGN_BIT),
            r.1 == self.magnitude(),
    {
        if self.bits >= SIGN_BIT {
            (true, self.bits - SIGN_BIT)
        } else {
            (false, self.bits)
        }
    }

    /// Whether this number is below `other`.
    pub fn lt(self, other: Float) -> (r: bool)
        ensures
            r == self.less(other),
    {
        let (a_neg, a): (bool, u32) = self.sign_and_magnitude();
        let (b_neg, b): (bool, u32) = other.sign_and_magnitude();
        if a > INFINITY_BITS || b > INFINITY_BITS {
            false
        } else if a_neg {
            if b_neg {
                a > b
            } else {
                a > 0 || b > 0
            }
        } else {
            !b_neg && a < b
        }
    }

    /// Whether this number equals `other`.
    pub fn equals(self, other: Float) -> (r: bool)
        ensures
            r == self.same(other),
    {
        let (a_neg, a): (bool, u32) = self.sign_and_magnitude();
        let (b_neg, b): (bool, u32) = other.sign_and_magnitude();
        a <= INFINITY_BITS && b <= INFINITY_BITS && a == b && (a_neg == b_neg || a == 0)
    }
}

/// The absolute value.
pub open spec fn absolute(n: i32) -> nat {
    if n < 0 {
        (-n) as nat
    } else {
        n as nat
    }
}

/// The number of binary digits of `n` beyond 24.
pub open spec fn excess(n: nat) -> nat
    decreases n,
{
    if n < 0x100_0000 {
        0
    } else {
        1 + excess(n / 2)
    }
}

/// `n` rounded to 24 binary digits; halfway cases go to the even neighbour.
pub open spec fn rounded24(n: nat) -> nat {
    let s = excess(n);
    if s == 0 {
        n
    } else {
        let unit = pow2(s);
        let low = n / unit;
        let rest = n % unit;
        let up = rest > unit / 2 || (rest == unit / 2 && low % 2 == 1);
        (if up {
            low + 1
        } else {
            low
        }) * unit
    }
}

/// What rounding leaves is at most twice the number.
proof fn lemma_rounded24(n: nat)
    ensures
        rounded24(n) <= 2 * n,
{
    let s = excess(n);
    if s > 0 {
        let unit = pow2(s);
        lemma_pow2_pos(s);
        vstd::arithmetic::div_mod::lemma_fundamental_div_mod(n as int, unit as int);
        lemma_excess_quotient(n);
        let low = n / unit;
        assert((low + 1) * unit <= 2 * (unit * low)) by (nonlinear_arith)
            requires
                low >= 1,
                unit >= 1,
        ;
        assert(low * unit <= (low + 1) * unit) by (nonlinear_arith)
            requires
                unit >= 1,
        ;
    }
}

/// Without its digits beyond 24, a number has 24 of them.
proof fn lemma_excess_quotient(n: nat)
    requires
        excess(n) > 0,
    ensures
        0x80_0000 <= n / pow2(excess(n)) < 0x100_0000,
    decreases n,
{
    let s = excess(n);
    lemma2_to64();
    lemma_pow2_unfold(s);
    lemma_pow2_pos((s - 1) as nat);
    vstd::arithmetic::div_mod::lemma_div_denominator(n as int, 2, pow2((s - 1) as nat) as int);
    if s - 1 == 0 {
        reveal_with_fuel(excess, 2);
        assert(excess(n / 2) == 0);
    } else {
        lemma_excess_quotient(n / 2);
    }
}

/// Rounding moves a number by at most its 2^24th part.
proof fn lemma_rounding(n: nat)
    ensures
        rounded24(n) * 0x100_0000 <= n * 0x100_0001,
        n >= 1 ==> rounded24(n) >= 1,
{
    let s = excess(n);
    if s > 0 {
        let unit = pow2(s);
        lemma_pow2_pos(s);
        lemma_pow2_unfold(s);
        lemma_excess_quotient(n);
        vstd::arithmetic::div_mod::lemma_fundamental_div_mod(n as int, unit as int);
        let low = n / unit;
        let rest = n % unit;
        assert(n == low * unit + rest) by (nonlinear_arith)
            requires
                n == unit * low + rest,
        ;
        assert((low + 1) * unit == low * unit + unit) by (nonlinear_arith);
        assert(low * unit >= 0x80_0000 * unit) by (nonlinear_arith)
            requires
                low >= 0x80_0000,
        ;
    }
}

/// Rounding keeps the order.
proof fn lemma_rounding_order(m: nat, n: nat)
    requires
        m <= n,
    ensures
        rounded24(m) <= rounded24(n),
{
    let (s, t) = (excess(m), excess(n));
    lemma_excess_order(m, n);
    lemma2_to64();
    lemma_pow2_pos(s);
    lemma_pow2_pos(t);
    let (u, v) = (pow2(s), pow2(t));
    let (a, b) = (m / u, n / v);
    let (c, d) = (m % u, n % v);
    vstd::arithmetic::div_mod::lemma_fundamental_div_mod(m as int, u as int);
    vstd::arithmetic::div_mod::lemma_fundamental_div_mod(n as int, v as int);
    if s > 0 {
        lemma_excess_quotient(m);
    }
    if t > 0 {
        lemma_excess_quotient(n);
    }
    if s == t {
        if s > 0 {
            vstd::arithmetic::div_mod::lemma_div_is_ordered(m as int, n as int, u as int);
            if a == b {
                assert(c <= d);
            } else {
                assert((a + 1) * u <= b * u) by (nonlinear_arith)
                    requires
                        a + 1 <= b,
                        u > 0,
                ;
                assert(a * u <= (a + 1) * u && b * u <= (b + 1) * u) by (nonlinear_arith)
                    requires
                        u > 0,
                ;
            }
            assert(a * u <= (a + 1) * u) by (nonlinear_arith)
                requires
                    u > 0,
            ;
        }
    } else {
        assert(pow2(s + 1) <= v) by {
            if s + 1 < t {
                lemma_pow2_strictly_increases(s + 1, t);
            }
        }
        lemma_pow2_unfold(s + 1);
        assert(rounded24(m) <= 0x100_0000 * u) by {
            if s == 0 {
                assert(u == 1);
                reveal_with_fuel(excess, 1);
            } else {
                assert(a * u <= (a + 1) * u && (a + 1) * u <= 0x100_0000 * u) by (nonlinear_arith)
                    requires
                        a + 1 <= 0x100_0000,
                        u > 0,
                ;
            }
        }
        assert(0x80_0000 * v >= 0x100_0000 * u);
        assert(b * v >= 0x80_0000 * v && (b + 1) * v >= b * v) by (nonlinear_arith)
            requires
                b >= 0x80_0000,
                v > 0,
        ;
    }
}

proof fn lemma_excess_order(m: nat, n: nat)
    requires
        m <= n,
    ensures
        excess(m) <= excess(n),
    decreases m,
{
    if m >= 0x100_0000 {
        lemma_excess_order(m / 2, n / 2);
    }
}

/// The number of binary digits.
pub open spec fn binary_digits(n: nat) -> nat
    decreases n,
{
    if n == 0 {
        0
    } else {
        1 + binary_digits(n / 2)
    }
}

proof fn lemma_binary_digits(n: nat)
    ensures
        n < pow2(binary_digits(n)),
        n > 0 ==> 2 * n >= pow2(binary_digits(n)),
    decreases n,
{
    lemma2_to64();
    if n > 0 {
        lemma_binary_digits(n / 2);
        lemma_pow2_unfold(binary_digits(n));
    }
}

/// The quotient of two integers, rounded to 24 binary digits and cut down to an integer, for
/// quotients below 2^23. Rounding reaches the next integer where that is no further away than half
/// of the last digit.
pub open spec fn quotient_whole(a: nat, d: nat) -> nat {
    let w = a / d;
    if ((w + 1) * d - a) * pow2((25 - binary_digits(w)) as nat) <= d {
        w + 1
    } else {
        w
    }
}

/// `i * s / m` in single precision, every step rounded, cut down to an integer.
pub open spec fn single_quotient(i: nat, s: nat, m: nat) -> nat {
    quotient_whole(rounded24(rounded24(i) * rounded24(s)), rounded24(m))
}

/// Products below 2^24 are exact, and so is the integer part of their quotient.
pub proof fn lemma_exact_quotient(i: nat, s: nat, m: nat)
    requires
        m > 0,
        i < 0x100_0000,
        s < 0x100_0000,
        m < 0x100_0000,
        i * s < 0x100_0000,
    ensures
        single_quotient(i, s, m) == i * s / m,
{
    let a = i * s;
    let w = a / m;
    let k = binary_digits(w);
    assert(excess(i) == 0 && excess(s) == 0 && excess(m) == 0 && excess(a) == 0);
    vstd::arithmetic::div_mod::lemma_fundamental_div_mod(a as int, m as int);
    assert((w + 1) * m - a >= 1) by (nonlinear_arith)
        requires
            a == m * w + a % m,
            0 <= a % m < m,
    ;
    lemma_binary_digits(w);
    lemma2_to64();
    assert(w <= a) by {
        vstd::arithmetic::div_mod::lemma_div_is_ordered_by_denominator(a as int, 1, m as int);
    }
    assert(k <= 24) by {
        if k > 24 {
            if k > 25 {
                lemma_pow2_strictly_increases(25, k);
            }
        }
    }
    let p = pow2((25 - k) as nat);
    assert(pow2(k) * p == pow2(25)) by {
        vstd::arithmetic::power2::lemma_pow2_adds(k, (25 - k) as nat);
    }
    assert(p > m) by {
        if w == 0 {
            assert(k == 0);
        } else {
            assert(2 * (m * w) >= m * pow2(k)) by (nonlinear_arith)
                requires
                    2 * w >= pow2(k),
            ;
            assert(m * pow2(k) < pow2(k) * p);
            assert(m < p) by (nonlinear_arith)
                requires
                    m * pow2(k) < pow2(k) * p,
            ;
        }
    }
    assert(((w + 1) * m - a) * p >= p) by (nonlinear_arith)
        requires
            (w + 1) * m - a >= 1,
            p > 0,
    ;
}

/// A place of `m + 1` spread evenly over `0..=s` does not get past `s`.
pub proof fn lemma_quotient_bound(i: nat, s: nat, m: nat)
    requires
        i <= m,
        m > 0,
        s <= 0x1_0000,
    ensures
        single_quotient(i, s, m) <= s,
{
    let d = rounded24(m);
    let a = rounded24(rounded24(i) * rounded24(s));
    assert(excess(s) == 0);
    lemma_rounding(m);
    lemma_rounding_order(i, m);
    assert(rounded24(i) * s <= d * s) by (nonlinear_arith)
        requires
            rounded24(i) <= d,
    ;
    lemma_rounding_order(rounded24(i) * s, d * s);
    lemma_rounding(d * s);
    let w = a / d;
    vstd::arithmetic::div_mod::lemma_fundamental_div_mod(a as int, d as int);
    assert(a * 0x100_0000 <= (d * s) * 0x100_0001);
    assert((d * s) <= d * 0x1_0000) by (nonlinear_arith)
        requires
            s <= 0x1_0000,
    ;
    assert(a * 0x100_0000 <= (d * s) * 0x100_0000 + d * 0x1_0000);
    assert(w <= s) by (nonlinear_arith)
        requires
            a == d * w + a % d,
            0 <= a % d,
            d >= 1,
            a * 0x100_0000 <= (d * s) * 0x100_0000 + d * 0x1_0000,
    ;
    if w == s {
        let k = binary_digits(w);
        lemma_binary_digits(w);
        lemma2_to64();
        assert(k <= 17) by {
            if k > 17 {
                if k > 18 {
                    lemma_pow2_strictly_increases(18, k);
                }
            }
        }
        let p = pow2((25 - k) as nat);
        assert(p >= 2) by {
            if 25 - k > 1 {
                lemma_pow2_strictly_increases(1, (25 - k) as nat);
            }
        }
        let gap = (w + 1) * d - a;
        assert((w + 1) * d == d * s + d) by (nonlinear_arith)
            requires
                w == s,
        ;
        assert(gap * 0x100_0000 >= d * 0x100_0000 - d * 0x1_0000);
        assert(gap * p > d) by (nonlinear_arith)
            requires
                gap * 0x100_0000 >= d * 0x100_0000 - d * 0x1_0000,
                p >= 2,
                d >= 1,
        ;
    }
}

/// Computes `i * s / m` in single precision and cuts it down to an integer.
pub fn divide_single(i: i32, s: i32, m: i32) -> (r: i32)
    requires
        0 <= i <= m,
        0 < m,
        0 <= s <= 0x1_0000,
    ensures
        r == single_quotient(i as nat, s as nat, m as nat),
        0 <= r <= s,
{
    proof {
        lemma_quotient_bound(i as nat, s as nat, m as nat);
        lemma_rounded24(i as nat);
        lemma_rounded24(m as nat);
        lemma_rounding(m as nat);
        lemma_rounded24(s as nat);
    }
    let x: u64 = round24(i as u64);
    let y: u64 = round24(s as u64);
    let d: u64 = round24(m as u64);
    proof {
        assert(x * y <= 0x1_0000_0000 * 0x2_0000) by (nonlinear_arith)
            requires
                x <= 0x1_0000_0000,
                y <= 0x2_0000,
        ;
        lemma_rounded24((x * y) as nat);
    }
    let a: u64 = round24(x * y);
    let w: u64 = a / d;
    let mut p: u128 = 0x200_0000;
    let mut rest: u64 = w;
    let ghost mut k: nat = 0;
    proof {
        lemma2_to64();
        vstd::arithmetic::div_mod::lemma_fundamental_div_mod(a as int, d as int);
        assert(w <= s) by {
            assert(single_quotient(i as nat, s as nat, m as nat) >= w);
        }
        lemma_binary_digits(w as nat);
        assert(binary_digits(w as nat) <= 17) by {
            if binary_digits(w as nat) > 17 {
                if binary_digits(w as nat) > 18 {
                    lemma_pow2_strictly_increases(18, binary_digits(w as nat));
                }
            }
        }
    }
    while rest > 0
        invariant
            binary_digits(w as nat) == k + binary_digits(rest as nat),
            binary_digits(w as nat) <= 17,
            p == pow2((25 - k) as nat),
            p <= 0x200_0000,
        decreases rest,
    {
        proof {
            lemma_pow2_unfold((25 - k) as nat);
        }
        rest = rest / 2;
        p = p / 2;
        proof {
            k = k + 1;
        }
    }
    proof {
        assert((w + 1) * d <= a + d && (w + 1) * d > a) by (nonlinear_arith)
            requires
                a == d * w + a % d,
                0 <= a % d < d,
        ;
        assert(((w + 1) * d - a) * p <= 0x2_0000_0000 * 0x200_0000) by (nonlinear_arith)
            requires
                0 <= (w + 1) * d - a <= 0x2_0000_0000,
                0 <= p <= 0x200_0000,
        ;
    }
    let gap: u128 = (w as u128 + 1) * d as u128 - a as u128;
    if gap * p <= d as u128 {
        (w + 1) as i32
    } else {
        w as i32
    }
}

/// Rounds to 24 binary digits.
fn round24(n: u64) -> (r: u64)
    requires
        n <= 0x100_0000_0000_0000,
    ensures
        r == rounded24(n as nat),
{
    let mut low: u64 = n;
    let mut unit: u64 = 1;
    let ghost mut s: nat = 0;
    proof {
        lemma2_to64();
        lemma_rounded24(n as nat);
    }
    while low >= 0x100_0000
        invariant
            excess(n as nat) == s + excess(low as nat),
            unit == pow2(s),
            unit >= 1,
            low == n as nat / pow2(s),
            low * unit <= n,
            s > 0 ==> low >= 0x80_0000,
            n <= 0x100_0000_0000_0000,
        decreases low,
    {
        proof {
            lemma_pow2_unfold(s + 1);
            lemma2_to64();
            vstd::arithmetic::div_mod::lemma_div_denominator(n as int, pow2(s) as int, 2);
            assert(unit <= 0x1_0000_0000) by (nonlinear_arith)
                requires
                    low * unit <= 0x100_0000_0000_0000,
                    low >= 0x100_0000,
                    unit >= 1,
            ;
            assert((low / 2) * (unit * 2) <= low * unit) by (nonlinear_arith)
                requires
                    low >= 0,
                    unit >= 1,
            ;
        }
        low = low / 2;
        unit = unit * 2;
        proof {
            s = s + 1;
        }
    }
    if unit == 1 {
        proof {
            if s > 0 {
                lemma_pow2_unfold(s);
                lemma_pow2_pos((s - 1) as nat);
            }
        }
        return n;
    }
    proof {
        assert(s > 0);
        vstd::arithmetic::div_mod::lemma_fundamental_div_mod(n as int, unit as int);
        assert(n as int - low * unit == n as int % unit as int) by (nonlinear_arith)
            requires
                n as int == unit as int * (n as int / unit as int) + n as int % unit as int,
                low == n as int / unit as int,
        ;
        assert((low + 1) * unit <= 2 * n) by (nonlinear_arith)
            requires
                low >= 1,
                unit >= 1,
                low * unit <= n,
        ;
        assert(low * unit <= (low + 1) * unit) by (nonlinear_arith)
            requires
                unit >= 1,
        ;
    }
    let rest: u64 = n - low * unit;
    if rest > unit / 2 || (rest == unit / 2 && low % 2 == 1) {
        (low + 1) * unit
    } else {
        low * unit
    }
}

/// Divides by a power of two.
fn halved(n: u64, k: u32) -> (r: u64)
    ensures
        r == n as nat / pow2(k as nat),
{
    let mut r: u64 = n;
    let mut i: u32 = 0;
    proof {
        lemma2_to64();
        assert(n as nat / 1 == n);
    }
    while i < k
        invariant
            i <= k,
            r == n as nat / pow2(i as nat),
        decreases k - i,
    {
        proof {
            lemma_pow2_unfold((i + 1) as nat);
            lemma_pow2_pos(i as nat);
            vstd::arithmetic::div_mod::lemma_div_denominator(
                n as int,
                pow2(i as nat) as int,
                2,
            );
        }
        r = r / 2;
        i += 1;
    }
    r
}

/// Computes a power of two.
fn power_of_two(n: u32) -> (r: u32)
    requires
        n < 32,
    ensures
        r == pow2(n as nat),
        r > 0,
{
    let mut p: u32 = 1;
    let mut i: u32 = 0;
    proof {
        lemma2_to64();
    }
    while i < n
        invariant
            i <= n < 32,
            p == pow2(i as nat),
            p > 0,
        decreases n - i,
    {
        proof {
            lemma2_to64();
            lemma_pow2_unfold((i + 1) as nat);
            if i + 1 < 31 {
                lemma_pow2_strictly_increases((i + 1) as nat, 31);
            }
        }
        p = p * 2;
        i += 1;
    }
    p
}

/// A single-precision expression over constants and integers.
pub enum Scalar {
    /// A constant.
    Lit(Float),
    /// An integer, converted to single precision.
    Int(i32),
    /// The circle constant.
    Pi,
    Sum(Arc<Scalar>, Arc<Scalar>),
    Difference(Arc<Scalar>, Arc<Scalar>),
    Product(Arc<Scalar>, Arc<Scalar>),
    Quotient(Arc<Scalar>, Arc<Scalar>),
    /// The first operand raised to the second.
    Power(Arc<Scalar>, Arc<Scalar>),
    Negative(Arc<Scalar>),
    SquareRoot(Arc<Scalar>),
    Cosine(Arc<Scalar>),
    Sine(Arc<Scalar>),
    /// The natural logarithm.
    Logarithm(Arc<Scalar>),
    /// The next integer below.
    Floor(Arc<Scalar>),
    /// The next integer above.
    Ceiling(Arc<Scalar>),
    Larger(Arc<Scalar>, Arc<Scalar>),
    Smaller(Arc<Scalar>, Arc<Scalar>),
}

impl Scalar {
    /// The constant with the given bits.
    pub fn lit(bits: u32) -> (r: Scalar)
        ensures
            r == lit(bits),
    {
        Scalar::Lit(Float { bits })
    }

    /// Another handle on the same expression.
    pub fn copy(&self) -> (r: Scalar)
        ensures
            r == *self,
    {
        match self {
            Scalar::Lit(f) => Scalar::Lit(*f),
            Scalar::Int(i) => Scalar::Int(*i),
            Scalar::Pi => Scalar::Pi,
            Scalar::Sum(a, b) => Scalar::Sum(a.clone(), b.clone()),
            Scalar::Difference(a, b) => Scalar::Difference(a.clone(), b.clone()),
            Scalar::Product(a, b) => Scalar::Product(a.clone(), b.clone()),
            Scalar::Quotient(a, b) => Scalar::Quotient(a.clone(), b.clone()),
            Scalar::Power(a, b) => Scalar::Power(a.clone(), b.clone()),
            Scalar::Negative(a) => Scalar::Negative(a.clone()),
            Scalar::SquareRoot(a) => Scalar::SquareRoot(a.clone()),
            Scalar::Cosine(a) => Scalar::Cosine(a.clone()),
            Scalar::Sine(a) => Scalar::Sine(a.clone()),
            Scalar::Logarithm(a) => Scalar::Logarithm(a.clone()),
            Scalar::Floor(a) => Scalar::Floor(a.clone()),
            Scalar::Ceiling(a) => Scalar::Ceiling(a.clone()),
            Scalar::Larger(a, b) => Scalar::Larger(a.clone(), b.clone()),
            Scalar::Smaller(a, b) => Scalar::Smaller(a.clone(), b.clone()),
        }
    }

    /// `self + other`.
    pub fn plus(self, other: Scalar) -> (r: Scalar)
        ensures
            r == Scalar::Sum(Arc::new(self), Arc::new(other)),
    {
        Scalar::Sum(Arc::new(self), Arc::new(other))
    }

    /// `self - other`.
    pub fn minus(self, other: Scalar) -> (r: Scalar)
        ensures
            r == Scalar::Difference(Arc::new(self), Arc::new(other)),
    {
        Scalar::Difference(Arc::new(self), Arc::new(other))
    }

    /// `self * other`.
    pub fn times(self, other: Scalar) -> (r: Scalar)
        ensures
            r == Scalar::Product(Arc::new(self), Arc::new(other)),
    {
        Scalar::Product(Arc::new(self), Arc::new(other))
    }

    /// `self / other`.
    pub fn over(self, other: Scalar) -> (r: Scalar)
        ensures
            r == Scalar::Quotient(Arc::new(self), Arc::new(other)),
    {
        Scalar::Quotient(Arc::new(self), Arc::new(other))
    }
}

} // verus!
