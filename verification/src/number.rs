//! IEEE 754 numbers held as their bit patterns.
//!
//! Sensor values arrive in single precision and are published in double
//! precision. Both are kept as encodings, and every operation on them is
//! stated over the number that the encoding stands for.

use vstd::arithmetic::div_mod::lemma_div_multiples_vanish_quotient;
use vstd::arithmetic::logarithm::{lemma_log0, lemma_log_s, log};
use vstd::arithmetic::power2::{
    lemma_pow2_adds, lemma_pow2_pos, lemma_pow2_strictly_increases, lemma_pow2_unfold, pow2,
};
use vstd::prelude::*;

verus! {

/// A single-precision number (binary32), by its bit pattern.
#[derive(Clone, Copy, Debug, PartialEq, Eq, Structural)]
pub struct Real32 {
    pub bits: u32,
}

/// A double-precision number (binary64), by its bit pattern.
#[derive(Clone, Copy, Debug, PartialEq, Eq, Structural)]
pub struct Real64 {
    pub bits: u64,
}

impl Real32 {
    /// Is the sign bit set?
    pub open spec fn negative(self) -> bool {
        self.bits >= 0x8000_0000
    }

    /// The exponent field, eight bits wide.
    pub open spec fn exponent(self) -> int {
        (self.bits as int / 0x80_0000) % 256
    }

    /// The fraction field, 23 bits wide.
    pub open spec fn fraction(self) -> int {
        self.bits as int % 0x80_0000
    }

    pub open spec fn is_nan(self) -> bool {
        self.exponent() == 255 && self.fraction() != 0
    }

    pub open spec fn is_infinite(self) -> bool {
        self.exponent() == 255 && self.fraction() == 0
    }

    pub open spec fn is_finite(self) -> bool {
        self.exponent() != 255
    }

    /// The magnitude of a finite number in units of 2^-149, the smallest
    /// positive number of this precision. It is a whole number of those.
    pub open spec fn magnitude(self) -> int {
        if self.exponent() == 0 {
            self.fraction()
        } else {
            (self.fraction() + 0x80_0000) * pow2((self.exponent() - 1) as nat)
        }
    }

    /// The value of a finite number in units of 2^-149.
    pub open spec fn scaled(self) -> int {
        if self.negative() {
            -self.magnitude()
        } else {
            self.magnitude()
        }
    }

    /// Is this number at least one half? No such comparison holds of a NaN.
    pub open spec fn spec_at_least_half(self) -> bool {
        &&& !self.is_nan()
        &&& if self.is_infinite() {
            !self.negative()
        } else {
            self.scaled() >= pow2(148)
        }
    }

    /// The number cut off towards zero and brought into the range of `u32`.
    /// A NaN gives 0.
    pub open spec fn spec_to_u32(self) -> u32 {
        if self.is_nan() || self.negative() {
            0
        } else if self.is_infinite() || self.magnitude() / (pow2(149) as int) > u32::MAX {
            u32::MAX
        } else {
            (self.magnitude() / (pow2(149) as int)) as u32
        }
    }

    /// The same number in double precision. A NaN keeps its sign and its
    /// payload and becomes a quiet one.
    pub open spec fn widened(self) -> Real64 {
        let sign: int = if self.negative() {
            0x8000_0000_0000_0000
        } else {
            0
        };
        let e = self.exponent();
        let f = self.fraction();
        let rest: int = if e == 255 {
            if f == 0 {
                0x7FF0_0000_0000_0000
            } else if f < 0x40_0000 {
                0x7FF8_0000_0000_0000 + f * 0x2000_0000
            } else {
                0x7FF0_0000_0000_0000 + f * 0x2000_0000
            }
        } else if e != 0 {
            (e + 896) * 0x10_0000_0000_0000 + f * 0x2000_0000
        } else if f == 0 {
            0
        } else {
            let top = log(2, f);
            (top + 874) * 0x10_0000_0000_0000 + (f - pow2(top as nat)) * pow2((52 - top) as nat)
        };
        Real64 { bits: (sign + rest) as u64 }
    }
}

impl Real64 {
    /// Is the sign bit set?
    pub open spec fn negative(self) -> bool {
        self.bits >= 0x8000_0000_0000_0000
    }

    /// The exponent field, eleven bits wide.
    pub open spec fn exponent(self) -> int {
        (self.bits as int / 0x10_0000_0000_0000) % 2048
    }

    /// The fraction field, 52 bits wide.
    pub open spec fn fraction(self) -> int {
        self.bits as int % 0x10_0000_0000_0000
    }

    pub open spec fn is_nan(self) -> bool {
        self.exponent() == 2047 && self.fraction() != 0
    }

    pub open spec fn is_infinite(self) -> bool {
        self.exponent() == 2047 && self.fraction() == 0
    }

    pub open spec fn is_finite(self) -> bool {
        self.exponent() != 2047
    }

    /// The magnitude of a finite number in units of 2^-1074, the smallest
    /// positive number of this precision.
    pub open spec fn magnitude(self) -> int {
        if self.exponent() == 0 {
            self.fraction()
        } else {
            (self.fraction() + 0x10_0000_0000_0000) * pow2((self.exponent() - 1) as nat)
        }
    }

    /// The value of a finite number in units of 2^-1074.
    pub open spec fn scaled(self) -> int {
        if self.negative() {
            -self.magnitude()
        } else {
            self.magnitude()
        }
    }

    /// Is this number at least zero? The negative zero is, a NaN is not.
    pub open spec fn spec_at_least_zero(self) -> bool {
        &&& !self.is_nan()
        &&& if self.is_infinite() {
            !self.negative()
        } else {
            self.scaled() >= 0
        }
    }
}

impl Default for Real32 {
    /// Zero.
    fn default() -> (r: Self)
        ensures
            r.bits == 0,
    {
        Real32 { bits: 0 }
    }
}

/// 2^k for small k.
fn power_of_two(k: u32) -> (r: u64)
    requires
        k < 64,
    ensures
        r == pow2(k as nat),
{
    let mut r: u64 = 1;
    let mut i: u32 = 0;
    proof {
        vstd::arithmetic::power2::lemma2_to64();
    }
    while i < k
        invariant
            i <= k,
            k < 64,
            r == pow2(i as nat),
        decreases k - i,
    {
        proof {
            lemma_pow2_unfold((i + 1) as nat);
            if i + 1 < 63 {
                lemma_pow2_strictly_increases((i + 1) as nat, 63);
            }
            vstd::arithmetic::power2::lemma2_to64_rest();
        }
        r = r * 2;
        i = i + 1;
    }
    r
}

/// The position of the highest bit that is set in a positive number brackets
/// the number between two powers of two.
proof fn lemma_top_bit(n: int)
    requires
        n > 0,
    ensures
        log(2, n) >= 0,
        pow2(log(2, n) as nat) <= n < pow2((log(2, n) + 1) as nat),
    decreases n,
{
    lemma_pow2_unfold(1);
    vstd::arithmetic::power2::lemma2_to64();
    if n < 2 {
        lemma_log0(2, n);
    } else {
        lemma_log_s(2, n);
        lemma_top_bit(n / 2);
        let k = log(2, n / 2) as nat;
        lemma_pow2_unfold(k + 1);
        lemma_pow2_unfold(k + 2);
    }
}

/// A highest bit that brackets a positive number is the highest bit of it.
proof fn lemma_top_bit_unique(n: int, k: nat)
    requires
        pow2(k) <= n < pow2(k + 1),
    ensures
        log(2, n) == k,
{
    lemma_pow2_pos(k);
    lemma_top_bit(n);
    let top = log(2, n) as nat;
    if k < top {
        if k + 1 < top {
            lemma_pow2_strictly_increases(k + 1, top);
        }
    } else if top < k {
        if top + 1 < k {
            lemma_pow2_strictly_increases(top + 1, k);
        }
    }
}

/// The magnitude of a normal number lies between two consecutive powers of two.
proof fn lemma_magnitude_bracket(x: Real32)
    requires
        x.exponent() != 0,
    ensures
        pow2((x.exponent() + 22) as nat) <= x.magnitude() < pow2((x.exponent() + 23) as nat),
{
    let e = x.exponent();
    let p = pow2((e - 1) as nat);
    lemma_pow2_pos((e - 1) as nat);
    vstd::arithmetic::power2::lemma2_to64();
    lemma_pow2_adds(23, (e - 1) as nat);
    lemma_pow2_adds(24, (e - 1) as nat);
    let s = x.fraction() + 0x80_0000;
    assert(0x80_0000 * p <= s * p < 0x100_0000 * p) by (nonlinear_arith)
        requires
            0x80_0000 <= s < 0x100_0000,
            p > 0,
    ;
}

impl Real32 {
    /// Is this number at least one half (`x >= 0.5`)?
    pub fn at_least_half(self) -> (r: bool)
        ensures
            r == self.spec_at_least_half(),
    {
        proof {
            law_half_is_the_threshold(self);
        }
        0x3F00_0000 <= self.bits && self.bits <= 0x7F80_0000
    }

    /// Cuts the number off towards zero and brings it into the range of `u32`
    /// (`x as u32`). A NaN gives 0.
    pub fn to_u32(self) -> (r: u32)
        ensures
            r == self.spec_to_u32(),
    {
        let e: u32 = (self.bits / 0x80_0000) % 256;
        let f: u32 = self.bits % 0x80_0000;
        let ghost unit = pow2(149) as int;
        proof {
            lemma_pow2_pos(149);
            vstd::arithmetic::power2::lemma2_to64();
        }
        if self.bits >= 0x8000_0000 || (e == 255 && f != 0) {
            return 0;
        }
        if e == 255 {
            return u32::MAX;
        }
        if e < 127 {
            proof {
                if e == 0 {
                    lemma_pow2_strictly_increases(23, 149);
                } else {
                    lemma_magnitude_bracket(self);
                    if e + 23 < 149 {
                        lemma_pow2_strictly_increases((e + 23) as nat, 149);
                    }
                }
                assert(0 <= self.magnitude() < unit);
                vstd::arithmetic::div_mod::lemma_basic_div(self.magnitude(), unit);
            }
            return 0;
        }
        let s: u64 = f as u64 + 0x80_0000;
        if e >= 150 {
            let k: u32 = e - 150;
            proof {
                lemma_pow2_adds(149, k as nat);
                let p = pow2(k as nat) as int;
                lemma_pow2_pos(k as nat);
                assert(s * (unit * p) == (s * p) * unit) by (nonlinear_arith);
                vstd::arithmetic::div_mod::lemma_div_by_multiple(s * p, unit);
                assert(self.magnitude() / unit == s * p);
                if k >= 9 {
                    if k > 9 {
                        lemma_pow2_strictly_increases(9, k as nat);
                    }
                    assert(s * p >= 0x80_0000 * 512) by (nonlinear_arith)
                        requires
                            s >= 0x80_0000,
                            p >= 512,
                    ;
                } else {
                    if k < 8 {
                        lemma_pow2_strictly_increases(k as nat, 8);
                    }
                    assert(s * p <= 0xFF_FFFF * 256) by (nonlinear_arith)
                        requires
                            0 <= s <= 0xFF_FFFF,
                            0 <= p <= 256,
                    ;
                }
            }
            if k >= 9 {
                return u32::MAX;
            }
            let p: u64 = power_of_two(k);
            (s * p) as u32
        } else {
            let k: u32 = 150 - e;
            let p: u64 = power_of_two(k);
            proof {
                let q = pow2((e - 1) as nat) as int;
                lemma_pow2_pos((e - 1) as nat);
                lemma_pow2_pos(k as nat);
                lemma_pow2_adds((e - 1) as nat, k as nat);
                lemma_div_multiples_vanish_quotient(q, s as int, p as int);
                assert(s * q == q * s) by (nonlinear_arith);
                assert(self.magnitude() / unit == s as int / p as int);
                assert(s as int / p as int <= s) by (nonlinear_arith)
                    requires
                        s >= 0,
                        p > 0,
                ;
            }
            (s / p) as u32
        }
    }

    /// The same number in double precision (`x as f64`).
    pub fn widen(self) -> (r: Real64)
        ensures
            r == self.widened(),
    {
        let e: u64 = ((self.bits / 0x80_0000) % 256) as u64;
        let f: u64 = (self.bits % 0x80_0000) as u64;
        let sign: u64 = if self.bits >= 0x8000_0000 {
            0x8000_0000_0000_0000
        } else {
            0
        };
        let rest: u64 = if e == 255 {
            if f == 0 {
                0x7FF0_0000_0000_0000
            } else if f < 0x40_0000 {
                0x7FF8_0000_0000_0000 + f * 0x2000_0000
            } else {
                0x7FF0_0000_0000_0000 + f * 0x2000_0000
            }
        } else if e != 0 {
            (e + 896) * 0x10_0000_0000_0000 + f * 0x2000_0000
        } else if f == 0 {
            0
        } else {
            let mut top: u32 = 22;
            let mut p: u64 = 0x40_0000;
            proof {
                vstd::arithmetic::power2::lemma2_to64();
            }
            while f < p
                invariant
                    0 < f < 0x80_0000,
                    top <= 22,
                    p == pow2(top as nat),
                    f < pow2((top + 1) as nat),
                decreases top,
            {
                proof {
                    vstd::arithmetic::power2::lemma2_to64();
                    lemma_pow2_unfold(top as nat);
                }
                p = p / 2;
                top = top - 1;
            }
            proof {
                lemma_top_bit_unique(f as int, top as nat);
                lemma_subnormal_fraction(f as int, top as nat);
            }
            let shift: u64 = power_of_two(52 - top);
            (top as u64 + 874) * 0x10_0000_0000_0000 + (f - p) * shift
        };
        Real64 { bits: sign + rest }
    }
}

/// The bits below the highest one of a subnormal fraction, moved up to the
/// double-precision fraction field, stay inside that field.
proof fn lemma_subnormal_fraction(f: int, top: nat)
    requires
        top <= 22,
        pow2(top) <= f < pow2(top + 1),
    ensures
        0 <= (f - pow2(top)) * pow2((52 - top) as nat) < 0x10_0000_0000_0000,
        f * pow2((52 - top) as nat) == (f - pow2(top)) * pow2((52 - top) as nat)
            + 0x10_0000_0000_0000,
{
    let p = pow2(top) as int;
    let q = pow2((52 - top) as nat) as int;
    lemma_pow2_pos(top);
    lemma_pow2_pos((52 - top) as nat);
    lemma_pow2_unfold(top + 1);
    lemma_pow2_adds(top, (52 - top) as nat);
    vstd::arithmetic::power2::lemma2_to64_rest();
    assert(p * q == 0x10_0000_0000_0000);
    assert((f - p) * q == f * q - p * q) by (nonlinear_arith);
    assert(0 <= (f - p) * q < p * q) by (nonlinear_arith)
        requires
            0 <= f - p < p,
            q > 0,
    ;
}

impl Real64 {
    /// Is this number at least zero (`x >= 0.0`)?
    pub fn at_least_zero(self) -> (r: bool)
        ensures
            r == self.spec_at_least_zero(),
    {
        proof {
            law_zero_is_the_threshold(self);
        }
        self.bits <= 0x7FF0_0000_0000_0000 || self.bits == 0x8000_0000_0000_0000
    }
}

/// Widening keeps the number: the sign, the class and, of a finite number, the
/// value itself (the two precisions count in units that are 2^925 apart).
pub proof fn law_widening_keeps_the_value(x: Real32)
    ensures
        x.widened().negative() == x.negative(),
        x.widened().is_nan() == x.is_nan(),
        x.widened().is_infinite() == x.is_infinite(),
        x.is_finite() ==> x.widened().scaled() == x.scaled() * pow2(925),
{
    let e = x.exponent();
    let f = x.fraction();
    let w = x.widened();
    let scale = pow2(925) as int;
    lemma_pow2_pos(925);
    if e != 255 && e != 0 {
        assert(w.exponent() == e + 896);
        assert(w.fraction() == f * 0x2000_0000);
        let p = pow2((e - 1) as nat) as int;
        lemma_pow2_adds((e - 1) as nat, 925);
        lemma_pow2_adds((e - 1 + 896) as nat, 29);
        vstd::arithmetic::power2::lemma2_to64();
        let q = pow2((e - 1 + 896) as nat) as int;
        assert(p * scale == q * 0x2000_0000);
        let s = f + 0x80_0000;
        assert((s * 0x2000_0000) * q == s * (q * 0x2000_0000)) by (nonlinear_arith);
        assert(s * (p * scale) == (s * p) * scale) by (nonlinear_arith);
        assert(w.magnitude() == x.magnitude() * scale);
    } else if e == 0 && f != 0 {
        lemma_top_bit(f);
        let top = log(2, f) as nat;
        vstd::arithmetic::power2::lemma2_to64();
        if top >= 23 {
            if top > 23 {
                lemma_pow2_strictly_increases(23, top);
            }
        }
        lemma_subnormal_fraction(f, top);
        let g = (f - pow2(top)) * pow2((52 - top) as nat);
        assert(w.exponent() == top + 874);
        assert(w.fraction() == g);
        lemma_pow2_adds((52 - top) as nat, (top + 873) as nat);
        let q = pow2((52 - top) as nat) as int;
        let r = pow2((top + 873) as nat) as int;
        assert((f * q) * r == f * (q * r)) by (nonlinear_arith);
        assert(w.magnitude() == x.magnitude() * scale);
    } else if e == 0 {
        assert(w.magnitude() == 0);
        assert(0 * scale == 0);
    }
    if x.is_finite() {
        let m = x.magnitude();
        assert((-m) * scale == -(m * scale)) by (nonlinear_arith);
    }
}

/// A single-precision number is at least one half exactly where its encoding
/// lies between those of 0.5 (`0x3F00_0000`) and of infinity (`0x7F80_0000`).
pub proof fn law_half_is_the_threshold(x: Real32)
    ensures
        x.spec_at_least_half() <==> 0x3F00_0000 <= x.bits <= 0x7F80_0000,
{
    lemma_pow2_pos(148);
    if x.exponent() == 0 {
        vstd::arithmetic::power2::lemma2_to64();
        lemma_pow2_strictly_increases(23, 148);
    } else {
        lemma_magnitude_bracket(x);
        let e = x.exponent();
        if e + 23 < 148 {
            lemma_pow2_strictly_increases((e + 23) as nat, 148);
        }
        if e + 22 > 148 {
            lemma_pow2_strictly_increases(148, (e + 22) as nat);
        }
    }
}

/// A double-precision number is at least zero exactly where its sign bit is not
/// set and it is no NaN, or where it is the negative zero.
pub proof fn law_zero_is_the_threshold(x: Real64)
    ensures
        x.spec_at_least_zero() <==> x.bits <= 0x7FF0_0000_0000_0000 || x.bits
            == 0x8000_0000_0000_0000,
{
    if x.exponent() != 0 {
        let p = pow2((x.exponent() - 1) as nat) as int;
        lemma_pow2_pos((x.exponent() - 1) as nat);
        let s = x.fraction() + 0x10_0000_0000_0000;
        assert(s * p > 0) by (nonlinear_arith)
            requires
                s > 0,
                p > 0,
        ;
    }
}

/// The encodings of single precision count up in steps of the smallest number
/// until the exponent field is 2, and from there on a number is twice the one
/// whose exponent field is smaller by 1. The sign bit turns the value round.
pub proof fn law_single_encodings(x: Real32)
    ensures
        x.bits < 0x100_0000 ==> x.scaled() == x.bits,
        0x100_0000 <= x.bits < 0x7F80_0000 ==> x.scaled() == 2 * (Real32 {
            bits: (x.bits - 0x80_0000) as u32,
        }).scaled(),
        x.bits >= 0x8000_0000 ==> x.scaled() == -(Real32 {
            bits: (x.bits - 0x8000_0000) as u32,
        }).scaled(),
{
    vstd::arithmetic::power2::lemma2_to64();
    if x.exponent() == 1 {
        let s = x.fraction() + 0x80_0000;
        assert(pow2((x.exponent() - 1) as nat) == 1);
        assert(s * 1 == s);
    }
    if 0x100_0000 <= x.bits < 0x7F80_0000 {
        let y = Real32 { bits: (x.bits - 0x80_0000) as u32 };
        assert(y.exponent() == x.exponent() - 1);
        assert(y.fraction() == x.fraction());
        lemma_pow2_unfold((x.exponent() - 1) as nat);
        let s = x.fraction() + 0x80_0000;
        let p = pow2((y.exponent() - 1) as nat) as int;
        assert(s * (2 * p) == 2 * (s * p)) by (nonlinear_arith);
    }
    if x.bits >= 0x8000_0000 {
        let y = Real32 { bits: (x.bits - 0x8000_0000) as u32 };
        assert(y.exponent() == x.exponent());
        assert(y.fraction() == x.fraction());
    }
}

/// The encodings of double precision are built in the same way.
pub proof fn law_double_encodings(x: Real64)
    ensures
        x.bits < 0x20_0000_0000_0000 ==> x.scaled() == x.bits,
        0x20_0000_0000_0000 <= x.bits < 0x7FF0_0000_0000_0000 ==> x.scaled() == 2 * (Real64 {
            bits: (x.bits - 0x10_0000_0000_0000) as u64,
        }).scaled(),
        x.bits >= 0x8000_0000_0000_0000 ==> x.scaled() == -(Real64 {
            bits: (x.bits - 0x8000_0000_0000_0000) as u64,
        }).scaled(),
{
    vstd::arithmetic::power2::lemma2_to64();
    if x.exponent() == 1 {
        let s = x.fraction() + 0x10_0000_0000_0000;
        assert(pow2((x.exponent() - 1) as nat) == 1);
        assert(s * 1 == s);
    }
    if 0x20_0000_0000_0000 <= x.bits < 0x7FF0_0000_0000_0000 {
        let y = Real64 { bits: (x.bits - 0x10_0000_0000_0000) as u64 };
        assert(y.exponent() == x.exponent() - 1);
        assert(y.fraction() == x.fraction());
        lemma_pow2_unfold((x.exponent() - 1) as nat);
        let s = x.fraction() + 0x10_0000_0000_0000;
        let p = pow2((y.exponent() - 1) as nat) as int;
        assert(s * (2 * p) == 2 * (s * p)) by (nonlinear_arith);
    }
    if x.bits >= 0x8000_0000_0000_0000 {
        let y = Real64 { bits: (x.bits - 0x8000_0000_0000_0000) as u64 };
        assert(y.exponent() == x.exponent());
        assert(y.fraction() == x.fraction());
    }
}

/// A number is cut off to the whole number below it. What is below 1 (its
/// encoding is below `0x3F80_0000`), negative or no number gives 0; what is 2^32
/// (`0x4F80_0000`) or more gives the largest `u32`. Between the two, a number
/// with significand `s` and exponent `k` is `s * 2^k` in units of 2^-23.
pub proof fn law_numbers_are_cut_off(x: Real32)
    ensures
        x.bits < 0x3F80_0000 || x.bits > 0x7F80_0000 ==> x.spec_to_u32() == 0,
        0x4F80_0000 <= x.bits <= 0x7F80_0000 ==> x.spec_to_u32() == 0xFFFF_FFFF,
        0x3F80_0000 <= x.bits < 0x4F80_0000 ==> {
            let s = x.bits as int % 0x80_0000 + 0x80_0000;
            let k = (x.bits as int / 0x80_0000 - 127) as nat;
            x.spec_to_u32() * 0x80_0000 <= s * pow2(k) < (x.spec_to_u32() + 1) * 0x80_0000
        },
{
    let e = x.exponent();
    let unit = pow2(149) as int;
    lemma_pow2_pos(149);
    vstd::arithmetic::power2::lemma2_to64();
    if x.bits < 0x3F80_0000 {
        if e == 0 {
            lemma_pow2_strictly_increases(23, 149);
        } else {
            lemma_magnitude_bracket(x);
            if e + 23 < 149 {
                lemma_pow2_strictly_increases((e + 23) as nat, 149);
            }
        }
        vstd::arithmetic::div_mod::lemma_basic_div(x.magnitude(), unit);
    } else if 0x3F80_0000 <= x.bits < 0x7F80_0000 {
        let s = x.fraction() + 0x80_0000;
        let k = (e - 127) as nat;
        let p = pow2(k) as int;
        let d = pow2(126) as int;
        lemma_pow2_pos(k);
        lemma_pow2_pos(126);
        lemma_pow2_adds(k, 126);
        lemma_pow2_adds(23, 126);
        assert(s * (p * d) == d * (s * p)) by (nonlinear_arith);
        assert(x.magnitude() == d * (s * p));
        assert(unit == d * 0x80_0000);
        lemma_div_multiples_vanish_quotient(d, s * p, 0x80_0000);
        let q = (s * p) / 0x80_0000;
        assert(x.magnitude() / unit == q);
        if x.bits < 0x4F80_0000 {
            if k < 31 {
                lemma_pow2_strictly_increases(k, 31);
            }
            assert(s * p <= 0xFF_FFFF * 0x8000_0000) by (nonlinear_arith)
                requires
                    0 <= s <= 0xFF_FFFF,
                    0 < p <= 0x8000_0000,
            ;
        } else {
            if k > 32 {
                lemma_pow2_strictly_increases(32, k);
            }
            vstd::arithmetic::power2::lemma2_to64_rest();
            assert(s * p >= 0x80_0000 * 0x1_0000_0000) by (nonlinear_arith)
                requires
                    s >= 0x80_0000,
                    p >= 0x1_0000_0000,
            ;
        }
    }
}

/// Widening moves the encoding of a normal number up by 29 bits and its exponent
/// by 896. Doubling a subnormal number adds 1 to the exponent of the wide one.
/// Zero and infinity stay what they are, a NaN keeps the lower 22 bits of its
/// payload and becomes quiet, and the sign bit is kept throughout.
pub proof fn law_widening_keeps_the_encoding(x: Real32)
    ensures
        x.bits == 0 ==> x.widened().bits == 0,
        0 < x.bits < 0x80_0000 ==> x.widened().bits + 0x10_0000_0000_0000 == (Real32 {
            bits: (2 * x.bits) as u32,
        }).widened().bits,
        0x80_0000 <= x.bits < 0x7F80_0000 ==> x.widened().bits == x.bits * 0x2000_0000
            + 0x3800_0000_0000_0000,
        x.bits == 0x7F80_0000 ==> x.widened().bits == 0x7FF0_0000_0000_0000,
        0x7F80_0000 < x.bits < 0x8000_0000 ==> x.widened().bits == 0x7FF8_0000_0000_0000 + (x.bits
            as int % 0x40_0000) * 0x2000_0000,
        x.bits >= 0x8000_0000 ==> x.widened().bits == 0x8000_0000_0000_0000 + (Real32 {
            bits: (x.bits - 0x8000_0000) as u32,
        }).widened().bits,
{
    if x.bits >= 0x8000_0000 {
        let y = Real32 { bits: (x.bits - 0x8000_0000) as u32 };
        assert(y.exponent() == x.exponent());
        assert(y.fraction() == x.fraction());
        if y.exponent() == 0 && y.fraction() != 0 {
            lemma_subnormal_fits(y.fraction());
        }
    } else if 0 < x.bits < 0x80_0000 {
        let f = x.bits as int;
        let y = Real32 { bits: (2 * x.bits) as u32 };
        lemma_top_bit(f);
        let top = log(2, f) as nat;
        vstd::arithmetic::power2::lemma2_to64();
        if top >= 23 {
            if top > 23 {
                lemma_pow2_strictly_increases(23, top);
            }
        }
        lemma_subnormal_fraction(f, top);
        lemma_pow2_unfold(top + 1);
        lemma_pow2_unfold((52 - top) as nat);
        lemma_pow2_unfold(top + 2);
        let p = pow2(top) as int;
        let q = pow2((51 - top) as nat) as int;
        assert((f - p) * (2 * q) == (2 * f - 2 * p) * q) by (nonlinear_arith);
        if 2 * f < 0x80_0000 {
            assert(y.exponent() == 0 && y.fraction() == 2 * f);
            lemma_top_bit_unique(2 * f, top + 1);
            if top + 1 >= 23 {
                if top + 1 > 23 {
                    lemma_pow2_strictly_increases(23, top + 1);
                }
            }
            lemma_subnormal_fraction(2 * f, top + 1);
        } else {
            assert(y.exponent() == 1 && y.fraction() == 2 * f - 0x80_0000);
            if top < 22 {
                lemma_pow2_strictly_increases(top, 22);
                if top + 1 < 22 {
                    lemma_pow2_strictly_increases(top + 1, 22);
                }
            }
            assert(top == 22);
        }
    }
}

/// The wide encoding of a subnormal number leaves the sign bit free.
proof fn lemma_subnormal_fits(f: int)
    requires
        0 < f < 0x80_0000,
    ensures
        0 <= (log(2, f) + 874) * 0x10_0000_0000_0000 + (f - pow2(log(2, f) as nat)) * pow2(
            (52 - log(2, f)) as nat,
        ) < 0x8000_0000_0000_0000,
{
    lemma_top_bit(f);
    let top = log(2, f) as nat;
    vstd::arithmetic::power2::lemma2_to64();
    if top >= 23 {
        if top > 23 {
            lemma_pow2_strictly_increases(23, top);
        }
    }
    lemma_subnormal_fraction(f, top);
}

/// Widening a number that is not negative gives one that is not negative: what
/// may be published in single precision may be in double precision.
pub proof fn law_widening_keeps_the_threshold(x: Real32)
    ensures
        x.widened().spec_at_least_zero() <==> x.bits <= 0x7F80_0000 || x.bits == 0x8000_0000,
{
    law_widening_keeps_the_value(x);
    law_zero_is_the_threshold(x.widened());
    lemma_pow2_pos(925);
    let v = x.scaled();
    let p = pow2(925) as int;
    assert(v >= 0 <==> v * p >= 0) by (nonlinear_arith)
        requires
            p > 0,
    ;
    if x.exponent() != 0 {
        lemma_magnitude_bracket(x);
        lemma_pow2_pos((x.exponent() + 22) as nat);
    }
}

} // verus!
