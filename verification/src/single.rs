//! Single-precision arithmetic on integers.
//!
//! Animation timing, colour blending and gradients are single-precision computations.
//! They are carried out here on the encoding of the numbers, so that every result is the
//! one that correctly rounded arithmetic (ties to even) gives, and can be proved to be.
//! The sign of a zero is not kept: a zero result is a positive zero.
use crate::rounding;
use vstd::arithmetic::div_mod::*;
use vstd::arithmetic::power2::*;
use vstd::prelude::*;

verus! {

/// What a single-precision number stands for.
///
/// Every finite single is a whole multiple of the smallest positive one, which is
/// two to the power of -149; `Finite` holds that multiple.
pub enum Number {
    Nan,
    Infinity,
    NegInfinity,
    Finite(int),
}

/// The number one, counted in the units of `Number::Finite`.
pub open spec fn unit() -> int {
    pow2(149) as int
}

/// The integer nearest to `num / den`; of two equally near, the even one.
pub open spec fn half_even(num: int, den: int) -> int {
    let q = num / den;
    let twice = 2 * (num % den);
    if twice < den {
        q
    } else if twice > den {
        q + 1
    } else if q % 2 == 0 {
        q
    } else {
        q + 1
    }
}

/// Whether singles around `num / den` are spaced by two to the power of `k`.
pub open spec fn is_spacing(num: int, den: int, k: nat) -> bool {
    &&& num < den * pow2(24 + k)
    &&& k > 0 ==> num >= den * pow2((23 + k) as nat)
}

/// The exponent of the spacing of the singles around `num / den`.
pub open spec fn spacing(num: int, den: int) -> nat {
    choose|k: nat| is_spacing(num, den, k)
}

/// The multiple of the local spacing that is nearest to `num / den`, for `num >= 0`.
pub open spec fn nearest_magnitude(num: int, den: int) -> int {
    let k = spacing(num, den);
    half_even(num, den * pow2(k)) * pow2(k)
}

/// The number with a sign and a magnitude; a magnitude beyond the largest single is infinite.
pub open spec fn signed(negative: bool, magnitude: int) -> Number {
    if magnitude >= pow2(277) {
        if negative {
            Number::NegInfinity
        } else {
            Number::Infinity
        }
    } else if negative {
        Number::Finite(-magnitude)
    } else {
        Number::Finite(magnitude)
    }
}

/// The single nearest to `num / den` units, where `den > 0`.
pub open spec fn nearest(num: int, den: int) -> Number {
    if num < 0 {
        signed(true, nearest_magnitude(-num, den))
    } else {
        signed(false, nearest_magnitude(num, den))
    }
}

/// The single nearest to the fraction `n / d`: what a decimal literal denotes.
pub open spec fn fraction(n: int, d: int) -> Number {
    nearest(n * unit(), d)
}

/// The single nearest to a whole number.
pub open spec fn whole(n: int) -> Number {
    nearest(n * unit(), 1)
}

pub open spec fn negated(a: Number) -> Number {
    match a {
        Number::Nan => Number::Nan,
        Number::Infinity => Number::NegInfinity,
        Number::NegInfinity => Number::Infinity,
        Number::Finite(x) => Number::Finite(-x),
    }
}

pub open spec fn sum(a: Number, b: Number) -> Number {
    match (a, b) {
        (Number::Finite(x), Number::Finite(y)) => nearest(x + y, 1),
        (Number::Nan, _) => Number::Nan,
        (_, Number::Nan) => Number::Nan,
        (Number::Finite(_), _) => b,
        (_, Number::Finite(_)) => a,
        _ => if a == b {
            a
        } else {
            Number::Nan
        },
    }
}

pub open spec fn difference(a: Number, b: Number) -> Number {
    sum(a, negated(b))
}

/// Minus one, zero or one.
pub open spec fn sign_of(a: Number) -> int {
    match a {
        Number::Nan => 0,
        Number::Infinity => 1,
        Number::NegInfinity => -1,
        Number::Finite(x) => if x < 0 {
            -1
        } else if x > 0 {
            1
        } else {
            0
        },
    }
}

/// The infinity with a sign.
pub open spec fn infinite(sign: int) -> Number {
    if sign < 0 {
        Number::NegInfinity
    } else {
        Number::Infinity
    }
}

pub open spec fn product(a: Number, b: Number) -> Number {
    match (a, b) {
        (Number::Finite(x), Number::Finite(y)) => nearest(x * y, unit()),
        (Number::Nan, _) => Number::Nan,
        (_, Number::Nan) => Number::Nan,
        _ => if sign_of(a) == 0 || sign_of(b) == 0 {
            Number::Nan
        } else {
            infinite(sign_of(a) * sign_of(b))
        },
    }
}

/// The quotient of `a` by a number other than zero.
pub open spec fn quotient(a: Number, b: Number) -> Number {
    match (a, b) {
        (Number::Finite(x), Number::Finite(y)) => if y < 0 {
            nearest(-x * unit(), -y)
        } else {
            nearest(x * unit(), y)
        },
        (Number::Nan, _) => Number::Nan,
        (_, Number::Nan) => Number::Nan,
        (Number::Finite(_), _) => Number::Finite(0),
        (_, Number::Finite(_)) => infinite(sign_of(a) * sign_of(b)),
        _ => Number::Nan,
    }
}

/// `a < b`; nothing compares with what is not a number.
pub open spec fn less(a: Number, b: Number) -> bool {
    match (a, b) {
        (Number::Finite(x), Number::Finite(y)) => x < y,
        (Number::Nan, _) => false,
        (_, Number::Nan) => false,
        (Number::NegInfinity, _) => b != Number::NegInfinity,
        (_, Number::Infinity) => a != Number::Infinity,
        _ => false,
    }
}

/// `a <= b`; nothing compares with what is not a number.
pub open spec fn at_most(a: Number, b: Number) -> bool {
    less(a, b) || (a == b && a != Number::Nan)
}

/// The larger of two numbers; what is not a number is ignored.
pub open spec fn larger(a: Number, b: Number) -> Number {
    if a == Number::Nan || less(a, b) {
        b
    } else {
        a
    }
}

/// A number held between zero and one.
pub open spec fn clamped(a: Number) -> Number {
    if less(a, Number::Finite(0)) {
        Number::Finite(0)
    } else if less(Number::Finite(unit()), a) {
        Number::Finite(unit())
    } else {
        a
    }
}

/// A number cut to a whole one between zero and `top`; zero for what is not a number.
pub open spec fn truncated(a: Number, top: int) -> int {
    match a {
        Number::Infinity => top,
        Number::Finite(x) => if x <= 0 {
            0
        } else if x / unit() > top {
            top
        } else {
            x / unit()
        },
        _ => 0,
    }
}

/// The least whole number that is not below `a`, kept between zero and `top`.
pub open spec fn ceiling(a: Number, top: int) -> int {
    match a {
        Number::Infinity => top,
        Number::Finite(x) => if x <= 0 {
            0
        } else if (x + unit() - 1) / unit() > top {
            top
        } else {
            (x + unit() - 1) / unit()
        },
        _ => 0,
    }
}

/// The whole number nearest to `a`, halves going up, kept between zero and `top`.
pub open spec fn rounded(a: Number, top: int) -> int {
    match a {
        Number::Infinity => top,
        Number::Finite(x) => if x <= 0 {
            0
        } else if (2 * x + unit()) / (2 * unit()) > top {
            top
        } else {
            (2 * x + unit()) / (2 * unit())
        },
        _ => 0,
    }
}

/// A single-precision number, held as its encoding.
#[derive(Clone, Copy, Debug)]
pub struct Single {
    pub bits: u32,
}

/// The significand of an encoding.
pub open spec fn significand(bits: int) -> int {
    let low = bits % 0x80_0000;
    if (bits / 0x80_0000) % 0x100 == 0 {
        low
    } else {
        low + 0x80_0000
    }
}

/// The exponent of an encoding, counted from the smallest single.
pub open spec fn exponent(bits: int) -> int {
    let e = (bits / 0x80_0000) % 0x100;
    if e == 0 {
        0
    } else {
        e - 1
    }
}

/// The number that an encoding stands for.
pub open spec fn decoded(bits: int) -> Number {
    let negative = bits >= 0x8000_0000;
    if (bits / 0x80_0000) % 0x100 == 0xff {
        if bits % 0x80_0000 != 0 {
            Number::Nan
        } else if negative {
            Number::NegInfinity
        } else {
            Number::Infinity
        }
    } else {
        let magnitude = significand(bits) * pow2(exponent(bits) as nat);
        Number::Finite(
            if negative {
                -magnitude
            } else {
                magnitude
            },
        )
    }
}

impl View for Single {
    type V = Number;

    open spec fn view(&self) -> Number {
        decoded(self.bits as int)
    }
}

/// Two to the power of `s`.
fn power(s: u32) -> (r: u128)
    requires
        s <= 100,
    ensures
        r == pow2(s as nat),
        0 < r <= 0x10_0000_0000_0000_0000_0000_0000,
{
    let mut r: u128 = 1;
    let mut i: u32 = 0;
    proof {
        lemma2_to64();
        lemma2_to64_rest();
        lemma_pow2_adds(50, 50);
    }
    while i < s
        invariant
            i <= s <= 100,
            r == pow2(i as nat),
            pow2(1) == 2,
            pow2(100) == 0x10_0000_0000_0000_0000_0000_0000,
        decreases s - i,
    {
        proof {
            lemma_pow2_adds(i as nat, 1);
            rounding::lemma_pow2_monotone((i + 1) as nat, 100);
        }
        r = 2 * r;
        i = i + 1;
    }
    proof {
        rounding::lemma_pow2_monotone(s as nat, 100);
    }
    r
}

/// The number of binary digits of `m`.
fn bit_length(m: u128) -> (l: u32)
    requires
        0 < m < 0x10_0000_0000_0000_0000_0000_0000,
    ensures
        1 <= l <= 100,
        pow2((l - 1) as nat) <= m < pow2(l as nat),
{
    let mut p: u128 = 2;
    let mut l: u32 = 1;
    proof {
        lemma2_to64();
        lemma2_to64_rest();
        lemma_pow2_adds(50, 50);
    }
    while p <= m
        invariant
            1 <= l <= 100,
            p == pow2(l as nat),
            pow2((l - 1) as nat) <= m,
            m < 0x10_0000_0000_0000_0000_0000_0000,
            pow2(1) == 2,
            pow2(100) == 0x10_0000_0000_0000_0000_0000_0000,
        decreases 100 - l,
    {
        proof {
            lemma_pow2_adds(l as nat, 1);
            if l >= 100 {
                rounding::lemma_pow2_monotone(100, l as nat);
            }
        }
        p = 2 * p;
        l = l + 1;
    }
    l
}

/// The infinity with a sign.
fn infinity(negative: bool) -> (r: Single)
    ensures
        r@ == if negative {
            Number::NegInfinity
        } else {
            Number::Infinity
        },
{
    Single {
        bits: if negative {
            0xff80_0000
        } else {
            0x7f80_0000
        },
    }
}

/// The single with a sign and a magnitude of `m` times two to the power of `k`.
fn pack(negative: bool, m: u32, k: u32) -> (r: Single)
    requires
        m <= 0x100_0000,
        k <= 253,
        k > 0 ==> m >= 0x80_0000,
    ensures
        r@ == signed(negative, m * pow2(k as nat)),
{
    let low: u32 = k * 0x80_0000 + m;
    let bits: u32 = if negative {
        0x8000_0000 + low
    } else {
        low
    };
    proof {
        lemma2_to64();
        if m == 0x100_0000 {
            lemma_pow2_adds(k as nat, 1);
            assert(m * pow2(k as nat) == 0x80_0000 * pow2((k + 1) as nat)) by (nonlinear_arith)
                requires
                    m == 0x100_0000,
                    pow2((k + 1) as nat) == 2 * pow2(k as nat),
            ;
            assert(bits % 0x80_0000 == 0);
            if k == 253 {
                lemma_pow2_adds(24, 253);
            } else {
                lemma_pow2_adds(23, (k + 1) as nat);
                lemma_pow2_strictly_increases((k + 24) as nat, 277);
            }
        } else {
            lemma_pow2_pos(k as nat);
            assert(m * pow2(k as nat) < 0x100_0000 * pow2(k as nat)) by (nonlinear_arith)
                requires
                    m < 0x100_0000,
                    pow2(k as nat) > 0,
            ;
            lemma_pow2_adds(24, k as nat);
            rounding::lemma_pow2_monotone((k + 24) as nat, 277);
            if m < 0x80_0000 {
                assert(k == 0);
            } else {
                assert(low == (k + 1) * 0x80_0000 + (m - 0x80_0000));
            }
        }
        lemma_pow2_pos(277);
    }
    Single { bits }
}

/// The single nearest to a fraction that `m` approximates in units of two to the power of `e`.
fn round(
    negative: bool,
    m: u128,
    e: i32,
    inexact: bool,
    Ghost(num): Ghost<int>,
    Ghost(den): Ghost<int>,
) -> (r: Single)
    requires
        m < 0x10_0000_0000_0000_0000_0000_0000,
        -512 <= e <= 512,
        den > 0,
        inexact ==> m >= 0x200_0000,
        rounding::approximates(num, den, m as int, (e + 512) as nat, inexact),
    ensures
        r@ == signed(negative, nearest_magnitude(num, den)),
{
    let ghost eo = (e + 512) as nat;
    proof {
        lemma2_to64();
        lemma_pow2_pos(512);
        lemma_pow2_pos(eo);
        lemma_pow2_pos(277);
    }
    if m == 0 {
        proof {
            assert(num == 0) by (nonlinear_arith)
                requires
                    num * pow2(512) == (den * pow2(eo)) * 0,
                    pow2(512) > 0,
            ;
            lemma_pow2_pos(24);
            assert(0 < den * pow2(24)) by (nonlinear_arith)
                requires
                    den > 0,
                    pow2(24) > 0,
            ;
            rounding::lemma_spacing(num, den, 0);
            lemma_div_of0(den * pow2(0));
            lemma_small_mod(0, (den * pow2(0)) as nat);
        }
        return Single { bits: 0 };
    }
    let l: u32 = bit_length(m);
    let wanted: i32 = l as i32 + e - 24;
    let k: i32 = if wanted > 0 {
        wanted
    } else {
        0
    };
    proof {
        rounding::lemma_spacing_of(num, den, m as int, eo, inexact, l as nat, k as nat);
        if inexact && l <= 25 {
            rounding::lemma_pow2_monotone(l as nat, 25);
        }
    }
    let s: i32 = k - e;
    let q: u32 = if s <= 0 {
        let d: u128 = power((-s) as u32);
        proof {
            rounding::lemma_round_finer(num, den, m as int, eo, k as nat, (-s) as nat);
            lemma_pow2_adds(l as nat, (-s) as nat);
            rounding::lemma_pow2_monotone((l - s) as nat, 24);
            assert(m * d < pow2(l as nat) * d) by (nonlinear_arith)
                requires
                    m < pow2(l as nat),
                    d > 0,
            ;
            if k > 0 {
                lemma_pow2_adds((l - 1) as nat, (-s) as nat);
                assert(m * d >= pow2((l - 1) as nat) * d) by (nonlinear_arith)
                    requires
                        m >= pow2((l - 1) as nat),
                        d > 0,
                ;
            }
        }
        (m * d) as u32
    } else {
        proof {
            rounding::lemma_round_coarser(num, den, m as int, eo, inexact, k as nat, s as nat);
        }
        if s > 100 {
            proof {
                lemma_pow2_adds(50, 50);
                lemma2_to64_rest();
                lemma_pow2_adds((s - 1) as nat, 1);
                rounding::lemma_pow2_monotone(100, (s - 1) as nat);
                lemma_small_mod(m as nat, pow2(s as nat));
                lemma_basic_div(m as int, pow2(s as nat) as int);
            }
            0
        } else {
            let d: u128 = power(s as u32);
            let whole: u128 = m / d;
            let rest: u128 = m % d;
            proof {
                lemma_fundamental_div_mod(m as int, d as int);
                if l + e - k < 0 {
                    rounding::lemma_pow2_monotone(l as nat, s as nat);
                    lemma_basic_div(m as int, d as int);
                } else {
                    lemma_pow2_adds((l + e - k) as nat, s as nat);
                    rounding::lemma_pow2_monotone((l + e - k) as nat, 24);
                    assert(whole < pow2((l + e - k) as nat)) by (nonlinear_arith)
                        requires
                            m < pow2((l + e - k) as nat) * d,
                            m == d * whole + rest,
                            0 <= rest,
                            d > 0,
                    ;
                }
                if k > 0 {
                    lemma_pow2_adds(23, s as nat);
                    assert(whole >= 0x80_0000) by (nonlinear_arith)
                        requires
                            m >= 0x80_0000 * d,
                            m == d * whole + rest,
                            rest < d,
                            d > 0,
                    ;
                }
            }
            if 2 * rest > d || (2 * rest == d && (inexact || whole % 2 == 1)) {
                (whole + 1) as u32
            } else {
                whole as u32
            }
        }
    };
    assert(q == half_even(num, den * pow2(k as nat)));
    if k > 253 {
        proof {
            lemma_pow2_adds(23, k as nat);
            rounding::lemma_pow2_monotone(277, (23 + k) as nat);
            lemma_pow2_pos(k as nat);
            assert(q * pow2(k as nat) >= 0x80_0000 * pow2(k as nat)) by (nonlinear_arith)
                requires
                    q >= 0x80_0000,
                    pow2(k as nat) > 0,
            ;
        }
        return infinity(negative);
    }
    pack(negative, q, k as u32)
}

/// A finite magnitude: `significand` times two to the power of `exponent`.
#[derive(Clone, Copy)]
struct Parts {
    negative: bool,
    significand: u32,
    exponent: u32,
}

impl Parts {
    spec fn magnitude(self) -> int {
        self.significand * pow2(self.exponent as nat)
    }

    spec fn value(self) -> int {
        if self.negative {
            -self.magnitude()
        } else {
            self.magnitude()
        }
    }

    spec fn well_formed(self) -> bool {
        &&& self.significand < 0x100_0000
        &&& self.exponent <= 253
        &&& self.exponent > 0 ==> self.significand >= 0x80_0000
    }
}

impl Parts {
    /// A whole magnitude, at most `top`.
    fn large(self, top: u64) -> (r: u64)
        requires
            self.well_formed(),
            !self.negative,
            self.exponent >= 149,
        ensures
            r == truncated(Number::Finite(self.value()), top as int),
            r == ceiling(Number::Finite(self.value()), top as int),
            r == rounded(Number::Finite(self.value()), top as int),
    {
        let s: u32 = self.exponent - 149;
        let ghost w = self.significand * pow2(s as nat);
        proof {
            lemma_magnitude_sign(self);
            lemma2_to64();
            lemma2_to64_rest();
            lemma_pow2_pos(149);
            lemma_pow2_pos(s as nat);
            lemma_pow2_adds(s as nat, 149);
            assert(self.magnitude() == w * unit()) by (nonlinear_arith)
                requires
                    self.magnitude() == self.significand * (pow2(s as nat) * unit()),
                    w == self.significand * pow2(s as nat),
            ;
            lemma_fundamental_div_mod_converse(w * unit(), unit(), w, 0);
            lemma_fundamental_div_mod_converse(w * unit() + unit() - 1, unit(), w, unit() - 1);
            assert(2 * (w * unit()) + unit() == w * (2 * unit()) + unit()) by (nonlinear_arith);
            lemma_fundamental_div_mod_converse(2 * (w * unit()) + unit(), 2 * unit(), w, unit());
        }
        if s > 40 {
            proof {
                rounding::lemma_pow2_monotone(41, s as nat);
                assert(w >= 0x80_0000 * 0x200_0000_0000) by (nonlinear_arith)
                    requires
                        w == self.significand * pow2(s as nat),
                        self.significand >= 0x80_0000,
                        pow2(s as nat) >= 0x200_0000_0000,
                ;
            }
            return top;
        }
        let p: u128 = power(s);
        proof {
            rounding::lemma_pow2_monotone(s as nat, 40);
            assert(self.significand * p <= 0x100_0000 * 0x100_0000_0000) by (nonlinear_arith)
                requires
                    0 <= self.significand < 0x100_0000,
                    0 <= p <= 0x100_0000_0000,
            ;
        }
        let v: u128 = self.significand as u128 * p;
        if v > top as u128 {
            top
        } else {
            v as u64
        }
    }
}

/// A magnitude with a fraction, in terms of its significand.
proof fn lemma_fractional(p: Parts)
    requires
        p.well_formed(),
        p.exponent < 149,
    ensures
        ({
            let d = pow2((149 - p.exponent) as nat) as int;
            let m = p.significand as int;
            &&& d >= 2
            &&& p.magnitude() / unit() == m / d
            &&& (p.magnitude() + unit() - 1) / unit() == if m % d == 0 {
                m / d
            } else {
                m / d + 1
            }
            &&& (2 * p.magnitude() + unit()) / (2 * unit()) == (2 * m + d) / (2 * d)
        }),
{
    let s = (149 - p.exponent) as nat;
    let d = pow2(s) as int;
    let m = p.significand as int;
    let c = pow2(p.exponent as nat) as int;
    lemma2_to64();
    lemma_pow2_pos(p.exponent as nat);
    rounding::lemma_pow2_monotone(1, s);
    lemma_pow2_adds(s, p.exponent as nat);
    let q = m / d;
    let r = m % d;
    lemma_fundamental_div_mod(m, d);
    assert(m * c == q * (d * c) + r * c) by (nonlinear_arith)
        requires
            m == d * q + r,
    ;
    assert(0 <= r * c < d * c) by (nonlinear_arith)
        requires
            0 <= r < d,
            c > 0,
    ;
    lemma_fundamental_div_mod_converse(m * c, d * c, q, r * c);
    if r == 0 {
        assert(r * c == 0);
        lemma_fundamental_div_mod_converse(m * c + d * c - 1, d * c, q, d * c - 1);
    } else {
        assert(r * c >= 1) by (nonlinear_arith)
            requires
                r >= 1,
                c >= 1,
        ;
        assert((q + 1) * (d * c) == q * (d * c) + d * c) by (nonlinear_arith);
        lemma_fundamental_div_mod_converse(m * c + d * c - 1, d * c, q + 1, r * c - 1);
    }
    let n2 = 2 * m + d;
    let d2 = 2 * d;
    lemma_fundamental_div_mod(n2, d2);
    let q2 = n2 / d2;
    let r2 = n2 % d2;
    assert(n2 * c == q2 * (d2 * c) + r2 * c) by (nonlinear_arith)
        requires
            n2 == d2 * q2 + r2,
    ;
    assert(0 <= r2 * c < d2 * c) by (nonlinear_arith)
        requires
            0 <= r2 < d2,
            c > 0,
    ;
    assert(n2 * c == 2 * (m * c) + d * c) by (nonlinear_arith)
        requires
            n2 == 2 * m + d,
    ;
    assert(d2 * c == 2 * (d * c)) by (nonlinear_arith)
        requires
            d2 == 2 * d,
    ;
    lemma_fundamental_div_mod_converse(n2 * c, d2 * c, q2, r2 * c);
}

/// A magnitude is zero if and only if its significand is.
proof fn lemma_magnitude_sign(p: Parts)
    ensures
        p.magnitude() >= 0,
        p.magnitude() == 0 <==> p.significand == 0,
{
    lemma_pow2_pos(p.exponent as nat);
    assert(p.significand * pow2(p.exponent as nat) >= 0) by (nonlinear_arith)
        requires
            pow2(p.exponent as nat) > 0,
    ;
    assert(p.significand * pow2(p.exponent as nat) == 0 <==> p.significand == 0) by (nonlinear_arith)
        requires
            pow2(p.exponent as nat) > 0,
    ;
}

impl Single {
    /// The number zero.
    pub fn zero() -> (r: Single)
        ensures
            r@ == Number::Finite(0),
    {
        proof {
            lemma_pow2_pos(0);
            assert(significand(0) * pow2(0) == 0) by (nonlinear_arith)
                requires
                    significand(0) == 0,
            ;
        }
        Single { bits: 0 }
    }

    /// The number one.
    pub fn one() -> (r: Single)
        ensures
            r@ == Number::Finite(unit()),
    {
        proof {
            lemma_one();
        }
        Single { bits: 0x3f80_0000 }
    }

    /// Whether this is not a number.
    pub fn is_nan(&self) -> (r: bool)
        ensures
            r == (self@ == Number::Nan),
    {
        (self.bits / 0x80_0000) % 0x100 == 0xff && self.bits % 0x80_0000 != 0
    }

    /// Whether this is neither infinite nor not a number.
    pub fn is_finite(&self) -> (r: bool)
        ensures
            r == (self@ is Finite),
    {
        (self.bits / 0x80_0000) % 0x100 != 0xff
    }

    /// Whether the sign is set.
    fn is_negative(&self) -> (r: bool)
        ensures
            r == (self.bits >= 0x8000_0000),
    {
        self.bits >= 0x8000_0000
    }

    /// Sign, significand and exponent of a finite number.
    fn parts(&self) -> (r: Parts)
        requires
            self@ is Finite,
        ensures
            r.well_formed(),
            self@ == Number::Finite(r.value()),
            r.negative == (self.bits >= 0x8000_0000),
            r.significand == significand(self.bits as int),
            r.exponent == exponent(self.bits as int),
    {
        let e: u32 = (self.bits / 0x80_0000) % 0x100;
        let low: u32 = self.bits % 0x80_0000;
        Parts {
            negative: self.bits >= 0x8000_0000,
            significand: if e == 0 {
                low
            } else {
                low + 0x80_0000
            },
            exponent: if e == 0 {
                0
            } else {
                e - 1
            },
        }
    }

    /// The single nearest to a whole number.
    pub fn from_u64(n: u64) -> (r: Single)
        ensures
            r@ == whole(n as int),
    {
        Single::from_wide(n as u128)
    }

    /// The single nearest to a whole number.
    pub fn from_wide(n: u128) -> (r: Single)
        requires
            n < 0x10_0000_0000_0000_0000_0000_0000,
        ensures
            r@ == whole(n as int),
    {
        proof {
            lemma_pow2_adds(149, 512);
            assert(n * pow2(149) * pow2(512) == (1 * pow2(661)) * n) by (nonlinear_arith)
                requires
                    pow2(149) * pow2(512) == pow2(661),
            ;
            lemma_pow2_pos(661);
            assert((1 * pow2(661)) * (n + 1) == (1 * pow2(661)) * n + pow2(661)) by (nonlinear_arith);
            lemma_pow2_pos(149);
            assert(n * unit() >= 0) by (nonlinear_arith)
                requires
                    unit() > 0,
            ;
        }
        round(false, n, 149, false, Ghost(n * unit()), Ghost(1))
    }

    /// The single nearest to the fraction `n / d`.
    pub fn from_ratio(n: u32, d: u32) -> (r: Single)
        requires
            d > 0,
        ensures
            r@ == fraction(n as int, d as int),
    {
        let top: u128 = n as u128 * 0x1000_0000_0000_0000;
        let m: u128 = top / (d as u128);
        let rest: u128 = top % (d as u128);
        proof {
            lemma_fundamental_div_mod(top as int, d as int);
            assert(m <= top) by (nonlinear_arith)
                requires
                    top == d * m + rest,
                    d > 0,
                    rest >= 0,
                    m >= 0,
            ;
            if rest != 0 {
                assert(top >= 0x1000_0000_0000_0000);
                assert(m >= 0x200_0000) by (nonlinear_arith)
                    requires
                        top == d * m + rest,
                        rest < d,
                        d <= 0xffff_ffff,
                        top >= 0x1000_0000_0000_0000,
                ;
            }
            lemma2_to64();
            lemma2_to64_rest();
            lemma_pow2_adds(60, 601);
            lemma_pow2_adds(149, 512);
            let b = d * pow2(601);
            lemma_pow2_pos(601);
            assert(n * unit() * pow2(512) == top * pow2(601)) by (nonlinear_arith)
                requires
                    unit() * pow2(512) == 0x1000_0000_0000_0000 * pow2(601),
                    top == n * 0x1000_0000_0000_0000,
            ;
            assert(top * pow2(601) == b * m + rest * pow2(601)) by (nonlinear_arith)
                requires
                    top == d * m + rest,
                    b == d * pow2(601),
            ;
            assert(b * (m + 1) == b * m + b) by (nonlinear_arith);
            assert(0 <= rest * pow2(601) < b) by (nonlinear_arith)
                requires
                    b == d * pow2(601),
                    0 <= rest < d,
                    pow2(601) > 0,
            ;
            assert(rest * pow2(601) == 0 <==> rest == 0) by (nonlinear_arith)
                requires
                    pow2(601) > 0,
            ;
            lemma_pow2_pos(149);
            assert(n * unit() >= 0) by (nonlinear_arith)
                requires
                    unit() > 0,
            ;
        }
        round(false, m, 89, rest != 0, Ghost(n * unit()), Ghost(d as int))
    }

    /// The number with the other sign.
    pub fn negate(&self) -> (r: Single)
        ensures
            r@ == negated(self@),
    {
        let r: Single = Single {
            bits: if self.bits >= 0x8000_0000 {
                self.bits - 0x8000_0000
            } else {
                self.bits + 0x8000_0000
            },
        };
        assert((r.bits / 0x80_0000) % 0x100 == (self.bits / 0x80_0000) % 0x100);
        assert(r.bits % 0x80_0000 == self.bits % 0x80_0000);
        r
    }

    /// The sign of a number that is not zero, set for a negative one.
    fn sign_differs(&self, other: &Single) -> (r: bool)
        ensures
            r == ((self.bits >= 0x8000_0000) != (other.bits >= 0x8000_0000)),
    {
        self.is_negative() != other.is_negative()
    }

    /// The correctly rounded product.
    pub fn times(&self, other: &Single) -> (r: Single)
        ensures
            r@ == product(self@, other@),
    {
        let negative: bool = self.sign_differs(other);
        if self.is_nan() || other.is_nan() {
            return Single { bits: 0x7fc0_0000 };
        }
        if !self.is_finite() || !other.is_finite() {
            proof {
                if self@ is Finite {
                    lemma_sign(*self);
                }
                if other@ is Finite {
                    lemma_sign(*other);
                }
            }
            if self.is_zero() || other.is_zero() {
                return Single { bits: 0x7fc0_0000 };
            }
            return infinity(negative);
        }
        let a: Parts = self.parts();
        let b: Parts = other.parts();
        assert(a.significand * b.significand < 0x1_0000_0000_0000) by (nonlinear_arith)
            requires
                0 <= a.significand < 0x100_0000,
                0 <= b.significand < 0x100_0000,
        ;
        let m: u128 = a.significand as u128 * b.significand as u128;
        let e: i32 = a.exponent as i32 + b.exponent as i32 - 149;
        let ghost num = a.magnitude() * b.magnitude();
        proof {
            let pa = pow2(a.exponent as nat);
            let pb = pow2(b.exponent as nat);
            lemma_pow2_adds(a.exponent as nat, b.exponent as nat);
            lemma_pow2_adds((a.exponent + b.exponent) as nat, 512);
            lemma_pow2_adds(149, (e + 512) as nat);
            assert(num * pow2(512) == (unit() * pow2((e + 512) as nat)) * m) by (nonlinear_arith)
                requires
                    num == (a.significand * pa) * (b.significand * pb),
                    m == a.significand * b.significand,
                    (pa * pb) * pow2(512) == unit() * pow2((e + 512) as nat),
            {
                assert((a.significand * pa) * (b.significand * pb) == (a.significand * b.significand)
                    * (pa * pb));
                assert(m * (pa * pb) * pow2(512) == m * ((pa * pb) * pow2(512)));
            }
            lemma_pow2_pos(149);
            lemma_pow2_pos((e + 512) as nat);
            assert(unit() * pow2((e + 512) as nat) > 0) by (nonlinear_arith)
                requires
                    unit() > 0,
                    pow2((e + 512) as nat) > 0,
            ;
            let bb = unit() * pow2((e + 512) as nat);
            assert(bb * (m + 1) == bb * m + bb) by (nonlinear_arith);
            lemma_magnitude_sign(a);
            lemma_magnitude_sign(b);
            lemma_signed_product(a, b);
            lemma_nearest_zero(unit());
        }
        round(negative, m, e, false, Ghost(num), Ghost(unit()))
    }

    /// The correctly rounded quotient by a number other than zero.
    pub fn over(&self, other: &Single) -> (r: Single)
        requires
            other@ != Number::Finite(0),
        ensures
            r@ == quotient(self@, other@),
    {
        let negative: bool = self.sign_differs(other);
        if self.is_nan() || other.is_nan() {
            return Single { bits: 0x7fc0_0000 };
        }
        if !self.is_finite() {
            if !other.is_finite() {
                return Single { bits: 0x7fc0_0000 };
            }
            proof {
                lemma_sign(*other);
            }
            if self.is_negative() {
                proof {
                    assert(-1 * sign_of(other@) == -sign_of(other@));
                }
            }
            return infinity(negative);
        }
        if !other.is_finite() {
            proof {
                lemma_pow2_pos(0);
                assert(0 * pow2(0) == 0);
            }
            return Single { bits: 0 };
        }
        let a: Parts = self.parts();
        let b: Parts = other.parts();
        let top: u128 = a.significand as u128 * 0x4_0000_0000_0000;
        proof {
            lemma_magnitude_sign(a);
            lemma_magnitude_sign(b);
        }
        let m: u128 = top / (b.significand as u128);
        let rest: u128 = top % (b.significand as u128);
        let e: i32 = a.exponent as i32 - b.exponent as i32 + 99;
        let ghost num = a.magnitude() * unit();
        let ghost den = b.magnitude();
        proof {
            let pa = pow2(a.exponent as nat) as int;
            let pb = pow2(b.exponent as nat) as int;
            let pe = pow2((e + 512) as nat) as int;
            let scale = pow2((a.exponent + 611) as nat) as int;
            lemma_fundamental_div_mod(top as int, b.significand as int);
            assert(m <= top) by (nonlinear_arith)
                requires
                    top == b.significand * m + rest,
                    b.significand > 0,
                    rest >= 0,
                    m >= 0,
            ;
            if rest != 0 {
                assert(m >= 0x200_0000) by (nonlinear_arith)
                    requires
                        top == b.significand * m + rest,
                        rest < b.significand,
                        b.significand < 0x100_0000,
                        top >= 0x4_0000_0000_0000,
                ;
            }
            lemma2_to64();
            lemma2_to64_rest();
            lemma_pow2_adds(a.exponent as nat, 149);
            lemma_pow2_adds((a.exponent + 149) as nat, 512);
            lemma_pow2_adds(50, (a.exponent + 611) as nat);
            lemma_pow2_adds(b.exponent as nat, (e + 512) as nat);
            lemma_pow2_pos((a.exponent + 611) as nat);
            assert(num * pow2(512) == top * scale) by (nonlinear_arith)
                requires
                    num == (a.significand * pa) * unit(),
                    (pa * unit()) * pow2(512) == 0x4_0000_0000_0000 * scale,
                    top == a.significand * 0x4_0000_0000_0000,
            {
                assert((a.significand * pa) * unit() * pow2(512) == a.significand * ((pa * unit())
                    * pow2(512)));
            }
            let bb = den * pe;
            assert(bb == b.significand * scale) by (nonlinear_arith)
                requires
                    bb == (b.significand * pb) * pe,
                    pb * pe == scale,
            ;
            assert(top * scale == bb * m + rest * scale) by (nonlinear_arith)
                requires
                    top == b.significand * m + rest,
                    bb == b.significand * scale,
            ;
            assert(bb * (m + 1) == bb * m + bb) by (nonlinear_arith);
            assert(0 <= rest * scale < bb) by (nonlinear_arith)
                requires
                    bb == b.significand * scale,
                    0 <= rest < b.significand,
                    scale > 0,
            ;
            assert(rest * scale == 0 <==> rest == 0) by (nonlinear_arith)
                requires
                    scale > 0,
            ;
            lemma_pow2_pos(149);
            lemma_signed_quotient(a, b);
            lemma_nearest_zero(den);
        }
        round(negative, m, e, rest != 0, Ghost(num), Ghost(den))
    }

    /// The correctly rounded sum.
    pub fn plus(&self, other: &Single) -> (r: Single)
        ensures
            r@ == sum(self@, other@),
    {
        if self.is_nan() || other.is_nan() {
            return Single { bits: 0x7fc0_0000 };
        }
        if !self.is_finite() {
            if !other.is_finite() && self.sign_differs(other) {
                return Single { bits: 0x7fc0_0000 };
            }
            return *self;
        }
        if !other.is_finite() {
            return *other;
        }
        let a: Parts = self.parts();
        let b: Parts = other.parts();
        if a.exponent >= b.exponent {
            sum_of_parts(a, b)
        } else {
            sum_of_parts(b, a)
        }
    }

    /// The correctly rounded difference.
    pub fn minus(&self, other: &Single) -> (r: Single)
        ensures
            r@ == difference(self@, other@),
    {
        self.plus(&other.negate())
    }

    /// Whether this is less than `other`.
    pub fn is_less(&self, other: &Single) -> (r: bool)
        ensures
            r == less(self@, other@),
    {
        if self.is_nan() || other.is_nan() {
            return false;
        }
        let a: u32 = self.bits % 0x8000_0000;
        let b: u32 = other.bits % 0x8000_0000;
        proof {
            lemma_order(*self, *other);
        }
        if self.is_negative() {
            if other.is_negative() {
                b < a
            } else {
                a != 0 || b != 0
            }
        } else if other.is_negative() {
            false
        } else {
            a < b
        }
    }

    /// Whether this is no more than `other`.
    pub fn is_at_most(&self, other: &Single) -> (r: bool)
        ensures
            r == at_most(self@, other@),
    {
        if self.is_nan() || other.is_nan() {
            return false;
        }
        proof {
            lemma_order(*self, *other);
        }
        !other.is_less(self)
    }

    /// The larger of two numbers, passing over what is not a number.
    pub fn or_larger(&self, other: &Single) -> (r: Single)
        ensures
            r@ == larger(self@, other@),
    {
        if self.is_nan() || self.is_less(other) {
            *other
        } else {
            *self
        }
    }

    /// The number held between zero and one.
    pub fn clamp_to_one(&self) -> (r: Single)
        ensures
            r@ == clamped(self@),
    {
        let zero: Single = Single { bits: 0 };
        let one: Single = Single { bits: 0x3f80_0000 };
        proof {
            lemma_pow2_pos(0);
            assert(0 * pow2(0) == 0);
            lemma_one();
        }
        if self.is_less(&zero) {
            zero
        } else if one.is_less(self) {
            one
        } else {
            *self
        }
    }

    /// The number cut to a whole one that is at most `top`.
    pub fn truncate_to(&self, top: u64) -> (r: u64)
        ensures
            r == truncated(self@, top as int),
    {
        if !self.is_finite() {
            return if self.is_nan() || self.is_negative() {
                0
            } else {
                top
            };
        }
        let p: Parts = self.parts();
        proof {
            lemma_magnitude_sign(p);
        }
        if p.negative || p.significand == 0 {
            return 0;
        }
        if p.exponent >= 149 {
            return p.large(top);
        }
        let s: u32 = 149 - p.exponent;
        proof {
            lemma_fractional(p);
        }
        if s > 40 {
            proof {
                lemma2_to64();
                rounding::lemma_pow2_monotone(24, s as nat);
                lemma_basic_div(p.significand as int, pow2(s as nat) as int);
            }
            return 0;
        }
        let d: u128 = power(s);
        let w: u128 = p.significand as u128 / d;
        proof {
            lemma_div_nonincreasing(p.significand as int, d as int);
        }
        if w > top as u128 {
            top
        } else {
            w as u64
        }
    }

    /// The least whole number that is not below this one, at most `top`.
    pub fn ceil_to(&self, top: u64) -> (r: u64)
        ensures
            r == ceiling(self@, top as int),
    {
        if !self.is_finite() {
            return if self.is_nan() || self.is_negative() {
                0
            } else {
                top
            };
        }
        let p: Parts = self.parts();
        proof {
            lemma_magnitude_sign(p);
        }
        if p.negative || p.significand == 0 {
            return 0;
        }
        if p.exponent >= 149 {
            return p.large(top);
        }
        let s: u32 = 149 - p.exponent;
        proof {
            lemma_fractional(p);
        }
        if s > 40 {
            proof {
                lemma2_to64();
                rounding::lemma_pow2_monotone(24, s as nat);
                lemma_basic_div(p.significand as int, pow2(s as nat) as int);
                lemma_small_mod(p.significand as nat, pow2(s as nat));
            }
            return if top == 0 {
                0
            } else {
                1
            };
        }
        let d: u128 = power(s);
        let whole: u128 = p.significand as u128 / d;
        proof {
            lemma_div_nonincreasing(p.significand as int, d as int);
        }
        let w: u128 = if p.significand as u128 % d == 0 {
            whole
        } else {
            whole + 1
        };
        if w > top as u128 {
            top
        } else {
            w as u64
        }
    }

    /// The whole number nearest to this one, halves going up, at most `top`.
    pub fn round_to(&self, top: u64) -> (r: u64)
        ensures
            r == rounded(self@, top as int),
    {
        if !self.is_finite() {
            return if self.is_nan() || self.is_negative() {
                0
            } else {
                top
            };
        }
        let p: Parts = self.parts();
        proof {
            lemma_magnitude_sign(p);
        }
        if p.negative || p.significand == 0 {
            return 0;
        }
        if p.exponent >= 149 {
            return p.large(top);
        }
        let s: u32 = 149 - p.exponent;
        proof {
            lemma_fractional(p);
        }
        if s > 40 {
            proof {
                lemma2_to64();
                rounding::lemma_pow2_monotone(25, s as nat);
                lemma_basic_div(2 * p.significand + pow2(s as nat), 2 * pow2(s as nat) as int);
            }
            return 0;
        }
        let d: u128 = power(s);
        let w: u128 = (2 * p.significand as u128 + d) / (2 * d);
        proof {
            lemma_div_nonincreasing(2 * p.significand + d, 2 * d as int);
        }
        if w > top as u128 {
            top
        } else {
            w as u64
        }
    }

    /// Whether this is zero.
    pub fn is_zero(&self) -> (r: bool)
        ensures
            r == (self@ == Number::Finite(0)),
    {
        if !self.is_finite() {
            return false;
        }
        let p: Parts = self.parts();
        proof {
            lemma_magnitude_sign(p);
        }
        p.significand == 0
    }
}

/// The sign bit agrees with the sign of a finite number.
proof fn lemma_sign(a: Single)
    requires
        a@ is Finite,
    ensures
        a.bits >= 0x8000_0000 ==> a@->Finite_0 <= 0,
        a.bits < 0x8000_0000 ==> a@->Finite_0 >= 0,
{
    lemma_pow2_pos(exponent(a.bits as int) as nat);
    assert(significand(a.bits as int) * pow2(exponent(a.bits as int) as nat) >= 0)
        by (nonlinear_arith)
        requires
            significand(a.bits as int) >= 0,
            pow2(exponent(a.bits as int) as nat) >= 0,
    ;
}

/// Sign and magnitude of a product.
proof fn lemma_signed_product(a: Parts, b: Parts)
    ensures
        a.negative == b.negative ==> a.value() * b.value() == a.magnitude() * b.magnitude(),
        a.negative != b.negative ==> a.value() * b.value() == -(a.magnitude() * b.magnitude()),
        a.magnitude() * b.magnitude() >= 0,
{
    lemma_magnitude_sign(a);
    lemma_magnitude_sign(b);
    let x = a.magnitude();
    let y = b.magnitude();
    assert((-x) * y == -(x * y)) by (nonlinear_arith);
    assert(x * (-y) == -(x * y)) by (nonlinear_arith);
    assert((-x) * (-y) == x * y) by (nonlinear_arith);
    assert(x * y >= 0) by (nonlinear_arith)
        requires
            x >= 0,
            y >= 0,
    ;
}

/// Zero rounds to zero.
proof fn lemma_nearest_zero(den: int)
    requires
        den > 0,
    ensures
        nearest_magnitude(0, den) == 0,
        signed(true, 0) == signed(false, 0),
{
    lemma_pow2_pos(24);
    lemma_pow2_pos(277);
    lemma2_to64();
    assert(0 < den * pow2(24)) by (nonlinear_arith)
        requires
            den > 0,
            pow2(24) > 0,
    ;
    rounding::lemma_spacing(0, den, 0);
    lemma_div_of0(den * pow2(0));
    lemma_small_mod(0, (den * pow2(0)) as nat);
}

/// Sign and magnitude of a quotient's numerator.
proof fn lemma_signed_quotient(a: Parts, b: Parts)
    requires
        b.significand > 0,
    ensures
        a.magnitude() * unit() >= 0,
        b.magnitude() > 0,
        b.negative ==> b.value() < 0 && -b.value() == b.magnitude(),
        !b.negative ==> b.value() == b.magnitude(),
        a.negative ==> a.value() * unit() == -(a.magnitude() * unit()),
        !a.negative ==> a.value() * unit() == a.magnitude() * unit(),
        a.negative ==> -a.value() * unit() == a.magnitude() * unit(),
        !a.negative ==> -a.value() * unit() == -(a.magnitude() * unit()),
{
    lemma_magnitude_sign(a);
    lemma_magnitude_sign(b);
    lemma_pow2_pos(149);
    let x = a.magnitude();
    assert((-x) * unit() == -(x * unit())) by (nonlinear_arith);
    assert(x * unit() >= 0) by (nonlinear_arith)
        requires
            x >= 0,
            unit() > 0,
    ;
}

/// A number that is more than zero.
pub open spec fn positive(a: Number) -> bool {
    a == Number::Infinity || (a is Finite && a->Finite_0 > 0)
}

/// A whole number of at least one is not rounded to zero.
pub proof fn lemma_whole_positive(n: int)
    requires
        n >= 1,
    ensures
        positive(whole(n)),
{
    lemma_fraction_positive(n, 1);
}

/// A fraction that is not far below one is not rounded to zero.
pub proof fn lemma_fraction_positive(n: int, d: int)
    requires
        n >= 1,
        0 < d <= 0x1_0000_0000,
    ensures
        positive(fraction(n, d)),
{
    lemma2_to64();
    rounding::lemma_pow2_monotone(32, 149);
    assert(n * unit() >= d) by (nonlinear_arith)
        requires
            n >= 1,
            unit() >= 0x1_0000_0000,
            d <= 0x1_0000_0000,
    ;
    rounding::lemma_rounds_up_to_unit(n * unit(), d);
}

/// The encoding of one.
pub proof fn lemma_one()
    ensures
        decoded(0x3f80_0000) == Number::Finite(unit()),
{
    lemma2_to64();
    lemma_pow2_adds(23, 126);
    assert(0x3f80_0000int / 0x80_0000 == 127);
    assert(0x3f80_0000int % 0x80_0000 == 0);
}

/// The magnitude of an encoding grows with the encoding.
proof fn lemma_magnitude_order(x: int, y: int)
    requires
        0 <= x < y < 0x7f80_0000,
    ensures
        0 <= significand(x) * pow2(exponent(x) as nat) < significand(y) * pow2(exponent(y) as nat),
{
    let mx = significand(x);
    let my = significand(y);
    let ex = exponent(x) as nat;
    let ey = exponent(y) as nat;
    lemma_pow2_pos(ex);
    lemma_pow2_pos(ey);
    assert(0 <= mx * pow2(ex)) by (nonlinear_arith)
        requires
            0 <= mx,
            0 <= pow2(ex),
    ;
    if ex == ey {
        assert(mx < my);
        assert(mx * pow2(ex) < my * pow2(ex)) by (nonlinear_arith)
            requires
                mx < my,
                pow2(ex) > 0,
        ;
    } else {
        assert(ex < ey);
        lemma_pow2_adds((ey - ex - 1) as nat, ex + 1);
        lemma_pow2_adds(ex, 1);
        lemma2_to64();
        rounding::lemma_pow2_monotone(ex + 1, ey);
        assert(mx * pow2(ex) < my * pow2(ey)) by (nonlinear_arith)
            requires
                0 <= mx < 0x100_0000,
                my >= 0x80_0000,
                pow2(ey) >= 2 * pow2(ex),
                pow2(ex) > 0,
        ;
    }
}

/// What a number is, by its sign and the rest of its encoding.
proof fn lemma_encoding(a: Single)
    requires
        a@ != Number::Nan,
    ensures
        ({
            let x = a.bits as int % 0x8000_0000;
            let m = significand(x) * pow2(exponent(x) as nat);
            let negative = a.bits >= 0x8000_0000;
            &&& x <= 0x7f80_0000
            &&& x < 0x7f80_0000 && negative ==> a@ == Number::Finite(-m)
            &&& x < 0x7f80_0000 && !negative ==> a@ == Number::Finite(m)
            &&& x == 0x7f80_0000 && negative ==> a@ == Number::NegInfinity
            &&& x == 0x7f80_0000 && !negative ==> a@ == Number::Infinity
            &&& x == 0 ==> m == 0
            &&& 0 < x < 0x7f80_0000 ==> m > 0
        }),
{
    let x = a.bits as int % 0x8000_0000;
    assert((a.bits as int / 0x80_0000) % 0x100 == (x / 0x80_0000) % 0x100);
    assert(a.bits as int % 0x80_0000 == x % 0x80_0000);
    if 0 < x < 0x7f80_0000 {
        lemma_magnitude_order(0, x);
    }
    assert(significand(0) * pow2(exponent(0) as nat) == 0) by (nonlinear_arith)
        requires
            significand(0) == 0,
    ;
}

/// The order of two numbers is that of their encodings, taken by magnitude.
proof fn lemma_order(a: Single, b: Single)
    requires
        a@ != Number::Nan,
        b@ != Number::Nan,
    ensures
        less(a@, b@) == if a.bits >= 0x8000_0000 {
            if b.bits >= 0x8000_0000 {
                b.bits < a.bits
            } else {
                a.bits != 0x8000_0000 || b.bits != 0
            }
        } else if b.bits >= 0x8000_0000 {
            false
        } else {
            a.bits < b.bits
        },
        less(a@, b@) || less(b@, a@) || a@ == b@,
        !(less(a@, b@) && less(b@, a@)),
        a@ == b@ ==> !less(a@, b@),
{
    let x = a.bits as int % 0x8000_0000;
    let y = b.bits as int % 0x8000_0000;
    lemma_encoding(a);
    lemma_encoding(b);
    if a@ is Finite && b@ is Finite {
        if x < y {
            lemma_magnitude_order(x, y);
        } else if y < x {
            lemma_magnitude_order(y, x);
        }
    }
}

/// The correctly rounded sum of two finite numbers, the second with the smaller exponent.
fn sum_of_parts(a: Parts, b: Parts) -> (r: Single)
    requires
        a.well_formed(),
        b.well_formed(),
        a.exponent >= b.exponent,
    ensures
        r@ == nearest(a.value() + b.value(), 1),
{
    let d: u32 = a.exponent - b.exponent;
    proof {
        lemma2_to64();
        lemma2_to64_rest();
        lemma_magnitude_sign(a);
        lemma_magnitude_sign(b);
        lemma_nearest_zero(1);
    }
    if d <= 40 {
        let p: u128 = power(d);
        proof {
            rounding::lemma_pow2_monotone(d as nat, 40);
            assert(a.significand * p <= 0x100_0000 * 0x100_0000_0000) by (nonlinear_arith)
                requires
                    0 <= a.significand < 0x100_0000,
                    0 <= p <= 0x100_0000_0000,
            ;
        }
        let x: u128 = a.significand as u128 * p;
        let y: u128 = b.significand as u128;
        let (negative, m): (bool, u128) = if a.negative == b.negative {
            (a.negative, x + y)
        } else if x >= y {
            (a.negative, x - y)
        } else {
            (b.negative, y - x)
        };
        let ghost num = m * pow2(b.exponent as nat);
        proof {
            let pb = pow2(b.exponent as nat) as int;
            lemma_pow2_pos(b.exponent as nat);
            lemma_pow2_adds(d as nat, b.exponent as nat);
            lemma_pow2_adds(b.exponent as nat, 512);
            assert(a.magnitude() == x * pb) by (nonlinear_arith)
                requires
                    a.magnitude() == a.significand * (p * pb),
                    x == a.significand * p,
            ;
            assert((x + y) * pb == x * pb + y * pb) by (nonlinear_arith);
            assert((x - y) * pb == x * pb - y * pb) by (nonlinear_arith);
            assert((y - x) * pb == y * pb - x * pb) by (nonlinear_arith);
            assert(num >= 0) by (nonlinear_arith)
                requires
                    num == m * pb,
                    m >= 0,
                    pb > 0,
            ;
            let bb = 1 * pow2((b.exponent + 512) as nat);
            lemma_pow2_pos((b.exponent + 512) as nat);
            assert(num * pow2(512) == bb * m) by (nonlinear_arith)
                requires
                    num == m * pb,
                    bb == pb * pow2(512),
            ;
            assert(bb * (m + 1) == bb * m + bb) by (nonlinear_arith);
        }
        round(negative, m, b.exponent as i32, false, Ghost(num), Ghost(1))
    } else {
        let small: bool = b.significand != 0;
        let top: u128 = a.significand as u128 * 0x400;
        let m: u128 = if small && a.negative != b.negative {
            top - 1
        } else {
            top
        };
        let e: i32 = a.exponent as i32 - 10;
        let ghost num = if a.negative == b.negative {
            a.magnitude() + b.magnitude()
        } else {
            a.magnitude() - b.magnitude()
        };
        proof {
            let pe = pow2(e as nat) as int;
            let pb = pow2(b.exponent as nat) as int;
            lemma_pow2_pos(e as nat);
            lemma_pow2_adds(10, e as nat);
            lemma_pow2_adds(24, b.exponent as nat);
            rounding::lemma_pow2_monotone((24 + b.exponent) as nat, e as nat);
            lemma_pow2_pos(b.exponent as nat);
            assert(a.magnitude() == top * pe) by (nonlinear_arith)
                requires
                    a.magnitude() == a.significand * (0x400 * pe),
                    top == a.significand * 0x400,
            ;
            assert(b.magnitude() < pe) by (nonlinear_arith)
                requires
                    b.magnitude() == b.significand * pb,
                    0 <= b.significand < 0x100_0000,
                    0x100_0000 * pb <= pe,
                    pb > 0,
            ;
            assert((top - 1) * pe == top * pe - pe) by (nonlinear_arith);
            assert(m * pe <= num < (m + 1) * pe) by (nonlinear_arith)
                requires
                    num == (if a.negative == b.negative {
                        top * pe + b.magnitude()
                    } else {
                        top * pe - b.magnitude()
                    }),
                    m == (if small && a.negative != b.negative {
                        top - 1
                    } else {
                        top as int
                    }),
                    0 <= b.magnitude() < pe,
                    small <==> b.magnitude() != 0,
            {
                assert((m + 1) * pe == m * pe + pe);
                assert((top - 1) * pe == top * pe - pe);
            }
            assert(small <==> num != m * pe);
            let p = pow2(512) as int;
            lemma_pow2_adds(e as nat, 512);
            lemma_pow2_pos(512);
            let bb = 1 * pow2((e + 512) as nat);
            assert(bb * m <= num * p && num * p < bb * (m + 1)) by (nonlinear_arith)
                requires
                    bb == pe * p,
                    m * pe <= num < (m + 1) * pe,
                    p > 0,
            {
                assert(bb * m == (m * pe) * p);
                assert(bb * (m + 1) == ((m + 1) * pe) * p);
            }
            assert(num * p != bb * m <==> num != m * pe) by (nonlinear_arith)
                requires
                    bb == pe * p,
                    p > 0,
            {
                assert(bb * m == (m * pe) * p);
            }
            assert(num > 0 || !small) by (nonlinear_arith)
                requires
                    m * pe <= num,
                    m > 0,
                    pe > 0,
            ;
            assert(num >= 0) by (nonlinear_arith)
                requires
                    m * pe <= num,
                    m > 0,
                    pe > 0,
            ;
        }
        round(a.negative, m, e, small, Ghost(num), Ghost(1))
    }
}

/// A fraction that is at most a short number rounds to a finite number that is no larger.
pub proof fn lemma_nearest_at_most(num: int, den: int, m: int, e: nat)
    requires
        den > 0,
        0 <= num <= den * (m * pow2(e)),
        0 <= m < pow2(24),
        e <= 253,
    ensures
        nearest(num, den) is Finite,
        0 <= nearest(num, den)->0 <= m * pow2(e),
{
    rounding::lemma_round_below(num, den, m, e);
    lemma_pow2_adds(24, e);
    rounding::lemma_pow2_monotone(24 + e, 277);
    lemma_pow2_pos(e);
    assert(m * pow2(e) < pow2(24) * pow2(e)) by (nonlinear_arith)
        requires
            m < pow2(24),
            pow2(e) > 0,
    ;
}

/// A fraction that is at least a short number rounds to at least that number.
pub proof fn lemma_nearest_at_least(num: int, den: int, m: int, e: nat)
    requires
        den > 0,
        num >= den * (m * pow2(e)),
        0 <= m <= pow2(24),
    ensures
        at_most(Number::Finite(m * pow2(e)), nearest(num, den)),
{
    lemma_pow2_pos(e);
    assert(den * (m * pow2(e)) >= 0) by (nonlinear_arith)
        requires
            den > 0,
            m >= 0,
            pow2(e) > 0,
    ;
    rounding::lemma_round_above(num, den, m, e);
}

/// A short number is a single, with either sign.
pub proof fn lemma_nearest_exact(num: int, den: int, m: int, e: nat)
    requires
        den > 0,
        num == den * (m * pow2(e)),
        -pow2(24) < m < pow2(24),
        e <= 253,
    ensures
        nearest(num, den) == Number::Finite(m * pow2(e)),
{
    lemma_pow2_pos(e);
    lemma_pow2_adds(24, e);
    rounding::lemma_pow2_monotone(24 + e, 277);
    if m < 0 {
        assert(-num == den * (-m * pow2(e)) && num < 0) by (nonlinear_arith)
            requires
                num == den * (m * pow2(e)),
                den > 0,
                m < 0,
                pow2(e) > 0,
        ;
        rounding::lemma_round_exact(-num, den, -m, e);
        assert(-m * pow2(e) == -(m * pow2(e))) by (nonlinear_arith);
        assert(-m * pow2(e) < pow2(24) * pow2(e)) by (nonlinear_arith)
            requires
                -m < pow2(24),
                pow2(e) > 0,
        ;
    } else {
        assert(num >= 0) by (nonlinear_arith)
            requires
                num == den * (m * pow2(e)),
                den > 0,
                m >= 0,
                pow2(e) > 0,
        ;
        rounding::lemma_round_exact(num, den, m, e);
        assert(m * pow2(e) < pow2(24) * pow2(e)) by (nonlinear_arith)
            requires
                m < pow2(24),
                pow2(e) > 0,
        ;
    }
}

/// Whole numbers of up to 24 binary digits are singles.
pub proof fn lemma_whole_exact(n: int)
    requires
        -0x100_0000 < n < 0x100_0000,
    ensures
        whole(n) == Number::Finite(n * unit()),
{
    lemma2_to64();
    assert(pow2(24) == 0x100_0000);
    lemma_nearest_exact(n * unit(), 1, n, 149);
}

/// Sums of whole numbers are exact while they have up to 24 binary digits.
pub proof fn lemma_sum_exact(a: int, b: int)
    requires
        -0x100_0000 < a + b < 0x100_0000,
    ensures
        sum(Number::Finite(a * unit()), Number::Finite(b * unit())) == Number::Finite(
            (a + b) * unit(),
        ),
{
    lemma2_to64();
    assert(pow2(24) == 0x100_0000);
    assert(a * unit() + b * unit() == (a + b) * unit()) by (nonlinear_arith);
    lemma_nearest_exact(a * unit() + b * unit(), 1, a + b, 149);
}

/// A whole number of up to 24 binary digits times one is that number.
pub proof fn lemma_times_one(n: int)
    requires
        -0x100_0000 < n < 0x100_0000,
    ensures
        product(Number::Finite(n * unit()), Number::Finite(unit())) == Number::Finite(n * unit()),
{
    lemma2_to64();
    assert(pow2(24) == 0x100_0000);
    lemma_pow2_pos(149);
    assert((n * unit()) * unit() == unit() * (n * unit())) by (nonlinear_arith);
    lemma_nearest_exact((n * unit()) * unit(), unit(), n, 149);
}

} // verus!
