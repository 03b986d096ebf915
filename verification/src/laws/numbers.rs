//! How numbers are rounded, compared and cut, and how colours are mixed with them.
use crate::model::Rgb;
use crate::noise;
use crate::rounding;
use crate::single;
use crate::single::Number;
use crate::theme;
use crate::theme::Stop;
use vstd::arithmetic::div_mod::*;
use vstd::arithmetic::power2::*;
use vstd::prelude::*;

verus! {

/// A fraction below two to the power of `24 + j` units is rounded to a number that is off by at
/// most half of two to the power of `j`.
pub proof fn law_rounding_is_close(num: int, den: int, j: nat)
    requires
        den > 0,
        -(den * pow2(24 + j)) < num < den * pow2(24 + j),
        j <= 200,
    ensures
        single::nearest(num, den) is Finite,
        -(den * pow2(j)) <= 2 * (den * single::nearest(num, den)->0 - num) <= den * pow2(j),
{
    let n = if num < 0 {
        -num
    } else {
        num
    };
    rounding::lemma_round_close(n, den, j);
    let m = single::nearest_magnitude(n, den);
    lemma_pow2_pos(j);
    lemma_pow2_adds(24, j);
    lemma2_to64();
    assert(pow2(24 + j) == 0x100_0000 * pow2(j));
    rounding::lemma_pow2_monotone(25 + j, 277);
    lemma_pow2_adds(25, j);
    assert(pow2(25) == 0x200_0000);
    assert(pow2(25 + j) == 0x200_0000 * pow2(j));
    assert(m < pow2(277)) by {
        assert(m < 0x200_0000 * pow2(j)) by (nonlinear_arith)
            requires
                2 * (den * m - n) <= den * pow2(j),
                n < den * (0x100_0000 * pow2(j)),
                den > 0,
                pow2(j) > 0,
        ;
    }
    assert(den * -m == -(den * m)) by (nonlinear_arith);
}

/// A fraction of two to the power of 277 units or more is rounded to an infinity.
pub proof fn law_overflow(num: int, den: int)
    requires
        den > 0,
        num >= den * pow2(277),
    ensures
        single::nearest(num, den) == Number::Infinity,
        single::nearest(-num, den) == Number::NegInfinity,
{
    lemma2_to64();
    lemma_pow2_pos(277);
    lemma_pow2_adds(24, 253);
    assert(pow2(24) * pow2(253) == pow2(277));
    single::lemma_nearest_at_least(num, den, pow2(24) as int, 253);
    assert(num > 0) by (nonlinear_arith)
        requires
            num >= den * pow2(277),
            den > 0,
            pow2(277) > 0,
    ;
    assert(single::nearest_magnitude(num, den) >= pow2(277));
}

/// Whole numbers of up to 24 binary digits are kept, and so are their sums, differences, products
/// and those of their quotients that are whole.
pub proof fn law_whole_numbers(a: int, b: int)
    requires
        -4096 < a < 4096,
        -4096 < b < 4096,
    ensures
        single::whole(a) == Number::Finite(a * single::unit()),
        single::sum(single::whole(a), single::whole(b)) == single::whole(a + b),
        single::difference(single::whole(a), single::whole(b)) == single::whole(a - b),
        single::product(single::whole(a), single::whole(b)) == single::whole(a * b),
        b != 0 ==> single::quotient(single::whole(a * b), single::whole(b)) == single::whole(a),
{
    let u = single::unit();
    lemma_pow2_pos(149);
    lemma2_to64();
    assert(-0x100_0000 < a * b < 0x100_0000) by (nonlinear_arith)
        requires
            -4096 < a < 4096,
            -4096 < b < 4096,
    ;
    single::lemma_whole_exact(a);
    single::lemma_whole_exact(b);
    single::lemma_whole_exact(a + b);
    single::lemma_whole_exact(a - b);
    single::lemma_whole_exact(a * b);
    single::lemma_sum_exact(a, b);
    single::lemma_sum_exact(a, -b);
    assert(-(b * u) == -b * u) by (nonlinear_arith);
    assert((a * u) * (b * u) == u * ((a * b) * u)) by (nonlinear_arith);
    assert(pow2(24) == 0x100_0000);
    single::lemma_nearest_exact((a * u) * (b * u), u, a * b, 149);
    if b > 0 {
        assert(((a * b) * u) * u == (b * u) * (a * u)) by (nonlinear_arith);
        assert(b * u > 0) by (nonlinear_arith)
            requires
                b > 0,
                u > 0,
        ;
        single::lemma_nearest_exact(((a * b) * u) * u, b * u, a, 149);
    } else if b < 0 {
        assert(-((a * b) * u) * u == -(b * u) * (a * u)) by (nonlinear_arith);
        assert(b * u < 0) by (nonlinear_arith)
            requires
                b < 0,
                u > 0,
        ;
        single::lemma_nearest_exact(-((a * b) * u) * u, -(b * u), a, 149);
    }
}

/// Numbers are ordered from minus infinity over the finite ones to infinity. What is not a number
/// compares with nothing.
pub proof fn law_order_of_numbers(x: int, y: int, a: Number, b: Number)
    ensures
        single::less(Number::Finite(x), Number::Finite(y)) <==> x < y,
        single::less(Number::NegInfinity, Number::Finite(x)),
        single::less(Number::Finite(x), Number::Infinity),
        single::less(Number::NegInfinity, Number::Infinity),
        !(single::less(a, b) && single::less(b, a)),
        !single::less(a, a),
        !single::less(a, Number::Nan) && !single::less(Number::Nan, a),
        !single::at_most(a, Number::Nan) && !single::at_most(Number::Nan, a),
        a != Number::Nan && b != Number::Nan ==> (single::at_most(a, b) <==> !single::less(b, a)),
        single::at_most(a, b) && single::at_most(b, a) ==> a == b,
{
}

/// The larger of two numbers is one of them and at least the other. What is not a number gives way
/// to what is.
pub proof fn law_larger_numbers(a: Number, b: Number)
    ensures
        a != Number::Nan && b != Number::Nan ==> single::at_most(a, single::larger(a, b))
            && single::at_most(b, single::larger(a, b)),
        single::larger(a, b) == a || single::larger(a, b) == b,
        single::larger(Number::Nan, b) == b,
        a != Number::Nan ==> single::larger(a, Number::Nan) == a,
{
}

/// A number is held between zero and one, and kept where it is between them.
pub proof fn law_held_numbers(x: int)
    ensures
        0 <= x <= single::unit() ==> single::clamped(Number::Finite(x)) == Number::Finite(x),
        x < 0 ==> single::clamped(Number::Finite(x)) == Number::Finite(0),
        x > single::unit() ==> single::clamped(Number::Finite(x)) == Number::Finite(single::unit()),
        single::clamped(Number::NegInfinity) == Number::Finite(0),
        single::clamped(Number::Infinity) == Number::Finite(single::unit()),
        single::clamped(Number::Nan) == Number::Nan,
{
    lemma_pow2_pos(149);
}

/// Arithmetic with infinities and with what is not a number.
pub proof fn law_infinite_numbers(x: int, a: Number)
    ensures
        single::negated(single::negated(a)) == a,
        single::negated(Number::Infinity) == Number::NegInfinity,
        single::negated(Number::Finite(x)) == Number::Finite(-x),
        single::sum(Number::Infinity, Number::Finite(x)) == Number::Infinity,
        single::sum(Number::Finite(x), Number::NegInfinity) == Number::NegInfinity,
        single::sum(Number::Infinity, Number::NegInfinity) == Number::Nan,
        single::sum(a, Number::Nan) == Number::Nan && single::sum(Number::Nan, a) == Number::Nan,
        single::product(a, Number::Nan) == Number::Nan,
        single::product(Number::Nan, a) == Number::Nan,
        x > 0 ==> single::product(Number::Finite(x), Number::Infinity) == Number::Infinity,
        x < 0 ==> single::product(Number::Infinity, Number::Finite(x)) == Number::NegInfinity,
        single::product(Number::Finite(0), Number::Infinity) == Number::Nan,
        single::product(Number::NegInfinity, Number::NegInfinity) == Number::Infinity,
        single::quotient(a, Number::Nan) == Number::Nan,
        single::quotient(Number::Nan, a) == Number::Nan,
        single::quotient(Number::Finite(x), Number::Infinity) == Number::Finite(0),
        single::quotient(Number::Finite(x), Number::NegInfinity) == Number::Finite(0),
        x > 0 ==> single::quotient(Number::Infinity, Number::Finite(x)) == Number::Infinity,
        x < 0 ==> single::quotient(Number::Infinity, Number::Finite(x)) == Number::NegInfinity,
        single::quotient(Number::Infinity, Number::Infinity) == Number::Nan,
{
}

/// Sums and products do not depend on the order.
pub proof fn law_order_of_operands(a: Number, b: Number)
    ensures
        single::sum(a, b) == single::sum(b, a),
        single::product(a, b) == single::product(b, a),
        single::difference(a, b) == single::sum(a, single::negated(b)),
{
    match (a, b) {
        (Number::Finite(x), Number::Finite(y)) => {
            assert(x * y == y * x) by (nonlinear_arith);
        },
        _ => {
            let x = single::sign_of(a);
            let y = single::sign_of(b);
            assert(x * y == y * x) by (nonlinear_arith);
        },
    }
}

/// A number is cut to the whole number at or below it, to the one at or above it, or to the nearest
/// one, a half going up. The results are kept between zero and a largest one.
pub proof fn law_cut_numbers(x: int, top: int)
    requires
        top >= 0,
    ensures
        ({
            let u = single::unit();
            let down = single::truncated(Number::Finite(x), top);
            let up = single::ceiling(Number::Finite(x), top);
            let near = single::rounded(Number::Finite(x), top);
            &&& 0 <= down <= top && 0 <= up <= top && 0 <= near <= top
            &&& x <= 0 ==> down == 0 && up == 0 && near == 0
            &&& 0 < x <= top * u ==> down * u <= x < down * u + u
            &&& 0 < x <= top * u ==> up * u - u < x <= up * u
            &&& 0 < x <= top * u ==> 2 * (near * u) - u <= 2 * x < 2 * (near * u) + u
            &&& x > top * u ==> down == top && up == top && near == top
        }),
        single::truncated(Number::Infinity, top) == top,
        single::ceiling(Number::Infinity, top) == top,
        single::rounded(Number::Infinity, top) == top,
        single::truncated(Number::NegInfinity, top) == 0,
        single::ceiling(Number::NegInfinity, top) == 0,
        single::rounded(Number::NegInfinity, top) == 0,
        single::truncated(Number::Nan, top) == 0,
        single::ceiling(Number::Nan, top) == 0,
        single::rounded(Number::Nan, top) == 0,
{
    let u = single::unit();
    lemma_pow2_pos(149);
    if x > 0 {
        lemma_quotient(x, u, top);
        lemma_quotient(x + u - 1, u, top);
        lemma_quotient(2 * x + u, 2 * u, top);
        let near = (2 * x + u) / (2 * u);
        assert(near * (2 * u) == 2 * (near * u)) by (nonlinear_arith);
        assert((2 * u) * near == 2 * (near * u)) by (nonlinear_arith);
        assert(top * (2 * u) == 2 * (top * u)) by (nonlinear_arith);
    }
}

proof fn lemma_quotient(n: int, d: int, top: int)
    requires
        n >= 0,
        d > 0,
        top >= 0,
    ensures
        n / d >= 0,
        (n / d) * d <= n < (n / d) * d + d,
        n < top * d + d ==> n / d <= top,
        n >= top * d ==> n / d >= top,
{
    lemma_fundamental_div_mod(n, d);
    lemma_mod_bound(n, d);
    let q = n / d;
    assert(d * q == q * d) by (nonlinear_arith);
    assert(q >= 0) by (nonlinear_arith)
        requires
            q * d + n % d == n,
            n % d < d,
            n >= 0,
            d > 0,
    ;
    if n < top * d + d {
        assert(q <= top) by (nonlinear_arith)
            requires
                q * d <= n,
                n < top * d + d,
                d > 0,
        ;
    }
    if n >= top * d {
        assert(q >= top) by (nonlinear_arith)
            requires
                n < q * d + d,
                n >= top * d,
                d > 0,
        ;
    }
}

/// An encoding and the same one with the sign bit stand for a number and its negative. The largest
/// exponent stands for what is infinite or no number.
pub proof fn law_signs_of_encodings(bits: int)
    requires
        0 <= bits < 0x8000_0000,
    ensures
        single::decoded(bits + 0x8000_0000) == single::negated(single::decoded(bits)),
        bits == 0x7f80_0000 ==> single::decoded(bits) == Number::Infinity,
        bits > 0x7f80_0000 ==> single::decoded(bits) == Number::Nan,
        bits < 0x7f80_0000 ==> single::decoded(bits) is Finite,
        bits == 0 ==> single::decoded(bits) == Number::Finite(0),
        bits == 0x3f80_0000 ==> single::decoded(bits) == Number::Finite(single::unit()),
{
    single::lemma_one();
    assert((bits + 0x8000_0000) / 0x80_0000 == bits / 0x80_0000 + 0x100);
    assert((bits + 0x8000_0000) % 0x80_0000 == bits % 0x80_0000);
    let e = bits / 0x80_0000;
    assert((e + 0x100) % 0x100 == e % 0x100);
    if bits == 0 {
        assert(single::significand(0) == 0);
        assert(0 * pow2(0) == 0) by (nonlinear_arith);
    }
}

/// The next encoding with the same exponent stands for a number that is larger by the spacing of
/// that exponent, and one more in the exponent doubles a number.
pub proof fn law_steps_of_encodings(bits: int)
    requires
        0x80_0000 <= bits < 0x7f00_0000,
    ensures
        single::decoded(bits + 0x80_0000) is Finite,
        single::decoded(bits + 0x80_0000)->0 == 2 * single::decoded(bits)->0,
        bits % 0x80_0000 + 1 < 0x80_0000 ==> single::decoded(bits + 1)->0 == single::decoded(
            bits,
        )->0 + pow2((bits / 0x80_0000 - 1) as nat),
{
    let e = bits / 0x80_0000;
    assert((bits + 0x80_0000) / 0x80_0000 == e + 1);
    assert((bits + 0x80_0000) % 0x80_0000 == bits % 0x80_0000);
    assert(1 <= e < 254);
    let s = bits % 0x80_0000 + 0x80_0000;
    let p = pow2((e - 1) as nat);
    lemma_pow2_adds((e - 1) as nat, 1);
    lemma2_to64();
    assert(pow2(e as nat) == p * 2);
    assert(s * (p * 2) == 2 * (s * p)) by (nonlinear_arith);
    if bits % 0x80_0000 + 1 < 0x80_0000 {
        assert((bits + 1) / 0x80_0000 == e);
        assert((bits + 1) % 0x80_0000 == bits % 0x80_0000 + 1);
        assert((s + 1) * p == s * p + p) by (nonlinear_arith);
    }
}

proof fn lemma_powers() -> (p: int)
    ensures
        p == pow2(125),
        p > 0,
        single::unit() == 0x100_0000 * p,
        pow2(126) == 2 * p,
        pow2(133) == 256 * p,
        pow2(134) == 512 * p,
        pow2(150) == 2 * single::unit(),
        pow2(157) == 256 * single::unit(),
        pow2(158) == 512 * single::unit(),
{
    lemma2_to64();
    lemma_pow2_pos(125);
    lemma_pow2_adds(24, 125);
    lemma_pow2_adds(1, 125);
    lemma_pow2_adds(8, 125);
    lemma_pow2_adds(9, 125);
    lemma_pow2_adds(1, 149);
    lemma_pow2_adds(8, 149);
    lemma_pow2_adds(9, 149);
    pow2(125) as int
}

/// A colour a part of the way from one to another is, in each channel, that part of the way
/// between the two, to the nearest whole number.
pub proof fn law_mixes_are_even(a: u8, b: u8, x: int)
    requires
        0 <= x <= single::unit(),
    ensures
        ({
            let u = single::unit();
            let r = theme::mixed_channel(a, b, Number::Finite(x));
            let off = r * u - (a * u + (b - a) * x);
            -u - pow2(135) <= 2 * off <= u + pow2(135)
        }),
{
    let u = single::unit();
    let p = lemma_powers();
    lemma_pow2_adds(10, 125);
    lemma2_to64();
    assert(pow2(135) == 1024 * p);
    let from = a as int;
    let by = b as int - a as int;
    single::lemma_whole_exact(from);
    single::lemma_whole_exact(b as int);
    assert(-(from * u) == -from * u) by (nonlinear_arith);
    single::lemma_sum_exact(b as int, -from);
    let way = single::difference(single::whole(b as int), single::whole(from));
    assert(way == Number::Finite(by * u));
    let v = by * x;
    assert(-(255 * u) <= v <= 255 * u) by (nonlinear_arith)
        requires
            v == by * x,
            -255 <= by <= 255,
            0 <= x <= u,
    ;
    assert((by * u) * x == u * v) by (nonlinear_arith)
        requires
            v == by * x,
    ;
    assert(-(u * pow2(157)) < u * v < u * pow2(157)) by (nonlinear_arith)
        requires
            -(255 * u) <= v <= 255 * u,
            pow2(157) == 256 * u,
            u > 0,
    ;
    law_rounding_is_close(u * v, u, 133);
    let w = single::product(way, Number::Finite(x))->0;
    assert(-pow2(133) <= 2 * (w - v) <= pow2(133)) by (nonlinear_arith)
        requires
            -(u * pow2(133)) <= 2 * (u * w - u * v) <= u * pow2(133),
            u > 0,
    ;
    lemma_channel(from);
    let t = from * u + w;
    law_rounding_is_close(t, 1, 134);
    let s = single::sum(single::whole(from), Number::Finite(w))->0;
    assert(-pow2(134) <= 2 * (s - t) <= pow2(134));
    let exact = from * u + v;
    assert(0 <= exact <= 255 * u) by (nonlinear_arith)
        requires
            exact == from * u + by * x,
            0 <= from <= 255,
            0 <= from + by <= 255,
            0 <= x <= u,
    ;
    law_cut_numbers(s, 255);
    let r = single::rounded(Number::Finite(s), 255);
    assert(r == theme::mixed_channel(a, b, Number::Finite(x)));
    assert(from * u == a * u);
}

/// The brightness of a colour is 299 thousandths of its red, 587 of its green and 114 of its blue,
/// as a part of the brightest.
pub proof fn law_brightness(rgb: Rgb)
    ensures
        ({
            let u = single::unit();
            let y = theme::brightness(rgb);
            let exact = 299 * rgb.0 + 587 * rgb.1 + 114 * rgb.2;
            &&& y is Finite
            &&& 0 <= y->0 <= u
            &&& -u <= 255000 * y->0 - exact * u <= u
        }),
{
    let u = single::unit();
    let p = lemma_powers();
    let r = rgb.0 as int;
    let g = rgb.1 as int;
    let b = rgb.2 as int;
    let pr = lemma_weighted(r, 299);
    let pg = lemma_weighted(g, 587);
    let pb = lemma_weighted(b, 114);
    let ar = 299 * (r * u);
    let ag = 587 * (g * u);
    let ab = 114 * (b * u);
    lemma_channel(r);
    lemma_channel(g);
    lemma_channel(b);
    law_rounding_is_close(pr + pg, 1, 134);
    let s = single::nearest(pr + pg, 1)->0;
    law_rounding_is_close(s + pb, 1, 134);
    let t = single::nearest(s + pb, 1)->0;
    single::lemma_whole_exact(255);
    let d = 255 * u;
    assert(-(d * pow2(150)) < t * u < d * pow2(150)) by (nonlinear_arith)
        requires
            -u <= t <= 256 * u,
            pow2(150) == 2 * u,
            d == 255 * u,
            u > 0,
    ;
    law_rounding_is_close(t * u, d, 126);
    let q = single::nearest(t * u, d)->0;
    assert(-(255 * pow2(126)) <= 2 * (255 * q - t) <= 255 * pow2(126)) by (nonlinear_arith)
        requires
            -(d * pow2(126)) <= 2 * (d * q - t * u) <= d * pow2(126),
            d == 255 * u,
            u > 0,
    ;
    let exact = 299 * r + 587 * g + 114 * b;
    assert(exact * u == ar + ag + ab) by (nonlinear_arith)
        requires
            exact == 299 * r + 587 * g + 114 * b,
            ar == 299 * (r * u),
            ag == 587 * (g * u),
            ab == 114 * (b * u),
    ;
    assert(0 <= exact * u <= 255000 * u) by (nonlinear_arith)
        requires
            0 <= exact <= 255000,
            u > 0,
    ;
}

proof fn lemma_channel(c: int)
    requires
        0 <= c <= 255,
    ensures
        0 <= c * single::unit() <= 255 * single::unit(),
{
    lemma_pow2_pos(149);
    assert(0 <= c * single::unit() <= 255 * single::unit()) by (nonlinear_arith)
        requires
            0 <= c <= 255,
            single::unit() > 0,
    ;
}

proof fn lemma_weighted(c: int, w: int) -> (y: int)
    requires
        0 <= c <= 255,
        0 <= w <= 1000,
    ensures
        single::product(single::whole(c), single::fraction(w, 1000)) == Number::Finite(y),
        -(383000 * pow2(125)) <= 1000 * y - w * (c * single::unit()) <= 383000 * pow2(125),
{
    let u = single::unit();
    let p = lemma_powers();
    single::lemma_whole_exact(c);
    assert(0 <= w * u <= 1000 * u) by (nonlinear_arith)
        requires
            0 <= w <= 1000,
            u > 0,
    ;
    law_rounding_is_close(w * u, 1000, 126);
    let f = single::fraction(w, 1000)->0;
    assert(-p <= f <= u + p);
    let v = c * f;
    assert((c * u) * f == u * v) by (nonlinear_arith)
        requires
            v == c * f,
    ;
    assert(-(255 * p) <= v <= 255 * (u + p)) by (nonlinear_arith)
        requires
            v == c * f,
            0 <= c <= 255,
            -p <= f <= u + p,
            p > 0,
            u > 0,
    ;
    assert(-(u * pow2(157)) < u * v < u * pow2(157)) by (nonlinear_arith)
        requires
            -(255 * p) <= v <= 255 * (u + p),
            pow2(157) == 256 * u,
            u == 0x100_0000 * p,
            p > 0,
    ;
    law_rounding_is_close(u * v, u, 133);
    let y = single::nearest(u * v, u)->0;
    assert(-pow2(133) <= 2 * (y - v) <= pow2(133)) by (nonlinear_arith)
        requires
            -(u * pow2(133)) <= 2 * (u * y - u * v) <= u * pow2(133),
            u > 0,
    ;
    assert(-(255 * (1000 * p)) <= 1000 * v - w * (c * u) <= 255 * (1000 * p)) by (nonlinear_arith)
        requires
            v == c * f,
            -(1000 * p) <= 1000 * f - w * u <= 1000 * p,
            0 <= c <= 255,
            p > 0,
    ;
    y
}

/// Noise is from zero up to one, and a whole number of ten-thousandths.
pub proof fn law_noise(a: u64, b: u64)
    ensures
        ({
            let u = single::unit();
            let n = noise::noise(a, b);
            let m = (noise::scrambled(a, b) % 10_000) as int;
            &&& n is Finite
            &&& 0 <= n->0 < u
            &&& -(10_000 * pow2(126)) <= 2 * (10_000 * n->0 - m * u) <= 10_000 * pow2(126)
        }),
{
    let u = single::unit();
    let p = lemma_powers();
    let m = (noise::scrambled(a, b) % 10_000) as int;
    single::lemma_whole_exact(m);
    single::lemma_whole_exact(10_000);
    let d = 10_000 * u;
    let num = (m * u) * u;
    assert(0 <= num <= 9_999 * (u * u)) by (nonlinear_arith)
        requires
            num == (m * u) * u,
            0 <= m <= 9_999,
            u > 0,
    ;
    assert(num < d * pow2(150)) by (nonlinear_arith)
        requires
            num <= 9_999 * (u * u),
            d == 10_000 * u,
            pow2(150) == 2 * u,
            u > 0,
    ;
    assert(d > 0 && d * pow2(150) > 0) by (nonlinear_arith)
        requires
            d == 10_000 * u,
            pow2(150) == 2 * u,
            u > 0,
    ;
    law_rounding_is_close(num, d, 126);
    let n = single::nearest(num, d)->0;
    assert(-(10_000 * pow2(126)) <= 2 * (10_000 * n - m * u) <= 10_000 * pow2(126)) by (
    nonlinear_arith)
        requires
            -(d * pow2(126)) <= 2 * (d * n - num) <= d * pow2(126),
            d == 10_000 * u,
            num == (m * u) * u,
            u > 0,
    ;
    assert(m * u <= 9_999 * u) by (nonlinear_arith)
        requires
            m <= 9_999,
            u > 0,
    ;
    lemma2_to64();
    assert(pow2(24) == 0x100_0000);
    assert(num <= d * (1 * u)) by (nonlinear_arith)
        requires
            num <= 9_999 * (u * u),
            d == 10_000 * u,
            u > 0,
    ;
    single::lemma_nearest_at_most(num, d, 1, 149);
}

/// The stops of a gradient whose colours can be read are used, in their order, and others are
/// passed over.
pub proof fn law_readable_stops(stops: Seq<Stop>, stop: Stop)
    ensures
        theme::readable(Seq::empty()).len() == 0,
        theme::hex_color(stop.color) is None ==> theme::readable(stops.push(stop))
            == theme::readable(stops),
        theme::hex_color(stop.color) is Some ==> theme::readable(stops.push(stop))
            == theme::readable(stops).push((stop.at, theme::hex_color(stop.color)->0)),
{
    assert(stops.push(stop).drop_last() =~= stops);
}

proof fn lemma_color_from(items: Seq<(Number, Rgb)>, t: Number, from: int, i: int)
    requires
        1 <= from <= i < items.len(),
        single::at_most(t, items[i].0),
        forall|j: int| from <= j < i ==> !single::at_most(t, #[trigger] items[j].0),
    ensures
        theme::color_from(items, t, from) == theme::mixed(
            items[i - 1].1,
            items[i].1,
            theme::progress_between(items[i - 1].0, items[i].0, t),
        ),
    decreases i - from,
{
    if from < i {
        assert(!single::at_most(t, items[from].0));
        lemma_color_from(items, t, from + 1, i);
    }
}

proof fn lemma_color_after(items: Seq<(Number, Rgb)>, t: Number, from: int)
    requires
        1 <= from <= items.len(),
        forall|j: int| from <= j < items.len() ==> !single::at_most(t, #[trigger] items[j].0),
    ensures
        theme::color_from(items, t, from) == items.last().1,
    decreases items.len() - from,
{
    if from < items.len() {
        assert(!single::at_most(t, items[from].0));
        lemma_color_after(items, t, from + 1);
    }
}

/// A gradient has the colour of its first stop up to that stop, that of its last stop behind that
/// stop, and in between a mix of the colours of the stops on both sides. Without stops that can be
/// read it has none.
pub proof fn law_gradients(stops: Seq<Stop>, t: Number, i: int)
    ensures
        ({
            let items = theme::in_order(theme::readable(stops));
            let r = theme::gradient_color(stops, t);
            &&& items.len() == 0 <==> r is None
            &&& items.len() > 0 && single::at_most(t, items[0].0) ==> r == Some(items[0].1)
            &&& items.len() > 0 && (forall|j: int|
                0 <= j < items.len() ==> !single::at_most(t, #[trigger] items[j].0)) ==> r == Some(
                items.last().1,
            )
            &&& 1 <= i < items.len() && single::at_most(t, items[i].0) && (forall|j: int|
                0 <= j < i ==> !single::at_most(t, #[trigger] items[j].0)) ==> r == Some(
                theme::mixed(
                    items[i - 1].1,
                    items[i].1,
                    theme::progress_between(items[i - 1].0, items[i].0, t),
                ),
            )
        }),
{
    let items = theme::in_order(theme::readable(stops));
    if items.len() > 0 && (forall|j: int|
        0 <= j < items.len() ==> !single::at_most(t, #[trigger] items[j].0)) {
        assert(!single::at_most(t, items[0].0));
        lemma_color_after(items, t, 1);
    }
    if 1 <= i < items.len() && single::at_most(t, items[i].0) && (forall|j: int|
        0 <= j < i ==> !single::at_most(t, #[trigger] items[j].0)) {
        assert(!single::at_most(t, items[0].0));
        lemma_color_from(items, t, 1, i);
    }
}

/// The part of the way between two stops that are not too close to each other is nothing at the
/// one, all of it at the other, and in between the part that lies behind.
pub proof fn law_parts_of_the_way(from: int, to: int, t: int)
    requires
        0 <= from <= t <= to <= single::unit(),
        1000 * (to - from) >= single::unit(),
    ensures
        ({
            let u = single::unit();
            let y = theme::progress_between(
                Number::Finite(from),
                Number::Finite(to),
                Number::Finite(t),
            );
            &&& y is Finite
            &&& 0 <= y->0 <= u
            &&& -(4 * (u * pow2(125))) <= y->0 * (to - from) - (t - from) * u <= 4 * (u * pow2(125))
        }),
{
    let u = single::unit();
    let p = lemma_powers();
    law_rounding_is_close(t - from, 1, 126);
    law_rounding_is_close(to - from, 1, 126);
    let a = single::nearest(t - from, 1)->0;
    let d = single::nearest(to - from, 1)->0;
    assert(-p <= a - (t - from) <= p);
    assert(-p <= d - (to - from) <= p);
    law_rounding_is_close(1 * u, 10000, 126);
    let least = single::fraction(1, 10000)->0;
    assert(d > least);
    assert(d > 0);
    let width = to - from;
    let done = t - from;
    assert(-(d * pow2(150)) < a * u < d * pow2(150)) by (nonlinear_arith)
        requires
            -p <= a - done <= p,
            -p <= d - width <= p,
            0 <= done <= width,
            d > 1000 * p,
            pow2(150) == 2 * u,
            u > 0,
            p > 0,
    ;
    law_rounding_is_close(a * u, d, 126);
    let q = single::nearest(a * u, d)->0;
    let y = if q < 0 {
        0
    } else if q > u {
        u
    } else {
        q
    };
    assert(-(d * p) <= d * q - a * u <= d * p) by (nonlinear_arith)
        requires
            -(d * pow2(126)) <= 2 * (d * q - a * u) <= d * pow2(126),
            pow2(126) == 2 * p,
    ;
    lemma_part(u, p, a, d, q, y, done, width);
}

proof fn lemma_part(u: int, p: int, a: int, d: int, q: int, y: int, done: int, width: int)
    requires
        p > 0,
        u == 0x100_0000 * p,
        -p <= a - done <= p,
        -p <= d - width <= p,
        0 <= done <= width <= u,
        d > 1000 * p,
        -(d * p) <= d * q - a * u <= d * p,
        q < 0 ==> y == 0,
        q > u ==> y == u,
        0 <= q <= u ==> y == q,
    ensures
        -(4 * (u * p)) <= y * width - done * u <= 4 * (u * p),
{
    let e = d * q - done * u;
    assert(a * u - done * u == (a - done) * u) by (nonlinear_arith);
    assert(-(p * u) <= (a - done) * u <= p * u) by (nonlinear_arith)
        requires
            -p <= a - done <= p,
            u > 0,
    ;
    assert(p * u == u * p) by (nonlinear_arith);
    assert(d * p <= u * p + p * p) by (nonlinear_arith)
        requires
            d <= u + p,
            p > 0,
    ;
    assert(p * p <= u * p) by (nonlinear_arith)
        requires
            p <= u,
            p > 0,
    ;
    assert(0x100_0000 * (p * p) == u * p) by (nonlinear_arith)
        requires
            u == 0x100_0000 * p,
    ;
    assert(-(2 * (u * p) + p * p) <= e <= 2 * (u * p) + p * p);
    assert(d * q - width * q == (d - width) * q) by (nonlinear_arith);
    assert(y * width == width * y) by (nonlinear_arith);
    if 0 <= q <= u {
        assert(-(p * u) <= (d - width) * q <= p * u) by (nonlinear_arith)
            requires
                -p <= d - width <= p,
                0 <= q <= u,
                p > 0,
        ;
    } else if q < 0 {
        assert(d * q < 0) by (nonlinear_arith)
            requires
                d > 0,
                q < 0,
        ;
        assert(done * u >= 0) by (nonlinear_arith)
            requires
                done >= 0,
                u > 0,
        ;
        assert(y * width == 0) by (nonlinear_arith)
            requires
                y == 0,
        ;
    } else {
        assert(d * q > d * u) by (nonlinear_arith)
            requires
                d > 0,
                q > u,
        ;
        assert(d * u - width * u == (d - width) * u) by (nonlinear_arith);
        assert(-(p * u) <= (d - width) * u <= p * u) by (nonlinear_arith)
            requires
                -p <= d - width <= p,
                u > 0,
        ;
        assert(done * u <= width * u) by (nonlinear_arith)
            requires
                done <= width,
                u > 0,
        ;
        assert(width * y == width * u);
    }
}

/// A mix is made channel by channel.
pub proof fn law_mixes_by_channel(a: Rgb, b: Rgb, k: Number)
    ensures
        theme::mixed(a, b, k).0 == theme::mixed_channel(a.0, b.0, k),
        theme::mixed(a, b, k).1 == theme::mixed_channel(a.1, b.1, k),
        theme::mixed(a, b, k).2 == theme::mixed_channel(a.2, b.2, k),
{
}

/// Two numbers are scrambled by multiplying them, taking either where they differ, and mixing the
/// upper digits of the result into the lower ones three times.
pub proof fn law_scrambled_numbers(a: u64, b: u64, x: u64, y: u64, z: u64)
    requires
        x == a.wrapping_mul(0x9e37_79b9_7f4a_7c15) ^ b.wrapping_mul(0xbf58_476d_1ce4_e5b9),
        y == (x ^ (x >> 30)).wrapping_mul(0xbf58_476d_1ce4_e5b9),
        z == (y ^ (y >> 27)).wrapping_mul(0x94d0_49bb_1331_11eb),
    ensures
        noise::scrambled(a, b) == z ^ (z >> 31),
{
}

} // verus!
