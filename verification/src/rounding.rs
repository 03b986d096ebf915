//! Facts about rounding to the nearest single, used by the arithmetic of `single`.
use crate::single;
use vstd::arithmetic::div_mod::*;
use vstd::arithmetic::mul::*;
use vstd::arithmetic::power2::*;
use vstd::prelude::*;

verus! {

/// Scaling both terms of a fraction leaves its nearest integer as it is.
pub proof fn lemma_half_even_scaled(num: int, den: int, c: int)
    requires
        den > 0,
        c > 0,
    ensures
        single::half_even(num * c, den * c) == single::half_even(num, den),
{
    let q = num / den;
    let r = num % den;
    lemma_fundamental_div_mod(num, den);
    assert(num * c == q * (den * c) + r * c) by (nonlinear_arith)
        requires
            num == den * q + r,
    ;
    assert(0 <= r * c < den * c) by (nonlinear_arith)
        requires
            0 <= r < den,
            c > 0,
    ;
    lemma_fundamental_div_mod_converse(num * c, den * c, q, r * c);
    assert(2 * (r * c) == (2 * r) * c) by (nonlinear_arith);
    assert((2 * r) * c < den * c <==> 2 * r < den) by (nonlinear_arith)
        requires
            c > 0,
    ;
    assert((2 * r) * c > den * c <==> 2 * r > den) by (nonlinear_arith)
        requires
            c > 0,
    ;
}

/// Powers of two grow with their exponent.
pub proof fn lemma_pow2_monotone(a: nat, b: nat)
    requires
        a <= b,
    ensures
        0 < pow2(a) <= pow2(b),
{
    lemma_pow2_pos(a);
    if a < b {
        lemma_pow2_strictly_increases(a, b);
    }
}

/// The spacing of singles around a fraction is unique.
pub proof fn lemma_spacing(num: int, den: int, k: nat)
    requires
        den > 0,
        single::is_spacing(num, den, k),
    ensures
        single::spacing(num, den) == k,
{
    let j = single::spacing(num, den);
    assert(single::is_spacing(num, den, j));
    if j < k {
        lemma_pow2_monotone(24 + j, (23 + k) as nat);
        assert(den * pow2(24 + j) <= den * pow2((23 + k) as nat)) by (nonlinear_arith)
            requires
                den > 0,
                pow2(24 + j) <= pow2((23 + k) as nat),
        ;
    } else if k < j {
        lemma_pow2_monotone(24 + k, (23 + j) as nat);
        assert(den * pow2(24 + k) <= den * pow2((23 + j) as nat)) by (nonlinear_arith)
            requires
                den > 0,
                pow2(24 + k) <= pow2((23 + j) as nat),
        ;
    }
}

/// `m / d` to the nearest integer, where `inexact` says that a little more than `m` is meant.
pub open spec fn shifted(m: int, d: int, inexact: bool) -> int {
    let q = m / d;
    let r = m % d;
    if 2 * r > d || (2 * r == d && (inexact || q % 2 == 1)) {
        q + 1
    } else {
        q
    }
}

/// Rounding `n / (b * d)` needs only the whole part of `n / b`, and whether it is exact.
pub proof fn lemma_shifted(n: int, b: int, m: int, d: int, h: int)
    requires
        b > 0,
        h > 0,
        d == 2 * h,
        m >= 0,
        b * m <= n < b * (m + 1),
    ensures
        single::half_even(n, b * d) == shifted(m, d, n != b * m),
{
    let q = m / d;
    let r = m % d;
    let t = n - b * m;
    lemma_fundamental_div_mod(m, d);
    assert(b * (m + 1) == b * m + b) by (nonlinear_arith);
    assert(n == q * (b * d) + (b * r + t)) by (nonlinear_arith)
        requires
            m == d * q + r,
            n == b * m + t,
    ;
    assert(0 <= b * r) by (nonlinear_arith)
        requires
            b > 0,
            0 <= r,
    ;
    assert(b * r + t < b * d) by (nonlinear_arith)
        requires
            b > 0,
            r + 1 <= d,
            t < b,
    ;
    lemma_fundamental_div_mod_converse(n, b * d, q, b * r + t);
    let rest = b * r + t;
    assert(b * d == 2 * (b * h)) by (nonlinear_arith)
        requires
            d == 2 * h,
    ;
    if r > h {
        assert(b * r >= b * h + b) by (nonlinear_arith)
            requires
                r >= h + 1,
                b > 0,
        ;
    } else if r == h {
        assert(b * r == b * h);
    } else {
        assert(b * r + b <= b * h) by (nonlinear_arith)
            requires
                r + 1 <= h,
                b > 0,
        ;
    }
}

/// `m` units of two to the power of `e - 512` are the whole part of `num / den`; `inexact`
/// says whether something is left over.
pub open spec fn approximates(num: int, den: int, m: int, e: nat, inexact: bool) -> bool {
    let b = den * pow2(e);
    let n = num * pow2(512);
    &&& b * m <= n < b * (m + 1)
    &&& inexact <==> n != b * m
}

/// Rounding to a coarser spacing than that of the approximation.
pub proof fn lemma_round_coarser(num: int, den: int, m: int, e: nat, inexact: bool, k: nat, s: nat)
    requires
        den > 0,
        m >= 0,
        approximates(num, den, m, e, inexact),
        s >= 1,
        k + 512 == e + s,
    ensures
        single::half_even(num, den * pow2(k)) == shifted(m, pow2(s) as int, inexact),
{
    let p = pow2(512) as int;
    let b = den * pow2(e);
    lemma_pow2_pos(512);
    lemma_pow2_pos(k);
    lemma_pow2_pos(e);
    assert(den * pow2(k) > 0) by (nonlinear_arith)
        requires
            den > 0,
            pow2(k) > 0,
    ;
    lemma_half_even_scaled(num, den * pow2(k), p);
    lemma_pow2_adds(k, 512);
    lemma_pow2_adds(e, s);
    assert((den * pow2(k)) * p == b * pow2(s)) by (nonlinear_arith)
        requires
            pow2(k) * p == pow2(e) * pow2(s),
            b == den * pow2(e),
    ;
    assert(b > 0) by (nonlinear_arith)
        requires
            den > 0,
            pow2(e) > 0,
            b == den * pow2(e),
    ;
    lemma_pow2_adds((s - 1) as nat, 1);
    lemma_pow2_pos((s - 1) as nat);
    lemma2_to64();
    lemma_shifted(num * p, b, m, pow2(s) as int, pow2((s - 1) as nat) as int);
}

/// Rounding an exact approximation to a spacing that is no coarser.
pub proof fn lemma_round_finer(num: int, den: int, m: int, e: nat, k: nat, s: nat)
    requires
        den > 0,
        m >= 0,
        approximates(num, den, m, e, false),
        k + 512 + s == e,
    ensures
        single::half_even(num, den * pow2(k)) == m * pow2(s),
{
    let p = pow2(512) as int;
    lemma_pow2_pos(512);
    lemma_pow2_pos(k);
    lemma_pow2_adds(k, 512);
    lemma_pow2_adds(k + 512, s);
    assert(num == (m * pow2(s)) * (den * pow2(k))) by (nonlinear_arith)
        requires
            num * p == (den * pow2(e)) * m,
            pow2(e) == (pow2(k) * p) * pow2(s),
            p > 0,
    {
        assert((den * ((pow2(k) * p) * pow2(s))) * m == ((m * pow2(s)) * (den * pow2(k))) * p);
    }
    assert(den * pow2(k) > 0) by (nonlinear_arith)
        requires
            den > 0,
            pow2(k) > 0,
    ;
    lemma_fundamental_div_mod_converse(num, den * pow2(k), m * pow2(s), 0);
}

/// The spacing that fits a number of `l` binary digits.
pub proof fn lemma_spacing_of(num: int, den: int, m: int, e: nat, inexact: bool, l: nat, k: nat)
    requires
        den > 0,
        l >= 1,
        pow2((l - 1) as nat) <= m < pow2(l),
        approximates(num, den, m, e, inexact),
        l + e <= 24 + k + 512,
        k > 0 ==> l + e == 24 + k + 512,
    ensures
        single::spacing(num, den) == k,
{
    let p = pow2(512) as int;
    lemma_pow2_pos(512);
    lemma_pow2_adds(e, l);
    lemma_pow2_adds(24 + k, 512);
    lemma_pow2_monotone(l + e, 24 + k + 512);
    assert(num < den * pow2(24 + k)) by (nonlinear_arith)
        requires
            num * p < (den * pow2(e)) * (m + 1),
            m + 1 <= pow2(l),
            pow2(e) * pow2(l) <= pow2(24 + k) * p,
            den > 0,
            p > 0,
            pow2(e) > 0,
    {
        assert((den * pow2(e)) * (m + 1) <= (den * pow2(e)) * pow2(l));
        assert((den * pow2(e)) * pow2(l) == den * (pow2(e) * pow2(l)));
        assert(den * (pow2(e) * pow2(l)) <= den * (pow2(24 + k) * p));
        assert(den * (pow2(24 + k) * p) == (den * pow2(24 + k)) * p);
    }
    if k > 0 {
        lemma_pow2_adds(e, (l - 1) as nat);
        lemma_pow2_adds((23 + k) as nat, 512);
        lemma_pow2_pos(e);
        assert(num >= den * pow2((23 + k) as nat)) by (nonlinear_arith)
            requires
                num * p >= (den * pow2(e)) * m,
                m >= pow2((l - 1) as nat),
                pow2(e) * pow2((l - 1) as nat) == pow2((23 + k) as nat) * p,
                den > 0,
                p > 0,
                pow2(e) > 0,
        {
            assert((den * pow2(e)) * m >= (den * pow2(e)) * pow2((l - 1) as nat));
            assert((den * pow2(e)) * pow2((l - 1) as nat) == den * (pow2(e) * pow2((l - 1) as nat)));
            assert(den * (pow2((23 + k) as nat) * p) == (den * pow2((23 + k) as nat)) * p);
        }
    }
    lemma_spacing(num, den, k);
}

proof fn lemma_spacing_found(num: int, den: int, k: nat)
    requires
        den > 0,
        num < den * pow2(24 + k),
    ensures
        exists|j: nat| single::is_spacing(num, den, j),
    decreases k,
{
    if k == 0 || num >= den * pow2((23 + k) as nat) {
        assert(single::is_spacing(num, den, k));
    } else {
        lemma_spacing_found(num, den, (k - 1) as nat);
    }
}

proof fn lemma_power_exceeds(n: nat)
    ensures
        n < pow2(n),
    decreases n,
{
    lemma2_to64();
    if n > 0 {
        lemma_power_exceeds((n - 1) as nat);
        lemma_pow2_unfold(n);
    }
}

/// Singles have a spacing around every fraction.
pub proof fn lemma_has_spacing(num: int, den: int)
    requires
        num >= 0,
        den > 0,
    ensures
        single::is_spacing(num, den, single::spacing(num, den)),
{
    lemma_power_exceeds(num as nat);
    lemma_pow2_monotone(num as nat, 24 + num as nat);
    assert(num < den * pow2(24 + num as nat)) by (nonlinear_arith)
        requires
            num < pow2(24 + num as nat),
            den >= 1,
            num >= 0,
    ;
    lemma_spacing_found(num, den, num as nat);
}

/// A fraction of at least one unit rounds to at least one unit.
pub proof fn lemma_rounds_up_to_unit(num: int, den: int)
    requires
        den > 0,
        num >= den,
    ensures
        single::nearest_magnitude(num, den) >= 1,
{
    lemma_has_spacing(num, den);
    let k = single::spacing(num, den);
    lemma2_to64();
    lemma_pow2_pos(k);
    lemma_pow2_monotone(k, (23 + k) as nat);
    let d = den * pow2(k);
    assert(num >= d) by (nonlinear_arith)
        requires
            num >= den,
            k > 0 ==> num >= den * pow2((23 + k) as nat),
            k == 0 ==> pow2(k) == 1,
            pow2((23 + k) as nat) >= pow2(k),
            den > 0,
            d == den * pow2(k),
    ;
    assert(d > 0) by (nonlinear_arith)
        requires
            den > 0,
            pow2(k) > 0,
            d == den * pow2(k),
    ;
    lemma_div_is_ordered(d, num, d);
    lemma_div_by_self(d);
    let h = single::half_even(num, d);
    assert(h >= 1);
    assert(h * pow2(k) >= 1) by (nonlinear_arith)
        requires
            h >= 1,
            pow2(k) >= 1,
    ;
}

/// Around a fraction that is at most a short number, singles are spaced no wider than the last
/// digit of that number.
proof fn lemma_spacing_at_most(num: int, den: int, m: int, e: nat)
    requires
        den > 0,
        0 <= num <= den * (m * pow2(e)),
        0 <= m < pow2(24),
    ensures
        single::is_spacing(num, den, single::spacing(num, den)),
        single::spacing(num, den) <= e,
{
    lemma_has_spacing(num, den);
    let k = single::spacing(num, den);
    if k > e {
        lemma_pow2_monotone(24 + e, (23 + k) as nat);
        lemma_pow2_adds(24, e);
        lemma_pow2_pos(e);
        assert(den * (m * pow2(e)) < den * pow2((23 + k) as nat)) by (nonlinear_arith)
            requires
                den > 0,
                m < pow2(24),
                pow2(e) > 0,
                pow2(24) * pow2(e) <= pow2((23 + k) as nat),
        ;
    }
}

/// A fraction that is at most a short number rounds to at most that number.
pub proof fn lemma_round_below(num: int, den: int, m: int, e: nat)
    requires
        den > 0,
        0 <= num <= den * (m * pow2(e)),
        0 <= m < pow2(24),
    ensures
        0 <= single::nearest_magnitude(num, den) <= m * pow2(e),
{
    lemma_spacing_at_most(num, den, m, e);
    let k = single::spacing(num, den);
    let d = den * pow2(k);
    let top = m * pow2((e - k) as nat);
    lemma_pow2_pos(k);
    lemma_pow2_adds(k, (e - k) as nat);
    assert(d > 0) by (nonlinear_arith)
        requires
            den > 0,
            pow2(k) > 0,
            d == den * pow2(k),
    ;
    assert(d * top == den * (m * pow2(e))) by (nonlinear_arith)
        requires
            d == den * pow2(k),
            top == m * pow2((e - k) as nat),
            pow2(k) * pow2((e - k) as nat) == pow2(e),
    ;
    let q = num / d;
    let r = num % d;
    lemma_fundamental_div_mod(num, d);
    assert(q >= 0) by (nonlinear_arith)
        requires
            num == d * q + r,
            num >= 0,
            r < d,
            d > 0,
    ;
    assert(q <= top) by (nonlinear_arith)
        requires
            num == d * q + r,
            num <= d * top,
            0 <= r,
            d > 0,
    ;
    if q == top {
        assert(d * q == d * top);
        assert(r == 0);
    }
    let h = single::half_even(num, d);
    assert(0 <= h <= top);
    assert(0 <= h * pow2(k) <= m * pow2(e)) by (nonlinear_arith)
        requires
            0 <= h <= top,
            pow2(k) > 0,
            top == m * pow2((e - k) as nat),
            pow2(k) * pow2((e - k) as nat) == pow2(e),
    ;
}

/// A fraction that is at least a short number rounds to at least that number.
pub proof fn lemma_round_above(num: int, den: int, m: int, e: nat)
    requires
        den > 0,
        num >= den * (m * pow2(e)),
        0 <= m <= pow2(24),
    ensures
        single::nearest_magnitude(num, den) >= m * pow2(e),
{
    lemma_pow2_pos(e);
    assert(den * (m * pow2(e)) >= 0) by (nonlinear_arith)
        requires
            den > 0,
            m >= 0,
            pow2(e) > 0,
    ;
    lemma_has_spacing(num, den);
    let k = single::spacing(num, den);
    let d = den * pow2(k);
    lemma_pow2_pos(k);
    assert(d > 0) by (nonlinear_arith)
        requires
            den > 0,
            pow2(k) > 0,
            d == den * pow2(k),
    ;
    let h = single::half_even(num, d);
    let least = if k <= e {
        m * pow2((e - k) as nat)
    } else {
        pow2(23) as int
    };
    if k <= e {
        lemma_pow2_adds(k, (e - k) as nat);
        assert(d * least == den * (m * pow2(e))) by (nonlinear_arith)
            requires
                d == den * pow2(k),
                least == m * pow2((e - k) as nat),
                pow2(k) * pow2((e - k) as nat) == pow2(e),
        ;
        assert(least * pow2(k) == m * pow2(e)) by (nonlinear_arith)
            requires
                least == m * pow2((e - k) as nat),
                pow2(k) * pow2((e - k) as nat) == pow2(e),
        ;
    } else {
        lemma_pow2_adds(23, k);
        lemma_pow2_adds(24, e);
        lemma_pow2_monotone(24 + e, (23 + k) as nat);
        assert(d * least == den * pow2((23 + k) as nat)) by (nonlinear_arith)
            requires
                d == den * pow2(k),
                least == pow2(23),
                pow2(23) * pow2(k) == pow2((23 + k) as nat),
        ;
        assert(least * pow2(k) >= m * pow2(e)) by (nonlinear_arith)
            requires
                least * pow2(k) == pow2((23 + k) as nat),
                pow2((23 + k) as nat) >= pow2(24) * pow2(e),
                m <= pow2(24),
                pow2(e) > 0,
        ;
    }
    let q = num / d;
    let r = num % d;
    lemma_fundamental_div_mod(num, d);
    assert(q >= least) by (nonlinear_arith)
        requires
            num == d * q + r,
            num >= d * least,
            r < d,
            d > 0,
    ;
    assert(h >= least);
    assert(h * pow2(k) >= least * pow2(k)) by (nonlinear_arith)
        requires
            h >= least,
            pow2(k) > 0,
    ;
}

/// A short number is a single.
pub proof fn lemma_round_exact(num: int, den: int, m: int, e: nat)
    requires
        den > 0,
        num == den * (m * pow2(e)),
        0 <= m < pow2(24),
    ensures
        single::nearest_magnitude(num, den) == m * pow2(e),
{
    lemma_pow2_pos(e);
    assert(num >= 0) by (nonlinear_arith)
        requires
            num == den * (m * pow2(e)),
            den > 0,
            m >= 0,
            pow2(e) > 0,
    ;
    lemma_round_below(num, den, m, e);
    lemma_round_above(num, den, m, e);
}

/// Below two to the power of `24 + j`, rounding moves a fraction by at most half of two to the
/// power of `j`.
pub proof fn lemma_round_close(num: int, den: int, j: nat)
    requires
        den > 0,
        0 <= num < den * pow2(24 + j),
    ensures
        -(den * pow2(j)) <= 2 * (den * single::nearest_magnitude(num, den) - num) <= den * pow2(
            j,
        ),
{
    lemma_has_spacing(num, den);
    let k = single::spacing(num, den);
    if k > j {
        lemma_pow2_monotone(24 + j, (23 + k) as nat);
        assert(den * pow2(24 + j) <= den * pow2((23 + k) as nat)) by (nonlinear_arith)
            requires
                den > 0,
                pow2(24 + j) <= pow2((23 + k) as nat),
        ;
    }
    lemma_pow2_monotone(k, j);
    let d = den * pow2(k);
    assert(d > 0) by (nonlinear_arith)
        requires
            den > 0,
            pow2(k) > 0,
            d == den * pow2(k),
    ;
    assert(d <= den * pow2(j)) by (nonlinear_arith)
        requires
            den > 0,
            pow2(k) <= pow2(j),
            d == den * pow2(k),
    ;
    lemma_fundamental_div_mod(num, d);
    let q = num / d;
    let h = single::half_even(num, d);
    assert(den * (h * pow2(k)) == d * h) by (nonlinear_arith)
        requires
            d == den * pow2(k),
    ;
    assert(d * (q + 1) == d * q + d) by (nonlinear_arith);
}

} // verus!
