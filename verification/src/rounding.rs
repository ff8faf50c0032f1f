//! Rounding a ratio of two natural numbers to the nearest binary32
//! magnitude, ties to the even significand.

use vstd::arithmetic::div_mod::{
    lemma_div_multiples_vanish_quotient, lemma_fundamental_div_mod, lemma_truncate_middle,
};
use vstd::arithmetic::power2::{
    lemma2_to64, lemma_pow2_adds, lemma_pow2_pos, lemma_pow2_strictly_increases, pow2,
};
use vstd::bits::lemma_u64_shl_is_mul;
use vstd::prelude::*;

verus! {

/// `n / d` rounded to the nearest whole number; a tie goes to the even one.
pub open spec fn round_half_even(n: nat, d: nat) -> nat {
    let q = n / d;
    let r = n % d;
    if 2 * r < d || (2 * r == d && q % 2 == 0) {
        q
    } else {
        q + 1
    }
}

/// The whole number `l` with `2^l <= n / d < 2^(l + 1)`, for positive `n`
/// and `d`.
pub open spec fn floor_log2(n: nat, d: nat) -> int
    decreases
            (if n < d {
                d - n
            } else if n >= 2 * d {
                n - d
            } else {
                0
            }),
{
    if n == 0 || d == 0 {
        0
    } else if n < d {
        floor_log2(2 * n, d) - 1
    } else if n >= 2 * d {
        floor_log2(n, 2 * d) + 1
    } else {
        0
    }
}

/// The exponent of the last place of the binary32 number nearest to
/// `n / d`: twenty-three below the leading bit, and never below `-149`.
pub open spec fn last_place(n: nat, d: nat) -> int {
    if floor_log2(n, d) - 23 >= -149 {
        floor_log2(n, d) - 23
    } else {
        -149
    }
}

/// The significand of the binary32 number nearest to `n / d`, in units of
/// its last place.  It may come out as `2^24`, one place too long.
pub open spec fn rounded_significand(n: nat, d: nat) -> nat {
    let e = last_place(n, d);
    if e >= 0 {
        round_half_even(n, d * pow2(e as nat))
    } else {
        round_half_even(n * pow2((-e) as nat), d)
    }
}

/// The pattern, without sign, of the binary32 number nearest to `n / d`.
/// A significand of `2^24` carries into the exponent bits by the addition;
/// what reaches the pattern of infinity is infinity.
pub open spec fn round_magnitude(n: nat, d: nat) -> nat {
    if n == 0 {
        0
    } else {
        let a = (last_place(n, d) + 149) * 0x80_0000 + rounded_significand(n, d);
        if a >= 0x7f80_0000 {
            0x7f80_0000
        } else {
            a as nat
        }
    }
}

/// The pattern, without sign, of the binary32 number nearest to
/// `(n / d) * 2^q`.
pub open spec fn round_scaled(n: nat, d: nat, q: int) -> nat {
    round_magnitude(
        n * pow2(if q >= 0 { q as nat } else { 0 }),
        d * pow2(if q < 0 { (-q) as nat } else { 0 }),
    )
}

/// The rounded quotient is a nearest whole number: it is off by half at
/// most, and where it is off by exactly half it is even.
pub proof fn lemma_round_half_even_nearest(n: nat, d: nat)
    requires
        d > 0,
    ensures
        ({
            let m = round_half_even(n, d);
            &&& 2 * (n - m * d) <= d
            &&& 2 * (m * d - n) <= d
            &&& (2 * (n - m * d) == d || 2 * (m * d - n) == d) ==> m % 2 == 0
        }),
{
    lemma_fundamental_div_mod(n as int, d as int);
    let q: nat = n / d;
    let r: nat = n % d;
    let m = round_half_even(n, d);
    assert(n - q * d == r) by (nonlinear_arith)
        requires
            n == d * q + r,
    ;
    assert((q + 1) * d - n == d - r) by (nonlinear_arith)
        requires
            n == d * q + r,
    ;
}

/// The leading bit is where the definition says: `n / d` lies between two
/// to the power of `floor_log2` and twice that.
pub proof fn lemma_floor_log2_bounds(n: nat, d: nat)
    requires
        n > 0,
        d > 0,
    ensures
        ({
            let l = floor_log2(n, d);
            &&& l >= 0 ==> d * pow2(l as nat) <= n < 2 * (d * pow2(l as nat))
            &&& l < 0 ==> d <= n * pow2((-l) as nat) < 2 * d
        }),
    decreases
            (if n < d {
                d - n
            } else if n >= 2 * d {
                n - d
            } else {
                0
            }),
{
    lemma2_to64();
    if n < d {
        lemma_floor_log2_bounds(2 * n, d);
        let inner = floor_log2(2 * n, d);
        // Doubling a number below `d` cannot reach `2 * d`.
        if inner > 0 {
            lemma_pow2_strictly_increases(0, inner as nat);
            assert(d * pow2(inner as nat) >= 2 * d) by (nonlinear_arith)
                requires
                    pow2(inner as nat) >= 2,
                    d > 0,
            ;
        }
        let back: nat = (-inner) as nat;
        lemma_pow2_adds(1, back);
        assert((2 * n) * pow2(back) == n * pow2(1 + back)) by (nonlinear_arith)
            requires
                pow2(1 + back) == 2 * pow2(back),
        ;
        if inner == 0 {
            assert(d * pow2(0) == d && (2 * n) * pow2(0) == 2 * n) by (nonlinear_arith)
                requires
                    pow2(0) == 1,
            ;
        }
    } else if n >= 2 * d {
        lemma_floor_log2_bounds(n, 2 * d);
        let inner = floor_log2(n, 2 * d);
        // A number of at least `2 * d` is not below `2 * d`.
        if inner < 0 {
            let back: nat = (-inner) as nat;
            lemma_pow2_strictly_increases(0, back);
            assert(false) by (nonlinear_arith)
                requires
                    n * pow2(back) < 2 * (2 * d),
                    pow2(back) >= 2,
                    n >= 2 * d,
                    d > 0,
            ;
        }
        lemma_pow2_adds(1, inner as nat);
        assert((2 * d) * pow2(inner as nat) == d * pow2(1 + inner as nat)) by (nonlinear_arith)
            requires
                pow2(1 + inner as nat) == 2 * pow2(inner as nat),
        ;
    } else {
        assert(d * pow2(0) == d) by (nonlinear_arith)
            requires
                pow2(0) == 1,
        ;
    }
}

/// Rounding does not depend on a common factor of the two numbers.
pub proof fn lemma_round_half_even_scale(n: nat, d: nat, k: nat)
    requires
        d > 0,
        k > 0,
    ensures
        round_half_even(k * n, k * d) == round_half_even(n, d),
{
    lemma_div_multiples_vanish_quotient(k as int, n as int, d as int);
    lemma_truncate_middle(n as int, k as int, d as int);
    let r: nat = n % d;
    assert((k * n) % (k * d) == k * r);
    assert(2 * (k * r) < k * d <==> 2 * r < d) by (nonlinear_arith)
        requires
            k > 0,
    ;
    assert(2 * (k * r) == k * d <==> 2 * r == d) by (nonlinear_arith)
        requires
            k > 0,
    ;
}

/// The leading bit of a ratio does not depend on a common factor.
pub proof fn lemma_floor_log2_scale(n: nat, d: nat, k: nat)
    requires
        k > 0,
    ensures
        floor_log2(k * n, k * d) == floor_log2(n, d),
    decreases
            (if n < d {
                d - n
            } else if n >= 2 * d {
                n - d
            } else {
                0
            }),
{
    assert(k * n == 0 <==> n == 0) by (nonlinear_arith)
        requires
            k > 0,
    ;
    assert(k * d == 0 <==> d == 0) by (nonlinear_arith)
        requires
            k > 0,
    ;
    assert(k * n < k * d <==> n < d) by (nonlinear_arith)
        requires
            k > 0,
    ;
    assert(k * n >= 2 * (k * d) <==> n >= 2 * d) by (nonlinear_arith)
        requires
            k > 0,
    ;
    if n == 0 || d == 0 {
    } else if n < d {
        lemma_floor_log2_scale(2 * n, d, k);
        assert(k * (2 * n) == 2 * (k * n)) by (nonlinear_arith);
    } else if n >= 2 * d {
        lemma_floor_log2_scale(n, 2 * d, k);
        assert(k * (2 * d) == 2 * (k * d)) by (nonlinear_arith);
    }
}

/// A ratio in `[1, 2)` has its leading bit at place zero; a power of two
/// above or below moves the leading bit by as many places.
pub proof fn lemma_floor_log2_shift(n: nat, d: nat, up: nat, down: nat)
    requires
        0 < d <= n < 2 * d,
    ensures
        floor_log2(n * pow2(up), d * pow2(down)) == up - down,
    decreases up + down,
{
    lemma_pow2_pos(up);
    lemma_pow2_pos(down);
    if up > 0 && down > 0 {
        vstd::arithmetic::power2::lemma_pow2_unfold(up);
        vstd::arithmetic::power2::lemma_pow2_unfold(down);
        let pu: nat = pow2((up - 1) as nat);
        let pd: nat = pow2((down - 1) as nat);
        lemma_floor_log2_shift(n, d, (up - 1) as nat, (down - 1) as nat);
        lemma_floor_log2_scale(n * pu, d * pd, 2);
        assert(2 * (n * pu) == n * (2 * pu)) by (nonlinear_arith);
        assert(2 * (d * pd) == d * (2 * pd)) by (nonlinear_arith);
    } else if up > 0 {
        vstd::arithmetic::power2::lemma_pow2_unfold(up);
        let pu: nat = pow2((up - 1) as nat);
        lemma_pow2_pos((up - 1) as nat);
        vstd::arithmetic::power2::lemma2_to64();
        assert(d * pow2(0) == d) by (nonlinear_arith)
            requires
                pow2(0) == 1,
        ;
        assert(n * pow2(up) == n * (2 * pu));
        assert(n * (2 * pu) >= 2 * d) by (nonlinear_arith)
            requires
                n >= d,
                pu >= 1,
        ;
        // One step of the definition doubles the denominator.
        assert(floor_log2(n * pow2(up), d) == floor_log2(n * pow2(up), 2 * d) + 1);
        lemma_floor_log2_scale(n * pu, d, 2);
        assert(2 * (n * pu) == n * (2 * pu)) by (nonlinear_arith);
        lemma_floor_log2_shift(n, d, (up - 1) as nat, 0);
    } else if down > 0 {
        vstd::arithmetic::power2::lemma_pow2_unfold(down);
        let pd: nat = pow2((down - 1) as nat);
        lemma_pow2_pos((down - 1) as nat);
        vstd::arithmetic::power2::lemma2_to64();
        assert(n * pow2(0) == n) by (nonlinear_arith)
            requires
                pow2(0) == 1,
        ;
        assert(d * pow2(down) == d * (2 * pd));
        assert(n < d * (2 * pd)) by (nonlinear_arith)
            requires
                n < 2 * d,
                pd >= 1,
        ;
        // One step of the definition doubles the numerator.
        assert(floor_log2(n, d * pow2(down)) == floor_log2(2 * n, d * pow2(down)) - 1);
        lemma_floor_log2_scale(n, d * pd, 2);
        assert(2 * (d * pd) == d * (2 * pd)) by (nonlinear_arith);
        lemma_floor_log2_shift(n, d, 0, (down - 1) as nat);
    } else {
        vstd::arithmetic::power2::lemma2_to64();
        assert(n * pow2(0) == n) by (nonlinear_arith)
            requires
                pow2(0) == 1,
        ;
        assert(d * pow2(0) == d) by (nonlinear_arith)
            requires
                pow2(0) == 1,
        ;
    }
}

/// The rounded pattern does not depend on a common factor of the two
/// numbers: it is a function of the ratio.
pub proof fn lemma_round_magnitude_scale(n: nat, d: nat, k: nat)
    requires
        d > 0,
        k > 0,
    ensures
        round_magnitude(k * n, k * d) == round_magnitude(n, d),
{
    lemma_floor_log2_scale(n, d, k);
    assert(k * n == 0 <==> n == 0) by (nonlinear_arith)
        requires
            k > 0,
    ;
    let e = last_place(n, d);
    if e >= 0 {
        let p: nat = pow2(e as nat);
        lemma_pow2_pos(e as nat);
        assert(d * p > 0) by (nonlinear_arith)
            requires
                d > 0,
                p > 0,
        ;
        lemma_round_half_even_scale(n, d * p, k);
        assert(k * (d * p) == (k * d) * p) by (nonlinear_arith);
    } else {
        let p: nat = pow2((-e) as nat);
        lemma_round_half_even_scale(n * p, d, k);
        assert(k * (n * p) == (k * n) * p) by (nonlinear_arith);
    }
}

/// Two ways of writing one ratio round to one pattern.
pub proof fn lemma_round_magnitude_ratio(n1: nat, d1: nat, n2: nat, d2: nat)
    requires
        d1 > 0,
        d2 > 0,
        n1 * d2 == n2 * d1,
    ensures
        round_magnitude(n1, d1) == round_magnitude(n2, d2),
{
    lemma_round_magnitude_scale(n1, d1, d2);
    lemma_round_magnitude_scale(n2, d2, d1);
    assert(d2 * n1 == d1 * n2) by (nonlinear_arith)
        requires
            n1 * d2 == n2 * d1,
    ;
    assert(d2 * d1 == d1 * d2) by (nonlinear_arith);
}

/// The significand of `(n / d) * 2^(up - down)` is `n * 2^a / (d * 2^b)`
/// rounded, for any `a` and `b` whose difference is the distance from the
/// last place to `up - down`.
proof fn lemma_rounded_significand_shift(n: nat, d: nat, up: nat, down: nat, a: nat, b: nat)
    requires
        0 < d <= n < 2 * d,
        a - b == (up - down) - last_place(n * pow2(up), d * pow2(down)),
    ensures
        rounded_significand(n * pow2(up), d * pow2(down)) == round_half_even(
            n * pow2(a),
            d * pow2(b),
        ),
{
    let e = last_place(n * pow2(up), d * pow2(down));
    // Both sides are the same ratio with exponents `hi` above and `lo` below,
    // up to a common power of two.
    let hi: nat = if e >= 0 { up } else { (up - e) as nat };
    let lo: nat = if e >= 0 { (down + e) as nat } else { down };
    assert(hi - lo == a - b);
    if e >= 0 {
        lemma_pow2_adds(down, e as nat);
        assert((d * pow2(down)) * pow2(e as nat) == d * pow2(lo)) by (nonlinear_arith)
            requires
                pow2(lo) == pow2(down) * pow2(e as nat),
        ;
    } else {
        lemma_pow2_adds(up, (-e) as nat);
        assert((n * pow2(up)) * pow2((-e) as nat) == n * pow2(hi)) by (nonlinear_arith)
            requires
                pow2(hi) == pow2(up) * pow2((-e) as nat),
        ;
    }
    assert(rounded_significand(n * pow2(up), d * pow2(down)) == round_half_even(
        n * pow2(hi),
        d * pow2(lo),
    ));
    lemma_pow2_pos(a);
    lemma_pow2_pos(b);
    lemma_pow2_pos(hi);
    lemma_pow2_pos(lo);
    assert(d * pow2(b) > 0) by (nonlinear_arith)
        requires
            d > 0,
            pow2(b) > 0,
    ;
    assert(d * pow2(lo) > 0) by (nonlinear_arith)
        requires
            d > 0,
            pow2(lo) > 0,
    ;
    if hi >= a {
        let c: nat = (hi - a) as nat;
        lemma_pow2_pos(c);
        lemma_pow2_adds(c, a);
        lemma_pow2_adds(c, b);
        lemma_round_half_even_scale(n * pow2(a), d * pow2(b), pow2(c));
        assert(pow2(c) * (n * pow2(a)) == n * pow2(hi)) by (nonlinear_arith)
            requires
                pow2(hi) == pow2(c) * pow2(a),
        ;
        assert(pow2(c) * (d * pow2(b)) == d * pow2(lo)) by (nonlinear_arith)
            requires
                pow2(lo) == pow2(c) * pow2(b),
        ;
    } else {
        let c: nat = (a - hi) as nat;
        lemma_pow2_pos(c);
        lemma_pow2_adds(c, hi);
        lemma_pow2_adds(c, lo);
        lemma_round_half_even_scale(n * pow2(hi), d * pow2(lo), pow2(c));
        assert(pow2(c) * (n * pow2(hi)) == n * pow2(a)) by (nonlinear_arith)
            requires
                pow2(a) == pow2(c) * pow2(hi),
        ;
        assert(pow2(c) * (d * pow2(lo)) == d * pow2(b)) by (nonlinear_arith)
            requires
                pow2(b) == pow2(c) * pow2(lo),
        ;
    }
}

/// A ratio below `2^k` rounds to `2^k` at most.
proof fn lemma_round_half_even_bound(n: nat, d: nat, bound: nat)
    requires
        d > 0,
        n < bound * d,
    ensures
        round_half_even(n, d) <= bound,
{
    lemma_fundamental_div_mod(n as int, d as int);
    let q: nat = n / d;
    let r: nat = n % d;
    assert(q < bound) by (nonlinear_arith)
        requires
            n == d * q + r,
            n < bound * d,
            d > 0,
            r >= 0,
    ;
}

/// `2^k` for a small `k`.
fn power_of_two(k: u32) -> (p: u64)
    requires
        k <= 26,
    ensures
        p == pow2(k as nat),
        1 <= p <= 0x400_0000,
{
    proof {
        lemma2_to64();
        if k < 26 {
            lemma_pow2_strictly_increases(k as nat, 26);
        }
        lemma_pow2_pos(k as nat);
        lemma_u64_shl_is_mul(1, k as u64);
    }
    1u64 << (k as u64)
}

/// `n / d` rounded to the nearest whole number, ties to even.
fn rounded_quotient(n: u128, d: u128) -> (m: u128)
    requires
        d > 0,
        d < 0x1_0000_0000_0000_0000_0000,
    ensures
        m == round_half_even(n as nat, d as nat),
{
    let q: u128 = n / d;
    let r: u128 = n % d;
    proof {
        lemma_fundamental_div_mod(n as int, d as int);
        assert(q <= n) by (nonlinear_arith)
            requires
                n == d * q + r,
                d > 0,
                r >= 0,
                q >= 0,
        ;
    }
    if 2 * r < d || (2 * r == d && q % 2 == 0) {
        q
    } else {
        assert(q < n) by (nonlinear_arith)
            requires
                n == d * q + r,
                d > 0,
                2 * r >= d,
                q >= 0,
        ;
        q + 1
    }
}

/// A number that binary32 holds exactly is not rounded: a significand `m`
/// of twenty-four bits at a normal exponent comes back as its own pattern.
pub proof fn lemma_round_scaled_exact(m: nat, q: int)
    requires
        0x80_0000 <= m < 0x100_0000,
        -126 <= q <= 127,
    ensures
        round_scaled(m, 0x80_0000, q) == (q + 126) * 0x80_0000 + m,
{
    let up: nat = if q >= 0 { q as nat } else { 0 };
    let down: nat = if q < 0 { (-q) as nat } else { 0 };
    let d: nat = 0x80_0000;
    lemma2_to64();
    lemma_floor_log2_shift(m, d, up, down);
    lemma_pow2_pos(up);
    lemma_pow2_pos(down);
    assert(m * pow2(up) > 0) by (nonlinear_arith)
        requires
            m > 0,
            pow2(up) > 0,
    ;
    assert(last_place(m * pow2(up), d * pow2(down)) == q - 23);
    lemma_rounded_significand_shift(m, d, up, down, 23, 0);
    assert(d * pow2(0) == d) by (nonlinear_arith)
        requires
            pow2(0) == 1,
    ;
    lemma_round_half_even_scale(m, 1, d);
    assert(d * m == m * pow2(23)) by (nonlinear_arith)
        requires
            pow2(23) == d,
    ;
    assert(d * 1 == d);
    assert(round_half_even(m, 1) == m);
}

/// A ratio of at least `k` rounds to `k` at least.
proof fn lemma_round_half_even_least(n: nat, d: nat, least: nat)
    requires
        d > 0,
        n >= least * d,
    ensures
        round_half_even(n, d) >= least,
{
    lemma_fundamental_div_mod(n as int, d as int);
    let q: nat = n / d;
    let r: nat = n % d;
    assert(q >= least) by (nonlinear_arith)
        requires
            n == d * q + r,
            n >= least * d,
            d > 0,
            r < d,
    ;
}

/// A ratio below one half rounds to zero.
proof fn lemma_round_half_even_none(n: nat, d: nat)
    requires
        2 * n < d,
    ensures
        round_half_even(n, d) == 0,
{
    vstd::arithmetic::div_mod::lemma_fundamental_div_mod_converse(n as int, d as int, 0, n as int);
}

/// The pattern, without sign, of the binary32 number nearest to
/// `(n / d) * 2^q`, for a ratio `n / d` in `[1, 2)`.
pub(crate) fn round_ratio(n: u64, d: u64, q: i32) -> (a: u32)
    requires
        0 < d <= n < 2 * d,
        d < 0x1_0000_0000_0000,
        -1000 <= q <= 1000,
    ensures
        a == round_scaled(n as nat, d as nat, q as int),
        a <= 0x7f80_0000,
{
    let ghost up: nat = if q >= 0 { q as nat } else { 0 };
    let ghost down: nat = if q < 0 { (-q) as nat } else { 0 };
    let ghost num: nat = n as nat * pow2(up);
    let ghost den: nat = d as nat * pow2(down);
    let e: i32 = if q - 23 >= -149 { q - 23 } else { -149 };
    proof {
        lemma_floor_log2_shift(n as nat, d as nat, up, down);
        lemma_pow2_pos(up);
        lemma_pow2_pos(down);
        assert(num > 0) by (nonlinear_arith)
            requires
                num == n as nat * pow2(up),
                n > 0,
                pow2(up) > 0,
        ;
        assert(last_place(num, den) == e);
        lemma2_to64();
    }
    let shift: i32 = q - e;
    if e > 104 {
        proof {
            lemma_rounded_significand_shift(n as nat, d as nat, up, down, 23, 0);
            assert(d as nat * pow2(0) == d) by (nonlinear_arith)
                requires
                    pow2(0) == 1,
            ;
            assert(n as nat * pow2(23) >= 0x80_0000 * (d as nat)) by (nonlinear_arith)
                requires
                    n >= d,
                    pow2(23) == 0x80_0000,
            ;
            lemma_round_half_even_least(n as nat * pow2(23), d as nat, 0x80_0000);
        }
        return 0x7f80_0000;
    }
    if shift < -26 {
        proof {
            let b: nat = (-shift) as nat;
            lemma_rounded_significand_shift(n as nat, d as nat, up, down, 0, b);
            lemma_pow2_strictly_increases(2, b);
            assert(n as nat * pow2(0) == n) by (nonlinear_arith)
                requires
                    pow2(0) == 1,
            ;
            assert(2 * (n as nat) < d as nat * pow2(b)) by (nonlinear_arith)
                requires
                    n < 2 * d,
                    pow2(b) > 4,
            ;
            lemma_round_half_even_none(n as nat, d as nat * pow2(b));
        }
        return 0;
    }
    let above: u32 = if shift >= 0 { shift as u32 } else { 0 };
    let below: u32 = if shift < 0 { (-shift) as u32 } else { 0 };
    let scale_up: u64 = power_of_two(above);
    let scale_down: u64 = power_of_two(below);
    proof {
        assert(n as nat * (scale_up as nat) < 0x1_0000_0000_0000_0000_0000) by (nonlinear_arith)
            requires
                n < 0x2_0000_0000_0000,
                scale_up <= 0x400_0000,
        ;
        assert(0 < d as nat * (scale_down as nat) < 0x1_0000_0000_0000_0000_0000)
            by (nonlinear_arith)
            requires
                0 < d < 0x1_0000_0000_0000,
                1 <= scale_down <= 0x400_0000,
        ;
    }
    let top: u128 = (n as u128) * (scale_up as u128);
    let bottom: u128 = (d as u128) * (scale_down as u128);
    let m: u128 = rounded_quotient(top, bottom);
    proof {
        lemma_rounded_significand_shift(n as nat, d as nat, up, down, above as nat, below as nat);
        lemma_pow2_strictly_increases(above as nat, 24);
        assert(top < 0x100_0000 * bottom) by (nonlinear_arith)
            requires
                top == n * scale_up,
                bottom == d * scale_down,
                n < 2 * d,
                scale_up <= 0x80_0000,
                scale_down >= 1,
                d > 0,
        ;
        lemma_round_half_even_bound(top as nat, bottom as nat, 0x100_0000);
    }
    let a: u32 = ((e + 149) as u32) * 0x80_0000 + (m as u32);
    if a >= 0x7f80_0000 {
        0x7f80_0000
    } else {
        a
    }
}

} // verus!
