//! IEEE-754 binary32 numbers, held as their bit patterns.
//!
//! Every value the camera works with is a 32-bit pattern: one sign bit, eight
//! exponent bits, twenty-three fraction bits.  The operations offered here
//! are those whose result the standard fixes bit for bit, so each one is
//! stated over the number that the pattern denotes and proved on integers.

use vstd::arithmetic::div_mod::{lemma_fundamental_div_mod, lemma_fundamental_div_mod_converse};
use vstd::arithmetic::power2::{
    lemma2_to64, lemma_pow2_adds, lemma_pow2_pos, lemma_pow2_strictly_increases, pow2,
};
use vstd::bits::lemma_u32_shl_is_mul;
use vstd::prelude::*;

verus! {

/// One binary32 number.  Equality is equality of bit patterns: the two zeros
/// differ, and a NaN equals itself.
#[derive(Clone, Copy, Debug, PartialEq, Eq, Structural)]
pub struct Single {
    pub bits: u32,
}

/// `1.0` in units of `2^-149`, the unit of [`Single::fixed`].
pub open spec fn fixed_one() -> nat {
    pow2(149)
}

/// The largest whole number that is not above `x`, both in units of `2^-149`.
pub open spec fn floor_fixed(x: int) -> int {
    (x / (fixed_one() as int)) * fixed_one()
}

/// The pattern made of a sign, eight exponent bits and twenty-three fraction
/// bits reads back as those three.
proof fn lemma_fields(negative: bool, biased: nat, fraction: nat)
    requires
        biased < 256,
        fraction < 0x80_0000,
    ensures
        ({
            let sign: nat = if negative { 0x8000_0000 } else { 0 };
            let s = Single { bits: (sign + biased * 0x80_0000 + fraction) as u32 };
            &&& sign + biased * 0x80_0000 + fraction <= u32::MAX
            &&& s.spec_is_sign_negative() == negative
            &&& s.magnitude() == biased * 0x80_0000 + fraction
            &&& s.biased_exponent() == biased
            &&& s.fraction() == fraction
        }),
{
}

/// Dividing `m * c`, or its negative, by `p * c` rounds `m / p` downwards.
proof fn lemma_floor_quotient(m: nat, c: nat, p: nat, negative: bool)
    requires
        c > 0,
        p > 0,
    ensures
        ({
            let x: int = if negative { -(m * c) } else { (m * c) as int };
            let q: int = if !negative {
                (m / p) as int
            } else if m % p == 0 {
                -(m / p)
            } else {
                -(m / p) - 1
            };
            x / ((p * c) as int) == q
        }),
{
    let x: int = if negative { -(m * c) } else { (m * c) as int };
    let q: int = if !negative {
        (m / p) as int
    } else if m % p == 0 {
        -(m / p)
    } else {
        -(m / p) - 1
    };
    let d: int = (p * c) as int;
    let r: int = x - q * d;
    let whole: int = (m / p) as int;
    let rest: int = (m % p) as int;
    lemma_fundamental_div_mod(m as int, p as int);
    assert(m == p * whole + rest);
    assert(0 <= rest < p);
    assert(0 < d) by (nonlinear_arith)
        requires
            d == p * c,
            p > 0,
            c > 0,
    ;
    if !negative {
        assert(r == rest * c && 0 <= r < d) by (nonlinear_arith)
            requires
                r == x - q * d,
                x == m * c,
                q == whole,
                d == p * c,
                m == p * whole + rest,
                0 <= rest < p,
                c > 0,
        ;
    } else if rest == 0 {
        assert(r == 0) by (nonlinear_arith)
            requires
                r == x - q * d,
                x == -(m * c),
                q == -whole,
                d == p * c,
                m == p * whole,
        ;
    } else {
        assert(r == (p - rest) * c && 0 <= r < d) by (nonlinear_arith)
            requires
                r == x - q * d,
                x == -(m * c),
                q == -whole - 1,
                d == p * c,
                m == p * whole + rest,
                0 < rest < p,
                c > 0,
        ;
    }
    lemma_fundamental_div_mod_converse(x, d, q, r);
}

/// A finite number of magnitude `2^23` or more is whole.
proof fn lemma_floor_whole(s: Single)
    requires
        s.spec_is_finite(),
        s.biased_exponent() >= 150,
    ensures
        s.fixed() == floor_fixed(s.fixed()),
{
    let m: int = s.significand() as int;
    let high: nat = (s.biased_exponent() - 150) as nat;
    let whole: int = m * pow2(high);
    let one: int = fixed_one() as int;
    lemma_pow2_adds(high, 149);
    lemma_pow2_pos(149);
    assert(pow2((s.exponent() + 149) as nat) == pow2(high) * pow2(149));
    let x: int = if s.spec_is_sign_negative() { -whole } else { whole };
    assert(s.fixed() == one * x) by (nonlinear_arith)
        requires
            s.fixed() == (if s.spec_is_sign_negative() {
                -(m * (pow2(high) * pow2(149)))
            } else {
                m * (pow2(high) * pow2(149))
            }),
            whole == m * pow2(high),
            x == (if s.spec_is_sign_negative() { -whole } else { whole }),
            one == pow2(149),
    ;
    vstd::arithmetic::div_mod::lemma_div_multiples_vanish(x, one);
    assert(x * one == one * x) by (nonlinear_arith);
}

/// A number of magnitude below one lies strictly between `-1` and `1`, so
/// its floor is `-1` where it is negative and `0` otherwise.
proof fn lemma_below_one(s: Single)
    requires
        s.biased_exponent() < 127,
    ensures
        -fixed_one() < s.fixed() < fixed_one(),
        s.is_zero() <==> s.fixed() == 0,
        floor_fixed(s.fixed()) == (if s.fixed() < 0 { -fixed_one() } else { 0 }),
{
    lemma_below_one_bounds(s);
    let x: int = s.fixed();
    let one: int = fixed_one() as int;
    if x < 0 {
        lemma_fundamental_div_mod_converse(x, one, -1, x + one);
    } else {
        lemma_fundamental_div_mod_converse(x, one, 0, x);
    }
}

pub(crate) proof fn lemma_below_one_bounds(s: Single)
    requires
        s.biased_exponent() < 127,
    ensures
        -fixed_one() < s.fixed() < fixed_one(),
        s.is_zero() <==> s.fixed() == 0,
{
    let m: nat = s.significand();
    let e: nat = (s.exponent() + 149) as nat;
    lemma2_to64();
    lemma_pow2_adds(24, e);
    lemma_pow2_pos(e);
    assert(e <= 125);
    if 24 + e < 149 {
        lemma_pow2_strictly_increases(24 + e, 149);
    }
    assert(m < pow2(24));
    assert(m * pow2(e) < pow2(24) * pow2(e)) by (nonlinear_arith)
        requires
            m < pow2(24),
            pow2(e) > 0,
    ;
    assert(m == 0 <==> m * pow2(e) == 0) by (nonlinear_arith)
        requires
            pow2(e) > 0,
    ;
}

/// Either zero, as a pattern and as a value.
proof fn lemma_zero(negative: bool)
    ensures
        ({
            let z = Single { bits: if negative { 0x8000_0000u32 } else { 0u32 } };
            &&& z.spec_is_finite()
            &&& z.spec_is_sign_negative() == negative
            &&& z.is_zero()
            &&& z.fixed() == 0
        }),
{
    let z = Single { bits: if negative { 0x8000_0000u32 } else { 0u32 } };
    lemma_fields(negative, 0, 0);
    let p: nat = pow2((z.exponent() + 149) as nat);
    assert(z.significand() * p == 0) by (nonlinear_arith)
        requires
            z.significand() == 0,
    ;
}

/// Minus one, as a pattern and as a value.
proof fn lemma_minus_one()
    ensures
        (Single { bits: 0xbf80_0000 }).spec_is_finite(),
        (Single { bits: 0xbf80_0000 }).spec_is_sign_negative(),
        (Single { bits: 0xbf80_0000 }).fixed() == -fixed_one(),
{
    lemma2_to64();
    lemma_pow2_adds(23, 126);
    lemma_fields(true, 127, 0);
}

/// The floor of a number with `k` fraction bits, `1 <= k <= 23`: clear those
/// bits, and step one unit away from zero where a negative number lost any.
proof fn lemma_floor_fraction_bits(s: Single)
    requires
        127 <= s.biased_exponent() < 150,
    ensures
        ({
            let k: nat = (150 - s.biased_exponent()) as nat;
            let unit: nat = pow2(k);
            let below: nat = s.magnitude() % unit;
            let down: nat = (s.magnitude() - below) as nat;
            let r = if below == 0 {
                s
            } else if s.spec_is_sign_negative() {
                Single { bits: (0x8000_0000 + down + unit) as u32 }
            } else {
                Single { bits: down as u32 }
            };
            &&& 2 <= unit <= 0x80_0000
            &&& below <= s.magnitude()
            &&& 0x8000_0000 + down + unit <= u32::MAX
            &&& r.spec_is_finite()
            &&& r.spec_is_sign_negative() == s.spec_is_sign_negative()
            &&& r.fixed() == floor_fixed(s.fixed())
        }),
{
    let negative = s.spec_is_sign_negative();
    let biased: nat = s.biased_exponent();
    let f: nat = s.fraction();
    let m: nat = s.significand();
    let k: nat = (150 - biased) as nat;
    let unit: nat = pow2(k);
    let t: nat = pow2((23 - k) as nat);
    let c: nat = pow2((149 - k) as nat);
    let below: nat = s.magnitude() % unit;
    let down: nat = (s.magnitude() - below) as nat;
    lemma2_to64();
    lemma_pow2_adds(k, (23 - k) as nat);
    lemma_pow2_adds(k, (149 - k) as nat);
    lemma_pow2_pos(k);
    lemma_pow2_pos((23 - k) as nat);
    lemma_pow2_pos((149 - k) as nat);
    lemma_pow2_strictly_increases(0, k);
    assert(unit * t == 0x80_0000);
    assert(unit * c == pow2(149));
    assert(unit <= 0x80_0000) by (nonlinear_arith)
        requires
            unit * t == 0x80_0000,
            t > 0,
            unit > 0,
    ;
    assert(s.magnitude() == biased * 0x80_0000 + f);
    assert(m == f + 0x80_0000);
    // The exponent bits and the hidden bit are multiples of the unit.
    let whole: nat = m / unit;
    let rest: nat = m % unit;
    lemma_fundamental_div_mod(m as int, unit as int);
    assert(m == unit * whole + rest);
    assert(s.magnitude() == unit * ((biased - 1) * t + whole) + rest) by (nonlinear_arith)
        requires
            s.magnitude() == biased * 0x80_0000 + f,
            m == f + 0x80_0000,
            m == unit * whole + rest,
            unit * t == 0x80_0000,
    ;
    let lead: int = (biased - 1) * t + whole;
    assert(lead >= 0) by (nonlinear_arith)
        requires
            lead == (biased - 1) * t + whole,
            biased >= 127,
            t > 0,
            whole >= 0,
    ;
    lemma_fundamental_div_mod_converse(s.magnitude() as int, unit as int, lead, rest as int);
    assert(below == rest);
    assert(pow2((s.exponent() + 149) as nat) == c);
    lemma_floor_quotient(m, c, unit, negative);
    let one: int = fixed_one() as int;
    assert(one == unit * c);
    let q: int = s.fixed() / one;
    if below == 0 {
        assert(s.fixed() == q * one) by (nonlinear_arith)
            requires
                s.fixed() == (if negative { -(m * c) } else { (m * c) as int }),
                q == (if negative { -(whole as int) } else { whole as int }),
                m == unit * whole,
                one == unit * c,
        ;
    } else if !negative {
        assert(below <= f) by (nonlinear_arith)
            requires
                m == f + 0x80_0000,
                m == unit * whole + below,
                unit * t == 0x80_0000,
                below < unit,
        ;
        let kept: nat = (f - below) as nat;
        assert(down == biased * 0x80_0000 + kept);
        lemma_fields(false, biased, kept);
        let r = Single { bits: down as u32 };
        assert(r.significand() == unit * whole);
        assert(r.fixed() == q * one) by (nonlinear_arith)
            requires
                r.fixed() == (unit * whole) * c,
                q == whole,
                one == unit * c,
        ;
    } else {
        assert(below <= f) by (nonlinear_arith)
            requires
                m == f + 0x80_0000,
                m == unit * whole + below,
                unit * t == 0x80_0000,
                below < unit,
        ;
        let raised: nat = (f - below + unit) as nat;
        assert(raised + 0x80_0000 == unit * (whole + 1)) by (nonlinear_arith)
            requires
                raised == f - below + unit,
                m == f + 0x80_0000,
                m == unit * whole + below,
        ;
        assert(whole < 2 * t) by (nonlinear_arith)
            requires
                m == unit * whole + below,
                m < 2 * 0x80_0000,
                unit * t == 0x80_0000,
                unit > 0,
        ;
        assert(raised <= 0x80_0000) by (nonlinear_arith)
            requires
                raised + 0x80_0000 == unit * (whole + 1),
                whole < 2 * t,
                unit * t == 0x80_0000,
                unit > 0,
        ;
        assert(0x8000_0000 + down + unit == 0x8000_0000 + biased * 0x80_0000 + raised);
        let r = Single { bits: (0x8000_0000 + down + unit) as u32 };
        if raised < 0x80_0000 {
            lemma_fields(true, biased, raised);
            assert(r.significand() == unit * (whole + 1));
            assert(r.fixed() == q * one) by (nonlinear_arith)
                requires
                    r.fixed() == -((unit * (whole + 1)) * c),
                    q == -whole - 1,
                    one == unit * c,
            ;
        } else {
            lemma_fields(true, biased + 1, 0);
            lemma_pow2_adds(1, (149 - k) as nat);
            assert(pow2((r.exponent() + 149) as nat) == 2 * c);
            assert(r.fixed() == q * one) by (nonlinear_arith)
                requires
                    r.fixed() == -(0x80_0000 * (2 * c)),
                    2 * 0x80_0000 == unit * (whole + 1),
                    q == -whole - 1,
                    one == unit * c,
            ;
        }
    }
}

/// Among finite numbers the larger magnitude pattern denotes the larger
/// absolute value: patterns are ordered as the numbers they stand for.
pub proof fn lemma_units_increase(a: Single, b: Single)
    requires
        b.spec_is_finite(),
        a.magnitude() < b.magnitude(),
    ensures
        a.units() < b.units(),
{
    let ma: nat = a.significand();
    let mb: nat = b.significand();
    let ea: nat = (a.exponent() + 149) as nat;
    let eb: nat = (b.exponent() + 149) as nat;
    lemma_pow2_pos(ea);
    lemma_pow2_pos(eb);
    lemma2_to64();
    if a.biased_exponent() == b.biased_exponent() {
        assert(ma * pow2(ea) < mb * pow2(ea)) by (nonlinear_arith)
            requires
                ma < mb,
                pow2(ea) > 0,
        ;
    } else {
        assert(a.biased_exponent() < b.biased_exponent());
        // `a` stays below the next power of two, which `b` has reached.
        let top: nat = if a.biased_exponent() == 0 { 0 } else { (ea + 1) as nat };
        assert(top <= eb);
        if top < eb {
            lemma_pow2_strictly_increases(top, eb);
        }
        if a.biased_exponent() != 0 {
            lemma_pow2_adds(1, ea);
        }
        assert(ma * pow2(ea) < 0x80_0000 * pow2(top)) by (nonlinear_arith)
            requires
                a.biased_exponent() == 0 ==> ma < 0x80_0000 && pow2(ea) == 1 && pow2(top) == 1,
                a.biased_exponent() != 0 ==> ma < 2 * 0x80_0000 && pow2(top) == 2 * pow2(ea),
                pow2(ea) > 0,
        ;
        assert(0x80_0000 * pow2(top) <= mb * pow2(eb)) by (nonlinear_arith)
            requires
                mb >= 0x80_0000,
                pow2(top) <= pow2(eb),
                pow2(top) > 0,
        ;
    }
}

/// A finite number is known by its sign and its value: the contracts that
/// give both leave one pattern only.
pub proof fn lemma_finite_determined(a: Single, b: Single)
    requires
        a.spec_is_finite(),
        b.spec_is_finite(),
        a.spec_is_sign_negative() == b.spec_is_sign_negative(),
        a.fixed() == b.fixed(),
    ensures
        a == b,
{
    if a.magnitude() < b.magnitude() {
        lemma_units_increase(a, b);
    } else if b.magnitude() < a.magnitude() {
        lemma_units_increase(b, a);
    }
}

/// A finite number is greater than zero just when its value is.
pub proof fn lemma_positive_value(x: Single)
    requires
        x.spec_is_finite(),
    ensures
        x.spec_is_positive() <==> x.fixed() > 0,
        x.is_zero() <==> x.fixed() == 0,
{
    let m: nat = x.significand();
    let p: nat = pow2((x.exponent() + 149) as nat);
    lemma_pow2_pos((x.exponent() + 149) as nat);
    assert(m == 0 <==> m * p == 0) by (nonlinear_arith)
        requires
            p > 0,
    ;
}

/// Every finite number has a floor among the binary32 numbers.
pub proof fn lemma_floor_exists(x: Single)
    requires
        x.spec_is_finite(),
    ensures
        x.has_floor(x.spec_floor()),
{
    let negative = x.spec_is_sign_negative();
    if x.biased_exponent() >= 150 {
        lemma_floor_whole(x);
        assert(x.has_floor(x));
    } else if x.biased_exponent() < 127 {
        lemma_below_one(x);
        lemma_minus_one();
        lemma_zero(negative);
        lemma_pow2_pos(149);
        if negative && !x.is_zero() {
            assert(x.has_floor(Single { bits: 0xbf80_0000 }));
        } else {
            assert(x.has_floor(Single { bits: if negative { 0x8000_0000u32 } else { 0u32 } }));
        }
    } else {
        lemma_floor_fraction_bits(x);
        let k: nat = (150 - x.biased_exponent()) as nat;
        let unit: nat = pow2(k);
        let below: nat = x.magnitude() % unit;
        let down: nat = (x.magnitude() - below) as nat;
        let r = if below == 0 {
            x
        } else if negative {
            Single { bits: (0x8000_0000 + down + unit) as u32 }
        } else {
            Single { bits: down as u32 }
        };
        assert(x.has_floor(r));
    }
}

/// A number has one floor only.
pub proof fn lemma_floor_unique(x: Single, r1: Single, r2: Single)
    requires
        x.has_floor(r1),
        x.has_floor(r2),
    ensures
        r1 == r2,
{
    if x.spec_is_finite() {
        lemma_finite_determined(r1, r2);
    }
}

/// The floor is a whole number, is not above the number, and is less than
/// one below it.
pub proof fn lemma_floor_fixed_bounds(x: int)
    ensures
        floor_fixed(x) % (fixed_one() as int) == 0,
        floor_fixed(x) <= x < floor_fixed(x) + fixed_one(),
{
    let one: int = fixed_one() as int;
    lemma_pow2_pos(149);
    lemma_fundamental_div_mod(x, one);
    vstd::arithmetic::div_mod::lemma_mod_multiples_basic(x / one, one);
    assert(one * (x / one) == (x / one) * one) by (nonlinear_arith);
}

/// Taking the floor twice is taking it once.
pub proof fn lemma_floor_fixed_idempotent(x: int)
    ensures
        floor_fixed(floor_fixed(x)) == floor_fixed(x),
{
    let one: int = fixed_one() as int;
    lemma_pow2_pos(149);
    vstd::arithmetic::div_mod::lemma_div_multiples_vanish(x / one, one);
    assert(one * (x / one) == (x / one) * one) by (nonlinear_arith);
}

/// The floor never reverses an order: where `x <= y`, so are their floors.
pub proof fn lemma_floor_fixed_monotonic(x: int, y: int)
    requires
        x <= y,
    ensures
        floor_fixed(x) <= floor_fixed(y),
{
    let one: int = fixed_one() as int;
    lemma_pow2_pos(149);
    vstd::arithmetic::div_mod::lemma_div_is_ordered(x, y, one);
    assert((x / one) * one <= (y / one) * one) by (nonlinear_arith)
        requires
            x / one <= y / one,
            one > 0,
    ;
}

impl Single {
    /// The sign bit is set.  Holds of `-0.0` too.
    pub open spec fn spec_is_sign_negative(self) -> bool {
        self.bits >= 0x8000_0000
    }

    /// The pattern without its sign bit.
    pub open spec fn magnitude(self) -> nat {
        (self.bits % 0x8000_0000) as nat
    }

    /// The eight exponent bits as a number.
    pub open spec fn biased_exponent(self) -> nat {
        self.magnitude() / 0x80_0000
    }

    /// The twenty-three fraction bits as a number.
    pub open spec fn fraction(self) -> nat {
        self.magnitude() % 0x80_0000
    }

    pub open spec fn spec_is_nan(self) -> bool {
        self.magnitude() > 0x7f80_0000
    }

    pub open spec fn spec_is_infinite(self) -> bool {
        self.magnitude() == 0x7f80_0000
    }

    /// Zero, subnormal or normal.
    pub open spec fn spec_is_finite(self) -> bool {
        self.magnitude() < 0x7f80_0000
    }

    /// Either zero.
    pub open spec fn is_zero(self) -> bool {
        self.magnitude() == 0
    }

    /// The integer `m` of a finite number `m * 2^e`, the hidden bit included.
    pub open spec fn significand(self) -> nat {
        if self.biased_exponent() == 0 {
            self.fraction()
        } else {
            self.fraction() + 0x80_0000
        }
    }

    /// The `e` of a finite number `m * 2^e`.
    pub open spec fn exponent(self) -> int {
        if self.biased_exponent() == 0 {
            -149
        } else {
            self.biased_exponent() - 150
        }
    }

    /// The value of a finite number, counted in units of `2^-149`.  Every
    /// finite binary32 number is a whole number of such units, so this is
    /// the exact value and not an approximation of it.
    pub open spec fn fixed(self) -> int {
        if self.spec_is_sign_negative() {
            -(self.units() as int)
        } else {
            self.units() as int
        }
    }

    /// The absolute value of a finite number, counted in units of `2^-149`.
    pub open spec fn units(self) -> nat {
        self.significand() * pow2((self.exponent() + 149) as nat)
    }

    /// The value is a whole number.
    pub open spec fn is_integral(self) -> bool {
        self.spec_is_finite() && self.fixed() % (fixed_one() as int) == 0
    }

    /// What `>= 0.0` answers: false of NaN, true of both zeros.
    pub open spec fn spec_is_non_negative(self) -> bool {
        !self.spec_is_nan() && (self.is_zero() || !self.spec_is_sign_negative())
    }

    /// What `> 0.0` answers: false of NaN and of both zeros.
    pub open spec fn spec_is_positive(self) -> bool {
        !self.spec_is_nan() && !self.is_zero() && !self.spec_is_sign_negative()
    }

    pub fn from_bits(bits: u32) -> (r: Single)
        ensures
            r.bits == bits,
    {
        Single { bits }
    }

    pub fn to_bits(self) -> (r: u32)
        ensures
            r == self.bits,
    {
        self.bits
    }

    #[verifier::when_used_as_spec(spec_is_sign_negative)]
    pub fn is_sign_negative(self) -> (r: bool)
        ensures
            r == self.spec_is_sign_negative(),
    {
        self.bits >= 0x8000_0000
    }

    #[verifier::when_used_as_spec(spec_is_nan)]
    pub fn is_nan(self) -> (r: bool)
        ensures
            r == self.spec_is_nan(),
    {
        self.bits % 0x8000_0000 > 0x7f80_0000
    }

    #[verifier::when_used_as_spec(spec_is_infinite)]
    pub fn is_infinite(self) -> (r: bool)
        ensures
            r == self.spec_is_infinite(),
    {
        self.bits % 0x8000_0000 == 0x7f80_0000
    }

    #[verifier::when_used_as_spec(spec_is_finite)]
    pub fn is_finite(self) -> (r: bool)
        ensures
            r == self.spec_is_finite(),
    {
        self.bits % 0x8000_0000 < 0x7f80_0000
    }

    /// `r` is the floor of `self`: the largest whole number that is not above
    /// it, with the sign of `self`; or `self`, where that is NaN or infinite.
    pub open spec fn has_floor(self, r: Single) -> bool {
        if self.spec_is_finite() {
            &&& r.spec_is_finite()
            &&& r.spec_is_sign_negative() == self.spec_is_sign_negative()
            &&& r.fixed() == floor_fixed(self.fixed())
        } else {
            r == self
        }
    }

    /// The one number that is the floor of `self`.
    pub open spec fn spec_floor(self) -> Single {
        choose|r: Single| self.has_floor(r)
    }

    /// The largest whole number that is not above `self`: rounding is
    /// towards negative infinity, never towards zero.  The sign is kept, so
    /// `-0.0` stays `-0.0` and a number in `[0, 1)` becomes `+0.0`.  NaN and
    /// the infinities come back as they are.
    #[verifier::when_used_as_spec(spec_floor)]
    pub fn floor(self) -> (r: Single)
        ensures
            self.has_floor(r),
            r == self.spec_floor(),
    {
        let r = self.floor_bits();
        proof {
            lemma_floor_unique(self, r, self.spec_floor());
        }
        r
    }

    fn floor_bits(self) -> (r: Single)
        ensures
            self.has_floor(r),
    {
        let negative: bool = self.bits >= 0x8000_0000;
        let sign: u32 = if negative { 0x8000_0000 } else { 0 };
        let magnitude: u32 = self.bits % 0x8000_0000;
        let biased: u32 = magnitude / 0x80_0000;
        if biased >= 150 {
            proof {
                if self.is_finite() {
                    lemma_floor_whole(self);
                }
            }
            self
        } else if biased < 127 {
            proof {
                lemma_below_one(self);
                lemma_minus_one();
                lemma_zero(negative);
                lemma_pow2_pos(149);
            }
            if negative && magnitude != 0 {
                Single { bits: 0xbf80_0000 }
            } else {
                Single { bits: sign }
            }
        } else {
            let k: u32 = 150 - biased;
            proof {
                lemma_floor_fraction_bits(self);
                lemma_u32_shl_is_mul(1, k);
            }
            let unit: u32 = 1u32 << k;
            let below: u32 = magnitude % unit;
            let down: u32 = magnitude - below;
            if below == 0 {
                self
            } else if negative {
                Single { bits: sign + down + unit }
            } else {
                Single { bits: down }
            }
        }
    }

    #[verifier::when_used_as_spec(spec_is_non_negative)]
    pub fn is_non_negative(self) -> (r: bool)
        ensures
            r == self.spec_is_non_negative(),
    {
        let magnitude: u32 = self.bits % 0x8000_0000;
        magnitude <= 0x7f80_0000 && (magnitude == 0 || self.bits < 0x8000_0000)
    }

    #[verifier::when_used_as_spec(spec_is_positive)]
    pub fn is_positive(self) -> (r: bool)
        ensures
            r == self.spec_is_positive(),
    {
        0 < self.bits && self.bits <= 0x7f80_0000
    }
}

} // verus!
