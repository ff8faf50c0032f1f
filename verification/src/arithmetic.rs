//! Multiplication and division of binary32 numbers, rounded to nearest with
//! ties to even, as the standard defines them.

use crate::rounding::{
    lemma_round_magnitude_ratio, lemma_round_magnitude_scale, lemma_round_scaled_exact,
    round_magnitude, round_ratio, round_scaled,
};
use crate::single::fixed_one;
use crate::single::Single;
use vstd::arithmetic::div_mod::{
    lemma_div_multiples_vanish_quotient, lemma_fundamental_div_mod_converse, lemma_truncate_middle,
};
use vstd::arithmetic::power2::{
    lemma2_to64, lemma_pow2_adds, lemma_pow2_pos, lemma_pow2_strictly_increases, pow2,
};
use vstd::bits::lemma_u32_shl_is_mul;
use vstd::prelude::*;

verus! {

/// The pattern that stands for "not a number" in every result of this
/// module: quiet, positive, with an empty payload.
pub const NAN_BITS: u32 = 0x7fc0_0000;

/// The pattern of positive infinity.
pub const INFINITY_BITS: u32 = 0x7f80_0000;

/// The sign bit of a product or a quotient, as a number.
pub open spec fn sign_bits(negative: bool) -> nat {
    if negative {
        0x8000_0000
    } else {
        0
    }
}

/// Four powers of two multiply to the power of the sum.
proof fn lemma_pow2_sum4(a: nat, b: nat, c: nat, d: nat)
    ensures
        pow2(a) * pow2(b) * pow2(c) * pow2(d) == pow2(a + b + c + d),
{
    lemma_pow2_adds(a, b);
    lemma_pow2_adds(a + b, c);
    lemma_pow2_adds(a + b + c, d);
}

/// The product of two normalized significands stands for the product of
/// the two numbers.
proof fn lemma_product_ratio(a: Single, b: Single, ma: nat, ea: int, mb: nat, eb: int, k: nat)
    requires
        ea <= a.exponent(),
        eb <= b.exponent(),
        ma == a.significand() * pow2((a.exponent() - ea) as nat),
        mb == b.significand() * pow2((b.exponent() - eb) as nat),
    ensures
        round_scaled(ma * mb, pow2(k), ea + eb + k) == round_magnitude(
            a.numerator() * b.numerator(),
            a.denominator() * b.denominator(),
        ),
{
    let q: int = ea + eb + k;
    let up: nat = if q >= 0 { q as nat } else { 0 };
    let down: nat = if q < 0 { (-q) as nat } else { 0 };
    let sa: nat = (a.exponent() - ea) as nat;
    let sb: nat = (b.exponent() - eb) as nat;
    let ua: nat = if a.exponent() >= 0 { a.exponent() as nat } else { 0 };
    let da: nat = if a.exponent() < 0 { (-a.exponent()) as nat } else { 0 };
    let ub: nat = if b.exponent() >= 0 { b.exponent() as nat } else { 0 };
    let db: nat = if b.exponent() < 0 { (-b.exponent()) as nat } else { 0 };
    let x: nat = a.significand();
    let y: nat = b.significand();
    lemma_pow2_sum4(sa, sb, up, da + db);
    lemma_pow2_sum4(ua, ub, k, down);
    lemma_pow2_adds(da, db);
    lemma_pow2_pos(da + db);
    lemma_pow2_pos(k);
    lemma_pow2_pos(down);
    let total: nat = pow2(sa + sb + up + (da + db));
    assert(sa + sb + up + (da + db) == ua + ub + k + down);
    let n1: nat = (ma * mb) * pow2(up);
    let d1: nat = pow2(k) * pow2(down);
    let n2: nat = a.numerator() * b.numerator();
    let d2: nat = a.denominator() * b.denominator();
    assert(n1 * d2 == (x * y) * total) by (nonlinear_arith)
        requires
            n1 == ((x * pow2(sa)) * (y * pow2(sb))) * pow2(up),
            d2 == pow2(da + db),
            total == pow2(sa) * pow2(sb) * pow2(up) * pow2(da + db),
    ;
    assert(n2 * d1 == (x * y) * total) by (nonlinear_arith)
        requires
            n2 == (x * pow2(ua)) * (y * pow2(ub)),
            d1 == pow2(k) * pow2(down),
            total == pow2(ua) * pow2(ub) * pow2(k) * pow2(down),
    ;
    assert(d1 > 0) by (nonlinear_arith)
        requires
            d1 == pow2(k) * pow2(down),
            pow2(k) > 0,
            pow2(down) > 0,
    ;
    lemma_round_magnitude_ratio(n1, d1, n2, d2);
}

/// The ratio of two normalized significands, the upper one doubled `c`
/// times, stands for the quotient of the two numbers.
proof fn lemma_quotient_ratio(a: Single, b: Single, ma: nat, ea: int, mb: nat, eb: int, c: nat)
    requires
        ea <= a.exponent(),
        eb <= b.exponent(),
        ma == a.significand() * pow2((a.exponent() - ea) as nat),
        mb == b.significand() * pow2((b.exponent() - eb) as nat),
        mb > 0,
    ensures
        round_scaled(ma * pow2(c), mb, ea - eb - c) == round_magnitude(
            a.numerator() * b.denominator(),
            a.denominator() * b.numerator(),
        ),
{
    let q: int = ea - eb - c;
    let up: nat = if q >= 0 { q as nat } else { 0 };
    let down: nat = if q < 0 { (-q) as nat } else { 0 };
    let sa: nat = (a.exponent() - ea) as nat;
    let sb: nat = (b.exponent() - eb) as nat;
    let ua: nat = if a.exponent() >= 0 { a.exponent() as nat } else { 0 };
    let da: nat = if a.exponent() < 0 { (-a.exponent()) as nat } else { 0 };
    let ub: nat = if b.exponent() >= 0 { b.exponent() as nat } else { 0 };
    let db: nat = if b.exponent() < 0 { (-b.exponent()) as nat } else { 0 };
    let x: nat = a.significand();
    let y: nat = b.significand();
    lemma_pow2_sum4(sa + c, up, da, ub);
    lemma_pow2_sum4(ua, db, sb, down);
    lemma_pow2_adds(sa, c);
    lemma_pow2_pos(down);
    lemma_pow2_pos(da);
    lemma_pow2_pos(ub);
    lemma_pow2_pos(sb);
    let total: nat = pow2(sa + c + up + da + ub);
    assert(sa + c + up + da + ub == ua + db + sb + down);
    let n1: nat = (ma * pow2(c)) * pow2(up);
    let d1: nat = mb * pow2(down);
    let n2: nat = a.numerator() * b.denominator();
    let d2: nat = a.denominator() * b.numerator();
    assert(n1 * d2 == (x * y) * total) by (nonlinear_arith)
        requires
            n1 == ((x * pow2(sa)) * pow2(c)) * pow2(up),
            d2 == pow2(da) * (y * pow2(ub)),
            total == pow2(sa + c) * pow2(up) * pow2(da) * pow2(ub),
            pow2(sa + c) == pow2(sa) * pow2(c),
    ;
    assert(n2 * d1 == (x * y) * total) by (nonlinear_arith)
        requires
            n2 == (x * pow2(ua)) * pow2(db),
            d1 == (y * pow2(sb)) * pow2(down),
            total == pow2(ua) * pow2(db) * pow2(sb) * pow2(down),
    ;
    assert(d1 > 0) by (nonlinear_arith)
        requires
            d1 == mb * pow2(down),
            mb > 0,
            pow2(down) > 0,
    ;
    assert(y > 0) by (nonlinear_arith)
        requires
            mb == y * pow2(sb),
            mb > 0,
    ;
    assert(d2 > 0) by (nonlinear_arith)
        requires
            d2 == pow2(da) * (y * pow2(ub)),
            y > 0,
            pow2(da) > 0,
            pow2(ub) > 0,
    ;
    lemma_round_magnitude_ratio(n1, d1, n2, d2);
}

/// Two to the power of minus `n`, for `n` up to 126.
pub open spec fn half_power(n: nat) -> Single {
    Single { bits: ((127 - n) * 0x80_0000) as u32 }
}

/// The whole number that `joins` stands for, where it is one from 0 to 126:
/// the numbers of joins whose scale factor binary32 holds exactly.
pub open spec fn whole_joins(joins: Single) -> Option<nat> {
    if joins.spec_is_finite() && joins.spec_is_non_negative() && joins.fixed() % (
    fixed_one() as int) == 0 && 0 <= joins.fixed() / (fixed_one() as int) <= 126 {
        Some((joins.fixed() / (fixed_one() as int)) as nat)
    } else {
        None
    }
}

/// A number between one and `2^23` is `m / 2^k` for `k` fraction bits.
proof fn lemma_fraction_bits_value(x: Single)
    requires
        127 <= x.biased_exponent() < 150,
        !x.spec_is_sign_negative(),
    ensures
        ({
            let unit: nat = pow2((150 - x.biased_exponent()) as nat);
            &&& unit > 0
            &&& x.fixed() / (fixed_one() as int) == x.significand() / unit
            &&& (x.fixed() % (fixed_one() as int) == 0) == (x.significand() % unit == 0)
        }),
{
    let k: nat = (150 - x.biased_exponent()) as nat;
    let unit: nat = pow2(k);
    let c: nat = pow2((149 - k) as nat);
    let m: nat = x.significand();
    lemma_pow2_pos(k);
    lemma_pow2_pos((149 - k) as nat);
    lemma_pow2_adds((149 - k) as nat, k);
    assert(fixed_one() == c * unit);
    assert(x.fixed() == m * c);
    assert(x.fixed() == c * m) by (nonlinear_arith)
        requires
            x.fixed() == m * c,
    ;
    lemma_div_multiples_vanish_quotient(c as int, m as int, unit as int);
    lemma_truncate_middle(m as int, c as int, unit as int);
    let rest: nat = m % unit;
    assert(c * rest == 0 <==> rest == 0) by (nonlinear_arith)
        requires
            c > 0,
    ;
}

/// A positive normal number times two to the power of minus `n` is that
/// number divided by `2^n`, exactly, as long as the result is normal too;
/// and one divided by two to the power of minus `n` is `2^n`, exactly.
pub proof fn lemma_halving_is_exact(x: Single, n: nat)
    requires
        n <= 126,
        x.spec_is_finite(),
        !x.spec_is_sign_negative(),
        x.biased_exponent() > n,
    ensures
        x.spec_multiply(half_power(n)).spec_is_finite(),
        !x.spec_multiply(half_power(n)).spec_is_sign_negative(),
        x.spec_multiply(half_power(n)).fixed() * pow2(n) == x.fixed(),
        (Single { bits: 0x3f80_0000 }).spec_divide(half_power(n)).spec_is_finite(),
        (Single { bits: 0x3f80_0000 }).spec_divide(half_power(n)).fixed() == pow2(n) * fixed_one(),
{
    let h = half_power(n);
    let one = Single { bits: 0x3f80_0000 };
    let m: nat = x.significand();
    let e: int = x.exponent();
    let d: nat = 0x80_0000;
    lemma2_to64();
    vstd::arithmetic::power2::lemma2_to64_rest();
    assert(h.biased_exponent() == 127 - n);
    assert(h.fraction() == 0);
    assert(h.significand() == d);
    assert(h.exponent() == -(n as int) - 23);
    assert(one.biased_exponent() == 127);
    assert(one.significand() == d);
    assert(one.exponent() == -23);
    assert(pow2(0) == 1);
    // The product.
    assert(m == m * pow2(0)) by (nonlinear_arith)
        requires
            pow2(0) == 1,
    ;
    assert(d == d * pow2(0)) by (nonlinear_arith)
        requires
            pow2(0) == 1,
    ;
    lemma_product_ratio(x, h, m, e, d, h.exponent(), 46);
    let q: int = e + h.exponent() + 46;
    let up: nat = if q >= 0 { q as nat } else { 0 };
    let down: nat = if q < 0 { (-q) as nat } else { 0 };
    lemma_pow2_pos(down);
    assert(d * pow2(down) > 0) by (nonlinear_arith)
        requires
            pow2(down) > 0,
            d > 0,
    ;
    lemma_round_magnitude_scale(m * pow2(up), d * pow2(down), d);
    assert(d * (m * pow2(up)) == (m * d) * pow2(up)) by (nonlinear_arith);
    assert(d * (d * pow2(down)) == pow2(46) * pow2(down)) by (nonlinear_arith)
        requires
            d * d == pow2(46),
    ;
    assert(round_scaled(m * d, pow2(46), q) == round_scaled(m, d, q));
    lemma_round_scaled_exact(m, q);
    let p = x.spec_multiply(h);
    let biased: nat = (x.biased_exponent() - n) as nat;
    assert(p.bits == biased * 0x80_0000 + x.fraction());
    assert(p.biased_exponent() == biased);
    assert(p.fraction() == x.fraction());
    assert(p.significand() == m);
    let low: nat = (p.exponent() + 149) as nat;
    lemma_pow2_adds(low, n);
    assert(pow2((e + 149) as nat) == pow2(low) * pow2(n));
    assert((m * pow2(low)) * pow2(n) == m * (pow2(low) * pow2(n))) by (nonlinear_arith);
    // The quotient.
    lemma_quotient_ratio(one, h, d, -23, d, h.exponent(), 0);
    lemma_round_scaled_exact(d, n as int);
    let r = one.spec_divide(h);
    assert(r.bits == (n + 127) * 0x80_0000);
    assert(r.biased_exponent() == n + 127);
    assert(r.fraction() == 0);
    lemma_pow2_adds(23, n + 126);
    lemma_pow2_adds(n, 149);
    assert(pow2(23) == d);
}

impl Single {
    /// The absolute value of a finite number is `numerator / denominator`.
    pub open spec fn numerator(self) -> nat {
        self.significand() * pow2(if self.exponent() >= 0 { self.exponent() as nat } else { 0 })
    }

    pub open spec fn denominator(self) -> nat {
        pow2(if self.exponent() < 0 { (-self.exponent()) as nat } else { 0 })
    }

    /// The product of two numbers, rounded to the nearest binary32 number
    /// with ties to even.  NaN comes of a NaN and of zero times infinity.
    pub open spec fn spec_multiply(self, rhs: Single) -> Single {
        let negative = self.spec_is_sign_negative() != rhs.spec_is_sign_negative();
        if self.spec_is_nan() || rhs.spec_is_nan() || (self.spec_is_infinite() && rhs.is_zero())
            || (self.is_zero() && rhs.spec_is_infinite()) {
            Single { bits: NAN_BITS }
        } else if self.spec_is_infinite() || rhs.spec_is_infinite() {
            Single { bits: (sign_bits(negative) + INFINITY_BITS) as u32 }
        } else {
            Single {
                bits: (sign_bits(negative) + round_magnitude(
                    self.numerator() * rhs.numerator(),
                    self.denominator() * rhs.denominator(),
                )) as u32,
            }
        }
    }

    /// The quotient of two numbers, rounded to the nearest binary32 number
    /// with ties to even.  NaN comes of a NaN, of zero by zero and of
    /// infinity by infinity; a non-zero number by zero gives infinity.
    pub open spec fn spec_divide(self, rhs: Single) -> Single {
        let negative = self.spec_is_sign_negative() != rhs.spec_is_sign_negative();
        if self.spec_is_nan() || rhs.spec_is_nan() || (self.spec_is_infinite()
            && rhs.spec_is_infinite()) || (self.is_zero() && rhs.is_zero()) {
            Single { bits: NAN_BITS }
        } else if self.spec_is_infinite() || rhs.is_zero() {
            Single { bits: (sign_bits(negative) + INFINITY_BITS) as u32 }
        } else if rhs.spec_is_infinite() {
            Single { bits: sign_bits(negative) as u32 }
        } else {
            Single {
                bits: (sign_bits(negative) + round_magnitude(
                    self.numerator() * rhs.denominator(),
                    self.denominator() * rhs.numerator(),
                )) as u32,
            }
        }
    }

    /// The product, rounded to nearest with ties to even.
    #[verifier::when_used_as_spec(spec_multiply)]
    pub fn multiply(self, rhs: Single) -> (r: Single)
        ensures
            r == self.spec_multiply(rhs),
    {
        let negative: bool = (self.bits >= 0x8000_0000) != (rhs.bits >= 0x8000_0000);
        let sign: u32 = if negative { 0x8000_0000 } else { 0 };
        let left: u32 = self.bits % 0x8000_0000;
        let right: u32 = rhs.bits % 0x8000_0000;
        if left > 0x7f80_0000 || right > 0x7f80_0000 {
            return Single { bits: NAN_BITS };
        }
        if left == 0x7f80_0000 || right == 0x7f80_0000 {
            if left == 0 || right == 0 {
                return Single { bits: NAN_BITS };
            }
            return Single { bits: sign + INFINITY_BITS };
        }
        if left == 0 || right == 0 {
            proof {
                let n: nat = self.numerator() * rhs.numerator();
                assert(n == 0) by (nonlinear_arith)
                    requires
                        n == (self.significand() * pow2(
                            if self.exponent() >= 0 { self.exponent() as nat } else { 0 },
                        )) * (rhs.significand() * pow2(
                            if rhs.exponent() >= 0 { rhs.exponent() as nat } else { 0 },
                        )),
                        self.significand() == 0 || rhs.significand() == 0,
                ;
            }
            return Single { bits: sign };
        }
        let (ma, ea) = self.normalized();
        let (mb, eb) = rhs.normalized();
        assert(0x4000_0000_0000 <= ma * mb < 0x1_0000_0000_0000) by (nonlinear_arith)
            requires
                0x80_0000 <= ma < 0x100_0000,
                0x80_0000 <= mb < 0x100_0000,
        ;
        let product: u64 = ma * mb;
        proof {
            lemma2_to64();
            vstd::arithmetic::power2::lemma2_to64_rest();
        }
        let magnitude: u32 = if product >= 0x8000_0000_0000 {
            proof {
                lemma_product_ratio(self, rhs, ma as nat, ea as int, mb as nat, eb as int, 47);
            }
            round_ratio(product, 0x8000_0000_0000, ea + eb + 47)
        } else {
            proof {
                lemma_product_ratio(self, rhs, ma as nat, ea as int, mb as nat, eb as int, 46);
            }
            round_ratio(product, 0x4000_0000_0000, ea + eb + 46)
        };
        Single { bits: sign + magnitude }
    }

    /// The quotient, rounded to nearest with ties to even.
    #[verifier::when_used_as_spec(spec_divide)]
    pub fn divide(self, rhs: Single) -> (r: Single)
        ensures
            r == self.spec_divide(rhs),
    {
        let negative: bool = (self.bits >= 0x8000_0000) != (rhs.bits >= 0x8000_0000);
        let sign: u32 = if negative { 0x8000_0000 } else { 0 };
        let left: u32 = self.bits % 0x8000_0000;
        let right: u32 = rhs.bits % 0x8000_0000;
        if left > 0x7f80_0000 || right > 0x7f80_0000 {
            return Single { bits: NAN_BITS };
        }
        if (left == 0x7f80_0000 && right == 0x7f80_0000) || (left == 0 && right == 0) {
            return Single { bits: NAN_BITS };
        }
        if left == 0x7f80_0000 || right == 0 {
            return Single { bits: sign + INFINITY_BITS };
        }
        if right == 0x7f80_0000 {
            return Single { bits: sign };
        }
        if left == 0 {
            proof {
                let n: nat = self.numerator() * rhs.denominator();
                assert(n == 0) by (nonlinear_arith)
                    requires
                        n == (self.significand() * pow2(
                            if self.exponent() >= 0 { self.exponent() as nat } else { 0 },
                        )) * rhs.denominator(),
                        self.significand() == 0,
                ;
            }
            return Single { bits: sign };
        }
        let (ma, ea) = self.normalized();
        let (mb, eb) = rhs.normalized();
        proof {
            lemma2_to64();
        }
        let magnitude: u32 = if ma >= mb {
            proof {
                lemma_quotient_ratio(self, rhs, ma as nat, ea as int, mb as nat, eb as int, 0);
                assert(ma as nat * pow2(0) == ma) by (nonlinear_arith)
                    requires
                        pow2(0) == 1,
                ;
            }
            round_ratio(ma, mb, ea - eb)
        } else {
            proof {
                lemma_quotient_ratio(self, rhs, ma as nat, ea as int, mb as nat, eb as int, 1);
                assert(ma as nat * pow2(1) == 2 * ma) by (nonlinear_arith)
                    requires
                        pow2(1) == 2,
                ;
            }
            round_ratio(2 * ma, mb, ea - eb - 1)
        };
        Single { bits: sign + magnitude }
    }

    /// Two to the power of minus `self`, where binary32 holds it exactly:
    /// for the whole numbers from 0 to 126, either zero included.  For
    /// every other number of joins the power is not a matter of bits, and
    /// the caller takes it from the machine.
    pub fn exact_scale_factor(self) -> (r: Option<Single>)
        ensures
            whole_joins(self) is None ==> r is None,
            whole_joins(self) matches Some(n) ==> r == Some(half_power(n)),
    {
        let magnitude: u32 = self.bits % 0x8000_0000;
        proof {
            if self.spec_is_finite() {
                crate::single::lemma_positive_value(self);
            }
            lemma2_to64();
            lemma_pow2_pos(149);
        }
        if magnitude == 0 {
            proof {
                lemma_fundamental_div_mod_converse(0, fixed_one() as int, 0, 0);
            }
            return Some(Single { bits: 0x3f80_0000 });
        }
        if self.bits >= 0x8000_0000 {
            return None;
        }
        let biased: u32 = magnitude / 0x80_0000;
        if biased < 127 {
            proof {
                crate::single::lemma_below_one_bounds(self);
                lemma_fundamental_div_mod_converse(
                    self.fixed(),
                    fixed_one() as int,
                    0,
                    self.fixed(),
                );
            }
            return None;
        }
        if biased > 133 {
            proof {
                if self.spec_is_finite() {
                    let e: nat = (self.exponent() + 149) as nat;
                    let m: nat = self.significand();
                    lemma_pow2_adds(23, 133);
                    lemma_pow2_adds(7, 149);
                    lemma_pow2_pos(e);
                    if e > 133 {
                        lemma_pow2_strictly_increases(133, e);
                    }
                    assert(m * pow2(e) >= pow2(23) * pow2(133)) by (nonlinear_arith)
                        requires
                            m >= pow2(23),
                            pow2(e) >= pow2(133),
                    ;
                    assert(self.fixed() >= 128 * fixed_one());
                    vstd::arithmetic::div_mod::lemma_div_is_ordered(
                        (128 * fixed_one()) as int,
                        self.fixed(),
                        fixed_one() as int,
                    );
                    vstd::arithmetic::div_mod::lemma_div_multiples_vanish(128, fixed_one() as int);
                    assert(128 * fixed_one() == fixed_one() * 128) by (nonlinear_arith);
                }
            }
            return None;
        }
        let k: u32 = 150 - biased;
        proof {
            lemma_fraction_bits_value(self);
            lemma_pow2_strictly_increases(k as nat, 24);
            lemma_u32_shl_is_mul(1, k);
        }
        let unit: u32 = 1u32 << k;
        let significand: u32 = magnitude % 0x80_0000 + 0x80_0000;
        if significand % unit != 0 {
            return None;
        }
        let n: u32 = significand / unit;
        proof {
            lemma_pow2_strictly_increases(16, k as nat);
            vstd::arithmetic::div_mod::lemma_fundamental_div_mod(significand as int, unit as int);
            assert(n < 128) by (nonlinear_arith)
                requires
                    significand == unit * n + significand % unit,
                    significand % unit >= 0,
                    significand < 0x100_0000,
                    unit >= 0x2_0000,
            ;
        }
        if n > 126 {
            return None;
        }
        Some(Single { bits: (127 - n) * 0x80_0000 })
    }

    /// The significand with its leading bit moved to place twenty-three,
    /// and the exponent that keeps the value.
    fn normalized(self) -> (r: (u64, i32))
        requires
            self.spec_is_finite(),
            !self.is_zero(),
        ensures
            0x80_0000 <= r.0 < 0x100_0000,
            -172 <= r.1 <= self.exponent() <= 104,
            r.0 == self.significand() * pow2((self.exponent() - r.1) as nat),
    {
        let magnitude: u32 = self.bits % 0x8000_0000;
        let biased: u32 = magnitude / 0x80_0000;
        let fraction: u32 = magnitude % 0x80_0000;
        proof {
            lemma2_to64();
        }
        if biased != 0 {
            let m: u64 = (fraction + 0x80_0000) as u64;
            assert(m == self.significand() * pow2(0)) by (nonlinear_arith)
                requires
                    m == self.significand(),
                    pow2(0) == 1,
            ;
            (m, biased as i32 - 150)
        } else {
            let mut m: u64 = fraction as u64;
            let mut e: i32 = -149;
            assert(m == self.significand() * pow2(0)) by (nonlinear_arith)
                requires
                    m == self.significand(),
                    pow2(0) == 1,
            ;
            while m < 0x80_0000
                invariant
                    0 < m < 0x100_0000,
                    self.exponent() == -149,
                    -149 - 23 <= e <= -149,
                    m == self.significand() * pow2((-149 - e) as nat),
                    0 < self.significand() < 0x80_0000,
                decreases e + 172,
            {
                proof {
                    let k: nat = (-149 - e) as nat;
                    lemma2_to64();
                    lemma_pow2_adds(1, k);
                    lemma_pow2_pos(k);
                    // Twenty-three doublings bring any significand to place.
                    if k >= 23 {
                        if k > 23 {
                            vstd::arithmetic::power2::lemma_pow2_strictly_increases(23, k);
                        }
                        assert(self.significand() * pow2(k) >= 0x80_0000) by (nonlinear_arith)
                            requires
                                self.significand() >= 1,
                                pow2(k) >= 0x80_0000,
                        ;
                    }
                    assert(2 * m == self.significand() * pow2(1 + k)) by (nonlinear_arith)
                        requires
                            m == self.significand() * pow2(k),
                            pow2(1 + k) == 2 * pow2(k),
                    ;
                }
                m = 2 * m;
                e = e - 1;
            }
            (m, e)
        }
    }
}

} // verus!
