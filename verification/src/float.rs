//! IEEE 754 binary64 arithmetic carried out on bit patterns held in `u64`,
//! implemented in integer arithmetic alone and verified. The value model:
//! a finite pattern with biased exponent `e` (adjusted to 1 for subnormals)
//! and significand `m` (hidden bit included for normals) denotes
//! `(-1)^sign * m * 2^(e - 1075)`.
//!
//! Results are rounded to nearest, ties to even. Operations on or producing
//! a NaN return the canonical quiet NaN pattern.
use vstd::prelude::*;
use vstd::arithmetic::power2::*;
use vstd::arithmetic::mul::lemma_mul_inequality;

verus! {

/// 2^63, the sign bit.
pub const SIGN_BIT: u64 = 0x8000_0000_0000_0000;

/// 2^52, the place of the biased exponent field and the hidden bit.
pub const EXP_UNIT: u64 = 0x10_0000_0000_0000;

/// The canonical quiet NaN pattern.
pub const CANONICAL_NAN: u64 = 0x7ff8_0000_0000_0000;

pub open spec fn f_sign(b: u64) -> bool {
    b / SIGN_BIT == 1
}

/// The raw biased exponent field, 0 through 2047.
pub open spec fn f_bexp(b: u64) -> u64 {
    (b / EXP_UNIT) % 0x800
}

/// The raw 52-bit fraction field.
pub open spec fn f_frac(b: u64) -> u64 {
    b % EXP_UNIT
}

pub open spec fn f_is_nan(b: u64) -> bool {
    f_bexp(b) == 0x7ff && f_frac(b) != 0
}

pub open spec fn f_is_inf(b: u64) -> bool {
    f_bexp(b) == 0x7ff && f_frac(b) == 0
}

pub open spec fn f_is_finite(b: u64) -> bool {
    f_bexp(b) != 0x7ff
}

pub open spec fn f_is_zero(b: u64) -> bool {
    f_bexp(b) == 0 && f_frac(b) == 0
}

/// The significand of a finite pattern, hidden bit included for normals.
pub open spec fn f_mant(b: u64) -> u64 {
    if f_bexp(b) == 0 {
        f_frac(b)
    } else {
        (EXP_UNIT + f_frac(b)) as u64
    }
}

/// The exponent of a finite pattern at significand scale: the value denoted
/// is `(-1)^sign * f_mant(b) * 2^(f_eexp(b) - 1075)`.
pub open spec fn f_eexp(b: u64) -> u64 {
    if f_bexp(b) == 0 {
        1
    } else {
        f_bexp(b)
    }
}

/// The value denoted by a finite pattern, scaled by 2^1075 to stay integral.
pub open spec fn f_scaled_value(b: u64) -> int
    recommends
        f_is_finite(b),
{
    let mag = f_mant(b) * pow2(f_eexp(b) as nat);
    if f_sign(b) {
        -mag
    } else {
        mag
    }
}

/// Assembles a pattern from its three fields, by plain arithmetic.
pub open spec fn spec_assemble(sign: bool, bexp: u64, frac: u64) -> u64
    recommends
        bexp < 0x800,
        frac < EXP_UNIT,
{
    ((if sign {
        SIGN_BIT
    } else {
        0
    }) + bexp * EXP_UNIT + frac) as u64
}

pub fn assemble(sign: bool, bexp: u64, frac: u64) -> (r: u64)
    requires
        bexp < 0x800,
        frac < EXP_UNIT,
    ensures
        r == spec_assemble(sign, bexp, frac),
        f_sign(r) == sign,
        f_bexp(r) == bexp,
        f_frac(r) == frac,
{
    let base: u64 = if sign {
        SIGN_BIT
    } else {
        0
    };
    let r = base + bexp * EXP_UNIT + frac;
    proof {
        assert(f_sign(r) == sign && f_bexp(r) == bexp && f_frac(r) == frac) by (nonlinear_arith)
            requires
                r == (if sign { SIGN_BIT } else { 0u64 }) + bexp * EXP_UNIT + frac,
                bexp < 0x800,
                frac < EXP_UNIT,
        ;
    }
    r
}

pub fn f_sign_exec(b: u64) -> (r: bool)
    ensures
        r == f_sign(b),
{
    b / SIGN_BIT == 1
}

pub fn f_bexp_exec(b: u64) -> (r: u64)
    ensures
        r == f_bexp(b),
{
    (b / EXP_UNIT) % 0x800
}

pub fn f_frac_exec(b: u64) -> (r: u64)
    ensures
        r == f_frac(b),
{
    b % EXP_UNIT
}

/// Negation: flips the sign and keeps the magnitude fields, exact for every
/// pattern, NaN included.
pub open spec fn spec_negate_bits(b: u64) -> u64 {
    if b >= SIGN_BIT {
        (b - SIGN_BIT) as u64
    } else {
        (b + SIGN_BIT) as u64
    }
}

pub fn negate_bits(b: u64) -> (r: u64)
    ensures
        r == spec_negate_bits(b),
        f_sign(r) == !f_sign(b),
        f_bexp(r) == f_bexp(b),
        f_frac(r) == f_frac(b),
{
    if b >= SIGN_BIT {
        b - SIGN_BIT
    } else {
        b + SIGN_BIT
    }
}

/// Negating twice gives the same pattern back.
pub proof fn lemma_negate_involution(b: u64)
    ensures
        spec_negate_bits(spec_negate_bits(b)) == b,
{
}

/// The conversion of a 32-bit integer: exact, since every such magnitude
/// fits in the 53-bit significand.
pub fn from_i32_bits(i: i32) -> (r: u64)
    ensures
        r == spec_from_i32(i as int),
        f_is_finite(r),
        i == 0 ==> r == 0,
        i != 0 ==> f_scaled_value(r) == i * pow2(1075),
        f_sign(r) == (i < 0),
{
    if i == 0 {
        return 0u64;
    }
    let neg = i < 0;
    let mag64: u64 = if i < 0 {
        (-(i as i64)) as u64
    } else {
        i as u64
    };
    let mut m: u64 = mag64;
    let mut e: u64 = 1075;
    proof {
        lemma_pow2_vals();
        assert(mag64 * pow2(0) == mag64 * 1 == mag64) by (nonlinear_arith)
            requires
                pow2(0) == 1,
        ;
    }
    while m < EXP_UNIT
        invariant
            1 <= m,
            m < 2 * EXP_UNIT,
            1023 <= e <= 1075,
            m == mag64 * pow2((1075 - e) as nat),
            1 <= mag64 < 2 * EXP_UNIT,
            spec_norm_mant(m as int, e as int) == spec_norm_mant(mag64 as int, 1075),
        decreases 2 * EXP_UNIT - m,
    {
        proof {
            lemma_pow2_vals();
            lemma_pow2_unfold((1075 - e + 1) as nat);
            assert(2 * (mag64 * pow2((1075 - e) as nat)) == mag64 * (2 * pow2((1075 - e) as nat)))
                by (nonlinear_arith);
            if e - 1 < 1023 {
                assert(pow2((1075 - (e - 1)) as nat) >= pow2(53)) by {
                    if 53 < 1075 - (e - 1) {
                        lemma_pow2_strictly_increases(53, (1075 - (e - 1)) as nat);
                    }
                }
                assert(mag64 * pow2((1075 - (e - 1)) as nat) >= 1 * pow2(53)) by (nonlinear_arith)
                    requires
                        mag64 >= 1,
                        pow2((1075 - (e - 1)) as nat) >= pow2(53),
                ;
                assert(false);
            }
        }
        m = m * 2;
        e = e - 1;
    }
    let r = assemble(neg, e, m - EXP_UNIT);
    proof {
        assert(f_mant(r) == m && f_eexp(r) == e);
        assert(f_scaled_value(r) == if neg {
            -(m * pow2(e as nat))
        } else {
            m * pow2(e as nat)
        });
        lemma_pow2_adds((1075 - e) as nat, e as nat);
        assert((mag64 * pow2((1075 - e) as nat)) * pow2(e as nat) == mag64 * (pow2((1075
            - e) as nat) * pow2(e as nat))) by (nonlinear_arith);
        if neg {
            assert(mag64 == -(i as int));
            assert((-(i as int)) * pow2(1075) == -(i * pow2(1075))) by (nonlinear_arith);
        }
    }
    r
}

/// The concrete values of the powers of two that the significand field
/// bounds rest on.
pub proof fn lemma_pow2_vals()
    ensures
        pow2(0) == 1,
        pow2(52) == EXP_UNIT,
        pow2(53) == 2 * EXP_UNIT,
        pow2(63) == SIGN_BIT,
{
    lemma2_to64();
    lemma2_to64_rest();
}


/// Repeated doubling of the numerator until it reaches the denominator,
/// lowering the exponent in step; the rational value `(num/den) * 2^e` is kept.
pub open spec fn spec_norm_down(num: int, den: int, e: int) -> (int, int)
    decreases (if num < den { den - num } else { 0 }),
        when 1 <= num && 1 <= den
{
    if num < den {
        spec_norm_down(2 * num, den, e - 1)
    } else {
        (num, e)
    }
}

/// Repeated doubling of the denominator until the quotient falls below two,
/// raising the exponent in step; the rational value `(num/den) * 2^e` is kept.
pub open spec fn spec_norm_up(num: int, den: int, e: int) -> (int, int)
    decreases (if 2 * den <= num { num - den } else { 0 }),
        when 1 <= num && 1 <= den
{
    if 2 * den <= num {
        spec_norm_up(num, 2 * den, e + 1)
    } else {
        (den, e)
    }
}

/// Long division, bit by bit: shifts `k` further quotient bits of `rem/den`
/// into `acc` and returns the accumulator with the remainder.
pub open spec fn spec_take_bits(acc: int, rem: int, den: int, k: nat) -> (int, int)
    decreases k,
{
    if k == 0 {
        (acc, rem)
    } else if 2 * rem >= den {
        spec_take_bits(2 * acc + 1, 2 * rem - den, den, (k - 1) as nat)
    } else {
        spec_take_bits(2 * acc, 2 * rem, den, (k - 1) as nat)
    }
}

/// The nearest binary64 pattern to a value just at or — when `sticky` is
/// set — just above `(num0/den0) * 2^(e0)`, ties to even: the significand is
/// found by long division, then rounded, the sticky marker standing for
/// discarded low bits that break a tie upward; magnitudes beyond the largest
/// finite value give infinity, magnitudes below half the smallest subnormal
/// give zero.
pub open spec fn spec_round_rational_sticky(
    neg: bool,
    num0: int,
    den0: int,
    e0: int,
    sticky: bool,
) -> u64
    recommends
        1 <= num0,
        1 <= den0,
{
    let nd = spec_norm_down(num0, den0, e0);
    let du = spec_norm_up(nd.0, den0, nd.1);
    let num = nd.0;
    let den = du.0;
    let e = du.1;
    if e > 1023 {
        spec_assemble(neg, 0x7ff, 0)
    } else if e < -1075 {
        spec_assemble(neg, 0, 0)
    } else if e == -1075 {
        if num == den && !sticky {
            spec_assemble(neg, 0, 0)
        } else {
            spec_assemble(neg, 0, 1)
        }
    } else {
        let t: int = if e >= -1022 {
            53
        } else {
            1075 + e
        };
        let ar = spec_take_bits(1, num - den, den, (t - 1) as nat);
        let acc = ar.0;
        let rem = ar.1;
        let up = 2 * rem > den || (2 * rem == den && (sticky || acc % 2 == 1));
        let acc2 = if up {
            acc + 1
        } else {
            acc
        };
        if t == 53 {
            if acc2 == 2 * EXP_UNIT {
                if e + 1 > 1023 {
                    spec_assemble(neg, 0x7ff, 0)
                } else {
                    spec_assemble(neg, (e + 1024) as u64, 0)
                }
            } else {
                spec_assemble(neg, (e + 1023) as u64, (acc2 - EXP_UNIT) as u64)
            }
        } else {
            if acc2 >= EXP_UNIT {
                spec_assemble(neg, 1, 0)
            } else {
                spec_assemble(neg, 0, acc2 as u64)
            }
        }
    }
}


/// The nearest binary64 pattern to the exact rational `(num0/den0) * 2^(e0)`,
/// ties to even.
pub open spec fn spec_round_rational(neg: bool, num0: int, den0: int, e0: int) -> u64
    recommends
        1 <= num0,
        1 <= den0,
{
    spec_round_rational_sticky(neg, num0, den0, e0, false)
}

/// 2^126, the headroom bound on the rationals handed to rounding.
pub const NUM_LIMIT: u128 = 0x4000_0000_0000_0000_0000_0000_0000_0000;

/// Rounds `(num0/den0) * 2^e0` to the nearest binary64 pattern, ties to
/// even; a set `sticky` stands for a value just above the given rational.
pub fn round_rational_sticky(neg: bool, num0: u128, den0: u128, e0: i32, sticky: bool) -> (r: u64)
    requires
        1 <= num0 < NUM_LIMIT,
        1 <= den0 < NUM_LIMIT,
        -100_000 <= e0 <= 100_000,
    ensures
        r == spec_round_rational_sticky(neg, num0 as int, den0 as int, e0 as int, sticky),
{
    let mut num: u128 = num0;
    let mut e: i32 = e0;
    proof {
        lemma2_to64();
    }
    while num < den0
        invariant
            1 <= num < 2 * NUM_LIMIT,
            1 <= den0 < NUM_LIMIT,
            -100_000 <= e0 <= 100_000,
            e <= e0,
            e0 - 127 <= e,
            num >= pow2((e0 - e) as nat),
            spec_norm_down(num as int, den0 as int, e as int) == spec_norm_down(
                num0 as int,
                den0 as int,
                e0 as int,
            ),
        decreases (if num < den0 { den0 - num } else { 0int }),
    {
        proof {
            lemma_pow2_unfold((e0 - e + 1) as nat);
            if e0 - (e - 1) > 127 {
                lemma_pow2_127();
                lemma_pow2_strictly_increases(127, (e0 - e + 1) as nat);
                assert(false);
            }
        }
        num = num * 2;
        e = e - 1;
    }
    let ghost e_mid = e as int;
    let mut den: u128 = den0;
    proof {
        lemma2_to64();
    }
    while num / 2 >= den
        invariant
            1 <= den <= num < 2 * NUM_LIMIT,
            e_mid <= e,
            e <= e_mid + 127,
            den >= pow2((e - e_mid) as nat),
            spec_norm_up(num as int, den as int, e as int) == spec_norm_up(
                num as int,
                den0 as int,
                e_mid,
            ),
            spec_norm_down(num0 as int, den0 as int, e0 as int) == (num as int, e_mid),
            -100_127 <= e_mid <= 100_000,
        decreases (if 2 * den <= num { num - den } else { 0int }),
    {
        proof {
            lemma_pow2_unfold((e - e_mid + 1) as nat);
            if e + 1 - e_mid > 127 {
                lemma_pow2_127();
                lemma_pow2_strictly_increases(127, (e - e_mid + 1) as nat);
                assert(false);
            }
        }
        den = den * 2;
        e = e + 1;
    }
    proof {
        assert(den <= num < 2 * den);
        assert(spec_norm_up(num as int, den0 as int, e_mid) == (den as int, e as int));
    }
    if e > 1023 {
        return assemble(neg, 0x7ff, 0);
    }
    if e < -1075 {
        return assemble(neg, 0, 0);
    }
    if e == -1075 {
        if num == den && !sticky {
            return assemble(neg, 0, 0);
        } else {
            return assemble(neg, 0, 1);
        }
    }
    let t: i32 = if e >= -1022 {
        53
    } else {
        1075 + e
    };
    let mut acc: u64 = 1;
    let mut rem: u128 = num - den;
    let mut j: i32 = 1;
    proof {
        lemma_pow2_vals();
        lemma2_to64();
    }
    while j < t
        invariant
            1 <= j <= t <= 53,
            1 <= den < 2 * NUM_LIMIT,
            rem < den,
            pow2((j - 1) as nat) <= acc,
            acc < pow2(j as nat),
            pow2(53) == 2 * EXP_UNIT,
            spec_take_bits(acc as int, rem as int, den as int, (t - j) as nat) == spec_take_bits(
                1,
                num as int - den as int,
                den as int,
                (t - 1) as nat,
            ),
        decreases t - j,
    {
        proof {
            lemma_pow2_unfold(j as nat);
            lemma_pow2_unfold((j + 1) as nat);
            lemma_pow2_vals();
            if j + 1 < 53 {
                lemma_pow2_strictly_increases((j + 1) as nat, 53);
            }
        }
        let r2 = rem * 2;
        if r2 >= den {
            acc = acc * 2 + 1;
            rem = r2 - den;
        } else {
            acc = acc * 2;
            rem = r2;
        }
        j = j + 1;
    }
    proof {
        lemma_pow2_vals();
        if t < 53 {
            lemma_pow2_strictly_increases(t as nat, 53);
        }
        if 1 < t {
            lemma_pow2_strictly_increases((t - 1) as nat, t as nat);
        }
        lemma_pow2_unfold(53);
    }
    let r2 = rem * 2;
    let up = r2 > den || (r2 == den && (sticky || acc % 2 == 1));
    let acc2: u64 = if up {
        acc + 1
    } else {
        acc
    };
    if t == 53 {
        if acc2 == 2 * EXP_UNIT {
            if e + 1 > 1023 {
                assemble(neg, 0x7ff, 0)
            } else {
                assemble(neg, (e + 1024) as u64, 0)
            }
        } else {
            assemble(neg, (e + 1023) as u64, acc2 - EXP_UNIT)
        }
    } else {
        if acc2 >= EXP_UNIT {
            assemble(neg, 1, 0)
        } else {
            assemble(neg, 0, acc2)
        }
    }
}

/// Rounds the exact rational `(num0/den0) * 2^e0` to the nearest binary64
/// pattern, ties to even.
pub fn round_rational(neg: bool, num0: u128, den0: u128, e0: i32) -> (r: u64)
    requires
        1 <= num0 < NUM_LIMIT,
        1 <= den0 < NUM_LIMIT,
        -100_000 <= e0 <= 100_000,
    ensures
        r == spec_round_rational(neg, num0 as int, den0 as int, e0 as int),
{
    round_rational_sticky(neg, num0, den0, e0, false)
}

/// The concrete value of 2^127, which bounds the rounding work space.
pub proof fn lemma_pow2_127()
    ensures
        pow2(127) == 2 * (NUM_LIMIT as nat),
{
    lemma2_to64();
    lemma2_to64_rest();
    lemma_pow2_adds(64, 63);
}


/// The positive-zero pattern or the negative-zero pattern.
pub open spec fn spec_zero_bits(sign: bool) -> u64 {
    spec_assemble(sign, 0, 0)
}

/// The positive-infinity pattern or the negative-infinity pattern.
pub open spec fn spec_inf_bits(sign: bool) -> u64 {
    spec_assemble(sign, 0x7ff, 0)
}

/// The product of two patterns, rounded to nearest, ties to even.
pub open spec fn spec_mul_bits(a: u64, b: u64) -> u64 {
    let s = f_sign(a) != f_sign(b);
    if f_is_nan(a) || f_is_nan(b) {
        CANONICAL_NAN
    } else if f_is_inf(a) || f_is_inf(b) {
        if f_is_zero(a) || f_is_zero(b) {
            CANONICAL_NAN
        } else {
            spec_inf_bits(s)
        }
    } else if f_is_zero(a) || f_is_zero(b) {
        spec_zero_bits(s)
    } else {
        spec_round_rational(
            s,
            f_mant(a) * f_mant(b),
            1,
            f_eexp(a) + f_eexp(b) - 2150,
        )
    }
}

/// The quotient of two patterns, rounded to nearest, ties to even.
pub open spec fn spec_div_bits(a: u64, b: u64) -> u64 {
    let s = f_sign(a) != f_sign(b);
    if f_is_nan(a) || f_is_nan(b) {
        CANONICAL_NAN
    } else if f_is_inf(a) {
        if f_is_inf(b) {
            CANONICAL_NAN
        } else {
            spec_inf_bits(s)
        }
    } else if f_is_inf(b) {
        spec_zero_bits(s)
    } else if f_is_zero(a) {
        if f_is_zero(b) {
            CANONICAL_NAN
        } else {
            spec_zero_bits(s)
        }
    } else if f_is_zero(b) {
        spec_inf_bits(s)
    } else {
        spec_round_rational(s, f_mant(a) as int, f_mant(b) as int, f_eexp(a) - f_eexp(b))
    }
}

/// Splits a finite pattern into sign, exponent and significand.
fn unpack(x: u64) -> (r: (bool, u64, u64))
    requires
        f_is_finite(x),
    ensures
        r.0 == f_sign(x),
        r.1 == f_eexp(x),
        r.2 == f_mant(x),
        1 <= r.1 <= 2046,
        r.2 < 2 * EXP_UNIT,
{
    let sign = f_sign_exec(x);
    let bexp = f_bexp_exec(x);
    let frac = f_frac_exec(x);
    if bexp == 0 {
        (sign, 1, frac)
    } else {
        (sign, bexp, EXP_UNIT + frac)
    }
}

fn is_nan_exec(x: u64) -> (r: bool)
    ensures
        r == f_is_nan(x),
{
    f_bexp_exec(x) == 0x7ff && f_frac_exec(x) != 0
}

fn is_inf_exec(x: u64) -> (r: bool)
    ensures
        r == f_is_inf(x),
{
    f_bexp_exec(x) == 0x7ff && f_frac_exec(x) == 0
}

fn is_zero_exec(x: u64) -> (r: bool)
    ensures
        r == f_is_zero(x),
{
    f_bexp_exec(x) == 0 && f_frac_exec(x) == 0
}

/// Multiplication on bit patterns: the exact product of the significands is
/// rounded once.
pub fn mul_bits(a: u64, b: u64) -> (r: u64)
    ensures
        r == spec_mul_bits(a, b),
{
    let s = f_sign_exec(a) != f_sign_exec(b);
    if is_nan_exec(a) || is_nan_exec(b) {
        return CANONICAL_NAN;
    }
    if is_inf_exec(a) || is_inf_exec(b) {
        if is_zero_exec(a) || is_zero_exec(b) {
            return CANONICAL_NAN;
        }
        return assemble(s, 0x7ff, 0);
    }
    if is_zero_exec(a) || is_zero_exec(b) {
        return assemble(s, 0, 0);
    }
    let (_, ea, ma) = unpack(a);
    let (_, eb, mb) = unpack(b);
    proof {
        assert((ma as int) * (mb as int) >= 1 * 1) by (nonlinear_arith)
            requires
                ma >= 1,
                mb >= 1,
        ;
        assert((ma as int) * (mb as int) < NUM_LIMIT) by (nonlinear_arith)
            requires
                ma < 2 * (EXP_UNIT as int),
                mb < 2 * (EXP_UNIT as int),
                4 * (EXP_UNIT as int) * (EXP_UNIT as int) <= (NUM_LIMIT as int),
        ;
    }
    let num: u128 = (ma as u128) * (mb as u128);
    let e0: i32 = (ea as i32) + (eb as i32) - 2150;
    round_rational(s, num, 1, e0)
}

/// Division on bit patterns: the exact rational quotient of the significands
/// is rounded once.
pub fn div_bits(a: u64, b: u64) -> (r: u64)
    ensures
        r == spec_div_bits(a, b),
{
    let s = f_sign_exec(a) != f_sign_exec(b);
    if is_nan_exec(a) || is_nan_exec(b) {
        return CANONICAL_NAN;
    }
    if is_inf_exec(a) {
        if is_inf_exec(b) {
            return CANONICAL_NAN;
        }
        return assemble(s, 0x7ff, 0);
    }
    if is_inf_exec(b) {
        return assemble(s, 0, 0);
    }
    if is_zero_exec(a) {
        if is_zero_exec(b) {
            return CANONICAL_NAN;
        }
        return assemble(s, 0, 0);
    }
    if is_zero_exec(b) {
        return assemble(s, 0x7ff, 0);
    }
    let (_, ea, ma) = unpack(a);
    let (_, eb, mb) = unpack(b);
    round_rational(s, ma as u128, mb as u128, (ea as i32) - (eb as i32))
}


/// The sum of two finite nonzero patterns where `a` has the not-smaller
/// exponent: the significands are aligned exactly up to a shift of 60; a
/// smaller addend beyond that shift moves the sum off every rounding
/// boundary in the same direction, which one unit in the last place of the
/// work space records faithfully.
pub open spec fn spec_add_ordered(a: u64, b: u64) -> u64 {
    let ea = f_eexp(a) as int;
    let eb = f_eexp(b) as int;
    let d0 = ea - eb;
    let d: int = if d0 > 60 {
        60
    } else {
        d0
    };
    let ms: int = if d0 > 60 {
        1
    } else {
        f_mant(b) as int
    };
    let big = f_mant(a) * pow2(d as nat);
    if f_sign(a) == f_sign(b) {
        spec_round_rational(f_sign(a), big + ms, 1, ea - d - 1075)
    } else {
        if big > ms {
            spec_round_rational(f_sign(a), big - ms, 1, ea - d - 1075)
        } else if big < ms {
            spec_round_rational(f_sign(b), ms - big, 1, ea - d - 1075)
        } else {
            spec_zero_bits(false)
        }
    }
}

/// The sum of two patterns, rounded to nearest, ties to even.
pub open spec fn spec_add_bits(a: u64, b: u64) -> u64 {
    if f_is_nan(a) || f_is_nan(b) {
        CANONICAL_NAN
    } else if f_is_inf(a) && f_is_inf(b) {
        if f_sign(a) == f_sign(b) {
            a
        } else {
            CANONICAL_NAN
        }
    } else if f_is_inf(a) {
        a
    } else if f_is_inf(b) {
        b
    } else if f_is_zero(a) && f_is_zero(b) {
        spec_zero_bits(f_sign(a) && f_sign(b))
    } else if f_is_zero(a) {
        b
    } else if f_is_zero(b) {
        a
    } else if f_eexp(a) >= f_eexp(b) {
        spec_add_ordered(a, b)
    } else {
        spec_add_ordered(b, a)
    }
}

/// The difference of two patterns: the sum with the second negated, which is
/// how the difference is defined.
pub open spec fn spec_sub_bits(a: u64, b: u64) -> u64 {
    spec_add_bits(a, spec_negate_bits(b))
}

fn add_ordered(a: u64, b: u64) -> (r: u64)
    requires
        f_is_finite(a),
        f_is_finite(b),
        !f_is_zero(a),
        !f_is_zero(b),
        f_eexp(a) >= f_eexp(b),
    ensures
        r == spec_add_ordered(a, b),
{
    let (sa, ea, ma) = unpack(a);
    let (sb, eb, mb) = unpack(b);
    let d0: u64 = ea - eb;
    let d: u64 = if d0 > 60 {
        60
    } else {
        d0
    };
    let ms: u128 = if d0 > 60 {
        1
    } else {
        mb as u128
    };
    let mut big: u128 = ma as u128;
    let mut jj: u64 = 0;
    proof {
        lemma2_to64();
        lemma2_to64_rest();
        lemma_pow2_adds(53, 60);
        assert(big == ma * pow2(0));
    }
    while jj < d
        invariant
            jj <= d <= 60,
            big == ma * pow2(jj as nat),
            1 <= ma < 2 * EXP_UNIT,
            pow2(53) == 2 * EXP_UNIT,
            pow2(60) == 0x1000_0000_0000_0000,
            big < 0x2_0000_0000_0000_0000_0000_0000_0000,
            1 <= big,
        decreases d - jj,
    {
        proof {
            lemma_pow2_unfold((jj + 1) as nat);
            if jj + 1 < 60 {
                lemma_pow2_strictly_increases((jj + 1) as nat, 60);
            }
            assert(2 * (ma * pow2(jj as nat)) == ma * pow2((jj + 1) as nat) && ma * pow2((jj
                + 1) as nat) < 0x2_0000_0000_0000_0000_0000_0000_0000) by (nonlinear_arith)
                requires
                    pow2((jj + 1) as nat) == 2 * pow2(jj as nat),
                    pow2((jj + 1) as nat) <= pow2(60),
                    pow2(60) == 0x1000_0000_0000_0000,
                    1 <= ma < 0x20_0000_0000_0000,
            ;
        }
        big = big * 2;
        jj = jj + 1;
    }
    let e0: i32 = (ea as i32) - (d as i32) - 1075;
    if sa == sb {
        round_rational(sa, big + ms, 1, e0)
    } else {
        if big > ms {
            round_rational(sa, big - ms, 1, e0)
        } else if big < ms {
            round_rational(sb, ms - big, 1, e0)
        } else {
            assemble(false, 0, 0)
        }
    }
}

/// Addition on bit patterns: the significands are aligned and the exact or
/// faithfully marked sum is rounded once.
pub fn add_bits(a: u64, b: u64) -> (r: u64)
    ensures
        r == spec_add_bits(a, b),
{
    if is_nan_exec(a) || is_nan_exec(b) {
        return CANONICAL_NAN;
    }
    if is_inf_exec(a) && is_inf_exec(b) {
        if f_sign_exec(a) == f_sign_exec(b) {
            return a;
        }
        return CANONICAL_NAN;
    }
    if is_inf_exec(a) {
        return a;
    }
    if is_inf_exec(b) {
        return b;
    }
    if is_zero_exec(a) && is_zero_exec(b) {
        return assemble(f_sign_exec(a) && f_sign_exec(b), 0, 0);
    }
    if is_zero_exec(a) {
        return b;
    }
    if is_zero_exec(b) {
        return a;
    }
    let (_, ea, _) = unpack(a);
    let (_, eb, _) = unpack(b);
    if ea >= eb {
        add_ordered(a, b)
    } else {
        add_ordered(b, a)
    }
}

/// Subtraction on bit patterns: the sum with the second operand negated.
pub fn sub_bits(a: u64, b: u64) -> (r: u64)
    ensures
        r == spec_sub_bits(a, b),
{
    add_bits(a, negate_bits(b))
}


/// 10^k.
pub open spec fn spec_pow10(k: nat) -> int
    decreases k,
{
    if k == 0 {
        1
    } else {
        10 * spec_pow10((k - 1) as nat)
    }
}

/// Powers of ten grow: the later one is at least the earlier one.
pub proof fn lemma_pow10_mono(i: nat, j: nat)
    requires
        i <= j,
    ensures
        1 <= spec_pow10(i) <= spec_pow10(j),
    decreases j,
{
    if j == 0 {
    } else if i == j {
        lemma_pow10_mono(0, (j - 1) as nat);
    } else {
        lemma_pow10_mono(i, (j - 1) as nat);
    }
}

/// The concrete value of 10^37, the largest denominator a literal can ask for.
pub proof fn lemma_pow10_37()
    ensures
        spec_pow10(37) == 10_000_000_000_000_000_000_000_000_000_000_000_000,
{
    reveal_with_fuel(spec_pow10, 40);
}

/// 10^k, for exponents up to 37.
pub fn pow10(k: u32) -> (r: u128)
    requires
        k <= 37,
    ensures
        r == spec_pow10(k as nat),
        1 <= r <= 10_000_000_000_000_000_000_000_000_000_000_000_000,
{
    let mut r: u128 = 1;
    let mut j: u32 = 0;
    proof {
        lemma_pow10_37();
    }
    while j < k
        invariant
            j <= k <= 37,
            r == spec_pow10(j as nat),
            spec_pow10(37) == 10_000_000_000_000_000_000_000_000_000_000_000_000,
        decreases k - j,
    {
        proof {
            lemma_pow10_mono((j + 1) as nat, 37);
        }
        r = r * 10;
        j = j + 1;
    }
    proof {
        lemma_pow10_mono(j as nat, 37);
    }
    r
}

/// The nearest binary64 pattern to the decimal `m / 10^k`: the value of a
/// literal with digits `m` of which the last `k` stand after the point.
pub open spec fn spec_from_decimal(m: int, k: nat) -> u64 {
    if m == 0 {
        0
    } else {
        spec_round_rational(false, m, spec_pow10(k), 0)
    }
}

/// Converts a scanned decimal literal to its bit pattern, exactly rounded.
pub fn from_decimal(m: u128, k: u32) -> (r: u64)
    requires
        m < 10_000_000_000_000_000_000_000_000_000_000_000_000,
        k <= 37,
    ensures
        r == spec_from_decimal(m as int, k as nat),
{
    if m == 0 {
        return 0;
    }
    let den = pow10(k);
    proof {
        assert((10_000_000_000_000_000_000_000_000_000_000_000_000 as u128) < NUM_LIMIT);
    }
    round_rational(false, m, den, 0)
}


/// Doubling a significand below the hidden-bit place until it reaches it,
/// lowering the exponent in step.
pub open spec fn spec_norm_mant(m: int, e: int) -> (int, int)
    decreases (if m < EXP_UNIT { EXP_UNIT - m } else { 0int }),
        when 1 <= m
{
    if m < EXP_UNIT {
        spec_norm_mant(2 * m, e - 1)
    } else {
        (m, e)
    }
}

/// The pattern of a 32-bit integer: zero, or the normalized magnitude with
/// the sign.
pub open spec fn spec_from_i32(i: int) -> u64 {
    if i == 0 {
        0
    } else {
        let mag = if i < 0 {
            -i
        } else {
            i
        };
        let me = spec_norm_mant(mag, 1075);
        spec_assemble(i < 0, me.1 as u64, (me.0 - EXP_UNIT) as u64)
    }
}


/// 2^122, the working window of the decimal scaling loops: scaled numbers
/// are kept at or above it so that at least 122 significant bits survive
/// every step.
pub const SCALE_WINDOW: u128 = 0x400_0000_0000_0000_0000_0000_0000_0000;

/// Halving a scaled number until it falls below the working window, folding
/// the bits shifted out into the sticky marker.
pub open spec fn spec_shift_down_to(num: int, e2: int, st: bool) -> (int, int, bool)
    decreases num,
        when 1 <= num
{
    if num >= SCALE_WINDOW {
        spec_shift_down_to(num / 2, e2 + 1, st || num % 2 == 1)
    } else {
        (num, e2, st)
    }
}

/// Doubling a scaled number until it reaches the working window.
pub open spec fn spec_shift_up_to(num: int, e2: int) -> (int, int)
    decreases (if num < SCALE_WINDOW { SCALE_WINDOW - num } else { 0int }),
        when 1 <= num
{
    if num < SCALE_WINDOW {
        spec_shift_up_to(2 * num, e2 - 1)
    } else {
        (num, e2)
    }
}

/// `i` decimal magnitudes upward: each step renormalizes into the window,
/// then multiplies by ten.
pub open spec fn spec_scale_up(num: int, e2: int, st: bool, i: nat) -> (int, int, bool)
    decreases i,
        when 1 <= num
    via spec_scale_up_decreases
{
    if i == 0 {
        (num, e2, st)
    } else {
        let t = spec_shift_down_to(num, e2, st);
        spec_scale_up(10 * t.0, t.1, t.2, (i - 1) as nat)
    }
}

/// `j` decimal magnitudes downward: each step renormalizes into the window,
/// then divides by ten, folding a nonzero remainder into the sticky marker.
pub open spec fn spec_scale_down(num: int, e2: int, st: bool, j: nat) -> (int, int, bool)
    decreases j,
        when 1 <= num
    via spec_scale_down_decreases
{
    if j == 0 {
        (num, e2, st)
    } else {
        let t = spec_shift_up_to(num, e2);
        spec_scale_down(t.0 / 10, t.1, st || t.0 % 10 != 0, (j - 1) as nat)
    }
}

/// A downward renormalization keeps the number positive and in the window.
pub proof fn lemma_shift_down_to_bounds(num: int, e2: int, st: bool)
    requires
        1 <= num,
    ensures
        1 <= spec_shift_down_to(num, e2, st).0 < SCALE_WINDOW,
    decreases num,
{
    if num >= SCALE_WINDOW {
        lemma_shift_down_to_bounds(num / 2, e2 + 1, st || num % 2 == 1);
    }
}

/// An upward renormalization reaches the window without leaving it far.
pub proof fn lemma_shift_up_to_bounds(num: int, e2: int)
    requires
        1 <= num,
        num < 2 * SCALE_WINDOW * 10,
    ensures
        SCALE_WINDOW <= spec_shift_up_to(num, e2).0 < 2 * SCALE_WINDOW * 10,
    decreases (if num < SCALE_WINDOW { SCALE_WINDOW - num } else { 0int }),
{
    if num < SCALE_WINDOW {
        lemma_shift_up_to_bounds(2 * num, e2 - 1);
    }
}

#[via_fn]
proof fn spec_scale_up_decreases(num: int, e2: int, st: bool, i: nat) {
    if 1 <= num && i > 0 {
        lemma_shift_down_to_bounds(num, e2, st);
    }
}

#[via_fn]
proof fn spec_scale_down_decreases(num: int, e2: int, st: bool, j: nat) {
    if 1 <= num && j > 0 {
        if num < 2 * SCALE_WINDOW * 10 {
            lemma_shift_up_to_bounds(num, e2);
        } else {
            assert(spec_shift_up_to(num, e2) == (num, e2));
        }
    }
}

/// The nearest binary64 pattern to `(m + eps) * 10^(q - k)` with `eps`
/// nonzero exactly when `sticky` is set: the value of a decimal literal
/// whose leading significant digits make `m`, with `q` further integer
/// digits and `k` fractional places. The scaling works at 122 significant
/// bits, so the result agrees with exact rounding except for literals that
/// agree with a rounding boundary beyond those bits.
pub open spec fn spec_from_decimal_big(m: int, q: nat, k: nat, sticky: bool) -> u64 {
    if m == 0 {
        0
    } else {
        let u = spec_scale_up(m, 0, sticky, q);
        let d = spec_scale_down(u.0, u.1, u.2, k);
        spec_round_rational_sticky(false, d.0, 1, d.1, d.2)
    }
}

/// Converts a scanned decimal literal of any length to its bit pattern:
/// `m` holds the leading significant digits, `q` counts integer digits
/// beyond them, `k` the fractional places consumed, and `sticky` marks
/// dropped nonzero digits.
pub fn from_decimal_big(m: u128, q: u32, k: u32, sticky: bool) -> (r: u64)
    requires
        m < 10_000_000_000_000_000_000_000_000_000_000_000_000,
        q <= 400,
        k <= 400,
    ensures
        r == spec_from_decimal_big(m as int, q as nat, k as nat, sticky),
{
    if m == 0 {
        return 0;
    }
    let mut num: u128 = m;
    let mut e2: i32 = 0;
    let mut st = sticky;
    let mut i: u32 = 0;
    proof {
        lemma_pow2_vals();
        lemma_pow2_127();
        assert(m >= 1 && (m as int) < 20 * (SCALE_WINDOW as int));
    }
    while i < q
        invariant
            0 <= i <= q <= 400,
            1 <= num < 10 * SCALE_WINDOW,
            0 <= e2 <= 6 * (i as int),
            spec_scale_up(num as int, e2 as int, st, (q - i) as nat) == spec_scale_up(
                m as int,
                0,
                sticky,
                q as nat,
            ),
        decreases q - i,
    {
        let ghost n_in = num as int;
        let ghost e_in = e2 as int;
        let ghost st_in = st;
        proof {
            lemma_pow2_vals();
            assert(n_in >= num as int * pow2(0));
        }
        while num >= SCALE_WINDOW
            invariant
                1 <= num,
                n_in < 10 * SCALE_WINDOW,
                0 <= e_in <= 2394,
                e_in <= e2,
                e2 <= e_in + 5,
                n_in >= num as int * pow2((e2 - e_in) as nat),
                spec_shift_down_to(num as int, e2 as int, st) == spec_shift_down_to(
                    n_in,
                    e_in,
                    st_in,
                ),
            decreases num,
        {
            proof {
                lemma_pow2_vals();
                lemma2_to64();
                lemma_pow2_unfold((e2 - e_in + 1) as nat);
                assert((num as int / 2) * pow2((e2 - e_in + 1) as nat) <= num as int * pow2((e2
                    - e_in) as nat)) by (nonlinear_arith)
                    requires
                        pow2((e2 - e_in + 1) as nat) == 2 * pow2((e2 - e_in) as nat),
                        pow2((e2 - e_in) as nat) >= 0,
                        num >= 1,
                ;
                if e2 + 1 > e_in + 5 {
                    // Five halvings would already have brought the number
                    // under the window, since it started below twenty times it.
                    assert(pow2((e2 - e_in) as nat) >= pow2(5)) by {
                        if e2 - e_in < 5 {
                            assert(false);
                        }
                        if 5 < e2 - e_in {
                            lemma_pow2_strictly_increases(5, (e2 - e_in) as nat);
                        }
                    }
                    assert(num as int * pow2((e2 - e_in) as nat) >= 32 * SCALE_WINDOW as int)
                        by (nonlinear_arith)
                        requires
                            num >= SCALE_WINDOW,
                            pow2((e2 - e_in) as nat) >= 32,
                    ;
                    assert(false);
                }
            }
            st = st || (num % 2 == 1);
            num = num / 2;
            e2 = e2 + 1;
        }
        num = num * 10;
        i = i + 1;
    }
    let ghost after_up = spec_scale_up(m as int, 0, sticky, q as nat);
    proof {
        assert((num as int, e2 as int, st) == after_up);
    }
    let mut j: u32 = 0;
    while j < k
        invariant
            0 <= j <= k <= 400,
            1 <= num < 10 * SCALE_WINDOW,
            e2 <= 2400,
            e2 >= -127 * (j as int + 1),
            spec_scale_down(num as int, e2 as int, st, (k - j) as nat) == spec_scale_down(
                after_up.0,
                after_up.1,
                after_up.2,
                k as nat,
            ),
        decreases k - j,
    {
        let ghost n_in = num as int;
        let ghost e_in = e2 as int;
        proof {
            lemma_pow2_vals();
            assert(num as int == n_in * pow2(0));
        }
        while num < SCALE_WINDOW
            invariant
                1 <= num < 10 * SCALE_WINDOW,
                -51000 <= e_in <= 2400,
                e2 <= e_in,
                e2 >= e_in - 126,
                num as int == n_in * pow2((e_in - e2) as nat),
                1 <= n_in,
                spec_shift_up_to(num as int, e2 as int) == spec_shift_up_to(n_in, e_in),
            decreases (if num < SCALE_WINDOW { SCALE_WINDOW as int - num } else { 0int }),
        {
            proof {
                lemma_pow2_vals();
                lemma_pow2_127();
                lemma_pow2_unfold((e_in - e2 + 1) as nat);
                assert(2 * (n_in * pow2((e_in - e2) as nat)) == n_in * pow2((e_in - e2
                    + 1) as nat)) by (nonlinear_arith)
                    requires
                        pow2((e_in - e2 + 1) as nat) == 2 * pow2((e_in - e2) as nat),
                ;
                if e2 - 1 < e_in - 126 {
                    assert(pow2((e_in - e2 + 1) as nat) >= pow2(127)) by {
                        if 127 < e_in - e2 + 1 {
                            lemma_pow2_strictly_increases(127, (e_in - e2 + 1) as nat);
                        }
                    }
                    assert(n_in * pow2((e_in - e2 + 1) as nat) >= 1 * pow2(127))
                        by (nonlinear_arith)
                        requires
                            n_in >= 1,
                            pow2((e_in - e2 + 1) as nat) >= pow2(127),
                            pow2(127) >= 0,
                    ;
                    assert(false);
                }
            }
            num = num * 2;
            e2 = e2 - 1;
        }
        st = st || (num % 10 != 0);
        num = num / 10;
        j = j + 1;
    }
    proof {
        assert((num as int, e2 as int, st) == spec_scale_down(
            after_up.0,
            after_up.1,
            after_up.2,
            k as nat,
        ));
    }
    round_rational_sticky(false, num, 1, e2, st)
}


/// Normalizing a significand into the hidden-bit window keeps its scaled
/// value: the result is the input shifted up, exactly.
pub proof fn lemma_norm_mant_exact(m: int, e: int)
    requires
        1 <= m < 2 * EXP_UNIT,
    ensures
        ({
            let r = spec_norm_mant(m, e);
            &&& EXP_UNIT <= r.0 < 2 * EXP_UNIT
            &&& r.1 <= e
            &&& e - r.1 <= 52
            &&& r.0 == m * pow2((e - r.1) as nat)
        }),
    decreases (if m < EXP_UNIT { EXP_UNIT as int - m } else { 0int }),
{
    lemma_pow2_vals();
    if m < EXP_UNIT {
        lemma_norm_mant_exact(2 * m, e - 1);
        let r = spec_norm_mant(m, e);
        lemma_pow2_unfold((e - r.1) as nat);
        assert((2 * m) * pow2((e - 1 - r.1) as nat) == m * pow2((e - r.1) as nat))
            by (nonlinear_arith)
            requires
                pow2((e - r.1) as nat) == 2 * pow2((e - 1 - r.1) as nat),
        ;
        if e - r.1 > 52 {
            assert(pow2((e - r.1) as nat) >= pow2(53)) by {
                if 53 < e - r.1 {
                    lemma_pow2_strictly_increases(53, (e - r.1) as nat);
                }
            }
            assert(m * pow2((e - r.1) as nat) >= 1 * pow2(53)) by (nonlinear_arith)
                requires
                    m >= 1,
                    pow2((e - r.1) as nat) >= pow2(53),
                    pow2(53) >= 0,
            ;
            assert(false);
        }
    } else {
        assert(m * pow2(0) == m) by (nonlinear_arith)
            requires
                pow2(0) == 1,
        ;
    }
}

/// The conversion of a 32-bit integer is exact at the specification level:
/// the pattern is finite and denotes exactly the integer.
pub proof fn lemma_from_i32_exact(i: int)
    requires
        -0x8000_0000 <= i <= 0x7fff_ffff,
    ensures
        f_is_finite(spec_from_i32(i)),
        i == 0 ==> spec_from_i32(i) == 0,
        i != 0 ==> f_scaled_value(spec_from_i32(i)) == i * pow2(1075),
        f_sign(spec_from_i32(i)) == (i < 0),
{
    lemma_pow2_vals();
    if i == 0 {
        assert(f_bexp(0) == 0 && f_frac(0) == 0 && f_sign(0) == false);
        return ;
    }
    let mag = if i < 0 {
        -i
    } else {
        i
    };
    assert(mag < 2 * EXP_UNIT);
    lemma_norm_mant_exact(mag, 1075);
    let r = spec_norm_mant(mag, 1075);
    let bits = spec_assemble(i < 0, r.1 as u64, (r.0 - EXP_UNIT) as u64);
    assert(f_sign(bits) == (i < 0) && f_bexp(bits) == r.1 && f_frac(bits) == r.0 - EXP_UNIT)
        by (nonlinear_arith)
        requires
            bits == ((if i < 0 { SIGN_BIT } else { 0u64 }) + (r.1 as u64) * EXP_UNIT + ((r.0
                - EXP_UNIT) as u64)) as u64,
            1023 <= r.1 < 0x800,
            0 <= r.0 - EXP_UNIT < EXP_UNIT,
    ;
    assert(f_mant(bits) == r.0 && f_eexp(bits) == r.1);
    lemma_pow2_adds((1075 - r.1) as nat, r.1 as nat);
    assert((mag * pow2((1075 - r.1) as nat)) * pow2(r.1 as nat) == mag * (pow2((1075
        - r.1) as nat) * pow2(r.1 as nat))) by (nonlinear_arith);
    if i < 0 {
        assert((-i) * pow2(1075) == -(i * pow2(1075))) by (nonlinear_arith);
    }
}

} // verus!
