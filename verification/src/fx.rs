//! Q32.32 signed fixed-point arithmetic.
//!
//! Every amplitude, gain, pan coefficient and envelope value in the engine is
//! an `i64` holding `round(value * 2^32)`.  The operations here saturate at
//! the `i64` range instead of wrapping, and every executable function is
//! proved equal to a spec-level definition over unbounded integers.

use vstd::prelude::*;

verus! {

/// One, in Q32.32 fixed point (2^32).
pub const FX_ONE: i64 = 0x1_0000_0000;

/// Clamps an unbounded integer into the `i64` range.
pub open spec fn clamp_to_i64(x: int) -> int {
    if x > i64::MAX as int {
        i64::MAX as int
    } else if x < i64::MIN as int {
        i64::MIN as int
    } else {
        x
    }
}

pub open spec fn abs_int(x: int) -> int {
    if x >= 0 {
        x
    } else {
        -x
    }
}

/// Truncating (toward-zero) division of `a` by a positive `d`.
pub open spec fn div_trunc(a: int, d: int) -> int
    recommends
        d > 0,
{
    if a >= 0 {
        a / d
    } else {
        -((-a) / d)
    }
}

/// Saturating fixed-point addition.
pub open spec fn spec_fx_add(a: i64, b: i64) -> i64 {
    clamp_to_i64(a + b) as i64
}

/// Saturating fixed-point subtraction.
pub open spec fn spec_fx_sub(a: i64, b: i64) -> i64 {
    clamp_to_i64(a - b) as i64
}

/// Saturating fixed-point product: `a * b / 2^32`, truncated toward zero.
pub open spec fn spec_fx_mul(a: i64, b: i64) -> i64 {
    clamp_to_i64(div_trunc(a * b, 0x1_0000_0000)) as i64
}

/// Fixed-point value divided by a positive integer, truncated toward zero.
pub open spec fn spec_fx_div_int(a: i64, d: u32) -> i64
    recommends
        d >= 1,
{
    div_trunc(a as int, d as int) as i64
}

pub fn fx_add(a: i64, b: i64) -> (r: i64)
    ensures
        r == spec_fx_add(a, b),
{
    let s: i128 = a as i128 + b as i128;
    if s > i64::MAX as i128 {
        i64::MAX
    } else if s < i64::MIN as i128 {
        i64::MIN
    } else {
        s as i64
    }
}

pub fn fx_sub(a: i64, b: i64) -> (r: i64)
    ensures
        r == spec_fx_sub(a, b),
{
    let s: i128 = a as i128 - b as i128;
    if s > i64::MAX as i128 {
        i64::MAX
    } else if s < i64::MIN as i128 {
        i64::MIN
    } else {
        s as i64
    }
}

proof fn lemma_abs_mul(a: int, b: int)
    ensures
        abs_int(a) * abs_int(b) == abs_int(a * b),
        (a >= 0 <==> b >= 0) && a != 0 && b != 0 ==> a * b > 0,
        (a < 0 <==> b >= 0) ==> a * b <= 0,
{
    assert(abs_int(a) * abs_int(b) == abs_int(a * b) && ((a >= 0 <==> b >= 0) && a != 0 && b != 0
        ==> a * b > 0) && ((a < 0 <==> b >= 0) ==> a * b <= 0)) by (nonlinear_arith);
}

pub fn fx_mul(a: i64, b: i64) -> (r: i64)
    ensures
        r == spec_fx_mul(a, b),
{
    let neg = (a < 0) != (b < 0);
    let am: u128 = if a < 0 {
        (-(a as i128)) as u128
    } else {
        a as u128
    };
    let bm: u128 = if b < 0 {
        (-(b as i128)) as u128
    } else {
        b as u128
    };
    proof {
        lemma_abs_mul(a as int, b as int);
        assert(am * bm <= 0x8000_0000_0000_0000u128 * 0x8000_0000_0000_0000u128)
            by (nonlinear_arith)
            requires
                am <= 0x8000_0000_0000_0000u128,
                bm <= 0x8000_0000_0000_0000u128,
        ;
    }
    let p: u128 = am * bm;
    let q: u128 = p / 0x1_0000_0000u128;
    proof {
        assert(p == abs_int((a as int) * (b as int)));
        assert(q == abs_int(a * b) / 0x1_0000_0000);
    }
    if neg {
        if q >= 0x8000_0000_0000_0000u128 {
            i64::MIN
        } else {
            -(q as i64)
        }
    } else {
        if q > i64::MAX as u128 {
            i64::MAX
        } else {
            q as i64
        }
    }
}

pub fn fx_div_int(a: i64, d: u32) -> (r: i64)
    requires
        d >= 1,
    ensures
        r == spec_fx_div_int(a, d),
{
    let am: u128 = if a < 0 {
        (-(a as i128)) as u128
    } else {
        a as u128
    };
    let q: u128 = am / (d as u128);
    proof {
        vstd::arithmetic::div_mod::lemma_div_nonincreasing(am as int, d as int);
    }
    if a < 0 {
        if q >= 0x8000_0000_0000_0000u128 {
            i64::MIN
        } else {
            -(q as i64)
        }
    } else {
        q as i64
    }
}

/// 10^k over the integers.
pub open spec fn pow10_int(k: nat) -> int
    decreases k,
{
    if k == 0 {
        1
    } else {
        10 * pow10_int((k - 1) as nat)
    }
}

/// Q32.32 value of 10^(r/20) for r in [0, 20).
pub open spec fn tenth_db_gain(r: int) -> i64 {
    if r == 0 {
        0x1_0000_0000
    } else if r == 1 {
        4819032567
    } else if r == 2 {
        5407043472
    } else if r == 3 {
        6066802559
    } else if r == 4 {
        6807064429
    } else if r == 5 {
        7637651909
    } else if r == 6 {
        8569586390
    } else if r == 7 {
        9615234075
    } else if r == 8 {
        10788470075
    } else if r == 9 {
        12104862517
    } else if r == 10 {
        13581879131
    } else if r == 11 {
        15239119029
    } else if r == 12 {
        17098572778
    } else if r == 13 {
        19184914199
    } else if r == 14 {
        21525827776
    } else if r == 15 {
        24152376009
    } else if r == 16 {
        27099411597
    } else if r == 17 {
        30406039913
    } else if r == 18 {
        34116137904
    } else {
        38278936318
    }
}

/// Q32.32 decibel-to-linear conversion: 10^(db/20).
///
/// The whole-decibel argument is split as `db = 20*k + r` with `0 <= r < 20`;
/// the gain is `10^k * tenth_db_gain(r)`.  Past roughly +/-300 dB the result
/// saturates at `i64::MAX` respectively reaches 0, so `k` is capped at 15.
pub open spec fn spec_pow10_db(db: int) -> i64 {
    let k0 = db / 20;
    let r = db % 20;
    let k = if k0 > 15 {
        15int
    } else if k0 < -15 {
        -15int
    } else {
        k0
    };
    let base = tenth_db_gain(r) as int;
    if k >= 0 {
        clamp_to_i64(base * pow10_int(k as nat)) as i64
    } else {
        (base / pow10_int((-k) as nat)) as i64
    }
}

fn tenth_db_gain_exec(r: u32) -> (g: i64)
    requires
        r < 20,
    ensures
        g == tenth_db_gain(r as int),
{
    match r {
        0 => 0x1_0000_0000,
        1 => 4819032567,
        2 => 5407043472,
        3 => 6066802559,
        4 => 6807064429,
        5 => 7637651909,
        6 => 8569586390,
        7 => 9615234075,
        8 => 10788470075,
        9 => 12104862517,
        10 => 13581879131,
        11 => 15239119029,
        12 => 17098572778,
        13 => 19184914199,
        14 => 21525827776,
        15 => 24152376009,
        16 => 27099411597,
        17 => 30406039913,
        18 => 34116137904,
        _ => 38278936318,
    }
}

pub fn pow10_db(db: i32) -> (g: i64)
    ensures
        g == spec_pow10_db(db as int),
{
    let kq: i64;
    let r: u32;
    if db >= 0 {
        let ud: u64 = db as u64;
        kq = (ud / 20) as i64;
        r = (ud % 20) as u32;
        proof {
            vstd::arithmetic::div_mod::lemma_fundamental_div_mod(ud as int, 20);
            vstd::arithmetic::div_mod::lemma_fundamental_div_mod_converse(
                db as int,
                20,
                kq as int,
                r as int,
            );
        }
    } else {
        let m: u64 = (-(db as i64)) as u64;
        let q: u64 = (m + 19) / 20;
        proof {
            vstd::arithmetic::div_mod::lemma_fundamental_div_mod((m + 19) as int, 20);
        }
        let rm: u64 = q * 20 - m;
        kq = -(q as i64);
        r = rm as u32;
        proof {
            vstd::arithmetic::div_mod::lemma_fundamental_div_mod_converse(
                db as int,
                20,
                kq as int,
                r as int,
            );
        }
    }
    let base: i64 = tenth_db_gain_exec(r);
    if kq >= 0 {
        let k: u64 = if kq > 15 {
            15
        } else {
            kq as u64
        };
        let mut acc: i64 = base;
        let mut i: u64 = 0;
        while i < k
            invariant
                i <= k,
                k <= 15,
                base == tenth_db_gain(r as int),
                0x1_0000_0000 <= base,
                acc == clamp_to_i64(base * pow10_int(i as nat)),
            decreases k - i,
        {
            proof {
                assert(pow10_int((i + 1) as nat) == 10 * pow10_int(i as nat));
                assert(pow10_int(i as nat) >= 1) by {
                    lemma_pow10_pos(i as nat);
                }
                assert(base * pow10_int((i + 1) as nat) == (base * pow10_int(i as nat)) * 10)
                    by (nonlinear_arith);
                assert(base * pow10_int(i as nat) >= base) by (nonlinear_arith)
                    requires
                        base >= 0x1_0000_0000,
                        pow10_int(i as nat) >= 1,
                ;
            }
            if acc > i64::MAX / 10 {
                acc = i64::MAX;
            } else {
                acc = acc * 10;
            }
            i = i + 1;
        }
        acc
    } else {
        let k: u64 = if kq < -15 {
            15
        } else {
            (-kq) as u64
        };
        let mut acc: i64 = base;
        let mut i: u64 = 0;
        while i < k
            invariant
                i <= k,
                k <= 15,
                base == tenth_db_gain(r as int),
                0x1_0000_0000 <= base <= 38278936318,
                acc == (base as int) / pow10_int(i as nat),
                0 <= acc <= base,
            decreases k - i,
        {
            proof {
                lemma_pow10_pos(i as nat);
                assert(pow10_int((i + 1) as nat) == 10 * pow10_int(i as nat));
                vstd::arithmetic::div_mod::lemma_div_denominator(
                    base as int,
                    pow10_int(i as nat),
                    10,
                );
                assert(pow10_int(i as nat) * 10 == 10 * pow10_int(i as nat))
                    by (nonlinear_arith);
                vstd::arithmetic::div_mod::lemma_div_nonincreasing(
                    base as int,
                    pow10_int(i as nat),
                );
            }
            let au: u64 = acc as u64;
            acc = (au / 10) as i64;
            i = i + 1;
        }
        proof {
            if k < 15 {
                assert(-(kq as int) == k as int);
            }
        }
        acc
    }
}

proof fn lemma_pow10_pos(k: nat)
    ensures
        pow10_int(k) >= 1,
    decreases k,
{
    if k > 0 {
        lemma_pow10_pos((k - 1) as nat);
    }
}

/// 2^k over the integers.
pub open spec fn pow2_int(k: nat) -> int
    decreases k,
{
    if k == 0 {
        1
    } else {
        2 * pow2_int((k - 1) as nat)
    }
}

proof fn lemma_pow2_pos(k: nat)
    ensures
        pow2_int(k) >= 1,
    decreases k,
{
    if k > 0 {
        lemma_pow2_pos((k - 1) as nat);
    }
}

/// Q32.32 value of 2^(-2^-k) for k in [1, 20].
pub open spec fn exp2_frac_const(k: int) -> i64 {
    if k == 1 {
        3037000500
    } else if k == 2 {
        3611622603
    } else if k == 3 {
        3938502376
    } else if k == 4 {
        4112874773
    } else if k == 5 {
        4202935003
    } else if k == 6 {
        4248701965
    } else if k == 7 {
        4271771996
    } else if k == 8 {
        4283353945
    } else if k == 9 {
        4289156690
    } else if k == 10 {
        4292061010
    } else if k == 11 {
        4293513907
    } else if k == 12 {
        4294240540
    } else if k == 13 {
        4294603903
    } else if k == 14 {
        4294785595
    } else if k == 15 {
        4294876445
    } else if k == 16 {
        4294921870
    } else if k == 17 {
        4294944583
    } else if k == 18 {
        4294955939
    } else if k == 19 {
        4294961618
    } else {
        4294964457
    }
}

fn exp2_frac_const_exec(k: u32) -> (c: i64)
    requires
        1 <= k <= 20,
    ensures
        c == exp2_frac_const(k as int),
{
    match k {
        1 => 3037000500,
        2 => 3611622603,
        3 => 3938502376,
        4 => 4112874773,
        5 => 4202935003,
        6 => 4248701965,
        7 => 4271771996,
        8 => 4283353945,
        9 => 4289156690,
        10 => 4292061010,
        11 => 4293513907,
        12 => 4294240540,
        13 => 4294603903,
        14 => 4294785595,
        15 => 4294876445,
        16 => 4294921870,
        17 => 4294944583,
        18 => 4294955939,
        19 => 4294961618,
        _ => 4294964457,
    }
}

/// Binary-digit product for the fractional part of 2^-f: at round k the
/// threshold `th` is 2^(32-k), and where the digit is set the accumulator is
/// multiplied by `exp2_frac_const(k)`.
pub open spec fn spec_exp2_frac(m: i64, f: u64, th: u64, k: int) -> i64
    decreases 21 - k,
{
    if k < 1 || k > 20 {
        m
    } else if f >= th {
        spec_exp2_frac(
            spec_fx_mul(m, exp2_frac_const(k)),
            (f - th) as u64,
            (th / 2) as u64,
            k + 1,
        )
    } else {
        spec_exp2_frac(m, f, (th / 2) as u64, k + 1)
    }
}

/// Q32.32 value of 2^(-z) for a non-negative Q32.32 exponent `z`.
pub open spec fn spec_fx_exp2_neg(z: i64) -> i64
    recommends
        z >= 0,
{
    let n = (z as int) / 0x1_0000_0000;
    let f = ((z as int) % 0x1_0000_0000) as u64;
    let m = spec_exp2_frac(0x1_0000_0000, f, 0x8000_0000u64, 1);
    if n >= 33 {
        0
    } else {
        ((m as int) / pow2_int(n as nat)) as i64
    }
}

proof fn lemma_exp2_frac_bounds(m: i64, f: u64, th: u64, k: int)
    requires
        0 <= m <= 0x1_0000_0000,
    ensures
        0 <= spec_exp2_frac(m, f, th, k) <= 0x1_0000_0000,
    decreases 21 - k,
{
    if 1 <= k <= 20 && f >= th {
        let c = exp2_frac_const(k);
        assert(0 <= spec_fx_mul(m, c) <= 0x1_0000_0000) by {
            assert(0 <= m * c <= 0x1_0000_0000 * 0xFFFF_FFFFi64) by (nonlinear_arith)
                requires
                    0 <= m <= 0x1_0000_0000,
                    0 <= c < 0x1_0000_0000,
            ;
        }
        lemma_exp2_frac_bounds(spec_fx_mul(m, c), (f - th) as u64, (th / 2) as u64, k + 1);
    } else if 1 <= k <= 20 {
        lemma_exp2_frac_bounds(m, f, (th / 2) as u64, k + 1);
    }
}

pub fn fx_exp2_neg(z: i64) -> (r: i64)
    requires
        z >= 0,
    ensures
        r == spec_fx_exp2_neg(z),
        0 <= r <= 0x1_0000_0000,
{
    let zu: u64 = z as u64;
    let n: u64 = zu / 0x1_0000_0000;
    let f0: u64 = zu % 0x1_0000_0000;
    let mut m: i64 = FX_ONE;
    let mut f: u64 = f0;
    let mut th: u64 = 0x8000_0000;
    let mut k: u32 = 1;
    while k <= 20
        invariant
            1 <= k <= 21,
            0 <= m <= 0x1_0000_0000,
            spec_exp2_frac(m, f, th, k as int) == spec_exp2_frac(
                0x1_0000_0000,
                f0,
                0x8000_0000u64,
                1,
            ),
        decreases 21 - k,
    {
        if f >= th {
            let c = exp2_frac_const_exec(k);
            proof {
                assert(0 <= spec_fx_mul(m, c) <= 0x1_0000_0000) by {
                    assert(0 <= m * c <= 0x1_0000_0000 * 0xFFFF_FFFFi64) by (nonlinear_arith)
                        requires
                            0 <= m <= 0x1_0000_0000,
                            0 <= c < 0x1_0000_0000,
                    ;
                }
            }
            m = fx_mul(m, c);
            f = f - th;
        }
        th = th / 2;
        k = k + 1;
    }
    proof {
        lemma_exp2_frac_bounds(0x1_0000_0000, f0, 0x8000_0000u64, 1);
    }
    if n >= 33 {
        0
    } else {
        let mut r: i64 = m;
        let mut j: u64 = 0;
        while j < n
            invariant
                j <= n,
                n < 33,
                0 <= m <= 0x1_0000_0000,
                r == (m as int) / pow2_int(j as nat),
                0 <= r <= m,
            decreases n - j,
        {
            proof {
                lemma_pow2_pos(j as nat);
                assert(pow2_int((j + 1) as nat) == 2 * pow2_int(j as nat));
                vstd::arithmetic::div_mod::lemma_div_denominator(
                    m as int,
                    pow2_int(j as nat),
                    2,
                );
                assert(pow2_int(j as nat) * 2 == 2 * pow2_int(j as nat)) by (nonlinear_arith);
            }
            r = ((r as u64) / 2) as i64;
            j = j + 1;
        }
        r
    }
}

/// Floor of the base-2 logarithm of a positive integer.
pub open spec fn spec_floor_log2(v: u64) -> int
    recommends
        v >= 1,
    decreases v,
{
    if v < 2 {
        0
    } else {
        1 + spec_floor_log2(v / 2)
    }
}

/// One squaring round for the fractional bits of a base-2 logarithm: the
/// mantissa `m` lives in [2^32, 2^33) and each round extracts one bit into
/// the accumulator, at weight `th`.
pub open spec fn spec_log2_frac(m: u64, acc: i64, th: i64, k: int) -> i64
    decreases 21 - k,
{
    if k < 1 || k > 20 {
        acc
    } else {
        let m2 = (((m * m) as int) / 0x1_0000_0000) as u64;
        if m2 >= 0x2_0000_0000 {
            spec_log2_frac((m2 / 2) as u64, (acc + th) as i64, (th / 2) as i64, k + 1)
        } else {
            spec_log2_frac(m2, acc, (th / 2) as i64, k + 1)
        }
    }
}

/// Q32.32 value of log2(v / 2^32) for a positive `v`.
pub open spec fn spec_fx_log2(v: u64) -> i64
    recommends
        v >= 1,
{
    let e = spec_floor_log2(v);
    let m = if e <= 32 {
        (v * pow2_int((32 - e) as nat)) as u64
    } else {
        (((v as int) / pow2_int((e - 32) as nat)) as u64)
    };
    let frac = spec_log2_frac(m, 0, 0x8000_0000, 1);
    (((e - 32) * 0x1_0000_0000) + frac) as i64
}

proof fn lemma_floor_log2_bounds(v: u64)
    requires
        v >= 1,
    ensures
        0 <= spec_floor_log2(v) <= 63,
        pow2_int(spec_floor_log2(v) as nat) <= v < 2 * pow2_int(spec_floor_log2(v) as nat),
    decreases v,
{
    if v < 2 {
    } else {
        lemma_floor_log2_bounds(v / 2);
        let e1 = spec_floor_log2(v / 2);
        assert(pow2_int((e1 + 1) as nat) == 2 * pow2_int(e1 as nat));
        if e1 + 1 > 63 {
            lemma_pow2_63_bound(e1 as nat);
        }
    }
}

proof fn lemma_pow2_monotone(a: nat, b: nat)
    requires
        a <= b,
    ensures
        pow2_int(a) <= pow2_int(b),
    decreases b,
{
    if a < b {
        lemma_pow2_monotone(a, (b - 1) as nat);
        lemma_pow2_pos((b - 1) as nat);
    }
}

proof fn lemma_pow2_63_bound(k: nat)
    ensures
        k >= 63 ==> pow2_int(k) >= 0x8000_0000_0000_0000,
{
    if k >= 63 {
        reveal_with_fuel(pow2_int, 64);
        assert(pow2_int(63) == 0x8000_0000_0000_0000);
        lemma_pow2_monotone(63, k);
    }
}

proof fn lemma_floor_log2_nonneg(v: u64)
    ensures
        spec_floor_log2(v) >= 0,
    decreases v,
{
    if v >= 2 {
        lemma_floor_log2_nonneg(v / 2);
    }
}

pub fn fx_log2(v: u64) -> (r: i64)
    requires
        v >= 1,
    ensures
        r == spec_fx_log2(v),
{
    proof {
        lemma_floor_log2_bounds(v);
    }
    let ghost e_spec = spec_floor_log2(v);
    // integer part
    let mut t: u64 = v;
    let mut e: u64 = 0;
    while t >= 2
        invariant
            v >= 1,
            1 <= t <= v,
            spec_floor_log2(v) == e + spec_floor_log2(t),
            e + spec_floor_log2(t) <= 63,
            spec_floor_log2(t) >= 0,
        decreases t,
    {
        proof {
            lemma_floor_log2_nonneg(t / 2);
        }
        t = t / 2;
        e = e + 1;
    }
    proof {
        assert(spec_floor_log2(t) == 0);
        assert(e == e_spec);
    }
    // normalize the mantissa into [2^32, 2^33)
    let mut m: u64 = v;
    if e <= 32 {
        proof {
            lemma_pow2_32_33(e as nat);
            lemma_pow2_pos(e as nat);
            assert(v * pow2_int(0) == v);
        }
        let mut j: u64 = e;
        while j < 32
            invariant
                e <= 32,
                j >= e,
                j <= 32,
                m == v * pow2_int((j - e) as nat),
                pow2_int(e as nat) <= v < 2 * pow2_int(e as nat),
                pow2_int(j as nat) <= m < 2 * pow2_int(j as nat),
                m < 0x2_0000_0000_0000_0000,
            decreases 32 - j,
        {
            proof {
                lemma_pow2_pos(j as nat);
                lemma_pow2_32_33(j as nat);
                assert(pow2_int((j + 1 - e) as nat) == 2 * pow2_int((j - e) as nat));
                assert(pow2_int((j + 1) as nat) == 2 * pow2_int(j as nat));
                assert(v * (2 * pow2_int((j - e) as nat)) == 2 * (v * pow2_int((j - e) as nat)))
                    by (nonlinear_arith);
            }
            m = m * 2;
            j = j + 1;
        }
        proof {
            lemma_pow2_32_exact();
        }
    } else {
        proof {
            vstd::arithmetic::div_mod::lemma_div_basics(v as int);
            assert(pow2_int(0) == 1);
        }
        let mut j: u64 = e;
        while j > 32
            invariant
                32 <= j <= e,
                m == (v as int) / pow2_int((e - j) as nat),
                pow2_int(j as nat) <= m < 2 * pow2_int(j as nat),
        decreases j,
        {
            proof {
                lemma_pow2_pos((e - j) as nat);
                assert(pow2_int((e - j + 1) as nat) == 2 * pow2_int((e - j) as nat));
                vstd::arithmetic::div_mod::lemma_div_denominator(
                    v as int,
                    pow2_int((e - j) as nat),
                    2,
                );
                assert(pow2_int((e - j) as nat) * 2 == 2 * pow2_int((e - j) as nat))
                    by (nonlinear_arith);
                assert(pow2_int(j as nat) == 2 * pow2_int((j - 1) as nat));
            }
            m = m / 2;
            j = j - 1;
        }
        proof {
            lemma_pow2_32_exact();
        }
    }
    // fractional bits by repeated squaring
    let mut acc: i64 = 0;
    let mut th: i64 = 0x8000_0000;
    let mut k: u32 = 1;
    let ghost m0 = m;
    while k <= 20
        invariant
            1 <= k <= 21,
            0x1_0000_0000 <= m < 0x2_0000_0000,
            0 <= acc,
            0 <= th <= 0x8000_0000,
            acc + 2 * th <= 0x1_0000_0000,
            spec_log2_frac(m, acc, th, k as int) == spec_log2_frac(m0, 0, 0x8000_0000, 1),
        decreases 21 - k,
    {
        proof {
            assert(m * m < 0x4_0000_0000_0000_0000) by (nonlinear_arith)
                requires
                    m < 0x2_0000_0000,
            ;
            assert(m * m >= 0x1_0000_0000 * 0x1_0000_0000) by (nonlinear_arith)
                requires
                    m >= 0x1_0000_0000,
            ;
            vstd::arithmetic::div_mod::lemma_div_is_ordered(
                0x1_0000_0000int * 0x1_0000_0000int,
                (m * m) as int,
                0x1_0000_0000int,
            );
        }
        let m2: u64 = ((m as u128 * m as u128) / 0x1_0000_0000u128) as u64;
        if m2 >= 0x2_0000_0000 {
            m = m2 / 2;
            acc = acc + th;
        } else {
            m = m2;
        }
        th = th / 2;
        k = k + 1;
    }
    ((e as i64) - 32) * FX_ONE + acc
}

proof fn lemma_pow2_32_33(j: nat)
    ensures
        j <= 32 ==> pow2_int(j) <= 0x1_0000_0000,
{
    if j <= 32 {
        lemma_pow2_monotone(j, 32);
        lemma_pow2_32_exact();
    }
}

proof fn lemma_pow2_32_exact()
    ensures
        pow2_int(32) == 0x1_0000_0000,
{
    reveal_with_fuel(pow2_int, 33);
    assert(pow2_int(32) == 0x1_0000_0000);
}

/// Floor of the square root.
pub fn isqrt_u128(x: u128) -> (r: u64)
    ensures
        (r as int) * (r as int) <= x as int,
        ((r as int) + 1) * ((r as int) + 1) > x as int,
{
    let mut lo: u64 = 0;
    let mut hi: u64 = 0xFFFF_FFFF_FFFF_FFFF;
    proof {
        assert(0x1_0000_0000_0000_0000int * 0x1_0000_0000_0000_0000int > u128::MAX as int)
            by (nonlinear_arith);
    }
    while lo < hi
        invariant
            lo <= hi,
            (lo as int) * (lo as int) <= x as int,
            ((hi as int) + 1) * ((hi as int) + 1) > x as int,
        decreases hi - lo,
    {
        let half: u64 = (hi - lo) / 2;
        let mid: u64 = hi - half;
        proof {
            assert((mid as int) * (mid as int) < u128::MAX as int) by (nonlinear_arith)
                requires
                    mid <= 0xFFFF_FFFF_FFFF_FFFFu64,
            ;
        }
        let sq: u128 = (mid as u128) * (mid as u128);
        if sq <= x {
            lo = mid;
        } else {
            hi = mid - 1;
        }
    }
    lo
}

pub const QUARTER_PI: i64 = 3373259426;

pub const HALF_PI: i64 = 6746518852;

pub const INV_SQRT2: i64 = 3037000500;

pub const LOG2_10_OVER_20: i64 = 713378626;

pub const LOG2_E: i64 = 6196328019;

pub const DB_PER_OCTAVE: i64 = 25858279730;

/// Q32.32 cosine on [0, pi/2], by an eight-term Taylor expansion.
pub open spec fn spec_fx_cos(x: i64) -> i64 {
    let x2 = spec_fx_mul(x, x);
    let t1 = spec_fx_div_int(spec_fx_mul(0x1_0000_0000, x2), 2);
    let t2 = spec_fx_div_int(spec_fx_mul(t1, x2), 12);
    let t3 = spec_fx_div_int(spec_fx_mul(t2, x2), 30);
    let t4 = spec_fx_div_int(spec_fx_mul(t3, x2), 56);
    let t5 = spec_fx_div_int(spec_fx_mul(t4, x2), 90);
    let t6 = spec_fx_div_int(spec_fx_mul(t5, x2), 132);
    let t7 = spec_fx_div_int(spec_fx_mul(t6, x2), 182);
    spec_fx_sub(
        spec_fx_add(
            spec_fx_sub(
                spec_fx_add(spec_fx_sub(spec_fx_add(spec_fx_sub(0x1_0000_0000, t1), t2), t3), t4),
                t5,
            ),
            t6,
        ),
        t7,
    )
}

pub fn fx_cos(x: i64) -> (r: i64)
    ensures
        r == spec_fx_cos(x),
{
    let x2 = fx_mul(x, x);
    let t1 = fx_div_int(fx_mul(FX_ONE, x2), 2);
    let t2 = fx_div_int(fx_mul(t1, x2), 12);
    let t3 = fx_div_int(fx_mul(t2, x2), 30);
    let t4 = fx_div_int(fx_mul(t3, x2), 56);
    let t5 = fx_div_int(fx_mul(t4, x2), 90);
    let t6 = fx_div_int(fx_mul(t5, x2), 132);
    let t7 = fx_div_int(fx_mul(t6, x2), 182);
    fx_sub(fx_add(fx_sub(fx_add(fx_sub(fx_add(fx_sub(FX_ONE, t1), t2), t3), t4), t5), t6), t7)
}

} // verus!
