//! Fixed-point scalar arithmetic and the numeric primitives of the network:
//! `logit`, `sigmoid`, `clip_prob`, `clip_hypercube`, `geometric_mixing`,
//! `geometric_mixing_loss`, `norm` and `accuracy`.
//!
//! A scalar is a signed fixed-point number in units of 2^-24, held as a sign
//! flag and a `u64` magnitude. Saturating at the largest magnitude keeps every
//! operation total, and each operation's contract states its exact result.

use vstd::prelude::*;

verus! {

use vstd::arithmetic::power2::pow2;

/// Number of raw units per 1.0: the fixed-point scale, 2^24.
pub const FX_SCALE: u64 = 0x100_0000;

/// A signed fixed-point number: its value is `mag / FX_SCALE`, negated when
/// `neg` is set. A zero magnitude always stands for the value zero, whatever
/// the sign flag says.
#[derive(Clone, Copy, Debug)]
pub struct Fx {
    neg: bool,
    mag: u64,
}

/// The value of a scalar in raw units (the real value times 2^24).
pub closed spec fn fx_val(x: Fx) -> int {
    if x.neg {
        -(x.mag as int)
    } else {
        x.mag as int
    }
}

/// Clamp a non-negative raw magnitude to the largest representable magnitude.
pub open spec fn fx_sat_mag(m: int) -> int {
    if m > u64::MAX {
        u64::MAX as int
    } else {
        m
    }
}

/// Raw value of a saturating signed addition.
pub open spec fn fx_add_val(a: int, b: int) -> int {
    if a >= 0 && b >= 0 {
        fx_sat_mag(a + b)
    } else if a <= 0 && b <= 0 {
        -fx_sat_mag(-(a + b))
    } else {
        a + b
    }
}

/// Raw value of a saturating product: magnitudes multiply and are rescaled by
/// 2^24, truncating toward zero.
pub open spec fn fx_mul_val(a: int, b: int) -> int {
    let m = (vstd::math::abs(a) * vstd::math::abs(b)) as int / (FX_SCALE as int);
    if (a < 0) <==> (b < 0) {
        fx_sat_mag(m)
    } else {
        -fx_sat_mag(m)
    }
}

/// Raw value of a saturating quotient, truncating toward zero.
pub open spec fn fx_div_val(a: int, b: int) -> int {
    let m = (vstd::math::abs(a) * (FX_SCALE as int)) / (vstd::math::abs(b) as int);
    if (a < 0) <==> (b < 0) {
        fx_sat_mag(m)
    } else {
        -fx_sat_mag(m)
    }
}

/// Raw value of an `i64` whole number of units.
pub open spec fn fx_from_int_val(v: int) -> int {
    if v >= 0 {
        fx_sat_mag(v * (FX_SCALE as int))
    } else {
        -fx_sat_mag(-v * (FX_SCALE as int))
    }
}

impl Fx {
    /// The scalar zero.
    pub fn zero() -> (r: Fx)
        ensures
            fx_val(r) == 0,
    {
        Fx { neg: false, mag: 0 }
    }

    /// The scalar one.
    pub fn one() -> (r: Fx)
        ensures
            fx_val(r) == FX_SCALE,
    {
        Fx { neg: false, mag: FX_SCALE }
    }

    /// The scalar with the given raw magnitude (units of 2^-24) and sign.
    pub fn from_raw(neg: bool, mag: u64) -> (r: Fx)
        ensures
            fx_val(r) == if neg && mag > 0 {
                -(mag as int)
            } else {
                mag as int
            },
    {
        Fx { neg: neg && mag > 0, mag }
    }

    /// The scalar standing for the whole number `v`, saturated.
    pub fn from_int(v: i64) -> (r: Fx)
        ensures
            fx_val(r) == fx_from_int_val(v as int),
    {
        let mag0: u64 = if v < 0 {
            if v == i64::MIN {
                0x8000_0000_0000_0000
            } else {
                (-v) as u64
            }
        } else {
            v as u64
        };
        let mag: u64 = match mag0.checked_mul(FX_SCALE) {
            Some(m) => m,
            None => u64::MAX,
        };
        Fx { neg: v < 0 && mag > 0, mag }
    }

    /// The scalar nearest `n / d` from below in magnitude, saturated.
    pub fn from_ratio(n: i64, d: i64) -> (r: Fx)
        requires
            d != 0,
        ensures
            fx_val(r) == fx_div_val(fx_from_int_val(n as int), fx_from_int_val(d as int)),
    {
        let a = Fx::from_int(n);
        let b = Fx::from_int(d);
        fx_div(a, b)
    }

    /// The raw value, for callers that inspect results numerically.
    pub fn raw(self) -> (r: i64)
        requires
            -(i64::MAX as int) <= fx_val(self) <= i64::MAX as int,
        ensures
            r as int == fx_val(self),
    {
        if self.neg {
            -(self.mag as i64)
        } else {
            self.mag as i64
        }
    }
}

/// Saturating addition.
pub fn fx_add(a: Fx, b: Fx) -> (r: Fx)
    ensures
        fx_val(r) == fx_add_val(fx_val(a), fx_val(b)),
{
    if a.neg == b.neg {
        let mag: u64 = a.mag.saturating_add(b.mag);
        Fx { neg: a.neg && mag > 0, mag }
    } else if a.mag >= b.mag {
        let mag: u64 = a.mag - b.mag;
        Fx { neg: a.neg && mag > 0, mag }
    } else {
        Fx { neg: b.neg, mag: b.mag - a.mag }
    }
}

/// Exact negation.
pub fn fx_neg(a: Fx) -> (r: Fx)
    ensures
        fx_val(r) == -fx_val(a),
{
    Fx { neg: !a.neg && a.mag > 0, mag: a.mag }
}

/// Saturating subtraction.
pub fn fx_sub(a: Fx, b: Fx) -> (r: Fx)
    ensures
        fx_val(r) == fx_add_val(fx_val(a), -fx_val(b)),
{
    fx_add(a, fx_neg(b))
}

/// Strict order on values.
pub fn fx_lt(a: Fx, b: Fx) -> (r: bool)
    ensures
        r == (fx_val(a) < fx_val(b)),
{
    if a.neg && !b.neg {
        !(a.mag == 0 && b.mag == 0)
    } else if !a.neg && b.neg {
        false
    } else if !a.neg && !b.neg {
        a.mag < b.mag
    } else {
        b.mag < a.mag
    }
}

/// Non-strict order on values.
pub fn fx_le(a: Fx, b: Fx) -> (r: bool)
    ensures
        r == (fx_val(a) <= fx_val(b)),
{
    !fx_lt(b, a)
}

/// Saturating product.
pub fn fx_mul(a: Fx, b: Fx) -> (r: Fx)
    ensures
        fx_val(r) == fx_mul_val(fx_val(a), fx_val(b)),
{
    proof {
        assert((a.mag as int) * (b.mag as int) <= (u64::MAX as int) * (u64::MAX as int))
            by (nonlinear_arith)
            requires
                a.mag <= u64::MAX,
                b.mag <= u64::MAX,
        ;
    }
    let p: u128 = (a.mag as u128) * (b.mag as u128);
    let q: u128 = p / (FX_SCALE as u128);
    let mag: u64 = if q > (u64::MAX as u128) {
        u64::MAX
    } else {
        q as u64
    };
    let r = Fx { neg: (a.neg != b.neg) && mag > 0, mag };
    proof {
        let ghost av = fx_val(a);
        let ghost bv = fx_val(b);
        let ghost m = (vstd::math::abs(av) * vstd::math::abs(bv)) as int / (FX_SCALE as int);
        assert(vstd::math::abs(av) == a.mag as int);
        assert(vstd::math::abs(bv) == b.mag as int);
        assert(q as int == (a.mag as int) * (b.mag as int) / (FX_SCALE as int));
        assert(m == q as int);
        assert(mag as int == fx_sat_mag(m));
        assert(((a.mag as int) * (b.mag as int) == 0) <==> (a.mag == 0 || b.mag == 0))
            by (nonlinear_arith)
        ;
        if mag > 0 {
            assert(a.mag > 0 && b.mag > 0);
            assert(((av < 0) <==> (bv < 0)) == (a.neg == b.neg));
        }
        assert(fx_val(r) == fx_mul_val(av, bv));
    }
    r
}

/// Saturating quotient; the divisor must not be zero.
pub fn fx_div(a: Fx, b: Fx) -> (r: Fx)
    requires
        fx_val(b) != 0,
    ensures
        fx_val(r) == fx_div_val(fx_val(a), fx_val(b)),
{
    proof {
        assert((a.mag as int) * (FX_SCALE as int) <= (u64::MAX as int) * (FX_SCALE as int))
            by (nonlinear_arith)
            requires
                a.mag <= u64::MAX,
        ;
    }
    let p: u128 = (a.mag as u128) * (FX_SCALE as u128);
    let q: u128 = p / (b.mag as u128);
    proof {
        assert(vstd::math::abs(fx_val(a)) == a.mag as int);
        assert(vstd::math::abs(fx_val(b)) == b.mag as int);
        assert(q as int == (a.mag as int) * (FX_SCALE as int) / (b.mag as int));
    }
    let mag: u64 = if q > (u64::MAX as u128) {
        u64::MAX
    } else {
        q as u64
    };
    Fx { neg: (a.neg != b.neg) && mag > 0, mag }
}

/// Raw fixed-point value of ln(2).
pub const LN2_RAW: u64 = 11629080;

/// Raw fixed-point value of log2(e).
pub const LOG2E_RAW: u64 = 24204406;

/// Normalization of a magnitude below one: doubles until the mantissa reaches
/// `[FX_SCALE, 2*FX_SCALE)`, counting the binary exponent down.
pub open spec fn ln_norm_up(m: nat, e: int) -> (nat, int)
    decreases 2 * FX_SCALE - m,
{
    if m < 1 {
        (0 as nat, 0 as int)
    } else if m >= FX_SCALE {
        (m, e)
    } else {
        ln_norm_up(2 * m, e - 1)
    }
}

/// Normalization of a large magnitude: halves until the mantissa falls below
/// `2*FX_SCALE`, counting the binary exponent up.
pub open spec fn ln_norm_down(m: nat, e: int) -> (nat, int)
    decreases m,
{
    if m < 2 * FX_SCALE {
        (m, e)
    } else {
        ln_norm_down(m / 2, e + 1)
    }
}

/// Mantissa and binary exponent of a positive raw magnitude.
pub open spec fn ln_norm(m: nat) -> (nat, int) {
    if m < FX_SCALE {
        ln_norm_up(m, 0)
    } else {
        ln_norm_down(m, 0)
    }
}

/// The `k` binary fraction digits of the base-two logarithm of a mantissa in
/// `[FX_SCALE, 2*FX_SCALE)`, by repeated squaring with truncation.
pub open spec fn ln_frac(m: nat, k: nat, acc: nat) -> nat
    decreases k,
{
    if k == 0 {
        acc
    } else {
        let m2 = m * m / (FX_SCALE as nat);
        if m2 >= 2 * FX_SCALE {
            ln_frac(m2 / 2, (k - 1) as nat, 2 * acc + 1)
        } else {
            ln_frac(m2, (k - 1) as nat, 2 * acc)
        }
    }
}

/// Raw value of the natural logarithm of a positive raw value `q`: the base-two
/// logarithm from normalization and 24 fraction digits, rescaled by ln(2).
pub open spec fn fx_ln_val(q: int) -> int {
    let norm = ln_norm(q as nat);
    let l2 = norm.1 * FX_SCALE + ln_frac(norm.0, 24, 0);
    fx_mul_val(l2, LN2_RAW as int)
}

/// Natural logarithm of a positive scalar (at least one raw unit, so at least
/// 2^-24), truncated to fixed point.
pub fn fx_ln(x: Fx) -> (r: Fx)
    requires
        1 <= fx_val(x),
    ensures
        fx_val(r) == fx_ln_val(fx_val(x)),
{
    let mut m: u64 = x.mag;
    let mut e: i64 = 0;
    proof {
        vstd::arithmetic::power2::lemma2_to64();
        vstd::arithmetic::power2::lemma2_to64_rest();
    }
    if m < FX_SCALE {
        while m < FX_SCALE
            invariant
                1 <= m < 2 * FX_SCALE,
                -24 <= e <= 0,
                pow2((-e) as nat) <= m,
                ln_norm_up(m as nat, e as int) == ln_norm_up(x.mag as nat, 0),
            decreases 2 * FX_SCALE - m,
        {
            proof {
                vstd::arithmetic::power2::lemma2_to64();
                if -e >= 24 {
                    vstd::arithmetic::power2::lemma_pow2_strictly_increases(24, (-e) as nat);
                    assert(false);
                }
                vstd::arithmetic::power2::lemma_pow2_unfold((-(e - 1)) as nat);
            }
            m = 2 * m;
            e = e - 1;
        }
    } else {
        proof {
            assert(pow2(0) == 1);
            assert(pow2(0) * (m as int) == m as int) by (nonlinear_arith)
                requires
                    pow2(0) == 1,
            ;
        }
        while m >= 2 * FX_SCALE
            invariant
                FX_SCALE <= m,
                0 <= e <= 63,
                pow2(e as nat) * (m as int) <= x.mag,
                ln_norm_down(m as nat, e as int) == ln_norm_down(x.mag as nat, 0),
            decreases m,
        {
            proof {
                vstd::arithmetic::power2::lemma_pow2_unfold((e + 1) as nat);
                assert(2 * (m as int / 2) <= m as int);
                assert(pow2((e + 1) as nat) * (m as int / 2) <= pow2(e as nat) * (m as int))
                    by (nonlinear_arith)
                    requires
                        pow2((e + 1) as nat) == 2 * pow2(e as nat),
                        2 * (m as int / 2) <= m as int,
                        pow2(e as nat) >= 0,
                ;
                if e + 1 > 63 {
                    vstd::arithmetic::power2::lemma2_to64();
                    vstd::arithmetic::power2::lemma2_to64_rest();
                    vstd::arithmetic::power2::lemma_pow2_strictly_increases(63, (e + 1) as nat);
                    assert(pow2((e + 1) as nat) * (m as int / 2) >= pow2(64) * FX_SCALE)
                        by (nonlinear_arith)
                        requires
                            pow2((e + 1) as nat) >= pow2(64),
                            m as int / 2 >= FX_SCALE,
                    ;
                    assert(false);
                }
            }
            m = m / 2;
            e = e + 1;
        }
    }
    let ghost norm = ln_norm(x.mag as nat);
    proof {
        assert(norm.0 == m as nat && norm.1 == e as int);
    }
    let mut frac: u64 = 0;
    let mut k: u64 = 24;
    while k > 0
        invariant
            FX_SCALE <= m < 2 * FX_SCALE,
            k <= 24,
            frac + 1 <= pow2((24 - k) as nat),
            ln_frac(m as nat, k as nat, frac as nat) == ln_frac(norm.0, 24, 0),
        decreases k,
    {
        proof {
            vstd::arithmetic::power2::lemma2_to64();
            vstd::arithmetic::power2::lemma_pow2_unfold((24 - (k - 1)) as nat);
            if 24 - k >= 0 {
                vstd::arithmetic::power2::lemma_pow2_strictly_increases(
                    (24 - k) as nat,
                    25,
                );
            }
            assert((m as int) * (m as int) <= 0x1ff_ffff * 0x1ff_ffff)
                by (nonlinear_arith)
                requires
                    m <= 0x1ff_ffff,
            ;
            assert((m as int) * (m as int) >= (FX_SCALE as int) * (FX_SCALE as int))
                by (nonlinear_arith)
                requires
                    m >= FX_SCALE,
            ;
        }
        let sq: u64 = m * m;
        let m2: u64 = sq / FX_SCALE;
        proof {
            vstd::arithmetic::div_mod::lemma_div_is_ordered(
                (FX_SCALE as int) * (FX_SCALE as int),
                sq as int,
                FX_SCALE as int,
            );
            vstd::arithmetic::div_mod::lemma_div_by_multiple(FX_SCALE as int, FX_SCALE as int);
            vstd::arithmetic::div_mod::lemma_div_is_ordered(
                sq as int,
                0x1ff_ffff as int * 0x1ff_ffff as int,
                FX_SCALE as int,
            );
            assert(0x1ff_ffff as int * 0x1ff_ffff as int / (FX_SCALE as int) < 4 * FX_SCALE);
        }
        if m2 >= 2 * FX_SCALE {
            m = m2 / 2;
            frac = 2 * frac + 1;
        } else {
            m = m2;
            frac = 2 * frac;
        }
        k = k - 1;
    }
    let l2: Fx = if e >= 0 {
        Fx { neg: false, mag: (e as u64) * FX_SCALE + frac }
    } else {
        let em: u64 = ((-e) as u64) * FX_SCALE;
        if em >= frac {
            Fx { neg: em > frac, mag: em - frac }
        } else {
            Fx { neg: false, mag: frac - em }
        }
    };
    proof {
        assert(fx_val(l2) == norm.1 * FX_SCALE + ln_frac(norm.0, 24, 0));
    }
    fx_mul(l2, Fx { neg: false, mag: LN2_RAW })
}

/// Raw fixed-point value of 2^(2^-i), the constants of the binary
/// exponentiation table.
pub open spec fn exp_c(i: nat) -> nat {
    if i == 1 {
        23726566
    } else if i == 2 {
        19951585
    } else if i == 3 {
        18295684
    } else if i == 4 {
        17520007
    } else if i == 5 {
        17144589
    } else if i == 6 {
        16959908
    } else if i == 7 {
        16868315
    } else if i == 8 {
        16822704
    } else if i == 9 {
        16799944
    } else if i == 10 {
        16788576
    } else if i == 11 {
        16782895
    } else if i == 12 {
        16780055
    } else if i == 13 {
        16778636
    } else if i == 14 {
        16777926
    } else if i == 15 {
        16777571
    } else if i == 16 {
        16777393
    } else if i == 17 {
        16777305
    } else if i == 18 {
        16777260
    } else if i == 19 {
        16777238
    } else if i == 20 {
        16777227
    } else if i == 21 {
        16777222
    } else if i == 22 {
        16777219
    } else if i == 23 {
        16777217
    } else {
        16777217
    }
}

fn exp_c_at(i: u64) -> (c: u64)
    ensures
        c as nat == exp_c(i as nat),
        FX_SCALE < c < 2 * FX_SCALE,
{
    match i {
        1 => 23726566,
        2 => 19951585,
        3 => 18295684,
        4 => 17520007,
        5 => 17144589,
        6 => 16959908,
        7 => 16868315,
        8 => 16822704,
        9 => 16799944,
        10 => 16788576,
        11 => 16782895,
        12 => 16780055,
        13 => 16778636,
        14 => 16777926,
        15 => 16777571,
        16 => 16777393,
        17 => 16777305,
        18 => 16777260,
        19 => 16777238,
        20 => 16777227,
        21 => 16777222,
        22 => 16777219,
        23 => 16777217,
        _ => 16777217,
    }
}

/// One multiplication step of the binary exponentiation, clamped into
/// `[0, 2*FX_SCALE]` so that the accumulator keeps its bounds.
pub open spec fn pf_step(acc: nat, c: nat) -> nat {
    let t = acc * c / (FX_SCALE as nat);
    if t > 2 * FX_SCALE {
        (2 * FX_SCALE) as nat
    } else {
        t
    }
}

/// 2^(f/FX_SCALE) for a fraction `f < FX_SCALE`, walking the fraction's bits
/// from the most significant downward.
pub open spec fn pow2_frac(f: nat, i: nat, acc: nat) -> nat
    decreases 25 - i,
{
    if i > 24 {
        acc
    } else {
        let th = pow2((24 - i) as nat);
        if f >= th {
            pow2_frac((f - th) as nat, i + 1, pf_step(acc, exp_c(i)))
        } else {
            pow2_frac(f, i + 1, acc)
        }
    }
}

/// Raw value of e^(v/FX_SCALE) for a non-negative raw value `v`: the exponent
/// is rescaled to base two, split into whole and fractional binary digits, and
/// both parts are applied.
pub open spec fn fx_exp_val(v: int) -> int {
    let t = v * (LOG2E_RAW as int) / (FX_SCALE as int);
    let k = t / (FX_SCALE as int);
    let f = t % (FX_SCALE as int);
    (pow2(k as nat) * pow2_frac(f as nat, 1, FX_SCALE as nat)) as int
}

proof fn lemma_div_below(a: int, c: int, d: int)
    requires
        0 <= a,
        0 < d,
        0 < c,
        a < c * d,
    ensures
        a / d < c,
{
    vstd::arithmetic::div_mod::lemma_div_is_ordered(a, c * d - 1, d);
    assert(c * d - 1 == (c - 1) * d + (d - 1)) by (nonlinear_arith);
    vstd::arithmetic::div_mod::lemma_fundamental_div_mod_converse(c * d - 1, d, c - 1, d - 1);
}

/// Raw magnitude of e^(mag/FX_SCALE) for `mag` at most 15, saturating
/// exponentiation of a non-negative scalar.
fn fx_exp_mag(mag: u64) -> (em: u64)
    requires
        mag <= 15 * FX_SCALE,
    ensures
        em as int == fx_exp_val(mag as int),
        FX_SCALE <= em <= 0x4000_0000_0000,
{
    proof {
        vstd::arithmetic::div_mod::lemma_div_is_ordered(
            (mag as int) * (LOG2E_RAW as int),
            (15 * FX_SCALE) as int * (LOG2E_RAW as int),
            FX_SCALE as int,
        );
        vstd::arithmetic::div_mod::lemma_div_multiples_vanish(
            15 * (LOG2E_RAW as int),
            FX_SCALE as int,
        );
        assert((15 * FX_SCALE) as int * (LOG2E_RAW as int) == (FX_SCALE as int) * (15 * (
        LOG2E_RAW as int)))
            by (nonlinear_arith)
        ;
    }
    let t: u64 = mag * LOG2E_RAW / FX_SCALE;
    let kk: u64 = t / FX_SCALE;
    let f: u64 = t % FX_SCALE;
    proof {
        assert(t <= 363066090);
        assert(kk <= 21);
        assert(f < FX_SCALE);
        vstd::arithmetic::power2::lemma2_to64();
    }
    let mut acc: u64 = FX_SCALE;
    let mut rem: u64 = f;
    let mut th: u64 = 0x80_0000;
    let mut i: u64 = 1;
    while i <= 24
        invariant
            1 <= i <= 25,
            i <= 24 ==> th as nat == pow2((24 - i) as nat),
            FX_SCALE <= acc <= 2 * FX_SCALE,
            pow2_frac(rem as nat, i as nat, acc as nat) == pow2_frac(
                f as nat,
                1,
                FX_SCALE as nat,
            ),
        decreases 25 - i,
    {
        let c: u64 = exp_c_at(i);
        proof {
            assert((acc as int) * (c as int) <= 0x200_0000 * 0x200_0000) by (nonlinear_arith)
                requires
                    acc <= 0x200_0000,
                    c <= 0x200_0000,
            ;
            assert((acc as int) * (c as int) >= (acc as int) * (FX_SCALE as int))
                by (nonlinear_arith)
                requires
                    c >= FX_SCALE,
                    acc >= 0,
            ;
            vstd::arithmetic::div_mod::lemma_div_is_ordered(
                (acc as int) * (FX_SCALE as int),
                (acc as int) * (c as int),
                FX_SCALE as int,
            );
            vstd::arithmetic::div_mod::lemma_div_multiples_vanish(acc as int, FX_SCALE as int);
            assert((acc as int) * (FX_SCALE as int) == (FX_SCALE as int) * (acc as int))
                by (nonlinear_arith)
            ;
            if i < 24 {
                vstd::arithmetic::power2::lemma_pow2_unfold((24 - i) as nat);
            }
        }
        let t2: u64 = acc * c / FX_SCALE;
        let acc2: u64 = if t2 > 2 * FX_SCALE {
            2 * FX_SCALE
        } else {
            t2
        };
        if rem >= th {
            rem = rem - th;
            acc = acc2;
        }
        th = th / 2;
        i = i + 1;
    }
    proof {
        vstd::arithmetic::power2::lemma2_to64();
        if kk > 0 {
            vstd::arithmetic::power2::lemma_pow2_strictly_increases((kk - 1) as nat, 21);
        }
    }
    let mut p2: u64 = 1;
    let mut j: u64 = 0;
    while j < kk
        invariant
            j <= kk <= 21,
            p2 as nat == pow2(j as nat),
            p2 <= 0x20_0000,
        decreases kk - j,
    {
        proof {
            vstd::arithmetic::power2::lemma2_to64();
            vstd::arithmetic::power2::lemma_pow2_unfold((j + 1) as nat);
            if j + 1 <= 21 {
                if j + 1 < 21 {
                    vstd::arithmetic::power2::lemma_pow2_strictly_increases((j + 1) as nat, 21);
                }
            }
        }
        p2 = 2 * p2;
        j = j + 1;
    }
    proof {
        assert((acc as int) * (p2 as int) <= 0x200_0000 * 0x20_0000) by (nonlinear_arith)
            requires
                acc <= 0x200_0000,
                p2 <= 0x20_0000,
        ;
        assert((acc as int) * (p2 as int) >= (FX_SCALE as int) * 1) by (nonlinear_arith)
            requires
                acc >= FX_SCALE,
                p2 >= 1,
        ;
        assert((p2 as int) * (acc as int) == (acc as int) * (p2 as int)) by (nonlinear_arith);
    }
    p2 * acc
}

/// Raw value of the logistic function 1/(1+e^-v), saturating to 0 and 1
/// outside (-15, 15).
pub open spec fn sigmoid_val(v: int) -> int {
    if v >= 15 * FX_SCALE {
        FX_SCALE as int
    } else if v <= -15 * (FX_SCALE as int) {
        0
    } else if v >= 0 {
        let e = fx_exp_val(v);
        e * FX_SCALE / (FX_SCALE + e)
    } else {
        let e = fx_exp_val(-v);
        (FX_SCALE as int) * (FX_SCALE as int) / (FX_SCALE + e)
    }
}

/// The logistic function: maps a raw mixing sum back to a probability.
pub fn sigmoid(x: Fx) -> (r: Fx)
    ensures
        fx_val(r) == sigmoid_val(fx_val(x)),
{
    let neg: bool = x.neg && x.mag > 0;
    if !neg && x.mag >= 15 * FX_SCALE {
        Fx::one()
    } else if neg && x.mag >= 15 * FX_SCALE {
        Fx::zero()
    } else {
        let em: u64 = fx_exp_mag(x.mag);
        let den: u64 = FX_SCALE + em;
        if !neg {
            let num: u128 = (em as u128) * (FX_SCALE as u128);
            proof {
                assert((em as int) * (FX_SCALE as int) < (FX_SCALE as int) * (den as int))
                    by (nonlinear_arith)
                    requires
                        den == FX_SCALE + em,
                        0 < FX_SCALE,
                        0 < em,
                ;
                lemma_div_below((em as int) * (FX_SCALE as int), FX_SCALE as int, den as int);
            }
            let q: u128 = num / (den as u128);
            Fx { neg: false, mag: q as u64 }
        } else {
            let num: u128 = (FX_SCALE as u128) * (FX_SCALE as u128);
            proof {
                assert((FX_SCALE as int) * (FX_SCALE as int) < (FX_SCALE as int) * (den as int))
                    by (nonlinear_arith)
                    requires
                        den == FX_SCALE + em,
                        0 < em,
                        0 < FX_SCALE,
                ;
                lemma_div_below(
                    (FX_SCALE as int) * (FX_SCALE as int),
                    FX_SCALE as int,
                    den as int,
                );
            }
            let q: u128 = num / (den as u128);
            Fx { neg: false, mag: q as u64 }
        }
    }
}

/// The raw values of a sequence of scalars.
pub open spec fn fx_vals(s: Seq<Fx>) -> Seq<int> {
    s.map(|i: int, x: Fx| fx_val(x))
}

/// A fresh copy of a scalar vector, equal entry by entry.
pub fn fx_vec_clone(v: &Vec<Fx>) -> (r: Vec<Fx>)
    ensures
        r@ == v@,
{
    let mut out: Vec<Fx> = Vec::new();
    let mut idx: usize = 0;
    while idx < v.len()
        invariant
            idx <= v.len(),
            out@ == v@.subrange(0, idx as int),
        decreases v.len() - idx,
    {
        out.push(v[idx]);
        idx = idx + 1;
    }
    proof {
        assert(out@ =~= v@);
    }
    out
}

/// Raw value of the saturating dot product of the first `n` coordinates.
pub open spec fn dot_val(ws: Seq<int>, xs: Seq<int>, n: int) -> int
    decreases n,
{
    if n <= 0 {
        0
    } else {
        fx_add_val(dot_val(ws, xs, n - 1), fx_mul_val(ws[n - 1], xs[n - 1]))
    }
}

/// The dot product of two equally long vectors, accumulated with saturating
/// arithmetic.
pub fn fx_dot(ws: &Vec<Fx>, xs: &Vec<Fx>) -> (r: Fx)
    requires
        ws.len() == xs.len(),
    ensures
        fx_val(r) == dot_val(fx_vals(ws@), fx_vals(xs@), ws.len() as int),
{
    let mut sum = Fx::zero();
    let mut idx: usize = 0;
    while idx < ws.len()
        invariant
            idx <= ws.len(),
            ws.len() == xs.len(),
            fx_val(sum) == dot_val(fx_vals(ws@), fx_vals(xs@), idx as int),
        decreases ws.len() - idx,
    {
        sum = fx_add(sum, fx_mul(ws[idx], xs[idx]));
        idx = idx + 1;
    }
    sum
}

/// Raw value of clamping `v` into `[eps, 1 - eps]`.
pub open spec fn clip_prob_val(v: int, e: int) -> int {
    let hi = fx_add_val(FX_SCALE as int, -e);
    if v >= hi {
        hi
    } else if v <= e {
        e
    } else {
        v
    }
}

/// Clamps a probability into `[epsilon, 1 - epsilon]`.
pub fn clip_prob(value: Fx, epsilon: Fx) -> (r: Fx)
    ensures
        fx_val(r) == clip_prob_val(fx_val(value), fx_val(epsilon)),
{
    let hi = fx_sub(Fx::one(), epsilon);
    if fx_le(hi, value) {
        hi
    } else if fx_le(value, epsilon) {
        epsilon
    } else {
        value
    }
}

/// Raw value of clamping `v` into `[-edge, edge]`.
pub open spec fn clip_hypercube_val(v: int, e: int) -> int {
    if v >= e {
        e
    } else if v <= -e {
        -e
    } else {
        v
    }
}

/// Clamps a weight into the hypercube `[-edge, edge]`.
pub fn clip_hypercube(value: Fx, edge: Fx) -> (r: Fx)
    ensures
        fx_val(r) == clip_hypercube_val(fx_val(value), fx_val(edge)),
{
    if fx_le(edge, value) {
        edge
    } else {
        let ne = fx_neg(edge);
        if fx_le(value, ne) {
            ne
        } else {
            value
        }
    }
}

/// Raw value of the log-odds ln(v / (1 - v)) of a probability strictly inside
/// (0, 1).
pub open spec fn logit_val(v: int) -> int {
    fx_ln_val(fx_div_val(v, FX_SCALE - v))
}

/// The log-odds of a probability strictly inside (0, 1); callers clip first.
pub fn logit(p: Fx) -> (r: Fx)
    requires
        0 < fx_val(p) < FX_SCALE,
    ensures
        fx_val(r) == logit_val(fx_val(p)),
{
    let denom = fx_sub(Fx::one(), p);
    let q = fx_div(p, denom);
    proof {
        let v = fx_val(p);
        assert(v * FX_SCALE >= 1 * FX_SCALE) by (nonlinear_arith)
            requires
                v >= 1,
        ;
        vstd::arithmetic::div_mod::lemma_div_is_ordered(
            FX_SCALE - v,
            v * FX_SCALE,
            FX_SCALE - v,
        );
        vstd::arithmetic::div_mod::lemma_div_by_self(FX_SCALE - v);
    }
    fx_ln(q)
}

/// Raw value of the weighted sum of the log-odds of the first `n` clipped
/// inputs, accumulated with saturating arithmetic.
pub open spec fn mix_sum(ps: Seq<int>, ws: Seq<int>, eps: int, n: int) -> int
    decreases n,
{
    if n <= 0 {
        0
    } else {
        fx_add_val(
            mix_sum(ps, ws, eps, n - 1),
            fx_mul_val(ws[n - 1], logit_val(clip_prob_val(ps[n - 1], eps))),
        )
    }
}

/// Raw value of the geometric mixture: the logistic function of the weighted
/// log-odds sum of the clipped inputs.
pub open spec fn geometric_mixing_val(ps: Seq<int>, ws: Seq<int>, eps: int) -> int {
    sigmoid_val(mix_sum(ps, ws, eps, ps.len() as int))
}

/// The geometric mixture of the input probabilities under the given weights:
/// `sigmoid(sum_i w_i * logit(clip_prob(p_i, eps)))`.
pub fn geometric_mixing(probabilities: &Vec<Fx>, weights: &Vec<Fx>, clipping_value: Fx) -> (r:
    Fx)
    requires
        probabilities.len() == weights.len(),
        0 < fx_val(clipping_value) < FX_SCALE,
    ensures
        fx_val(r) == geometric_mixing_val(
            fx_vals(probabilities@),
            fx_vals(weights@),
            fx_val(clipping_value),
        ),
{
    let mut sum = Fx::zero();
    let mut idx: usize = 0;
    while idx < probabilities.len()
        invariant
            idx <= probabilities.len(),
            probabilities.len() == weights.len(),
            0 < fx_val(clipping_value) < FX_SCALE,
            fx_val(sum) == mix_sum(
                fx_vals(probabilities@),
                fx_vals(weights@),
                fx_val(clipping_value),
                idx as int,
            ),
        decreases probabilities.len() - idx,
    {
        let clipped = clip_prob(probabilities[idx], clipping_value);
        let lg = logit(clipped);
        sum = fx_add(sum, fx_mul(weights[idx], lg));
        idx = idx + 1;
    }
    sigmoid(sum)
}

/// Raw value of the logarithmic mixing loss: `-ln(g)` for a positive target,
/// `-ln(1 - g)` for a negative one.
pub open spec fn geometric_mixing_loss_val(target: int, g: int) -> int {
    if target == 1 {
        -fx_ln_val(g)
    } else {
        -fx_ln_val(fx_add_val(FX_SCALE as int, -g))
    }
}

/// The logarithmic loss of a prediction against a binary target. The target
/// must be 0 or 1, and the prediction must leave the chosen logarithm defined.
pub fn geometric_mixing_loss(target: i32, geo: Fx) -> (r: Fx)
    requires
        target == 0 || target == 1,
        target == 1 ==> 1 <= fx_val(geo),
        target == 0 ==> fx_val(geo) <= FX_SCALE - 1,
    ensures
        fx_val(r) == geometric_mixing_loss_val(target as int, fx_val(geo)),
{
    if target == 1 {
        fx_neg(fx_ln(geo))
    } else {
        let complement = fx_sub(Fx::one(), geo);
        fx_neg(fx_ln(complement))
    }
}

/// `r` is the fixed-point square root of the raw value `v`: the greatest
/// magnitude whose square does not exceed `v` rescaled.
pub open spec fn is_fx_sqrt(v: int, r: int) -> bool {
    0 <= r && r * r <= v * FX_SCALE && v * FX_SCALE < (r + 1) * (r + 1)
}

fn fx_isqrt(v: u64) -> (r: u64)
    ensures
        is_fx_sqrt(v as int, r as int),
{
    proof {
        assert((v as int) * (FX_SCALE as int) < 0x10_0000_0000_0000 * 0x10_0000_0000_0000)
            by (nonlinear_arith)
            requires
                v <= u64::MAX,
        ;
    }
    let x: u128 = (v as u128) * (FX_SCALE as u128);
    let mut lo: u64 = 0;
    let mut hi: u64 = 0x10_0000_0000_0000;
    while lo + 1 < hi
        invariant
            lo < hi <= 0x10_0000_0000_0000,
            x == (v as int) * (FX_SCALE as int),
            (lo as int) * (lo as int) <= x as int,
            (x as int) < (hi as int) * (hi as int),
        decreases hi - lo,
    {
        let mid: u64 = lo + (hi - lo) / 2;
        proof {
            assert((mid as int) * (mid as int) < u128::MAX) by (nonlinear_arith)
                requires
                    mid <= 0x10_0000_0000_0000,
            ;
        }
        let sq: u128 = (mid as u128) * (mid as u128);
        if sq <= x {
            lo = mid;
        } else {
            hi = mid;
        }
    }
    lo
}

/// Raw value of the sum of squares of the first `n` entries, with saturating
/// arithmetic.
pub open spec fn sum_squares(vs: Seq<int>, n: int) -> int
    decreases n,
{
    if n <= 0 {
        0
    } else {
        fx_add_val(sum_squares(vs, n - 1), fx_mul_val(vs[n - 1], vs[n - 1]))
    }
}

/// The Euclidean norm of a vector: the square root of its sum of squares.
pub fn norm(vector: &Vec<Fx>) -> (r: Fx)
    ensures
        is_fx_sqrt(sum_squares(fx_vals(vector@), vector@.len() as int), fx_val(r)),
{
    let mut sum = Fx::zero();
    let mut idx: usize = 0;
    while idx < vector.len()
        invariant
            idx <= vector.len(),
            fx_val(sum) == sum_squares(fx_vals(vector@), idx as int),
            0 <= fx_val(sum),
        decreases vector.len() - idx,
    {
        let entry = vector[idx];
        sum = fx_add(sum, fx_mul(entry, entry));
        idx = idx + 1;
    }
    proof {
        assert(sum.mag as int == fx_val(sum));
    }
    let mag = fx_isqrt(sum.mag);
    Fx { neg: false, mag }
}

/// The number of predictions among the first `n` whose class, thresholded at
/// one half, matches the label.
pub open spec fn correct_count(ps: Seq<int>, ls: Seq<int>, n: int) -> int
    decreases n,
{
    if n <= 0 {
        0
    } else {
        correct_count(ps, ls, n - 1) + (
        if (ps[n - 1] >= FX_SCALE / 2) == (ls[n - 1] == 1) {
            1int
        } else {
            0int
        })
    }
}

/// The fraction of predictions whose class, thresholded at one half, matches
/// the true label.
pub fn accuracy(predictions: &Vec<Fx>, labels: &Vec<i32>) -> (r: Fx)
    requires
        predictions.len() == labels.len(),
        0 < predictions.len() < 0x8000_0000_0000_0000,
    ensures
        fx_val(r) == fx_div_val(
            fx_from_int_val(
                correct_count(
                    fx_vals(predictions@),
                    labels@.map(|i: int, l: i32| l as int),
                    predictions@.len() as int,
                ),
            ),
            fx_from_int_val(predictions@.len() as int),
        ),
{
    let ghost ls = labels@.map(|i: int, l: i32| l as int);
    let mut count: usize = 0;
    let mut idx: usize = 0;
    let half = Fx { neg: false, mag: FX_SCALE / 2 };
    while idx < predictions.len()
        invariant
            idx <= predictions.len(),
            predictions.len() == labels.len(),
            count <= idx,
            fx_val(half) == FX_SCALE / 2,
            ls == labels@.map(|i: int, l: i32| l as int),
            count as int == correct_count(fx_vals(predictions@), ls, idx as int),
        decreases predictions.len() - idx,
    {
        let class_one = fx_le(half, predictions[idx]);
        if class_one == (labels[idx] == 1) {
            count = count + 1;
        }
        idx = idx + 1;
    }
    Fx::from_ratio(count as i64, predictions.len() as i64)
}

/// Law: the fixed-point logarithm is exact at one — ln(1) is zero — and with
/// it the log-odds of one half are exactly zero.
pub proof fn lemma_ln_one()
    ensures
        fx_ln_val(FX_SCALE as int) == 0,
        logit_val((FX_SCALE / 2) as int) == 0,
{
    reveal_with_fuel(ln_frac, 25);
    assert(ln_norm(FX_SCALE as nat) == ((FX_SCALE as nat, 0int)));
    assert(ln_frac(FX_SCALE as nat, 24, 0) == 0);
    assert(fx_ln_val(FX_SCALE as int) == fx_mul_val(0, LN2_RAW as int));
    vstd::arithmetic::div_mod::lemma_fundamental_div_mod_converse(
        (FX_SCALE / 2) as int * (FX_SCALE as int),
        (FX_SCALE / 2) as int,
        FX_SCALE as int,
        0,
    );
    assert(fx_div_val((FX_SCALE / 2) as int, FX_SCALE - (FX_SCALE / 2) as int)
        == FX_SCALE as int);
}

/// Law: the logistic function is exact at zero: an untrained, perfectly
/// balanced mixture answers exactly one half.
pub proof fn lemma_sigmoid_half()
    ensures
        sigmoid_val(0) == FX_SCALE / 2,
{
    reveal_with_fuel(pow2_frac, 26);
    vstd::arithmetic::power2::lemma2_to64();
    assert(0 * (LOG2E_RAW as int) / (FX_SCALE as int) == 0);
    assert(pow2_frac(0, 25, FX_SCALE as nat) == FX_SCALE);
    assert(pow2_frac(0, 24, FX_SCALE as nat) == FX_SCALE);
    assert(pow2_frac(0, 1, FX_SCALE as nat) == FX_SCALE);
    assert(fx_exp_val(0) == FX_SCALE);
    assert((FX_SCALE as int) * (FX_SCALE as int) / (FX_SCALE + FX_SCALE as int) == FX_SCALE
        / 2);
}

/// Law: the logistic function inverts the log-odds exactly at one half:
/// `sigmoid(logit(1/2)) == 1/2`. (The general round trip holds only within
/// the arithmetic's resolution, so it is exercised by tests rather than
/// stated as a law here.)
pub proof fn lemma_round_trip_at_half()
    ensures
        sigmoid_val(logit_val((FX_SCALE / 2) as int)) == FX_SCALE / 2,
{
    lemma_ln_one();
    lemma_sigmoid_half();
}

/// Law: clamping into `[eps, 1 - eps]` is idempotent — clipping an already
/// clipped probability returns it unchanged — whenever `eps` is at most one
/// half. (For `eps` above one half the two clip bounds cross and a second clip
/// can move the value, so those `eps` are left out.)
pub proof fn lemma_clip_prob_idempotent(v: int, e: int)
    requires
        2 * e <= FX_SCALE,
    ensures
        clip_prob_val(clip_prob_val(v, e), e) == clip_prob_val(v, e),
{
}

/// Law: with a clipping bound strictly between 0 and 1, a clipped probability
/// lands strictly inside (0, 1), so its log-odds are defined.
pub proof fn lemma_clip_prob_in_unit(v: int, e: int)
    requires
        0 < e < FX_SCALE,
    ensures
        0 < clip_prob_val(v, e) < FX_SCALE,
{
}

proof fn lemma_pow2_frac_bounds(f: nat, i: nat, acc: nat)
    requires
        1 <= i,
        FX_SCALE <= acc <= 2 * FX_SCALE,
    ensures
        FX_SCALE <= pow2_frac(f, i, acc) <= 2 * FX_SCALE,
    decreases 25 - i,
{
    if i > 24 {
    } else {
        let th = pow2((24 - i) as nat);
        let c = exp_c(i);
        let t = acc * c / (FX_SCALE as nat);
        assert(acc * c >= acc * FX_SCALE) by (nonlinear_arith)
            requires
                c >= FX_SCALE,
                acc >= 0,
        ;
        assert(acc * FX_SCALE == FX_SCALE * acc) by (nonlinear_arith);
        vstd::arithmetic::div_mod::lemma_div_is_ordered(
            (acc * FX_SCALE) as int,
            (acc * c) as int,
            FX_SCALE as int,
        );
        vstd::arithmetic::div_mod::lemma_div_multiples_vanish(acc as int, FX_SCALE as int);
        assert(FX_SCALE <= pf_step(acc, c) <= 2 * FX_SCALE);
        if f >= th {
            lemma_pow2_frac_bounds((f - th) as nat, i + 1, pf_step(acc, c));
        } else {
            lemma_pow2_frac_bounds(f, i + 1, acc);
        }
    }
}

proof fn lemma_exp_val_bounds(v: int)
    requires
        0 <= v <= 15 * FX_SCALE,
    ensures
        FX_SCALE <= fx_exp_val(v) <= 0x4000_0000_0000,
{
    let t = v * (LOG2E_RAW as int) / (FX_SCALE as int);
    let k = t / (FX_SCALE as int);
    let f = t % (FX_SCALE as int);
    vstd::arithmetic::div_mod::lemma_div_is_ordered(
        v * (LOG2E_RAW as int),
        (15 * FX_SCALE) as int * (LOG2E_RAW as int),
        FX_SCALE as int,
    );
    vstd::arithmetic::div_mod::lemma_div_multiples_vanish(
        15 * (LOG2E_RAW as int),
        FX_SCALE as int,
    );
    assert((15 * FX_SCALE) as int * (LOG2E_RAW as int) == (FX_SCALE as int) * (15 * (
    LOG2E_RAW as int)))
        by (nonlinear_arith)
    ;
    assert(v * (LOG2E_RAW as int) >= 0) by (nonlinear_arith)
        requires
            v >= 0,
    ;
    vstd::arithmetic::div_mod::lemma_div_pos_is_pos(v * (LOG2E_RAW as int), FX_SCALE as int);
    vstd::arithmetic::div_mod::lemma_div_pos_is_pos(t, FX_SCALE as int);
    assert(t <= 363066090);
    vstd::arithmetic::div_mod::lemma_div_is_ordered(t, 363066090, FX_SCALE as int);
    assert(0 <= k <= 21);
    vstd::arithmetic::div_mod::lemma_mod_pos_bound(t, FX_SCALE as int);
    lemma_pow2_frac_bounds(f as nat, 1, FX_SCALE as nat);
    vstd::arithmetic::power2::lemma2_to64();
    if k < 21 {
        vstd::arithmetic::power2::lemma_pow2_strictly_increases(k as nat, 21);
    }
    let pf = pow2_frac(f as nat, 1, FX_SCALE as nat);
    assert(pow2(k as nat) * pf >= 1 * FX_SCALE) by (nonlinear_arith)
        requires
            pow2(k as nat) >= 1,
            pf >= FX_SCALE,
    ;
    assert(pow2(k as nat) * pf <= 0x20_0000 * (2 * FX_SCALE)) by (nonlinear_arith)
        requires
            pow2(k as nat) <= 0x20_0000,
            pf <= 2 * FX_SCALE,
    ;
}

/// Law: the logistic function stays strictly inside (0, 1) wherever it has not
/// saturated, that is for every raw argument strictly between -15 and 15.
pub proof fn lemma_sigmoid_in_unit(v: int)
    requires
        -15 * (FX_SCALE as int) < v < 15 * (FX_SCALE as int),
    ensures
        0 < sigmoid_val(v) < FX_SCALE,
{
    if v >= 0 {
        let e = fx_exp_val(v);
        lemma_exp_val_bounds(v);
        assert(e * FX_SCALE >= FX_SCALE + e) by (nonlinear_arith)
            requires
                e >= FX_SCALE,
                FX_SCALE >= 2,
        ;
        vstd::arithmetic::div_mod::lemma_div_is_ordered(
            FX_SCALE + e,
            e * FX_SCALE,
            FX_SCALE + e,
        );
        vstd::arithmetic::div_mod::lemma_div_by_self(FX_SCALE + e);
        assert(e * FX_SCALE < FX_SCALE * (FX_SCALE + e)) by (nonlinear_arith)
            requires
                e > 0,
                FX_SCALE >= 2,
        ;
        lemma_div_below(e * FX_SCALE, FX_SCALE as int, FX_SCALE + e);
    } else {
        let e = fx_exp_val(-v);
        lemma_exp_val_bounds(-v);
        assert((FX_SCALE as int) * (FX_SCALE as int) >= FX_SCALE + e);
        vstd::arithmetic::div_mod::lemma_div_is_ordered(
            FX_SCALE + e,
            (FX_SCALE as int) * (FX_SCALE as int),
            FX_SCALE + e,
        );
        vstd::arithmetic::div_mod::lemma_div_by_self(FX_SCALE + e);
        assert((FX_SCALE as int) * (FX_SCALE as int) < FX_SCALE * (FX_SCALE + e))
            by (nonlinear_arith)
            requires
                e > 0,
                FX_SCALE >= 2,
        ;
        lemma_div_below(
            (FX_SCALE as int) * (FX_SCALE as int),
            FX_SCALE as int,
            FX_SCALE + e,
        );
    }
}

/// Law: the logistic function always returns a probability, saturation
/// included: its raw value lies in the closed interval `[0, 1]`.
pub proof fn lemma_sigmoid_range(v: int)
    ensures
        0 <= sigmoid_val(v) <= FX_SCALE,
{
    if -15 * (FX_SCALE as int) < v < 15 * (FX_SCALE as int) {
        lemma_sigmoid_in_unit(v);
    }
}

/// Law: a geometric mixture is strictly inside (0, 1) whenever its weighted
/// log-odds sum has not saturated the logistic function, that is whenever that
/// sum lies strictly between -15 and 15. (A weight vector large enough to push
/// the sum to 15 drives the fixed-point mixture to exactly 0 or 1, so those
/// inputs are left out; for them the weaker closed bound below still holds.)
pub proof fn lemma_geometric_mixing_in_unit(ps: Seq<int>, ws: Seq<int>, eps: int)
    requires
        -15 * (FX_SCALE as int) < mix_sum(ps, ws, eps, ps.len() as int) < 15 * (
        FX_SCALE as int),
    ensures
        0 < geometric_mixing_val(ps, ws, eps) < FX_SCALE,
{
    lemma_sigmoid_in_unit(mix_sum(ps, ws, eps, ps.len() as int));
}

/// Law: a geometric mixture is always a probability: its raw value lies in the
/// closed interval `[0, 1]`, whatever the weights and inputs.
pub proof fn lemma_geometric_mixing_range(ps: Seq<int>, ws: Seq<int>, eps: int)
    ensures
        0 <= geometric_mixing_val(ps, ws, eps) <= FX_SCALE,
{
    lemma_sigmoid_range(mix_sum(ps, ws, eps, ps.len() as int));
}

} // verus!
