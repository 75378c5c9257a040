//! A decimal leaves the shell for JSON at `f32` precision: its `f64` is
//! rounded to the nearest `f32` (ties to even) and widened back, and one
//! larger in magnitude than `f32::MAX` (or not finite) does not leave at all.
//! All of it is computed on the bits of the `f64` with whole numbers.

use vstd::prelude::*;
use vstd::arithmetic::power2::{
    pow2, lemma2_to64, lemma2_to64_rest, lemma_pow2_unfold, lemma_pow2_adds,
    lemma_pow2_strictly_increases,
};
use vstd::bits::{lemma_u64_shl_is_mul, lemma_u64_pow2_no_overflow};

verus! {

/// The sign bit of an `f64`.
pub const SIGN_BIT: u64 = 0x8000_0000_0000_0000;

/// One step of the biased exponent of an `f64` (the weight of its lowest exponent bit).
pub const EXPONENT_STEP: u64 = 0x10_0000_0000_0000;

/// The bits of the `f64` equal to `f32::MAX`.
pub const F32_MAX_AS_F64_BITS: u64 = 0x47EF_FFFF_E000_0000;

/// The quotient `q` rounded to the nearest whole number by its remainder `r`
/// against half the divisor `h`: up when `r` is above `h`, and on a tie up
/// only when that makes the result even.
pub open spec fn round_half_even(q: int, r: int, h: int) -> int {
    if r > h || (r == h && q % 2 == 1) {
        q + 1
    } else {
        q
    }
}

/// The position of the highest set bit of `m` (0 for 0 and 1).
pub open spec fn floor_log2(m: nat) -> nat
    decreases m,
{
    if m < 2 {
        0
    } else {
        1 + floor_log2(m / 2)
    }
}

/// The bits of the (non-negative) `f64` equal to `m * 2^-149`, for `m >= 0`:
/// an `f32` below the normal range, written as a normal `f64`. With
/// `k = floor_log2(m)`, the biased exponent is `k - 149 + 1023` and the
/// fraction holds `m - 2^k` shifted up to 52 bits.
pub open spec fn tiny_f64_bits(m: int) -> int {
    if m <= 0 {
        0
    } else {
        let k: nat = floor_log2(m as nat);
        (k + 874) * EXPONENT_STEP + (m - pow2(k)) * pow2((52 - k) as nat)
    }
}

/// Whether the `f64` with bits `b` fits in an `f32`: its magnitude (all bits
/// but the sign) is at most that of `f32::MAX`. Infinities and NaNs, whose
/// exponent is all ones, never fit.
pub open spec fn fits_f32(b: u64) -> bool {
    b as int % SIGN_BIT as int <= F32_MAX_AS_F64_BITS as int
}

/// The bits of the `f64` equal to the `f32` nearest to the `f64` with bits `b`
/// (ties to even), keeping the sign. With `e` the biased exponent of `b`:
/// - `e >= 897` (the normal range of `f32`): the magnitude keeps 24 significant
///   bits, that is, it is rounded to a multiple of `2^29` (a carry moves into
///   the exponent, as it should);
/// - `e == 0` (a subnormal `f64`, far below the least `f32`): zero;
/// - otherwise the value `sig * 2^(e - 1075)`, with `sig` the significand and
///   its leading one, is rounded to a multiple of `2^-149`, the step of the
///   subnormal `f32`s: `sig` divided by `2^(926 - e)`.
pub open spec fn f32_rounded_bits(b: u64) -> int {
    let sign: int = (b as int / SIGN_BIT as int) * SIGN_BIT as int;
    let mag: int = b as int % SIGN_BIT as int;
    let e: int = mag / EXPONENT_STEP as int;
    if e >= 897 {
        sign + round_half_even(mag / 0x2000_0000, mag % 0x2000_0000, 0x1000_0000) * 0x2000_0000
    } else if e == 0 {
        sign
    } else {
        let sig: int = EXPONENT_STEP as int + mag % EXPONENT_STEP as int;
        let shift: nat = (926 - e) as nat;
        sign + tiny_f64_bits(
            round_half_even(
                sig / pow2(shift) as int,
                sig % pow2(shift) as int,
                pow2((shift - 1) as nat) as int,
            ),
        )
    }
}

/// Whether the `f64` with bits `b` is finite: its exponent is not all ones.
pub open spec fn f64_bits_finite(b: u64) -> bool {
    (b as int / EXPONENT_STEP as int) % 2048 != 2047
}

/// Whether the `f64` with bits `b` equals the whole number `x >= 0`: zero
/// has all bits clear, and otherwise the significand (the fraction with its
/// leading one) scaled by the unbiased exponent `e` (`0 <= e <= 52`) is `x`.
pub open spec fn f64_bits_equal_whole(b: u64, x: int) -> bool {
    if x == 0 {
        b == 0
    } else {
        let e: int = b as int / EXPONENT_STEP as int - 1023;
        &&& 0 <= e <= 52
        &&& (EXPONENT_STEP as int + b as int % EXPONENT_STEP as int) * pow2(e as nat) == x * EXPONENT_STEP as int
    }
}

/// Whether the `f64` with bits `b` is one that an `f32` holds exactly, so
/// that rounding it to `f32` precision gives it back.
pub open spec fn f32_exact(b: u64) -> bool {
    fits_f32(b) && f32_rounded_bits(b) == b as int
}

/// `2^k` lies at or below `m`, and `2^(k+1)` above it, for `k = floor_log2(m)`.
pub proof fn lemma_floor_log2_bounds(m: nat)
    requires
        m >= 1,
    ensures
        pow2(floor_log2(m)) <= m < pow2(floor_log2(m) + 1),
    decreases m,
{
    lemma_pow2_unfold(floor_log2(m) + 1);
    if m < 2 {
        lemma2_to64();
    } else {
        lemma_floor_log2_bounds(m / 2);
        lemma_pow2_unfold(floor_log2(m / 2) + 1);
    }
}

/// For `m <= 2^23`, the bits of `m * 2^-149` have a biased exponent of at
/// most 897 (the value is at most `2^-126`).
proof fn lemma_tiny_bits_bound(m: int)
    requires
        0 <= m <= 0x80_0000,
    ensures
        0 <= tiny_f64_bits(m) < 898 * EXPONENT_STEP,
{
    if m > 0 {
        let k: nat = floor_log2(m as nat);
        lemma_floor_log2_bounds(m as nat);
        lemma2_to64();
        lemma2_to64_rest();
        if k > 23 {
            lemma_pow2_strictly_increases(23, k);
        }
        lemma_pow2_unfold(k + 1);
        lemma_pow2_adds(k, (52 - k) as nat);
        assert(k + (52 - k) == 52);
        let p = pow2(k) as int;
        let scale = pow2((52 - k) as nat) as int;
        assert((m - p) * scale < p * scale) by (nonlinear_arith)
            requires
                m < 2 * p,
                m >= p,
                scale >= 1,
        ;
        assert((m - p) * scale >= 0) by (nonlinear_arith)
            requires
                m >= p,
                scale >= 1,
        ;
    }
}

/// Rounding to `f32` precision a decimal that fits in an `f32` gives the
/// bits of a finite `f64`.
pub proof fn f32_rounded_is_finite(b: u64)
    requires
        fits_f32(b),
    ensures
        0 <= f32_rounded_bits(b) <= u64::MAX,
        f64_bits_finite(f32_rounded_bits(b) as u64),
        0 <= f32_rounded_bits(b) - (b as int / (SIGN_BIT as int)) * (SIGN_BIT as int) < 1151 * (EXPONENT_STEP as int),
{
    let mag: int = b as int % SIGN_BIT as int;
    let e: int = mag / EXPONENT_STEP as int;
    let sign: int = (b as int / SIGN_BIT as int) * SIGN_BIT as int;
    assert(sign == 0 || sign == SIGN_BIT as int);
    let rest: int = f32_rounded_bits(b) - sign;
    if e >= 897 {
        assert(0 <= rest <= F32_MAX_AS_F64_BITS as int);
    } else if e == 0 {
        assert(rest == 0);
    } else {
        let sig: int = EXPONENT_STEP as int + mag % EXPONENT_STEP as int;
        let shift: nat = (926 - e) as nat;
        let p: int = pow2(shift) as int;
        lemma2_to64();
        if shift > 30 {
            lemma_pow2_strictly_increases(30, shift);
        }
        let q: int = sig / p;
        assert(0 <= q < 0x80_0000) by (nonlinear_arith)
            requires
                q == sig / p,
                0 <= sig < 0x20_0000_0000_0000,
                p >= 0x4000_0000,
        ;
        let h: int = pow2((shift - 1) as nat) as int;
        let m: int = round_half_even(q, sig % p, h);
        lemma_tiny_bits_bound(m);
        assert(rest == tiny_f64_bits(m));
    }
    assert(0 <= rest < 1151 * EXPONENT_STEP as int);
}

/// `2^k` as a `u64`, for `k < 64`.
fn pow2_u64(k: u64) -> (p: u64)
    requires
        k < 64,
    ensures
        p as int == pow2(k as nat),
{
    proof {
        lemma_u64_pow2_no_overflow(k as nat);
        lemma_u64_shl_is_mul(1, k);
    }
    1u64 << k
}

/// Whether the `f64` with bits `b` fits in an `f32`.
pub fn fits_in_f32(b: u64) -> (r: bool)
    ensures
        r == fits_f32(b),
{
    b % SIGN_BIT <= F32_MAX_AS_F64_BITS
}

/// The bits of the `f64` equal to `m * 2^-149`, for `1 <= m <= 2^23`.
fn tiny_to_f64_bits(m: u64) -> (r: u64)
    requires
        1 <= m <= 0x80_0000,
    ensures
        r as int == tiny_f64_bits(m as int),
        r < SIGN_BIT,
{
    let mut t: u64 = m;
    let mut k: u64 = 0;
    proof {
        lemma2_to64();
    }
    while t >= 2
        invariant
            1 <= t <= m <= 0x80_0000,
            k + floor_log2(t as nat) == floor_log2(m as nat),
            k <= 23,
            t * pow2(k as nat) <= m,
        decreases t,
    {
        let ghost t0: int = t as int;
        let ghost k0: nat = k as nat;
        t = t / 2;
        k = k + 1;
        proof {
            lemma_pow2_unfold(k as nat);
            assert(pow2(k as nat) == 2 * pow2(k0));
            assert(t * pow2(k as nat) <= t0 * pow2(k0)) by (nonlinear_arith)
                requires
                    pow2(k as nat) == 2 * pow2(k0),
                    t == t0 / 2,
                    t0 >= 2,
            ;
            assert(pow2(k as nat) <= m) by (nonlinear_arith)
                requires
                    t >= 1,
                    t * pow2(k as nat) <= m,
            ;
            if k > 23 {
                lemma2_to64();
                lemma_pow2_strictly_increases(23, k as nat);
            }
        }
    }
    proof {
        lemma_floor_log2_bounds(m as nat);
        lemma_pow2_unfold(k as nat + 1);
        lemma_pow2_adds(k as nat, (52 - k) as nat);
        lemma2_to64();
        lemma2_to64_rest();
    }
    let p: u64 = pow2_u64(k);
    let scale: u64 = pow2_u64(52 - k);
    assert((m - p) * scale < p * scale) by (nonlinear_arith)
        requires
            m < 2 * p,
            m >= p,
            scale >= 1,
    {
        assert(m - p < p);
    }
    assert(p * scale == pow2(52)) by {
        assert(k + (52 - k) == 52);
    }
    (k + 874) * EXPONENT_STEP + (m - p) * scale
}

/// The bits of the `f64` equal to the `f32` nearest to the `f64` with bits `b`.
pub fn to_f32_precision(b: u64) -> (r: u64)
    requires
        fits_f32(b),
    ensures
        r as int == f32_rounded_bits(b),
{
    let sign: u64 = (b / SIGN_BIT) * SIGN_BIT;
    let mag: u64 = b % SIGN_BIT;
    let e: u64 = mag / EXPONENT_STEP;
    if e >= 897 {
        let q: u64 = mag / 0x2000_0000;
        let r: u64 = mag % 0x2000_0000;
        let rounded: u64 = if r > 0x1000_0000 || (r == 0x1000_0000 && q % 2 == 1) {
            q + 1
        } else {
            q
        };
        sign + rounded * 0x2000_0000
    } else if e == 0 {
        sign
    } else {
        let sig: u64 = EXPONENT_STEP + mag % EXPONENT_STEP;
        let shift: u64 = 926 - e;
        let ghost rounded: int = round_half_even(
            sig as int / pow2(shift as nat) as int,
            sig as int % pow2(shift as nat) as int,
            pow2((shift - 1) as nat) as int,
        );
        if shift >= 55 {
            proof {
                lemma2_to64_rest();
                if shift > 55 {
                    lemma_pow2_strictly_increases(54, (shift - 1) as nat);
                }
                lemma_pow2_unfold(shift as nat);
                vstd::arithmetic::div_mod::lemma_basic_div(sig as int, pow2(shift as nat) as int);
                vstd::arithmetic::div_mod::lemma_small_mod(sig as nat, pow2(shift as nat));
                assert(sig as int / pow2(shift as nat) as int == 0);
                assert(rounded == 0);
            }
            sign
        } else {
            let p: u64 = pow2_u64(shift);
            proof {
                lemma_pow2_unfold(shift as nat);
                lemma2_to64();
                lemma2_to64_rest();
                if shift > 30 {
                    lemma_pow2_strictly_increases(30, shift as nat);
                }
            }
            let q: u64 = sig / p;
            let r: u64 = sig % p;
            let h: u64 = p / 2;
            assert(q < 0x80_0000) by (nonlinear_arith)
                requires
                    q == sig / p,
                    sig < 0x20_0000_0000_0000,
                    p >= 0x4000_0000,
            ;
            let m: u64 = if r > h || (r == h && q % 2 == 1) {
                q + 1
            } else {
                q
            };
            assert(m as int == rounded);
            if m == 0 {
                sign
            } else {
                sign + tiny_to_f64_bits(m)
            }
        }
    }
}

} // verus!
