//! IEEE-754 binary32 to binary16 conversion on bit patterns.
//!
//! The renderer packs colours and roughness as half floats. Floating-point
//! values are handled here through their IEEE-754 bit patterns
//! (`f32::to_bits`), so the conversion is integer logic.

use vstd::prelude::*;

use vstd::arithmetic::power2::pow2;

verus! {

/// Sign bit of a binary32 pattern, placed at bit 15 of a binary16 pattern.
pub open spec fn f32_sign_as_f16(bits: u32) -> int {
    if bits >= 0x8000_0000 {
        0x8000
    } else {
        0
    }
}

/// Biased exponent field (bits 23..31) of a binary32 pattern.
pub open spec fn f32_exponent(bits: u32) -> int {
    (bits / 0x80_0000) as int % 256
}

/// Mantissa field (bits 0..23) of a binary32 pattern.
pub open spec fn f32_mantissa(bits: u32) -> int {
    bits as int % 0x80_0000
}

/// Whether a value rounds up to the next kept unit under round-to-nearest-
/// even: `dropped` is the part below the kept unit, `half` is half a kept
/// unit, and `kept` is the value kept. It rounds up when more than half a
/// unit is dropped, or exactly half and the kept value is odd.
pub open spec fn rounds_up(dropped: int, half: int, kept: int) -> bool {
    dropped > half || (dropped == half && kept % 2 == 1)
}

/// 1 when `rounds_up`, else 0.
pub open spec fn round_bit(dropped: int, half: int, kept: int) -> int {
    if rounds_up(dropped, half, kept) {
        1
    } else {
        0
    }
}

/// Magnitude bits (0..15) of the half float for binary32 pattern `bits`,
/// rounded to nearest, ties to even:
/// - NaN stays a (quiet) NaN, infinity stays infinity;
/// - exponents too large for a half become infinity;
/// - exponents too small for a normal half give a subnormal half: the 24-bit
///   significand scaled down to the half subnormal unit (a division by
///   `2^(14 - new_exp)`), rounded to nearest even, or zero when the value is
///   below half of that unit;
/// - normal halves keep the top 10 mantissa bits, rounded to nearest even
///   on the 13 dropped bits (a carry may move to the next exponent, or to
///   infinity).
pub open spec fn f16_magnitude(bits: u32) -> int {
    let exp = f32_exponent(bits);
    let mantissa = f32_mantissa(bits);
    let new_exp = exp - 127 + 15;
    if exp == 255 {
        0x7C00 + if mantissa != 0 {
            0x200int
        } else {
            0
        }
    } else if new_exp >= 0x1F {
        0x7C00
    } else if new_exp <= 0 {
        if new_exp < -10 {
            0
        } else {
            let full = mantissa + 0x80_0000;
            let d = pow2((14 - new_exp) as nat) as int;
            full / d + round_bit(full % d, d / 2, full / d)
        }
    } else {
        new_exp * 1024 + mantissa / 0x2000 + round_bit(mantissa % 0x2000, 0x1000, mantissa / 0x2000)
    }
}

/// The binary16 pattern for binary32 pattern `bits`: the sign bit moved to
/// bit 15 over the magnitude of [`f16_magnitude`].
pub open spec fn spec_f16_bits(bits: u32) -> u16 {
    (f32_sign_as_f16(bits) + f16_magnitude(bits)) as u16
}

/// The magnitude of a half is below the sign bit.
pub proof fn lemma_f16_magnitude_bound(bits: u32)
    ensures
        0 <= f16_magnitude(bits) <= 0x7E00,
{
    let exp = f32_exponent(bits);
    let mantissa = f32_mantissa(bits);
    let new_exp = exp - 127 + 15;
    if exp != 255 && new_exp < 0x1F && 0 >= new_exp && new_exp >= -10 {
        let t = (14 - new_exp) as nat;
        if t > 14 {
            vstd::arithmetic::power2::lemma_pow2_strictly_increases(14, t);
        }
        vstd::arithmetic::power2::lemma2_to64();
        let full = mantissa + 0x80_0000;
        let d = pow2(t) as int;
        vstd::arithmetic::div_mod::lemma_div_is_ordered_by_denominator(full, 0x4000, d);
        vstd::arithmetic::div_mod::lemma_div_pos_is_pos(full, d);
        assert(full / 0x4000 < 1024);
    }
}

/// IEEE-754 half-float bit pattern of the binary32 value with bit pattern
/// `bits`, as [`spec_f16_bits`] states.
pub fn f16_bits(bits: u32) -> (half: u16)
    ensures
        half == spec_f16_bits(bits),
{
    let sign = ((bits >> 16) & 0x8000) as u16;
    let exp = ((bits >> 23) & 0xFF) as i32;
    let mantissa = bits & 0x007F_FFFF;
    proof {
        assert(((bits >> 16) & 0x8000) == if bits >= 0x8000_0000 {
            0x8000u32
        } else {
            0u32
        }) by (bit_vector);
        assert((bits >> 23) & 0xFF == (bits / 0x80_0000) % 256) by (bit_vector);
        assert(bits & 0x007F_FFFF == bits % 0x80_0000) by (bit_vector);
        lemma_f16_magnitude_bound(bits);
    }
    if exp == 0xFF {
        let nan_bit: u16 = if mantissa != 0 {
            0x0200
        } else {
            0
        };
        assert(sign == 0 || sign == 0x8000);
        assert(nan_bit == 0 || nan_bit == 0x200);
        assert(sign | 0x7C00 | nan_bit == sign + 0x7C00 + nan_bit) by (bit_vector)
            requires
                sign == 0 || sign == 0x8000,
                nan_bit == 0 || nan_bit == 0x200,
        ;
        return sign | 0x7C00 | nan_bit;
    }
    let new_exp = exp - 127 + 15;
    if new_exp >= 0x1F {
        assert(sign | 0x7C00 == sign + 0x7C00) by (bit_vector)
            requires
                sign == 0 || sign == 0x8000,
        ;
        return sign | 0x7C00;
    }
    if new_exp <= 0 {
        if new_exp < -10 {
            return sign;
        }
        let shift = (14 - new_exp) as u32;
        let full = mantissa | 0x0080_0000;
        proof {
            assert(full == mantissa + 0x80_0000) by (bit_vector)
                requires
                    full == mantissa | 0x0080_0000,
                    mantissa < 0x80_0000,
            ;
            vstd::arithmetic::power2::lemma2_to64();
            vstd::arithmetic::power2::lemma_pow2_strictly_increases(shift as nat, 32);
            if shift > 14 {
                vstd::arithmetic::power2::lemma_pow2_strictly_increases(14, shift as nat);
            }
            vstd::bits::lemma_u32_shl_is_mul(1, shift);
        }
        let d: u32 = 1u32 << shift;
        let q = full / d;
        let r = full % d;
        let half_unit = d / 2;
        proof {
            vstd::arithmetic::div_mod::lemma_div_is_ordered_by_denominator(full as int, 0x4000, d as int);
            assert(q < 1024);
        }
        let rounded = if r > half_unit || (r == half_unit && q % 2 == 1) {
            q + 1
        } else {
            q
        };
        proof {
            assert(rounded < 0x8000);
            assert(sign | (rounded as u16) == sign + rounded) by (bit_vector)
                requires
                    sign == 0 || sign == 0x8000,
                    rounded < 0x8000,
            ;
        }
        return sign | rounded as u16;
    }
    let kept = mantissa >> 13;
    let dropped = mantissa & 0x1FFF;
    let half = sign | ((new_exp as u16) << 10) | (kept as u16);
    proof {
        let e = new_exp as u16;
        assert(sign | (e << 10) | ((mantissa >> 13) as u16) == sign + e * 1024 + mantissa / 0x2000)
            by (bit_vector)
            requires
                sign == 0 || sign == 0x8000,
                1 <= e <= 30,
                mantissa < 0x80_0000,
        ;
        assert(mantissa >> 13 == mantissa / 0x2000 && mantissa & 0x1FFF == mantissa % 0x2000) by (bit_vector);
    }
    if dropped > 0x1000 || (dropped == 0x1000 && kept % 2 == 1) {
        half + 1
    } else {
        half
    }
}

/// Negating a binary32 value negates its half float: the conversion moves
/// the sign bit to bit 15 and converts the magnitude independently of it.
pub proof fn lemma_f16_sign_symmetry(bits: u32)
    ensures
        spec_f16_bits(bits ^ 0x8000_0000) == spec_f16_bits(bits) ^ 0x8000u16,
{
    let flipped = bits ^ 0x8000_0000;
    assert(flipped / 0x80_0000 % 256 == bits / 0x80_0000 % 256) by (bit_vector)
        requires
            flipped == bits ^ 0x8000_0000,
    ;
    assert(flipped % 0x80_0000 == bits % 0x80_0000) by (bit_vector)
        requires
            flipped == bits ^ 0x8000_0000,
    ;
    assert((flipped >= 0x8000_0000) == !(bits >= 0x8000_0000)) by (bit_vector)
        requires
            flipped == bits ^ 0x8000_0000,
    ;
    lemma_f16_magnitude_bound(bits);
    let mag = f16_magnitude(bits) as u16;
    assert(f16_magnitude(flipped) == f16_magnitude(bits));
    assert((0x8000u16 + mag) as u16 == (mag ^ 0x8000u16)) by (bit_vector)
        requires
            mag <= 0x7E00,
    ;
    assert((0u16 + mag) as u16 == ((0x8000u16 + mag) as u16 ^ 0x8000u16)) by (bit_vector)
        requires
            mag <= 0x7E00,
    ;
}

/// Position of the highest set bit of a 10-bit subnormal half mantissa
/// (`1 <= m < 1024`).
pub open spec fn top_bit(m: int) -> int {
    if m >= 512 {
        9
    } else if m >= 256 {
        8
    } else if m >= 128 {
        7
    } else if m >= 64 {
        6
    } else if m >= 32 {
        5
    } else if m >= 16 {
        4
    } else if m >= 8 {
        3
    } else if m >= 4 {
        2
    } else if m >= 2 {
        1
    } else {
        0
    }
}

/// Whether half-float pattern `h` is a NaN (all-ones exponent, non-zero
/// mantissa).
pub open spec fn f16_is_nan(h: u16) -> bool {
    (h / 1024) % 32 == 31 && h % 1024 != 0
}

/// The binary32 pattern of the same value as half-float pattern `h` (exact
/// for every half; a NaN keeps its payload in the top mantissa bits).
pub open spec fn f16_as_f32_bits(h: u16) -> u32 {
    let sign: int = if h >= 0x8000 {
        0x8000_0000
    } else {
        0
    };
    let e = (h / 1024) as int % 32;
    let m = h as int % 1024;
    let body: int = if e == 0 {
        if m == 0 {
            0
        } else {
            let k = top_bit(m);
            (103 + k) * 0x80_0000 + (m - pow2(k as nat)) * (pow2((23 - k) as nat) as int)
        }
    } else if e == 31 {
        255 * 0x80_0000 + m * 0x2000
    } else {
        (e + 112) * 0x80_0000 + m * 0x2000
    };
    (sign + body) as u32
}

/// Every half float other than a NaN survives widening to binary32 and
/// converting back: the conversion is exact on the values a half can hold.
pub proof fn lemma_f16_round_trip(h: u16)
    requires
        !f16_is_nan(h),
    ensures
        spec_f16_bits(f16_as_f32_bits(h)) == h,
{
    vstd::arithmetic::power2::lemma2_to64();
    let sign: int = if h >= 0x8000 {
        0x8000_0000
    } else {
        0
    };
    let e = (h / 1024) as int % 32;
    let m = h as int % 1024;
    let w = f16_as_f32_bits(h);
    let body: int = w - sign;
    assert(h == (if h >= 0x8000 { 0x8000int } else { 0 }) + e * 1024 + m);
    if e == 0 && m != 0 {
        let k = top_bit(m);
        assert(0 <= k <= 9);
        assert(pow2(k as nat) <= m < 2 * pow2(k as nat));
        assert(pow2(k as nat) * pow2((23 - k) as nat) == 0x80_0000) by {
            vstd::arithmetic::power2::lemma_pow2_adds(k as nat, (23 - k) as nat);
        }
        assert(pow2((10 - k) as nat) * 0x2000 == pow2((23 - k) as nat)) by {
            vstd::arithmetic::power2::lemma_pow2_adds((10 - k) as nat, 13);
        }
        let mant = (m - pow2(k as nat)) * (pow2((23 - k) as nat) as int);
        assert(0 <= mant < 0x80_0000) by (nonlinear_arith)
            requires
                mant == (m - pow2(k as nat)) * (pow2((23 - k) as nat) as int),
                0 <= m - pow2(k as nat) < pow2(k as nat),
                pow2(k as nat) * pow2((23 - k) as nat) == 0x80_0000,
                pow2((23 - k) as nat) > 0,
        ;
        assert(body == (103 + k) * 0x80_0000 + mant);
        assert(f32_exponent(w) == 103 + k && f32_mantissa(w) == mant) by {
            vstd::arithmetic::div_mod::lemma_fundamental_div_mod_converse(
                w as int,
                0x80_0000,
                sign / 0x80_0000 + 103 + k,
                mant,
            );
        }
        assert(mant + 0x80_0000 == m * (pow2((23 - k) as nat) as int)) by (nonlinear_arith)
            requires
                mant == (m - pow2(k as nat)) * (pow2((23 - k) as nat) as int),
                pow2(k as nat) * pow2((23 - k) as nat) == 0x80_0000,
        ;
        let d = pow2((23 - k) as nat) as int;
        assert(d > 0);
        assert((mant + 0x80_0000) / d == m && (mant + 0x80_0000) % d == 0) by {
            vstd::arithmetic::div_mod::lemma_div_multiples_vanish(m, d);
            vstd::arithmetic::div_mod::lemma_mod_multiples_basic(m, d);
            assert(m * d == d * m) by (nonlinear_arith);
        }
        assert(d / 2 > 0) by {
            vstd::arithmetic::power2::lemma_pow2_strictly_increases(1, (23 - k) as nat);
        }
        assert(f16_magnitude(w) == m);
    } else if e == 0 {
        assert(w == sign);
    } else {
        let ex: int = if e == 31 {
            255
        } else {
            e + 112
        };
        assert(f32_exponent(w) == ex && f32_mantissa(w) == m * 0x2000) by {
            vstd::arithmetic::div_mod::lemma_fundamental_div_mod_converse(
                w as int,
                0x80_0000,
                sign / 0x80_0000 + ex,
                m * 0x2000,
            );
        }
        assert(f16_magnitude(w) == e * 1024 + m);
    }
}

} // verus!
