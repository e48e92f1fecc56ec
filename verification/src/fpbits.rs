use vstd::prelude::*;

use vstd::arithmetic::power2::{
    lemma2_to64, lemma2_to64_rest, lemma_pow2_adds, lemma_pow2_pos, lemma_pow2_strictly_increases,
    lemma_pow2_unfold, pow2,
};

verus! {

/// The canonical quiet NaN patterns; the external form spells every NaN
/// the same way, so decoding always lands on these. All classification
/// and conversion here is integer arithmetic on IEEE 754 bit patterns:
/// the codec carries every float as its bits and never needs a
/// floating-point operation.
pub const F32_NAN_BITS: u32 = 0x7fc0_0000;

pub const F32_INF_BITS: u32 = 0x7f80_0000;

pub const F32_NEG_INF_BITS: u32 = 0xff80_0000;

pub const F64_NAN_BITS: u64 = 0x7ff8_0000_0000_0000;

pub const F64_INF_BITS: u64 = 0x7ff0_0000_0000_0000;

pub const F64_NEG_INF_BITS: u64 = 0xfff0_0000_0000_0000;

pub open spec fn exp32(bits: u32) -> u32 {
    (bits / 0x80_0000) as u32 % 0x100
}

pub open spec fn frac32(bits: u32) -> u32 {
    bits % 0x80_0000
}

pub open spec fn sign32(bits: u32) -> u32 {
    (bits / 0x8000_0000) as u32
}

pub open spec fn is_nan32(bits: u32) -> bool {
    exp32(bits) == 0xff && frac32(bits) != 0
}

pub open spec fn is_finite32(bits: u32) -> bool {
    exp32(bits) != 0xff
}

pub open spec fn exp64(bits: u64) -> u64 {
    (bits / 0x10_0000_0000_0000) as u64 % 0x800
}

pub open spec fn frac64(bits: u64) -> u64 {
    bits % 0x10_0000_0000_0000
}

pub open spec fn sign64(bits: u64) -> u64 {
    (bits / 0x8000_0000_0000_0000) as u64
}

pub open spec fn is_nan64(bits: u64) -> bool {
    exp64(bits) == 0x7ff && frac64(bits) != 0
}

pub open spec fn is_finite64(bits: u64) -> bool {
    exp64(bits) != 0x7ff
}

pub fn f32_is_nan(bits: u32) -> (r: bool)
    ensures
        r == is_nan32(bits),
{
    bits / 0x80_0000 % 0x100 == 0xff && bits % 0x80_0000 != 0
}

pub fn f32_is_finite(bits: u32) -> (r: bool)
    ensures
        r == is_finite32(bits),
{
    bits / 0x80_0000 % 0x100 != 0xff
}

pub fn f32_sign(bits: u32) -> (r: u32)
    ensures
        r == sign32(bits),
{
    bits / 0x8000_0000
}

pub fn f64_is_nan(bits: u64) -> (r: bool)
    ensures
        r == is_nan64(bits),
{
    bits / 0x10_0000_0000_0000 % 0x800 == 0x7ff && bits % 0x10_0000_0000_0000 != 0
}

pub fn f64_is_finite(bits: u64) -> (r: bool)
    ensures
        r == is_finite64(bits),
{
    bits / 0x10_0000_0000_0000 % 0x800 != 0x7ff
}

pub fn f64_sign(bits: u64) -> (r: u64)
    ensures
        r == sign64(bits),
{
    bits / 0x8000_0000_0000_0000
}

/// Every NaN collapses to the canonical pattern; other values pass through.
pub open spec fn nan_canon32(bits: u32) -> u32 {
    if is_nan32(bits) {
        F32_NAN_BITS
    } else {
        bits
    }
}

pub open spec fn nan_canon64(bits: u64) -> u64 {
    if is_nan64(bits) {
        F64_NAN_BITS
    } else {
        bits
    }
}

pub fn f32_nan_canon(bits: u32) -> (r: u32)
    ensures
        r == nan_canon32(bits),
{
    if f32_is_nan(bits) {
        F32_NAN_BITS
    } else {
        bits
    }
}

pub fn f64_nan_canon(bits: u64) -> (r: u64)
    ensures
        r == nan_canon64(bits),
{
    if f64_is_nan(bits) {
        F64_NAN_BITS
    } else {
        bits
    }
}

/// Position of the most significant set bit: `pow2(msb_pos(m)) <= m < pow2(msb_pos(m) + 1)`.
pub open spec fn msb_pos(m: nat) -> nat
    decreases m,
{
    if m <= 1 {
        0
    } else {
        1 + msb_pos(m / 2)
    }
}

proof fn lemma_msb_pos(m: nat, k: nat)
    requires
        pow2(k) <= m < pow2(k + 1),
    ensures
        msb_pos(m) == k,
    decreases k,
{
    lemma_pow2_unfold(k + 1);
    if k == 0 {
        assert(pow2(0) == 1) by {
            lemma2_to64();
        }
    } else {
        lemma_pow2_unfold(k);
        lemma_pow2_pos((k - 1) as nat);
        assert(pow2(k) / 2 == pow2((k - 1) as nat));
        assert(pow2((k - 1) as nat) <= m / 2 < pow2(k));
        lemma_msb_pos(m / 2, (k - 1) as nat);
        assert(m > 1);
    }
}

/// Exact power of two as a machine integer.
pub fn pow2_u64(k: u64) -> (r: u64)
    requires
        k <= 63,
    ensures
        r == pow2(k as nat),
{
    let mut i: u64 = 0;
    let mut p: u64 = 1;
    proof {
        lemma2_to64();
    }
    while i < k
        invariant
            i <= k <= 63,
            p == pow2(i as nat),
        decreases k - i,
    {
        proof {
            lemma_pow2_unfold((i + 1) as nat);
            lemma_pow2_strictly_increases((i + 1) as nat, 64);
            lemma2_to64_rest();
        }
        p = p * 2;
        i = i + 1;
    }
    p
}

/// Most significant bit position of a positive machine integer.
pub fn msb_pos_u64(m: u64) -> (r: (u64, u64))
    requires
        m >= 1,
    ensures
        r.0 == msb_pos(m as nat) && r.1 == pow2(r.0 as nat) && r.1 <= m < 2 * r.1,
{
    let mut k: u64 = 0;
    let mut p: u64 = 1;
    proof {
        lemma2_to64();
    }
    while m / 2 >= p
        invariant
            p == pow2(k as nat),
            1 <= p <= m,
            k <= 63,
        decreases m - p,
    {
        proof {
            lemma_pow2_unfold((k + 1) as nat);
            if k + 1 > 63 {
                lemma_pow2_strictly_increases(63, (k + 1) as nat);
                lemma2_to64_rest();
                assert(false);
            }
        }
        p = p * 2;
        k = k + 1;
    }
    proof {
        lemma_pow2_unfold((k + 1) as nat);
        assert(m < 2 * p);
        lemma_msb_pos(m as nat, k as nat);
    }
    (k, p)
}

/// The exact `f32` bit pattern of a small integer. Meaningful for
/// magnitudes up to `pow2(24)`, where the conversion is exact; the codec
/// only uses it on the 16-bit signed range.
pub open spec fn f32_bits_of_int(v: int) -> u32 {
    if v == 0 {
        0u32
    } else {
        let s: int = if v < 0 {
            0x8000_0000
        } else {
            0
        };
        let m = (if v < 0 {
            -v
        } else {
            v
        }) as nat;
        let k = msb_pos(m);
        (s + (127 + k) * 0x80_0000 + (m - pow2(k)) * pow2((23 - k) as nat)) as u32
    }
}

/// The exact `f64` bit pattern of a small integer. Meaningful for
/// magnitudes up to `pow2(53)`; the codec only uses it on the 32-bit
/// signed range.
pub open spec fn f64_bits_of_int(v: int) -> u64 {
    if v == 0 {
        0u64
    } else {
        let s: int = if v < 0 {
            0x8000_0000_0000_0000
        } else {
            0
        };
        let m = (if v < 0 {
            -v
        } else {
            v
        }) as nat;
        let k = msb_pos(m);
        (s + (1023 + k) * 0x10_0000_0000_0000 + (m - pow2(k)) * pow2((52 - k) as nat)) as u64
    }
}

pub fn f32_bits_of_i64(v: i64) -> (r: u32)
    requires
        -0x8000 <= v <= 0x8000,
    ensures
        r == f32_bits_of_int(v as int),
{
    if v == 0 {
        return 0;
    }
    let s: u32 = if v < 0 {
        0x8000_0000
    } else {
        0
    };
    let m: u64 = if v < 0 {
        (-v) as u64
    } else {
        v as u64
    };
    let (k, p) = msb_pos_u64(m);
    proof {
        lemma2_to64();
        if k >= 16 {
            lemma_pow2_strictly_increases(16, k as nat);
            assert(false);
        }
        lemma_pow2_adds(k as nat, (23 - k) as nat);
        lemma_pow2_strictly_increases(23, 32);
        lemma2_to64_rest();
        assert((m - p) * pow2((23 - k) as nat) < pow2(k as nat) * pow2((23 - k) as nat)) by {
            lemma_pow2_pos((23 - k) as nat);
            vstd::arithmetic::mul::lemma_mul_strict_inequality(
                (m - p) as int,
                pow2(k as nat) as int,
                pow2((23 - k) as nat) as int,
            );
        }
    }
    let mant: u64 = (m - p) * pow2_u64(23 - k);
    s + ((127 + k as u32) * 0x80_0000) + (mant as u32)
}

pub fn f64_bits_of_i64(v: i64) -> (r: u64)
    requires
        -0x8000_0000 <= v <= 0x8000_0000,
    ensures
        r == f64_bits_of_int(v as int),
{
    if v == 0 {
        return 0;
    }
    let s: u64 = if v < 0 {
        0x8000_0000_0000_0000
    } else {
        0
    };
    let m: u64 = if v < 0 {
        (-v) as u64
    } else {
        v as u64
    };
    let (k, p) = msb_pos_u64(m);
    proof {
        lemma2_to64();
        if k >= 32 {
            lemma_pow2_strictly_increases(32, k as nat);
            lemma2_to64_rest();
            assert(false);
        }
        lemma_pow2_adds(k as nat, (52 - k) as nat);
        lemma_pow2_strictly_increases(52, 63);
        lemma2_to64_rest();
        assert((m - p) * pow2((52 - k) as nat) < pow2(k as nat) * pow2((52 - k) as nat)) by {
            lemma_pow2_pos((52 - k) as nat);
            vstd::arithmetic::mul::lemma_mul_strict_inequality(
                (m - p) as int,
                pow2(k as nat) as int,
                pow2((52 - k) as nat) as int,
            );
        }
    }
    let mant: u64 = (m - p) * pow2_u64(52 - k);
    s + ((1023 + k) * 0x10_0000_0000_0000) + mant
}


/// The `f64` bit pattern denoting exactly the same value as the given
/// `f32` bit pattern (NaNs keep their payload shifted; widening is exact
/// for every finite value, normal or subnormal).
pub open spec fn widen_f32_bits_spec(b: u32) -> u64 {
    let s = sign32(b) as u64;
    let e = exp32(b) as u64;
    let f = frac32(b) as u64;
    if e == 0xff {
        (s * 0x8000_0000_0000_0000 + 0x7ff * 0x10_0000_0000_0000 + f * 0x2000_0000) as u64
    } else if e == 0 && f == 0 {
        (s * 0x8000_0000_0000_0000) as u64
    } else if e == 0 {
        let k = msb_pos(f as nat);
        (s * 0x8000_0000_0000_0000 + (874 + k) * 0x10_0000_0000_0000 + (f - pow2(k)) * pow2(
            (52 - k) as nat,
        )) as u64
    } else {
        (s * 0x8000_0000_0000_0000 + (e + 896) * 0x10_0000_0000_0000 + f * 0x2000_0000) as u64
    }
}

pub fn widen_f32_bits(b: u32) -> (r: u64)
    ensures
        r == widen_f32_bits_spec(b),
{
    let s: u64 = (b / 0x8000_0000) as u64;
    let e: u64 = (b / 0x80_0000 % 0x100) as u64;
    let f: u64 = (b % 0x80_0000) as u64;
    if e == 0xff {
        s * 0x8000_0000_0000_0000 + 0x7ff * 0x10_0000_0000_0000 + f * 0x2000_0000
    } else if e == 0 && f == 0 {
        s * 0x8000_0000_0000_0000
    } else if e == 0 {
        let (k, p) = msb_pos_u64(f);
        proof {
            lemma2_to64();
            if k >= 23 {
                lemma_pow2_strictly_increases(23, k as nat);
                assert(false);
            }
            lemma_pow2_adds(k as nat, (52 - k) as nat);
            lemma_pow2_strictly_increases(52, 63);
            lemma2_to64_rest();
            assert((f - p) * pow2((52 - k) as nat) < pow2(k as nat) * pow2((52 - k) as nat)) by {
                lemma_pow2_pos((52 - k) as nat);
                vstd::arithmetic::mul::lemma_mul_strict_inequality(
                    (f - p) as int,
                    pow2(k as nat) as int,
                    pow2((52 - k) as nat) as int,
                );
            }
        }
        let mant: u64 = (f - p) * pow2_u64(52 - k);
        s * 0x8000_0000_0000_0000 + (874 + k) * 0x10_0000_0000_0000 + mant
    } else {
        s * 0x8000_0000_0000_0000 + (e + 896) * 0x10_0000_0000_0000 + f * 0x2000_0000
    }
}

/// The `f32` bit pattern denoting exactly the value of the given finite
/// `f64` bit pattern, if one exists: the conversion never rounds, so a
/// value that `f32` cannot represent yields `None`.
pub open spec fn narrow_f64_bits_spec(b: u64) -> Option<u32> {
    let s = sign64(b);
    let e = exp64(b);
    let f = frac64(b);
    if e == 0x7ff {
        None
    } else if e == 0 && f == 0 {
        Some((s * 0x8000_0000) as u32)
    } else if e == 0 {
        None
    } else if 897 <= e <= 1150 {
        if f % 0x2000_0000 == 0 {
            Some((s * 0x8000_0000 + (e - 896) * 0x80_0000 + f / 0x2000_0000) as u32)
        } else {
            None
        }
    } else if 874 <= e < 897 {
        let d = pow2((926 - e) as nat);
        let x = (0x10_0000_0000_0000 + f) as int;
        if x % (d as int) == 0 {
            Some((s * 0x8000_0000 + x / (d as int)) as u32)
        } else {
            None
        }
    } else {
        None
    }
}

pub fn narrow_f64_bits(b: u64) -> (r: Option<u32>)
    ensures
        r == narrow_f64_bits_spec(b),
{
    let s: u64 = b / 0x8000_0000_0000_0000;
    let e: u64 = b / 0x10_0000_0000_0000 % 0x800;
    let f: u64 = b % 0x10_0000_0000_0000;
    if e == 0x7ff {
        None
    } else if e == 0 && f == 0 {
        Some((s * 0x8000_0000) as u32)
    } else if e == 0 {
        None
    } else if 897 <= e && e <= 1150 {
        if f % 0x2000_0000 == 0 {
            Some((s * 0x8000_0000 + (e - 896) * 0x80_0000 + f / 0x2000_0000) as u32)
        } else {
            None
        }
    } else if 874 <= e && e < 897 {
        let d: u64 = pow2_u64(926 - e);
        let x: u64 = 0x10_0000_0000_0000 + f;
        proof {
            lemma_pow2_pos((926 - e) as nat);
        }
        if x % d == 0 {
            let q: u64 = x / d;
            proof {
                vstd::arithmetic::div_mod::lemma_div_is_ordered_by_denominator(
                    x as int,
                    1,
                    d as int,
                );
                vstd::arithmetic::div_mod::lemma_div_basics(x as int);
            }
            Some((s * 0x8000_0000 + q) as u32)
        } else {
            None
        }
    } else {
        None
    }
}


/// The most significant bit position brackets its argument.
pub proof fn lemma_msb_bounds(m: nat)
    requires
        m >= 1,
    ensures
        pow2(msb_pos(m)) <= m < pow2(msb_pos(m) + 1),
    decreases m,
{
    if m <= 1 {
        lemma2_to64();
        lemma_pow2_unfold(1);
    } else {
        lemma_msb_bounds(m / 2);
        let p = msb_pos(m / 2);
        lemma_pow2_unfold(p + 1);
        lemma_pow2_unfold(p + 2);
    }
}

/// The bit pattern of a small integer is always finite: its exponent
/// field stays far below the all-ones pattern.
pub proof fn lemma_f32_bits_of_int_finite(v: int)
    requires
        -0x8000 <= v <= 0x8000,
    ensures
        is_finite32(f32_bits_of_int(v)),
{
    if v != 0 {
        let s: int = if v < 0 {
            1
        } else {
            0
        };
        let m = (if v < 0 {
            -v
        } else {
            v
        }) as nat;
        let k = msb_pos(m);
        lemma_msb_bounds(m);
        lemma2_to64();
        if k >= 16 {
            lemma_pow2_strictly_increases(16, k);
            assert(false);
        }
        let mant = (m - pow2(k)) * pow2((23 - k) as nat);
        assert(mant < 0x80_0000) by {
            lemma_pow2_pos((23 - k) as nat);
            vstd::arithmetic::mul::lemma_mul_strict_inequality(
                (m - pow2(k)) as int,
                pow2(k) as int,
                pow2((23 - k) as nat) as int,
            );
            lemma_pow2_adds(k, (23 - k) as nat);
        }
        let bits = f32_bits_of_int(v);
        let q = 256 * s + 127 + k;
        assert(bits == (q * 0x80_0000 + mant) as u32);
        assert(q * 0x80_0000 + mant < 0x1_0000_0000) by {
            assert(q <= 256 + 127 + 15);
        }
        vstd::arithmetic::div_mod::lemma_fundamental_div_mod_converse(
            q * 0x80_0000 + mant,
            0x80_0000,
            q,
            mant as int,
        );
        assert((q * 0x80_0000 + mant) / 0x80_0000 == q);
        assert(q % 0x100 == 127 + k) by {
            vstd::arithmetic::div_mod::lemma_mod_multiples_vanish(s, 127 + k as int, 0x100);
        }
    }
}

pub proof fn lemma_f64_bits_of_int_finite(v: int)
    requires
        -0x8000_0000 <= v <= 0x8000_0000,
    ensures
        is_finite64(f64_bits_of_int(v)),
{
    if v != 0 {
        let s: int = if v < 0 {
            1
        } else {
            0
        };
        let m = (if v < 0 {
            -v
        } else {
            v
        }) as nat;
        let k = msb_pos(m);
        lemma_msb_bounds(m);
        lemma2_to64();
        lemma2_to64_rest();
        if k >= 32 {
            lemma_pow2_strictly_increases(32, k);
            assert(false);
        }
        let mant = (m - pow2(k)) * pow2((52 - k) as nat);
        assert(mant < 0x10_0000_0000_0000) by {
            lemma_pow2_pos((52 - k) as nat);
            vstd::arithmetic::mul::lemma_mul_strict_inequality(
                (m - pow2(k)) as int,
                pow2(k) as int,
                pow2((52 - k) as nat) as int,
            );
            lemma_pow2_adds(k, (52 - k) as nat);
        }
        let bits = f64_bits_of_int(v);
        let q = 0x800 * s + 1023 + k;
        assert(bits == (q * 0x10_0000_0000_0000 + mant) as u64);
        assert(q * 0x10_0000_0000_0000 + mant < 0x1_0000_0000_0000_0000) by {
            assert(q <= 0x800 + 1023 + 31);
        }
        vstd::arithmetic::div_mod::lemma_fundamental_div_mod_converse(
            q * 0x10_0000_0000_0000 + mant,
            0x10_0000_0000_0000,
            q,
            mant as int,
        );
        assert((q * 0x10_0000_0000_0000 + mant) / 0x10_0000_0000_0000 == q);
        assert(q % 0x800 == 1023 + k) by {
            vstd::arithmetic::div_mod::lemma_mod_multiples_vanish(s, 1023 + k as int, 0x800);
        }
    }
}

} // verus!
