//! Width-parameterized arithmetic and bit operations.
//!
//! A value of width `w` (8, 16, 32 or 64 bits) is carried in a `u64`
//! below `2^w`; every operation keeps its result within the width and
//! reports overflow where the mathematical result leaves `[0, 2^w)`.

use vstd::arithmetic::div_mod::{lemma_small_mod, lemma_mod_add_multiples_vanish};
use vstd::prelude::*;

verus! {

/// The supported bit widths.
pub open spec fn valid_width(w: u64) -> bool {
    w == 8 || w == 16 || w == 32 || w == 64
}

/// All-ones mask of width `w`.
pub open spec fn width_mask(w: u64) -> u64 {
    if w == 8 {
        0xff
    } else if w == 16 {
        0xffff
    } else if w == 32 {
        0xffff_ffff
    } else {
        0xffff_ffff_ffff_ffff
    }
}

/// `2^w` as a mathematical integer.
pub open spec fn width_bound(w: u64) -> int {
    width_mask(w) as int + 1
}

/// `v` fits in width `w`.
pub open spec fn fits(v: u64, w: u64) -> bool {
    v <= width_mask(w)
}

/// The all-ones mask of width `w`.
pub fn mask_of(w: u64) -> (m: u64)
    requires
        valid_width(w),
    ensures
        m == width_mask(w),
{
    if w == 8 {
        0xff
    } else if w == 16 {
        0xffff
    } else if w == 32 {
        0xffff_ffff
    } else {
        0xffff_ffff_ffff_ffff
    }
}

// ---------------------------------------------------------------------------
// Wrapping arithmetic with overflow report
// ---------------------------------------------------------------------------

/// Sum modulo `2^w`.
pub open spec fn add_val(a: u64, b: u64, w: u64) -> u64 {
    ((a + b) % width_bound(w)) as u64
}

/// The mathematical sum leaves `[0, 2^w)`.
pub open spec fn add_overflows(a: u64, b: u64, w: u64) -> bool {
    a + b > width_mask(w)
}

/// Difference modulo `2^w`.
pub open spec fn sub_val(a: u64, b: u64, w: u64) -> u64 {
    ((a - b) % width_bound(w)) as u64
}

/// The mathematical difference leaves `[0, 2^w)`.
pub open spec fn sub_overflows(a: u64, b: u64, w: u64) -> bool {
    a < b
}

/// Product modulo `2^w`.
pub open spec fn mul_val(a: u64, b: u64, w: u64) -> u64 {
    ((a * b) % width_bound(w)) as u64
}

/// The mathematical product leaves `[0, 2^w)`.
pub open spec fn mul_overflows(a: u64, b: u64, w: u64) -> bool {
    a * b > width_mask(w)
}

/// Wrapping addition within width `w`, with overflow report.
pub fn add_wrap(a: u64, b: u64, w: u64) -> (r: (u64, bool))
    requires
        valid_width(w),
        fits(a, w),
        fits(b, w),
    ensures
        r.0 == add_val(a, b, w),
        r.1 == add_overflows(a, b, w),
        fits(r.0, w),
{
    let mask = mask_of(w);
    let wide: u128 = a as u128 + b as u128;
    let bound: u128 = mask as u128 + 1;
    let r = (wide % bound) as u64;
    proof {
        assert(wide % bound == (a + b) % width_bound(w));
    }
    (r, wide > mask as u128)
}

/// Wrapping subtraction within width `w`, with overflow report.
pub fn sub_wrap(a: u64, b: u64, w: u64) -> (r: (u64, bool))
    requires
        valid_width(w),
        fits(a, w),
        fits(b, w),
    ensures
        r.0 == sub_val(a, b, w),
        r.1 == sub_overflows(a, b, w),
        fits(r.0, w),
{
    let mask = mask_of(w);
    if a >= b {
        proof {
            lemma_small_mod((a - b) as nat, width_bound(w) as nat);
        }
        (a - b, false)
    } else {
        let wide: u128 = mask as u128 + 1 - (b as u128 - a as u128);
        proof {
            lemma_mod_add_multiples_vanish(a - b, width_bound(w));
            lemma_small_mod(wide as nat, width_bound(w) as nat);
            assert(wide == width_bound(w) + (a - b));
        }
        (wide as u64, true)
    }
}

/// Wrapping multiplication within width `w`, with overflow report.
pub fn mul_wrap(a: u64, b: u64, w: u64) -> (r: (u64, bool))
    requires
        valid_width(w),
        fits(a, w),
        fits(b, w),
    ensures
        r.0 == mul_val(a, b, w),
        r.1 == mul_overflows(a, b, w),
        fits(r.0, w),
{
    let mask = mask_of(w);
    assert((a as u128) * (b as u128) <= 0xffff_ffff_ffff_ffff_u128 * 0xffff_ffff_ffff_ffff_u128)
        by (nonlinear_arith)
        requires
            a <= 0xffff_ffff_ffff_ffff_u128,
            b <= 0xffff_ffff_ffff_ffff_u128,
    ;
    let wide: u128 = a as u128 * b as u128;
    let bound: u128 = mask as u128 + 1;
    let r = (wide % bound) as u64;
    proof {
        assert(wide % bound == (a * b) % width_bound(w));
    }
    (r, wide > mask as u128)
}

/// Truncating division within width `w`; the divisor must not be zero.
pub fn div_exact(a: u64, b: u64, w: u64) -> (r: u64)
    requires
        valid_width(w),
        fits(a, w),
        fits(b, w),
        b != 0,
    ensures
        r == a as int / b as int,
        fits(r, w),
{
    proof {
        assert(a / b <= a) by (nonlinear_arith)
            requires
                b >= 1,
        ;
    }
    a / b
}

/// `a` reduced modulo `2^w`.
pub open spec fn trunc_val(a: u64, w: u64) -> u64 {
    (a as int % width_bound(w)) as u64
}

/// Truncate `a` to width `w`.
pub fn trunc(a: u64, w: u64) -> (r: u64)
    requires
        valid_width(w),
    ensures
        r == trunc_val(a, w),
        fits(r, w),
{
    if w == 64 {
        proof {
            lemma_small_mod(a as nat, width_bound(64) as nat);
        }
        a
    } else {
        let m = mask_of(w);
        a % (m + 1)
    }
}

// ---------------------------------------------------------------------------
// Bitwise operations
// ---------------------------------------------------------------------------

/// A masked value stays below the mask.
proof fn lemma_and_le(x: u64, m: u64)
    by (bit_vector)
    ensures
        (x & m) <= m,
{
}

/// A right shift never grows a value.
proof fn lemma_shr_le(x: u64, k: u64)
    by (bit_vector)
    requires
        k < 64,
    ensures
        (x >> k) <= x,
{
}

/// Or and xor of two values of a width stay within the width.
proof fn lemma_or_xor_bound(a: u64, b: u64, m: u64)
    by (bit_vector)
    requires
        a <= m,
        b <= m,
        m == 0xff || m == 0xffff || m == 0xffff_ffff || m == 0xffff_ffff_ffff_ffff,
    ensures
        (a | b) <= m,
        (a ^ b) <= m,
{
}

/// Bitwise and.
pub fn and_bits(a: u64, b: u64, w: u64) -> (r: u64)
    requires
        valid_width(w),
        fits(a, w),
        fits(b, w),
    ensures
        r == (a & b),
        fits(r, w),
{
    proof {
        lemma_and_le(a, b);
    }
    a & b
}

/// Bitwise or.
pub fn or_bits(a: u64, b: u64, w: u64) -> (r: u64)
    requires
        valid_width(w),
        fits(a, w),
        fits(b, w),
    ensures
        r == (a | b),
        fits(r, w),
{
    proof {
        lemma_or_xor_bound(a, b, width_mask(w));
    }
    a | b
}

/// Bitwise exclusive or.
pub fn xor_bits(a: u64, b: u64, w: u64) -> (r: u64)
    requires
        valid_width(w),
        fits(a, w),
        fits(b, w),
    ensures
        r == (a ^ b),
        fits(r, w),
{
    proof {
        lemma_or_xor_bound(a, b, width_mask(w));
    }
    a ^ b
}

/// Bitwise complement within width `w`.
pub open spec fn not_val(a: u64, w: u64) -> u64 {
    !a & width_mask(w)
}

/// Bitwise complement within width `w`.
pub fn not_bits(a: u64, w: u64) -> (r: u64)
    requires
        valid_width(w),
        fits(a, w),
    ensures
        r == not_val(a, w),
        fits(r, w),
{
    let mask = mask_of(w);
    proof {
        lemma_and_le(!a, mask);
    }
    !a & mask
}

/// Two's-complement negation modulo `2^w`.
pub open spec fn neg_val(a: u64, w: u64) -> u64 {
    ((0 - a) % width_bound(w)) as u64
}

/// Two's-complement negation within width `w`.
pub fn neg_wrap(a: u64, w: u64) -> (r: u64)
    requires
        valid_width(w),
        fits(a, w),
    ensures
        r == neg_val(a, w),
        fits(r, w),
{
    let mask = mask_of(w);
    if a == 0 {
        proof {
            lemma_small_mod(0, width_bound(w) as nat);
        }
        0
    } else {
        let wide: u128 = mask as u128 + 1 - a as u128;
        proof {
            lemma_mod_add_multiples_vanish(0 - a, width_bound(w));
            lemma_small_mod(wide as nat, width_bound(w) as nat);
            assert(wide == width_bound(w) + (0 - a));
        }
        wide as u64
    }
}

/// Left shift within width `w`: amounts of `w` or more give 0.
pub open spec fn shl_val(a: u64, b: u64, w: u64) -> u64 {
    if b >= w {
        0
    } else {
        (a << b) & width_mask(w)
    }
}

/// Right shift within width `w`: amounts of `w` or more give 0.
pub open spec fn shr_val(a: u64, b: u64, w: u64) -> u64 {
    if b >= w {
        0
    } else {
        a >> b
    }
}

/// Left shift within width `w`, saturating to zero on over-wide amounts.
pub fn shl_sat(a: u64, b: u64, w: u64) -> (r: u64)
    requires
        valid_width(w),
        fits(a, w),
    ensures
        r == shl_val(a, b, w),
        b >= w ==> r == 0,
        fits(r, w),
{
    if b >= w {
        0
    } else {
        let mask = mask_of(w);
        proof {
            lemma_and_le(a << b, mask);
        }
        (a << b) & mask
    }
}

/// Right shift within width `w`, saturating to zero on over-wide amounts.
pub fn shr_sat(a: u64, b: u64, w: u64) -> (r: u64)
    requires
        valid_width(w),
        fits(a, w),
    ensures
        r == shr_val(a, b, w),
        b >= w ==> r == 0,
        fits(r, w),
{
    if b >= w {
        0
    } else {
        proof {
            lemma_shr_le(a, b);
        }
        a >> b
    }
}

/// Left rotation of the `w`-bit value `a` by `k mod w` places.
pub open spec fn rol_val(a: u64, k: u64, w: u64) -> u64 {
    let r = k % w;
    if r == 0 {
        a
    } else {
        ((a << r) & width_mask(w)) | (a >> ((w - r) as u64))
    }
}

/// Right rotation of the `w`-bit value `a` by `k mod w` places.
pub open spec fn ror_val(a: u64, k: u64, w: u64) -> u64 {
    let r = k % w;
    if r == 0 {
        a
    } else {
        (a >> r) | ((a << ((w - r) as u64)) & width_mask(w))
    }
}

/// Left rotation within width `w`; the amount is taken modulo `w`.
pub fn rol_bits(a: u64, k: u64, w: u64) -> (r: u64)
    requires
        valid_width(w),
        fits(a, w),
    ensures
        r == rol_val(a, k, w),
        fits(r, w),
{
    let s = k % w;
    if s == 0 {
        a
    } else {
        let mask = mask_of(w);
        proof {
            lemma_and_le(a << s, mask);
            lemma_shr_le(a, (w - s) as u64);
            lemma_or_xor_bound((a << s) & mask, a >> ((w - s) as u64), mask);
        }
        ((a << s) & mask) | (a >> (w - s))
    }
}

/// Right rotation within width `w`; the amount is taken modulo `w`.
pub fn ror_bits(a: u64, k: u64, w: u64) -> (r: u64)
    requires
        valid_width(w),
        fits(a, w),
    ensures
        r == ror_val(a, k, w),
        fits(r, w),
{
    let s = k % w;
    if s == 0 {
        a
    } else {
        let mask = mask_of(w);
        proof {
            lemma_and_le(a << ((w - s) as u64), mask);
            lemma_shr_le(a, s);
            lemma_or_xor_bound(a >> s, (a << ((w - s) as u64)) & mask, mask);
        }
        (a >> s) | ((a << (w - s)) & mask)
    }
}

/// Rotating left and back right by the same amount is the identity.
pub proof fn lemma_rotate_round_trip(v: u64, k: u64, w: u64)
    requires
        valid_width(w),
        fits(v, w),
    ensures
        ror_val(rol_val(v, k, w), k, w) == v,
{
    let s = k % w;
    if s != 0 {
        let x = rol_val(v, k, w);
        if w == 8 {
            assert(((x >> s) | ((x << ((8 - s) as u64)) & 0xff)) == v) by (bit_vector)
                requires
                    x == ((v << s) & 0xffu64) | (v >> ((8 - s) as u64)),
                    v <= 0xff,
                    0 < s < 8,
            ;
        } else if w == 16 {
            assert(((x >> s) | ((x << ((16 - s) as u64)) & 0xffff)) == v) by (bit_vector)
                requires
                    x == ((v << s) & 0xffffu64) | (v >> ((16 - s) as u64)),
                    v <= 0xffff,
                    0 < s < 16,
            ;
        } else if w == 32 {
            assert(((x >> s) | ((x << ((32 - s) as u64)) & 0xffff_ffff)) == v) by (bit_vector)
                requires
                    x == ((v << s) & 0xffff_ffffu64) | (v >> ((32 - s) as u64)),
                    v <= 0xffff_ffff,
                    0 < s < 32,
            ;
        } else {
            assert(((x >> s) | ((x << ((64 - s) as u64)) & 0xffff_ffff_ffff_ffff)) == v)
                by (bit_vector)
                requires
                    x == ((v << s) & 0xffff_ffff_ffff_ffffu64) | (v >> ((64 - s) as u64)),
                    0 < s < 64,
            ;
        }
    }
}

/// The bytes of the `w`-bit value `a`, in reverse order.
pub open spec fn swap_val(a: u64, w: u64) -> u64 {
    if w == 8 {
        a
    } else if w == 16 {
        ((a & 0xff) << 8) | (a >> 8)
    } else if w == 32 {
        ((a & 0xff) << 24) | ((a & 0xff00) << 8) | ((a >> 8) & 0xff00) | (a >> 24)
    } else {
        ((a & 0xff) << 56) | ((a & 0xff00) << 40) | ((a & 0xff_0000) << 24) | ((a & 0xff00_0000)
            << 8) | ((a >> 8) & 0xff00_0000) | ((a >> 24) & 0xff_0000) | ((a >> 40) & 0xff00) | (a
            >> 56)
    }
}

/// Reverse the byte order of the `w`-bit value `a`.
pub fn swap_bytes_val(a: u64, w: u64) -> (r: u64)
    requires
        valid_width(w),
        fits(a, w),
    ensures
        r == swap_val(a, w),
        fits(r, w),
{
    if w == 8 {
        a
    } else if w == 16 {
        proof {
            assert((((a & 0xff) << 8) | (a >> 8)) <= 0xffffu64) by (bit_vector)
                requires
                    a <= 0xffff,
            ;
        }
        ((a & 0xff) << 8) | (a >> 8)
    } else if w == 32 {
        proof {
            assert((((a & 0xff) << 24) | ((a & 0xff00) << 8) | ((a >> 8) & 0xff00) | (a >> 24))
                <= 0xffff_ffffu64) by (bit_vector)
                requires
                    a <= 0xffff_ffff,
            ;
        }
        ((a & 0xff) << 24) | ((a & 0xff00) << 8) | ((a >> 8) & 0xff00) | (a >> 24)
    } else {
        ((a & 0xff) << 56) | ((a & 0xff00) << 40) | ((a & 0xff_0000) << 24) | ((a & 0xff00_0000)
            << 8) | ((a >> 8) & 0xff00_0000) | ((a >> 24) & 0xff_0000) | ((a >> 40) & 0xff00) | (a
            >> 56)
    }
}

} // verus!
