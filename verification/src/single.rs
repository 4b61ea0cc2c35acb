//! Bit patterns of singles, and their exact conversion to doubles.

use crate::channel::{double_exponent, double_fraction, double_magnitude, double_negative};
use vstd::arithmetic::power2::*;
use vstd::prelude::*;

verus! {

/// Two to the 23: the weight of the exponent field in the bit pattern of a
/// single, and the leading digit of the significand of a normal single.
pub const SINGLE_HIDDEN_BIT: u32 = 0x80_0000;

/// Whether the sign bit of a single is set.
pub open spec fn single_negative(bits: u32) -> bool {
    bits >= 0x8000_0000
}

/// The exponent field of a single.
pub open spec fn single_exponent(bits: u32) -> nat {
    ((bits / SINGLE_HIDDEN_BIT) % 256) as nat
}

/// The fraction field of a single.
pub open spec fn single_fraction(bits: u32) -> nat {
    (bits % SINGLE_HIDDEN_BIT) as nat
}

/// A fraction doubled until its leading digit is the hidden bit, with the
/// number of doublings added to `doublings`.
pub open spec fn normalized(fraction: nat, doublings: nat) -> (nat, nat)
    decreases 0x100_0000 - fraction,
{
    if fraction == 0 || fraction >= 0x80_0000 {
        (fraction, doublings)
    } else {
        normalized(2 * fraction, doublings + 1)
    }
}

/// The exponent and fraction fields of the double that has the magnitude of
/// a single. A normal single keeps its fraction, with 29 more digits, under
/// an exponent rebased by 896. A subnormal single is a normal double: its
/// fraction is normalized first. Infinity stays infinity, and what is no
/// number stays so.
pub open spec fn widened_magnitude(bits: u32) -> nat {
    let e = single_exponent(bits);
    let f = single_fraction(bits);
    if e == 255 {
        0x7FF0_0000_0000_0000 + f * 0x2000_0000
    } else if e != 0 {
        (e + 896) * 0x10_0000_0000_0000 + f * 0x2000_0000
    } else if f == 0 {
        0
    } else {
        let (m, k) = normalized(f, 0);
        ((897 - k) * 0x10_0000_0000_0000 + (m - 0x80_0000) * 0x2000_0000) as nat
    }
}

/// The bit pattern of the double that has the value of the single with the
/// given bit pattern.
pub open spec fn widened(bits: u32) -> u64 {
    if single_negative(bits) {
        (0x8000_0000_0000_0000 + widened_magnitude(bits)) as u64
    } else {
        widened_magnitude(bits) as u64
    }
}

/// The magnitude of a finite single, in units of two to the minus 149.
pub open spec fn single_magnitude(bits: u32) -> nat {
    let e = single_exponent(bits);
    let f = single_fraction(bits);
    if e == 0 {
        f
    } else {
        (0x80_0000 + f) * pow2((e - 1) as nat)
    }
}

/// Normalizing a fraction that is not zero doubles it, at most 23 times,
/// until its leading digit is the hidden bit.
pub proof fn lemma_normalized(fraction: nat, doublings: nat)
    requires
        0 < fraction < 0x100_0000,
    ensures
        ({
            let (m, k) = normalized(fraction, doublings);
            &&& 0x80_0000 <= m < 0x100_0000
            &&& doublings <= k <= doublings + 23
            &&& m == fraction * pow2((k - doublings) as nat)
        }),
    decreases 0x100_0000 - fraction,
{
    lemma2_to64();
    let (m, k) = normalized(fraction, doublings);
    if fraction < 0x80_0000 {
        lemma_normalized(2 * fraction, doublings + 1);
        let less = (k - doublings - 1) as nat;
        let more = (k - doublings) as nat;
        lemma_pow2_unfold(more);
        assert(m == fraction * pow2(more)) by (nonlinear_arith)
            requires
                m == (2 * fraction) * pow2(less),
                pow2(more) == 2 * pow2(less),
        ;
        if more > 23 {
            if more > 24 {
                lemma_pow2_strictly_increases(24, more);
            }
            assert(fraction * pow2(more) >= pow2(more)) by (nonlinear_arith)
                requires
                    fraction >= 1,
            ;
            assert(false);
        }
    } else {
        assert(fraction * pow2(0) == fraction) by (nonlinear_arith)
            requires
                pow2(0) == 1,
        ;
    }
}

/// Widening keeps the sign and the class of a single, and the value of a
/// finite one: the magnitude of the double, counted in units of two to the
/// minus 1074, is that of the single, counted in units of two to the minus
/// 149.
pub proof fn lemma_widened_keeps_value(bits: u32)
    ensures
        double_negative(widened(bits)) == single_negative(bits),
        single_exponent(bits) == 255 <==> double_exponent(widened(bits)) == 2047,
        single_exponent(bits) == 255 ==> (single_fraction(bits) == 0 <==> double_fraction(
            widened(bits),
        ) == 0),
        single_exponent(bits) < 255 ==> double_magnitude(widened(bits)) == single_magnitude(bits)
            * pow2(925),
{
    let e = single_exponent(bits);
    let f = single_fraction(bits);
    let wide = widened(bits);
    let magnitude = widened_magnitude(bits);
    lemma2_to64();
    lemma2_to64_rest();
    if e == 0 && f != 0 {
        lemma_normalized(f, 0);
    }
    let (m, k) = normalized(f, 0);
    assert(magnitude < 0x8000_0000_0000_0000);
    assert(double_exponent(wide) == magnitude / 0x10_0000_0000_0000);
    assert(double_fraction(wide) == magnitude % 0x10_0000_0000_0000);
    if e == 255 {
    } else if e != 0 {
        assert(double_exponent(wide) == e + 896);
        assert(double_fraction(wide) == f * 0x2000_0000);
        lemma_pow2_adds(29, (e + 895) as nat);
        lemma_pow2_adds((e - 1) as nat, 925);
        assert(double_magnitude(wide) == single_magnitude(bits) * pow2(925)) by (nonlinear_arith)
            requires
                double_magnitude(wide) == (0x10_0000_0000_0000 + f * 0x2000_0000) * pow2(
                    (e + 895) as nat,
                ),
                single_magnitude(bits) == (0x80_0000 + f) * pow2((e - 1) as nat),
                pow2(29) == 0x2000_0000,
                pow2((29 + (e + 895)) as nat) == pow2(29) * pow2((e + 895) as nat),
                pow2(((e - 1) + 925) as nat) == pow2((e - 1) as nat) * pow2(925),
                (29 + (e + 895)) as nat == ((e - 1) + 925) as nat,
        ;
    } else if f == 0 {
        assert(single_magnitude(bits) * pow2(925) == 0) by (nonlinear_arith)
            requires
                single_magnitude(bits) == 0,
        ;
    } else {
        assert(double_exponent(wide) == 897 - k);
        assert(double_fraction(wide) == (m - 0x80_0000) * 0x2000_0000);
        lemma_pow2_adds(29, (896 - k) as nat);
        lemma_pow2_adds(k, (925 - k) as nat);
        assert(double_magnitude(wide) == single_magnitude(bits) * pow2(925)) by (nonlinear_arith)
            requires
                double_magnitude(wide) == (0x10_0000_0000_0000 + (m - 0x80_0000) * 0x2000_0000)
                    * pow2((896 - k) as nat),
                single_magnitude(bits) == f,
                m == f * pow2(k),
                pow2(29) == 0x2000_0000,
                pow2((29 + (896 - k)) as nat) == pow2(29) * pow2((896 - k) as nat),
                pow2((k + (925 - k)) as nat) == pow2(k) * pow2((925 - k) as nat),
                (29 + (896 - k)) as nat == (925 - k) as nat,
                (k + (925 - k)) as nat == 925,
        ;
    }
}

/// Converts the bit pattern of a single to that of the double with the same
/// value.
pub fn widen(bits: u32) -> (wide: u64)
    ensures
        wide == widened(bits),
{
    let sign: u64 = if bits >= 0x8000_0000 {
        0x8000_0000_0000_0000
    } else {
        0
    };
    let e: u64 = ((bits / SINGLE_HIDDEN_BIT) % 256) as u64;
    let f: u64 = (bits % SINGLE_HIDDEN_BIT) as u64;
    if e == 255 {
        sign + (0x7FF0_0000_0000_0000 + f * 0x2000_0000)
    } else if e != 0 {
        sign + ((e + 896) * 0x10_0000_0000_0000 + f * 0x2000_0000)
    } else if f == 0 {
        sign
    } else {
        let mut m: u64 = f;
        let mut k: u64 = 0;
        proof {
            lemma2_to64();
        }
        while m < 0x80_0000
            invariant
                0 < m < 0x100_0000,
                k <= 23,
                pow2(k as nat) <= m,
                normalized(m as nat, k as nat) == normalized(f as nat, 0),
            decreases 0x100_0000 - m,
        {
            proof {
                lemma2_to64();
                if k >= 23 {
                    if k > 23 {
                        lemma_pow2_strictly_increases(23, k as nat);
                    }
                    assert(false);
                }
                lemma_pow2_unfold((k + 1) as nat);
            }
            m = 2 * m;
            k = k + 1;
        }
        sign + ((897 - k) * 0x10_0000_0000_0000 + (m - 0x80_0000) * 0x2000_0000)
    }
}

} // verus!
