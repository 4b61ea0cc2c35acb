//! Channels as bit patterns of doubles: the value that a pattern stands
//! for, as a fraction, and its scaling to the range of an integer type.

use vstd::arithmetic::div_mod::*;
use vstd::arithmetic::power2::*;
use vstd::prelude::*;

verus! {

/// The pattern of the double 1.0.
pub const ONE: u64 = 0x3FF0_0000_0000_0000;

/// The pattern of the double 0.5.
pub const HALF: u64 = 0x3FE0_0000_0000_0000;

/// The pattern of positive infinity; every larger pattern is no number.
pub const INFINITY: u64 = 0x7FF0_0000_0000_0000;

/// Two to the 52: the weight of the exponent field in a pattern, and the
/// leading digit of the significand of a normal number.
pub const HIDDEN_BIT: u64 = 0x10_0000_0000_0000;

/// Whether the sign bit of a double is set.
pub open spec fn double_negative(bits: u64) -> bool {
    bits >= 0x8000_0000_0000_0000
}

/// The exponent field of a double.
pub open spec fn double_exponent(bits: u64) -> nat {
    ((bits / 0x10_0000_0000_0000) % 2048) as nat
}

/// The fraction field of a double.
pub open spec fn double_fraction(bits: u64) -> nat {
    (bits % 0x10_0000_0000_0000) as nat
}

/// The magnitude of a finite double, in units of two to the minus 1074.
pub open spec fn double_magnitude(bits: u64) -> nat {
    let e = double_exponent(bits);
    let f = double_fraction(bits);
    if e == 0 {
        f
    } else {
        (0x10_0000_0000_0000 + f) * pow2((e - 1) as nat)
    }
}

/// The pattern that a channel counts for: a channel below zero, or one that
/// is no number, counts as zero, and one above one as one.
pub open spec fn clamped(bits: u64) -> u64 {
    if bits <= ONE {
        bits
    } else if bits <= INFINITY {
        ONE
    } else {
        0
    }
}

/// The significand of a channel: its value is `numerator / denominator`.
pub open spec fn numerator(bits: u64) -> nat {
    let c = clamped(bits);
    if c < HIDDEN_BIT {
        c as nat
    } else {
        (HIDDEN_BIT + c % HIDDEN_BIT) as nat
    }
}

/// How many binary digits of the significand stand behind the point.
pub open spec fn fraction_digits(bits: u64) -> nat {
    let c = clamped(bits);
    if c < HIDDEN_BIT {
        1074
    } else {
        (1075 - c / HIDDEN_BIT) as nat
    }
}

/// The power of two that the significand of a channel is divided by.
pub open spec fn denominator(bits: u64) -> nat {
    pow2(fraction_digits(bits))
}

/// The value of a channel lies between zero and one.
pub proof fn lemma_unit_value(bits: u64)
    ensures
        52 <= fraction_digits(bits) <= 1074,
        numerator(bits) <= denominator(bits),
        numerator(bits) < 0x20_0000_0000_0000,
        denominator(bits) > 0,
{
    let c = clamped(bits);
    let digits = fraction_digits(bits);
    lemma_pow2_pos(digits);
    lemma2_to64_rest();
    if c < HIDDEN_BIT {
        lemma_pow2_strictly_increases(52, digits);
    } else if c == ONE {
        assert(digits == 52);
    } else {
        assert(c / HIDDEN_BIT <= 1022);
        if digits > 53 {
            lemma_pow2_strictly_increases(53, digits);
        }
    }
}

/// The fraction that a channel of the unit interval counts for is the
/// value of the double whose pattern it is: `numerator / denominator` equals
/// the magnitude of the double, which is counted in units of two to the
/// minus 1074.
pub proof fn lemma_unit_value_is_double_value(bits: u64)
    requires
        bits <= ONE,
    ensures
        !double_negative(bits),
        double_exponent(bits) < 2047,
        double_magnitude(bits) * denominator(bits) == numerator(bits) * pow2(1074),
{
    let e = double_exponent(bits);
    let f = double_fraction(bits);
    assert(bits / HIDDEN_BIT <= 1023);
    if bits >= HIDDEN_BIT {
        lemma_pow2_adds((e - 1) as nat, (1075 - e) as nat);
        assert(double_magnitude(bits) * denominator(bits) == numerator(bits) * pow2(1074))
            by (nonlinear_arith)
            requires
                double_magnitude(bits) == numerator(bits) * pow2((e - 1) as nat),
                denominator(bits) == pow2((1075 - e) as nat),
                pow2(1074) == pow2((e - 1) as nat) * pow2((1075 - e) as nat),
        ;
    }
}

/// Among the finite doubles that are not negative, those with a pattern up
/// to `ONE` are the doubles up to one: the unit interval is a range of
/// patterns.
pub proof fn lemma_unit_interval_patterns(bits: u64)
    requires
        bits < INFINITY,
    ensures
        bits <= ONE <==> double_magnitude(bits) <= pow2(1074),
{
    let e = double_exponent(bits);
    let f = double_fraction(bits);
    lemma2_to64_rest();
    assert(e == bits / HIDDEN_BIT);
    if bits <= ONE {
        lemma_unit_value(bits);
        lemma_unit_value_is_double_value(bits);
        lemma_pow2_pos(1074);
        assert(double_magnitude(bits) <= pow2(1074)) by (nonlinear_arith)
            requires
                double_magnitude(bits) * denominator(bits) == numerator(bits) * pow2(1074),
                numerator(bits) <= denominator(bits),
                denominator(bits) > 0,
                pow2(1074) > 0,
        ;
    } else {
        lemma_pow2_adds(52, 1022);
        lemma_pow2_pos(1022);
        if e > 1023 {
            lemma_pow2_strictly_increases(1022, (e - 1) as nat);
        } else {
            assert(f > 0);
        }
        assert(double_magnitude(bits) > pow2(1074)) by (nonlinear_arith)
            requires
                double_magnitude(bits) == (0x10_0000_0000_0000 + f) * pow2((e - 1) as nat),
                pow2(1074) == 0x10_0000_0000_0000 * pow2(1022),
                pow2(1022) <= pow2((e - 1) as nat),
                f > 0 || pow2(1022) < pow2((e - 1) as nat),
                pow2(1022) > 0,
        ;
    }
}

/// The integer types that a palette can be scaled to.
#[derive(Debug, Clone, Copy, PartialEq, Eq, Structural)]
pub enum IntKind {
    U8,
    U16,
    U32,
    U64,
    I8,
    I16,
    I32,
    I64,
}

impl IntKind {
    /// The least value of the type.
    pub open spec fn min(self) -> int {
        match self {
            IntKind::U8 | IntKind::U16 | IntKind::U32 | IntKind::U64 => 0,
            IntKind::I8 => -0x80,
            IntKind::I16 => -0x8000,
            IntKind::I32 => -0x8000_0000,
            IntKind::I64 => -0x8000_0000_0000_0000,
        }
    }

    /// The greatest value of the type.
    pub open spec fn max(self) -> int {
        match self {
            IntKind::U8 => 0xFF,
            IntKind::U16 => 0xFFFF,
            IntKind::U32 => 0xFFFF_FFFF,
            IntKind::U64 => 0xFFFF_FFFF_FFFF_FFFF,
            IntKind::I8 => 0x7F,
            IntKind::I16 => 0x7FFF,
            IntKind::I32 => 0x7FFF_FFFF,
            IntKind::I64 => 0x7FFF_FFFF_FFFF_FFFF,
        }
    }

    /// The least value of the type.
    pub fn min_value(self) -> (least: i128)
        ensures
            least == self.min(),
    {
        match self {
            IntKind::U8 | IntKind::U16 | IntKind::U32 | IntKind::U64 => 0,
            IntKind::I8 => -0x80,
            IntKind::I16 => -0x8000,
            IntKind::I32 => -0x8000_0000,
            IntKind::I64 => -0x8000_0000_0000_0000,
        }
    }

    /// The greatest value of the type.
    pub fn max_value(self) -> (greatest: i128)
        ensures
            greatest == self.max(),
    {
        match self {
            IntKind::U8 => 0xFF,
            IntKind::U16 => 0xFFFF,
            IntKind::U32 => 0xFFFF_FFFF,
            IntKind::U64 => 0xFFFF_FFFF_FFFF_FFFF,
            IntKind::I8 => 0x7F,
            IntKind::I16 => 0x7FFF,
            IntKind::I32 => 0x7FFF_FFFF,
            IntKind::I64 => 0x7FFF_FFFF_FFFF_FFFF,
        }
    }

    /// The type with the given least and greatest value, if it is one of the
    /// eight.
    pub fn from_bounds(least: i128, greatest: i128) -> (kind: Option<IntKind>)
        ensures
            match kind {
                Some(k) => k.min() == least && k.max() == greatest,
                None => forall|k: IntKind| !(k.min() == least && k.max() == greatest),
            },
    {
        if least == 0 {
            if greatest == 0xFF {
                Some(IntKind::U8)
            } else if greatest == 0xFFFF {
                Some(IntKind::U16)
            } else if greatest == 0xFFFF_FFFF {
                Some(IntKind::U32)
            } else if greatest == 0xFFFF_FFFF_FFFF_FFFF {
                Some(IntKind::U64)
            } else {
                None
            }
        } else if least == -0x80 && greatest == 0x7F {
            Some(IntKind::I8)
        } else if least == -0x8000 && greatest == 0x7FFF {
            Some(IntKind::I16)
        } else if least == -0x8000_0000 && greatest == 0x7FFF_FFFF {
            Some(IntKind::I32)
        } else if least == -0x8000_0000_0000_0000 && greatest == 0x7FFF_FFFF_FFFF_FFFF {
            Some(IntKind::I64)
        } else {
            None
        }
    }
}

/// The integer nearest to `num / den`; of two that are equally near, the one
/// farther from zero.
pub open spec fn round_half_away(num: int, den: int) -> int
    recommends
        den > 0,
{
    let below = num / den;
    let rest = num % den;
    if 2 * rest < den {
        below
    } else if 2 * rest > den {
        below + 1
    } else if num >= 0 {
        below + 1
    } else {
        below
    }
}

/// A channel scaled from the unit interval to the range of an integer type:
/// the value `v` of the channel becomes `v * (max - min) + min`, rounded. The
/// exact value is rounded, and only once; arithmetic in doubles, which
/// rounds the product first, can differ by one where the product comes to
/// lie on a tie.
pub open spec fn scaled(bits: u64, kind: IntKind) -> int {
    round_half_away(
        numerator(bits) * (kind.max() - kind.min()) + kind.min() * denominator(bits),
        denominator(bits) as int,
    )
}

proof fn lemma_shl_is_pow2(k: u32)
    requires
        k < 128,
    ensures
        (1u128 << k) == pow2(k as nat),
    decreases k,
{
    if k == 0 {
        assert((1u128 << 0u32) == 1) by (bit_vector);
        lemma2_to64();
    } else {
        let j = (k - 1) as u32;
        lemma_shl_is_pow2(j);
        assert((1u128 << k) == 2 * (1u128 << j)) by (bit_vector)
            requires
                0 < k < 128,
                j == k - 1,
        ;
        lemma_pow2_unfold(k as nat);
    }
}

/// What rounding gives once the quotient and the remainder are known.
proof fn lemma_round_parts(num: int, den: int, below: int, rest: int)
    requires
        den > 0,
        0 <= rest < den,
        num == below * den + rest,
    ensures
        round_half_away(num, den) == if 2 * rest < den {
            below
        } else if 2 * rest > den {
            below + 1
        } else if below >= 0 {
            below + 1
        } else {
            below
        },
{
    lemma_fundamental_div_mod_converse(num, den, below, rest);
    if 2 * rest == den {
        if below >= 0 {
            assert(below * den >= 0) by (nonlinear_arith)
                requires
                    below >= 0,
                    den > 0,
            ;
        } else {
            assert(below * den <= -den) by (nonlinear_arith)
                requires
                    below <= -1,
                    den > 0,
            ;
        }
    }
}

/// Scales a channel from the unit interval to the range of an integer type.
pub fn scale(bits: u64, kind: IntKind) -> (value: i128)
    ensures
        value == scaled(bits, kind),
        kind.min() <= value <= kind.max(),
{
    let c: u64 = if bits <= ONE {
        bits
    } else if bits <= INFINITY {
        ONE
    } else {
        0
    };
    let least: i128 = kind.min_value();
    let span: u128 = (kind.max_value() - least) as u128;
    let subnormal = c < HIDDEN_BIT;
    let significand: u128 = if subnormal {
        c as u128
    } else {
        (HIDDEN_BIT + c % HIDDEN_BIT) as u128
    };
    let digits: u32 = if subnormal {
        1074
    } else {
        (1075 - c / HIDDEN_BIT) as u32
    };
    proof {
        lemma_unit_value(bits);
    }
    assert(significand * span < 0x20_0000_0000_0000_0000_0000_0000_0000) by (nonlinear_arith)
        requires
            significand < 0x20_0000_0000_0000,
            span < 0x1_0000_0000_0000_0000,
    ;
    let product: u128 = significand * span;
    let ghost den = denominator(bits) as int;
    let ghost num = numerator(bits) * (kind.max() - kind.min()) + kind.min() * den;
    assert(product <= den * span) by (nonlinear_arith)
        requires
            product == significand * span,
            significand <= den,
    ;
    if digits >= 128 {
        proof {
            lemma2_to64();
            lemma_pow2_adds(64, 64);
            if digits > 128 {
                lemma_pow2_strictly_increases(128, digits as nat);
            }
            assert(num == least * den + product);
            lemma_round_parts(num, den, least as int, product as int);
        }
        return least;
    }
    proof {
        lemma_shl_is_pow2(digits);
    }
    let divisor: u128 = 1u128 << digits;
    let whole: u128 = product / divisor;
    let rest: u128 = product % divisor;
    proof {
        lemma_fundamental_div_mod(product as int, den);
        assert(whole <= span && (whole == span ==> rest == 0)) by (nonlinear_arith)
            requires
                product == den * whole + rest,
                product <= den * span,
                0 <= rest < den,
        ;
        assert(num == (least + whole) * den + rest) by (nonlinear_arith)
            requires
                num == product + least * den,
                product == den * whole + rest,
        ;
        lemma_round_parts(num, den, least + whole, rest as int);
    }
    let below: i128 = least + whole as i128;
    if rest < divisor - rest {
        below
    } else if rest > divisor - rest {
        below + 1
    } else if below >= 0 {
        below + 1
    } else {
        below
    }
}

/// Rounding gives an integer that is nearest to the quotient: it differs
/// from `num / den` by half a unit at most.
pub proof fn lemma_round_is_nearest(num: int, den: int)
    requires
        den > 0,
    ensures
        -den <= 2 * (round_half_away(num, den) * den - num) <= den,
{
    lemma_fundamental_div_mod(num, den);
    lemma_mod_bound(num, den);
    let below = num / den;
    let rest = num % den;
    assert((below + 1) * den == below * den + den) by (nonlinear_arith);
    assert(den * below == below * den) by (nonlinear_arith);
}

/// A scaled channel lies in the range of the integer type, and is an integer
/// nearest to the exact value `numerator / denominator * (max - min) + min`.
pub proof fn lemma_scaled_in_range(bits: u64, kind: IntKind)
    ensures
        kind.min() <= scaled(bits, kind) <= kind.max(),
        ({
            let den = denominator(bits) as int;
            let exact = numerator(bits) * (kind.max() - kind.min()) + kind.min() * den;
            -den <= 2 * (scaled(bits, kind) * den - exact) <= den
        }),
{
    lemma_unit_value(bits);
    let den = denominator(bits) as int;
    let span = kind.max() - kind.min();
    let product = numerator(bits) * span;
    let exact = product + kind.min() * den;
    lemma_round_is_nearest(exact, den);
    lemma_fundamental_div_mod(product, den);
    lemma_mod_bound(product, den);
    let whole = product / den;
    let rest = product % den;
    assert(0 <= product <= den * span) by (nonlinear_arith)
        requires
            product == numerator(bits) * span,
            0 <= numerator(bits) <= den,
            span >= 0,
    ;
    assert(0 <= whole <= span && (whole == span ==> rest == 0)) by (nonlinear_arith)
        requires
            product == den * whole + rest,
            0 <= product <= den * span,
            0 <= rest < den,
    ;
    assert(exact == (kind.min() + whole) * den + rest) by (nonlinear_arith)
        requires
            exact == product + kind.min() * den,
            product == den * whole + rest,
    ;
    lemma_round_parts(exact, den, kind.min() + whole, rest);
}

/// The ends of the unit interval go to the ends of the integer range, and
/// its midpoint to the rounded midpoint of the range.
pub proof fn lemma_scaled_boundaries(kind: IntKind)
    ensures
        scaled(0, kind) == kind.min(),
        scaled(ONE, kind) == kind.max(),
        scaled(HALF, kind) == round_half_away(kind.min() + kind.max(), 2),
{
    lemma2_to64_rest();
    lemma_pow2_pos(1074);
    assert(numerator(0) == 0);
    lemma_round_parts(
        numerator(0) * (kind.max() - kind.min()) + kind.min() * denominator(0),
        denominator(0) as int,
        kind.min(),
        0,
    );
    assert(ONE / HIDDEN_BIT == 1023 && ONE % HIDDEN_BIT == 0);
    assert(HALF / HIDDEN_BIT == 1022 && HALF % HIDDEN_BIT == 0);
    assert(numerator(ONE) == 0x10_0000_0000_0000 && denominator(ONE) == 0x10_0000_0000_0000);
    assert(numerator(HALF) == 0x10_0000_0000_0000 && denominator(HALF) == 0x20_0000_0000_0000);
    lemma_round_parts(
        numerator(ONE) * (kind.max() - kind.min()) + kind.min() * denominator(ONE),
        denominator(ONE) as int,
        kind.max(),
        0,
    );
    let middle = kind.min() + kind.max();
    lemma_fundamental_div_mod(middle, 2);
    lemma_round_parts(middle, 2, middle / 2, middle % 2);
    lemma_round_parts(
        numerator(HALF) * (kind.max() - kind.min()) + kind.min() * denominator(HALF),
        denominator(HALF) as int,
        middle / 2,
        (middle % 2) * 0x10_0000_0000_0000,
    );
}

} // verus!
