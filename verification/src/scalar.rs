use vstd::prelude::*;
use vstd::arithmetic::power2::*;

verus! {

// ---------------------------------------------------------------------------
// Double-precision numbers, held as their IEEE-754 bit pattern.
// ---------------------------------------------------------------------------

/// Two to the 52nd: the weight of the hidden bit of a double's significand.
pub const HIDDEN_BIT: u64 = 0x10_0000_0000_0000;

/// Two to the 63rd: the sign bit of a double.
pub const SIGN_BIT: u64 = 0x8000_0000_0000_0000;

/// The exponent bias of a double, plus the 52 fraction bits.
pub const UNIT_EXPONENT: u64 = 1075;

/// Whether the sign bit of the double is set.
pub open spec fn float_is_negative(bits: u64) -> bool {
    bits >= SIGN_BIT
}

/// The biased exponent field of the double, `0..=2047`.
pub open spec fn float_exponent(bits: u64) -> nat {
    ((bits / HIDDEN_BIT) % 0x800) as nat
}

/// The fraction field of the double, below two to the 52nd.
pub open spec fn float_fraction(bits: u64) -> nat {
    (bits % HIDDEN_BIT) as nat
}

/// Whether the double is normal: neither zero, subnormal, infinite nor NaN.
pub open spec fn float_is_normal(bits: u64) -> bool {
    1 <= float_exponent(bits) <= 2046
}

/// Whether the double differs from zero. Both zeros are zero; a NaN is not.
pub open spec fn float_is_nonzero(bits: u64) -> bool {
    bits % SIGN_BIT != 0
}

/// The magnitude of a normal double, rounded toward zero to an integer:
/// the significand `2^52 + fraction` scaled by `2^(exponent - 1075)`.
pub open spec fn float_magnitude(bits: u64) -> nat {
    let significand = HIDDEN_BIT as nat + float_fraction(bits);
    let exponent = float_exponent(bits);
    if exponent >= UNIT_EXPONENT {
        significand * pow2((exponent - UNIT_EXPONENT) as nat)
    } else {
        significand / pow2((UNIT_EXPONENT - exponent) as nat)
    }
}

/// The double as an unsigned integer: zero unless it is normal and positive,
/// else its magnitude, saturating at the largest `u64`.
pub open spec fn float_as_unsigned(bits: u64) -> u64 {
    if float_is_normal(bits) && !float_is_negative(bits) {
        if float_magnitude(bits) > u64::MAX {
            u64::MAX
        } else {
            float_magnitude(bits) as u64
        }
    } else {
        0
    }
}

/// The double as a signed integer: zero unless it is normal, else its value
/// rounded toward zero, saturating at the bounds of `i64`.
pub open spec fn float_as_signed(bits: u64) -> i64 {
    if !float_is_normal(bits) {
        0
    } else if float_is_negative(bits) {
        if float_magnitude(bits) > SIGN_BIT {
            i64::MIN
        } else {
            (-(float_magnitude(bits) as int)) as i64
        }
    } else {
        if float_magnitude(bits) > i64::MAX {
            i64::MAX
        } else {
            float_magnitude(bits) as i64
        }
    }
}

/// Computes a power of two.
fn power_of_two(e: u64) -> (p: u64)
    requires
        e < 64,
    ensures
        p == pow2(e as nat),
        p >= 1,
{
    let mut p: u64 = 1;
    let mut i: u64 = 0;
    proof {
        lemma2_to64();
    }
    while i < e
        invariant
            i <= e < 64,
            p == pow2(i as nat),
            p >= 1,
        decreases e - i,
    {
        proof {
            lemma_pow2_unfold((i + 1) as nat);
            lemma_pow2_strictly_increases((i + 1) as nat, 64);
            lemma2_to64();
        }
        p = p * 2;
        i = i + 1;
    }
    p
}

/// The magnitude of a normal double whose exponent field is below 1086,
/// where the magnitude is below two to the 63rd.
fn magnitude_of(bits: u64) -> (m: u64)
    requires
        float_is_normal(bits),
        float_exponent(bits) < 1086,
    ensures
        m == float_magnitude(bits),
        m < SIGN_BIT,
{
    let significand: u64 = HIDDEN_BIT + bits % HIDDEN_BIT;
    let exponent: u64 = (bits / HIDDEN_BIT) % 0x800;
    if exponent >= UNIT_EXPONENT {
        let scale: u64 = power_of_two(exponent - UNIT_EXPONENT);
        proof {
            lemma2_to64();
            if exponent - UNIT_EXPONENT < 10 {
                lemma_pow2_strictly_increases((exponent - UNIT_EXPONENT) as nat, 10);
            }
            assert(scale <= 0x400);
            assert(significand * scale < 0x20_0000_0000_0000 * 0x400) by (nonlinear_arith)
                requires
                    significand < 0x20_0000_0000_0000,
                    scale <= 0x400,
            ;
        }
        significand * scale
    } else if UNIT_EXPONENT - exponent >= 54 {
        proof {
            lemma2_to64();
            lemma2_to64_rest();
            let shift = (UNIT_EXPONENT - exponent) as nat;
            if shift > 54 {
                lemma_pow2_strictly_increases(54, shift);
            }
            assert(pow2(shift) >= 0x40_0000_0000_0000);
            assert(significand as nat / pow2(shift) == 0) by (nonlinear_arith)
                requires
                    significand < 0x20_0000_0000_0000,
                    pow2(shift) >= 0x40_0000_0000_0000,
            ;
        }
        0
    } else {
        let scale: u64 = power_of_two(UNIT_EXPONENT - exponent);
        significand / scale
    }
}

/// Whether a double differs from zero.
pub fn float_nonzero(bits: u64) -> (r: bool)
    ensures
        r == float_is_nonzero(bits),
{
    bits % SIGN_BIT != 0
}

/// Casts a double to `u64` as Rust's `as` does, except that whatever is not
/// normal reads as zero.
pub fn float_to_unsigned(bits: u64) -> (r: u64)
    ensures
        r == float_as_unsigned(bits),
{
    let exponent: u64 = (bits / HIDDEN_BIT) % 0x800;
    if bits >= SIGN_BIT || exponent < 1 || exponent > 2046 {
        0
    } else if exponent < 1086 {
        magnitude_of(bits)
    } else {
        let significand: u64 = HIDDEN_BIT + bits % HIDDEN_BIT;
        proof {
            lemma2_to64();
        }
        if exponent == 1086 {
            significand * 0x800
        } else {
            proof {
                let shift = (exponent - UNIT_EXPONENT) as nat;
                if shift > 12 {
                    lemma_pow2_strictly_increases(12, shift);
                }
                assert(pow2(shift) >= 0x1000);
                assert(significand as nat * pow2(shift) >= 0x10_0000_0000_0000 * 0x1000)
                    by (nonlinear_arith)
                    requires
                        significand >= 0x10_0000_0000_0000,
                        pow2(shift) >= 0x1000,
                ;
            }
            u64::MAX
        }
    }
}

/// Casts a double to `i64` as Rust's `as` does, except that whatever is not
/// normal reads as zero.
pub fn float_to_signed(bits: u64) -> (r: i64)
    ensures
        r == float_as_signed(bits),
{
    let exponent: u64 = (bits / HIDDEN_BIT) % 0x800;
    if exponent < 1 || exponent > 2046 {
        0
    } else if exponent < 1086 {
        let magnitude: u64 = magnitude_of(bits);
        if bits >= SIGN_BIT {
            0 - (magnitude as i64)
        } else {
            magnitude as i64
        }
    } else {
        proof {
            lemma2_to64();
            let shift = (exponent - UNIT_EXPONENT) as nat;
            if shift > 11 {
                lemma_pow2_strictly_increases(11, shift);
            }
            assert(pow2(shift) >= 0x800);
            assert((HIDDEN_BIT as nat + float_fraction(bits)) * pow2(shift) >= 0x10_0000_0000_0000
                * 0x800) by (nonlinear_arith)
                requires
                    pow2(shift) >= 0x800,
            ;
        }
        if bits >= SIGN_BIT {
            i64::MIN
        } else {
            i64::MAX
        }
    }
}

// ---------------------------------------------------------------------------
// Integers as decimal text.
// ---------------------------------------------------------------------------

/// The character of a decimal digit, for a digit below ten.
pub open spec fn digit(d: nat) -> char {
    ('0' as int + d) as char
}

/// Whether a character is one of the ten decimal digits `0` to `9`.
pub open spec fn is_digit(c: char) -> bool {
    '0' as int <= c as int <= '9' as int
}

/// The digit that a decimal digit character stands for.
pub open spec fn digit_value(c: char) -> nat {
    (c as int - '0' as int) as nat
}

/// The decimal numeral of a natural number, without leading zeros.
pub open spec fn decimal(n: nat) -> Seq<char>
    decreases n,
{
    if n < 10 {
        seq![digit(n)]
    } else {
        decimal(n / 10).push(digit(n % 10))
    }
}

/// The decimal numeral of an integer: a minus sign before the numeral of
/// the magnitude where the integer is negative.
pub open spec fn signed_decimal(v: int) -> Seq<char> {
    if v < 0 {
        seq!['-'] + decimal((-v) as nat)
    } else {
        decimal(v as nat)
    }
}

/// Whether every character of the text is a decimal digit.
pub open spec fn all_digits(s: Seq<char>) -> bool {
    forall|i: int| 0 <= i < s.len() ==> is_digit(#[trigger] s[i])
}

/// The value of a text of decimal digits, read as a numeral; leading zeros
/// are allowed and the empty text reads as zero.
pub open spec fn numeral_value(s: Seq<char>) -> nat
    decreases s.len(),
{
    if s.len() == 0 {
        0
    } else {
        numeral_value(s.drop_last()) * 10 + digit_value(s.last())
    }
}

/// What a text reads as when parsed as a `u64`: an optional plus sign and
/// then one or more decimal digits whose value fits. Any other text,
/// surrounding white space included, does not parse.
pub open spec fn parsed_unsigned(s: Seq<char>) -> Option<u64> {
    let body = if s.len() > 0 && s[0] == '+' {
        s.subrange(1, s.len() as int)
    } else {
        s
    };
    if body.len() > 0 && all_digits(body) && numeral_value(body) <= u64::MAX {
        Some(numeral_value(body) as u64)
    } else {
        None
    }
}

/// What a text reads as when parsed as an `i64`: an optional plus or minus
/// sign and then one or more decimal digits whose signed value fits.
pub open spec fn parsed_signed(s: Seq<char>) -> Option<i64> {
    let signed = s.len() > 0 && (s[0] == '+' || s[0] == '-');
    let body = if signed {
        s.subrange(1, s.len() as int)
    } else {
        s
    };
    let value = if signed && s[0] == '-' {
        -(numeral_value(body) as int)
    } else {
        numeral_value(body) as int
    };
    if body.len() > 0 && all_digits(body) && i64::MIN <= value <= i64::MAX {
        Some(value as i64)
    } else {
        None
    }
}

/// Calls `u64`'s `Display` through `format!`. Trusted: the text is the
/// decimal numeral of the value, as the standard library documents.
#[verifier::external_body]
pub(crate) fn unsigned_text(v: u64) -> (s: String)
    ensures
        s@ == decimal(v as nat),
{
    format!("{}", v)
}

/// Calls `i64`'s `Display` through `format!`. Trusted: the text is the
/// decimal numeral of the value, with a minus sign where it is negative.
#[verifier::external_body]
pub(crate) fn signed_text(v: i64) -> (s: String)
    ensures
        s@ == signed_decimal(v as int),
{
    format!("{}", v)
}

/// Calls `str::parse::<u64>`. Trusted: it accepts an optional plus sign and
/// then decimal digits, and fails on an empty text, a lone sign, any other
/// character and a value above `u64::MAX`.
#[verifier::external_body]
pub(crate) fn parse_unsigned(s: &str) -> (r: Option<u64>)
    ensures
        r == parsed_unsigned(s@),
{
    s.parse::<u64>().ok()
}

/// Calls `str::parse::<i64>`. Trusted: it accepts an optional plus or minus
/// sign and then decimal digits, and fails on an empty text, a lone sign,
/// any other character and a value outside `i64`.
#[verifier::external_body]
pub(crate) fn parse_signed(s: &str) -> (r: Option<i64>)
    ensures
        r == parsed_signed(s@),
{
    s.parse::<i64>().ok()
}

} // verus!
