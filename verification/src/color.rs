//! Colours and their textual form in a plain PPM image.
use crate::scalar::{is_floor_sqrt, Scalar, SCALE};
use crate::vec3::Vec3;
use vstd::prelude::*;
use vstd::string::StringExecFns;

verus! {

/// A linear RGB colour; `x`, `y` and `z` hold red, green and blue.
pub type Color = Vec3;

/// The raw value of `0.999`, the brightest channel value that is written.
pub const CHANNEL_LIMIT_RAW: i64 = 4290672328;

/// The character of the decimal digit `d`.
pub open spec fn digit_char(d: nat) -> char {
    if d == 0 {
        '0'
    } else if d == 1 {
        '1'
    } else if d == 2 {
        '2'
    } else if d == 3 {
        '3'
    } else if d == 4 {
        '4'
    } else if d == 5 {
        '5'
    } else if d == 6 {
        '6'
    } else if d == 7 {
        '7'
    } else if d == 8 {
        '8'
    } else {
        '9'
    }
}

/// The decimal numeral of `n`, without leading zeros.
pub open spec fn decimal_text(n: nat) -> Seq<char>
    decreases n,
{
    if n < 10 {
        seq![digit_char(n)]
    } else {
        decimal_text(n / 10).push(digit_char(n % 10))
    }
}

fn digit_str(d: usize) -> (r: &'static str)
    requires
        d < 10,
    ensures
        r@ == seq![digit_char(d as nat)],
{
    proof {
        reveal_strlit("0");
        reveal_strlit("1");
        reveal_strlit("2");
        reveal_strlit("3");
        reveal_strlit("4");
        reveal_strlit("5");
        reveal_strlit("6");
        reveal_strlit("7");
        reveal_strlit("8");
        reveal_strlit("9");
    }
    if d == 0 {
        "0"
    } else if d == 1 {
        "1"
    } else if d == 2 {
        "2"
    } else if d == 3 {
        "3"
    } else if d == 4 {
        "4"
    } else if d == 5 {
        "5"
    } else if d == 6 {
        "6"
    } else if d == 7 {
        "7"
    } else if d == 8 {
        "8"
    } else {
        "9"
    }
}

/// The decimal numeral of `n`.
pub fn decimal(n: usize) -> (r: String)
    ensures
        r@ == decimal_text(n as nat),
    decreases n,
{
    if n < 10 {
        String::from_str(digit_str(n))
    } else {
        let mut s = decimal(n / 10);
        s.append(digit_str(n % 10));
        s
    }
}

pub open spec fn spec_linear_to_gamma(linear: Scalar) -> Scalar {
    if linear.raw <= 0 {
        Scalar::spec_zero()
    } else {
        linear.spec_sqrt()
    }
}

/// Gamma 2 correction: the square root of a positive channel value, zero
/// for any other.
#[verifier::when_used_as_spec(spec_linear_to_gamma)]
pub fn linear_to_gamma(linear: Scalar) -> (r: Scalar)
    ensures
        r == spec_linear_to_gamma(linear),
        linear.raw > 0 ==> is_floor_sqrt(r.raw as int, linear.raw * SCALE),
        r.raw >= 0,
{
    if linear.raw <= 0 {
        Scalar::zero()
    } else {
        linear.sqrt()
    }
}

/// The byte written for a linear channel value: its gamma-corrected value,
/// held between `0` and `0.999`, times 256, rounded down.
pub open spec fn channel_byte(linear: Scalar) -> nat {
    let gamma = spec_linear_to_gamma(linear).raw;
    let held = if gamma > CHANNEL_LIMIT_RAW {
        CHANNEL_LIMIT_RAW as int
    } else {
        gamma as int
    };
    ((held * 256) / (SCALE as int)) as nat
}

fn quantize(linear: Scalar) -> (r: usize)
    ensures
        r == channel_byte(linear),
        r <= 255,
{
    let gamma = linear_to_gamma(linear).raw;
    let held: i64 = if gamma > CHANNEL_LIMIT_RAW {
        CHANNEL_LIMIT_RAW
    } else {
        gamma
    };
    ((held as u64 * 256) / 4294967296u64) as usize
}

/// The three channel bytes of `color` as decimal numerals, separated by
/// single spaces.
pub open spec fn pixel_text(color: Vec3) -> Seq<char> {
    decimal_text(channel_byte(color.x)) + seq![' '] + decimal_text(channel_byte(color.y)) + seq![
        ' ',
    ] + decimal_text(channel_byte(color.z))
}

/// The line of a plain PPM image that holds `color`.
pub fn to_ppm(color: Vec3) -> (r: String)
    ensures
        r@ == pixel_text(color),
{
    proof {
        reveal_strlit(" ");
    }
    let mut s = decimal(quantize(color.x));
    s.append(" ");
    s.append(decimal(quantize(color.y)).as_str());
    s.append(" ");
    s.append(decimal(quantize(color.z)).as_str());
    s
}

impl Vec3 {
    pub open spec fn spec_black() -> Vec3 {
        Vec3 { x: Scalar::spec_zero(), y: Scalar::spec_zero(), z: Scalar::spec_zero() }
    }

    /// The colour with no light in any channel.
    #[verifier::when_used_as_spec(spec_black)]
    pub fn black() -> (r: Vec3)
        ensures
            r == Self::spec_black(),
    {
        Vec3 { x: Scalar::zero(), y: Scalar::zero(), z: Scalar::zero() }
    }

    /// The line of a plain PPM image that holds this colour.
    pub fn to_ppm(&self) -> (r: String)
        ensures
            r@ == pixel_text(*self),
    {
        to_ppm(*self)
    }
}

} // verus!
