//! Conversion of money amounts to whole minor units.
//!
//! Amounts arrive as decimal numbers, given by a mantissa and a scale: the
//! number is `mantissa / 10^scale`.  The decimal arithmetic is that of the
//! `rust_decimal` crate; this module decides what is done with its results.

use rust_decimal::prelude::ToPrimitive;
use rust_decimal::Decimal;
use vstd::prelude::*;

verus! {

/// Why an amount has no minor units.
#[derive(Clone, Copy, Debug, PartialEq, Eq)]
pub enum MoneyError {
    /// A hundred times the amount is not a decimal number of the arithmetic.
    Overflow,
    /// The rounded number of minor units is negative or exceeds 63 bits.
    OutOfRange,
}

/// What `rust_decimal` yields as the product of two decimals, each given by
/// mantissa and scale: the mantissa and scale of `Decimal::checked_mul`, or
/// nothing where a factor is not a decimal or the product overflows.
pub uninterp spec fn decimal_product(m1: int, s1: nat, m2: int, s2: nat) -> Option<(int, nat)>;

/// What `rust_decimal` yields when it rounds a decimal to a whole number:
/// the mantissa and scale of `Decimal::round`, or nothing where the argument
/// is not a decimal.
pub uninterp spec fn decimal_rounded(mantissa: int, scale: nat) -> Option<(int, nat)>;

/// What `rust_decimal` yields when it converts a decimal to a signed 64-bit
/// integer: the result of `to_i64`, or nothing where the argument is not a
/// decimal.
pub uninterp spec fn decimal_whole(mantissa: int, scale: nat) -> Option<int>;

/// Multiplies two decimals with `Decimal::checked_mul`.  The factors are
/// built with `Decimal::try_from_i128_with_scale`, the product is read with
/// `mantissa` and `scale`.  The contract names the result and claims nothing
/// else of it.
#[verifier::external_body]
fn times(m1: i128, s1: u32, m2: i128, s2: u32) -> (r: Option<(i128, u32)>)
    ensures
        match r {
            Some(p) => decimal_product(m1 as int, s1 as nat, m2 as int, s2 as nat) == Some((p.0 as int, p.1 as nat)),
            None => decimal_product(m1 as int, s1 as nat, m2 as int, s2 as nat) is None,
        },
{
    let a = Decimal::try_from_i128_with_scale(m1, s1).ok()?;
    let b = Decimal::try_from_i128_with_scale(m2, s2).ok()?;
    let p = a.checked_mul(b)?;
    Some((p.mantissa(), p.scale()))
}

/// Rounds a decimal to a whole number with `Decimal::round`.  The argument
/// is built with `Decimal::try_from_i128_with_scale`, the result is read
/// with `mantissa` and `scale`.  The contract names the result and claims
/// nothing else of it.
#[verifier::external_body]
fn rounded(mantissa: i128, scale: u32) -> (r: Option<(i128, u32)>)
    ensures
        match r {
            Some(p) => decimal_rounded(mantissa as int, scale as nat) == Some((p.0 as int, p.1 as nat)),
            None => decimal_rounded(mantissa as int, scale as nat) is None,
        },
{
    let d = Decimal::try_from_i128_with_scale(mantissa, scale).ok()?;
    let w = d.round();
    Some((w.mantissa(), w.scale()))
}

/// Converts a decimal to a signed 64-bit integer with `to_i64`.  The
/// argument is built with `Decimal::try_from_i128_with_scale`.  The contract
/// names the result and claims nothing else of it.
#[verifier::external_body]
fn whole(mantissa: i128, scale: u32) -> (r: Option<i64>)
    ensures
        match r {
            Some(v) => decimal_whole(mantissa as int, scale as nat) == Some(v as int),
            None => decimal_whole(mantissa as int, scale as nat) is None,
        },
{
    let d = Decimal::try_from_i128_with_scale(mantissa, scale).ok()?;
    d.to_i64()
}

/// The minor units for a rounded whole number, where it has any.
pub open spec fn penny_of(whole: Option<int>) -> Result<u64, MoneyError> {
    match whole {
        Some(v) => if 0 <= v <= i64::MAX {
            Ok(v as u64)
        } else {
            Err(MoneyError::OutOfRange)
        },
        None => Err(MoneyError::OutOfRange),
    }
}

/// The minor units of an amount: a hundred times the amount, rounded to a
/// whole number and converted to an integer, each step by the decimal
/// arithmetic.
pub open spec fn pennies(mantissa: int, scale: nat) -> Result<u64, MoneyError> {
    match decimal_product(mantissa, scale, 100, 0) {
        Some(product) => match decimal_rounded(product.0, product.1) {
            Some(round) => penny_of(decimal_whole(round.0, round.1)),
            None => Err(MoneyError::Overflow),
        },
        None => Err(MoneyError::Overflow),
    }
}

/// Turns the integer that the decimal arithmetic yielded into minor units.
/// An absent or negative number is out of range.
pub fn penny_from_whole(whole: Option<i64>) -> (r: Result<u64, MoneyError>)
    ensures
        r == penny_of(
            match whole {
                Some(v) => Some(v as int),
                None => None,
            },
        ),
{
    match whole {
        Some(v) => if v >= 0 {
            Ok(v as u64)
        } else {
            Err(MoneyError::OutOfRange)
        },
        None => Err(MoneyError::OutOfRange),
    }
}

/// Converts an amount of `mantissa / 10^scale` major units to whole minor
/// units.  The amount is multiplied by 100 and rounded to the nearest whole
/// number by the decimal arithmetic.  It fails where the product is not a
/// decimal, and where the rounded number is negative or exceeds 63 bits.
pub fn dollar_to_penny(mantissa: i128, scale: u32) -> (r: Result<u64, MoneyError>)
    ensures
        r == pennies(mantissa as int, scale as nat),
{
    match times(mantissa, scale, 100, 0) {
        Some(product) => match rounded(product.0, product.1) {
            Some(round) => penny_from_whole(whole(round.0, round.1)),
            None => Err(MoneyError::Overflow),
        },
        None => Err(MoneyError::Overflow),
    }
}

} // verus!
