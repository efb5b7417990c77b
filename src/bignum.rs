//! Arithmetic on little-endian byte strings, carried out by `num_bigint`.
use crate::bytes_le::le_nat;
use num_bigint::BigUint;
use vstd::prelude::*;

verus! {

/// `2^64`.
pub open spec fn two_pow_64() -> nat {
    0x1_0000_0000_0000_0000nat
}

/// Relies on `BigUint::from_bytes_le` and `BigUint`'s `<=`: numeric comparison.
#[verifier::external_body]
pub(crate) fn le_le(a: &Vec<u8>, b: &Vec<u8>) -> (r: bool)
    ensures
        r == (le_nat(a@) <= le_nat(b@)),
{
    BigUint::from_bytes_le(a) <= BigUint::from_bytes_le(b)
}

/// Relies on `BigUint`'s `Mul<u64>` and `to_bytes_le`: the exact product.
#[verifier::external_body]
pub(crate) fn le_mul_u64(a: &Vec<u8>, k: u64) -> (r: Vec<u8>)
    ensures
        le_nat(r@) == le_nat(a@) * k,
{
    (BigUint::from_bytes_le(a) * k).to_bytes_le()
}

/// Relies on `BigUint`'s `Mul` and `to_bytes_le`: the exact product.
#[verifier::external_body]
pub(crate) fn le_mul(a: &Vec<u8>, b: &Vec<u8>) -> (r: Vec<u8>)
    ensures
        le_nat(r@) == le_nat(a@) * le_nat(b@),
{
    (BigUint::from_bytes_le(a) * BigUint::from_bytes_le(b)).to_bytes_le()
}

/// Relies on `BigUint`'s `Div` (truncating; panics on a zero divisor) and `to_bytes_le`.
#[verifier::external_body]
pub(crate) fn le_div(a: &Vec<u8>, b: &Vec<u8>) -> (r: Vec<u8>)
    requires
        le_nat(b@) > 0,
    ensures
        le_nat(r@) == le_nat(a@) / le_nat(b@),
{
    (BigUint::from_bytes_le(a) / BigUint::from_bytes_le(b)).to_bytes_le()
}

/// Relies on `BigUint`'s `Div<u64>` (truncating; panics on a zero divisor) and `to_bytes_le`.
#[verifier::external_body]
pub(crate) fn le_div_u64(a: &Vec<u8>, d: u64) -> (r: Vec<u8>)
    requires
        d > 0,
    ensures
        le_nat(r@) == le_nat(a@) / (d as nat),
{
    (BigUint::from_bytes_le(a) / d).to_bytes_le()
}

/// Relies on `BigUint`'s `Sub` (panics when the result would be negative) and `to_bytes_le`.
#[verifier::external_body]
pub(crate) fn le_sub(a: &Vec<u8>, b: &Vec<u8>) -> (r: Vec<u8>)
    requires
        le_nat(b@) <= le_nat(a@),
    ensures
        le_nat(r@) == le_nat(a@) - le_nat(b@),
{
    (BigUint::from_bytes_le(a) - BigUint::from_bytes_le(b)).to_bytes_le()
}

/// Relies on `BigUint::iter_u64_digits`: its first digit is the value modulo `2^64`,
/// and zero has no digits.
#[verifier::external_body]
pub(crate) fn le_low_u64(a: &Vec<u8>) -> (r: u64)
    ensures
        r as nat == le_nat(a@) % two_pow_64(),
{
    BigUint::from_bytes_le(a).iter_u64_digits().next().unwrap_or(0)
}

/// Relies on `TryFrom<&BigUint> for u64`: succeeds exactly when the value fits.
#[verifier::external_body]
pub(crate) fn le_to_u64(a: &Vec<u8>) -> (r: Option<u64>)
    ensures
        r == (if le_nat(a@) < two_pow_64() { Some(le_nat(a@) as u64) } else { None::<u64> }),
{
    u64::try_from(&BigUint::from_bytes_le(a)).ok()
}

} // verus!
