//! Calls into the arbitrary-precision integer library. Values cross this
//! boundary as big-endian byte strings; each wrapper converts, makes one
//! arithmetic or narrowing call, and converts the result back.
use vstd::prelude::*;

use crate::bytes::{be_signed, be_unsigned};
use num_bigint::{BigInt, BigUint};
use num_traits::cast::ToPrimitive;
use num_traits::ops::checked::CheckedSub;

verus! {

/// Relies on num_bigint::BigInt::from_signed_bytes_be, which reads big-endian
/// two's complement, and num_traits::ToPrimitive::to_i64, which returns Some
/// exactly when the value fits a 64-bit signed integer.
#[verifier::external_body]
pub(crate) fn big_signed_to_i64(b: &Vec<u8>) -> (r: Option<i64>)
    ensures
        r is Some <==> i64::MIN <= be_signed(b@) <= i64::MAX,
        r matches Some(v) ==> v == be_signed(b@),
{
    BigInt::from_signed_bytes_be(b).to_i64()
}

/// Relies on num_bigint::BigUint::from_bytes_be, which reads big-endian
/// magnitude bytes, and num_traits::ToPrimitive::to_u64, which returns Some
/// exactly when the value fits a 64-bit unsigned integer.
#[verifier::external_body]
pub(crate) fn big_unsigned_to_u64(b: &Vec<u8>) -> (r: Option<u64>)
    ensures
        r is Some <==> be_unsigned(b@) <= u64::MAX,
        r matches Some(v) ==> v == be_unsigned(b@),
{
    BigUint::from_bytes_be(b).to_u64()
}

/// Relies on num_bigint::BigUint addition; from_bytes_be/to_bytes_be convert
/// at the boundary, and to_bytes_be returns the magnitude without leading
/// zeros (a single zero byte for zero).
#[verifier::external_body]
pub(crate) fn big_add(a: &Vec<u8>, b: &Vec<u8>) -> (r: Vec<u8>)
    ensures
        be_unsigned(r@) == be_unsigned(a@) + be_unsigned(b@),
{
    (BigUint::from_bytes_be(a) + BigUint::from_bytes_be(b)).to_bytes_be()
}

/// Relies on num_traits::CheckedSub for num_bigint::BigUint, which returns
/// None exactly when the subtrahend exceeds the minuend.
#[verifier::external_body]
pub(crate) fn big_checked_sub(a: &Vec<u8>, b: &Vec<u8>) -> (r: Option<Vec<u8>>)
    ensures
        r is Some <==> be_unsigned(a@) >= be_unsigned(b@),
        r matches Some(v) ==> be_unsigned(v@) == be_unsigned(a@) - be_unsigned(b@),
{
    BigUint::from_bytes_be(a).checked_sub(&BigUint::from_bytes_be(b)).map(|d| d.to_bytes_be())
}

/// Relies on num_bigint::BigUint multiplication, with from_bytes_be and
/// to_bytes_be converting at the boundary.
#[verifier::external_body]
pub(crate) fn big_mul(a: &Vec<u8>, b: &Vec<u8>) -> (r: Vec<u8>)
    ensures
        be_unsigned(r@) == be_unsigned(a@) * be_unsigned(b@),
{
    (BigUint::from_bytes_be(a) * BigUint::from_bytes_be(b)).to_bytes_be()
}

/// Relies on num_bigint::BigUint::from(u64) and to_bytes_be.
#[verifier::external_body]
pub(crate) fn big_from_u64(v: u64) -> (r: Vec<u8>)
    ensures
        be_unsigned(r@) == v as nat,
{
    BigUint::from(v).to_bytes_be()
}

} // verus!
