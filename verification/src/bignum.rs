//! Trusted boundary to num_bigint's arbitrary-precision unsigned integers.
//!
//! A `BigUint` is opaque here; the one thing the representation reads from
//! it is its little-endian base-2^32 digit sequence, named below and
//! produced by the single wrapper around `to_u32_digits`.

use num_bigint::BigUint;
use vstd::prelude::*;

verus! {

/// Declares num_bigint's `BigUint` so it can stand in signatures. A value
/// of it stays opaque; only its digit sequence, named below, is spoken of.
#[verifier::external_type_specification]
#[verifier::external_body]
pub struct ExBigUint(BigUint);

/// The little-endian base-2^32 digits of an arbitrary-precision unsigned
/// integer, least significant first, without trailing zero digits.
pub uninterp spec fn biguint_digits(v: BigUint) -> Seq<u32>;

/// Relies on num_bigint's BigUint::to_u32_digits: it returns the value's
/// base-2^32 digits ordered least significant first, a function of the
/// number alone.
#[verifier::external_body]
pub(crate) fn biguint_to_digits(v: &BigUint) -> (r: Vec<u32>)
    ensures
        r@ == biguint_digits(*v),
{
    v.to_u32_digits()
}

} // verus!
