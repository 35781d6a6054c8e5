//! Raw bytecode, shared without copying.
use alloy_primitives::Bytes;
use vstd::prelude::*;

verus! {

/// `alloy_primitives::Bytes`, an immutable byte string.
#[verifier::external_type_specification]
#[verifier::external_body]
pub struct ExBytes(Bytes);

/// The bytes that a byte string holds.
pub uninterp spec fn byte_contents(bytes: Bytes) -> Seq<u8>;

/// `Bytes::is_empty`: whether the byte string holds no byte.
#[verifier::external_body]
pub(crate) fn is_empty(bytes: &Bytes) -> (r: bool)
    ensures
        r == (byte_contents(*bytes).len() == 0),
{
    bytes.is_empty()
}

/// `Bytes::clone`: a byte string that holds the same bytes.
#[verifier::external_body]
pub(crate) fn share(bytes: &Bytes) -> (r: Bytes)
    ensures
        byte_contents(r) == byte_contents(*bytes),
{
    bytes.clone()
}

} // verus!
