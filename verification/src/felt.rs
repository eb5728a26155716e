//! Field elements of the remote target, and the two outside computations on
//! them that the planner needs: decoding a textual argument item and
//! deriving the registry's deployment salt from the configured seed.
//!
//! A field element is opaque here: the planner only carries such values into
//! the calls it emits.

use vstd::prelude::*;

verus! {

#[verifier::external_type_specification]
#[verifier::external_body]
pub struct ExFelt(starknet_crypto::Felt);

/// The field element that a textual argument item denotes, or nothing when
/// the item is malformed.  The result depends on the characters alone.
pub uninterp spec fn spec_felt_from_hex(s: Seq<char>) -> Option<starknet_crypto::Felt>;

/// The Keccak-derived field element of a byte string.  The result depends on
/// the bytes alone.
pub uninterp spec fn spec_starknet_keccak(data: Seq<u8>) -> starknet_crypto::Felt;

/// Relies on starknet_crypto::Felt::from_hex: parses a hexadecimal string,
/// with or without a `0x` prefix, into a field element, and fails on any
/// other input.
#[verifier::external_body]
pub fn felt_from_hex(s: &String) -> (r: Option<starknet_crypto::Felt>)
    ensures
        r == spec_felt_from_hex(s@),
{
    starknet_crypto::Felt::from_hex(s).ok()
}

/// Relies on starknet::core::utils::starknet_keccak: the Keccak-256 hash of
/// the bytes, truncated to 250 bits so that it always fits a field element.
#[verifier::external_body]
pub fn starknet_keccak_of(data: &[u8]) -> (r: starknet_crypto::Felt)
    ensures
        r == spec_starknet_keccak(data@),
{
    starknet::core::utils::starknet_keccak(data)
}

} // verus!
