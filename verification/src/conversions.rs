//! Fallible construction of a word from its serialisation.

use crate::word::MyU256;
use alloy_primitives::ruint::ToUintError;
use alloy_primitives::Uint;
use vstd::prelude::*;
use vstd::std_specs::convert::TryFromSpecImpl;

verus! {

/// `Uint` of ruint, a fixed-width unsigned integer. Nothing is claimed of it.
#[verifier::external_type_specification]
#[verifier::external_body]
pub struct ExUint<const BITS: usize, const LIMBS: usize>(Uint<BITS, LIMBS>);

/// `ToUintError` of ruint, the reason why a value does not convert to a
/// `Uint`. Nothing is claimed of it.
#[verifier::external_type_specification]
#[verifier::external_body]
#[verifier::reject_recursive_types(T)]
pub struct ExToUintError<T>(ToUintError<T>);

impl core::convert::TryFrom<[u8; 32]> for MyU256 {
    type Error = ToUintError<Uint<256, 4>>;

    /// The word whose canonical serialisation is `value`. Every 32 bytes are
    /// the serialisation of a word, so this never fails.
    fn try_from(value: [u8; 32]) -> (r: Result<MyU256, ToUintError<Uint<256, 4>>>) {
        Ok(MyU256::from_be_bytes(value))
    }
}

impl TryFromSpecImpl<[u8; 32]> for MyU256 {
    open spec fn obeys_try_from_spec() -> bool {
        true
    }

    open spec fn try_from_spec(value: [u8; 32]) -> Result<MyU256, ToUintError<Uint<256, 4>>> {
        Ok(MyU256::spec_from_be_bytes(value))
    }
}

} // verus!
