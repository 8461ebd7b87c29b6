//! The trusted boundary to the ABI codec.
//!
//! Everything here stands for one operation of `alloy_dyn_abi`: parsing a
//! textual Solidity type schema, ABI-decoding parameter bytes against such a
//! schema, and re-encoding a decoded value. Each operation is deterministic —
//! a function of its arguments alone — so its result is given a name that the
//! rest of the library reasons with.

use vstd::prelude::*;

use alloy_dyn_abi::DynSolValue;

verus! {

#[verifier::external_type_specification]
#[verifier::external_body]
pub struct ExDynSolValue(DynSolValue);

/// Whether `alloy_dyn_abi::DynSolType::parse` accepts `schema` as a Solidity
/// type signature.
pub uninterp spec fn schema_ok(schema: Seq<char>) -> bool;

/// What parsing `schema` and ABI-decoding `data` against it as a parameter
/// tuple returns: `None` both when the schema does not parse and when the
/// bytes do not decode.
pub uninterp spec fn decode_of(schema: Seq<char>, data: Seq<u8>) -> Option<DynSolValue>;

/// The canonical parameter encoding that `DynSolValue::abi_encode_params`
/// gives to `value`.
pub uninterp spec fn encoded_params_of(value: DynSolValue) -> Seq<u8>;

/// Relies on `alloy_dyn_abi::DynSolType::parse`: whether a schema string is a
/// valid Solidity type signature depends on the string alone.
#[verifier::external_body]
pub(crate) fn schema_parses(schema: &str) -> (r: bool)
    ensures
        r == schema_ok(schema@),
{
    schema.parse::<alloy_dyn_abi::DynSolType>().is_ok()
}

/// Relies on `alloy_dyn_abi::DynSolType::parse` and
/// `DynSolType::abi_decode_params`: both are deterministic, so the outcome of
/// parsing the schema and decoding the bytes against it depends on the two
/// arguments alone.
#[verifier::external_body]
pub(crate) fn decode_params(schema: &str, data: &[u8]) -> (r: Option<DynSolValue>)
    ensures
        r == decode_of(schema@, data@),
{
    match schema.parse::<alloy_dyn_abi::DynSolType>() {
        Ok(ty) => ty.abi_decode_params(data).ok(),
        Err(_) => None,
    }
}

/// Relies on `alloy_dyn_abi::DynSolValue::abi_encode_params`: the canonical
/// parameter encoding of a value depends on the value alone.
#[verifier::external_body]
pub(crate) fn encode_params(value: &DynSolValue) -> (r: Vec<u8>)
    ensures
        r@ == encoded_params_of(*value),
{
    value.abi_encode_params()
}

} // verus!
