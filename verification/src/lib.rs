//! A selector-indexed, bytecode-stripping decoder for the constructor
//! arguments of factory-deployed contracts.
//!
//! The registry maps a deployer address to a table of 4-byte function
//! selectors; each selector owns a decoding rule: the compiled bytecode that
//! precedes the constructor arguments in the deployment's input data, and the
//! textual ABI schema of those arguments. A lookup strips the bytecode prefix
//! and ABI-decodes the trailing bytes against the schema.

pub mod abi;
pub mod matcher;
pub mod tx;
