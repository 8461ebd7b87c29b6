//! Candidate extraction from transaction variants.
//!
//! The chain scanner sees several transaction shapes. A lookup wants one
//! uniform pair out of each: the called address and the call-input bytes.
//! Transactions that create a contract directly have no called address, and
//! the blob-carrying variant is intentionally skipped; neither yields a
//! candidate.

use vstd::prelude::*;

use alloy_dyn_abi::DynSolValue;

use crate::matcher::Address;
use crate::matcher::Matcher;

verus! {

/// A transaction's destination: a direct contract creation, or a call to an
/// address.
pub enum TxKind {
    Create,
    Call(Address),
}

/// The transaction shapes the scanner distinguishes, reduced to what a lookup
/// reads: the destination and the call-input bytes.
pub enum Transaction {
    Legacy { to: TxKind, input: Vec<u8> },
    Eip2930 { to: TxKind, input: Vec<u8> },
    Eip1559 { to: TxKind, input: Vec<u8> },
    Eip4844 { destination: Address, input: Vec<u8> },
    Eip7702 { destination: Address, input: Vec<u8> },
}

/// The candidate a transaction yields: its called address and input. A
/// creation has no called address, and the blob-carrying variant is skipped
/// by design; both yield nothing.
pub open spec fn spec_candidate_call(tx: Transaction) -> Option<(Seq<u8>, Seq<u8>)> {
    match tx {
        Transaction::Legacy { to, input } => match to {
            TxKind::Call(a) => Some((a@, input@)),
            TxKind::Create => None,
        },
        Transaction::Eip2930 { to, input } => match to {
            TxKind::Call(a) => Some((a@, input@)),
            TxKind::Create => None,
        },
        Transaction::Eip1559 { to, input } => match to {
            TxKind::Call(a) => Some((a@, input@)),
            TxKind::Create => None,
        },
        Transaction::Eip4844 { .. } => None,
        Transaction::Eip7702 { destination, input } => Some((destination@, input@)),
    }
}

/// Extracts the candidate call, exactly as [`spec_candidate_call`] says.
pub fn candidate_call(tx: Transaction) -> (r: Option<(Address, Vec<u8>)>)
    ensures
        match r {
            Some(p) => spec_candidate_call(tx) == Some((p.0@, p.1@)),
            None => spec_candidate_call(tx) is None,
        },
{
    match tx {
        Transaction::Legacy { to, input } => match to {
            TxKind::Call(a) => Some((a, input)),
            TxKind::Create => None,
        },
        Transaction::Eip2930 { to, input } => match to {
            TxKind::Call(a) => Some((a, input)),
            TxKind::Create => None,
        },
        Transaction::Eip1559 { to, input } => match to {
            TxKind::Call(a) => Some((a, input)),
            TxKind::Create => None,
        },
        Transaction::Eip4844 { .. } => None,
        Transaction::Eip7702 { destination, input } => Some((destination, input)),
    }
}

/// One scanner step: extract the candidate call and look its constructor
/// arguments up in the registry.
pub fn scan_transaction(m: &Matcher, tx: Transaction) -> (r: Option<DynSolValue>)
    ensures
        r == match spec_candidate_call(tx) {
            Some(c) => m.decoded_args(c.0, c.1),
            None => None::<DynSolValue>,
        },
{
    match candidate_call(tx) {
        Some((to, input)) => m.get_constructor_args(&to, &input),
        None => None,
    }
}

} // verus!
