//! A unified ledger for tokens that are either fungible (balance-based) or
//! non-fungible (ownership-based), addressed through one shared identifier
//! namespace, together with a two-phase transfer/notify/resolve protocol that
//! lets a transfer be provisionally applied, announced to a receiving party,
//! and rolled back if that party rejects it.
//!
//! The ledger itself is pure data: the host environment (persistent storage,
//! cross-contract calls, gas accounting) stays outside, hands this library
//! plain values, and takes plain values back.

pub mod core_api;
pub mod laws;
pub mod ledger;
pub mod notify;
pub mod str_map;
pub mod sums;
pub mod token;
pub mod transfer;

use vstd::prelude::*;

verus! {

} // verus!
