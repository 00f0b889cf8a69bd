//! Token kinds, the error taxonomy of the transfer engine, and the token view
//! returned to callers.

use crate::str_map::StrMap;
use vstd::prelude::*;

verus! {

/// The kind of a token line. A token identifier lives in exactly one
/// sub-ledger, determined by its kind, and the kind never changes.
#[derive(Clone, Copy, PartialEq, Eq, Structural, Debug)]
pub enum TokenType {
    /// Divisible, interchangeable units tracked as per-holder balances that
    /// sum to a supply.
    Fungible,
    /// Indivisible, exclusively owned by exactly one account at a time.
    NonFungible,
}

/// Every way a transfer request can be refused. All of these are detected
/// synchronously, before any ledger mutation, and abort the whole call.
#[derive(Clone, Copy, PartialEq, Eq, Structural, Debug)]
pub enum TokenError {
    /// The token identifier is not in the type index.
    TokenNotFound,
    /// Sender and receiver are the same account.
    SameAccount,
    /// A non-owner sender tried to move a non-fungible token that has no
    /// approval entry at all.
    Unauthorized,
    /// The token has an approval entry, but the sender is not one of the
    /// approved accounts.
    SenderNotApproved,
    /// The sender is approved, but under a different approval sequence number
    /// than the one the caller expected.
    ApprovalMismatch,
    /// The requested amount exceeds the sender's fungible balance.
    InsufficientBalance,
    /// The sender holds no balance row for this fungible token.
    NotATokenHolder,
    /// A batch was given token id and amount lists of different lengths.
    LengthMismatch,
}

/// Everything the ledger records about one token, as handed to callers.
pub struct Token {
    /// The token's identifier.
    pub token_id: String,
    /// Which sub-ledger the token lives in.
    pub token_type: TokenType,
    /// The current owner; `Some` exactly for non-fungible tokens.
    pub owner_id: Option<String>,
    /// The total supply; `Some` exactly for fungible tokens.
    pub supply: Option<u128>,
    /// The approved spenders and their approval sequence numbers; `Some`
    /// exactly when the approval registry is enabled and holds an entry for
    /// this token.
    pub approved_account_ids: Option<StrMap<u64>>,
}

} // verus!
