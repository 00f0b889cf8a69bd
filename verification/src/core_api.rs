//! The outward faces of the ledger: the core API surface a host contract
//! forwards its calls into, and the capability a receiving party implements
//! to be notified of transfers.
//!
//! The trait methods promise only that the ledger invariant is kept; the
//! exact transfer semantics are stated on [`MultiToken`]'s own methods,
//! which these delegate to.

use crate::ledger::MultiToken;
use crate::notify::NotifyOutcome;
use crate::notify::PendingNotify;
use crate::token::Token;
use crate::token::TokenError;
use vstd::prelude::*;

verus! {

/// The core ledger API: single and batch transfers, with and without
/// notification, the resolution entry point, and the read methods.
pub trait MultiTokenCore {
    /// The invariant the implementor maintains across every call.
    spec fn inv(&self) -> bool;

    /// Transfer one token (or an amount of one) with no notification.
    fn multi_transfer(
        &mut self,
        sender_id: &String,
        receiver_id: &String,
        token_id: &String,
        amount: u128,
        approval_id: Option<u64>,
        memo: Option<String>,
    ) -> (r: Result<(), TokenError>)
        requires
            old(self).inv(),
        ensures
            final(self).inv(),
    ;

    /// Transfer one token and hand back what the host needs to notify the
    /// receiving party and later resolve the outcome.
    fn multi_transfer_call(
        &mut self,
        sender_id: &String,
        receiver_id: &String,
        token_id: &String,
        amount: u128,
        approval_id: Option<u64>,
        memo: Option<String>,
        msg: String,
    ) -> (r: Result<PendingNotify, TokenError>)
        requires
            old(self).inv(),
        ensures
            final(self).inv(),
    ;

    /// Transfer a batch of tokens, all or nothing, with no notification.
    fn multi_batch_transfer(
        &mut self,
        sender_id: &String,
        receiver_id: &String,
        token_ids: &Vec<String>,
        amounts: &Vec<u128>,
        approval_id: Option<u64>,
        memo: Option<String>,
    ) -> (r: Result<(), TokenError>)
        requires
            old(self).inv(),
        ensures
            final(self).inv(),
    ;

    /// Transfer a batch, all or nothing, and hand back what the host needs
    /// to notify the receiving party and later resolve the outcome.
    fn multi_batch_transfer_call(
        &mut self,
        sender_id: &String,
        receiver_id: &String,
        token_ids: &Vec<String>,
        amounts: &Vec<u128>,
        approval_id: Option<u64>,
        memo: Option<String>,
        msg: String,
    ) -> (r: Result<PendingNotify, TokenError>)
        requires
            old(self).inv(),
        ensures
            final(self).inv(),
    ;

    /// Resolve an announced transfer once the notification's outcome is
    /// known, reporting per item the amount actually taken back.
    fn multi_resolve_transfer(
        &mut self,
        previous_owner_ids: &Vec<String>,
        receiver_id: &String,
        token_ids: &Vec<String>,
        amounts: &Vec<u128>,
        outcome: NotifyOutcome,
    ) -> (r: Vec<u128>)
        requires
            old(self).inv(),
            previous_owner_ids@.len() == token_ids@.len(),
            amounts@.len() == token_ids@.len(),
        ensures
            final(self).inv(),
    ;

    /// The balance an account holds of a fungible token.
    fn balance_of(&self, owner_id: &String, token_id: &String) -> Result<u128, TokenError>
        requires
            self.inv(),
    ;

    /// The balances an account holds of each listed fungible token.
    fn balance_of_batch(&self, owner_id: &String, token_ids: &Vec<String>) -> Result<
        Vec<u128>,
        TokenError,
    >
        requires
            self.inv(),
    ;

    /// The total outstanding units of a fungible token.
    fn total_supply(&self, token_id: &String) -> Result<u128, TokenError>
        requires
            self.inv(),
    ;

    /// The total supply of each listed fungible token.
    fn total_supply_batch(&self, token_ids: &Vec<String>) -> Result<Vec<u128>, TokenError>
        requires
            self.inv(),
    ;

    /// Everything recorded about one token.
    fn multi_token(&self, token_id: &String) -> Option<Token>
        requires
            self.inv(),
    ;
}

impl MultiTokenCore for MultiToken {
    open spec fn inv(&self) -> bool {
        self.wf()
    }

    fn multi_transfer(
        &mut self,
        sender_id: &String,
        receiver_id: &String,
        token_id: &String,
        amount: u128,
        approval_id: Option<u64>,
        memo: Option<String>,
    ) -> Result<(), TokenError> {
        MultiToken::multi_transfer(self, sender_id, receiver_id, token_id, amount, approval_id, memo)
    }

    fn multi_transfer_call(
        &mut self,
        sender_id: &String,
        receiver_id: &String,
        token_id: &String,
        amount: u128,
        approval_id: Option<u64>,
        memo: Option<String>,
        msg: String,
    ) -> Result<PendingNotify, TokenError> {
        MultiToken::multi_transfer_call(
            self,
            sender_id,
            receiver_id,
            token_id,
            amount,
            approval_id,
            memo,
            msg,
        )
    }

    fn multi_batch_transfer(
        &mut self,
        sender_id: &String,
        receiver_id: &String,
        token_ids: &Vec<String>,
        amounts: &Vec<u128>,
        approval_id: Option<u64>,
        memo: Option<String>,
    ) -> Result<(), TokenError> {
        MultiToken::multi_batch_transfer(
            self,
            sender_id,
            receiver_id,
            token_ids,
            amounts,
            approval_id,
            memo,
        )
    }

    fn multi_batch_transfer_call(
        &mut self,
        sender_id: &String,
        receiver_id: &String,
        token_ids: &Vec<String>,
        amounts: &Vec<u128>,
        approval_id: Option<u64>,
        memo: Option<String>,
        msg: String,
    ) -> Result<PendingNotify, TokenError> {
        MultiToken::multi_batch_transfer_call(
            self,
            sender_id,
            receiver_id,
            token_ids,
            amounts,
            approval_id,
            memo,
            msg,
        )
    }

    fn multi_resolve_transfer(
        &mut self,
        previous_owner_ids: &Vec<String>,
        receiver_id: &String,
        token_ids: &Vec<String>,
        amounts: &Vec<u128>,
        outcome: NotifyOutcome,
    ) -> Vec<u128> {
        MultiToken::multi_resolve_transfer(
            self,
            previous_owner_ids,
            receiver_id,
            token_ids,
            amounts,
            outcome,
        )
    }

    fn balance_of(&self, owner_id: &String, token_id: &String) -> Result<u128, TokenError> {
        MultiToken::balance_of(self, owner_id, token_id)
    }

    fn balance_of_batch(&self, owner_id: &String, token_ids: &Vec<String>) -> Result<
        Vec<u128>,
        TokenError,
    > {
        MultiToken::balance_of_batch(self, owner_id, token_ids)
    }

    fn total_supply(&self, token_id: &String) -> Result<u128, TokenError> {
        MultiToken::total_supply(self, token_id)
    }

    fn total_supply_batch(&self, token_ids: &Vec<String>) -> Result<Vec<u128>, TokenError> {
        MultiToken::total_supply_batch(self, token_ids)
    }

    fn multi_token(&self, token_id: &String) -> Option<Token> {
        MultiToken::multi_token(self, token_id)
    }
}

/// The capability a receiving party implements to hear of transfers made to
/// it. The answer says whether the transfer should be returned to the
/// sender; nothing can be promised about it, since it is the receiving
/// party's own decision.
pub trait MultiReceiver {
    /// Called after a transfer to this party has been applied; returns true
    /// if the transfer should be returned to `sender_id`.
    fn multi_on_transfer(
        &mut self,
        sender_id: &String,
        previous_owner_ids: &Vec<String>,
        token_ids: &Vec<String>,
        amounts: &Vec<u128>,
        msg: &String,
    ) -> bool;
}

} // verus!
