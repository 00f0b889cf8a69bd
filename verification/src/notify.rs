//! The transfer-and-notify protocol: a transfer is applied optimistically,
//! the data needed to announce it to the receiving party is handed to the
//! host, and when the notification's outcome arrives the resolution step
//! either lets the transfer stand or reverses it.
//!
//! Reversal follows the race-avoidance rule: a non-fungible token goes back
//! to its previous owner only if the receiver still owns it, and a fungible
//! amount goes back only as far as the receiver's remaining balance allows.

use crate::ledger::apply_one;
use crate::ledger::check_one;
use crate::ledger::ft_apply;
use crate::ledger::prev_owner_of;
use crate::ledger::same_account;
use crate::ledger::view_wf;
use crate::ledger::LedgerView;
use crate::ledger::MultiToken;
use crate::str_map::StrMap;
use crate::token::TokenError;
use crate::token::TokenType;
use crate::transfer::apply_batch;
use crate::transfer::batch_error;
use crate::transfer::ids_view;
use crate::transfer::prev_approvals_ok;
use vstd::prelude::*;

verus! {

/// How the notification step ended, as reported back by the host: the
/// receiving party answered whether the transfer should be returned, or the
/// notification mechanism itself failed to deliver an answer. A failed
/// delivery is treated exactly like a rejection, so a transfer never stays
/// undecided.
#[derive(Clone, Copy, PartialEq, Eq, Structural, Debug)]
pub enum NotifyOutcome {
    /// The notification call never completed; every item counts as rejected.
    NotDelivered,
    /// The receiving party answered; `true` asks for the transfer back.
    Delivered(bool),
}

/// Does this outcome demand that the transfer be reverted?
pub open spec fn spec_revert_requested(o: NotifyOutcome) -> bool {
    match o {
        NotifyOutcome::NotDelivered => true,
        NotifyOutcome::Delivered(b) => b,
    }
}

/// Everything the host needs to announce an applied transfer to the
/// receiving party and later feed the outcome back into
/// [`MultiToken::multi_resolve_transfer`].
pub struct PendingNotify {
    /// The account that initiated the transfer.
    pub sender_id: String,
    /// The account the transfer went to.
    pub receiver_id: String,
    /// The transferred token identifiers, in order.
    pub token_ids: Vec<String>,
    /// The transferred amounts, in the same order.
    pub amounts: Vec<u128>,
    /// The pre-transfer owners, in the same order.
    pub previous_owner_ids: Vec<String>,
    /// The message for the receiving party's notification handler.
    pub msg: String,
}

/// The amount the resolution step actually takes back for one item: the full
/// amount for a non-fungible token the receiver still owns, the amount
/// clamped to the receiver's remaining balance for a fungible token, and
/// zero when the asset has moved on, the accounts coincide, or the token is
/// unknown.
pub open spec fn revert_amount_one(
    v: LedgerView,
    prev: Seq<char>,
    receiver: Seq<char>,
    id: Seq<char>,
    amt: u128,
) -> u128 {
    if !v.types.dom().contains(id) {
        0
    } else if v.types[id] == TokenType::NonFungible {
        if v.nft_owners[id] == receiver {
            amt
        } else {
            0
        }
    } else {
        if prev == receiver {
            0
        } else {
            let b: u128 = if v.ft_balances[id].dom().contains(receiver) {
                v.ft_balances[id][receiver]
            } else {
                0
            };
            if amt <= b {
                amt
            } else {
                b
            }
        }
    }
}

/// The ledger state after reverting one item as far as the race-avoidance
/// rule allows.
pub open spec fn resolve_one(
    v: LedgerView,
    prev: Seq<char>,
    receiver: Seq<char>,
    id: Seq<char>,
    amt: u128,
) -> LedgerView {
    let x = revert_amount_one(v, prev, receiver, id, amt);
    if !v.types.dom().contains(id) {
        v
    } else if v.types[id] == TokenType::NonFungible {
        if v.nft_owners[id] == receiver {
            LedgerView { nft_owners: v.nft_owners.insert(id, prev), ..v }
        } else {
            v
        }
    } else {
        if x == 0 {
            v
        } else {
            LedgerView {
                ft_balances: v.ft_balances.insert(id, ft_apply(v.ft_balances[id], receiver, prev, x)),
                ..v
            }
        }
    }
}

/// The ledger state after resolving a whole batch, items in order.
pub open spec fn resolve_batch_view(
    v: LedgerView,
    prevs: Seq<Seq<char>>,
    receiver: Seq<char>,
    ids: Seq<Seq<char>>,
    amts: Seq<u128>,
) -> LedgerView
    decreases ids.len(),
{
    if ids.len() == 0 {
        v
    } else {
        resolve_batch_view(
            resolve_one(v, prevs[0], receiver, ids[0], amts[0]),
            prevs.skip(1),
            receiver,
            ids.skip(1),
            amts.skip(1),
        )
    }
}

/// Resolving a batch splits at any index: resolve the first `i` items, then
/// the rest.
pub proof fn lemma_resolve_batch_split(
    v: LedgerView,
    prevs: Seq<Seq<char>>,
    receiver: Seq<char>,
    ids: Seq<Seq<char>>,
    amts: Seq<u128>,
    i: int,
)
    requires
        ids.len() == amts.len(),
        ids.len() == prevs.len(),
        0 <= i <= ids.len(),
    ensures
        resolve_batch_view(v, prevs, receiver, ids, amts) == resolve_batch_view(
            resolve_batch_view(v, prevs.take(i), receiver, ids.take(i), amts.take(i)),
            prevs.skip(i),
            receiver,
            ids.skip(i),
            amts.skip(i),
        ),
    decreases i,
{
    if i == 0 {
        assert(ids.take(0) =~= Seq::<Seq<char>>::empty());
        assert(amts.take(0) =~= Seq::<u128>::empty());
        assert(prevs.take(0) =~= Seq::<Seq<char>>::empty());
        assert(ids.skip(0) =~= ids);
        assert(amts.skip(0) =~= amts);
        assert(prevs.skip(0) =~= prevs);
    } else {
        let v1 = resolve_one(v, prevs[0], receiver, ids[0], amts[0]);
        lemma_resolve_batch_split(v1, prevs.skip(1), receiver, ids.skip(1), amts.skip(1), i - 1);
        assert(ids.take(i).skip(1) =~= ids.skip(1).take(i - 1));
        assert(amts.take(i).skip(1) =~= amts.skip(1).take(i - 1));
        assert(prevs.take(i).skip(1) =~= prevs.skip(1).take(i - 1));
        assert(ids.skip(1).skip(i - 1) =~= ids.skip(i));
        assert(amts.skip(1).skip(i - 1) =~= amts.skip(i));
        assert(prevs.skip(1).skip(i - 1) =~= prevs.skip(i));
        assert(ids.take(i)[0] == ids[0]);
        assert(amts.take(i)[0] == amts[0]);
        assert(prevs.take(i)[0] == prevs[0]);
        assert(resolve_batch_view(v, prevs.take(i), receiver, ids.take(i), amts.take(i))
            == resolve_batch_view(
            v1,
            prevs.skip(1).take(i - 1),
            receiver,
            ids.skip(1).take(i - 1),
            amts.skip(1).take(i - 1),
        ));
    }
}

/// Should the transfers this outcome answers be taken back?
pub fn revert_requested(o: &NotifyOutcome) -> (r: bool)
    ensures
        r == spec_revert_requested(*o),
{
    match o {
        NotifyOutcome::NotDelivered => true,
        NotifyOutcome::Delivered(b) => *b,
    }
}

impl MultiToken {
    /// One checked transfer where the caller itself answers for the sender,
    /// with no notification: the synchronous entry point of the transfer
    /// engine.
    pub fn multi_transfer(
        &mut self,
        sender_id: &String,
        receiver_id: &String,
        token_id: &String,
        amount: u128,
        approval_id: Option<u64>,
        memo: Option<String>,
    ) -> (r: Result<(), TokenError>)
        requires
            old(self).wf(),
        ensures
            final(self).wf(),
            match r {
                Err(e) => check_one(old(self)@, sender_id@, receiver_id@, token_id@, amount, approval_id)
                    == Some(e) && final(self)@ == old(self)@,
                Ok(()) => check_one(
                    old(self)@,
                    sender_id@,
                    receiver_id@,
                    token_id@,
                    amount,
                    approval_id,
                ) is None && final(self)@ == apply_one(
                    old(self)@,
                    sender_id@,
                    receiver_id@,
                    token_id@,
                    amount,
                ),
            },
    {
        match self.internal_transfer(sender_id, receiver_id, token_id, amount, approval_id, memo) {
            Ok(_) => Ok(()),
            Err(e) => Err(e),
        }
    }

    /// A batch of checked transfers, all or nothing, with no notification.
    pub fn multi_batch_transfer(
        &mut self,
        sender_id: &String,
        receiver_id: &String,
        token_ids: &Vec<String>,
        amounts: &Vec<u128>,
        approval_id: Option<u64>,
        memo: Option<String>,
    ) -> (r: Result<(), TokenError>)
        requires
            old(self).wf(),
        ensures
            final(self).wf(),
            match r {
                Err(e) => final(self)@ == old(self)@ && (if token_ids@.len() != amounts@.len() {
                    e == TokenError::LengthMismatch
                } else {
                    batch_error(
                        old(self)@,
                        sender_id@,
                        receiver_id@,
                        ids_view(token_ids@),
                        amounts@,
                        approval_id,
                    ) == Some(e)
                }),
                Ok(()) => {
                    &&& token_ids@.len() == amounts@.len()
                    &&& batch_error(
                        old(self)@,
                        sender_id@,
                        receiver_id@,
                        ids_view(token_ids@),
                        amounts@,
                        approval_id,
                    ) is None
                    &&& final(self)@ == apply_batch(
                        old(self)@,
                        sender_id@,
                        receiver_id@,
                        ids_view(token_ids@),
                        amounts@,
                    )
                },
            },
    {
        match self.internal_transfer_batch(
            sender_id,
            receiver_id,
            token_ids,
            amounts,
            memo,
            approval_id,
        ) {
            Ok(_) => Ok(()),
            Err(e) => Err(e),
        }
    }

    /// Apply one transfer optimistically and hand back what the host needs
    /// to notify the receiving party and later resolve the outcome. The
    /// ledger is mutated exactly as by [`MultiToken::internal_transfer`];
    /// the notification itself is the host's to deliver.
    pub fn multi_transfer_call(
        &mut self,
        sender_id: &String,
        receiver_id: &String,
        token_id: &String,
        amount: u128,
        approval_id: Option<u64>,
        memo: Option<String>,
        msg: String,
    ) -> (r: Result<PendingNotify, TokenError>)
        requires
            old(self).wf(),
        ensures
            final(self).wf(),
            match r {
                Err(e) => check_one(old(self)@, sender_id@, receiver_id@, token_id@, amount, approval_id)
                    == Some(e) && final(self)@ == old(self)@,
                Ok(p) => {
                    &&& check_one(
                        old(self)@,
                        sender_id@,
                        receiver_id@,
                        token_id@,
                        amount,
                        approval_id,
                    ) is None
                    &&& final(self)@ == apply_one(
                        old(self)@,
                        sender_id@,
                        receiver_id@,
                        token_id@,
                        amount,
                    )
                    &&& p.sender_id@ == sender_id@
                    &&& p.receiver_id@ == receiver_id@
                    &&& p.token_ids@.len() == 1
                    &&& p.token_ids@[0]@ == token_id@
                    &&& p.amounts@ == seq![amount]
                    &&& p.previous_owner_ids@.len() == 1
                    &&& p.previous_owner_ids@[0]@ == prev_owner_of(old(self)@, sender_id@, token_id@)
                    &&& p.msg@ == msg@
                },
            },
    {
        match self.internal_transfer(sender_id, receiver_id, token_id, amount, approval_id, memo) {
            Err(e) => Err(e),
            Ok(pr) => {
                let mut token_ids: Vec<String> = Vec::new();
                token_ids.push(token_id.clone());
                let mut amounts: Vec<u128> = Vec::new();
                amounts.push(amount);
                let mut previous_owner_ids: Vec<String> = Vec::new();
                previous_owner_ids.push(pr.0);
                proof {
                    assert(amounts@ =~= seq![amount]);
                }
                Ok(
                    PendingNotify {
                        sender_id: sender_id.clone(),
                        receiver_id: receiver_id.clone(),
                        token_ids,
                        amounts,
                        previous_owner_ids,
                        msg,
                    },
                )
            },
        }
    }

    /// Apply a batch of transfers optimistically, all or nothing, and hand
    /// back what the host needs to notify the receiving party and later
    /// resolve the outcome for every item.
    pub fn multi_batch_transfer_call(
        &mut self,
        sender_id: &String,
        receiver_id: &String,
        token_ids: &Vec<String>,
        amounts: &Vec<u128>,
        approval_id: Option<u64>,
        memo: Option<String>,
        msg: String,
    ) -> (r: Result<PendingNotify, TokenError>)
        requires
            old(self).wf(),
        ensures
            final(self).wf(),
            match r {
                Err(e) => final(self)@ == old(self)@ && (if token_ids@.len() != amounts@.len() {
                    e == TokenError::LengthMismatch
                } else {
                    batch_error(
                        old(self)@,
                        sender_id@,
                        receiver_id@,
                        ids_view(token_ids@),
                        amounts@,
                        approval_id,
                    ) == Some(e)
                }),
                Ok(p) => {
                    &&& token_ids@.len() == amounts@.len()
                    &&& batch_error(
                        old(self)@,
                        sender_id@,
                        receiver_id@,
                        ids_view(token_ids@),
                        amounts@,
                        approval_id,
                    ) is None
                    &&& final(self)@ == apply_batch(
                        old(self)@,
                        sender_id@,
                        receiver_id@,
                        ids_view(token_ids@),
                        amounts@,
                    )
                    &&& p.sender_id@ == sender_id@
                    &&& p.receiver_id@ == receiver_id@
                    &&& ids_view(p.token_ids@) == ids_view(token_ids@)
                    &&& p.amounts@ == amounts@
                    &&& p.previous_owner_ids@.len() == token_ids@.len()
                    &&& forall|j: int| #![trigger p.previous_owner_ids@[j]] 0 <= j
                        < token_ids@.len() ==> p.previous_owner_ids@[j]@ == prev_owner_of(
                        apply_batch(
                            old(self)@,
                            sender_id@,
                            receiver_id@,
                            ids_view(token_ids@).take(j),
                            amounts@.take(j),
                        ),
                        sender_id@,
                        ids_view(token_ids@)[j],
                    )
                    &&& p.msg@ == msg@
                },
            },
    {
        match self.internal_transfer_batch(
            sender_id,
            receiver_id,
            token_ids,
            amounts,
            memo,
            approval_id,
        ) {
            Err(e) => Err(e),
            Ok(results) => {
                let n = results.len();
                let ghost resultsv = results@;
                let mut previous_owner_ids: Vec<String> = Vec::new();
                let mut ids_copy: Vec<String> = Vec::new();
                let mut amounts_copy: Vec<u128> = Vec::new();
                let mut consumed = results;
                let mut i: usize = 0;
                // consume the result list front to back, keeping the owners
                while i < n
                    invariant
                        i <= n,
                        n == resultsv.len(),
                        n == token_ids@.len(),
                        n == amounts@.len(),
                        consumed@ == resultsv.skip(i as int),
                        previous_owner_ids@.len() == i,
                        ids_copy@.len() == i,
                        amounts_copy@.len() == i,
                        forall|j: int| #![trigger previous_owner_ids@[j]] 0 <= j < i
                            ==> previous_owner_ids@[j] == resultsv[j].0,
                        forall|j: int| #![trigger ids_copy@[j]] 0 <= j < i ==> ids_copy@[j]@
                            == token_ids@[j]@,
                        forall|j: int| #![trigger amounts_copy@[j]] 0 <= j < i ==> amounts_copy@[j]
                            == amounts@[j],
                    decreases n - i,
                {
                    let pr = consumed.remove(0);
                    proof {
                        assert(resultsv.skip(i as int)[0] == resultsv[i as int]);
                        assert(resultsv.skip(i as int).remove(0) =~= resultsv.skip(i + 1));
                    }
                    previous_owner_ids.push(pr.0);
                    ids_copy.push(token_ids[i].clone());
                    amounts_copy.push(amounts[i]);
                    i += 1;
                }
                proof {
                    assert(ids_view(ids_copy@) =~= ids_view(token_ids@));
                    assert(amounts_copy@ =~= amounts@);
                }
                Ok(
                    PendingNotify {
                        sender_id: sender_id.clone(),
                        receiver_id: receiver_id.clone(),
                        token_ids: ids_copy,
                        amounts: amounts_copy,
                        previous_owner_ids,
                        msg,
                    },
                )
            },
        }
    }

    /// Resolve an announced transfer once the notification's outcome is
    /// known. When no revert is requested every item stands and zero is
    /// reported for it; otherwise each item is taken back as far as the
    /// race-avoidance rule allows, and the amount actually taken back is
    /// reported per item, in order. Approvals cleared by the transfer are
    /// intentionally not restored.
    pub fn multi_resolve_transfer(
        &mut self,
        previous_owner_ids: &Vec<String>,
        receiver_id: &String,
        token_ids: &Vec<String>,
        amounts: &Vec<u128>,
        outcome: NotifyOutcome,
    ) -> (r: Vec<u128>)
        requires
            old(self).wf(),
            previous_owner_ids@.len() == token_ids@.len(),
            amounts@.len() == token_ids@.len(),
        ensures
            final(self).wf(),
            r@.len() == token_ids@.len(),
            !spec_revert_requested(outcome) ==> final(self)@ == old(self)@ && (forall|j: int|
                0 <= j < token_ids@.len() ==> r@[j] == 0),
            spec_revert_requested(outcome) ==> {
                &&& final(self)@ == resolve_batch_view(
                    old(self)@,
                    ids_view(previous_owner_ids@),
                    receiver_id@,
                    ids_view(token_ids@),
                    amounts@,
                )
                &&& forall|j: int| #![trigger r@[j]] 0 <= j < token_ids@.len() ==> r@[j]
                    == revert_amount_one(
                    resolve_batch_view(
                        old(self)@,
                        ids_view(previous_owner_ids@).take(j),
                        receiver_id@,
                        ids_view(token_ids@).take(j),
                        amounts@.take(j),
                    ),
                    ids_view(previous_owner_ids@)[j],
                    receiver_id@,
                    ids_view(token_ids@)[j],
                    amounts@[j],
                )
            },
    {
        let n = token_ids.len();
        let mut out: Vec<u128> = Vec::new();
        if !revert_requested(&outcome) {
            let mut i: usize = 0;
            while i < n
                invariant
                    i <= n,
                    out@.len() == i,
                    forall|j: int| 0 <= j < i ==> out@[j] == 0,
                decreases n - i,
            {
                out.push(0);
                i += 1;
            }
            return out;
        }
        let ghost v0 = old(self)@;
        let ghost prevsv = ids_view(previous_owner_ids@);
        let ghost idsv = ids_view(token_ids@);
        let ghost amtsv = amounts@;
        proof {
            assert(idsv.take(0) =~= Seq::<Seq<char>>::empty());
            assert(amtsv.take(0) =~= Seq::<u128>::empty());
            assert(prevsv.take(0) =~= Seq::<Seq<char>>::empty());
        }
        let mut i: usize = 0;
        while i < n
            invariant
                self.wf(),
                i <= n,
                n == token_ids@.len(),
                n == amounts@.len(),
                n == previous_owner_ids@.len(),
                v0 == old(self)@,
                prevsv == ids_view(previous_owner_ids@),
                idsv == ids_view(token_ids@),
                amtsv == amounts@,
                out@.len() == i,
                self@ == resolve_batch_view(
                    v0,
                    prevsv.take(i as int),
                    receiver_id@,
                    idsv.take(i as int),
                    amtsv.take(i as int),
                ),
                forall|j: int| #![trigger out@[j]] 0 <= j < i ==> out@[j] == revert_amount_one(
                    resolve_batch_view(
                        v0,
                        prevsv.take(j),
                        receiver_id@,
                        idsv.take(j),
                        amtsv.take(j),
                    ),
                    prevsv[j],
                    receiver_id@,
                    idsv[j],
                    amtsv[j],
                ),
            decreases n - i,
        {
            let ghost state_i = self@;
            let ghost prevout = out@;
            let token_id = &token_ids[i];
            let prev_owner = &previous_owner_ids[i];
            let amount = amounts[i];
            let reverted: u128;
            match self.token_type_of(token_id) {
                None => {
                    reverted = 0;
                },
                Some(TokenType::NonFungible) => {
                    let still_with_receiver = match self.nft_owner_of(token_id) {
                        Some(o) => same_account(o, receiver_id),
                        None => {
                            proof {
                                assert(false);
                            }
                            false
                        },
                    };
                    if still_with_receiver {
                        self.internal_transfer_unguarded(token_id, amount, receiver_id, prev_owner);
                        proof {
                            assert(self@ =~= resolve_one(
                                state_i,
                                prevsv[i as int],
                                receiver_id@,
                                idsv[i as int],
                                amtsv[i as int],
                            ));
                        }
                        reverted = amount;
                    } else {
                        reverted = 0;
                    }
                },
                Some(TokenType::Fungible) => {
                    let receiver_balance = match self.balance_of(receiver_id, token_id) {
                        Ok(b) => b,
                        Err(_) => {
                            proof {
                                assert(false);
                            }
                            0
                        },
                    };
                    let x = if amount <= receiver_balance {
                        amount
                    } else {
                        receiver_balance
                    };
                    if x > 0 && !same_account(receiver_id, prev_owner) {
                        self.internal_transfer_unguarded(token_id, x, receiver_id, prev_owner);
                        proof {
                            assert(self@ =~= resolve_one(
                                state_i,
                                prevsv[i as int],
                                receiver_id@,
                                idsv[i as int],
                                amtsv[i as int],
                            ));
                        }
                        reverted = x;
                    } else {
                        reverted = 0;
                    }
                },
            }
            out.push(reverted);
            proof {
                assert(reverted == revert_amount_one(
                    state_i,
                    prevsv[i as int],
                    receiver_id@,
                    idsv[i as int],
                    amtsv[i as int],
                ));
                assert(self@ == resolve_one(
                    state_i,
                    prevsv[i as int],
                    receiver_id@,
                    idsv[i as int],
                    amtsv[i as int],
                ));
                assert(idsv.take(i + 1).take(i as int) =~= idsv.take(i as int));
                assert(amtsv.take(i + 1).take(i as int) =~= amtsv.take(i as int));
                assert(prevsv.take(i + 1).take(i as int) =~= prevsv.take(i as int));
                assert(idsv.take(i + 1).skip(i as int) =~= seq![idsv[i as int]]);
                assert(amtsv.take(i + 1).skip(i as int) =~= seq![amtsv[i as int]]);
                assert(prevsv.take(i + 1).skip(i as int) =~= seq![prevsv[i as int]]);
                lemma_resolve_batch_split(
                    v0,
                    prevsv.take(i + 1),
                    receiver_id@,
                    idsv.take(i + 1),
                    amtsv.take(i + 1),
                    i as int,
                );
                assert(seq![idsv[i as int]].skip(1) =~= Seq::<Seq<char>>::empty());
                assert(seq![amtsv[i as int]].skip(1) =~= Seq::<u128>::empty());
                assert(seq![prevsv[i as int]].skip(1) =~= Seq::<Seq<char>>::empty());
                let mid = resolve_one(state_i, prevsv[i as int], receiver_id@, idsv[i as int], amtsv[i as int]);
                assert(resolve_batch_view(
                    mid,
                    Seq::<Seq<char>>::empty(),
                    receiver_id@,
                    Seq::<Seq<char>>::empty(),
                    Seq::<u128>::empty(),
                ) == mid);
                assert(resolve_batch_view(
                    state_i,
                    seq![prevsv[i as int]],
                    receiver_id@,
                    seq![idsv[i as int]],
                    seq![amtsv[i as int]],
                ) == mid);
                assert(self@ == resolve_batch_view(
                    v0,
                    prevsv.take(i + 1),
                    receiver_id@,
                    idsv.take(i + 1),
                    amtsv.take(i + 1),
                ));
                assert(forall|j: int| 0 <= j < i ==> out@[j] == prevout[j]);
                assert(out@[i as int] == reverted);
            }
            i += 1;
        }
        proof {
            assert(idsv.take(n as int) =~= idsv);
            assert(amtsv.take(n as int) =~= amtsv);
            assert(prevsv.take(n as int) =~= prevsv);
        }
        out
    }
}

} // verus!
