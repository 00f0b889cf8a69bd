//! The ledger's global guarantees, stated and proved once over the
//! mathematical state. Each holds at every well-formed state; since every
//! operation of the ledger requires and re-establishes well-formedness (see
//! [`lemma_apply_one_preserves_wf`](crate::transfer::lemma_apply_one_preserves_wf)),
//! each holds at every observation point.

use crate::ledger::apply_one;
use crate::ledger::check_one;
use crate::ledger::ft_apply;
use crate::ledger::view_wf;
use crate::ledger::LedgerView;
use crate::sums::map_sum;
use crate::token::TokenError;
use crate::token::TokenType;
use crate::transfer::lemma_ft_apply_inverse;
use crate::transfer::lemma_ft_apply_ok;
use vstd::prelude::*;

verus! {

/// For every fungible token, the balances of all holders sum exactly to the
/// recorded supply: no sequence of transfers creates or destroys units.
pub proof fn lemma_fungible_supply_conserved(v: LedgerView, id: Seq<char>)
    requires
        view_wf(v),
        v.types.dom().contains(id),
        v.types[id] == TokenType::Fungible,
    ensures
        v.ft_balances.dom().contains(id),
        v.ft_supplies.dom().contains(id),
        map_sum(v.ft_balances[id]) == v.ft_supplies[id],
{
}

/// Every non-fungible token has a recorded owner, and the ownership map
/// gives exactly one account per token: never zero owners, never two.
pub proof fn lemma_nft_single_owner(v: LedgerView, id: Seq<char>)
    requires
        view_wf(v),
        v.types.dom().contains(id),
        v.types[id] == TokenType::NonFungible,
    ensures
        v.nft_owners.dom().contains(id),
{
}

/// A transfer followed immediately by the opposite transfer restores the
/// pre-state balances and owner exactly. For a non-fungible token the
/// sender must be the owner (a transfer by an approved third party returns
/// the token to that third party, not to the owner); for a zero fungible
/// amount the receiver must hold a row, since a holder of nothing cannot
/// send even nothing back. Approvals cleared by the first transfer are not
/// part of the statement: any successful transfer clears them.
pub proof fn lemma_transfer_round_trip(
    v: LedgerView,
    a: Seq<char>,
    b: Seq<char>,
    id: Seq<char>,
    amt: u128,
)
    requires
        view_wf(v),
        check_one(v, a, b, id, amt, None) is None,
        v.types[id] == TokenType::NonFungible ==> v.nft_owners[id] == a,
        v.types[id] == TokenType::Fungible && amt == 0 ==> v.ft_balances[id].dom().contains(b),
    ensures
        check_one(apply_one(v, a, b, id, amt), b, a, id, amt, None) is None,
        apply_one(apply_one(v, a, b, id, amt), b, a, id, amt).nft_owners == v.nft_owners,
        apply_one(apply_one(v, a, b, id, amt), b, a, id, amt).ft_balances == v.ft_balances,
        apply_one(apply_one(v, a, b, id, amt), b, a, id, amt).ft_supplies == v.ft_supplies,
        apply_one(apply_one(v, a, b, id, amt), b, a, id, amt).types == v.types,
{
    let w1 = apply_one(v, a, b, id, amt);
    let w2 = apply_one(w1, b, a, id, amt);
    if v.types[id] == TokenType::NonFungible {
        assert(w2.nft_owners =~= v.nft_owners);
    } else {
        let bm = v.ft_balances[id];
        if amt == 0 {
            assert(w1.ft_balances =~= v.ft_balances);
            assert(w2.ft_balances =~= v.ft_balances);
        } else {
            let total = v.ft_supplies[id];
            lemma_ft_apply_ok(bm, a, b, amt, total);
            lemma_ft_apply_inverse(bm, a, b, amt);
            let a1 = ft_apply(bm, a, b, amt);
            assert(a1.dom().contains(b) && a1[b] >= amt);
            assert(w1.ft_balances[id] == a1);
            assert(ft_apply(a1, b, a, amt) == bm);
            assert(w2.ft_balances =~= v.ft_balances);
        }
    }
}

/// A non-fungible transfer attempted by a sender who is neither the owner
/// nor an approved spender is refused — as `Unauthorized` when the token has
/// no approval entry at all, as `SenderNotApproved` when it has one that
/// does not name the sender — and a refused transfer mutates nothing.
pub proof fn lemma_stranger_transfer_refused(
    v: LedgerView,
    sender: Seq<char>,
    receiver: Seq<char>,
    id: Seq<char>,
    amt: u128,
    approval_id: Option<u64>,
)
    requires
        view_wf(v),
        v.types.dom().contains(id),
        v.types[id] == TokenType::NonFungible,
        sender != receiver,
        sender != v.nft_owners[id],
        v.approvals.dom().contains(id) ==> !v.approvals[id].dom().contains(sender),
    ensures
        !v.approvals.dom().contains(id) ==> check_one(v, sender, receiver, id, amt, approval_id)
            == Some(TokenError::Unauthorized),
        v.approvals.dom().contains(id) ==> check_one(v, sender, receiver, id, amt, approval_id)
            == Some(TokenError::SenderNotApproved),
{
}

/// After any successful transfer of a non-fungible token, the approval map
/// for that token is empty, whether or not approvals existed before and
/// whoever the sender was.
pub proof fn lemma_transfer_clears_approvals(
    v: LedgerView,
    sender: Seq<char>,
    receiver: Seq<char>,
    id: Seq<char>,
    amt: u128,
)
    requires
        v.types.dom().contains(id),
        v.types[id] == TokenType::NonFungible,
    ensures
        !apply_one(v, sender, receiver, id, amt).approvals.dom().contains(id),
{
}

} // verus!
