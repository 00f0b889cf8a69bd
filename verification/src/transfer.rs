//! The mathematics of transfers: what a successful transfer hands back, and
//! the lemmas showing that an allowed transfer conserves the ledger
//! invariant, in particular that fungible balance sums equal the supply and
//! that stored balances stay positive.

use crate::ledger::apply_one;
use crate::ledger::check_one;
use crate::ledger::ft_apply;
use crate::ledger::ft_credit;
use crate::ledger::ft_debit;
use crate::ledger::view_wf;
use crate::ledger::LedgerView;
use crate::str_map::StrMap;
use crate::sums::lemma_map_sum_bound;
use crate::sums::lemma_map_sum_bound_two;
use crate::sums::lemma_map_sum_insert_existing;
use crate::sums::lemma_map_sum_insert_fresh;
use crate::sums::lemma_map_sum_remove;
use crate::sums::map_sum;
use crate::token::TokenType;
use vstd::prelude::*;

verus! {

/// What a successful transfer hands back about the approvals it cleared:
/// the cleared approval entry of a non-fungible token, or `None` for a
/// fungible token or a token that had no entry.
pub open spec fn prev_approvals_ok(v: LedgerView, id: Seq<char>, pr: Option<StrMap<u64>>) -> bool {
    match pr {
        Some(m) => {
            &&& v.types.dom().contains(id)
            &&& v.types[id] == TokenType::NonFungible
            &&& v.approvals.dom().contains(id)
            &&& m.wf()
            &&& m.m() == v.approvals[id]
        },
        None => !v.approvals.dom().contains(id),
    }
}

/// A fungible transfer of a positive amount from a holder with sufficient
/// balance preserves the balance sum, keeps every stored balance positive,
/// and the receiver's credited balance stays within the original sum.
pub proof fn lemma_ft_apply_ok(
    bm: Map<Seq<char>, u128>,
    sender: Seq<char>,
    receiver: Seq<char>,
    amount: u128,
    total: u128,
)
    requires
        bm.dom().finite(),
        map_sum(bm) == total,
        forall|a: Seq<char>| #[trigger] bm.dom().contains(a) ==> bm[a] > 0,
        bm.dom().contains(sender),
        bm[sender] >= amount,
        amount > 0,
        sender != receiver,
    ensures
        ft_debit(bm, sender, amount).dom().finite(),
        map_sum(ft_debit(bm, sender, amount)) == total - amount,
        ft_debit(bm, sender, amount).dom().contains(receiver) == bm.dom().contains(receiver),
        ft_debit(bm, sender, amount).dom().contains(receiver) ==> ft_debit(bm, sender, amount)[receiver] == bm[receiver],
        (if bm.dom().contains(receiver) {
            bm[receiver]
        } else {
            0
        }) + amount <= total,
        ft_apply(bm, sender, receiver, amount).dom().finite(),
        map_sum(ft_apply(bm, sender, receiver, amount)) == total,
        forall|a: Seq<char>| #[trigger] ft_apply(bm, sender, receiver, amount).dom().contains(a)
            ==> ft_apply(bm, sender, receiver, amount)[a] > 0,
{
    let d = ft_debit(bm, sender, amount);
    if bm[sender] == amount {
        lemma_map_sum_remove(bm, sender);
        assert(d.dom() =~= bm.dom().remove(sender));
    } else {
        lemma_map_sum_insert_existing(bm, sender, (bm[sender] - amount) as u128);
        assert(d.dom() =~= bm.dom());
    }
    if bm.dom().contains(receiver) {
        lemma_map_sum_bound_two(bm, sender, receiver);
    } else {
        lemma_map_sum_bound(bm, sender);
    }
    let c = ft_apply(bm, sender, receiver, amount);
    if d.dom().contains(receiver) {
        lemma_map_sum_insert_existing(d, receiver, (d[receiver] + amount) as u128);
    } else {
        lemma_map_sum_insert_fresh(d, receiver, amount);
    }
    assert(forall|a: Seq<char>| #[trigger] c.dom().contains(a) ==> c[a] > 0);
}

/// An allowed transfer preserves the ledger invariant: the type index, the
/// supplies and the balance sums are untouched or conserved, ownership stays
/// exclusive, and the approval registry only shrinks.
pub proof fn lemma_apply_one_preserves_wf(
    v: LedgerView,
    sender: Seq<char>,
    receiver: Seq<char>,
    id: Seq<char>,
    amount: u128,
    approval_id: Option<u64>,
)
    requires
        view_wf(v),
        check_one(v, sender, receiver, id, amount, approval_id) is None,
    ensures
        view_wf(apply_one(v, sender, receiver, id, amount)),
{
    let w = apply_one(v, sender, receiver, id, amount);
    if v.types[id] == TokenType::NonFungible {
        assert(w.nft_owners.dom() =~= v.nft_owners.dom());
        assert(w.approvals.dom() =~= v.approvals.dom().remove(id));
        assert forall|id2: Seq<char>| #[trigger] w.approvals.dom().contains(id2) implies {
            &&& w.types.dom().contains(id2) && w.types[id2] == TokenType::NonFungible
            &&& w.approvals[id2].dom().finite()
            &&& w.next_approval_ids.dom().contains(id2)
            &&& forall|a: Seq<char>| #[trigger] w.approvals[id2].dom().contains(a)
                ==> w.approvals[id2][a] < w.next_approval_ids[id2]
        } by {
            assert(v.approvals.dom().contains(id2));
            assert(w.approvals[id2] == v.approvals[id2]);
        }
        if !v.approvals_enabled {
            assert(w.approvals.dom() =~= Set::<Seq<char>>::empty());
        }
        assert(view_wf(w));
    } else {
        let bm = v.ft_balances[id];
        let total = v.ft_supplies[id];
        if amount > 0 {
            lemma_ft_apply_ok(bm, sender, receiver, amount, total);
        }
        assert(w.ft_balances.dom() =~= v.ft_balances.dom());
        assert(w.ft_supplies.dom() == w.ft_balances.dom());
        assert(forall|id2: Seq<char>| #[trigger] w.ft_balances.dom().contains(id2) && id2 != id
            ==> w.ft_balances[id2] == v.ft_balances[id2]);
        assert(view_wf(w));
    }
}

/// Transferring the amount straight back undoes a fungible transfer exactly:
/// the sender's row returns (or reappears) at its old value, and a receiver
/// row that did not exist before vanishes again with its balance at zero.
pub proof fn lemma_ft_apply_inverse(
    bm: Map<Seq<char>, u128>,
    sender: Seq<char>,
    receiver: Seq<char>,
    amount: u128,
)
    requires
        bm.dom().finite(),
        forall|a: Seq<char>| #[trigger] bm.dom().contains(a) ==> bm[a] > 0,
        bm.dom().contains(sender),
        bm[sender] >= amount,
        amount > 0,
        sender != receiver,
        bm.dom().contains(receiver) ==> bm[receiver] + amount <= u128::MAX,
    ensures
        ft_apply(ft_apply(bm, sender, receiver, amount), receiver, sender, amount) == bm,
{
    let d = ft_debit(bm, sender, amount);
    let a = ft_apply(bm, sender, receiver, amount);
    let r0: u128 = if bm.dom().contains(receiver) {
        bm[receiver]
    } else {
        0
    };
    assert(d.dom().contains(receiver) ==> d[receiver] == r0);
    assert(a =~= d.insert(receiver, (r0 + amount) as u128));
    assert(a.dom().contains(receiver) && a[receiver] == r0 + amount);
    let d2 = ft_debit(a, receiver, amount);
    if r0 == 0 {
        assert(d2 =~= a.remove(receiver));
    } else {
        assert(d2 =~= a.insert(receiver, r0));
    }
    let b = ft_apply(a, receiver, sender, amount);
    assert(b =~= bm);
}

/// The view of a sequence of token identifiers.
pub open spec fn ids_view(s: Seq<String>) -> Seq<Seq<char>> {
    s.map_values(|t: String| t@)
}

/// A check that passed under an expected approval sequence number also
/// passes with none expected.
pub proof fn lemma_check_weaken(
    v: LedgerView,
    sender: Seq<char>,
    receiver: Seq<char>,
    id: Seq<char>,
    amount: u128,
    approval_id: Option<u64>,
)
    requires
        check_one(v, sender, receiver, id, amount, approval_id) is None,
    ensures
        check_one(v, sender, receiver, id, amount, None) is None,
{
}

/// The first refusal a batch meets, applying each allowed item in order
/// before checking the next; `None` when every item is allowed.
pub open spec fn batch_error(
    v: LedgerView,
    sender: Seq<char>,
    receiver: Seq<char>,
    ids: Seq<Seq<char>>,
    amts: Seq<u128>,
    approval_id: Option<u64>,
) -> Option<crate::token::TokenError>
    decreases ids.len(),
{
    if ids.len() == 0 {
        None
    } else {
        match check_one(v, sender, receiver, ids[0], amts[0], approval_id) {
            Some(e) => Some(e),
            None => batch_error(
                apply_one(v, sender, receiver, ids[0], amts[0]),
                sender,
                receiver,
                ids.skip(1),
                amts.skip(1),
                approval_id,
            ),
        }
    }
}

/// The ledger state after a batch, items applied in order.
pub open spec fn apply_batch(
    v: LedgerView,
    sender: Seq<char>,
    receiver: Seq<char>,
    ids: Seq<Seq<char>>,
    amts: Seq<u128>,
) -> LedgerView
    decreases ids.len(),
{
    if ids.len() == 0 {
        v
    } else {
        apply_batch(
            apply_one(v, sender, receiver, ids[0], amts[0]),
            sender,
            receiver,
            ids.skip(1),
            amts.skip(1),
        )
    }
}

/// A batch splits at any index: apply the first `i` items, then the rest.
pub proof fn lemma_apply_batch_split(
    v: LedgerView,
    sender: Seq<char>,
    receiver: Seq<char>,
    ids: Seq<Seq<char>>,
    amts: Seq<u128>,
    i: int,
)
    requires
        ids.len() == amts.len(),
        0 <= i <= ids.len(),
    ensures
        apply_batch(v, sender, receiver, ids, amts) == apply_batch(
            apply_batch(v, sender, receiver, ids.take(i), amts.take(i)),
            sender,
            receiver,
            ids.skip(i),
            amts.skip(i),
        ),
    decreases i,
{
    if i == 0 {
        assert(ids.take(0) =~= Seq::<Seq<char>>::empty());
        assert(amts.take(0) =~= Seq::<u128>::empty());
        assert(ids.skip(0) =~= ids);
        assert(amts.skip(0) =~= amts);
    } else {
        let v1 = apply_one(v, sender, receiver, ids[0], amts[0]);
        lemma_apply_batch_split(v1, sender, receiver, ids.skip(1), amts.skip(1), i - 1);
        assert(ids.take(i).skip(1) =~= ids.skip(1).take(i - 1));
        assert(amts.take(i).skip(1) =~= amts.skip(1).take(i - 1));
        assert(ids.skip(1).skip(i - 1) =~= ids.skip(i));
        assert(amts.skip(1).skip(i - 1) =~= amts.skip(i));
        assert(ids.take(i)[0] == ids[0]);
        assert(amts.take(i)[0] == amts[0]);
        assert(apply_batch(v, sender, receiver, ids.take(i), amts.take(i)) == apply_batch(
            v1,
            sender,
            receiver,
            ids.skip(1).take(i - 1),
            amts.skip(1).take(i - 1),
        ));
    }
}

/// Past a refusal-free prefix, a batch's first refusal is the remainder's.
pub proof fn lemma_batch_error_split(
    v: LedgerView,
    sender: Seq<char>,
    receiver: Seq<char>,
    ids: Seq<Seq<char>>,
    amts: Seq<u128>,
    approval_id: Option<u64>,
    i: int,
)
    requires
        ids.len() == amts.len(),
        0 <= i <= ids.len(),
        batch_error(v, sender, receiver, ids.take(i), amts.take(i), approval_id) is None,
    ensures
        batch_error(v, sender, receiver, ids, amts, approval_id) == batch_error(
            apply_batch(v, sender, receiver, ids.take(i), amts.take(i)),
            sender,
            receiver,
            ids.skip(i),
            amts.skip(i),
            approval_id,
        ),
    decreases i,
{
    if i == 0 {
        assert(ids.take(0) =~= Seq::<Seq<char>>::empty());
        assert(amts.take(0) =~= Seq::<u128>::empty());
        assert(ids.skip(0) =~= ids);
        assert(amts.skip(0) =~= amts);
    } else {
        assert(ids.take(i)[0] == ids[0]);
        assert(amts.take(i)[0] == amts[0]);
        let v1 = apply_one(v, sender, receiver, ids[0], amts[0]);
        assert(ids.take(i).skip(1) =~= ids.skip(1).take(i - 1));
        assert(amts.take(i).skip(1) =~= amts.skip(1).take(i - 1));
        assert(check_one(v, sender, receiver, ids[0], amts[0], approval_id) is None);
        lemma_batch_error_split(v1, sender, receiver, ids.skip(1), amts.skip(1), approval_id, i - 1);
        assert(ids.skip(1).skip(i - 1) =~= ids.skip(i));
        assert(amts.skip(1).skip(i - 1) =~= amts.skip(i));
    }
}

} // verus!
