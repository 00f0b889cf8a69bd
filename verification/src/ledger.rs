//! The dual-mode ledger: a type index over one shared token-identifier
//! namespace, a fungible sub-ledger (per-holder balances plus a supply
//! counter), a non-fungible sub-ledger (one owner per token), an approval
//! registry for non-fungible tokens, and the three storage-cost counters
//! measured once at construction.
//!
//! Contracts are stated over [`LedgerView`], the mathematical state of the
//! ledger, reached through `@`.

use crate::str_map::StrMap;
use crate::sums::lemma_map_sum_insert_fresh;
use crate::sums::map_sum;
use crate::transfer::apply_batch;
use crate::transfer::batch_error;
use crate::transfer::ids_view;
use crate::transfer::lemma_apply_batch_split;
use crate::transfer::lemma_batch_error_split;
use crate::transfer::lemma_check_weaken;
use crate::transfer::lemma_ft_apply_inverse;
use crate::transfer::lemma_ft_apply_ok;
use crate::transfer::prev_approvals_ok;
use crate::token::Token;
use crate::token::TokenError;
use crate::token::TokenType;
use vstd::prelude::*;

verus! {

/// The mathematical state of a [`MultiToken`] ledger.
#[verifier::ext_equal]
pub ghost struct LedgerView {
    /// The privileged account permitted to mint new tokens.
    pub owner: Seq<char>,
    /// Whether the approval registry was enabled at construction.
    pub approvals_enabled: bool,
    /// The kind of every existing token identifier.
    pub types: Map<Seq<char>, TokenType>,
    /// The single current owner of each non-fungible token.
    pub nft_owners: Map<Seq<char>, Seq<char>>,
    /// Per fungible token, the balance of each holder; a holder with balance
    /// zero is absent (absence and zero are equivalent).
    pub ft_balances: Map<Seq<char>, Map<Seq<char>, u128>>,
    /// The total outstanding units of each fungible token.
    pub ft_supplies: Map<Seq<char>, u128>,
    /// Per non-fungible token, the approved spenders and their approval
    /// sequence numbers.
    pub approvals: Map<Seq<char>, Map<Seq<char>, u64>>,
    /// Per non-fungible token, the next approval sequence number to assign;
    /// strictly increasing, never reused.
    pub next_approval_ids: Map<Seq<char>, u64>,
    /// Marginal persisted bytes for one non-fungible ownership, metadata and
    /// approval row; set once at construction.
    pub nft_storage_cost: u64,
    /// Marginal persisted bytes for one fungible holder row.
    pub ft_balance_storage_cost: u64,
    /// Marginal persisted bytes for creating a fungible token entry.
    pub ft_creation_storage_cost: u64,
}

/// The ledger's invariant, over its mathematical state: every token lives in
/// exactly the sub-ledger its kind names, every non-fungible token has
/// exactly one owner, the per-holder balances of every fungible token sum to
/// its recorded supply, stored balances are positive (absence stands for
/// zero), and approval sequence numbers stay below the next one to assign.
pub open spec fn view_wf(v: LedgerView) -> bool {
    &&& v.types.dom().finite()
    &&& v.nft_owners.dom().finite()
    &&& v.ft_balances.dom().finite()
    &&& v.approvals.dom().finite()
    &&& v.next_approval_ids.dom().finite()
    &&& v.ft_supplies.dom() == v.ft_balances.dom()
    &&& forall|id: Seq<char>| #[trigger] v.nft_owners.dom().contains(id) ==> v.types.dom().contains(
        id,
    ) && v.types[id] == TokenType::NonFungible
    &&& forall|id: Seq<char>| #[trigger] v.ft_balances.dom().contains(id)
        ==> v.types.dom().contains(id) && v.types[id] == TokenType::Fungible
    &&& forall|id: Seq<char>| #[trigger] v.types.dom().contains(id) ==> (if v.types[id]
        == TokenType::NonFungible {
        v.nft_owners.dom().contains(id)
    } else {
        v.ft_balances.dom().contains(id)
    })
    &&& forall|id: Seq<char>| #[trigger] v.ft_balances.dom().contains(id) ==> {
        &&& v.ft_balances[id].dom().finite()
        &&& map_sum(v.ft_balances[id]) == v.ft_supplies[id]
        &&& forall|a: Seq<char>| #[trigger] v.ft_balances[id].dom().contains(a)
            ==> v.ft_balances[id][a] > 0
    }
    &&& forall|id: Seq<char>| #[trigger] v.approvals.dom().contains(id) ==> {
        &&& v.types.dom().contains(id) && v.types[id] == TokenType::NonFungible
        &&& v.approvals[id].dom().finite()
        &&& v.next_approval_ids.dom().contains(id)
        &&& forall|a: Seq<char>| #[trigger] v.approvals[id].dom().contains(a)
            ==> v.approvals[id][a] < v.next_approval_ids[id]
    }
    &&& forall|id: Seq<char>| #[trigger] v.next_approval_ids.dom().contains(id)
        ==> v.types.dom().contains(id) && v.types[id] == TokenType::NonFungible
    &&& !v.approvals_enabled ==> v.approvals.dom() == Set::<Seq<char>>::empty()
        && v.next_approval_ids.dom() == Set::<Seq<char>>::empty()
}

/// The pre-transfer owner a transfer reports: the recorded owner for a
/// non-fungible token, the sender itself (by convention) for a fungible one.
pub open spec fn prev_owner_of(v: LedgerView, sender: Seq<char>, id: Seq<char>) -> Seq<char> {
    if v.types.dom().contains(id) && v.types[id] == TokenType::NonFungible {
        v.nft_owners[id]
    } else {
        sender
    }
}

/// The authorization decision for one transfer: the error it is refused
/// with, or `None` when it is allowed. Checks run in this order: existence,
/// distinct accounts, then the sub-ledger's own rules.
pub open spec fn check_one(
    v: LedgerView,
    sender: Seq<char>,
    receiver: Seq<char>,
    id: Seq<char>,
    amount: u128,
    approval_id: Option<u64>,
) -> Option<TokenError> {
    if !v.types.dom().contains(id) {
        Some(TokenError::TokenNotFound)
    } else if sender == receiver {
        Some(TokenError::SameAccount)
    } else if v.types[id] == TokenType::NonFungible {
        if sender == v.nft_owners[id] {
            None
        } else if !v.approvals.dom().contains(id) {
            Some(TokenError::Unauthorized)
        } else if !v.approvals[id].dom().contains(sender) {
            Some(TokenError::SenderNotApproved)
        } else {
            match approval_id {
                Some(expected) => if v.approvals[id][sender] == expected {
                    None
                } else {
                    Some(TokenError::ApprovalMismatch)
                },
                None => None,
            }
        }
    } else {
        if !v.ft_balances[id].dom().contains(sender) {
            Some(TokenError::NotATokenHolder)
        } else if amount > v.ft_balances[id][sender] {
            Some(TokenError::InsufficientBalance)
        } else {
            None
        }
    }
}

/// Take `amount` out of `who`'s balance; a balance that reaches zero loses
/// its row, keeping absence and zero equivalent.
pub open spec fn ft_debit(bm: Map<Seq<char>, u128>, who: Seq<char>, amount: u128) -> Map<
    Seq<char>,
    u128,
> {
    if bm[who] == amount {
        bm.remove(who)
    } else {
        bm.insert(who, (bm[who] - amount) as u128)
    }
}

/// Add `amount` to `who`'s balance, creating the row if it was absent.
pub open spec fn ft_credit(bm: Map<Seq<char>, u128>, who: Seq<char>, amount: u128) -> Map<
    Seq<char>,
    u128,
> {
    if bm.dom().contains(who) {
        bm.insert(who, (bm[who] + amount) as u128)
    } else {
        bm.insert(who, amount)
    }
}

/// One fungible transfer on a balance map: debit the sender, credit the
/// receiver. A zero amount mutates nothing.
pub open spec fn ft_apply(
    bm: Map<Seq<char>, u128>,
    sender: Seq<char>,
    receiver: Seq<char>,
    amount: u128,
) -> Map<Seq<char>, u128> {
    if amount == 0 {
        bm
    } else {
        ft_credit(ft_debit(bm, sender, amount), receiver, amount)
    }
}

/// The ledger state after one allowed transfer: for a non-fungible token the
/// owner becomes the receiver and the token's whole approval map is cleared;
/// for a fungible token the sender is debited and the receiver credited.
pub open spec fn apply_one(
    v: LedgerView,
    sender: Seq<char>,
    receiver: Seq<char>,
    id: Seq<char>,
    amount: u128,
) -> LedgerView {
    if v.types[id] == TokenType::NonFungible {
        LedgerView { nft_owners: v.nft_owners.insert(id, receiver), approvals: v.approvals.remove(id), ..v }
    } else {
        LedgerView {
            ft_balances: v.ft_balances.insert(id, ft_apply(v.ft_balances[id], sender, receiver, amount)),
            ..v
        }
    }
}

/// Usage-counter readings taken around the synthetic writes of the storage
/// cost probe. The counter is monotonically readable; the host takes the
/// readings, this library turns them into the three byte counts.
pub struct StorageUsageReadings {
    /// Before any synthetic fungible row is written.
    pub before_ft_probe: u64,
    /// After writing one synthetic fungible supply entry with an empty
    /// holder map.
    pub after_ft_creation: u64,
    /// After inserting one synthetic holder row into that map.
    pub after_ft_balance_row: u64,
    /// Before any synthetic non-fungible row is written (the fungible rows
    /// having been removed again).
    pub before_nft_probe: u64,
    /// After writing one synthetic ownership entry with metadata and one
    /// approval-registry row.
    pub after_nft_rows: u64,
}

impl StorageUsageReadings {
    /// Readings of a monotone counter never decrease between probe steps.
    pub open spec fn wf(self) -> bool {
        &&& self.before_ft_probe <= self.after_ft_creation <= self.after_ft_balance_row
        &&& self.before_nft_probe <= self.after_nft_rows
    }
}

/// The dual-mode ledger.
pub struct MultiToken {
    owner_id: String,
    extra_storage_in_bytes_per_nft_token: u64,
    extra_storage_in_bytes_per_ft_token_balance: u64,
    extra_storage_in_bytes_per_ft_token_creation: u64,
    token_type_index: StrMap<TokenType>,
    nft_owner_by_id: StrMap<String>,
    ft_owners_by_id: StrMap<StrMap<u128>>,
    ft_token_supply_by_id: StrMap<u128>,
    approvals_by_id: Option<StrMap<StrMap<u64>>>,
    next_approval_id_by_id: Option<StrMap<u64>>,
}

impl View for MultiToken {
    type V = LedgerView;

    closed spec fn view(&self) -> LedgerView {
        LedgerView {
            owner: self.owner_id@,
            approvals_enabled: self.approvals_by_id is Some,
            types: self.token_type_index.m(),
            nft_owners: Map::new(
                |k: Seq<char>| self.nft_owner_by_id.m().dom().contains(k),
                |k: Seq<char>| self.nft_owner_by_id.m()[k]@,
            ),
            ft_balances: Map::new(
                |k: Seq<char>| self.ft_owners_by_id.m().dom().contains(k),
                |k: Seq<char>| self.ft_owners_by_id.m()[k].m(),
            ),
            ft_supplies: self.ft_token_supply_by_id.m(),
            approvals: match self.approvals_by_id {
                Some(ap) => Map::new(
                    |k: Seq<char>| ap.m().dom().contains(k),
                    |k: Seq<char>| ap.m()[k].m(),
                ),
                None => Map::empty(),
            },
            next_approval_ids: match self.next_approval_id_by_id {
                Some(n) => n.m(),
                None => Map::empty(),
            },
            nft_storage_cost: self.extra_storage_in_bytes_per_nft_token,
            ft_balance_storage_cost: self.extra_storage_in_bytes_per_ft_token_balance,
            ft_creation_storage_cost: self.extra_storage_in_bytes_per_ft_token_creation,
        }
    }
}

impl MultiToken {
    /// The representation invariant: every backing map has distinct keys,
    /// and the two approval-registry maps are enabled together.
    pub closed spec fn inv_rep(self) -> bool {
        &&& self.token_type_index.wf()
        &&& self.nft_owner_by_id.wf()
        &&& self.ft_owners_by_id.wf()
        &&& self.ft_token_supply_by_id.wf()
        &&& forall|id: Seq<char>| #[trigger] self.ft_owners_by_id.m().dom().contains(id)
            ==> self.ft_owners_by_id.m()[id].wf()
        &&& match self.approvals_by_id {
            Some(ap) => ap.wf() && forall|id: Seq<char>| #[trigger] ap.m().dom().contains(id)
                ==> ap.m()[id].wf(),
            None => true,
        }
        &&& match self.next_approval_id_by_id {
            Some(n) => n.wf(),
            None => true,
        }
        &&& (self.approvals_by_id is Some <==> self.next_approval_id_by_id is Some)
    }

    /// Well-formed: the representation invariant together with the
    /// mathematical invariant [`view_wf`] on the ledger's state.
    pub open spec fn wf(self) -> bool {
        &&& self.inv_rep()
        &&& view_wf(self@)
    }

    /// The marginal byte cost of creating a fungible token entry and of one
    /// fungible holder row, from usage-counter readings around the probe's
    /// synthetic fungible writes.
    pub fn measure_min_ft_token_storage_cost(
        before_probe: u64,
        after_creation: u64,
        after_balance_row: u64,
    ) -> (r: (u64, u64))
        requires
            before_probe <= after_creation <= after_balance_row,
        ensures
            r.0 == after_creation - before_probe,
            r.1 == after_balance_row - after_creation,
    {
        (after_creation - before_probe, after_balance_row - after_creation)
    }

    /// The marginal byte cost of one full non-fungible row (ownership,
    /// metadata, one approval entry), from usage-counter readings around the
    /// probe's synthetic non-fungible writes.
    pub fn measure_min_nft_token_storage_cost(before_probe: u64, after_rows: u64) -> (r: u64)
        requires
            before_probe <= after_rows,
        ensures
            r == after_rows - before_probe,
    {
        after_rows - before_probe
    }

    /// Construct an empty ledger. The storage probe's synthetic writes run
    /// against the host's byte store exactly once, before any real token
    /// exists; this constructor turns the counter readings taken around them
    /// into the three storage-cost counters, fixed for the ledger's life.
    pub fn new(owner_id: String, with_approval_extension: bool, readings: &StorageUsageReadings) -> (r:
        Self)
        requires
            readings.wf(),
        ensures
            r.wf(),
            r@.owner == owner_id@,
            r@.approvals_enabled == with_approval_extension,
            r@.types == Map::<Seq<char>, TokenType>::empty(),
            r@.nft_owners == Map::<Seq<char>, Seq<char>>::empty(),
            r@.ft_balances == Map::<Seq<char>, Map<Seq<char>, u128>>::empty(),
            r@.ft_supplies == Map::<Seq<char>, u128>::empty(),
            r@.approvals == Map::<Seq<char>, Map<Seq<char>, u64>>::empty(),
            r@.next_approval_ids == Map::<Seq<char>, u64>::empty(),
            r@.ft_creation_storage_cost == readings.after_ft_creation - readings.before_ft_probe,
            r@.ft_balance_storage_cost == readings.after_ft_balance_row
                - readings.after_ft_creation,
            r@.nft_storage_cost == readings.after_nft_rows - readings.before_nft_probe,
    {
        let (ft_creation, ft_balance) = Self::measure_min_ft_token_storage_cost(
            readings.before_ft_probe,
            readings.after_ft_creation,
            readings.after_ft_balance_row,
        );
        let nft_cost = Self::measure_min_nft_token_storage_cost(
            readings.before_nft_probe,
            readings.after_nft_rows,
        );
        let r = MultiToken {
            owner_id,
            extra_storage_in_bytes_per_nft_token: nft_cost,
            extra_storage_in_bytes_per_ft_token_balance: ft_balance,
            extra_storage_in_bytes_per_ft_token_creation: ft_creation,
            token_type_index: StrMap::new(),
            nft_owner_by_id: StrMap::new(),
            ft_owners_by_id: StrMap::new(),
            ft_token_supply_by_id: StrMap::new(),
            approvals_by_id: if with_approval_extension {
                Some(StrMap::new())
            } else {
                None
            },
            next_approval_id_by_id: if with_approval_extension {
                Some(StrMap::new())
            } else {
                None
            },
        };
        proof {
            assert(r@.nft_owners =~= Map::<Seq<char>, Seq<char>>::empty());
            assert(r@.ft_balances =~= Map::<Seq<char>, Map<Seq<char>, u128>>::empty());
            assert(r@.approvals =~= Map::<Seq<char>, Map<Seq<char>, u64>>::empty());
            assert(r@.ft_supplies.dom() =~= r@.ft_balances.dom());
        }
        r
    }

    /// The account permitted to mint.
    pub fn owner_id(&self) -> (r: &String)
        ensures
            r@ == self@.owner,
    {
        &self.owner_id
    }

    /// The three storage-cost counters, in the order: fungible creation,
    /// fungible holder row, full non-fungible row.
    pub fn storage_costs(&self) -> (r: (u64, u64, u64))
        ensures
            r.0 == self@.ft_creation_storage_cost,
            r.1 == self@.ft_balance_storage_cost,
            r.2 == self@.nft_storage_cost,
    {
        (
            self.extra_storage_in_bytes_per_ft_token_creation,
            self.extra_storage_in_bytes_per_ft_token_balance,
            self.extra_storage_in_bytes_per_nft_token,
        )
    }

    /// How many token identifiers exist, over both sub-ledgers.
    pub fn token_count(&self) -> (n: usize)
        requires
            self.wf(),
        ensures
            n == self@.types.dom().len(),
    {
        self.token_type_index.key_count()
    }
}

/// The balance map a freshly minted fungible token starts with: the whole
/// supply with the initial owner, or no row at all for a zero supply.
pub open spec fn mint_balances(owner: Seq<char>, supply: u128) -> Map<Seq<char>, u128> {
    if supply == 0 {
        Map::empty()
    } else {
        Map::empty().insert(owner, supply)
    }
}

/// The next approval sequence number a token would assign; zero before the
/// first approval of that token.
pub open spec fn next_seq_of(v: LedgerView, id: Seq<char>) -> u64 {
    if v.next_approval_ids.dom().contains(id) {
        v.next_approval_ids[id]
    } else {
        0
    }
}

/// The approval entry of a token, empty when the registry holds none.
pub open spec fn approvals_entry_of(v: LedgerView, id: Seq<char>) -> Map<Seq<char>, u64> {
    if v.approvals.dom().contains(id) {
        v.approvals[id]
    } else {
        Map::empty()
    }
}

impl MultiToken {
    /// Create a fungible token line under a fresh identifier, with the whole
    /// supply held by `token_owner_id`. Returns false, changing nothing, if
    /// the identifier already exists in either sub-ledger.
    pub fn mint_fungible(&mut self, token_id: &String, token_owner_id: &String, supply: u128) -> (r:
        bool)
        requires
            old(self).wf(),
        ensures
            final(self).wf(),
            r == !old(self)@.types.dom().contains(token_id@),
            !r ==> final(self)@ == old(self)@,
            r ==> final(self)@ == (LedgerView {
                types: old(self)@.types.insert(token_id@, TokenType::Fungible),
                ft_supplies: old(self)@.ft_supplies.insert(token_id@, supply),
                ft_balances: old(self)@.ft_balances.insert(
                    token_id@,
                    mint_balances(token_owner_id@, supply),
                ),
                ..old(self)@
            }),
    {
        if self.token_type_index.contains_key(token_id) {
            return false;
        }
        self.token_type_index.insert(token_id.clone(), TokenType::Fungible);
        self.ft_token_supply_by_id.insert(token_id.clone(), supply);
        let mut bm: StrMap<u128> = StrMap::new();
        if supply > 0 {
            bm.insert(token_owner_id.clone(), supply);
        }
        proof {
            assert(bm.m() =~= mint_balances(token_owner_id@, supply));
            if supply > 0 {
                assert(Map::<Seq<char>, u128>::empty().dom() =~= Set::<Seq<char>>::empty());
                lemma_map_sum_insert_fresh(Map::<Seq<char>, u128>::empty(), token_owner_id@, supply);
            } else {
                assert(bm.m().dom() =~= Set::<Seq<char>>::empty());
            }
            assert(map_sum(bm.m()) == supply);
        }
        self.ft_owners_by_id.insert(token_id.clone(), bm);
        proof {
            let v0 = old(self)@;
            let v1 = self@;
            assert(v1.ft_balances =~= v0.ft_balances.insert(token_id@, mint_balances(token_owner_id@, supply)));
            assert(v1.nft_owners =~= v0.nft_owners);
            assert(v1.approvals =~= v0.approvals);
            assert(v1 =~= LedgerView {
                types: v0.types.insert(token_id@, TokenType::Fungible),
                ft_supplies: v0.ft_supplies.insert(token_id@, supply),
                ft_balances: v0.ft_balances.insert(token_id@, mint_balances(token_owner_id@, supply)),
                ..v0
            });
            assert(v1.ft_supplies.dom() =~= v1.ft_balances.dom());
        }
        true
    }

    /// Create a non-fungible token line under a fresh identifier, owned by
    /// `token_owner_id`. Returns false, changing nothing, if the identifier
    /// already exists in either sub-ledger.
    pub fn mint_non_fungible(&mut self, token_id: &String, token_owner_id: &String) -> (r: bool)
        requires
            old(self).wf(),
        ensures
            final(self).wf(),
            r == !old(self)@.types.dom().contains(token_id@),
            !r ==> final(self)@ == old(self)@,
            r ==> final(self)@ == (LedgerView {
                types: old(self)@.types.insert(token_id@, TokenType::NonFungible),
                nft_owners: old(self)@.nft_owners.insert(token_id@, token_owner_id@),
                ..old(self)@
            }),
    {
        if self.token_type_index.contains_key(token_id) {
            return false;
        }
        self.token_type_index.insert(token_id.clone(), TokenType::NonFungible);
        self.nft_owner_by_id.insert(token_id.clone(), token_owner_id.clone());
        proof {
            let v0 = old(self)@;
            let v1 = self@;
            assert(v1.nft_owners =~= v0.nft_owners.insert(token_id@, token_owner_id@));
            assert(v1.ft_balances =~= v0.ft_balances);
            assert(v1.approvals =~= v0.approvals);
            assert(v1 =~= LedgerView {
                types: v0.types.insert(token_id@, TokenType::NonFungible),
                nft_owners: v0.nft_owners.insert(token_id@, token_owner_id@),
                ..v0
            });
        }
        true
    }

    /// Record an approval letting `account_id` transfer the non-fungible
    /// token `token_id`, and return the approval sequence number assigned to
    /// it. Sequence numbers per token are strictly increasing and never
    /// reused. Returns `None`, changing nothing, when the token is not a
    /// non-fungible one, the approval registry is disabled, or the sequence
    /// numbers for this token are exhausted.
    pub fn approve(&mut self, token_id: &String, account_id: &String) -> (r: Option<u64>)
        requires
            old(self).wf(),
        ensures
            final(self).wf(),
            match r {
                None => final(self)@ == old(self)@ && !{
                    &&& old(self)@.approvals_enabled
                    &&& old(self)@.types.dom().contains(token_id@)
                    &&& old(self)@.types[token_id@] == TokenType::NonFungible
                    &&& next_seq_of(old(self)@, token_id@) < u64::MAX
                },
                Some(seq) => {
                    &&& old(self)@.approvals_enabled
                    &&& old(self)@.types.dom().contains(token_id@)
                    &&& old(self)@.types[token_id@] == TokenType::NonFungible
                    &&& seq == next_seq_of(old(self)@, token_id@)
                    &&& seq < u64::MAX
                    &&& final(self)@ == (LedgerView {
                        approvals: old(self)@.approvals.insert(
                            token_id@,
                            approvals_entry_of(old(self)@, token_id@).insert(account_id@, seq),
                        ),
                        next_approval_ids: old(self)@.next_approval_ids.insert(
                            token_id@,
                            (seq + 1) as u64,
                        ),
                        ..old(self)@
                    })
                },
            },
    {
        let is_nft = match self.token_type_index.get(token_id) {
            Some(t) => match t {
                TokenType::NonFungible => true,
                TokenType::Fungible => false,
            },
            None => false,
        };
        if !is_nft {
            return None;
        }
        if self.approvals_by_id.is_none() {
            return None;
        }
        let next: u64 = match &self.next_approval_id_by_id {
            Some(n) => match n.get(token_id) {
                Some(x) => *x,
                None => 0,
            },
            None => {
                proof {
                    assert(false);
                }
                0
            },
        };
        if next == u64::MAX {
            return None;
        }
        proof {
            assert(next == next_seq_of(old(self)@, token_id@));
        }
        match &mut self.approvals_by_id {
            Some(ap) => {
                let mut inner: StrMap<u64> = match ap.remove(token_id) {
                    Some(m) => m,
                    None => StrMap::new(),
                };
                inner.insert(account_id.clone(), next);
                ap.insert(token_id.clone(), inner);
            },
            None => {
                proof {
                    assert(false);
                }
            },
        }
        match &mut self.next_approval_id_by_id {
            Some(n) => {
                n.insert(token_id.clone(), next + 1);
            },
            None => {
                proof {
                    assert(false);
                }
            },
        }
        proof {
            let v0 = old(self)@;
            let v1 = self@;
            assert(v1.approvals =~= v0.approvals.insert(
                token_id@,
                approvals_entry_of(v0, token_id@).insert(account_id@, next),
            ));
            assert(v1 =~= LedgerView {
                approvals: v0.approvals.insert(
                    token_id@,
                    approvals_entry_of(v0, token_id@).insert(account_id@, next),
                ),
                next_approval_ids: v0.next_approval_ids.insert(token_id@, (next + 1) as u64),
                ..v0
            });
        }
        Some(next)
    }

    /// The balance `owner_id` holds of the fungible token `token_id`; zero
    /// when the holder has no row. Fails with `TokenNotFound` when the
    /// identifier is not a fungible token's.
    pub fn balance_of(&self, owner_id: &String, token_id: &String) -> (r: Result<u128, TokenError>)
        requires
            self.wf(),
        ensures
            match r {
                Ok(b) => self@.ft_balances.dom().contains(token_id@) && b == if self@.ft_balances[token_id@].dom().contains(owner_id@) {
                    self@.ft_balances[token_id@][owner_id@]
                } else {
                    0u128
                },
                Err(e) => e == TokenError::TokenNotFound && !self@.ft_balances.dom().contains(
                    token_id@,
                ),
            },
    {
        match self.ft_owners_by_id.get(token_id) {
            Some(bm) => match bm.get(owner_id) {
                Some(b) => Ok(*b),
                None => Ok(0),
            },
            None => Err(TokenError::TokenNotFound),
        }
    }

    /// The balances `owner_id` holds of each listed fungible token, in list
    /// order. Fails with `TokenNotFound` when any identifier is not a
    /// fungible token's.
    pub fn balance_of_batch(&self, owner_id: &String, token_ids: &Vec<String>) -> (r: Result<
        Vec<u128>,
        TokenError,
    >)
        requires
            self.wf(),
        ensures
            match r {
                Ok(bs) => {
                    &&& bs@.len() == token_ids@.len()
                    &&& forall|i: int| #![trigger token_ids@[i]] 0 <= i < token_ids@.len() ==> {
                        &&& self@.ft_balances.dom().contains(token_ids@[i]@)
                        &&& bs@[i] == if self@.ft_balances[token_ids@[i]@].dom().contains(
                            owner_id@,
                        ) {
                            self@.ft_balances[token_ids@[i]@][owner_id@]
                        } else {
                            0u128
                        }
                    }
                },
                Err(e) => e == TokenError::TokenNotFound && exists|i: int|
                    0 <= i < token_ids@.len() && !self@.ft_balances.dom().contains(token_ids@[i]@),
            },
    {
        let n = token_ids.len();
        let mut out: Vec<u128> = Vec::new();
        let mut i: usize = 0;
        while i < n
            invariant
                self.wf(),
                i <= n,
                n == token_ids@.len(),
                out@.len() == i,
                forall|j: int| #![trigger token_ids@[j]] 0 <= j < i ==> {
                    &&& self@.ft_balances.dom().contains(token_ids@[j]@)
                    &&& out@[j] == if self@.ft_balances[token_ids@[j]@].dom().contains(owner_id@) {
                        self@.ft_balances[token_ids@[j]@][owner_id@]
                    } else {
                        0u128
                    }
                },
            decreases n - i,
        {
            let ghost prev = out@;
            match self.balance_of(owner_id, &token_ids[i]) {
                Ok(b) => {
                    out.push(b);
                    proof {
                        assert(out@ == prev.push(b));
                        assert(out@[i as int] == b);
                        assert(forall|j: int| 0 <= j < i ==> out@[j] == prev[j]);
                    }
                },
                Err(e) => {
                    return Err(e);
                },
            }
            i += 1;
        }
        Ok(out)
    }

    /// The total outstanding units of the fungible token `token_id`. Fails
    /// with `TokenNotFound` when the identifier is not a fungible token's.
    pub fn total_supply(&self, token_id: &String) -> (r: Result<u128, TokenError>)
        requires
            self.wf(),
        ensures
            match r {
                Ok(s) => self@.ft_supplies.dom().contains(token_id@) && s == self@.ft_supplies[token_id@],
                Err(e) => e == TokenError::TokenNotFound && !self@.ft_supplies.dom().contains(
                    token_id@,
                ),
            },
    {
        match self.ft_token_supply_by_id.get(token_id) {
            Some(s) => Ok(*s),
            None => Err(TokenError::TokenNotFound),
        }
    }

    /// The total supply of each listed fungible token, in list order. Fails
    /// with `TokenNotFound` when any identifier is not a fungible token's.
    pub fn total_supply_batch(&self, token_ids: &Vec<String>) -> (r: Result<Vec<u128>, TokenError>)
        requires
            self.wf(),
        ensures
            match r {
                Ok(ss) => {
                    &&& ss@.len() == token_ids@.len()
                    &&& forall|i: int| #![trigger token_ids@[i]] 0 <= i < token_ids@.len() ==> {
                        &&& self@.ft_supplies.dom().contains(token_ids@[i]@)
                        &&& ss@[i] == self@.ft_supplies[token_ids@[i]@]
                    }
                },
                Err(e) => e == TokenError::TokenNotFound && exists|i: int|
                    0 <= i < token_ids@.len() && !self@.ft_supplies.dom().contains(token_ids@[i]@),
            },
    {
        let n = token_ids.len();
        let mut out: Vec<u128> = Vec::new();
        let mut i: usize = 0;
        while i < n
            invariant
                self.wf(),
                i <= n,
                n == token_ids@.len(),
                out@.len() == i,
                forall|j: int| #![trigger token_ids@[j]] 0 <= j < i ==> {
                    &&& self@.ft_supplies.dom().contains(token_ids@[j]@)
                    &&& out@[j] == self@.ft_supplies[token_ids@[j]@]
                },
            decreases n - i,
        {
            let ghost prev = out@;
            match self.total_supply(&token_ids[i]) {
                Ok(s) => {
                    out.push(s);
                    proof {
                        assert(out@ == prev.push(s));
                        assert(out@[i as int] == s);
                        assert(forall|j: int| 0 <= j < i ==> out@[j] == prev[j]);
                    }
                },
                Err(e) => {
                    return Err(e);
                },
            }
            i += 1;
        }
        Ok(out)
    }

    /// The kind of `token_id`, or `None` when no such token exists.
    pub fn token_type_of(&self, token_id: &String) -> (r: Option<TokenType>)
        requires
            self.wf(),
        ensures
            match r {
                Some(t) => self@.types.dom().contains(token_id@) && t == self@.types[token_id@],
                None => !self@.types.dom().contains(token_id@),
            },
    {
        match self.token_type_index.get(token_id) {
            Some(t) => Some(*t),
            None => None,
        }
    }

    /// The current owner of the non-fungible token `token_id`, or `None`
    /// when the identifier is not a non-fungible token's.
    pub fn nft_owner_of(&self, token_id: &String) -> (r: Option<&String>)
        requires
            self.wf(),
        ensures
            match r {
                Some(o) => self@.nft_owners.dom().contains(token_id@) && o@
                    == self@.nft_owners[token_id@],
                None => !self@.nft_owners.dom().contains(token_id@),
            },
    {
        self.nft_owner_by_id.get(token_id)
    }

    /// Everything recorded about `token_id`: its kind, its owner or its
    /// supply, and its approval entry where the registry holds one. `None`
    /// when no such token exists.
    pub fn multi_token(&self, token_id: &String) -> (r: Option<Token>)
        requires
            self.wf(),
        ensures
            match r {
                None => !self@.types.dom().contains(token_id@),
                Some(t) => {
                    &&& self@.types.dom().contains(token_id@)
                    &&& t.token_id@ == token_id@
                    &&& t.token_type == self@.types[token_id@]
                    &&& match t.owner_id {
                        Some(o) => self@.types[token_id@] == TokenType::NonFungible && o@
                            == self@.nft_owners[token_id@],
                        None => self@.types[token_id@] == TokenType::Fungible,
                    }
                    &&& match t.supply {
                        Some(s) => self@.types[token_id@] == TokenType::Fungible && s
                            == self@.ft_supplies[token_id@],
                        None => self@.types[token_id@] == TokenType::NonFungible,
                    }
                    &&& match t.approved_account_ids {
                        Some(ap) => {
                            &&& self@.approvals.dom().contains(token_id@)
                            &&& ap.wf()
                            &&& ap.m() == self@.approvals[token_id@]
                        },
                        None => !self@.approvals.dom().contains(token_id@),
                    }
                },
            },
    {
        let token_type = match self.token_type_index.get(token_id) {
            Some(t) => *t,
            None => {
                return None;
            },
        };
        let owner_id: Option<String> = match token_type {
            TokenType::NonFungible => match self.nft_owner_by_id.get(token_id) {
                Some(o) => Some(o.clone()),
                None => {
                    proof {
                        assert(false);
                    }
                    None
                },
            },
            TokenType::Fungible => None,
        };
        let supply: Option<u128> = match token_type {
            TokenType::Fungible => match self.ft_token_supply_by_id.get(token_id) {
                Some(s) => Some(*s),
                None => {
                    proof {
                        assert(false);
                    }
                    None
                },
            },
            TokenType::NonFungible => None,
        };
        let approved_account_ids: Option<StrMap<u64>> = match &self.approvals_by_id {
            Some(ap) => match ap.get(token_id) {
                Some(inner) => Some(inner.duplicate()),
                None => None,
            },
            None => None,
        };
        Some(
            Token {
                token_id: token_id.clone(),
                token_type,
                owner_id,
                supply,
                approved_account_ids,
            },
        )
    }
}

/// Do two account names spell the same account?
pub fn same_account(a: &String, b: &String) -> (r: bool)
    ensures
        r == (a@ == b@),
{
    *a == *b
}

impl MultiToken {
    /// Move `token_id` (or `amount` of it) from `from` to `to`, with no
    /// authorization checks and no approval clearing; the caller answers for
    /// the preconditions. For a non-fungible token the owner simply becomes
    /// `to`; for a fungible one, `from` is debited and `to` credited.
    pub fn internal_transfer_unguarded(
        &mut self,
        token_id: &String,
        amount: u128,
        from: &String,
        to: &String,
    )
        requires
            old(self).wf(),
            old(self)@.types.dom().contains(token_id@),
            old(self)@.types[token_id@] == TokenType::Fungible ==> {
                &&& from@ != to@
                &&& old(self)@.ft_balances[token_id@].dom().contains(from@)
                &&& amount <= old(self)@.ft_balances[token_id@][from@]
            },
        ensures
            final(self).wf(),
            old(self)@.types[token_id@] == TokenType::NonFungible ==> final(self)@ == (LedgerView {
                nft_owners: old(self)@.nft_owners.insert(token_id@, to@),
                ..old(self)@
            }),
            old(self)@.types[token_id@] == TokenType::Fungible ==> final(self)@ == (LedgerView {
                ft_balances: old(self)@.ft_balances.insert(
                    token_id@,
                    ft_apply(old(self)@.ft_balances[token_id@], from@, to@, amount),
                ),
                ..old(self)@
            }),
    {
        let ty = match self.token_type_index.get(token_id) {
            Some(t) => *t,
            None => {
                proof {
                    assert(false);
                }
                TokenType::Fungible
            },
        };
        match ty {
            TokenType::NonFungible => {
                self.nft_owner_by_id.insert(token_id.clone(), to.clone());
                proof {
                    let v0 = old(self)@;
                    let v1 = self@;
                    assert(v1.nft_owners =~= v0.nft_owners.insert(token_id@, to@));
                    assert(v1.ft_balances =~= v0.ft_balances);
                    assert(v1.approvals =~= v0.approvals);
                    assert(v1 =~= (LedgerView {
                        nft_owners: v0.nft_owners.insert(token_id@, to@),
                        ..v0
                    }));
                    assert(v1.nft_owners.dom() =~= v0.nft_owners.dom());
                }
            },
            TokenType::Fungible => {
                let ghost bm0 = old(self)@.ft_balances[token_id@];
                let ghost total = old(self)@.ft_supplies[token_id@];
                let mut bm: StrMap<u128> = match self.ft_owners_by_id.remove(token_id) {
                    Some(b) => b,
                    None => {
                        proof {
                            assert(false);
                        }
                        StrMap::new()
                    },
                };
                proof {
                    assert(bm.m() == bm0);
                    if amount > 0 {
                        lemma_ft_apply_ok(bm0, from@, to@, amount, total);
                    }
                }
                if amount > 0 {
                    let bal: u128 = match bm.get(from) {
                        Some(b) => *b,
                        None => {
                            proof {
                                assert(false);
                            }
                            0
                        },
                    };
                    if bal == amount {
                        bm.remove(from);
                    } else {
                        bm.insert(from.clone(), bal - amount);
                    }
                    proof {
                        assert(bm.m() == ft_debit(bm0, from@, amount));
                    }
                    let credited: u128 = match bm.get(to) {
                        Some(b) => *b,
                        None => 0,
                    };
                    bm.insert(to.clone(), credited + amount);
                    proof {
                        assert(bm.m() == ft_credit(ft_debit(bm0, from@, amount), to@, amount));
                    }
                }
                proof {
                    assert(bm.m() == ft_apply(bm0, from@, to@, amount));
                }
                self.ft_owners_by_id.insert(token_id.clone(), bm);
                proof {
                    let v0 = old(self)@;
                    let v1 = self@;
                    assert(v1.ft_balances =~= v0.ft_balances.insert(
                        token_id@,
                        ft_apply(bm0, from@, to@, amount),
                    ));
                    assert(v1.nft_owners =~= v0.nft_owners);
                    assert(v1.approvals =~= v0.approvals);
                    assert(v1 =~= (LedgerView {
                        ft_balances: v0.ft_balances.insert(
                            token_id@,
                            ft_apply(bm0, from@, to@, amount),
                        ),
                        ..v0
                    }));
                    assert(v1.ft_balances.dom() =~= v0.ft_balances.dom());
                    assert(view_wf(v1));
                }
            },
        }
    }

    /// Authorization for a non-fungible transfer, and the approval clearing
    /// every successful transfer performs: the sender must be the owner or an
    /// approved (and, if demanded, correctly numbered) spender; on success
    /// the token's whole approval entry is cleared and handed back.
    pub fn verify_update_nft_transferable(
        &mut self,
        token_id: &String,
        sender_id: &String,
        owner_id: &String,
        approval_id: Option<u64>,
    ) -> (r: Result<Option<StrMap<u64>>, TokenError>)
        requires
            old(self).wf(),
            old(self)@.types.dom().contains(token_id@),
            old(self)@.types[token_id@] == TokenType::NonFungible,
            owner_id@ == old(self)@.nft_owners[token_id@],
        ensures
            final(self).wf(),
            match r {
                Err(e) => {
                    &&& *final(self) == *old(self)
                    &&& sender_id@ != owner_id@
                    &&& if !old(self)@.approvals.dom().contains(token_id@) {
                        e == TokenError::Unauthorized
                    } else if !old(self)@.approvals[token_id@].dom().contains(sender_id@) {
                        e == TokenError::SenderNotApproved
                    } else {
                        approval_id matches Some(expected) && old(self)@.approvals[token_id@][sender_id@]
                            != expected && e == TokenError::ApprovalMismatch
                    }
                },
                Ok(pr) => {
                    &&& sender_id@ == owner_id@ || {
                        &&& old(self)@.approvals.dom().contains(token_id@)
                        &&& old(self)@.approvals[token_id@].dom().contains(sender_id@)
                        &&& (approval_id matches Some(expected)
                            ==> old(self)@.approvals[token_id@][sender_id@] == expected)
                    }
                    &&& final(self)@ == (LedgerView {
                        approvals: old(self)@.approvals.remove(token_id@),
                        ..old(self)@
                    })
                    &&& prev_approvals_ok(old(self)@, token_id@, pr)
                },
            },
    {
        if !same_account(sender_id, owner_id) {
            match &self.approvals_by_id {
                None => {
                    return Err(TokenError::Unauthorized);
                },
                Some(ap) => match ap.get(token_id) {
                    None => {
                        return Err(TokenError::Unauthorized);
                    },
                    Some(token_ap) => match token_ap.get(sender_id) {
                        None => {
                            return Err(TokenError::SenderNotApproved);
                        },
                        Some(actual) => {
                            if let Some(expected) = approval_id {
                                if *actual != expected {
                                    return Err(TokenError::ApprovalMismatch);
                                }
                            }
                        },
                    },
                },
            }
        }
        let prev: Option<StrMap<u64>> = match &mut self.approvals_by_id {
            Some(ap) => ap.remove(token_id),
            None => None,
        };
        proof {
            let v0 = old(self)@;
            let v1 = self@;
            assert(v1.approvals =~= v0.approvals.remove(token_id@));
            assert(v1 =~= (LedgerView { approvals: v0.approvals.remove(token_id@), ..v0 }));
            assert(v1.approvals.dom() =~= v0.approvals.dom().remove(token_id@));
            assert(view_wf(v1));
        }
        Ok(prev)
    }

    /// Authorization for a fungible transfer: the sender must hold a balance
    /// row for the token and the amount must not exceed it.
    pub fn verify_ft_transferable(
        &self,
        token_id: &String,
        sender_id: &String,
        amount: u128,
    ) -> (r: Result<(), TokenError>)
        requires
            self.wf(),
            self@.types.dom().contains(token_id@),
            self@.types[token_id@] == TokenType::Fungible,
        ensures
            match r {
                Ok(()) => self@.ft_balances[token_id@].dom().contains(sender_id@) && amount
                    <= self@.ft_balances[token_id@][sender_id@],
                Err(e) => if !self@.ft_balances[token_id@].dom().contains(sender_id@) {
                    e == TokenError::NotATokenHolder
                } else {
                    amount > self@.ft_balances[token_id@][sender_id@] && e
                        == TokenError::InsufficientBalance
                },
            },
    {
        let bm = match self.ft_owners_by_id.get(token_id) {
            Some(b) => b,
            None => {
                proof {
                    assert(false);
                }
                return Err(TokenError::TokenNotFound);
            },
        };
        match bm.get(sender_id) {
            None => Err(TokenError::NotATokenHolder),
            Some(bal) => {
                if amount > *bal {
                    Err(TokenError::InsufficientBalance)
                } else {
                    Ok(())
                }
            },
        }
    }

    /// One checked transfer: authorize `sender_id` to move `amount` of
    /// `token_id` to `receiver_id`, mutate the ledger, and hand back the
    /// pre-transfer owner and the cleared approval entry so a later protocol
    /// step can reverse the effect. A refused transfer returns the error
    /// [`check_one`] names and mutates nothing. The memo is for the caller's
    /// transfer record and does not touch the ledger.
    pub fn internal_transfer(
        &mut self,
        sender_id: &String,
        receiver_id: &String,
        token_id: &String,
        amount: u128,
        approval_id: Option<u64>,
        memo: Option<String>,
    ) -> (r: Result<(String, Option<StrMap<u64>>), TokenError>)
        requires
            old(self).wf(),
        ensures
            final(self).wf(),
            match r {
                Err(e) => check_one(old(self)@, sender_id@, receiver_id@, token_id@, amount, approval_id)
                    == Some(e) && final(self)@ == old(self)@,
                Ok(pr) => {
                    &&& check_one(
                        old(self)@,
                        sender_id@,
                        receiver_id@,
                        token_id@,
                        amount,
                        approval_id,
                    ) is None
                    &&& final(self)@ == apply_one(
                        old(self)@,
                        sender_id@,
                        receiver_id@,
                        token_id@,
                        amount,
                    )
                    &&& pr.0@ == prev_owner_of(old(self)@, sender_id@, token_id@)
                    &&& prev_approvals_ok(old(self)@, token_id@, pr.1)
                },
            },
    {
        let _ = memo;
        let ty = match self.token_type_index.get(token_id) {
            Some(t) => *t,
            None => {
                return Err(TokenError::TokenNotFound);
            },
        };
        if same_account(sender_id, receiver_id) {
            return Err(TokenError::SameAccount);
        }
        match ty {
            TokenType::NonFungible => {
                let owner: String = match self.nft_owner_by_id.get(token_id) {
                    Some(o) => o.clone(),
                    None => {
                        proof {
                            assert(false);
                        }
                        return Err(TokenError::TokenNotFound);
                    },
                };
                match self.verify_update_nft_transferable(token_id, sender_id, &owner, approval_id) {
                    Ok(prev_approvals) => {
                        let ghost mid = self@;
                        self.internal_transfer_unguarded(token_id, amount, &owner, receiver_id);
                        proof {
                            assert(self@ =~= apply_one(
                                old(self)@,
                                sender_id@,
                                receiver_id@,
                                token_id@,
                                amount,
                            ));
                        }
                        Ok((owner, prev_approvals))
                    },
                    Err(e) => Err(e),
                }
            },
            TokenType::Fungible => {
                match self.verify_ft_transferable(token_id, sender_id, amount) {
                    Ok(()) => {
                        self.internal_transfer_unguarded(token_id, amount, sender_id, receiver_id);
                        proof {
                            assert(self@ =~= apply_one(
                                old(self)@,
                                sender_id@,
                                receiver_id@,
                                token_id@,
                                amount,
                            ));
                        }
                        Ok((sender_id.clone(), None))
                    },
                    Err(e) => Err(e),
                }
            },
        }
    }
}


impl MultiToken {
    /// Undo one just-applied transfer exactly, returning the ledger to the
    /// state it had before that transfer: ownership goes back to the
    /// previous owner with the cleared approval entry restored, and a
    /// fungible amount is moved back whole.
    fn undo_transfer(
        &mut self,
        sender_id: &String,
        receiver_id: &String,
        token_id: &String,
        amount: u128,
        prev_owner: &String,
        prev_approvals: Option<StrMap<u64>>,
        Ghost(v_pre): Ghost<LedgerView>,
    )
        requires
            old(self).wf(),
            view_wf(v_pre),
            check_one(v_pre, sender_id@, receiver_id@, token_id@, amount, None) is None,
            old(self)@ == apply_one(v_pre, sender_id@, receiver_id@, token_id@, amount),
            prev_owner@ == prev_owner_of(v_pre, sender_id@, token_id@),
            prev_approvals_ok(v_pre, token_id@, prev_approvals),
        ensures
            final(self).wf(),
            final(self)@ == v_pre,
    {
        let ghost id = token_id@;
        proof {
            assert(self@.types == v_pre.types);
            assert(self@.types.dom().contains(id));
        }
        let ty = match self.token_type_index.get(token_id) {
            Some(t) => *t,
            None => {
                proof {
                    assert(false);
                }
                TokenType::Fungible
            },
        };
        match ty {
            TokenType::NonFungible => {
                self.internal_transfer_unguarded(token_id, amount, receiver_id, prev_owner);
                proof {
                    assert(self@.nft_owners =~= v_pre.nft_owners);
                }
                match prev_approvals {
                    Some(m) => {
                        proof {
                            assert(v_pre.approvals.dom().contains(id));
                            assert(v_pre.approvals_enabled);
                        }
                        match &mut self.approvals_by_id {
                            Some(ap) => {
                                ap.insert(token_id.clone(), m);
                            },
                            None => {
                                proof {
                                    assert(false);
                                }
                            },
                        }
                        proof {
                            assert(self@.approvals =~= v_pre.approvals);
                            assert(self@ =~= v_pre);
                        }
                    },
                    None => {
                        proof {
                            assert(self@.approvals =~= v_pre.approvals);
                            assert(self@ =~= v_pre);
                        }
                    },
                }
            },
            TokenType::Fungible => {
                let ghost bm0 = v_pre.ft_balances[id];
                let ghost total = v_pre.ft_supplies[id];
                if amount > 0 {
                    proof {
                        lemma_ft_apply_ok(bm0, sender_id@, receiver_id@, amount, total);
                        lemma_ft_apply_inverse(bm0, sender_id@, receiver_id@, amount);
                        assert(self@.ft_balances[id] == ft_apply(bm0, sender_id@, receiver_id@, amount));
                        assert(self@.ft_balances[id].dom().contains(receiver_id@));
                        assert(self@.ft_balances[id][receiver_id@] >= amount);
                    }
                    self.internal_transfer_unguarded(token_id, amount, receiver_id, sender_id);
                    proof {
                        assert(self@.ft_balances =~= v_pre.ft_balances);
                        assert(self@ =~= v_pre);
                    }
                } else {
                    proof {
                        assert(self@.ft_balances =~= v_pre.ft_balances);
                        assert(self@ =~= v_pre);
                    }
                }
            },
        }
    }

    /// A batch of transfers from one sender to one receiver, applied in list
    /// order, all or nothing: token id and amount lists of different lengths
    /// are refused as `LengthMismatch` with no mutation at all, and if any
    /// item is refused the whole batch is rolled back and its error
    /// reported. On success the per-item pre-transfer owners and cleared
    /// approval entries come back in list order.
    pub fn internal_transfer_batch(
        &mut self,
        sender_id: &String,
        receiver_id: &String,
        token_ids: &Vec<String>,
        amounts: &Vec<u128>,
        memo: Option<String>,
        approval_id: Option<u64>,
    ) -> (r: Result<Vec<(String, Option<StrMap<u64>>)>, TokenError>)
        requires
            old(self).wf(),
        ensures
            final(self).wf(),
            match r {
                Err(e) => final(self)@ == old(self)@ && (if token_ids@.len() != amounts@.len() {
                    e == TokenError::LengthMismatch
                } else {
                    batch_error(
                        old(self)@,
                        sender_id@,
                        receiver_id@,
                        ids_view(token_ids@),
                        amounts@,
                        approval_id,
                    ) == Some(e)
                }),
                Ok(results) => {
                    &&& token_ids@.len() == amounts@.len()
                    &&& batch_error(
                        old(self)@,
                        sender_id@,
                        receiver_id@,
                        ids_view(token_ids@),
                        amounts@,
                        approval_id,
                    ) is None
                    &&& final(self)@ == apply_batch(
                        old(self)@,
                        sender_id@,
                        receiver_id@,
                        ids_view(token_ids@),
                        amounts@,
                    )
                    &&& results@.len() == token_ids@.len()
                    &&& forall|j: int| #![trigger results@[j]] 0 <= j < token_ids@.len() ==> {
                        &&& results@[j].0@ == prev_owner_of(
                            apply_batch(
                                old(self)@,
                                sender_id@,
                                receiver_id@,
                                ids_view(token_ids@).take(j),
                                amounts@.take(j),
                            ),
                            sender_id@,
                            ids_view(token_ids@)[j],
                        )
                        &&& prev_approvals_ok(
                            apply_batch(
                                old(self)@,
                                sender_id@,
                                receiver_id@,
                                ids_view(token_ids@).take(j),
                                amounts@.take(j),
                            ),
                            ids_view(token_ids@)[j],
                            results@[j].1,
                        )
                    }
                },
            },
    {
        if token_ids.len() != amounts.len() {
            return Err(TokenError::LengthMismatch);
        }
        let ghost v0 = old(self)@;
        let ghost idsv = ids_view(token_ids@);
        let ghost amtsv = amounts@;
        let n = token_ids.len();
        proof {
            assert(idsv.take(0) =~= Seq::<Seq<char>>::empty());
            assert(amtsv.take(0) =~= Seq::<u128>::empty());
            assert(apply_batch(v0, sender_id@, receiver_id@, idsv.take(0), amtsv.take(0)) == v0);
        }
        let mut results: Vec<(String, Option<StrMap<u64>>)> = Vec::new();
        let mut i: usize = 0;
        while i < n
            invariant
                self.wf(),
                view_wf(v0),
                i <= n,
                n == token_ids@.len(),
                n == amounts@.len(),
                idsv == ids_view(token_ids@),
                amtsv == amounts@,
                v0 == old(self)@,
                results@.len() == i,
                self@ == apply_batch(v0, sender_id@, receiver_id@, idsv.take(i as int), amtsv.take(i as int)),
                batch_error(v0, sender_id@, receiver_id@, idsv.take(i as int), amtsv.take(i as int), approval_id) is None,
                forall|k: int| #![trigger idsv.take(k)] 0 <= k <= i ==> view_wf(
                    apply_batch(v0, sender_id@, receiver_id@, idsv.take(k), amtsv.take(k)),
                ),
                forall|j: int| #![trigger results@[j]] 0 <= j < i ==> {
                    &&& check_one(
                        apply_batch(v0, sender_id@, receiver_id@, idsv.take(j), amtsv.take(j)),
                        sender_id@,
                        receiver_id@,
                        idsv[j],
                        amtsv[j],
                        None,
                    ) is None
                    &&& results@[j].0@ == prev_owner_of(
                        apply_batch(v0, sender_id@, receiver_id@, idsv.take(j), amtsv.take(j)),
                        sender_id@,
                        idsv[j],
                    )
                    &&& prev_approvals_ok(
                        apply_batch(v0, sender_id@, receiver_id@, idsv.take(j), amtsv.take(j)),
                        idsv[j],
                        results@[j].1,
                    )
                },
            decreases n - i,
        {
            let ghost state_i = self@;
            let ghost prevres = results@;
            match self.internal_transfer(
                sender_id,
                receiver_id,
                &token_ids[i],
                amounts[i],
                approval_id,
                memo.clone(),
            ) {
                Ok(pr) => {
                    results.push(pr);
                    proof {
                        assert(idsv[i as int] == token_ids@[i as int]@);
                        assert(amtsv[i as int] == amounts@[i as int]);
                        lemma_check_weaken(
                            state_i,
                            sender_id@,
                            receiver_id@,
                            idsv[i as int],
                            amtsv[i as int],
                            approval_id,
                        );
                        // the state after this item is the batch applied one item further
                        assert(idsv.take(i + 1).take(i as int) =~= idsv.take(i as int));
                        assert(amtsv.take(i + 1).take(i as int) =~= amtsv.take(i as int));
                        assert(idsv.take(i + 1).skip(i as int) =~= seq![idsv[i as int]]);
                        assert(amtsv.take(i + 1).skip(i as int) =~= seq![amtsv[i as int]]);
                        lemma_apply_batch_split(
                            v0,
                            sender_id@,
                            receiver_id@,
                            idsv.take(i + 1),
                            amtsv.take(i + 1),
                            i as int,
                        );
                        assert(seq![idsv[i as int]].skip(1) =~= Seq::<Seq<char>>::empty());
                        assert(seq![amtsv[i as int]].skip(1) =~= Seq::<u128>::empty());
                        let mid = apply_one(state_i, sender_id@, receiver_id@, idsv[i as int], amtsv[i as int]);
                        assert(apply_batch(mid, sender_id@, receiver_id@, Seq::<Seq<char>>::empty(), Seq::<u128>::empty()) == mid);
                        assert(apply_batch(state_i, sender_id@, receiver_id@, seq![idsv[i as int]], seq![amtsv[i as int]]) == mid);
                        assert(self@ == apply_batch(
                            v0,
                            sender_id@,
                            receiver_id@,
                            idsv.take(i + 1),
                            amtsv.take(i + 1),
                        ));
                        lemma_batch_error_split(
                            v0,
                            sender_id@,
                            receiver_id@,
                            idsv.take(i + 1),
                            amtsv.take(i + 1),
                            approval_id,
                            i as int,
                        );
                        assert(batch_error(mid, sender_id@, receiver_id@, Seq::<Seq<char>>::empty(), Seq::<u128>::empty(), approval_id) is None);
                        assert(batch_error(state_i, sender_id@, receiver_id@, seq![idsv[i as int]], seq![amtsv[i as int]], approval_id) is None);
                        assert(batch_error(
                            v0,
                            sender_id@,
                            receiver_id@,
                            idsv.take(i + 1),
                            amtsv.take(i + 1),
                            approval_id,
                        ) is None);
                        assert(forall|j: int| 0 <= j < i ==> results@[j] == prevres[j]);
                        assert(results@[i as int] == pr);
                        assert(state_i == apply_batch(v0, sender_id@, receiver_id@, idsv.take(i as int), amtsv.take(i as int)));
                        assert(check_one(state_i, sender_id@, receiver_id@, idsv[i as int], amtsv[i as int], None) is None);
                        assert(results@[i as int].0@ == prev_owner_of(state_i, sender_id@, idsv[i as int]));
                        assert(prev_approvals_ok(state_i, idsv[i as int], results@[i as int].1));
                        assert forall|j: int| 0 <= j < i + 1 implies {
                            &&& check_one(
                                apply_batch(v0, sender_id@, receiver_id@, idsv.take(j), amtsv.take(j)),
                                sender_id@,
                                receiver_id@,
                                idsv[j],
                                amtsv[j],
                                None,
                            ) is None
                            &&& results@[j].0@ == prev_owner_of(
                                apply_batch(v0, sender_id@, receiver_id@, idsv.take(j), amtsv.take(j)),
                                sender_id@,
                                idsv[j],
                            )
                            &&& prev_approvals_ok(
                                apply_batch(v0, sender_id@, receiver_id@, idsv.take(j), amtsv.take(j)),
                                idsv[j],
                                results@[j].1,
                            )
                        } by {
                            if j < i {
                                assert(results@[j] == prevres[j]);
                            } else {
                                assert(results@[j] == pr);
                            }
                        }
                    }
                    i += 1;
                },
                Err(e) => {
                    proof {
                        // the whole batch's first refusal is this one
                        assert(idsv.take(n as int) =~= idsv);
                        assert(amtsv.take(n as int) =~= amtsv);
                        lemma_batch_error_split(
                            v0,
                            sender_id@,
                            receiver_id@,
                            idsv,
                            amtsv,
                            approval_id,
                            i as int,
                        );
                        assert(idsv.skip(i as int)[0] == idsv[i as int]);
                        assert(amtsv.skip(i as int)[0] == amtsv[i as int]);
                        assert(batch_error(v0, sender_id@, receiver_id@, idsv, amtsv, approval_id)
                            == Some(e));
                    }
                    // roll every applied item back, last first
                    let ghost fail_i = i as int;
                    proof {
                        // hand the per-item facts gathered so far to the
                        // rollback loop
                        assert forall|k: int| 0 <= k < fail_i implies {
                            &&& check_one(
                                apply_batch(v0, sender_id@, receiver_id@, idsv.take(k), amtsv.take(k)),
                                sender_id@,
                                receiver_id@,
                                idsv[k],
                                amtsv[k],
                                None,
                            ) is None
                            &&& results@[k].0@ == prev_owner_of(
                                apply_batch(v0, sender_id@, receiver_id@, idsv.take(k), amtsv.take(k)),
                                sender_id@,
                                idsv[k],
                            )
                            &&& prev_approvals_ok(
                                apply_batch(v0, sender_id@, receiver_id@, idsv.take(k), amtsv.take(k)),
                                idsv[k],
                                results@[k].1,
                            )
                        } by {
                            let item = results@[k];
                        }
                    }
                    let mut j: usize = i;
                    while j > 0
                        invariant
                            self.wf(),
                            view_wf(v0),
                            j <= fail_i,
                            fail_i <= n,
                            n == token_ids@.len(),
                            n == amounts@.len(),
                            idsv == ids_view(token_ids@),
                            amtsv == amounts@,
                            v0 == old(self)@,
                            results@.len() == j,
                            self@ == apply_batch(v0, sender_id@, receiver_id@, idsv.take(j as int), amtsv.take(j as int)),
                            forall|k: int| #![trigger idsv.take(k)] 0 <= k <= fail_i ==> view_wf(
                                apply_batch(v0, sender_id@, receiver_id@, idsv.take(k), amtsv.take(k)),
                            ),
                            forall|k: int| #![trigger results@[k]] 0 <= k < j ==> {
                                &&& check_one(
                                    apply_batch(v0, sender_id@, receiver_id@, idsv.take(k), amtsv.take(k)),
                                    sender_id@,
                                    receiver_id@,
                                    idsv[k],
                                    amtsv[k],
                                    None,
                                ) is None
                                &&& results@[k].0@ == prev_owner_of(
                                    apply_batch(v0, sender_id@, receiver_id@, idsv.take(k), amtsv.take(k)),
                                    sender_id@,
                                    idsv[k],
                                )
                                &&& prev_approvals_ok(
                                    apply_batch(v0, sender_id@, receiver_id@, idsv.take(k), amtsv.take(k)),
                                    idsv[k],
                                    results@[k].1,
                                )
                            },
                        decreases j,
                    {
                        let ghost prevres2 = results@;
                        let pr = match results.pop() {
                            Some(p) => p,
                            None => {
                                proof {
                                    assert(false);
                                }
                                return Err(e);
                            },
                        };
                        j -= 1;
                        proof {
                            assert forall|k: int| 0 <= k < j implies {
                                &&& check_one(
                                    apply_batch(v0, sender_id@, receiver_id@, idsv.take(k), amtsv.take(k)),
                                    sender_id@,
                                    receiver_id@,
                                    idsv[k],
                                    amtsv[k],
                                    None,
                                ) is None
                                &&& results@[k].0@ == prev_owner_of(
                                    apply_batch(v0, sender_id@, receiver_id@, idsv.take(k), amtsv.take(k)),
                                    sender_id@,
                                    idsv[k],
                                )
                                &&& prev_approvals_ok(
                                    apply_batch(v0, sender_id@, receiver_id@, idsv.take(k), amtsv.take(k)),
                                    idsv[k],
                                    results@[k].1,
                                )
                            } by {
                                assert(results@[k] == prevres2[k]);
                            }
                        }
                        let ghost state_j = apply_batch(
                            v0,
                            sender_id@,
                            receiver_id@,
                            idsv.take(j as int),
                            amtsv.take(j as int),
                        );
                        proof {
                            assert(idsv.take(j + 1).take(j as int) =~= idsv.take(j as int));
                            assert(amtsv.take(j + 1).take(j as int) =~= amtsv.take(j as int));
                            assert(idsv.take(j + 1).skip(j as int) =~= seq![idsv[j as int]]);
                            assert(amtsv.take(j + 1).skip(j as int) =~= seq![amtsv[j as int]]);
                            lemma_apply_batch_split(
                                v0,
                                sender_id@,
                                receiver_id@,
                                idsv.take(j + 1),
                                amtsv.take(j + 1),
                                j as int,
                            );
                            assert(seq![idsv[j as int]].skip(1) =~= Seq::<Seq<char>>::empty());
                            assert(seq![amtsv[j as int]].skip(1) =~= Seq::<u128>::empty());
                            let mid = apply_one(state_j, sender_id@, receiver_id@, idsv[j as int], amtsv[j as int]);
                            assert(apply_batch(mid, sender_id@, receiver_id@, Seq::<Seq<char>>::empty(), Seq::<u128>::empty()) == mid);
                            assert(apply_batch(state_j, sender_id@, receiver_id@, seq![idsv[j as int]], seq![amtsv[j as int]]) == mid);
                            assert(self@ == apply_one(state_j, sender_id@, receiver_id@, idsv[j as int], amtsv[j as int]));
                            assert(view_wf(state_j));
                        }
                        self.undo_transfer(
                            sender_id,
                            receiver_id,
                            &token_ids[j],
                            amounts[j],
                            &pr.0,
                            pr.1,
                            Ghost(state_j),
                        );
                    }
                    proof {
                        assert(idsv.take(0) =~= Seq::<Seq<char>>::empty());
                        assert(amtsv.take(0) =~= Seq::<u128>::empty());
                        assert(self@ == v0);
                    }
                    return Err(e);
                },
            }
        }
        proof {
            assert(idsv.take(n as int) =~= idsv);
            assert(amtsv.take(n as int) =~= amtsv);
        }
        Ok(results)
    }
}

} // verus!
