use multi_token::ledger::MultiToken;
use multi_token::ledger::StorageUsageReadings;
use multi_token::token::TokenError;
use multi_token::token::TokenType;

fn readings() -> StorageUsageReadings {
    StorageUsageReadings {
        before_ft_probe: 100,
        after_ft_creation: 140,
        after_ft_balance_row: 220,
        before_nft_probe: 100,
        after_nft_rows: 450,
    }
}

fn fresh_ledger() -> MultiToken {
    MultiToken::new(String::from("owner"), true, &readings())
}

fn s(x: &str) -> String {
    String::from(x)
}

#[test]
fn new_ledger_is_empty_with_probe_costs() {
    let ledger = fresh_ledger();
    assert_eq!(ledger.token_count(), 0);
    let (ft_creation, ft_balance_row, nft_row) = ledger.storage_costs();
    assert_eq!(ft_creation, 40);
    assert_eq!(ft_balance_row, 80);
    assert_eq!(nft_row, 350);
    assert!(ft_creation > 0 && ft_balance_row > 0 && nft_row > 0);
    assert_eq!(ledger.owner_id(), &s("owner"));
}

#[test]
fn measure_functions_return_counter_deltas() {
    assert_eq!(MultiToken::measure_min_ft_token_storage_cost(10, 25, 60), (15, 35));
    assert_eq!(MultiToken::measure_min_nft_token_storage_cost(10, 95), 85);
}

#[test]
fn mint_fungible_sets_supply_and_owner_balance() {
    let mut ledger = fresh_ledger();
    assert!(ledger.mint_fungible(&s("2"), &s("alice"), 100));
    assert_eq!(ledger.token_count(), 1);
    assert_eq!(ledger.total_supply(&s("2")), Ok(100));
    assert_eq!(ledger.balance_of(&s("alice"), &s("2")), Ok(100));
    assert_eq!(ledger.balance_of(&s("bob"), &s("2")), Ok(0));
    // a second mint under the same identifier is refused
    assert!(!ledger.mint_fungible(&s("2"), &s("bob"), 7));
    assert_eq!(ledger.total_supply(&s("2")), Ok(100));
}

#[test]
fn mint_non_fungible_records_single_owner() {
    let mut ledger = fresh_ledger();
    assert!(ledger.mint_non_fungible(&s("1"), &s("alice")));
    let token = ledger.multi_token(&s("1")).unwrap();
    assert_eq!(token.token_type, TokenType::NonFungible);
    assert_eq!(token.owner_id, Some(s("alice")));
    assert_eq!(token.supply, None);
    assert!(token.approved_account_ids.is_none());
}

#[test]
fn fungible_transfer_moves_amount_and_conserves_supply() {
    let mut ledger = fresh_ledger();
    ledger.mint_fungible(&s("2"), &s("a"), 100);
    let r = ledger.internal_transfer(&s("a"), &s("b"), &s("2"), 40, None, None);
    let (prev_owner, prev_approvals) = r.unwrap();
    assert_eq!(prev_owner, s("a"));
    assert!(prev_approvals.is_none());
    assert_eq!(ledger.balance_of(&s("a"), &s("2")), Ok(60));
    assert_eq!(ledger.balance_of(&s("b"), &s("2")), Ok(40));
    assert_eq!(ledger.total_supply(&s("2")), Ok(100));
}

#[test]
fn fungible_round_trip_restores_balances_exactly() {
    let mut ledger = fresh_ledger();
    ledger.mint_fungible(&s("2"), &s("a"), 100);
    ledger.internal_transfer(&s("a"), &s("b"), &s("2"), 40, None, None).unwrap();
    ledger.internal_transfer(&s("b"), &s("a"), &s("2"), 40, None, None).unwrap();
    assert_eq!(ledger.balance_of(&s("a"), &s("2")), Ok(100));
    assert_eq!(ledger.balance_of(&s("b"), &s("2")), Ok(0));
    assert_eq!(ledger.total_supply(&s("2")), Ok(100));
}

#[test]
fn non_fungible_round_trip_restores_owner() {
    let mut ledger = fresh_ledger();
    ledger.mint_non_fungible(&s("1"), &s("a"));
    ledger.internal_transfer(&s("a"), &s("b"), &s("1"), 1, None, None).unwrap();
    assert_eq!(ledger.multi_token(&s("1")).unwrap().owner_id, Some(s("b")));
    ledger.internal_transfer(&s("b"), &s("a"), &s("1"), 1, None, None).unwrap();
    assert_eq!(ledger.multi_token(&s("1")).unwrap().owner_id, Some(s("a")));
}

#[test]
fn zero_amount_fungible_transfer_is_legal_no_op() {
    let mut ledger = fresh_ledger();
    ledger.mint_fungible(&s("2"), &s("a"), 100);
    let r = ledger.internal_transfer(&s("a"), &s("b"), &s("2"), 0, None, None);
    assert!(r.is_ok());
    assert_eq!(ledger.balance_of(&s("a"), &s("2")), Ok(100));
    assert_eq!(ledger.balance_of(&s("b"), &s("2")), Ok(0));
}

#[test]
fn transfer_of_unknown_token_fails_token_not_found() {
    let mut ledger = fresh_ledger();
    let r = ledger.internal_transfer(&s("a"), &s("b"), &s("nope"), 1, None, None);
    assert_eq!(r.unwrap_err(), TokenError::TokenNotFound);
}

#[test]
fn transfer_to_self_fails_same_account() {
    let mut ledger = fresh_ledger();
    ledger.mint_fungible(&s("2"), &s("a"), 100);
    let r = ledger.internal_transfer(&s("a"), &s("a"), &s("2"), 5, None, None);
    assert_eq!(r.unwrap_err(), TokenError::SameAccount);
    assert_eq!(ledger.balance_of(&s("a"), &s("2")), Ok(100));
}

#[test]
fn nft_transfer_by_stranger_without_any_approval_fails_unauthorized() {
    let mut ledger = fresh_ledger();
    ledger.mint_non_fungible(&s("1"), &s("a"));
    let r = ledger.internal_transfer(&s("mallory"), &s("b"), &s("1"), 1, None, None);
    assert_eq!(r.unwrap_err(), TokenError::Unauthorized);
    assert_eq!(ledger.multi_token(&s("1")).unwrap().owner_id, Some(s("a")));
}

#[test]
fn nft_transfer_by_unapproved_sender_fails_sender_not_approved() {
    let mut ledger = fresh_ledger();
    ledger.mint_non_fungible(&s("1"), &s("a"));
    ledger.approve(&s("1"), &s("carol")).unwrap();
    let r = ledger.internal_transfer(&s("mallory"), &s("b"), &s("1"), 1, None, None);
    assert_eq!(r.unwrap_err(), TokenError::SenderNotApproved);
    assert_eq!(ledger.multi_token(&s("1")).unwrap().owner_id, Some(s("a")));
    // the failed transfer left the approval entry in place
    let token = ledger.multi_token(&s("1")).unwrap();
    assert!(token.approved_account_ids.is_some());
}

#[test]
fn nft_transfer_with_wrong_approval_seq_fails_approval_mismatch() {
    let mut ledger = fresh_ledger();
    ledger.mint_non_fungible(&s("1"), &s("a"));
    let seq = ledger.approve(&s("1"), &s("carol")).unwrap();
    let r = ledger.internal_transfer(&s("carol"), &s("b"), &s("1"), 1, Some(seq + 1), None);
    assert_eq!(r.unwrap_err(), TokenError::ApprovalMismatch);
    assert_eq!(ledger.multi_token(&s("1")).unwrap().owner_id, Some(s("a")));
}

#[test]
fn nft_transfer_by_approved_sender_with_matching_seq_succeeds() {
    let mut ledger = fresh_ledger();
    ledger.mint_non_fungible(&s("1"), &s("a"));
    let seq = ledger.approve(&s("1"), &s("carol")).unwrap();
    let r = ledger.internal_transfer(&s("carol"), &s("b"), &s("1"), 1, Some(seq), None);
    let (prev_owner, prev_approvals) = r.unwrap();
    assert_eq!(prev_owner, s("a"));
    let cleared = prev_approvals.unwrap();
    assert_eq!(cleared.get(&s("carol")), Some(&seq));
    assert_eq!(ledger.multi_token(&s("1")).unwrap().owner_id, Some(s("b")));
}

#[test]
fn approval_sequence_numbers_increase_and_are_never_reused() {
    let mut ledger = fresh_ledger();
    ledger.mint_non_fungible(&s("1"), &s("a"));
    let s1 = ledger.approve(&s("1"), &s("carol")).unwrap();
    let s2 = ledger.approve(&s("1"), &s("dave")).unwrap();
    assert!(s2 > s1);
    // a transfer clears the approvals but not the sequence counter
    ledger.internal_transfer(&s("a"), &s("b"), &s("1"), 1, None, None).unwrap();
    let s3 = ledger.approve(&s("1"), &s("erin")).unwrap();
    assert!(s3 > s2);
}

#[test]
fn approve_refuses_fungible_tokens_and_unknown_ids() {
    let mut ledger = fresh_ledger();
    ledger.mint_fungible(&s("2"), &s("a"), 100);
    assert!(ledger.approve(&s("2"), &s("carol")).is_none());
    assert!(ledger.approve(&s("nope"), &s("carol")).is_none());
}

#[test]
fn approve_refused_when_registry_disabled() {
    let mut ledger = MultiToken::new(s("owner"), false, &readings());
    ledger.mint_non_fungible(&s("1"), &s("a"));
    assert!(ledger.approve(&s("1"), &s("carol")).is_none());
}

#[test]
fn successful_nft_transfer_clears_whole_approval_map() {
    let mut ledger = fresh_ledger();
    ledger.mint_non_fungible(&s("1"), &s("a"));
    ledger.approve(&s("1"), &s("carol")).unwrap();
    ledger.approve(&s("1"), &s("dave")).unwrap();
    // the owner transfers; every approval must be invalidated, not just one
    let (_, prev) = ledger.internal_transfer(&s("a"), &s("b"), &s("1"), 1, None, None).unwrap();
    let cleared = prev.unwrap();
    assert_eq!(cleared.len(), 2);
    let token = ledger.multi_token(&s("1")).unwrap();
    assert!(token.approved_account_ids.is_none());
}

#[test]
fn insufficient_balance_fails_and_mutates_nothing() {
    let mut ledger = fresh_ledger();
    ledger.mint_fungible(&s("2"), &s("a"), 100);
    let r = ledger.internal_transfer(&s("a"), &s("b"), &s("2"), 101, None, None);
    assert_eq!(r.unwrap_err(), TokenError::InsufficientBalance);
    assert_eq!(ledger.balance_of(&s("a"), &s("2")), Ok(100));
}

#[test]
fn non_holder_fails_not_a_token_holder() {
    let mut ledger = fresh_ledger();
    ledger.mint_fungible(&s("2"), &s("a"), 100);
    let r = ledger.internal_transfer(&s("b"), &s("c"), &s("2"), 1, None, None);
    assert_eq!(r.unwrap_err(), TokenError::NotATokenHolder);
}

#[test]
fn batch_length_mismatch_mutates_nothing() {
    let mut ledger = fresh_ledger();
    ledger.mint_fungible(&s("2"), &s("a"), 100);
    let ids = vec![s("2"), s("2")];
    let amounts = vec![10u128];
    let r = ledger.internal_transfer_batch(&s("a"), &s("b"), &ids, &amounts, None, None);
    assert_eq!(r.unwrap_err(), TokenError::LengthMismatch);
    assert_eq!(ledger.balance_of(&s("a"), &s("2")), Ok(100));
    assert_eq!(ledger.balance_of(&s("b"), &s("2")), Ok(0));
}

#[test]
fn batch_applies_items_in_order() {
    let mut ledger = fresh_ledger();
    ledger.mint_fungible(&s("2"), &s("a"), 100);
    ledger.mint_non_fungible(&s("1"), &s("a"));
    let ids = vec![s("2"), s("1")];
    let amounts = vec![25u128, 1u128];
    let results = ledger.internal_transfer_batch(&s("a"), &s("b"), &ids, &amounts, None, None).unwrap();
    assert_eq!(results.len(), 2);
    assert_eq!(results[0].0, s("a"));
    assert_eq!(results[1].0, s("a"));
    assert_eq!(ledger.balance_of(&s("b"), &s("2")), Ok(25));
    assert_eq!(ledger.multi_token(&s("1")).unwrap().owner_id, Some(s("b")));
}

#[test]
fn failing_batch_rolls_everything_back() {
    let mut ledger = fresh_ledger();
    ledger.mint_fungible(&s("2"), &s("a"), 100);
    ledger.mint_non_fungible(&s("1"), &s("a"));
    ledger.approve(&s("1"), &s("carol")).unwrap();
    // first two items succeed, the third is refused: all-or-nothing
    let ids = vec![s("2"), s("1"), s("2")];
    let amounts = vec![30u128, 1u128, 90u128];
    let r = ledger.internal_transfer_batch(&s("a"), &s("b"), &ids, &amounts, None, None);
    assert_eq!(r.unwrap_err(), TokenError::InsufficientBalance);
    assert_eq!(ledger.balance_of(&s("a"), &s("2")), Ok(100));
    assert_eq!(ledger.balance_of(&s("b"), &s("2")), Ok(0));
    let token = ledger.multi_token(&s("1")).unwrap();
    assert_eq!(token.owner_id, Some(s("a")));
    // the rollback also restored the cleared approval entry
    assert!(token.approved_account_ids.is_some());
    assert_eq!(ledger.total_supply(&s("2")), Ok(100));
}

#[test]
fn balance_of_unknown_token_fails_token_not_found() {
    let ledger = fresh_ledger();
    assert_eq!(ledger.balance_of(&s("a"), &s("2")), Err(TokenError::TokenNotFound));
    assert_eq!(ledger.total_supply(&s("2")), Err(TokenError::TokenNotFound));
}

#[test]
fn batch_reads_report_per_token_values() {
    let mut ledger = fresh_ledger();
    ledger.mint_fungible(&s("2"), &s("a"), 100);
    ledger.mint_fungible(&s("3"), &s("a"), 7);
    let ids = vec![s("2"), s("3")];
    assert_eq!(ledger.balance_of_batch(&s("a"), &ids), Ok(vec![100, 7]));
    assert_eq!(ledger.total_supply_batch(&ids), Ok(vec![100, 7]));
    let bad = vec![s("2"), s("9")];
    assert_eq!(ledger.total_supply_batch(&bad), Err(TokenError::TokenNotFound));
}

#[test]
fn supply_equals_sum_of_balances_through_a_chain_of_transfers() {
    let mut ledger = fresh_ledger();
    ledger.mint_fungible(&s("2"), &s("a"), 1000);
    ledger.internal_transfer(&s("a"), &s("b"), &s("2"), 400, None, None).unwrap();
    ledger.internal_transfer(&s("b"), &s("c"), &s("2"), 150, None, None).unwrap();
    ledger.internal_transfer(&s("a"), &s("c"), &s("2"), 600, None, None).unwrap();
    ledger.internal_transfer(&s("c"), &s("b"), &s("2"), 750, None, None).unwrap();
    let holders = [s("a"), s("b"), s("c")];
    let mut total: u128 = 0;
    for h in holders.iter() {
        total += ledger.balance_of(h, &s("2")).unwrap();
    }
    assert_eq!(total, 1000);
    assert_eq!(ledger.total_supply(&s("2")), Ok(1000));
    // a fully drained holder reads as zero, like an absent row
    assert_eq!(ledger.balance_of(&s("a"), &s("2")), Ok(0));
}

#[test]
fn multi_transfer_entry_point_delegates_to_the_engine() {
    let mut ledger = fresh_ledger();
    ledger.mint_fungible(&s("2"), &s("a"), 100);
    assert_eq!(ledger.multi_transfer(&s("a"), &s("b"), &s("2"), 25, None, None), Ok(()));
    assert_eq!(ledger.balance_of(&s("b"), &s("2")), Ok(25));
    let err = ledger.multi_batch_transfer(&s("a"), &s("b"), &vec![s("2")], &vec![76u128], None, None);
    assert_eq!(err, Err(TokenError::InsufficientBalance));
    assert_eq!(ledger.balance_of(&s("a"), &s("2")), Ok(75));
}
