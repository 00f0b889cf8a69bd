use multi_token::core_api::MultiReceiver;
use multi_token::ledger::MultiToken;
use multi_token::ledger::StorageUsageReadings;
use multi_token::notify::NotifyOutcome;
use multi_token::token::TokenError;

fn fresh_ledger() -> MultiToken {
    MultiToken::new(
        String::from("owner"),
        true,
        &StorageUsageReadings {
            before_ft_probe: 0,
            after_ft_creation: 40,
            after_ft_balance_row: 120,
            before_nft_probe: 0,
            after_nft_rows: 350,
        },
    )
}

fn s(x: &str) -> String {
    String::from(x)
}

/// A receiving party that always gives the same answer.
struct FixedReceiver {
    should_revert: bool,
    calls: usize,
}

impl MultiReceiver for FixedReceiver {
    fn multi_on_transfer(
        &mut self,
        _sender_id: &String,
        _previous_owner_ids: &Vec<String>,
        _token_ids: &Vec<String>,
        _amounts: &Vec<u128>,
        _msg: &String,
    ) -> bool {
        self.calls += 1;
        self.should_revert
    }
}

#[test]
fn transfer_call_hands_back_the_notification_data() {
    let mut ledger = fresh_ledger();
    ledger.mint_non_fungible(&s("1"), &s("a"));
    let pending = ledger
        .multi_transfer_call(&s("a"), &s("b"), &s("1"), 1, None, None, s("hello"))
        .unwrap();
    assert_eq!(pending.sender_id, s("a"));
    assert_eq!(pending.receiver_id, s("b"));
    assert_eq!(pending.token_ids, vec![s("1")]);
    assert_eq!(pending.amounts, vec![1]);
    assert_eq!(pending.previous_owner_ids, vec![s("a")]);
    assert_eq!(pending.msg, s("hello"));
    // the transfer is already live in the ledger before any acknowledgment
    assert_eq!(ledger.multi_token(&s("1")).unwrap().owner_id, Some(s("b")));
}

#[test]
fn refused_transfer_call_mutates_nothing() {
    let mut ledger = fresh_ledger();
    ledger.mint_non_fungible(&s("1"), &s("a"));
    let r = ledger.multi_transfer_call(&s("mallory"), &s("b"), &s("1"), 1, None, None, s("m"));
    assert_eq!(r.err(), Some(TokenError::Unauthorized));
    assert_eq!(ledger.multi_token(&s("1")).unwrap().owner_id, Some(s("a")));
}

#[test]
fn rejected_nft_transfer_is_fully_reverted() {
    let mut ledger = fresh_ledger();
    ledger.mint_non_fungible(&s("1"), &s("a"));
    let mut receiver = FixedReceiver { should_revert: true, calls: 0 };
    let pending = ledger
        .multi_transfer_call(&s("a"), &s("b"), &s("1"), 1, None, None, s("m"))
        .unwrap();
    let answer = receiver.multi_on_transfer(
        &pending.sender_id,
        &pending.previous_owner_ids,
        &pending.token_ids,
        &pending.amounts,
        &pending.msg,
    );
    let reverted = ledger.multi_resolve_transfer(
        &pending.previous_owner_ids,
        &pending.receiver_id,
        &pending.token_ids,
        &pending.amounts,
        NotifyOutcome::Delivered(answer),
    );
    assert_eq!(receiver.calls, 1);
    assert_eq!(reverted, vec![1]);
    assert_eq!(ledger.multi_token(&s("1")).unwrap().owner_id, Some(s("a")));
}

#[test]
fn accepted_transfer_stands_and_reports_zero_reverted() {
    let mut ledger = fresh_ledger();
    ledger.mint_non_fungible(&s("1"), &s("a"));
    let pending = ledger
        .multi_transfer_call(&s("a"), &s("b"), &s("1"), 1, None, None, s("m"))
        .unwrap();
    let reverted = ledger.multi_resolve_transfer(
        &pending.previous_owner_ids,
        &pending.receiver_id,
        &pending.token_ids,
        &pending.amounts,
        NotifyOutcome::Delivered(false),
    );
    assert_eq!(reverted, vec![0]);
    assert_eq!(ledger.multi_token(&s("1")).unwrap().owner_id, Some(s("b")));
}

#[test]
fn failed_notification_counts_as_rejection() {
    let mut ledger = fresh_ledger();
    ledger.mint_non_fungible(&s("1"), &s("a"));
    let pending = ledger
        .multi_transfer_call(&s("a"), &s("b"), &s("1"), 1, None, None, s("m"))
        .unwrap();
    let reverted = ledger.multi_resolve_transfer(
        &pending.previous_owner_ids,
        &pending.receiver_id,
        &pending.token_ids,
        &pending.amounts,
        NotifyOutcome::NotDelivered,
    );
    assert_eq!(reverted, vec![1]);
    assert_eq!(ledger.multi_token(&s("1")).unwrap().owner_id, Some(s("a")));
}

#[test]
fn revert_is_skipped_when_a_third_party_reacquired_the_token() {
    let mut ledger = fresh_ledger();
    ledger.mint_non_fungible(&s("1"), &s("a"));
    let pending = ledger
        .multi_transfer_call(&s("a"), &s("b"), &s("1"), 1, None, None, s("m"))
        .unwrap();
    // before the resolution arrives, a third party legitimately buys the
    // token from the receiver; the late revert must not claw it back
    ledger.internal_transfer(&s("b"), &s("c"), &s("1"), 1, None, None).unwrap();
    let reverted = ledger.multi_resolve_transfer(
        &pending.previous_owner_ids,
        &pending.receiver_id,
        &pending.token_ids,
        &pending.amounts,
        NotifyOutcome::Delivered(true),
    );
    assert_eq!(reverted, vec![0]);
    assert_eq!(ledger.multi_token(&s("1")).unwrap().owner_id, Some(s("c")));
}

#[test]
fn fungible_revert_is_clamped_to_what_the_receiver_still_holds() {
    let mut ledger = fresh_ledger();
    ledger.mint_fungible(&s("2"), &s("a"), 100);
    let pending = ledger
        .multi_transfer_call(&s("a"), &s("b"), &s("2"), 40, None, None, s("m"))
        .unwrap();
    // the receiver spends 30 of the 40 before the resolution arrives
    ledger.internal_transfer(&s("b"), &s("c"), &s("2"), 30, None, None).unwrap();
    let reverted = ledger.multi_resolve_transfer(
        &pending.previous_owner_ids,
        &pending.receiver_id,
        &pending.token_ids,
        &pending.amounts,
        NotifyOutcome::Delivered(true),
    );
    assert_eq!(reverted, vec![10]);
    assert_eq!(ledger.balance_of(&s("a"), &s("2")), Ok(70));
    assert_eq!(ledger.balance_of(&s("b"), &s("2")), Ok(0));
    assert_eq!(ledger.balance_of(&s("c"), &s("2")), Ok(30));
    assert_eq!(ledger.total_supply(&s("2")), Ok(100));
}

#[test]
fn batch_transfer_call_reverts_every_item_on_rejection() {
    let mut ledger = fresh_ledger();
    ledger.mint_fungible(&s("2"), &s("a"), 100);
    ledger.mint_non_fungible(&s("1"), &s("a"));
    let ids = vec![s("2"), s("1")];
    let amounts = vec![25u128, 1u128];
    let pending = ledger
        .multi_batch_transfer_call(&s("a"), &s("b"), &ids, &amounts, None, None, s("m"))
        .unwrap();
    assert_eq!(pending.previous_owner_ids, vec![s("a"), s("a")]);
    assert_eq!(ledger.balance_of(&s("b"), &s("2")), Ok(25));
    let reverted = ledger.multi_resolve_transfer(
        &pending.previous_owner_ids,
        &pending.receiver_id,
        &pending.token_ids,
        &pending.amounts,
        NotifyOutcome::Delivered(true),
    );
    assert_eq!(reverted, vec![25, 1]);
    assert_eq!(ledger.balance_of(&s("a"), &s("2")), Ok(100));
    assert_eq!(ledger.balance_of(&s("b"), &s("2")), Ok(0));
    assert_eq!(ledger.multi_token(&s("1")).unwrap().owner_id, Some(s("a")));
}

#[test]
fn reverted_nft_transfer_does_not_restore_approvals() {
    let mut ledger = fresh_ledger();
    ledger.mint_non_fungible(&s("1"), &s("a"));
    ledger.approve(&s("1"), &s("carol")).unwrap();
    let pending = ledger
        .multi_transfer_call(&s("a"), &s("b"), &s("1"), 1, None, None, s("m"))
        .unwrap();
    ledger.multi_resolve_transfer(
        &pending.previous_owner_ids,
        &pending.receiver_id,
        &pending.token_ids,
        &pending.amounts,
        NotifyOutcome::Delivered(true),
    );
    let token = ledger.multi_token(&s("1")).unwrap();
    assert_eq!(token.owner_id, Some(s("a")));
    // the owner is back, but the cleared approvals stay cleared
    assert!(token.approved_account_ids.is_none());
}
