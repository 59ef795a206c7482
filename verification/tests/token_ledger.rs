use tycoon::{
    ApproveEvent, BurnEvent, CallContext, MintEvent, TokenError, TransferEvent, TycoonToken,
};

const ADMIN: u64 = 7;
const ALICE: u64 = 8;
const BOB: u64 = 9;
const SPENDER: u64 = 10;

fn signed(sequence: u32, signers: &[u64]) -> CallContext {
    CallContext::new(sequence, signers.to_vec())
}

fn all(sequence: u32) -> CallContext {
    signed(sequence, &[ADMIN, ALICE, BOB, SPENDER])
}

fn token_with(supply: i128) -> TycoonToken {
    let mut token = TycoonToken::new();
    assert_eq!(token.initialize(ADMIN, supply), Ok(MintEvent { to: ADMIN, amount: supply }));
    token
}

#[test]
fn fresh_token_reads_empty() {
    let token = TycoonToken::new();
    assert_eq!(token.admin(), None);
    assert_eq!(token.total_supply(), 0);
    assert_eq!(token.balance(ALICE), 0);
    assert_eq!(token.allowance(&all(0), ALICE, BOB), 0);
    assert_eq!(token.decimals(), 18);
    assert_eq!(token.name(), "Tycoon");
    assert_eq!(token.symbol(), "TYC");
}

#[test]
fn initialize_credits_admin_and_only_once() {
    let mut token = token_with(1_000);
    assert_eq!(token.admin(), Some(ADMIN));
    assert_eq!(token.balance(ADMIN), 1_000);
    assert_eq!(token.total_supply(), 1_000);
    assert_eq!(token.initialize(ALICE, 5), Err(TokenError::AlreadyInitialized));
    assert_eq!(TokenError::AlreadyInitialized.message(), "Already initialized");
    assert_eq!(token.admin(), Some(ADMIN));
    assert_eq!(token.total_supply(), 1_000);
}

#[test]
fn mint_before_initialize_is_refused() {
    let mut token = TycoonToken::new();
    assert_eq!(token.mint(&all(0), ALICE, 5), Err(TokenError::NotInitialized));
    assert_eq!(token.set_admin(&all(0), ALICE), Err(TokenError::NotInitialized));
    assert_eq!(token.total_supply(), 0);
}

#[test]
fn mint_requires_admin_signature_and_positive_amount() {
    let mut token = token_with(1_000);
    assert_eq!(token.mint(&signed(0, &[ALICE]), ALICE, 5), Err(TokenError::Unauthorized));
    assert_eq!(token.mint(&signed(0, &[ADMIN]), ALICE, 0), Err(TokenError::NonPositiveAmount));
    assert_eq!(TokenError::NonPositiveAmount.message(), "Amount must be positive");
    assert_eq!(token.mint(&signed(0, &[ADMIN]), ALICE, 5), Ok(MintEvent { to: ALICE, amount: 5 }));
    assert_eq!(token.balance(ALICE), 5);
    assert_eq!(token.total_supply(), 1_005);
}

#[test]
fn mint_overflows_are_refused() {
    let mut token = token_with(i128::MAX);
    assert_eq!(token.mint(&all(0), ADMIN, 1), Err(TokenError::BalanceOverflow));
    assert_eq!(token.mint(&all(0), ALICE, 1), Err(TokenError::SupplyOverflow));
    assert_eq!(token.balance(ALICE), 0);
    assert_eq!(token.total_supply(), i128::MAX);
}

#[test]
fn transfer_moves_and_conserves_supply() {
    let mut token = token_with(1_000);
    let r = token.transfer(&all(0), ADMIN, ALICE, 300);
    assert_eq!(r, Ok(Some(TransferEvent { from: ADMIN, to: ALICE, amount: 300 })));
    assert_eq!(token.balance(ADMIN), 700);
    assert_eq!(token.balance(ALICE), 300);
    assert_eq!(token.total_supply(), token.balance(ADMIN) + token.balance(ALICE));
}

#[test]
fn transfer_refusals_change_nothing() {
    let mut token = token_with(1_000);
    assert_eq!(token.transfer(&signed(0, &[ALICE]), ADMIN, ALICE, 1), Err(TokenError::Unauthorized));
    assert_eq!(token.transfer(&all(0), ADMIN, ALICE, -1), Err(TokenError::NegativeAmount));
    assert_eq!(TokenError::NegativeAmount.message(), "Amount cannot be negative");
    assert_eq!(token.transfer(&all(0), ADMIN, ALICE, 1_001), Err(TokenError::InsufficientBalance));
    assert_eq!(TokenError::InsufficientBalance.message(), "Insufficient balance");
    assert_eq!(token.balance(ADMIN), 1_000);
    assert_eq!(token.balance(ALICE), 0);
}

#[test]
fn transfer_of_nothing_and_to_oneself() {
    let mut token = token_with(1_000);
    assert_eq!(token.transfer(&all(0), ALICE, BOB, 0), Ok(None));
    assert_eq!(
        token.transfer(&all(0), ADMIN, ADMIN, 400),
        Ok(Some(TransferEvent { from: ADMIN, to: ADMIN, amount: 400 }))
    );
    assert_eq!(token.balance(ADMIN), 1_000);
}

#[test]
fn transfer_of_full_balance_empties_sender() {
    let mut token = token_with(1_000);
    token.transfer(&all(0), ADMIN, BOB, 1_000).unwrap();
    assert_eq!(token.balance(ADMIN), 0);
    assert_eq!(token.balance(BOB), 1_000);
}

#[test]
fn approve_then_allowance_until_expiry() {
    let mut token = token_with(1_000);
    let r = token.approve(&all(5), ALICE, SPENDER, 250, 20);
    assert_eq!(r, Ok(ApproveEvent { from: ALICE, spender: SPENDER, amount: 250, expiration_ledger: 20 }));
    assert_eq!(token.allowance(&all(20), ALICE, SPENDER), 250);
    assert_eq!(token.allowance(&all(21), ALICE, SPENDER), 0);
    assert_eq!(token.approve(&signed(0, &[SPENDER]), ALICE, SPENDER, 1, 0), Err(TokenError::Unauthorized));
    assert_eq!(token.approve(&all(0), ALICE, SPENDER, -5, 0), Err(TokenError::NegativeAmount));
    assert_eq!(token.allowance(&all(20), ALICE, SPENDER), 250);
}

#[test]
fn transfer_from_spends_allowance_exactly() {
    let mut token = token_with(1_000);
    token.approve(&all(0), ADMIN, SPENDER, 400, 0).unwrap();
    token.transfer_from(&all(0), SPENDER, ADMIN, BOB, 150).unwrap();
    assert_eq!(token.allowance(&all(0), ADMIN, SPENDER), 250);
    assert_eq!(token.balance(ADMIN), 850);
    assert_eq!(token.balance(BOB), 150);
    assert_eq!(token.transfer_from(&all(0), SPENDER, ADMIN, BOB, 251), Err(TokenError::InsufficientAllowance));
    assert_eq!(TokenError::InsufficientAllowance.message(), "Insufficient allowance");
    assert_eq!(token.allowance(&all(0), ADMIN, SPENDER), 250);
}

#[test]
fn transfer_from_needs_balance_and_keeps_allowance_on_refusal() {
    let mut token = token_with(1_000);
    token.approve(&all(0), ALICE, SPENDER, 500, 0).unwrap();
    assert_eq!(token.transfer_from(&all(0), SPENDER, ALICE, BOB, 100), Err(TokenError::InsufficientBalance));
    assert_eq!(token.allowance(&all(0), ALICE, SPENDER), 500);
    assert_eq!(token.transfer_from(&signed(0, &[ALICE]), SPENDER, ALICE, BOB, 100), Err(TokenError::Unauthorized));
    assert_eq!(token.transfer_from(&all(0), SPENDER, ALICE, BOB, 0), Ok(None));
    assert_eq!(token.transfer_from(&all(0), SPENDER, BOB, ALICE, 1), Err(TokenError::InsufficientAllowance));
}

#[test]
fn burn_and_burn_from_destroy_supply() {
    let mut token = token_with(1_000);
    assert_eq!(token.burn(&all(0), ADMIN, 100), Ok(BurnEvent { from: ADMIN, amount: 100 }));
    assert_eq!(token.balance(ADMIN), 900);
    assert_eq!(token.total_supply(), 900);
    assert_eq!(token.burn(&all(0), ADMIN, 0), Err(TokenError::NonPositiveAmount));
    assert_eq!(token.burn(&all(0), ADMIN, 901), Err(TokenError::InsufficientBalance));
    assert_eq!(token.burn(&signed(0, &[ALICE]), ADMIN, 1), Err(TokenError::Unauthorized));

    token.approve(&all(0), ADMIN, SPENDER, 300, 0).unwrap();
    assert_eq!(token.burn_from(&all(0), SPENDER, ADMIN, 200), Ok(BurnEvent { from: ADMIN, amount: 200 }));
    assert_eq!(token.allowance(&all(0), ADMIN, SPENDER), 100);
    assert_eq!(token.total_supply(), 700);
    assert_eq!(token.burn_from(&all(0), SPENDER, ADMIN, 101), Err(TokenError::InsufficientAllowance));
    assert_eq!(token.burn_from(&all(0), SPENDER, ADMIN, -1), Err(TokenError::NonPositiveAmount));
}

#[test]
fn mint_then_burn_restores_balance_and_supply() {
    let mut token = token_with(1_000);
    token.mint(&all(0), ALICE, 77).unwrap();
    token.burn(&all(0), ALICE, 77).unwrap();
    assert_eq!(token.balance(ALICE), 0);
    assert_eq!(token.total_supply(), 1_000);
}

#[test]
fn set_admin_hands_over_the_role() {
    let mut token = token_with(1_000);
    assert_eq!(token.set_admin(&signed(0, &[ALICE]), ALICE), Err(TokenError::Unauthorized));
    token.set_admin(&signed(0, &[ADMIN]), ALICE).unwrap();
    assert_eq!(token.admin(), Some(ALICE));
    assert_eq!(token.mint(&signed(0, &[ADMIN]), BOB, 1), Err(TokenError::Unauthorized));
    assert_eq!(token.mint(&signed(0, &[ALICE]), BOB, 1), Ok(MintEvent { to: BOB, amount: 1 }));
}

#[test]
fn supply_stays_the_sum_of_balances() {
    let mut token = token_with(10_000);
    token.transfer(&all(0), ADMIN, ALICE, 2_500).unwrap();
    token.mint(&all(0), BOB, 1_000).unwrap();
    token.approve(&all(0), ALICE, SPENDER, 1_000, 0).unwrap();
    token.transfer_from(&all(0), SPENDER, ALICE, BOB, 600).unwrap();
    token.burn_from(&all(0), SPENDER, ALICE, 400).unwrap();
    token.burn(&all(0), BOB, 100).unwrap();
    let sum = token.balance(ADMIN) + token.balance(ALICE) + token.balance(BOB) + token.balance(SPENDER);
    assert_eq!(token.total_supply(), sum);
    assert_eq!(token.total_supply(), 10_500);
}

#[test]
fn error_messages_are_distinct_texts() {
    assert_eq!(TokenError::Unauthorized.message(), "Unauthorized");
    assert_eq!(TokenError::NotInitialized.message(), "Not initialized");
    assert_eq!(TokenError::BalanceOverflow.message(), "Balance overflow");
    assert_eq!(TokenError::SupplyOverflow.message(), "Supply overflow");
    assert_eq!(TokenError::SupplyUnderflow.message(), "Supply underflow");
}
