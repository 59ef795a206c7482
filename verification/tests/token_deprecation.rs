use tycoon::{CallContext, TokenError, TycoonToken};

const SUPPLY: i128 = 1_000_000_000_000_000_000_000_000_000;
const ADMIN: u64 = 1;
const USER: u64 = 2;

fn all_signed() -> CallContext {
    CallContext::new(0, vec![ADMIN, USER])
}

fn initialized() -> TycoonToken {
    let mut token = TycoonToken::new();
    token.initialize(ADMIN, SUPPLY).unwrap();
    token
}

#[test]
fn legacy_mint_always_panics() {
    let token = initialized();
    let r = token.legacy_mint(&all_signed(), USER, 1_000);
    assert_eq!(r, Err(TokenError::LegacyMintDeprecated));
    assert_eq!(r.unwrap_err().message(), "legacy_mint is deprecated; use mint instead");
}

#[test]
fn legacy_mint_does_not_change_supply() {
    let token = initialized();
    let supply_before = token.total_supply();
    let balance_before = token.balance(USER);
    let res = token.legacy_mint(&all_signed(), USER, 1_000);
    assert!(res.is_err(), "expected legacy_mint to panic");
    assert_eq!(token.total_supply(), supply_before);
    assert_eq!(token.balance(USER), balance_before);
}

#[test]
fn canonical_mint_still_works_after_legacy_mint_attempt() {
    let mut token = initialized();
    let _ = token.legacy_mint(&all_signed(), USER, 1_000);
    let mint_amount: i128 = 500_000_000_000_000_000_000;
    token.mint(&all_signed(), USER, mint_amount).unwrap();
    assert_eq!(token.balance(USER), mint_amount);
    assert_eq!(token.total_supply(), SUPPLY + mint_amount);
}

#[test]
fn legacy_burn_always_panics() {
    let token = initialized();
    let r = token.legacy_burn(&all_signed(), ADMIN, 1_000);
    assert_eq!(r, Err(TokenError::LegacyBurnDeprecated));
    assert_eq!(r.unwrap_err().message(), "legacy_burn is deprecated; use burn instead");
}

#[test]
fn legacy_burn_does_not_change_supply() {
    let token = initialized();
    let supply_before = token.total_supply();
    let balance_before = token.balance(ADMIN);
    let res = token.legacy_burn(&all_signed(), ADMIN, 1_000);
    assert!(res.is_err(), "expected legacy_burn to panic");
    assert_eq!(token.total_supply(), supply_before);
    assert_eq!(token.balance(ADMIN), balance_before);
}

#[test]
fn canonical_burn_still_works_after_legacy_burn_attempt() {
    let mut token = initialized();
    let _ = token.legacy_burn(&all_signed(), ADMIN, 1_000);
    let burn_amount: i128 = 100_000_000_000_000_000_000_000_000;
    token.burn(&all_signed(), ADMIN, burn_amount).unwrap();
    assert_eq!(token.balance(ADMIN), SUPPLY - burn_amount);
    assert_eq!(token.total_supply(), SUPPLY - burn_amount);
}

#[test]
fn legacy_transfer_always_panics() {
    let token = initialized();
    let r = token.legacy_transfer(&all_signed(), ADMIN, USER, 1_000);
    assert_eq!(r, Err(TokenError::LegacyTransferDeprecated));
    assert_eq!(r.unwrap_err().message(), "legacy_transfer is deprecated; use transfer instead");
}

#[test]
fn legacy_transfer_does_not_move_tokens() {
    let token = initialized();
    let admin_balance_before = token.balance(ADMIN);
    let user_balance_before = token.balance(USER);
    let res = token.legacy_transfer(&all_signed(), ADMIN, USER, 1_000);
    assert!(res.is_err(), "expected legacy_transfer to panic");
    assert_eq!(token.balance(ADMIN), admin_balance_before);
    assert_eq!(token.balance(USER), user_balance_before);
}

#[test]
fn canonical_transfer_still_works_after_legacy_transfer_attempt() {
    let mut token = initialized();
    let _ = token.legacy_transfer(&all_signed(), ADMIN, USER, 1_000);
    let amount: i128 = 500_000_000_000_000_000_000_000_000;
    token.transfer(&all_signed(), ADMIN, USER, amount).unwrap();
    assert_eq!(token.balance(ADMIN), SUPPLY - amount);
    assert_eq!(token.balance(USER), amount);
}
