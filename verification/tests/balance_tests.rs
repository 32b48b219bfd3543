use agent_pool::balance::Asset;
use agent_pool::balance::Coin;
use agent_pool::balance::GenericBalance;
use agent_pool::balance::has_coins;
use agent_pool::error::ContractError;

#[test]
fn new_balance_is_zero() {
    let b = GenericBalance::new();
    assert!(b.is_zero());
    assert_eq!(b.native, 0);
    assert_eq!(b.tokens.len(), 0);
}

#[test]
fn credit_native_accumulates() {
    let mut b = GenericBalance::new();
    assert!(b.credit(Asset::Native, 70).is_ok());
    assert!(b.credit(Asset::Native, 30).is_ok());
    assert_eq!(b.native, 100);
    assert!(!b.is_zero());
}

#[test]
fn credit_native_overflow_fails_unchanged() {
    let mut b = GenericBalance::new();
    assert!(b.credit(Asset::Native, u128::MAX).is_ok());
    let r = b.credit(Asset::Native, 1);
    assert_eq!(r, Err(ContractError::BalanceOverflow));
    assert_eq!(b.native, u128::MAX);
}

#[test]
fn debit_native_subtracts_exactly() {
    let mut b = GenericBalance::new();
    assert!(b.credit(Asset::Native, 100).is_ok());
    assert!(b.debit(Asset::Native, 60).is_ok());
    assert_eq!(b.native, 40);
}

#[test]
fn debit_native_insufficient_fails_unchanged() {
    let mut b = GenericBalance::new();
    assert!(b.credit(Asset::Native, 10).is_ok());
    let r = b.debit(Asset::Native, 11);
    assert_eq!(r, Err(ContractError::InsufficientFunds));
    assert_eq!(b.native, 10);
}

#[test]
fn credit_token_creates_and_accumulates() {
    let mut b = GenericBalance::new();
    assert!(b.credit(Asset::Token(5), 7).is_ok());
    assert!(b.credit(Asset::Token(9), 2).is_ok());
    assert!(b.credit(Asset::Token(5), 3).is_ok());
    assert_eq!(b.tokens.len(), 2);
    let amount_5 = b.tokens.iter().find(|t| t.token_id == 5).unwrap().amount;
    let amount_9 = b.tokens.iter().find(|t| t.token_id == 9).unwrap().amount;
    assert_eq!(amount_5, 10);
    assert_eq!(amount_9, 2);
    assert_eq!(b.native, 0);
}

#[test]
fn debit_token_subtracts_only_that_kind() {
    let mut b = GenericBalance::new();
    assert!(b.credit(Asset::Token(5), 10).is_ok());
    assert!(b.credit(Asset::Token(9), 4).is_ok());
    assert!(b.debit(Asset::Token(5), 10).is_ok());
    let amount_5 = b.tokens.iter().find(|t| t.token_id == 5).unwrap().amount;
    let amount_9 = b.tokens.iter().find(|t| t.token_id == 9).unwrap().amount;
    assert_eq!(amount_5, 0);
    assert_eq!(amount_9, 4);
    assert!(!b.is_zero());
    assert!(b.debit(Asset::Token(9), 4).is_ok());
    assert!(b.is_zero());
}

#[test]
fn debit_absent_token_fails_unless_zero() {
    let mut b = GenericBalance::new();
    assert_eq!(b.debit(Asset::Token(3), 1), Err(ContractError::InsufficientFunds));
    assert!(b.debit(Asset::Token(3), 0).is_ok());
    assert!(b.is_zero());
}

#[test]
fn has_coins_checks_denom_and_amount() {
    let wallet = vec![
        Coin { denom: 1, amount: 50 },
        Coin { denom: 2, amount: 500 },
    ];
    assert!(has_coins(&wallet, 1, 50));
    assert!(has_coins(&wallet, 2, 499));
    assert!(!has_coins(&wallet, 1, 51));
    assert!(!has_coins(&wallet, 3, 1));
    let empty: Vec<Coin> = vec![];
    assert!(!has_coins(&empty, 1, 1));
}

#[test]
fn duplicate_copies_the_value() {
    let mut b = GenericBalance::new();
    assert!(b.credit(Asset::Native, 8).is_ok());
    assert!(b.credit(Asset::Token(4), 9).is_ok());
    let c = b.duplicate();
    assert_eq!(c, b);
    assert!(b.debit(Asset::Native, 8).is_ok());
    assert_eq!(c.native, 8);
}
