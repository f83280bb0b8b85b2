use pallet_dex::{AccountId, Ledger, LedgerError};

const ALICE: AccountId = AccountId::Wallet(1);
const BOB: AccountId = AccountId::Wallet(2);

#[test]
fn mint_requires_a_created_asset() {
    let mut l = Ledger::new();
    assert_eq!(l.mint_into(1, ALICE, 5), Err(LedgerError::UnknownAsset));
    assert_eq!(l.create_asset(1), Ok(()));
    assert_eq!(l.create_asset(1), Err(LedgerError::AssetExists));
    assert_eq!(l.mint_into(1, ALICE, 5), Ok(()));
    assert_eq!(l.balance(1, ALICE), 5);
    assert_eq!(l.balance(1, BOB), 0);
    assert_eq!(l.mint_into(1, ALICE, u128::MAX), Err(LedgerError::Overflow));
    assert_eq!(l.balance(1, ALICE), 5);
}

#[test]
fn transfer_and_burn() {
    let mut l = Ledger::new();
    l.create_asset(3).unwrap();
    l.mint_into(3, ALICE, 10).unwrap();
    assert_eq!(l.transfer(3, ALICE, BOB, 11), Err(LedgerError::InsufficientBalance));
    assert_eq!(l.transfer(3, ALICE, BOB, 4), Ok(()));
    assert_eq!((l.balance(3, ALICE), l.balance(3, BOB)), (6, 4));
    assert_eq!(l.transfer(3, ALICE, ALICE, 6), Ok(()));
    assert_eq!(l.balance(3, ALICE), 6);
    assert_eq!(l.burn_from(3, BOB, 5), Err(LedgerError::InsufficientBalance));
    assert_eq!(l.burn_from(3, BOB, 4), Ok(()));
    assert_eq!(l.balance(3, BOB), 0);
    let copy = l.duplicate();
    assert_eq!(copy.balance(3, ALICE), 6);
}

#[test]
fn transfer_overflow_is_refused() {
    let mut l = Ledger::new();
    l.create_asset(3).unwrap();
    l.mint_into(3, ALICE, u128::MAX).unwrap();
    l.mint_into(3, BOB, 1).unwrap();
    assert_eq!(l.transfer(3, BOB, ALICE, 1), Err(LedgerError::Overflow));
    assert_eq!(l.balance(3, BOB), 1);
}
