//! Snapshot lookups on append-only balance histories.

use union_gov::history::{lookup_history, lookup_history_at, peek_history, BalanceEntry};
use union_gov::shares::SharesToken;
use union_gov::types::Principal;

fn entry(timestamp: i64, balance: u64) -> BalanceEntry {
    BalanceEntry { timestamp, balance }
}

#[test]
fn lookup_empty_history_is_zero() {
    let h: Vec<BalanceEntry> = Vec::new();
    assert_eq!(lookup_history_at(&h, 5), Some(0));
    assert_eq!(peek_history(&h), 0);
}

#[test]
fn lookup_before_first_entry_is_zero() {
    let h = vec![entry(10, 7), entry(20, 9)];
    assert_eq!(lookup_history_at(&h, 9), Some(0));
}

#[test]
fn lookup_at_or_after_last_entry_is_last_balance() {
    let h = vec![entry(10, 7), entry(20, 9)];
    assert_eq!(lookup_history_at(&h, 20), Some(9));
    assert_eq!(lookup_history_at(&h, 1000), Some(9));
}

#[test]
fn lookup_between_entries_takes_entry_in_force() {
    let h = vec![entry(10, 7), entry(20, 9), entry(30, 4)];
    assert_eq!(lookup_history_at(&h, 15), Some(7));
    assert_eq!(lookup_history_at(&h, 20), Some(9));
    assert_eq!(lookup_history_at(&h, 29), Some(9));
    assert_eq!(lookup_history_at(&h, 30), Some(4));
}

#[test]
fn binary_search_finds_greatest_index_at_or_before() {
    let h = vec![entry(1, 1), entry(5, 2), entry(5, 3), entry(9, 4)];
    let r = lookup_history(&h, 0, 4, 7);
    assert_eq!(r, Some(2));
}

#[test]
fn shares_historical_balances() {
    // Mint 10 at t=1, mint 20 at t=5, burn 15 at t=10, then read snapshots.
    let a = Principal { id: 1 };
    let mut token = SharesToken::new(String::from("shares"));
    token.mint(&a, 10, 1);
    token.mint(&a, 20, 5);
    assert_eq!(token.burn(&a, 15, 10), Ok(()));
    assert_eq!(token.balance_of_at(&a, Some(3)), 10);
    assert_eq!(token.balance_of_at(&a, Some(7)), 30);
    assert_eq!(token.balance_of_at(&a, Some(12)), 15);
    assert_eq!(token.balance_of_at(&a, Some(0)), 0);
    assert_eq!(token.balance_of_at(&a, None), 15);
    assert_eq!(token.total_supply_at(Some(3)), 10);
    assert_eq!(token.total_supply_at(Some(12)), 15);
}

#[test]
fn shares_send_moves_balance_and_keeps_supply() {
    let a = Principal { id: 1 };
    let b = Principal { id: 2 };
    let mut token = SharesToken::new(String::from("shares"));
    token.mint(&a, 100, 1);
    assert_eq!(token.send(&a, &b, 40, 2), Ok(()));
    assert_eq!(token.balance_of_at(&a, None), 60);
    assert_eq!(token.balance_of_at(&b, None), 40);
    assert_eq!(token.total_supply_at(None), 100);
}

#[test]
fn shares_send_with_insufficient_balance_fails() {
    let a = Principal { id: 1 };
    let b = Principal { id: 2 };
    let mut token = SharesToken::new(String::from("shares"));
    token.mint(&a, 5, 1);
    assert_eq!(
        token.send(&a, &b, 6, 2),
        Err(union_gov::shares::Error::InsufficientBalance)
    );
    assert_eq!(token.balance_of_at(&a, None), 5);
    assert_eq!(token.balance_of_at(&b, None), 0);
}
