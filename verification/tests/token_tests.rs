//! The fungible and claim ledgers: supply invariants, round trips and the
//! controller gates.

use union_gov::claim;
use union_gov::fungible;
use union_gov::fungible::{
    Controllers, FungibleToken, FungibleTokenInfo, FungibleTokenTransferEntry,
};
use union_gov::types::Principal;

fn minter() -> Principal {
    Principal { id: 10 }
}

fn fresh_fungible() -> FungibleToken {
    FungibleToken::new(
        FungibleTokenInfo {
            name: String::from("union"),
            symbol: String::from("UNI"),
            decimals: 8,
        },
        Controllers::single(Some(minter())),
    )
}

fn sum_of_balances(t: &FungibleToken) -> u64 {
    let mut sum: u64 = 0;
    let mut i = 0;
    while i < t.balances.len() {
        sum += t.balances[i].1;
        i += 1;
    }
    sum
}

#[test]
fn supply_equals_sum_of_balances() {
    let a = Principal { id: 1 };
    let b = Principal { id: 2 };
    let mut t = fresh_fungible();
    t.mint(a, 100, minter()).unwrap();
    t.mint(b, 50, minter()).unwrap();
    t.send(a, b, 30).unwrap();
    t.burn(b, 20).unwrap();
    assert_eq!(t.total_supply, 130);
    assert_eq!(sum_of_balances(&t), t.total_supply);
}

#[test]
fn mint_then_burn_restores_the_ledger() {
    let a = Principal { id: 1 };
    let b = Principal { id: 2 };
    let mut t = fresh_fungible();
    t.mint(a, 100, minter()).unwrap();
    let balances_before = t.balances.clone();
    let supply_before = t.total_supply;
    t.mint(b, 40, minter()).unwrap();
    t.burn(b, 40).unwrap();
    assert_eq!(t.balances, balances_before);
    assert_eq!(t.total_supply, supply_before);
}

#[test]
fn burn_more_than_balance_fails_and_changes_nothing() {
    let a = Principal { id: 1 };
    let mut t = fresh_fungible();
    t.mint(a, 10, minter()).unwrap();
    let r = t.burn(a, 11);
    assert!(matches!(r, Err(fungible::Error::InsufficientBalance)));
    assert_eq!(t.balance_of(&a), 10);
    assert_eq!(t.total_supply, 10);
}

#[test]
fn mint_is_gated_by_the_mint_controller() {
    let a = Principal { id: 1 };
    let stranger = Principal { id: 99 };
    let mut t = fresh_fungible();
    let r = t.mint(a, 10, stranger);
    assert!(matches!(r, Err(fungible::Error::AccessDenied)));
    assert_eq!(t.total_supply, 0);
}

#[test]
fn locked_controller_forbids_the_operation() {
    let a = Principal { id: 1 };
    let mut t = FungibleToken::new(
        FungibleTokenInfo {
            name: String::from("union"),
            symbol: String::from("UNI"),
            decimals: 8,
        },
        Controllers::single(None),
    );
    let r = t.mint(a, 10, minter());
    assert!(matches!(r, Err(fungible::Error::ForbiddenOperation)));
}

#[test]
fn self_send_keeps_balance_and_supply() {
    let a = Principal { id: 1 };
    let mut t = fresh_fungible();
    t.mint(a, 10, minter()).unwrap();
    t.send(a, a, 4).unwrap();
    assert_eq!(t.balance_of(&a), 10);
    assert_eq!(t.total_supply, 10);
}

#[test]
fn mint_emits_the_mint_move_event() {
    let a = Principal { id: 1 };
    let mut t = fresh_fungible();
    let en = t.mint(a, 100, minter()).unwrap();
    assert_eq!(en.event.from, None);
    assert_eq!(en.event.to, Some(a));
    assert_eq!(en.event.qty, 100);
    assert_eq!(en.listeners.len(), 0);
}

#[test]
fn batched_mint_applies_every_entry_in_order() {
    let a = Principal { id: 1 };
    let b = Principal { id: 2 };
    let mut t = fresh_fungible();
    let entries = vec![
        FungibleTokenTransferEntry { to: a, qty: 5 },
        FungibleTokenTransferEntry { to: b, qty: 7 },
        FungibleTokenTransferEntry { to: a, qty: 3 },
    ];
    let results = t.mint_batch(&entries, minter());
    assert_eq!(results.len(), 3);
    assert!(results.iter().all(|r| r.is_ok()));
    assert_eq!(t.balance_of(&a), 8);
    assert_eq!(t.balance_of(&b), 7);
    assert_eq!(t.total_supply, 15);
}

#[test]
fn batched_mint_by_a_stranger_refuses_every_entry() {
    let a = Principal { id: 1 };
    let mut t = fresh_fungible();
    let entries = vec![FungibleTokenTransferEntry { to: a, qty: 5 }];
    let results = t.mint_batch(&entries, Principal { id: 99 });
    assert!(matches!(results[0], Err(fungible::Error::AccessDenied)));
    assert_eq!(t.total_supply, 0);
}

#[test]
fn a_failing_batch_entry_does_not_stop_the_rest() {
    let a = Principal { id: 1 };
    let b = Principal { id: 2 };
    let mut t = fresh_fungible();
    t.mint(a, 10, minter()).unwrap();
    // The second send exceeds what the first one left; the third still runs.
    let entries = vec![
        FungibleTokenTransferEntry { to: b, qty: 6 },
        FungibleTokenTransferEntry { to: b, qty: 6 },
        FungibleTokenTransferEntry { to: b, qty: 4 },
    ];
    let results = t.send_batch(a, &entries);
    assert!(results[0].is_ok());
    assert!(matches!(results[1], Err(fungible::Error::InsufficientBalance)));
    assert!(results[2].is_ok());
    assert_eq!(t.balance_of(&a), 0);
    assert_eq!(t.balance_of(&b), 10);
    assert_eq!(t.total_supply, 10);
}

#[test]
fn batched_burn_validates_each_entry_against_the_running_balance() {
    let a = Principal { id: 1 };
    let mut t = fresh_fungible();
    t.mint(a, 10, minter()).unwrap();
    let results = t.burn_batch(a, &vec![4, 8, 6]);
    assert!(results[0].is_ok());
    assert!(matches!(results[1], Err(fungible::Error::InsufficientBalance)));
    assert!(results[2].is_ok());
    assert_eq!(t.balance_of(&a), 0);
    assert_eq!(t.total_supply, 0);
}

#[test]
fn batched_issue_refuses_a_duplicate_inside_the_batch() {
    let a = Principal { id: 1 };
    let b = Principal { id: 2 };
    let mut t = fresh_claim();
    let results = t.issue_batch(&vec![a, b, a], claim_controller());
    assert!(results[0].is_ok());
    assert!(results[1].is_ok());
    assert!(matches!(results[2], Err(claim::Error::AlreadyHasClaim)));
    assert_eq!(t.total_supply, 2);
}

#[test]
fn batched_revoke_runs_each_entry_on_its_own() {
    let a = Principal { id: 1 };
    let b = Principal { id: 2 };
    let mut t = fresh_claim();
    t.issue(a, claim_controller()).unwrap();
    let results = t.revoke_batch(&vec![a, b], claim_controller());
    assert!(results[0].is_ok());
    assert!(matches!(results[1], Err(claim::Error::DoesNotHaveClaimYet)));
    assert_eq!(t.total_supply, 0);
}

fn claim_controller() -> Principal {
    Principal { id: 20 }
}

fn fresh_claim() -> claim::ClaimToken {
    claim::ClaimToken::new(
        claim::ClaimTokenInfo { name: String::from("member badge") },
        claim::Controllers::single(Some(claim_controller())),
    )
}

#[test]
fn claim_supply_counts_holders() {
    let a = Principal { id: 1 };
    let b = Principal { id: 2 };
    let mut t = fresh_claim();
    t.issue(a, claim_controller()).unwrap();
    t.issue(b, claim_controller()).unwrap();
    assert_eq!(t.total_supply, 2);
    assert_eq!(t.claims.len() as u64, t.total_supply);
    t.revoke(a, claim_controller()).unwrap();
    assert_eq!(t.total_supply, 1);
    assert_eq!(t.claims.len() as u64, t.total_supply);
    assert!(!t.has_claim(&a));
    assert!(t.has_claim(&b));
}

#[test]
fn issuing_twice_fails() {
    let a = Principal { id: 1 };
    let mut t = fresh_claim();
    t.issue(a, claim_controller()).unwrap();
    let r = t.issue(a, claim_controller());
    assert!(matches!(r, Err(claim::Error::AlreadyHasClaim)));
    assert_eq!(t.total_supply, 1);
}

#[test]
fn revoking_without_claim_fails() {
    let a = Principal { id: 1 };
    let mut t = fresh_claim();
    let r = t.revoke(a, claim_controller());
    assert!(matches!(r, Err(claim::Error::DoesNotHaveClaimYet)));
}
