//! The voting-power ledger fed by token move events.

use union_gov::fungible::{Controllers, FungibleToken, FungibleTokenInfo};
use union_gov::listeners::{Filter, OnMoveListener};
use union_gov::types::{Principal, RemoteCallEndpoint, TokenMoveEvent};
use union_gov::vpl::{Error, GlobalVotingPowerLedger};

fn ft_actor() -> Principal {
    Principal { id: 100 }
}

#[test]
fn register_twice_fails() {
    let mut vpl = GlobalVotingPowerLedger::new();
    assert_eq!(vpl.register_emitter(ft_actor()), Ok(()));
    assert_eq!(
        vpl.register_emitter(ft_actor()),
        Err(Error::EmitterAlreadyRegistered)
    );
}

#[test]
fn unregister_unknown_emitter_fails() {
    let mut vpl = GlobalVotingPowerLedger::new();
    assert_eq!(
        vpl.unregister_emitter(ft_actor()),
        Err(Error::EmitterNotRegistered)
    );
}

#[test]
fn queries_on_unknown_emitter_fail() {
    let vpl = GlobalVotingPowerLedger::new();
    let a = Principal { id: 1 };
    assert_eq!(
        vpl.get_voting_power_at(&ft_actor(), &a, 5),
        Err(Error::EmitterNotRegistered)
    );
    assert_eq!(
        vpl.get_total_voting_power_at(&ft_actor(), 5),
        Err(Error::EmitterNotRegistered)
    );
}

#[test]
fn events_from_unknown_emitters_are_rejected() {
    let mut vpl = GlobalVotingPowerLedger::new();
    let a = Principal { id: 1 };
    let ev = TokenMoveEvent { from: None, to: Some(a), qty: 100 };
    assert_eq!(
        vpl.handle_on_move(ft_actor(), &ev, 7),
        Err(Error::EmitterNotRegistered)
    );
}

#[test]
fn mint_fans_out_to_the_voting_power_ledger() {
    // The ledger subscribes to the fungible token's moves; a mint of 100
    // then shows up as 100 voting power for the recipient and the total.
    let a = Principal { id: 1 };
    let minter = Principal { id: 9 };
    let mut ft = FungibleToken::new(
        FungibleTokenInfo {
            name: String::from("union"),
            symbol: String::from("UNI"),
            decimals: 8,
        },
        Controllers::single(Some(minter)),
    );
    ft.subscribe_on_move(
        OnMoveListener {
            filter: Filter { from: None, to: None },
            endpoint: RemoteCallEndpoint {
                canister_id: Principal { id: 200 },
                method_name: String::from("handle_on_move"),
            },
        },
        minter,
    )
    .unwrap();
    let mut vpl = GlobalVotingPowerLedger::new();
    vpl.register_emitter(ft_actor()).unwrap();

    let now: i64 = 42;
    let dispatch = ft.mint(a, 100, minter).unwrap();
    assert_eq!(dispatch.listeners.len(), 1);
    assert_eq!(dispatch.listeners[0].endpoint.method_name, "handle_on_move");
    // The host delivers the event to each matched listener; the ledger
    // consumes it as the registered emitter.
    vpl.handle_on_move(ft_actor(), &dispatch.event, now).unwrap();

    assert_eq!(vpl.get_voting_power_at(&ft_actor(), &a, now), Ok(100));
    assert_eq!(vpl.get_total_voting_power_at(&ft_actor(), now), Ok(100));
}

#[test]
fn transfer_repoints_voting_power() {
    let a = Principal { id: 1 };
    let b = Principal { id: 2 };
    let mut vpl = GlobalVotingPowerLedger::new();
    vpl.register_emitter(ft_actor()).unwrap();
    let mint = TokenMoveEvent { from: None, to: Some(a), qty: 100 };
    vpl.handle_on_move(ft_actor(), &mint, 1).unwrap();
    let send = TokenMoveEvent { from: Some(a), to: Some(b), qty: 30 };
    vpl.handle_on_move(ft_actor(), &send, 2).unwrap();
    assert_eq!(vpl.get_voting_power_at(&ft_actor(), &a, 2), Ok(70));
    assert_eq!(vpl.get_voting_power_at(&ft_actor(), &b, 2), Ok(30));
    assert_eq!(vpl.get_total_voting_power_at(&ft_actor(), 2), Ok(100));
    // The snapshot before the transfer is untouched history.
    assert_eq!(vpl.get_voting_power_at(&ft_actor(), &a, 1), Ok(100));
    assert_eq!(vpl.get_voting_power_at(&ft_actor(), &b, 1), Ok(0));
}

#[test]
fn burn_shrinks_account_and_total() {
    let a = Principal { id: 1 };
    let mut vpl = GlobalVotingPowerLedger::new();
    vpl.register_emitter(ft_actor()).unwrap();
    let mint = TokenMoveEvent { from: None, to: Some(a), qty: 100 };
    vpl.handle_on_move(ft_actor(), &mint, 1).unwrap();
    let burn = TokenMoveEvent { from: Some(a), to: None, qty: 40 };
    vpl.handle_on_move(ft_actor(), &burn, 2).unwrap();
    assert_eq!(vpl.get_voting_power_at(&ft_actor(), &a, 2), Ok(60));
    assert_eq!(vpl.get_total_voting_power_at(&ft_actor(), 2), Ok(60));
}
