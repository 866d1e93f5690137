//! The voting state machine and the policy-gated manager.

use union_gov::config::{
    Interval, PossibleVoter, RemoteCallVotingParams, VotingCharacter, VotingConfig,
    VotingConfigType,
};
use union_gov::manager::VotingManager;
use union_gov::ratio::{is_passing_threshold, Ratio};
use union_gov::types::{Controlled, Principal, RemoteCallEndpoint, RemoteCallPayload, VotingId};
use union_gov::voting::{
    Error, NewVotingParams, UpdateVotingParams, Vote, Voting, VotingStatus, WhoCanVote,
};

fn pct(n: u32) -> Ratio {
    Ratio { num: n, den: 100 }
}

fn endpoint() -> RemoteCallEndpoint {
    RemoteCallEndpoint {
        canister_id: Principal { id: 50 },
        method_name: String::from("mint"),
    }
}

fn payload_entry() -> RemoteCallPayload {
    RemoteCallPayload {
        endpoint: endpoint(),
        idl_str_args: String::from("(42 : nat64)"),
        payment: 0,
    }
}

fn new_params(approval: Ratio, duration: Option<i64>) -> NewVotingParams {
    NewVotingParams {
        union_wallet: Principal { id: 7 },
        approval,
        rejection: pct(51),
        quorum: pct(30),
        consensus: pct(50),
        duration,
        title: String::from("fund the node"),
        description: String::from("mint 42 to the operations account"),
        payload: vec![payload_entry()],
        can_vote: WhoCanVote::Member,
    }
}

fn no_update() -> UpdateVotingParams {
    UpdateVotingParams {
        approval: None,
        rejection: None,
        quorum: None,
        consensus: None,
        duration: None,
        title: None,
        description: None,
        payload: None,
        can_vote: None,
    }
}

#[test]
fn intervals_are_inclusive_on_both_ends() {
    let window = Interval { min: 10i64, max: 20i64 };
    assert!(window.contains(10));
    assert!(window.contains(20));
    assert!(!window.contains(9));
    assert!(!window.contains(21));
    let share = Interval { min: pct(50), max: pct(90) };
    assert!(share.contains(pct(50)));
    assert!(share.contains(pct(90)));
    assert!(share.contains(Ratio { num: 2, den: 3 }));
    assert!(!share.contains(pct(49)));
    assert!(!share.contains(pct(91)));
}

#[test]
fn threshold_comparison_is_exact() {
    assert!(is_passing_threshold(51, 100, pct(51)));
    assert!(!is_passing_threshold(50, 100, pct(51)));
    assert!(is_passing_threshold(1, 3, Ratio { num: 1, den: 3 }));
    assert!(!is_passing_threshold(1, 3, Ratio { num: 34, den: 100 }));
    // With nothing to take a share of, only a positive amount passes.
    assert!(!is_passing_threshold(0, 0, pct(51)));
    assert!(is_passing_threshold(1, 0, pct(51)));
}

#[test]
fn sixty_percent_for_approves_and_executes_once() {
    // approval = rejection = 0.51 of 100 voting power; one For vote of 60.
    let proposer = Principal { id: 1 };
    let voter = Principal { id: 2 };
    let mut v = Voting::new(proposer, 0, new_params(pct(51), Some(1000)));
    assert_eq!(v.status, VotingStatus::Proposal);
    v.vote(&voter, 60, 100, Vote::For, 10).unwrap();
    assert_eq!(v.status, VotingStatus::Approved);
    // Executing inside the window fails; after the window it succeeds once.
    assert!(matches!(v.execute(500), Err(Error::VotingIsNotYetFinished)));
    v.execute(1001).unwrap();
    assert_eq!(v.status, VotingStatus::Executed);
    let again = v.execute(1002);
    assert!(matches!(again, Err(Error::VotingAlreadyExecuted)));
    assert_eq!(v.status, VotingStatus::Executed);
}

#[test]
fn against_votes_reject() {
    let proposer = Principal { id: 1 };
    let voter = Principal { id: 2 };
    let mut v = Voting::new(proposer, 0, new_params(pct(51), None));
    v.vote(&voter, 60, 100, Vote::Against, 10).unwrap();
    assert_eq!(v.status, VotingStatus::Rejected);
    assert!(matches!(v.execute(20), Err(Error::VotingIsRejected)));
}

#[test]
fn vote_after_expiry_fails_and_changes_nothing() {
    let proposer = Principal { id: 1 };
    let voter = Principal { id: 2 };
    let mut v = Voting::new(proposer, 0, new_params(pct(51), Some(100)));
    let r = v.vote(&voter, 60, 100, Vote::For, 101);
    assert!(matches!(r, Err(Error::VotingAlreadyFinished)));
    assert_eq!(v.status, VotingStatus::Proposal);
    assert_eq!(v.voting_power_for, 0);
    assert_eq!(v.voters_for.len(), 0);
}

#[test]
fn changing_the_vote_takes_back_the_recorded_weight() {
    let proposer = Principal { id: 1 };
    let voter = Principal { id: 2 };
    let mut v = Voting::new(proposer, 0, new_params(pct(90), None));
    v.vote(&voter, 10, 100, Vote::For, 1).unwrap();
    assert_eq!(v.voting_power_for, 10);
    // The voter's power changed between the votes; exactly the recorded 10
    // is withdrawn before the 25 is counted on the other side.
    v.vote(&voter, 25, 100, Vote::Against, 2).unwrap();
    assert_eq!(v.voting_power_for, 0);
    assert_eq!(v.voting_power_against, 25);
    assert_eq!(v.voters_for.len(), 0);
    assert_eq!(v.voters_against.len(), 1);
    // Abstaining withdraws without recording anything.
    v.vote(&voter, 99, 100, Vote::Abstain, 3).unwrap();
    assert_eq!(v.voting_power_against, 0);
    assert_eq!(v.voters_against.len(), 0);
}

#[test]
fn update_with_nothing_supplied_only_restarts_the_window() {
    let proposer = Principal { id: 1 };
    let mut v = Voting::new(proposer, 0, new_params(pct(51), Some(1000)));
    let before_title = v.title.clone();
    let before_approval = v.approval;
    v.update(no_update(), 77).unwrap();
    assert_eq!(v.updated_at, 77);
    assert_eq!(v.created_at, 0);
    assert_eq!(v.title, before_title);
    assert_eq!(v.approval, before_approval);
    assert_eq!(v.status, VotingStatus::Proposal);
}

#[test]
fn update_after_start_fails() {
    let proposer = Principal { id: 1 };
    let voter = Principal { id: 2 };
    let mut v = Voting::new(proposer, 0, new_params(pct(51), None));
    v.vote(&voter, 60, 100, Vote::For, 1).unwrap();
    let r = v.update(no_update(), 2);
    assert!(matches!(r, Err(Error::VotingAlreadyStarted)));
}

fn open_policy() -> RemoteCallVotingParams {
    RemoteCallVotingParams {
        approval: Interval { min: pct(50), max: pct(90) },
        rejection: Interval { min: pct(0), max: pct(100) },
        quorum: Interval { min: pct(0), max: pct(100) },
        consensus: Interval { min: pct(0), max: pct(100) },
        duration: None,
        can_vote: PossibleVoter::Any,
        can_create: VotingCharacter::All,
        can_delete: VotingCharacter::All,
        can_execute: VotingCharacter::All,
    }
}

fn manager_with_policy() -> VotingManager {
    let mut m = VotingManager::new();
    m.voting_configs.push((
        Principal { id: 7 },
        Controlled {
            data: VotingConfig { default: open_policy(), custom: Vec::new() },
            controller: None,
        },
    ));
    m
}

#[test]
fn policy_gate_blocks_off_range_proposal() {
    // The endpoint policy wants approval in [0.5, 0.9]; 0.3 is denied.
    let proposer = Principal { id: 1 };
    let mut m = manager_with_policy();
    let r = m.create_voting(proposer, 0, new_params(pct(30), None), true);
    assert!(matches!(r, Err(Error::VotingIsRejected)));
    let ok = m.create_voting(proposer, 0, new_params(pct(51), None), true);
    let id = ok.unwrap();
    assert_eq!(id.union_wallet, Principal { id: 7 });
    assert_eq!(id.idx, 0);
}

#[test]
fn endpoint_whitelist_gates_the_payload() {
    let proposer = Principal { id: 1 };
    let mut m = manager_with_policy();
    // A whitelist without the payload's endpoint denies the proposal.
    m.voting_config_types.push((
        Principal { id: 7 },
        Controlled {
            data: VotingConfigType::Whitelist(vec![RemoteCallEndpoint {
                canister_id: Principal { id: 51 },
                method_name: String::from("burn"),
            }]),
            controller: None,
        },
    ));
    let r = m.create_voting(proposer, 0, new_params(pct(51), None), true);
    assert!(matches!(r, Err(Error::VotingIsRejected)));
    // A gate that carries the payload endpoint admits the proposal.
    m.voting_config_types[0].1.data = VotingConfigType::Whitelist(vec![endpoint()]);
    let ok = m.create_voting(proposer, 0, new_params(pct(51), None), true);
    assert!(ok.is_ok());
}

#[test]
fn create_without_config_fails() {
    let proposer = Principal { id: 1 };
    let mut m = VotingManager::new();
    let r = m.create_voting(proposer, 0, new_params(pct(51), None), true);
    assert!(matches!(r, Err(Error::VotingConfigDoesNotExist)));
}

#[test]
fn manager_runs_a_voting_end_to_end() {
    let proposer = Principal { id: 1 };
    let voter = Principal { id: 2 };
    let mut m = manager_with_policy();
    let id = m
        .create_voting(proposer, 0, new_params(pct(51), Some(1000)), true)
        .unwrap();
    m.vote(id, &voter, 60, 100, Vote::For, 10).unwrap();
    assert_eq!(m.votings[0].1[0].status, VotingStatus::Approved);
    m.execute(id, 2000, proposer, true).unwrap();
    assert_eq!(m.votings[0].1[0].status, VotingStatus::Executed);
    let r = m.execute(id, 2001, proposer, true);
    assert!(matches!(r, Err(Error::VotingAlreadyExecuted)));
}

#[test]
fn delete_hands_the_voting_back() {
    let proposer = Principal { id: 1 };
    let mut m = manager_with_policy();
    let id = m
        .create_voting(proposer, 0, new_params(pct(51), None), true)
        .unwrap();
    let removed = m.delete_voting(id, proposer, true).unwrap();
    assert_eq!(removed.proposer, proposer);
    assert_eq!(m.votings[0].1.len(), 0);
    let r = m.delete_voting(id, proposer, true);
    assert!(matches!(r, Err(Error::VotingDoesNotExist)));
}

#[test]
fn delete_unknown_voting_fails() {
    let mut m = manager_with_policy();
    let r = m.delete_voting(
        VotingId { union_wallet: Principal { id: 7 }, idx: 3 },
        Principal { id: 1 },
        true,
    );
    assert!(matches!(r, Err(Error::VotingDoesNotExist)));
}
