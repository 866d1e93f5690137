//! The voting state machine: a proposal accumulates weighted votes, crosses
//! an approval or rejection threshold, and an approved voting is executed
//! exactly once.
//!
//! Transitions only move forward: `Proposal` to `Approved` or `Rejected`,
//! and `Approved` (or the reserved `Finished`) to `Executed`; see
//! [`status_le`].  Each voter's weight is recorded at vote time and exactly
//! that weight is taken back when the voter changes their mind.

use vstd::prelude::*;
use crate::types::{Principal, RemoteCallPayload, RemoteCallError, RemoteCallResult};
use crate::ratio::{Ratio, passes_threshold, is_passing_threshold};
use crate::assoc::{assoc_has_key, assoc_idx, assoc_unique, assoc_find, lemma_assoc_idx_at, lemma_assoc_push, lemma_assoc_remove};

verus! {

#[derive(Clone, Copy, PartialEq, Eq, Structural, Debug)]
pub enum VotingStatus {
    Proposal,
    Approved,
    Rejected,
    Finished,
    Executed,
}

#[derive(Clone, Copy, PartialEq, Eq, Structural, Debug)]
pub enum Vote {
    For,
    Against,
    Abstain,
}

#[derive(Debug)]
pub enum Error {
    VotingAlreadyFinished,
    VotingIsNotYetFinished,
    VotingAlreadyStarted,
    VotingIsRejected,
    VotingDoesNotExist,
    VotingThresholdError,
    VotingThresholdNotPassed,
    VotingAlreadyExecuted,
    CallerIsNotCreator,
    VotingExecutionError(RemoteCallError),
    VotingConfigDoesNotExist,
}

/// Who may place a vote on one particular voting.
#[derive(Debug)]
pub enum WhoCanVote {
    Member,
    ExactMember(Vec<Principal>),
}

/// One voter's record: the instant of the vote and the weight counted.
pub type VoterRecord = (i64, u64);

/// The votings' order on statuses: no transition goes backward.
pub open spec fn status_le(a: VotingStatus, b: VotingStatus) -> bool {
    ||| a == b
    ||| (a is Proposal && (b is Approved || b is Rejected))
    ||| (a is Approved && b is Executed)
    ||| (a is Finished && b is Executed)
}

/// The sum of the recorded voter weights.
pub open spec fn tally(s: Seq<(Principal, VoterRecord)>) -> int
    decreases s.len(),
{
    if s.len() == 0 {
        0
    } else {
        tally(s.drop_last()) + s.last().1.1
    }
}

pub proof fn lemma_tally_nonneg(s: Seq<(Principal, VoterRecord)>)
    ensures
        tally(s) >= 0,
    decreases s.len(),
{
    if s.len() > 0 {
        lemma_tally_nonneg(s.drop_last());
    }
}

pub proof fn lemma_tally_push(s: Seq<(Principal, VoterRecord)>, e: (Principal, VoterRecord))
    ensures
        tally(s.push(e)) == tally(s) + e.1.1,
{
    assert(s.push(e).drop_last() =~= s);
}

pub proof fn lemma_tally_remove(s: Seq<(Principal, VoterRecord)>, i: int)
    requires
        0 <= i < s.len(),
    ensures
        tally(s.remove(i)) == tally(s) - s[i].1.1,
    decreases s.len(),
{
    if i == s.len() - 1 {
        assert(s.remove(i) =~= s.drop_last());
    } else {
        assert(s.remove(i).drop_last() =~= s.drop_last().remove(i));
        assert(s.remove(i).last() == s.last());
        lemma_tally_remove(s.drop_last(), i);
    }
}

/// Every recorded weight is bounded by the tally.
pub proof fn lemma_tally_elem(s: Seq<(Principal, VoterRecord)>, i: int)
    requires
        0 <= i < s.len(),
    ensures
        s[i].1.1 <= tally(s),
    decreases s.len(),
{
    if i == s.len() - 1 {
        lemma_tally_nonneg(s.drop_last());
    } else {
        lemma_tally_elem(s.drop_last(), i);
    }
}

/// The voter roll after withdrawing one voter's record, if present.
pub open spec fn roll_without(s: Seq<(Principal, VoterRecord)>, voter: Principal) -> Seq<
    (Principal, VoterRecord),
> {
    if assoc_has_key(s, voter) {
        s.remove(assoc_idx(s, voter))
    } else {
        s
    }
}

/// The tally after withdrawing one voter's record, if present.
pub open spec fn tally_without(
    s: Seq<(Principal, VoterRecord)>,
    t: u64,
    voter: Principal,
) -> u64 {
    if assoc_has_key(s, voter) {
        (t - s[assoc_idx(s, voter)].1.1) as u64
    } else {
        t
    }
}

/// What a voting's parameters start from.
pub struct NewVotingParams {
    pub union_wallet: Principal,
    pub approval: Ratio,
    pub rejection: Ratio,
    pub quorum: Ratio,
    pub consensus: Ratio,
    pub duration: Option<i64>,
    pub title: String,
    pub description: String,
    pub payload: Vec<RemoteCallPayload>,
    pub can_vote: WhoCanVote,
}

/// An edit of a live proposal: only the supplied fields change.
pub struct UpdateVotingParams {
    pub approval: Option<Ratio>,
    pub rejection: Option<Ratio>,
    pub quorum: Option<Ratio>,
    pub consensus: Option<Ratio>,
    pub duration: Option<Option<i64>>,
    pub title: Option<String>,
    pub description: Option<String>,
    pub payload: Option<Vec<RemoteCallPayload>>,
    pub can_vote: Option<WhoCanVote>,
}

/// An edit that supplies nothing.
pub open spec fn update_params_all_none(p: UpdateVotingParams) -> bool {
    &&& p.approval is None
    &&& p.rejection is None
    &&& p.quorum is None
    &&& p.consensus is None
    &&& p.duration is None
    &&& p.title is None
    &&& p.description is None
    &&& p.payload is None
    &&& p.can_vote is None
}


/// Everything `vote` promises of the voting before and after the call.
pub open spec fn vote_outcome(
    pre: Voting,
    post: Voting,
    r: Result<(), Error>,
    voter: Principal,
    vote_voting_power: u64,
    total_voting_power: u64,
    vote: Vote,
    timestamp: i64,
) -> bool {
    &&& pre.expired_at(timestamp) ==> (r matches Err(e) && e is VotingAlreadyFinished
        && post == pre)
    &&& !pre.expired_at(timestamp) && pre.status is Rejected ==> (r matches Err(e)
        && e is VotingIsRejected && post == pre)
    &&& !pre.expired_at(timestamp) && pre.status is Executed ==> (r matches Err(e)
        && e is VotingAlreadyExecuted && post == pre)
    &&& !pre.expired_at(timestamp) && !(pre.status is Rejected) && !(pre.status is Executed)
        ==> ({
        let f1 = roll_without(pre.voters_for@, voter);
        let pf1 = tally_without(pre.voters_for@, pre.voting_power_for, voter);
        let a1 = if assoc_has_key(pre.voters_for@, voter) {
            pre.voters_against@
        } else {
            roll_without(pre.voters_against@, voter)
        };
        let pa1 = if assoc_has_key(pre.voters_for@, voter) {
            pre.voting_power_against
        } else {
            tally_without(pre.voters_against@, pre.voting_power_against, voter)
        };
        let f2 = if vote is For {
            f1.push((voter, (timestamp, vote_voting_power)))
        } else {
            f1
        };
        let pf2 = if vote is For {
            (pf1 + vote_voting_power) as u64
        } else {
            pf1
        };
        let a2 = if vote is Against {
            a1.push((voter, (timestamp, vote_voting_power)))
        } else {
            a1
        };
        let pa2 = if vote is Against {
            (pa1 + vote_voting_power) as u64
        } else {
            pa1
        };
        &&& r is Ok
        &&& post.voters_for@ == f2
        &&& post.voting_power_for == pf2
        &&& post.voters_against@ == a2
        &&& post.voting_power_against == pa2
        &&& post.status == (if pre.status is Proposal {
            if passes_threshold(pf2, total_voting_power, pre.approval) {
                VotingStatus::Approved
            } else if passes_threshold(pa2, total_voting_power, pre.rejection) {
                VotingStatus::Rejected
            } else {
                VotingStatus::Proposal
            }
        } else {
            pre.status
        })
        &&& post.updated_at == pre.updated_at
        &&& post.created_at == pre.created_at
        &&& post.duration == pre.duration
        &&& post.approval == pre.approval
        &&& post.rejection == pre.rejection
        &&& post.quorum == pre.quorum
        &&& post.consensus == pre.consensus
        &&& post.title == pre.title
        &&& post.description == pre.description
        &&& post.payload == pre.payload
        &&& post.execute_result == pre.execute_result
        &&& post.union_wallet == pre.union_wallet
        &&& post.proposer == pre.proposer
        &&& post.can_vote == pre.can_vote
    })
}

/// Everything `execute` promises of the voting before and after the call.
pub open spec fn execute_outcome(pre: Voting, post: Voting, r: Result<(), Error>, timestamp: i64) -> bool {
    &&& pre.still_running_at(timestamp) ==> (r matches Err(e) && e
        is VotingIsNotYetFinished && post == pre)
    &&& !pre.still_running_at(timestamp) && pre.status is Proposal ==> (r matches Err(e)
        && e is VotingThresholdNotPassed && post == pre)
    &&& !pre.still_running_at(timestamp) && pre.status is Executed ==> (r matches Err(e)
        && e is VotingAlreadyExecuted && post == pre)
    &&& !pre.still_running_at(timestamp) && pre.status is Rejected ==> (r matches Err(e)
        && e is VotingIsRejected && post == pre)
    &&& !pre.still_running_at(timestamp) && (pre.status is Approved || pre.status is Finished)
        ==> r is Ok && post == (Voting { status: VotingStatus::Executed, ..pre })
}

/// Everything `update` promises of the voting before and after the call.
pub open spec fn update_outcome(
    pre: Voting,
    post: Voting,
    r: Result<(), Error>,
    params: UpdateVotingParams,
    timestamp: i64,
) -> bool {
    &&& !(pre.status is Proposal) ==> (r matches Err(e) && e is VotingAlreadyStarted
        && post == pre)
    &&& pre.status is Proposal ==> {
        &&& r is Ok
        &&& post.approval == (match params.approval { Some(x) => x, None => pre.approval })
        &&& post.rejection == (match params.rejection { Some(x) => x, None => pre.rejection })
        &&& post.quorum == (match params.quorum { Some(x) => x, None => pre.quorum })
        &&& post.consensus == (match params.consensus { Some(x) => x, None => pre.consensus })
        &&& post.duration == (match params.duration { Some(x) => x, None => pre.duration })
        &&& post.title == (match params.title { Some(x) => x, None => pre.title })
        &&& post.description == (match params.description { Some(x) => x, None => pre.description })
        &&& post.payload == (match params.payload { Some(x) => x, None => pre.payload })
        &&& post.can_vote == (match params.can_vote { Some(x) => x, None => pre.can_vote })
        &&& post.updated_at == timestamp
        &&& post.created_at == pre.created_at
        &&& post.status == pre.status
        &&& post.voters_for == pre.voters_for
        &&& post.voting_power_for == pre.voting_power_for
        &&& post.voters_against == pre.voters_against
        &&& post.voting_power_against == pre.voting_power_against
        &&& post.execute_result == pre.execute_result
        &&& post.union_wallet == pre.union_wallet
        &&& post.proposer == pre.proposer
    }
    &&& pre.status is Proposal && update_params_all_none(params) ==> post == (Voting {
        updated_at: timestamp,
        ..pre
    })
}


/// The shape of a voting just created from `params` by `proposer`.
pub open spec fn fresh_voting(
    r: Voting,
    proposer: Principal,
    timestamp: i64,
    params: NewVotingParams,
) -> bool {
    &&& r.created_at == timestamp
    &&& r.updated_at == timestamp
    &&& r.can_vote == params.can_vote
    &&& r.approval == params.approval
    &&& r.rejection == params.rejection
    &&& r.quorum == params.quorum
    &&& r.consensus == params.consensus
    &&& r.duration == params.duration
    &&& r.title == params.title
    &&& r.description == params.description
    &&& r.payload == params.payload
    &&& r.execute_result@ == Seq::<RemoteCallResult>::empty()
    &&& r.union_wallet == params.union_wallet
    &&& r.proposer == proposer
    &&& r.status is Proposal
    &&& r.voters_for@ == Seq::<(Principal, VoterRecord)>::empty()
    &&& r.voting_power_for == 0
    &&& r.voters_against@ == Seq::<(Principal, VoterRecord)>::empty()
    &&& r.voting_power_against == 0
}

/// One voting: its window, thresholds, program, tallies and status.
pub struct Voting {
    pub created_at: i64,
    pub updated_at: i64,
    pub can_vote: WhoCanVote,
    pub approval: Ratio,
    pub rejection: Ratio,
    pub quorum: Ratio,
    pub consensus: Ratio,
    pub duration: Option<i64>,
    pub title: String,
    pub description: String,
    pub payload: Vec<RemoteCallPayload>,
    pub execute_result: Vec<RemoteCallResult>,
    pub union_wallet: Principal,
    pub proposer: Principal,
    pub status: VotingStatus,
    pub voters_for: Vec<(Principal, VoterRecord)>,
    pub voting_power_for: u64,
    pub voters_against: Vec<(Principal, VoterRecord)>,
    pub voting_power_against: u64,
}

impl Voting {
    /// Voting invariant: each voter is recorded at most once per side and
    /// each tally is the sum of its side's recorded weights.
    pub open spec fn wf(self) -> bool {
        &&& assoc_unique(self.voters_for@)
        &&& assoc_unique(self.voters_against@)
        &&& forall|p: Principal|
            !(assoc_has_key(self.voters_for@, p) && assoc_has_key(self.voters_against@, p))
        &&& self.voting_power_for == tally(self.voters_for@)
        &&& self.voting_power_against == tally(self.voters_against@)
    }

    /// Whether the voting window is already over at `timestamp`.
    pub open spec fn expired_at(self, timestamp: i64) -> bool {
        self.duration matches Some(d) && self.updated_at + d < timestamp
    }

    /// Whether the voting window is still running at `timestamp`.
    pub open spec fn still_running_at(self, timestamp: i64) -> bool {
        self.duration matches Some(d) && self.updated_at + d >= timestamp
    }

    /// A fresh voting in state `Proposal` with empty tallies.
    pub fn new(proposer: Principal, timestamp: i64, params: NewVotingParams) -> (r: Voting)
        ensures
            r.wf(),
            fresh_voting(r, proposer, timestamp, params),
    {
        Voting {
            created_at: timestamp,
            updated_at: timestamp,
            can_vote: params.can_vote,
            approval: params.approval,
            rejection: params.rejection,
            quorum: params.quorum,
            consensus: params.consensus,
            duration: params.duration,
            title: params.title,
            description: params.description,
            payload: params.payload,
            execute_result: Vec::new(),
            union_wallet: params.union_wallet,
            proposer,
            status: VotingStatus::Proposal,
            voters_for: Vec::new(),
            voting_power_for: 0,
            voters_against: Vec::new(),
            voting_power_against: 0,
        }
    }

    /// Withdraws the voter's previous record: the For side first, and the
    /// Against side only when the For side held none.
    fn remove_prev_vote(&mut self, voter: &Principal)
        requires
            old(self).wf(),
        ensures
            final(self).wf(),
            final(self).voters_for@ == roll_without(old(self).voters_for@, *voter),
            final(self).voting_power_for == tally_without(
                old(self).voters_for@,
                old(self).voting_power_for,
                *voter,
            ),
            final(self).voters_against@ == (if assoc_has_key(old(self).voters_for@, *voter) {
                old(self).voters_against@
            } else {
                roll_without(old(self).voters_against@, *voter)
            }),
            final(self).voting_power_against == (if assoc_has_key(
                old(self).voters_for@,
                *voter,
            ) {
                old(self).voting_power_against
            } else {
                tally_without(
                    old(self).voters_against@,
                    old(self).voting_power_against,
                    *voter,
                )
            }),
            final(self).status == old(self).status,
            final(self).created_at == old(self).created_at,
            final(self).updated_at == old(self).updated_at,
            final(self).duration == old(self).duration,
            final(self).approval == old(self).approval,
            final(self).rejection == old(self).rejection,
            final(self).quorum == old(self).quorum,
            final(self).consensus == old(self).consensus,
            final(self).title == old(self).title,
            final(self).description == old(self).description,
            final(self).payload == old(self).payload,
            final(self).execute_result == old(self).execute_result,
            final(self).union_wallet == old(self).union_wallet,
            final(self).proposer == old(self).proposer,
            final(self).can_vote == old(self).can_vote,
    {
        match assoc_find(&self.voters_for, *voter) {
            Some(i) => {
                proof {
                    lemma_assoc_idx_at(self.voters_for@, *voter, i as int);
                    lemma_tally_remove(self.voters_for@, i as int);
                    lemma_assoc_remove(self.voters_for@, i as int);
                    lemma_tally_nonneg(self.voters_for@.remove(i as int));
                }
                let weight = self.voters_for[i].1.1;
                self.voters_for.remove(i);
                self.voting_power_for = self.voting_power_for - weight;
            },
            None => {
                match assoc_find(&self.voters_against, *voter) {
                    Some(i) => {
                        proof {
                            lemma_assoc_idx_at(self.voters_against@, *voter, i as int);
                            lemma_tally_remove(self.voters_against@, i as int);
                            lemma_assoc_remove(self.voters_against@, i as int);
                            lemma_tally_nonneg(self.voters_against@.remove(i as int));
                        }
                        let weight = self.voters_against[i].1.1;
                        self.voters_against.remove(i);
                        self.voting_power_against = self.voting_power_against - weight;
                    },
                    None => {},
                }
            },
        }
    }

    /// Places or changes a vote.  Fails with `VotingAlreadyFinished` after
    /// the window expired, `VotingIsRejected` on a rejected voting and
    /// `VotingAlreadyExecuted` on an executed one, each leaving the voting
    /// unchanged.  Otherwise the voter's earlier record is withdrawn, a For
    /// or Against vote is recorded with weight `vote_voting_power`, and a
    /// voting still in `Proposal` is re-evaluated: rejection first, then
    /// approval, so approval wins when one vote crosses both thresholds.
    pub fn vote(
        &mut self,
        voter: &Principal,
        vote_voting_power: u64,
        total_voting_power: u64,
        vote: Vote,
        timestamp: i64,
    ) -> (r: Result<(), Error>)
        requires
            old(self).wf(),
            old(self).voting_power_for + vote_voting_power <= u64::MAX,
            old(self).voting_power_against + vote_voting_power <= u64::MAX,
        ensures
            final(self).wf(),
            status_le(old(self).status, final(self).status),
            vote_outcome(
                *old(self),
                *final(self),
                r,
                *voter,
                vote_voting_power,
                total_voting_power,
                vote,
                timestamp,
            ),
    {
        if let Some(d) = self.duration {
            if (self.updated_at as i128) + (d as i128) < (timestamp as i128) {
                return Err(Error::VotingAlreadyFinished);
            }
        }
        match self.status {
            VotingStatus::Rejected => {
                return Err(Error::VotingIsRejected);
            },
            VotingStatus::Executed => {
                return Err(Error::VotingAlreadyExecuted);
            },
            _ => {},
        }
        self.remove_prev_vote(voter);
        proof {
            if assoc_has_key(old(self).voters_for@, *voter) {
                lemma_tally_elem(old(self).voters_for@, assoc_idx(old(self).voters_for@, *voter));
            }
            if assoc_has_key(old(self).voters_against@, *voter) {
                lemma_tally_elem(
                    old(self).voters_against@,
                    assoc_idx(old(self).voters_against@, *voter),
                );
            }
        }
        match vote {
            Vote::Abstain => {},
            Vote::For => {
                proof {
                    lemma_tally_push(self.voters_for@, (*voter, (timestamp, vote_voting_power)));
                    lemma_roll_without_unique(old(self).voters_for@, *voter);
                }
                self.voters_for.push((*voter, (timestamp, vote_voting_power)));
                self.voting_power_for = self.voting_power_for + vote_voting_power;
            },
            Vote::Against => {
                proof {
                    lemma_tally_push(
                        self.voters_against@,
                        (*voter, (timestamp, vote_voting_power)),
                    );
                    lemma_roll_without_unique(old(self).voters_against@, *voter);
                }
                self.voters_against.push((*voter, (timestamp, vote_voting_power)));
                self.voting_power_against = self.voting_power_against + vote_voting_power;
            },
        }
        if let VotingStatus::Proposal = self.status {
            if is_passing_threshold(
                self.voting_power_against,
                total_voting_power,
                self.rejection,
            ) {
                self.status = VotingStatus::Rejected;
            }
            if is_passing_threshold(self.voting_power_for, total_voting_power, self.approval) {
                self.status = VotingStatus::Approved;
            }
        }
        Ok(())
    }

    /// Marks an approved voting `Executed`.  Fails with
    /// `VotingIsNotYetFinished` while the window still runs,
    /// `VotingThresholdNotPassed` on a bare proposal, `VotingAlreadyExecuted`
    /// the second time, and `VotingIsRejected` on a rejected voting; every
    /// failure leaves the voting unchanged.
    pub fn execute(&mut self, timestamp: i64) -> (r: Result<(), Error>)
        ensures
            status_le(old(self).status, final(self).status),
            execute_outcome(*old(self), *final(self), r, timestamp),
    {
        if let Some(d) = self.duration {
            if (self.updated_at as i128) + (d as i128) >= (timestamp as i128) {
                return Err(Error::VotingIsNotYetFinished);
            }
        }
        match self.status {
            VotingStatus::Proposal => Err(Error::VotingThresholdNotPassed),
            VotingStatus::Executed => Err(Error::VotingAlreadyExecuted),
            VotingStatus::Rejected => Err(Error::VotingIsRejected),
            _ => {
                self.status = VotingStatus::Executed;
                Ok(())
            },
        }
    }

    /// Edits a voting still in `Proposal`: every supplied field replaces
    /// the old one, nothing else moves, and the voting window restarts from
    /// `timestamp`.  In particular an edit that supplies nothing is a no-op
    /// except for `updated_at`.
    pub fn update(&mut self, params: UpdateVotingParams, timestamp: i64) -> (r: Result<(), Error>)
        ensures
            status_le(old(self).status, final(self).status),
            update_outcome(*old(self), *final(self), r, params, timestamp),    {
        match self.status {
            VotingStatus::Proposal => {},
            _ => {
                return Err(Error::VotingAlreadyStarted);
            },
        }
        if let Some(a) = params.approval {
            self.approval = a;
        }
        if let Some(x) = params.rejection {
            self.rejection = x;
        }
        if let Some(x) = params.quorum {
            self.quorum = x;
        }
        if let Some(x) = params.consensus {
            self.consensus = x;
        }
        if let Some(x) = params.duration {
            self.duration = x;
        }
        if let Some(x) = params.title {
            self.title = x;
        }
        if let Some(x) = params.description {
            self.description = x;
        }
        if let Some(x) = params.payload {
            self.payload = x;
        }
        if let Some(x) = params.can_vote {
            self.can_vote = x;
        }
        self.updated_at = timestamp;
        Ok(())
    }

    /// Stores what the wallet executor returned for this voting's program.
    pub fn store_execute_result(&mut self, results: Vec<RemoteCallResult>)
        ensures
            *final(self) == (Voting { execute_result: results, ..*old(self) }),
    {
        self.execute_result = results;
    }
}

/// Withdrawing a voter keeps the roll free of duplicates.
proof fn lemma_roll_without_unique(s: Seq<(Principal, VoterRecord)>, voter: Principal)
    requires
        assoc_unique(s),
    ensures
        assoc_unique(roll_without(s, voter)),
        !assoc_has_key(roll_without(s, voter), voter),
{
    if assoc_has_key(s, voter) {
        let i = assoc_idx(s, voter);
        assert(0 <= i < s.len() && s[i].0 == voter);
        lemma_assoc_remove(s, i);
    } else {
    }
}

} // verus!
