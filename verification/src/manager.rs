//! The voting manager: per-wallet voting lists, per-wallet policy and raw
//! endpoint gates, and the event-listener table, with every mutating
//! operation gated by the wallet's policy.

use vstd::prelude::*;
use vstd::pervasive::VecAdditionalExecFns;
use crate::types::{Principal, RemoteCallEndpoint, VotingId};
use crate::types::Controlled;
use crate::ratio::Ratio;
use crate::assoc::{
    assoc_has_key, assoc_idx, assoc_unique, assoc_get, assoc_find, lemma_assoc_idx_at,
    lemma_assoc_push, lemma_assoc_untouched,
};
use crate::voting::{
    Voting, VotingStatus, Vote, Error, WhoCanVote, NewVotingParams, UpdateVotingParams,
    fresh_voting, vote_outcome, execute_outcome, update_outcome,
};
use crate::config::{
    VotingConfig, VotingConfigType, config_type_allows, possible_voter_admits, character_admits,
};

verus! {

/// The kinds of voting events subscribers can listen for.
#[derive(Clone, Copy, PartialEq, Eq, Structural, Hash, Debug)]
pub enum VotingEventType {
    VotingCreated,
    VotingUpdated,
    StatusChanged,
    VotePlaced,
}

pub struct VotingCreatedEventPayload {
    pub id: VotingId,
}

pub struct VotingUpdatedEventPayload {
    pub id: VotingId,
}

pub struct StatusChangedEventPayload {
    pub id: VotingId,
    pub status: VotingStatus,
}

pub struct VotePlacedEventPayload {
    pub id: VotingId,
    pub vote: Vote,
    pub voting_power: u64,
    pub voter: Principal,
}

/// One voting event, ready for fan-out to the registered listeners.
pub enum VotingEvent {
    VotingCreated(VotingCreatedEventPayload),
    VotingUpdated(VotingUpdatedEventPayload),
    StateChanged(StatusChangedEventPayload),
    VotePlaced(VotePlacedEventPayload),
}

/// The voting manager's whole state.
pub struct VotingManager {
    pub votings: Vec<(Principal, Vec<Voting>)>,
    pub membership_guards: Vec<(Principal, Controlled<Option<Principal>>)>,
    pub voting_config_types: Vec<(Principal, Controlled<VotingConfigType>)>,
    pub voting_configs: Vec<(Principal, Controlled<VotingConfig>)>,
    pub event_listeners: Vec<(VotingEventType, Vec<RemoteCallEndpoint>)>,
}

/// A placeholder voting used while an entry is temporarily swapped out.
fn empty_voting() -> (r: Voting)
    ensures
        r.wf(),
{
    Voting::new(
        Principal { id: 0 },
        0,
        NewVotingParams {
            union_wallet: Principal { id: 0 },
            approval: Ratio { num: 0, den: 1 },
            rejection: Ratio { num: 0, den: 1 },
            quorum: Ratio { num: 0, den: 1 },
            consensus: Ratio { num: 0, den: 1 },
            duration: None,
            title: String::new(),
            description: String::new(),
            payload: Vec::new(),
            can_vote: WhoCanVote::Member,
        },
    )
}

impl VotingManager {
    /// Manager invariant: distinct keys everywhere, well-formed policies
    /// and well-formed votings.
    pub open spec fn wf(self) -> bool {
        &&& assoc_unique(self.votings@)
        &&& assoc_unique(self.membership_guards@)
        &&& assoc_unique(self.voting_config_types@)
        &&& assoc_unique(self.voting_configs@)
        &&& assoc_unique(self.event_listeners@)
        &&& forall|i: int|
            0 <= i < self.voting_configs@.len() ==> (#[trigger] self.voting_configs@[i]).1.data.wf()
        &&& forall|i: int, k: int|
            0 <= i < self.votings@.len() && 0 <= k < self.votings@[i].1@.len()
                ==> (#[trigger] self.votings@[i].1@[k]).wf()
    }

    /// The votings of one wallet, oldest first.
    pub open spec fn wallet_votings(self, w: Principal) -> Seq<Voting> {
        if assoc_has_key(self.votings@, w) {
            self.votings@[assoc_idx(self.votings@, w)].1@
        } else {
            Seq::empty()
        }
    }

    pub open spec fn voting_exists(self, id: VotingId) -> bool {
        id.idx < self.wallet_votings(id.union_wallet).len()
    }

    pub open spec fn voting_at(self, id: VotingId) -> Voting {
        self.wallet_votings(id.union_wallet)[id.idx as int]
    }

    pub open spec fn has_config(self, w: Principal) -> bool {
        assoc_has_key(self.voting_configs@, w)
    }

    pub open spec fn config_of(self, w: Principal) -> VotingConfig {
        self.voting_configs@[assoc_idx(self.voting_configs@, w)].1.data
    }

    pub open spec fn has_config_type(self, w: Principal) -> bool {
        assoc_has_key(self.voting_config_types@, w)
    }

    pub open spec fn config_type_of(self, w: Principal) -> VotingConfigType {
        self.voting_config_types@[assoc_idx(self.voting_config_types@, w)].1.data
    }

    /// The raw endpoint gate passes: there is no gate, or it allows every
    /// payload endpoint.
    pub open spec fn gate_allows(self, w: Principal, params: NewVotingParams) -> bool {
        self.has_config_type(w) ==> config_type_allows(self.config_type_of(w), params.payload@)
    }

    /// The wallet's policy admits creating this voting.
    pub open spec fn create_allowed(
        self,
        params: NewVotingParams,
        proposer: Principal,
        is_member: bool,
    ) -> bool {
        forall|i: int|
            0 <= i < params.payload@.len() ==> self.config_of(params.union_wallet).create_ok_at(
                params,
                proposer,
                is_member,
                i,
            )
    }

    /// A fresh manager with no wallets and no listeners.
    pub fn new() -> (r: VotingManager)
        ensures
            r.wf(),
            r.votings@ == Seq::<(Principal, Vec<Voting>)>::empty(),
            r.voting_configs@ == Seq::<(Principal, Controlled<VotingConfig>)>::empty(),
            r.voting_config_types@ == Seq::<(Principal, Controlled<VotingConfigType>)>::empty(),
            r.membership_guards@ == Seq::<(Principal, Controlled<Option<Principal>>)>::empty(),
            r.event_listeners@ == Seq::<(VotingEventType, Vec<RemoteCallEndpoint>)>::empty(),
    {
        VotingManager {
            votings: Vec::new(),
            membership_guards: Vec::new(),
            voting_config_types: Vec::new(),
            voting_configs: Vec::new(),
            event_listeners: Vec::new(),
        }
    }

    /// Creates a voting under its wallet, gated first by the wallet's raw
    /// endpoint list and then by its policy; returns the id under which the
    /// voting is stored.
    pub fn create_voting(
        &mut self,
        proposer: Principal,
        timestamp: i64,
        params: NewVotingParams,
        is_proposer_a_member: bool,
    ) -> (r: Result<VotingId, Error>)
        requires
            old(self).wf(),
            old(self).wallet_votings(params.union_wallet).len() < usize::MAX,
        ensures
            final(self).wf(),
            !old(self).has_config(params.union_wallet) ==> (r matches Err(e) && e
                is VotingConfigDoesNotExist && *final(self) == *old(self)),
            old(self).has_config(params.union_wallet) && !old(self).gate_allows(
                params.union_wallet,
                params,
            ) ==> (r matches Err(e) && e is VotingIsRejected && *final(self) == *old(self)),
            old(self).has_config(params.union_wallet) && old(self).gate_allows(
                params.union_wallet,
                params,
            ) && !old(self).create_allowed(params, proposer, is_proposer_a_member) ==> (r
                matches Err(e) && e is VotingIsRejected && *final(self) == *old(self)),
            old(self).has_config(params.union_wallet) && old(self).gate_allows(
                params.union_wallet,
                params,
            ) && old(self).create_allowed(params, proposer, is_proposer_a_member) ==> ({
                let w = params.union_wallet;
                &&& r == Ok::<VotingId, Error>(
                    VotingId { union_wallet: w, idx: old(self).wallet_votings(w).len() as usize },
                )
                &&& final(self).wallet_votings(w).len() == old(self).wallet_votings(w).len() + 1
                &&& final(self).wallet_votings(w).drop_last() =~= old(self).wallet_votings(w)
                &&& fresh_voting(final(self).wallet_votings(w).last(), proposer, timestamp, params)
                &&& forall|w2: Principal|
                    w2 != w ==> final(self).wallet_votings(w2) == old(self).wallet_votings(w2)
                &&& final(self).voting_configs@ == old(self).voting_configs@
                &&& final(self).voting_config_types@ == old(self).voting_config_types@
                &&& final(self).membership_guards@ == old(self).membership_guards@
                &&& final(self).event_listeners@ == old(self).event_listeners@
            }),
    {
        let w = params.union_wallet;
        let ci = match assoc_find(&self.voting_configs, w) {
            None => {
                return Err(Error::VotingConfigDoesNotExist);
            },
            Some(i) => i,
        };
        proof {
            lemma_assoc_idx_at(self.voting_configs@, w, ci as int);
            assert((#[trigger] self.voting_configs@[ci as int]).1.data.wf());
        }
        match assoc_find(&self.voting_config_types, w) {
            None => {},
            Some(ti) => {
                proof {
                    lemma_assoc_idx_at(self.voting_config_types@, w, ti as int);
                }
                if !self.voting_config_types[ti].1.data.is_allowed_to_create(&params) {
                    return Err(Error::VotingIsRejected);
                }
            },
        }
        if !self.voting_configs[ci].1.data.is_allowed_to_create(
            &params,
            &proposer,
            is_proposer_a_member,
        ) {
            return Err(Error::VotingIsRejected);
        }
        let ghost pre = *self;
        let voting = Voting::new(proposer, timestamp, params);
        match assoc_find(&self.votings, w) {
            Some(wi) => {
                proof {
                    lemma_assoc_idx_at(self.votings@, w, wi as int);
                }
                let mut wpair: (Principal, Vec<Voting>) = (Principal { id: 0 }, Vec::new());
                self.votings.set_and_swap(wi, &mut wpair);
                let idx = wpair.1.len();
                wpair.1.push(voting);
                wpair.0 = w;
                self.votings.set_and_swap(wi, &mut wpair);
                proof {
                    lemma_assoc_idx_at(self.votings@, w, wi as int);
                    lemma_assoc_untouched(pre.votings@, self.votings@, w, wi as int);
                    assert forall|w2: Principal|
                        w2 != w implies self.wallet_votings(w2) == pre.wallet_votings(w2) by {
                        assert(assoc_get(self.votings@, w2) == assoc_get(pre.votings@, w2));
                    }
                    assert(self.wallet_votings(w).drop_last() =~= pre.wallet_votings(w));
                    assert forall|i: int, k: int|
                        0 <= i < self.votings@.len() && 0 <= k < self.votings@[i].1@.len()
                            implies (#[trigger] self.votings@[i].1@[k]).wf() by {
                        if i == wi as int {
                            if k < pre.votings@[i].1@.len() {
                                assert(pre.votings@[i].1@[k].wf());
                            }
                        } else {
                            assert(self.votings@[i] == pre.votings@[i]);
                            assert(pre.votings@[i].1@[k].wf());
                        }
                    }
                }
                Ok(VotingId { union_wallet: w, idx })
            },
            None => {
                let mut list: Vec<Voting> = Vec::new();
                list.push(voting);
                proof {
                    lemma_assoc_push(self.votings@, (w, list));
                }
                self.votings.push((w, list));
                proof {
                    lemma_assoc_idx_at(self.votings@, w, pre.votings@.len() as int);
                    lemma_assoc_untouched(
                        pre.votings@,
                        self.votings@,
                        w,
                        pre.votings@.len() as int,
                    );
                    assert forall|w2: Principal|
                        w2 != w implies self.wallet_votings(w2) == pre.wallet_votings(w2) by {
                        assert(assoc_get(self.votings@, w2) == assoc_get(pre.votings@, w2));
                    }
                    assert(pre.wallet_votings(w) =~= Seq::<Voting>::empty());
                    assert(self.wallet_votings(w).drop_last() =~= pre.wallet_votings(w));
                    assert forall|i: int, k: int|
                        0 <= i < self.votings@.len() && 0 <= k < self.votings@[i].1@.len()
                            implies (#[trigger] self.votings@[i].1@[k]).wf() by {
                        if i < pre.votings@.len() {
                            assert(self.votings@[i] == pre.votings@[i]);
                            assert(pre.votings@[i].1@[k].wf());
                        }
                    }
                }
                Ok(VotingId { union_wallet: w, idx: 0 })
            },
        }
    }

    /// Whether the wallet's policy admits this voter on this voting.
    pub open spec fn vote_allowed(self, id: VotingId, voter: Principal) -> bool {
        let v = self.voting_at(id);
        forall|i: int|
            0 <= i < v.payload@.len() ==> possible_voter_admits(
                self.config_of(v.union_wallet).policy_of(
                    (#[trigger] v.payload@[i]).endpoint@,
                ).can_vote,
                voter,
                v.can_vote,
            )
    }

    /// Places a vote on a stored voting, policy permitting; the voting
    /// itself then transitions exactly as [`crate::voting::vote_outcome`]
    /// describes.
    pub fn vote(
        &mut self,
        voting_id: VotingId,
        voter: &Principal,
        vote_voting_power: u64,
        total_voting_power: u64,
        vote: Vote,
        timestamp: i64,
    ) -> (r: Result<(), Error>)
        requires
            old(self).wf(),
            old(self).voting_exists(voting_id) ==> old(self).voting_at(
                voting_id,
            ).voting_power_for + vote_voting_power <= u64::MAX && old(self).voting_at(
                voting_id,
            ).voting_power_against + vote_voting_power <= u64::MAX,
        ensures
            final(self).wf(),
            !old(self).voting_exists(voting_id) ==> (r matches Err(e) && e is VotingDoesNotExist
                && *final(self) == *old(self)),
            old(self).voting_exists(voting_id) && !old(self).has_config(
                old(self).voting_at(voting_id).union_wallet,
            ) ==> (r matches Err(e) && e is VotingConfigDoesNotExist && *final(self) == *old(
                self,
            )),
            old(self).voting_exists(voting_id) && old(self).has_config(
                old(self).voting_at(voting_id).union_wallet,
            ) && !old(self).vote_allowed(voting_id, *voter) ==> (r matches Err(e) && e
                is VotingIsRejected && *final(self) == *old(self)),
            old(self).voting_exists(voting_id) && old(self).has_config(
                old(self).voting_at(voting_id).union_wallet,
            ) && old(self).vote_allowed(voting_id, *voter) ==> ({
                let w = voting_id.union_wallet;
                &&& vote_outcome(
                    old(self).voting_at(voting_id),
                    final(self).voting_at(voting_id),
                    r,
                    *voter,
                    vote_voting_power,
                    total_voting_power,
                    vote,
                    timestamp,
                )
                &&& final(self).wallet_votings(w) == old(self).wallet_votings(w).update(
                    voting_id.idx as int,
                    final(self).voting_at(voting_id),
                )
                &&& forall|w2: Principal|
                    w2 != w ==> final(self).wallet_votings(w2) == old(self).wallet_votings(w2)
                &&& final(self).voting_configs@ == old(self).voting_configs@
                &&& final(self).voting_config_types@ == old(self).voting_config_types@
                &&& final(self).membership_guards@ == old(self).membership_guards@
                &&& final(self).event_listeners@ == old(self).event_listeners@
            }),
    {
        let w = voting_id.union_wallet;
        let wi = match assoc_find(&self.votings, w) {
            None => {
                return Err(Error::VotingDoesNotExist);
            },
            Some(i) => i,
        };
        proof {
            lemma_assoc_idx_at(self.votings@, w, wi as int);
        }
        if voting_id.idx >= self.votings[wi].1.len() {
            return Err(Error::VotingDoesNotExist);
        }
        let vw = self.votings[wi].1[voting_id.idx].union_wallet;
        let ci = match assoc_find(&self.voting_configs, vw) {
            None => {
                return Err(Error::VotingConfigDoesNotExist);
            },
            Some(i) => i,
        };
        proof {
            lemma_assoc_idx_at(self.voting_configs@, vw, ci as int);
            assert((#[trigger] self.voting_configs@[ci as int]).1.data.wf());
        }
        if !self.voting_configs[ci].1.data.is_allowed_to_vote(
            voter,
            &self.votings[wi].1[voting_id.idx],
        ) {
            return Err(Error::VotingIsRejected);
        }
        let ghost pre = *self;
        let mut wpair: (Principal, Vec<Voting>) = (Principal { id: 0 }, Vec::new());
        self.votings.set_and_swap(wi, &mut wpair);
        let mut v = empty_voting();
        wpair.1.set_and_swap(voting_id.idx, &mut v);
        proof {
            assert((#[trigger] pre.votings@[wi as int].1@[voting_id.idx as int]).wf());
        }
        let res = v.vote(voter, vote_voting_power, total_voting_power, vote, timestamp);
        wpair.1.set_and_swap(voting_id.idx, &mut v);
        wpair.0 = w;
        self.votings.set_and_swap(wi, &mut wpair);
        proof {
            assert(self.votings@[wi as int].1@ =~= pre.votings@[wi as int].1@.update(
                voting_id.idx as int,
                self.votings@[wi as int].1@[voting_id.idx as int],
            ));
            self.lemma_after_slot_update(pre, w, wi as int, voting_id.idx as int);
        }
        res
    }

    /// Whether the wallet's policy admits this edit by this updater.
    pub open spec fn update_allowed(
        self,
        id: VotingId,
        params: UpdateVotingParams,
        updater: Principal,
    ) -> bool {
        let v = self.voting_at(id);
        &&& v.proposer == updater
        &&& forall|i: int|
            0 <= i < VotingConfig::update_endpoints(params, v).len() ==> self.config_of(
                v.union_wallet,
            ).update_ok_at(
                params,
                (#[trigger] VotingConfig::update_endpoints(params, v)[i]).endpoint@,
            )
    }

    /// Edits a stored voting, policy permitting; the voting itself then
    /// transitions exactly as [`crate::voting::update_outcome`] describes.
    pub fn update_voting(
        &mut self,
        voting_id: VotingId,
        params: UpdateVotingParams,
        timestamp: i64,
        caller: Principal,
    ) -> (r: Result<(), Error>)
        requires
            old(self).wf(),
        ensures
            final(self).wf(),
            !old(self).voting_exists(voting_id) ==> (r matches Err(e) && e is VotingDoesNotExist
                && *final(self) == *old(self)),
            old(self).voting_exists(voting_id) && !old(self).has_config(
                old(self).voting_at(voting_id).union_wallet,
            ) ==> (r matches Err(e) && e is VotingConfigDoesNotExist && *final(self) == *old(
                self,
            )),
            old(self).voting_exists(voting_id) && old(self).has_config(
                old(self).voting_at(voting_id).union_wallet,
            ) && !old(self).update_allowed(voting_id, params, caller) ==> (r matches Err(e) && e
                is VotingConfigDoesNotExist && *final(self) == *old(self)),
            old(self).voting_exists(voting_id) && old(self).has_config(
                old(self).voting_at(voting_id).union_wallet,
            ) && old(self).update_allowed(voting_id, params, caller) ==> ({
                let w = voting_id.union_wallet;
                &&& update_outcome(
                    old(self).voting_at(voting_id),
                    final(self).voting_at(voting_id),
                    r,
                    params,
                    timestamp,
                )
                &&& final(self).wallet_votings(w) == old(self).wallet_votings(w).update(
                    voting_id.idx as int,
                    final(self).voting_at(voting_id),
                )
                &&& forall|w2: Principal|
                    w2 != w ==> final(self).wallet_votings(w2) == old(self).wallet_votings(w2)
                &&& final(self).voting_configs@ == old(self).voting_configs@
                &&& final(self).voting_config_types@ == old(self).voting_config_types@
                &&& final(self).membership_guards@ == old(self).membership_guards@
                &&& final(self).event_listeners@ == old(self).event_listeners@
            }),
    {
        let w = voting_id.union_wallet;
        let wi = match assoc_find(&self.votings, w) {
            None => {
                return Err(Error::VotingDoesNotExist);
            },
            Some(i) => i,
        };
        proof {
            lemma_assoc_idx_at(self.votings@, w, wi as int);
        }
        if voting_id.idx >= self.votings[wi].1.len() {
            return Err(Error::VotingDoesNotExist);
        }
        let vw = self.votings[wi].1[voting_id.idx].union_wallet;
        let ci = match assoc_find(&self.voting_configs, vw) {
            None => {
                return Err(Error::VotingConfigDoesNotExist);
            },
            Some(i) => i,
        };
        proof {
            lemma_assoc_idx_at(self.voting_configs@, vw, ci as int);
            assert((#[trigger] self.voting_configs@[ci as int]).1.data.wf());
        }
        if !self.voting_configs[ci].1.data.is_allowed_to_update(
            &params,
            &caller,
            &self.votings[wi].1[voting_id.idx],
        ) {
            return Err(Error::VotingConfigDoesNotExist);
        }
        let ghost pre = *self;
        let mut wpair: (Principal, Vec<Voting>) = (Principal { id: 0 }, Vec::new());
        self.votings.set_and_swap(wi, &mut wpair);
        let mut v = empty_voting();
        wpair.1.set_and_swap(voting_id.idx, &mut v);
        proof {
            assert((#[trigger] pre.votings@[wi as int].1@[voting_id.idx as int]).wf());
        }
        let res = v.update(params, timestamp);
        wpair.1.set_and_swap(voting_id.idx, &mut v);
        wpair.0 = w;
        self.votings.set_and_swap(wi, &mut wpair);
        proof {
            assert(self.votings@[wi as int].1@ =~= pre.votings@[wi as int].1@.update(
                voting_id.idx as int,
                self.votings@[wi as int].1@[voting_id.idx as int],
            ));
            self.lemma_after_slot_update(pre, w, wi as int, voting_id.idx as int);
        }
        res
    }

    /// Whether the wallet's policy admits this executer.
    pub open spec fn execute_allowed(self, id: VotingId, executer: Principal, is_member: bool) -> bool {
        let v = self.voting_at(id);
        forall|i: int|
            0 <= i < v.payload@.len() ==> character_admits(
                self.config_of(v.union_wallet).policy_of(
                    (#[trigger] v.payload@[i]).endpoint@,
                ).can_execute,
                executer,
                is_member,
            )
    }

    /// Marks a stored voting executed, policy permitting; the voting itself
    /// then transitions exactly as [`crate::voting::execute_outcome`]
    /// describes.
    pub fn execute(
        &mut self,
        voting_id: VotingId,
        timestamp: i64,
        caller: Principal,
        is_caller_a_member: bool,
    ) -> (r: Result<(), Error>)
        requires
            old(self).wf(),
        ensures
            final(self).wf(),
            !old(self).voting_exists(voting_id) ==> (r matches Err(e) && e is VotingDoesNotExist
                && *final(self) == *old(self)),
            old(self).voting_exists(voting_id) && !old(self).has_config(
                old(self).voting_at(voting_id).union_wallet,
            ) ==> (r matches Err(e) && e is VotingConfigDoesNotExist && *final(self) == *old(
                self,
            )),
            old(self).voting_exists(voting_id) && old(self).has_config(
                old(self).voting_at(voting_id).union_wallet,
            ) && !old(self).execute_allowed(voting_id, caller, is_caller_a_member) ==> (r
                matches Err(e) && e is VotingIsRejected && *final(self) == *old(self)),
            old(self).voting_exists(voting_id) && old(self).has_config(
                old(self).voting_at(voting_id).union_wallet,
            ) && old(self).execute_allowed(voting_id, caller, is_caller_a_member) ==> ({
                let w = voting_id.union_wallet;
                &&& execute_outcome(
                    old(self).voting_at(voting_id),
                    final(self).voting_at(voting_id),
                    r,
                    timestamp,
                )
                &&& final(self).wallet_votings(w) == old(self).wallet_votings(w).update(
                    voting_id.idx as int,
                    final(self).voting_at(voting_id),
                )
                &&& forall|w2: Principal|
                    w2 != w ==> final(self).wallet_votings(w2) == old(self).wallet_votings(w2)
                &&& final(self).voting_configs@ == old(self).voting_configs@
                &&& final(self).voting_config_types@ == old(self).voting_config_types@
                &&& final(self).membership_guards@ == old(self).membership_guards@
                &&& final(self).event_listeners@ == old(self).event_listeners@
            }),
    {
        let w = voting_id.union_wallet;
        let wi = match assoc_find(&self.votings, w) {
            None => {
                return Err(Error::VotingDoesNotExist);
            },
            Some(i) => i,
        };
        proof {
            lemma_assoc_idx_at(self.votings@, w, wi as int);
        }
        if voting_id.idx >= self.votings[wi].1.len() {
            return Err(Error::VotingDoesNotExist);
        }
        let vw = self.votings[wi].1[voting_id.idx].union_wallet;
        let ci = match assoc_find(&self.voting_configs, vw) {
            None => {
                return Err(Error::VotingConfigDoesNotExist);
            },
            Some(i) => i,
        };
        proof {
            lemma_assoc_idx_at(self.voting_configs@, vw, ci as int);
            assert((#[trigger] self.voting_configs@[ci as int]).1.data.wf());
        }
        if !self.voting_configs[ci].1.data.is_allowed_to_execute(
            &caller,
            &self.votings[wi].1[voting_id.idx],
            is_caller_a_member,
        ) {
            return Err(Error::VotingIsRejected);
        }
        let ghost pre = *self;
        let mut wpair: (Principal, Vec<Voting>) = (Principal { id: 0 }, Vec::new());
        self.votings.set_and_swap(wi, &mut wpair);
        let mut v = empty_voting();
        wpair.1.set_and_swap(voting_id.idx, &mut v);
        proof {
            assert((#[trigger] pre.votings@[wi as int].1@[voting_id.idx as int]).wf());
        }
        let res = v.execute(timestamp);
        wpair.1.set_and_swap(voting_id.idx, &mut v);
        wpair.0 = w;
        self.votings.set_and_swap(wi, &mut wpair);
        proof {
            assert(v.wf()) by {
                assert(pre.votings@[wi as int].1@[voting_id.idx as int].wf());
            }
            assert(self.votings@[wi as int].1@ =~= pre.votings@[wi as int].1@.update(
                voting_id.idx as int,
                self.votings@[wi as int].1@[voting_id.idx as int],
            ));
            self.lemma_after_slot_update(pre, w, wi as int, voting_id.idx as int);
        }
        res
    }

    /// Whether the wallet's policy admits this deleter.
    pub open spec fn delete_allowed(self, id: VotingId, deleter: Principal, is_member: bool) -> bool {
        let v = self.voting_at(id);
        forall|i: int|
            0 <= i < v.payload@.len() ==> character_admits(
                self.config_of(v.union_wallet).policy_of(
                    (#[trigger] v.payload@[i]).endpoint@,
                ).can_delete,
                deleter,
                is_member,
            )
    }

    /// Deletes a stored voting, policy permitting, and hands it back.
    pub fn delete_voting(
        &mut self,
        voting_id: VotingId,
        caller: Principal,
        is_caller_a_member: bool,
    ) -> (r: Result<Voting, Error>)
        requires
            old(self).wf(),
        ensures
            final(self).wf(),
            !old(self).voting_exists(voting_id) ==> (r matches Err(e) && e is VotingDoesNotExist
                && *final(self) == *old(self)),
            old(self).voting_exists(voting_id) && !old(self).has_config(
                old(self).voting_at(voting_id).union_wallet,
            ) ==> (r matches Err(e) && e is VotingConfigDoesNotExist && *final(self) == *old(
                self,
            )),
            old(self).voting_exists(voting_id) && old(self).has_config(
                old(self).voting_at(voting_id).union_wallet,
            ) && !old(self).delete_allowed(voting_id, caller, is_caller_a_member) ==> (r
                matches Err(e) && e is VotingConfigDoesNotExist && *final(self) == *old(self)),
            old(self).voting_exists(voting_id) && old(self).has_config(
                old(self).voting_at(voting_id).union_wallet,
            ) && old(self).delete_allowed(voting_id, caller, is_caller_a_member) ==> ({
                let w = voting_id.union_wallet;
                &&& r matches Ok(v) && v == old(self).voting_at(voting_id)
                &&& final(self).wallet_votings(w) == old(self).wallet_votings(w).remove(
                    voting_id.idx as int,
                )
                &&& forall|w2: Principal|
                    w2 != w ==> final(self).wallet_votings(w2) == old(self).wallet_votings(w2)
                &&& final(self).voting_configs@ == old(self).voting_configs@
                &&& final(self).voting_config_types@ == old(self).voting_config_types@
                &&& final(self).membership_guards@ == old(self).membership_guards@
                &&& final(self).event_listeners@ == old(self).event_listeners@
            }),
    {
        let w = voting_id.union_wallet;
        let wi = match assoc_find(&self.votings, w) {
            None => {
                return Err(Error::VotingDoesNotExist);
            },
            Some(i) => i,
        };
        proof {
            lemma_assoc_idx_at(self.votings@, w, wi as int);
        }
        if voting_id.idx >= self.votings[wi].1.len() {
            return Err(Error::VotingDoesNotExist);
        }
        let vw = self.votings[wi].1[voting_id.idx].union_wallet;
        let ci = match assoc_find(&self.voting_configs, vw) {
            None => {
                return Err(Error::VotingConfigDoesNotExist);
            },
            Some(i) => i,
        };
        proof {
            lemma_assoc_idx_at(self.voting_configs@, vw, ci as int);
            assert((#[trigger] self.voting_configs@[ci as int]).1.data.wf());
        }
        if !self.voting_configs[ci].1.data.is_allowed_to_delete(
            &caller,
            &self.votings[wi].1[voting_id.idx],
            is_caller_a_member,
        ) {
            return Err(Error::VotingConfigDoesNotExist);
        }
        let ghost pre = *self;
        let mut wpair: (Principal, Vec<Voting>) = (Principal { id: 0 }, Vec::new());
        self.votings.set_and_swap(wi, &mut wpair);
        let removed = wpair.1.remove(voting_id.idx);
        wpair.0 = w;
        self.votings.set_and_swap(wi, &mut wpair);
        proof {
            assert(forall|j: int|
                0 <= j < self.votings@.len() ==> self.votings@[j].0 == pre.votings@[j].0);
            assert(assoc_unique(self.votings@));
            lemma_assoc_idx_at(pre.votings@, w, wi as int);
            lemma_assoc_idx_at(self.votings@, w, wi as int);
            lemma_assoc_untouched(pre.votings@, self.votings@, w, wi as int);
            assert forall|w2: Principal|
                w2 != w implies self.wallet_votings(w2) == pre.wallet_votings(w2) by {
                assert(assoc_get(self.votings@, w2) == assoc_get(pre.votings@, w2));
            }
            assert forall|i: int, k: int|
                0 <= i < self.votings@.len() && 0 <= k < self.votings@[i].1@.len()
                    implies (#[trigger] self.votings@[i].1@[k]).wf() by {
                if i == wi as int {
                    if k < voting_id.idx as int {
                        assert(self.votings@[i].1@[k] == pre.votings@[i].1@[k]);
                    } else {
                        assert(self.votings@[i].1@[k] == pre.votings@[i].1@[k + 1]);
                    }
                    assert(pre.wf());
                } else {
                    assert(self.votings@[i] == pre.votings@[i]);
                    assert(pre.votings@[i].1@[k].wf());
                }
            }
        }
        Ok(removed)
    }

    /// The endpoints subscribed to one event type, as copies.
    pub fn get_listeners(&self, event_type: VotingEventType) -> (r: Vec<RemoteCallEndpoint>)
        ensures
            !assoc_has_key(self.event_listeners@, event_type) ==> r@.len() == 0,
            assoc_has_key(self.event_listeners@, event_type) && assoc_unique(
                self.event_listeners@,
            ) ==> ({
                let stored = self.event_listeners@[assoc_idx(self.event_listeners@, event_type)].1;
                &&& r@.len() == stored@.len()
                &&& forall|k: int| 0 <= k < stored@.len() ==> (#[trigger] r@[k])@ == stored@[k]@
            }),
    {
        let mut i: usize = 0;
        let mut found: Option<usize> = None;
        while i < self.event_listeners.len()
            invariant
                i <= self.event_listeners@.len(),
                match found {
                    Some(b) => b < self.event_listeners@.len()
                        && self.event_listeners@[b as int].0 == event_type,
                    None => forall|j: int|
                        0 <= j < i ==> self.event_listeners@[j].0 != event_type,
                },
            decreases self.event_listeners@.len() - i,
        {
            if found.is_none() && self.event_listeners[i].0 == event_type {
                found = Some(i);
            }
            i = i + 1;
        }
        match found {
            None => {
                proof {
                    if assoc_has_key(self.event_listeners@, event_type) {
                        let j = choose|j: int|
                            0 <= j < self.event_listeners@.len()
                                && self.event_listeners@[j].0 == event_type;
                        assert(self.event_listeners@[j].0 != event_type);
                    }
                }
                Vec::new()
            },
            Some(b) => {
                let stored = &self.event_listeners[b].1;
                let mut out: Vec<RemoteCallEndpoint> = Vec::new();
                let mut k: usize = 0;
                while k < stored.len()
                    invariant
                        k <= stored@.len(),
                        out@.len() == k,
                        forall|j: int| 0 <= j < k ==> (#[trigger] out@[j])@ == stored@[j]@,
                    decreases stored@.len() - k,
                {
                    out.push(stored[k].clone());
                    k = k + 1;
                }
                proof {
                    if assoc_unique(self.event_listeners@) {
                        lemma_assoc_idx_at(self.event_listeners@, event_type, b as int);
                    }
                }
                out
            },
        }
    }

    /// Rebuilds the manager invariant and the frame conditions after the
    /// voting at one slot was replaced.
    proof fn lemma_after_slot_update(self, pre: VotingManager, w: Principal, wi: int, idx: int)
        requires
            pre.wf(),
            0 <= wi < pre.votings@.len(),
            pre.votings@[wi].0 == w,
            0 <= idx < pre.votings@[wi].1@.len(),
            self.votings@.len() == pre.votings@.len(),
            self.votings@[wi].0 == w,
            self.votings@[wi].1@ == pre.votings@[wi].1@.update(idx, self.votings@[wi].1@[idx]),
            self.votings@[wi].1@[idx].wf(),
            forall|j: int| 0 <= j < pre.votings@.len() && j != wi ==> self.votings@[j]
                == pre.votings@[j],
            self.voting_configs@ == pre.voting_configs@,
            self.voting_config_types@ == pre.voting_config_types@,
            self.membership_guards@ == pre.membership_guards@,
            self.event_listeners@ == pre.event_listeners@,
        ensures
            self.wf(),
            self.wallet_votings(w) == pre.wallet_votings(w).update(
                idx,
                self.wallet_votings(w)[idx],
            ),
            forall|w2: Principal| w2 != w ==> self.wallet_votings(w2) == pre.wallet_votings(w2),
    {
        assert(forall|j: int| 0 <= j < self.votings@.len() ==> self.votings@[j].0
            == pre.votings@[j].0);
        assert(assoc_unique(self.votings@));
        lemma_assoc_idx_at(pre.votings@, w, wi);
        lemma_assoc_idx_at(self.votings@, w, wi);
        lemma_assoc_untouched(pre.votings@, self.votings@, w, wi);
        assert forall|w2: Principal|
            w2 != w implies self.wallet_votings(w2) == pre.wallet_votings(w2) by {
            assert(assoc_get(self.votings@, w2) == assoc_get(pre.votings@, w2));
        }
        assert forall|i: int, k: int|
            0 <= i < self.votings@.len() && 0 <= k < self.votings@[i].1@.len()
                implies (#[trigger] self.votings@[i].1@[k]).wf() by {
            if i == wi {
                if k != idx {
                    assert(self.votings@[i].1@[k] == pre.votings@[i].1@[k]);
                    assert(pre.votings@[i].1@[k].wf());
                }
            } else {
                assert(self.votings@[i] == pre.votings@[i]);
                assert(pre.votings@[i].1@[k].wf());
            }
        }
    }
}

} // verus!
