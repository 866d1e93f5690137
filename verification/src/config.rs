//! Per-wallet voting policy: an endpoint-keyed table of threshold intervals
//! and role requirements, consulted by every mutating operation of the
//! voting manager, plus the raw endpoint allow/deny list.

use vstd::prelude::*;
use crate::types::{Principal, RemoteCallEndpoint, EndpointView, endpoint_eq};
use crate::ratio::Ratio;
use crate::voting::{Voting, WhoCanVote, NewVotingParams, UpdateVotingParams};

verus! {

/// A closed interval.
#[derive(Clone, Copy, Debug)]
pub struct Interval<T> {
    pub min: T,
    pub max: T,
}

impl Interval<i64> {
    /// Whether `a` lies between the bounds, inclusively.
    pub fn contains(&self, a: i64) -> (r: bool)
        ensures
            r == (self.min <= a && a <= self.max),
    {
        a >= self.min && a <= self.max
    }
}

/// Whether a rational lies in a rational interval.
pub open spec fn ratio_in(iv: Interval<Ratio>, a: Ratio) -> bool {
    iv.min.le_spec(a) && a.le_spec(iv.max)
}

impl Interval<Ratio> {
    /// Whether `a` lies between the bounds, inclusively, compared exactly.
    pub fn contains(&self, a: Ratio) -> (r: bool)
        ensures
            r == ratio_in(*self, a),
    {
        self.min.le(a) && a.le(self.max)
    }
}

/// Who may start, delete or execute votings against an endpoint.
#[derive(Debug)]
pub enum VotingCharacter {
    Member,
    All,
    Exact(Vec<Principal>),
}

/// Whether the character admits a principal.
pub open spec fn character_admits(c: VotingCharacter, p: Principal, is_member: bool) -> bool {
    match c {
        VotingCharacter::All => true,
        VotingCharacter::Member => is_member,
        VotingCharacter::Exact(list) => list@.contains(p),
    }
}

/// Who may vote on votings against an endpoint.
#[derive(Debug)]
pub enum PossibleVoter {
    Any,
    CreatorList,
    Exact(Vec<Principal>),
}

/// Whether the voter may vote, deferring to the voting's own list when the
/// policy says the creator decides.
pub open spec fn possible_voter_admits(
    pv: PossibleVoter,
    voter: Principal,
    can_vote: WhoCanVote,
) -> bool {
    match pv {
        PossibleVoter::Any => true,
        PossibleVoter::Exact(voters) => voters@.contains(voter),
        PossibleVoter::CreatorList => match can_vote {
            WhoCanVote::Member => true,
            WhoCanVote::ExactMember(voters) => voters@.contains(voter),
        },
    }
}

/// Scans a principal list.
fn list_contains(v: &Vec<Principal>, p: &Principal) -> (r: bool)
    ensures
        r == v@.contains(*p),
{
    let mut i: usize = 0;
    while i < v.len()
        invariant
            i <= v@.len(),
            forall|j: int| 0 <= j < i ==> v@[j] != *p,
        decreases v@.len() - i,
    {
        if v[i].id == p.id {
            proof {
                assert(v@.contains(*p));
            }
            return true;
        }
        i = i + 1;
    }
    proof {
        if v@.contains(*p) {
            let j = choose|j: int| 0 <= j < v@.len() && v@[j] == *p;
            assert(v@[j] != *p);
        }
    }
    false
}

/// Decides a character against a caller.
fn check_character(c: &VotingCharacter, p: &Principal, is_member: bool) -> (r: bool)
    ensures
        r == character_admits(*c, *p, is_member),
{
    match c {
        VotingCharacter::All => true,
        VotingCharacter::Member => is_member,
        VotingCharacter::Exact(list) => list_contains(list, p),
    }
}

/// Decides a voter policy against a voter.
fn check_possible_voter(pv: &PossibleVoter, voter: &Principal, can_vote: &WhoCanVote) -> (r: bool)
    ensures
        r == possible_voter_admits(*pv, *voter, *can_vote),
{
    match pv {
        PossibleVoter::Any => true,
        PossibleVoter::Exact(voters) => list_contains(voters, voter),
        PossibleVoter::CreatorList => match can_vote {
            WhoCanVote::Member => true,
            WhoCanVote::ExactMember(voters) => list_contains(voters, voter),
        },
    }
}

/// The policy of one endpoint: the admissible threshold intervals, the
/// admissible duration window, and who may act.
#[derive(Debug)]
pub struct RemoteCallVotingParams {
    pub approval: Interval<Ratio>,
    pub rejection: Interval<Ratio>,
    pub quorum: Interval<Ratio>,
    pub consensus: Interval<Ratio>,
    pub duration: Option<Interval<i64>>,
    pub can_vote: PossibleVoter,
    pub can_create: VotingCharacter,
    pub can_delete: VotingCharacter,
    pub can_execute: VotingCharacter,
}

/// Whether a chosen duration satisfies a policy's duration window: a
/// window, once set, demands a bounded duration.
pub open spec fn duration_ok(window: Option<Interval<i64>>, d: Option<i64>) -> bool {
    match window {
        Some(iv) => d matches Some(x) && iv.min <= x && x <= iv.max,
        None => true,
    }
}

/// A sequence of endpoints holds `ep`.
pub open spec fn eps_contain(s: Seq<RemoteCallEndpoint>, ep: EndpointView) -> bool {
    exists|j: int| 0 <= j < s.len() && s[j]@ == ep
}

/// Scans an endpoint list.
fn eps_find(v: &Vec<RemoteCallEndpoint>, ep: &RemoteCallEndpoint) -> (r: bool)
    ensures
        r == eps_contain(v@, ep@),
{
    let mut i: usize = 0;
    while i < v.len()
        invariant
            i <= v@.len(),
            forall|j: int| 0 <= j < i ==> v@[j]@ != ep@,
        decreases v@.len() - i,
    {
        if endpoint_eq(&v[i], ep) {
            proof {
                assert(v@[i as int]@ == ep@);
            }
            return true;
        }
        i = i + 1;
    }
    false
}

/// The wallet's raw endpoint gate: everything, an allow list, or a deny
/// list.
#[derive(Debug)]
pub enum VotingConfigType {
    NoRestriction,
    Whitelist(Vec<RemoteCallEndpoint>),
    Blacklist(Vec<RemoteCallEndpoint>),
}

/// Whether every payload endpoint passes the raw gate.
pub open spec fn config_type_allows(t: VotingConfigType, payload: Seq<crate::types::RemoteCallPayload>) -> bool {
    match t {
        VotingConfigType::NoRestriction => true,
        VotingConfigType::Whitelist(wl) => forall|i: int|
            0 <= i < payload.len() ==> eps_contain(wl@, (#[trigger] payload[i]).endpoint@),
        VotingConfigType::Blacklist(bl) => forall|i: int|
            0 <= i < payload.len() ==> !eps_contain(bl@, (#[trigger] payload[i]).endpoint@),
    }
}

impl VotingConfigType {
    /// Gates a new voting's payload endpoints against the allow/deny list.
    pub fn is_allowed_to_create(&self, params: &NewVotingParams) -> (r: bool)
        ensures
            r == config_type_allows(*self, params.payload@),
    {
        match self {
            VotingConfigType::NoRestriction => true,
            VotingConfigType::Whitelist(wl) => {
                let mut i: usize = 0;
                #[verifier::loop_isolation(false)]
                while i < params.payload.len()
                    invariant
                        i <= params.payload@.len(),
                        forall|j: int|
                            0 <= j < i ==> eps_contain(
                                wl@,
                                (#[trigger] params.payload@[j]).endpoint@,
                            ),
                    decreases params.payload@.len() - i,
                {
                    if !eps_find(wl, &params.payload[i].endpoint) {
                        proof {
                            if config_type_allows(*self, params.payload@) {
                                assert(eps_contain(
                                    wl@,
                                    (#[trigger] params.payload@[i as int]).endpoint@,
                                ));
                            }
                        }
                        return false;
                    }
                    i = i + 1;
                }
                true
            },
            VotingConfigType::Blacklist(bl) => {
                let mut i: usize = 0;
                #[verifier::loop_isolation(false)]
                while i < params.payload.len()
                    invariant
                        i <= params.payload@.len(),
                        forall|j: int|
                            0 <= j < i ==> !eps_contain(
                                bl@,
                                (#[trigger] params.payload@[j]).endpoint@,
                            ),
                    decreases params.payload@.len() - i,
                {
                    if eps_find(bl, &params.payload[i].endpoint) {
                        proof {
                            if config_type_allows(*self, params.payload@) {
                                assert(!eps_contain(
                                    bl@,
                                    (#[trigger] params.payload@[i as int]).endpoint@,
                                ));
                            }
                        }
                        return false;
                    }
                    i = i + 1;
                }
                true
            },
        }
    }
}

/// The per-wallet policy: a default endpoint policy and per-endpoint
/// overrides.
#[derive(Debug)]
pub struct VotingConfig {
    pub default: RemoteCallVotingParams,
    pub custom: Vec<(RemoteCallEndpoint, RemoteCallVotingParams)>,
}

impl VotingConfig {
    /// Override endpoints are pairwise distinct.
    pub open spec fn wf(self) -> bool {
        forall|i: int, j: int|
            0 <= i < j < self.custom@.len() ==> self.custom@[i].0@ != self.custom@[j].0@
    }

    pub open spec fn custom_has(self, ep: EndpointView) -> bool {
        exists|i: int| 0 <= i < self.custom@.len() && self.custom@[i].0@ == ep
    }

    pub open spec fn custom_idx(self, ep: EndpointView) -> int {
        choose|i: int| 0 <= i < self.custom@.len() && self.custom@[i].0@ == ep
    }

    /// The policy governing one endpoint: its override, or the default.
    pub open spec fn policy_of(self, ep: EndpointView) -> RemoteCallVotingParams {
        if self.custom_has(ep) {
            self.custom@[self.custom_idx(ep)].1
        } else {
            self.default
        }
    }

    /// Finds the policy governing `ep`.
    fn find_policy(&self, ep: &RemoteCallEndpoint) -> (r: &RemoteCallVotingParams)
        requires
            self.wf(),
        ensures
            *r == self.policy_of(ep@),
    {
        let mut i: usize = 0;
        while i < self.custom.len()
            invariant
                i <= self.custom@.len(),
                self.wf(),
                forall|j: int| 0 <= j < i ==> self.custom@[j].0@ != ep@,
            decreases self.custom@.len() - i,
        {
            if endpoint_eq(&self.custom[i].0, ep) {
                proof {
                    assert(self.custom_has(ep@)) by {
                        assert(self.custom@[i as int].0@ == ep@);
                    }
                    let k = self.custom_idx(ep@);
                    if k != i as int {
                        assert(self.custom@[k].0@ != self.custom@[i as int].0@);
                    }
                }
                return &self.custom[i].1;
            }
            i = i + 1;
        }
        proof {
            if self.custom_has(ep@) {
                let k = self.custom_idx(ep@);
                assert(self.custom@[k].0@ != ep@);
            }
        }
        &self.default
    }

    /// One payload entry's checks for creating a voting.
    pub open spec fn create_ok_at(
        self,
        params: NewVotingParams,
        proposer: Principal,
        is_member: bool,
        i: int,
    ) -> bool {
        let pol = self.policy_of(params.payload@[i].endpoint@);
        &&& ratio_in(pol.approval, params.approval)
        &&& ratio_in(pol.rejection, params.rejection)
        &&& ratio_in(pol.consensus, params.consensus)
        &&& ratio_in(pol.quorum, params.quorum)
        &&& duration_ok(pol.duration, params.duration)
        &&& character_admits(pol.can_create, proposer, is_member)
    }

    /// Whether a proposer may create this voting: all thresholds of the
    /// request lie within each payload endpoint's intervals and each
    /// endpoint's creation policy admits the proposer.
    pub fn is_allowed_to_create(
        &self,
        params: &NewVotingParams,
        proposer: &Principal,
        proposer_is_a_member: bool,
    ) -> (r: bool)
        requires
            self.wf(),
        ensures
            r == forall|i: int|
                0 <= i < params.payload@.len() ==> self.create_ok_at(
                    *params,
                    *proposer,
                    proposer_is_a_member,
                    i,
                ),
    {
        let mut i: usize = 0;
        while i < params.payload.len()
            invariant
                i <= params.payload@.len(),
                self.wf(),
                forall|j: int|
                    0 <= j < i ==> self.create_ok_at(
                        *params,
                        *proposer,
                        proposer_is_a_member,
                        j,
                    ),
            decreases params.payload@.len() - i,
        {
            let pol = self.find_policy(&params.payload[i].endpoint);
            if !pol.approval.contains(params.approval) {
                proof {
                    assert(!self.create_ok_at(*params, *proposer, proposer_is_a_member, i as int));
                }
                return false;
            }
            if !pol.rejection.contains(params.rejection) {
                proof {
                    assert(!self.create_ok_at(*params, *proposer, proposer_is_a_member, i as int));
                }
                return false;
            }
            if !pol.consensus.contains(params.consensus) {
                proof {
                    assert(!self.create_ok_at(*params, *proposer, proposer_is_a_member, i as int));
                }
                return false;
            }
            if !pol.quorum.contains(params.quorum) {
                proof {
                    assert(!self.create_ok_at(*params, *proposer, proposer_is_a_member, i as int));
                }
                return false;
            }
            if let Some(d) = &pol.duration {
                match params.duration {
                    None => {
                        proof {
                            assert(!self.create_ok_at(*params, *proposer, proposer_is_a_member, i as int));
                        }
                        return false;
                    },
                    Some(pd) => {
                        if !d.contains(pd) {
                            proof {
                                assert(!self.create_ok_at(*params, *proposer, proposer_is_a_member, i as int));
                            }
                            return false;
                        }
                    },
                }
            }
            if !check_character(&pol.can_create, proposer, proposer_is_a_member) {
                proof {
                    assert(!self.create_ok_at(*params, *proposer, proposer_is_a_member, i as int));
                }
                return false;
            }
            i = i + 1;
        }
        true
    }

    /// One payload entry's checks for editing a voting: every supplied
    /// threshold must lie in the endpoint's interval, and a supplied
    /// duration must satisfy the endpoint's window.
    pub open spec fn update_ok_at(
        self,
        params: UpdateVotingParams,
        ep: EndpointView,
    ) -> bool {
        let pol = self.policy_of(ep);
        &&& params.approval matches Some(a) ==> ratio_in(pol.approval, a)
        &&& params.rejection matches Some(a) ==> ratio_in(pol.rejection, a)
        &&& params.consensus matches Some(a) ==> ratio_in(pol.consensus, a)
        &&& params.quorum matches Some(a) ==> ratio_in(pol.quorum, a)
        &&& params.duration matches Some(d) ==> (pol.duration matches Some(iv) ==> (d
            matches Some(x) && iv.min <= x && x <= iv.max))
    }

    /// The payload whose endpoints govern an edit: the edit's own payload
    /// when supplied, else the voting's current one.
    pub open spec fn update_endpoints(
        params: UpdateVotingParams,
        voting: Voting,
    ) -> Seq<crate::types::RemoteCallPayload> {
        match params.payload {
            Some(p) => p@,
            None => voting.payload@,
        }
    }

    /// Whether an updater may edit this voting: only the proposer may, and
    /// each supplied field must pass each governing endpoint's policy.
    pub fn is_allowed_to_update(
        &self,
        params: &UpdateVotingParams,
        updater: &Principal,
        voting: &Voting,
    ) -> (r: bool)
        requires
            self.wf(),
        ensures
            r == (voting.proposer == *updater && forall|i: int|
                0 <= i < Self::update_endpoints(*params, *voting).len() ==> self.update_ok_at(
                    *params,
                    (#[trigger] Self::update_endpoints(*params, *voting)[i]).endpoint@,
                )),
    {
        if voting.proposer.id != updater.id {
            return false;
        }
        let endpoints: &Vec<crate::types::RemoteCallPayload> = match &params.payload {
            Some(p) => p,
            None => &voting.payload,
        };
        let mut i: usize = 0;
        while i < endpoints.len()
            invariant
                i <= endpoints@.len(),
                self.wf(),
                endpoints@ == Self::update_endpoints(*params, *voting),
                forall|j: int|
                    0 <= j < i ==> self.update_ok_at(
                        *params,
                        (#[trigger] endpoints@[j]).endpoint@,
                    ),
            decreases endpoints@.len() - i,
        {
            let pol = self.find_policy(&endpoints[i].endpoint);
            if let Some(a) = params.approval {
                if !pol.approval.contains(a) {
                    proof {
                        assert(!self.update_ok_at(*params, endpoints@[i as int].endpoint@));
                    }
                    return false;
                }
            }
            if let Some(a) = params.rejection {
                if !pol.rejection.contains(a) {
                    proof {
                        assert(!self.update_ok_at(*params, endpoints@[i as int].endpoint@));
                    }
                    return false;
                }
            }
            if let Some(a) = params.consensus {
                if !pol.consensus.contains(a) {
                    proof {
                        assert(!self.update_ok_at(*params, endpoints@[i as int].endpoint@));
                    }
                    return false;
                }
            }
            if let Some(a) = params.quorum {
                if !pol.quorum.contains(a) {
                    proof {
                        assert(!self.update_ok_at(*params, endpoints@[i as int].endpoint@));
                    }
                    return false;
                }
            }
            if let Some(d) = params.duration {
                if let Some(iv) = &pol.duration {
                    match d {
                        None => {
                            proof {
                        assert(!self.update_ok_at(*params, endpoints@[i as int].endpoint@));
                    }
                    return false;
                        },
                        Some(x) => {
                            if !iv.contains(x) {
                                proof {
                        assert(!self.update_ok_at(*params, endpoints@[i as int].endpoint@));
                    }
                    return false;
                            }
                        },
                    }
                }
            }
            i = i + 1;
        }
        true
    }

    /// Whether a voter may vote: each payload endpoint's voter policy must
    /// admit the voter.
    pub fn is_allowed_to_vote(&self, voter: &Principal, voting: &Voting) -> (r: bool)
        requires
            self.wf(),
        ensures
            r == forall|i: int|
                0 <= i < voting.payload@.len() ==> possible_voter_admits(
                    self.policy_of((#[trigger] voting.payload@[i]).endpoint@).can_vote,
                    *voter,
                    voting.can_vote,
                ),
    {
        let mut i: usize = 0;
        while i < voting.payload.len()
            invariant
                i <= voting.payload@.len(),
                self.wf(),
                forall|j: int|
                    0 <= j < i ==> possible_voter_admits(
                        self.policy_of((#[trigger] voting.payload@[j]).endpoint@).can_vote,
                        *voter,
                        voting.can_vote,
                    ),
            decreases voting.payload@.len() - i,
        {
            let pol = self.find_policy(&voting.payload[i].endpoint);
            if !check_possible_voter(&pol.can_vote, voter, &voting.can_vote) {
                proof {
                    assert(!possible_voter_admits(
                        self.policy_of(voting.payload@[i as int].endpoint@).can_vote,
                        *voter,
                        voting.can_vote,
                    ));
                }
                return false;
            }
            i = i + 1;
        }
        true
    }

    /// Whether a deleter may delete: each payload endpoint's deletion
    /// policy must admit the deleter.
    pub fn is_allowed_to_delete(
        &self,
        deleter: &Principal,
        voting: &Voting,
        is_deleter_a_member: bool,
    ) -> (r: bool)
        requires
            self.wf(),
        ensures
            r == forall|i: int|
                0 <= i < voting.payload@.len() ==> character_admits(
                    self.policy_of((#[trigger] voting.payload@[i]).endpoint@).can_delete,
                    *deleter,
                    is_deleter_a_member,
                ),
    {
        let mut i: usize = 0;
        while i < voting.payload.len()
            invariant
                i <= voting.payload@.len(),
                self.wf(),
                forall|j: int|
                    0 <= j < i ==> character_admits(
                        self.policy_of((#[trigger] voting.payload@[j]).endpoint@).can_delete,
                        *deleter,
                        is_deleter_a_member,
                    ),
            decreases voting.payload@.len() - i,
        {
            let pol = self.find_policy(&voting.payload[i].endpoint);
            if !check_character(&pol.can_delete, deleter, is_deleter_a_member) {
                proof {
                    assert(!character_admits(
                        self.policy_of(voting.payload@[i as int].endpoint@).can_delete,
                        *deleter,
                        is_deleter_a_member,
                    ));
                }
                return false;
            }
            i = i + 1;
        }
        true
    }

    /// Whether an executer may execute: each payload endpoint's execution
    /// policy must admit the executer.
    pub fn is_allowed_to_execute(
        &self,
        executer: &Principal,
        voting: &Voting,
        is_executer_a_member: bool,
    ) -> (r: bool)
        requires
            self.wf(),
        ensures
            r == forall|i: int|
                0 <= i < voting.payload@.len() ==> character_admits(
                    self.policy_of((#[trigger] voting.payload@[i]).endpoint@).can_execute,
                    *executer,
                    is_executer_a_member,
                ),
    {
        let mut i: usize = 0;
        while i < voting.payload.len()
            invariant
                i <= voting.payload@.len(),
                self.wf(),
                forall|j: int|
                    0 <= j < i ==> character_admits(
                        self.policy_of((#[trigger] voting.payload@[j]).endpoint@).can_execute,
                        *executer,
                        is_executer_a_member,
                    ),
            decreases voting.payload@.len() - i,
        {
            let pol = self.find_policy(&voting.payload[i].endpoint);
            if !check_character(&pol.can_execute, executer, is_executer_a_member) {
                proof {
                    assert(!character_admits(
                        self.policy_of(voting.payload@[i as int].endpoint@).can_execute,
                        *executer,
                        is_executer_a_member,
                    ));
                }
                return false;
            }
            i = i + 1;
        }
        true
    }
}

} // verus!
