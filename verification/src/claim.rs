//! The claim (badge) token ledger: a boolean membership token.  A principal
//! either holds the claim or does not; the supply counts the holders.

use vstd::prelude::*;
use crate::types::{Account, Principal, TokenMoveEvent};
use crate::listeners::{
    OnMoveListener, OnMoveListenerError, OnMoveListenersInfo, TokenMoveEventAndListeners,
    index_post, index_pull,
};
use crate::assoc::{assoc_has_key, assoc_idx};

verus! {

/// The accounts allowed to issue and revoke claims, to manage
/// subscriptions, and to edit the token description.
#[derive(Clone, Copy, Debug)]
pub struct Controllers {
    pub issue_controller: Account,
    pub revoke_controller: Account,
    pub on_move_controller: Account,
    pub info_controller: Account,
}

impl Controllers {
    /// One account controlling every operation.
    pub fn single(controller: Account) -> (r: Controllers)
        ensures
            r.issue_controller == controller,
            r.revoke_controller == controller,
            r.on_move_controller == controller,
            r.info_controller == controller,
    {
        Controllers {
            issue_controller: controller,
            revoke_controller: controller,
            on_move_controller: controller,
            info_controller: controller,
        }
    }
}

/// Presentation data of the token.
#[derive(Debug)]
pub struct ClaimTokenInfo {
    pub name: String,
}

/// What an actor shell hands over at construction.
pub struct ClaimTokenInitPayload {
    pub info: ClaimTokenInfo,
    pub controllers: Option<Controllers>,
    pub on_move_listeners: Vec<OnMoveListener>,
}

#[derive(Clone, Copy, PartialEq, Eq, Structural, Debug)]
pub enum Error {
    AlreadyHasClaim,
    DoesNotHaveClaimYet,
    AccessDenied,
    ForbiddenOperation,
    ListenerError(OnMoveListenerError),
}

/// The holders are pairwise distinct.
pub open spec fn claims_wf(s: Seq<Principal>) -> bool {
    forall|i: int, j: int| 0 <= i < j < s.len() ==> s[i] != s[j]
}

/// The position of `p` among the holders (unique when distinct).
pub open spec fn claim_idx(s: Seq<Principal>, p: Principal) -> int {
    choose|i: int| 0 <= i < s.len() && s[i] == p
}

/// With distinct holders, any position holding `p` is the position of `p`.
proof fn lemma_claim_idx_at(s: Seq<Principal>, p: Principal, i: int)
    requires
        claims_wf(s),
        0 <= i < s.len(),
        s[i] == p,
    ensures
        s.contains(p),
        claim_idx(s, p) == i,
{
    assert(s.contains(p));
    let j = claim_idx(s, p);
    if i < j {
        assert(s[i] != s[j]);
    } else if j < i {
        assert(s[j] != s[i]);
    }
}

/// Finds the position of a holder.
fn find_claim(v: &Vec<Principal>, p: &Principal) -> (r: Option<usize>)
    ensures
        match r {
            Some(i) => i < v@.len() && v@[i as int] == *p,
            None => !v@.contains(*p),
        },
{
    let mut i: usize = 0;
    while i < v.len()
        invariant
            i <= v@.len(),
            forall|j: int| 0 <= j < i ==> v@[j] != *p,
        decreases v@.len() - i,
    {
        if v[i].id == p.id {
            return Some(i);
        }
        i = i + 1;
    }
    None
}

/// Checks a controlled operation, as on the fungible ledger.
fn check_controlled_op(controller: Account, caller: Principal) -> (r: Result<(), Error>)
    ensures
        controller is None ==> r == Err::<(), Error>(Error::ForbiddenOperation),
        controller matches Some(c) && c != caller ==> r == Err::<(), Error>(Error::AccessDenied),
        controller == Some(caller) ==> r is Ok,
{
    match controller {
        Some(c) => {
            if c.id == caller.id {
                Ok(())
            } else {
                Err(Error::AccessDenied)
            }
        },
        None => Err(Error::ForbiddenOperation),
    }
}

/// The claim token ledger.
pub struct ClaimToken {
    pub claims: Vec<Principal>,
    pub total_supply: u64,
    pub info: ClaimTokenInfo,
    pub on_move_listeners: OnMoveListenersInfo,
    pub controllers: Controllers,
}

impl ClaimToken {
    /// Ledger invariant: the supply counts exactly the principals holding
    /// the claim, each recorded once.
    pub open spec fn wf(self) -> bool {
        &&& claims_wf(self.claims@)
        &&& self.total_supply == self.claims@.len()
        &&& self.on_move_listeners.wf()
    }

    pub open spec fn has_claim_spec(self, p: Principal) -> bool {
        self.claims@.contains(p)
    }

    /// What a successful move leaves to dispatch.
    pub open spec fn event_ensures(
        self,
        r: TokenMoveEventAndListeners,
        from: Account,
        to: Account,
        qty: u64,
    ) -> bool {
        let ev = TokenMoveEvent { from, to, qty };
        let m = self.on_move_listeners.matched_ids(ev);
        &&& r.event == ev
        &&& r.listeners@.len() == m.len()
        &&& forall|k: int|
            0 <= k < m.len() ==> (#[trigger] r.listeners@[k])@ == self.on_move_listeners.listener_at(
                m[k],
            )@
    }

    /// A fresh ledger with no claims.
    pub fn new(info: ClaimTokenInfo, controllers: Controllers) -> (r: ClaimToken)
        ensures
            r.wf(),
            r.claims@ == Seq::<Principal>::empty(),
            r.total_supply == 0,
            r.info == info,
            r.controllers == controllers,
            r.on_move_listeners.id_counter == 0,
            r.on_move_listeners.enumeration@ == Seq::<(u64, OnMoveListener)>::empty(),
    {
        ClaimToken {
            claims: Vec::new(),
            total_supply: 0,
            info,
            on_move_listeners: OnMoveListenersInfo::new(),
            controllers,
        }
    }

    /// Whether a principal holds the claim.
    pub fn has_claim(&self, holder: &Principal) -> (r: bool)
        ensures
            r == self.has_claim_spec(*holder),
    {
        match find_claim(&self.claims, holder) {
            Some(i) => {
                proof {
                    assert(self.claims@.contains(*holder));
                }
                true
            },
            None => false,
        }
    }

    /// Issues the claim to `to`, guarded by the issue controller; fails
    /// with `AlreadyHasClaim` when `to` already holds it.  Emits the move
    /// event `(None, Some(to), 1)`.
    pub fn issue(&mut self, to: Principal, caller: Principal) -> (r: Result<
        TokenMoveEventAndListeners,
        Error,
    >)
        requires
            old(self).wf(),
            old(self).total_supply < u64::MAX,
        ensures
            final(self).wf(),
            old(self).controllers.issue_controller is None ==> r == Err::<
                TokenMoveEventAndListeners,
                Error,
            >(Error::ForbiddenOperation) && *final(self) == *old(self),
            old(self).controllers.issue_controller matches Some(c) && c != caller ==> r == Err::<
                TokenMoveEventAndListeners,
                Error,
            >(Error::AccessDenied) && *final(self) == *old(self),
            old(self).controllers.issue_controller == Some(caller) && old(self).has_claim_spec(to)
                ==> r == Err::<TokenMoveEventAndListeners, Error>(Error::AlreadyHasClaim)
                && *final(self) == *old(self),
            old(self).controllers.issue_controller == Some(caller) && !old(self).has_claim_spec(to)
                ==> {
                &&& final(self).claims@ == old(self).claims@.push(to)
                &&& final(self).total_supply == old(self).total_supply + 1
                &&& final(self).info == old(self).info
                &&& final(self).controllers == old(self).controllers
                &&& final(self).on_move_listeners == old(self).on_move_listeners
                &&& r matches Ok(en) && old(self).event_ensures(en, None, Some(to), 1)
            },
    {
        if let Err(e) = check_controlled_op(self.controllers.issue_controller, caller) {
            return Err(e);
        }
        if self.has_claim(&to) {
            return Err(Error::AlreadyHasClaim);
        }
        self.claims.push(to);
        self.total_supply = self.total_supply + 1;
        proof {
            assert forall|i: int, j: int|
                0 <= i < j < self.claims@.len() implies self.claims@[i] != self.claims@[j] by {
                if j == self.claims@.len() - 1 {
                    assert(old(self).claims@.contains(old(self).claims@[i]));
                }
            }
        }
        Ok(self.create_event_and_find_listeners(None, Some(to), 1))
    }

    /// Revokes the claim of `from`, guarded by the revoke controller; fails
    /// with `DoesNotHaveClaimYet` when `from` does not hold it.  Emits the
    /// move event `(Some(from), None, 1)`.
    pub fn revoke(&mut self, from: Principal, caller: Principal) -> (r: Result<
        TokenMoveEventAndListeners,
        Error,
    >)
        requires
            old(self).wf(),
        ensures
            final(self).wf(),
            old(self).controllers.revoke_controller is None ==> r == Err::<
                TokenMoveEventAndListeners,
                Error,
            >(Error::ForbiddenOperation) && *final(self) == *old(self),
            old(self).controllers.revoke_controller matches Some(c) && c != caller ==> r == Err::<
                TokenMoveEventAndListeners,
                Error,
            >(Error::AccessDenied) && *final(self) == *old(self),
            old(self).controllers.revoke_controller == Some(caller) && !old(self).has_claim_spec(
                from,
            ) ==> r == Err::<TokenMoveEventAndListeners, Error>(Error::DoesNotHaveClaimYet)
                && *final(self) == *old(self),
            old(self).controllers.revoke_controller == Some(caller) && old(self).has_claim_spec(
                from,
            ) ==> {
                &&& final(self).claims@ == old(self).claims@.remove(
                    claim_idx(old(self).claims@, from),
                )
                &&& final(self).total_supply == old(self).total_supply - 1
                &&& !final(self).has_claim_spec(from)
                &&& final(self).info == old(self).info
                &&& final(self).controllers == old(self).controllers
                &&& final(self).on_move_listeners == old(self).on_move_listeners
                &&& r matches Ok(en) && old(self).event_ensures(en, Some(from), None, 1)
            },
    {
        if let Err(e) = check_controlled_op(self.controllers.revoke_controller, caller) {
            return Err(e);
        }
        let i = match find_claim(&self.claims, &from) {
            Some(i) => i,
            None => {
                return Err(Error::DoesNotHaveClaimYet);
            },
        };
        proof {
            lemma_claim_idx_at(self.claims@, from, i as int);
        }
        self.claims.remove(i);
        self.total_supply = self.total_supply - 1;
        proof {
            let s = old(self).claims@;
            let t = self.claims@;
            assert forall|j: int, k: int| 0 <= j < k < t.len() implies t[j] != t[k] by {
                if k < i as int {
                    assert(t[j] == s[j] && t[k] == s[k]);
                } else if j < i as int {
                    assert(t[j] == s[j] && t[k] == s[k + 1]);
                } else {
                    assert(t[j] == s[j + 1] && t[k] == s[k + 1]);
                }
            }
            assert forall|j: int| 0 <= j < t.len() implies t[j] != from by {
                if j < i as int {
                    assert(t[j] == s[j]);
                } else {
                    assert(t[j] == s[j + 1]);
                }
            }
            if t.contains(from) {
                let j = choose|j: int| 0 <= j < t.len() && t[j] == from;
                assert(t[j] != from);
            }
        }
        Ok(self.create_event_and_find_listeners(Some(from), None, 1))
    }

    /// Registers a listener, guarded by the on-move controller.
    pub fn subscribe_on_move(&mut self, listener: OnMoveListener, caller: Principal) -> (r: Result<
        u64,
        Error,
    >)
        requires
            old(self).wf(),
            old(self).on_move_listeners.id_counter < u64::MAX,
        ensures
            final(self).wf(),
            old(self).controllers.on_move_controller is None ==> r == Err::<u64, Error>(
                Error::ForbiddenOperation,
            ) && *final(self) == *old(self),
            old(self).controllers.on_move_controller matches Some(c) && c != caller ==> r == Err::<
                u64,
                Error,
            >(Error::AccessDenied) && *final(self) == *old(self),
            old(self).controllers.on_move_controller == Some(caller) ==> {
                &&& r == Ok::<u64, Error>(old(self).on_move_listeners.id_counter)
                &&& final(self).on_move_listeners.id_counter == old(
                    self,
                ).on_move_listeners.id_counter + 1
                &&& final(self).on_move_listeners.enumeration@ == old(
                    self,
                ).on_move_listeners.enumeration@.push(
                    (old(self).on_move_listeners.id_counter, listener),
                )
                &&& final(self).on_move_listeners.index_view() == index_post(
                    old(self).on_move_listeners.index_view(),
                    listener.filter,
                    old(self).on_move_listeners.id_counter,
                )
                &&& final(self).claims@ == old(self).claims@
                &&& final(self).total_supply == old(self).total_supply
                &&& final(self).info == old(self).info
                &&& final(self).controllers == old(self).controllers
            },
    {
        if let Err(e) = check_controlled_op(self.controllers.on_move_controller, caller) {
            return Err(e);
        }
        match self.on_move_listeners.add_listener(listener) {
            Ok(id) => Ok(id),
            Err(e) => Err(Error::ListenerError(e)),
        }
    }

    /// Withdraws a listener by id, guarded by the on-move controller.
    pub fn unsubscribe_on_move(&mut self, id: u64, caller: Principal) -> (r: Result<
        OnMoveListener,
        Error,
    >)
        requires
            old(self).wf(),
        ensures
            final(self).wf(),
            old(self).controllers.on_move_controller is None ==> r == Err::<
                OnMoveListener,
                Error,
            >(Error::ForbiddenOperation) && *final(self) == *old(self),
            old(self).controllers.on_move_controller matches Some(c) && c != caller ==> r == Err::<
                OnMoveListener,
                Error,
            >(Error::AccessDenied) && *final(self) == *old(self),
            old(self).controllers.on_move_controller == Some(caller) && !assoc_has_key(
                old(self).on_move_listeners.enumeration@,
                id,
            ) ==> r == Err::<OnMoveListener, Error>(
                Error::ListenerError(OnMoveListenerError::ListenerDoesNotExist),
            ) && *final(self) == *old(self),
            old(self).controllers.on_move_controller == Some(caller) && assoc_has_key(
                old(self).on_move_listeners.enumeration@,
                id,
            ) ==> {
                let en = old(self).on_move_listeners.enumeration@;
                let i = assoc_idx(en, id);
                &&& r matches Ok(l) && l == en[i].1
                &&& final(self).on_move_listeners.id_counter == old(
                    self,
                ).on_move_listeners.id_counter
                &&& final(self).on_move_listeners.enumeration@ == en.remove(i)
                &&& final(self).on_move_listeners.index_view() == index_pull(
                    old(self).on_move_listeners.index_view(),
                    en[i].1.filter,
                    id,
                )
                &&& final(self).claims@ == old(self).claims@
                &&& final(self).total_supply == old(self).total_supply
                &&& final(self).info == old(self).info
                &&& final(self).controllers == old(self).controllers
            },
    {
        if let Err(e) = check_controlled_op(self.controllers.on_move_controller, caller) {
            return Err(e);
        }
        match self.on_move_listeners.remove_listener(id) {
            Ok(l) => Ok(l),
            Err(e) => Err(Error::ListenerError(e)),
        }
    }

    /// Replaces the token description, guarded by the info controller;
    /// returns the description it replaced.
    pub fn update_info(&mut self, new_info: ClaimTokenInfo, caller: Principal) -> (r: Result<
        ClaimTokenInfo,
        Error,
    >)
        requires
            old(self).wf(),
        ensures
            final(self).wf(),
            old(self).controllers.info_controller is None ==> r == Err::<ClaimTokenInfo, Error>(
                Error::ForbiddenOperation,
            ) && *final(self) == *old(self),
            old(self).controllers.info_controller matches Some(c) && c != caller ==> r == Err::<
                ClaimTokenInfo,
                Error,
            >(Error::AccessDenied) && *final(self) == *old(self),
            old(self).controllers.info_controller == Some(caller) ==> {
                &&& r matches Ok(prev) && prev == old(self).info
                &&& final(self).info == new_info
                &&& final(self).claims@ == old(self).claims@
                &&& final(self).total_supply == old(self).total_supply
                &&& final(self).controllers == old(self).controllers
                &&& final(self).on_move_listeners == old(self).on_move_listeners
            },
    {
        if let Err(e) = check_controlled_op(self.controllers.info_controller, caller) {
            return Err(e);
        }
        let mut tmp = new_info;
        core::mem::swap(&mut self.info, &mut tmp);
        Ok(tmp)
    }

    /// Hands the issue authority to another account.
    pub fn update_issue_controller(
        &mut self,
        new_issue_controller: Account,
        caller: Principal,
    ) -> (r: Result<(), Error>)
        requires
            old(self).wf(),
        ensures
            final(self).wf(),
            old(self).controllers.issue_controller is None ==> r == Err::<(), Error>(
                Error::ForbiddenOperation,
            ) && *final(self) == *old(self),
            old(self).controllers.issue_controller matches Some(c) && c != caller ==> r == Err::<
                (),
                Error,
            >(Error::AccessDenied) && *final(self) == *old(self),
            old(self).controllers.issue_controller == Some(caller) ==> ({
                &&& r is Ok
                &&& final(self).controllers.issue_controller == new_issue_controller
                &&& final(self).controllers.revoke_controller == old(self).controllers.revoke_controller
                &&& final(self).controllers.on_move_controller == old(self).controllers.on_move_controller
                &&& final(self).controllers.info_controller == old(self).controllers.info_controller
                &&& final(self).claims@ == old(self).claims@
                &&& final(self).total_supply == old(self).total_supply
                &&& final(self).info == old(self).info
                &&& final(self).on_move_listeners == old(self).on_move_listeners
            }),
    {
        if let Err(e) = check_controlled_op(self.controllers.issue_controller, caller) {
            return Err(e);
        }
        self.controllers.issue_controller = new_issue_controller;
        Ok(())
    }

    /// Hands the revoke authority to another account.
    pub fn update_revoke_controller(
        &mut self,
        new_revoke_controller: Account,
        caller: Principal,
    ) -> (r: Result<(), Error>)
        requires
            old(self).wf(),
        ensures
            final(self).wf(),
            old(self).controllers.revoke_controller is None ==> r == Err::<(), Error>(
                Error::ForbiddenOperation,
            ) && *final(self) == *old(self),
            old(self).controllers.revoke_controller matches Some(c) && c != caller ==> r == Err::<
                (),
                Error,
            >(Error::AccessDenied) && *final(self) == *old(self),
            old(self).controllers.revoke_controller == Some(caller) ==> ({
                &&& r is Ok
                &&& final(self).controllers.revoke_controller == new_revoke_controller
                &&& final(self).controllers.issue_controller == old(self).controllers.issue_controller
                &&& final(self).controllers.on_move_controller == old(self).controllers.on_move_controller
                &&& final(self).controllers.info_controller == old(self).controllers.info_controller
                &&& final(self).claims@ == old(self).claims@
                &&& final(self).total_supply == old(self).total_supply
                &&& final(self).info == old(self).info
                &&& final(self).on_move_listeners == old(self).on_move_listeners
            }),
    {
        if let Err(e) = check_controlled_op(self.controllers.revoke_controller, caller) {
            return Err(e);
        }
        self.controllers.revoke_controller = new_revoke_controller;
        Ok(())
    }

    /// Hands the subscription authority to another account.
    pub fn update_on_move_controller(
        &mut self,
        new_on_move_controller: Account,
        caller: Principal,
    ) -> (r: Result<(), Error>)
        requires
            old(self).wf(),
        ensures
            final(self).wf(),
            old(self).controllers.on_move_controller is None ==> r == Err::<(), Error>(
                Error::ForbiddenOperation,
            ) && *final(self) == *old(self),
            old(self).controllers.on_move_controller matches Some(c) && c != caller ==> r == Err::<
                (),
                Error,
            >(Error::AccessDenied) && *final(self) == *old(self),
            old(self).controllers.on_move_controller == Some(caller) ==> ({
                &&& r is Ok
                &&& final(self).controllers.on_move_controller == new_on_move_controller
                &&& final(self).controllers.issue_controller == old(self).controllers.issue_controller
                &&& final(self).controllers.revoke_controller == old(self).controllers.revoke_controller
                &&& final(self).controllers.info_controller == old(self).controllers.info_controller
                &&& final(self).claims@ == old(self).claims@
                &&& final(self).total_supply == old(self).total_supply
                &&& final(self).info == old(self).info
                &&& final(self).on_move_listeners == old(self).on_move_listeners
            }),
    {
        if let Err(e) = check_controlled_op(self.controllers.on_move_controller, caller) {
            return Err(e);
        }
        self.controllers.on_move_controller = new_on_move_controller;
        Ok(())
    }

    /// Hands the description authority to another account.
    pub fn update_info_controller(&mut self, new_info_controller: Account, caller: Principal) -> (r:
        Result<(), Error>)
        requires
            old(self).wf(),
        ensures
            final(self).wf(),
            old(self).controllers.info_controller is None ==> r == Err::<(), Error>(
                Error::ForbiddenOperation,
            ) && *final(self) == *old(self),
            old(self).controllers.info_controller matches Some(c) && c != caller ==> r == Err::<
                (),
                Error,
            >(Error::AccessDenied) && *final(self) == *old(self),
            old(self).controllers.info_controller == Some(caller) ==> ({
                &&& r is Ok
                &&& final(self).controllers.info_controller == new_info_controller
                &&& final(self).controllers.issue_controller == old(self).controllers.issue_controller
                &&& final(self).controllers.revoke_controller == old(self).controllers.revoke_controller
                &&& final(self).controllers.on_move_controller == old(self).controllers.on_move_controller
                &&& final(self).claims@ == old(self).claims@
                &&& final(self).total_supply == old(self).total_supply
                &&& final(self).info == old(self).info
                &&& final(self).on_move_listeners == old(self).on_move_listeners
            }),
    {
        if let Err(e) = check_controlled_op(self.controllers.info_controller, caller) {
            return Err(e);
        }
        self.controllers.info_controller = new_info_controller;
        Ok(())
    }

    /// Builds the move event and resolves the listeners it matches.
    fn create_event_and_find_listeners(&self, from: Account, to: Account, qty: u64) -> (r:
        TokenMoveEventAndListeners)
        requires
            self.on_move_listeners.wf(),
        ensures
            self.event_ensures(r, from, to, qty),
    {
        let event = TokenMoveEvent { from, to, qty };
        let listeners = self.on_move_listeners.get_matching_listeners(&event);
        TokenMoveEventAndListeners { event, listeners }
    }
}

/// The holders and the per-entry success flags after a batch of issues,
/// applied in input order: an entry for a principal already holding the
/// claim (also from earlier in the same batch) is refused on its own.
pub open spec fn issue_fold(claims: Seq<Principal>, entries: Seq<Principal>) -> (
    Seq<Principal>,
    Seq<bool>,
)
    decreases entries.len(),
{
    if entries.len() == 0 {
        (claims, Seq::empty())
    } else {
        let (c1, flags) = issue_fold(claims, entries.drop_last());
        let p = entries.last();
        if c1.contains(p) {
            (c1, flags.push(false))
        } else {
            (c1.push(p), flags.push(true))
        }
    }
}

/// The holders and the per-entry success flags after a batch of
/// revocations, applied in input order.
pub open spec fn revoke_fold(claims: Seq<Principal>, entries: Seq<Principal>) -> (
    Seq<Principal>,
    Seq<bool>,
)
    decreases entries.len(),
{
    if entries.len() == 0 {
        (claims, Seq::empty())
    } else {
        let (c1, flags) = revoke_fold(claims, entries.drop_last());
        let p = entries.last();
        if c1.contains(p) {
            (c1.remove(claim_idx(c1, p)), flags.push(true))
        } else {
            (c1, flags.push(false))
        }
    }
}

impl ClaimToken {
    /// Issues the claim to a batch of principals, guarded once by the issue
    /// controller; each entry is validated and applied in input order and a
    /// failing entry does not stop the rest.
    pub fn issue_batch(&mut self, entries: &Vec<Principal>, caller: Principal) -> (r: Vec<
        Result<TokenMoveEventAndListeners, Error>,
    >)
        requires
            old(self).wf(),
            old(self).total_supply + entries@.len() <= u64::MAX,
        ensures
            final(self).wf(),
            r@.len() == entries@.len(),
            old(self).controllers.issue_controller is None ==> (*final(self) == *old(self)
                && forall|i: int|
                0 <= i < r@.len() ==> ((#[trigger] r@[i]) matches Err(e) && e
                    is ForbiddenOperation)),
            old(self).controllers.issue_controller matches Some(c) && c != caller ==> (*final(self)
                == *old(self) && forall|i: int|
                0 <= i < r@.len() ==> ((#[trigger] r@[i]) matches Err(e) && e is AccessDenied)),
            old(self).controllers.issue_controller == Some(caller) ==> ({
                &&& final(self).claims@ == issue_fold(old(self).claims@, entries@).0
                &&& final(self).total_supply == issue_fold(old(self).claims@, entries@).0.len()
                &&& final(self).info == old(self).info
                &&& final(self).controllers == old(self).controllers
                &&& final(self).on_move_listeners == old(self).on_move_listeners
                &&& forall|i: int|
                    0 <= i < r@.len() ==> if issue_fold(old(self).claims@, entries@).1[i] {
                        (#[trigger] r@[i]) matches Ok(en) && old(self).event_ensures(
                            en,
                            None,
                            Some(entries@[i]),
                            1,
                        )
                    } else {
                        r@[i] matches Err(e) && e is AlreadyHasClaim
                    }
            }),
    {
        let ghost pre = *old(self);
        let mut results: Vec<Result<TokenMoveEventAndListeners, Error>> = Vec::new();
        match check_controlled_op(self.controllers.issue_controller, caller) {
            Err(e) => {
                let mut i: usize = 0;
                while i < entries.len()
                    invariant
                        i <= entries@.len(),
                        results@.len() == i,
                        pre.controllers.issue_controller is None ==> forall|j: int|
                            0 <= j < i ==> ((#[trigger] results@[j]) matches Err(e2) && e2
                                is ForbiddenOperation),
                        pre.controllers.issue_controller matches Some(c) && c != caller ==> forall|
                            j: int,
                        |
                            0 <= j < i ==> ((#[trigger] results@[j]) matches Err(e2) && e2
                                is AccessDenied),
                        e is ForbiddenOperation <==> pre.controllers.issue_controller is None,
                        e is AccessDenied <==> (pre.controllers.issue_controller matches Some(c)
                            && c != caller),
                    decreases entries@.len() - i,
                {
                    match e {
                        Error::ForbiddenOperation => results.push(Err(Error::ForbiddenOperation)),
                        _ => results.push(Err(Error::AccessDenied)),
                    }
                    i = i + 1;
                }
                results
            },
            Ok(()) => {
                let mut i: usize = 0;
                proof {
                    assert(entries@.take(0) =~= Seq::<Principal>::empty());
                }
                while i < entries.len()
                    invariant
                        i <= entries@.len(),
                        results@.len() == i,
                        self.wf(),
                        pre.wf(),
                        pre.controllers.issue_controller == Some(caller),
                        pre.total_supply + entries@.len() <= u64::MAX,
                        pre.total_supply == pre.claims@.len(),
                        self.claims@ == issue_fold(pre.claims@, entries@.take(i as int)).0,
                        self.claims@.len() <= pre.claims@.len() + i,
                        self.info == pre.info,
                        self.controllers == pre.controllers,
                        self.on_move_listeners == pre.on_move_listeners,
                        issue_fold(pre.claims@, entries@.take(i as int)).1.len() == i,
                        forall|j: int|
                            0 <= j < i ==> if issue_fold(
                                pre.claims@,
                                entries@.take(i as int),
                            ).1[j] {
                                (#[trigger] results@[j]) matches Ok(en) && pre.event_ensures(
                                    en,
                                    None,
                                    Some(entries@[j]),
                                    1,
                                )
                            } else {
                                results@[j] matches Err(e2) && e2 is AlreadyHasClaim
                            },
                    decreases entries@.len() - i,
                {
                    let p = entries[i];
                    let ghost prefix = entries@.take(i as int);
                    let ghost prefix1 = entries@.take(i as int + 1);
                    proof {
                        assert(prefix1.drop_last() =~= prefix);
                        assert(prefix1.last() == entries@[i as int]);
                    }
                    let res = self.issue(p, caller);
                    proof {
                        assert forall|j: int|
                            0 <= j < i as int implies issue_fold(pre.claims@, prefix1).1[j]
                            == issue_fold(pre.claims@, prefix).1[j] by {}
                    }
                    results.push(res);
                    i = i + 1;
                }
                proof {
                    assert(entries@.take(entries@.len() as int) =~= entries@);
                }
                results
            },
        }
    }

    /// Revokes the claim of a batch of principals, guarded once by the
    /// revoke controller; each entry is validated and applied in input
    /// order and a failing entry does not stop the rest.
    pub fn revoke_batch(&mut self, entries: &Vec<Principal>, caller: Principal) -> (r: Vec<
        Result<TokenMoveEventAndListeners, Error>,
    >)
        requires
            old(self).wf(),
        ensures
            final(self).wf(),
            r@.len() == entries@.len(),
            old(self).controllers.revoke_controller is None ==> (*final(self) == *old(self)
                && forall|i: int|
                0 <= i < r@.len() ==> ((#[trigger] r@[i]) matches Err(e) && e
                    is ForbiddenOperation)),
            old(self).controllers.revoke_controller matches Some(c) && c != caller ==> (*final(self)
                == *old(self) && forall|i: int|
                0 <= i < r@.len() ==> ((#[trigger] r@[i]) matches Err(e) && e is AccessDenied)),
            old(self).controllers.revoke_controller == Some(caller) ==> ({
                &&& final(self).claims@ == revoke_fold(old(self).claims@, entries@).0
                &&& final(self).total_supply == revoke_fold(old(self).claims@, entries@).0.len()
                &&& final(self).info == old(self).info
                &&& final(self).controllers == old(self).controllers
                &&& final(self).on_move_listeners == old(self).on_move_listeners
                &&& forall|i: int|
                    0 <= i < r@.len() ==> if revoke_fold(old(self).claims@, entries@).1[i] {
                        (#[trigger] r@[i]) matches Ok(en) && old(self).event_ensures(
                            en,
                            Some(entries@[i]),
                            None,
                            1,
                        )
                    } else {
                        r@[i] matches Err(e) && e is DoesNotHaveClaimYet
                    }
            }),
    {
        let ghost pre = *old(self);
        let mut results: Vec<Result<TokenMoveEventAndListeners, Error>> = Vec::new();
        match check_controlled_op(self.controllers.revoke_controller, caller) {
            Err(e) => {
                let mut i: usize = 0;
                while i < entries.len()
                    invariant
                        i <= entries@.len(),
                        results@.len() == i,
                        pre.controllers.revoke_controller is None ==> forall|j: int|
                            0 <= j < i ==> ((#[trigger] results@[j]) matches Err(e2) && e2
                                is ForbiddenOperation),
                        pre.controllers.revoke_controller matches Some(c) && c != caller ==> forall|
                            j: int,
                        |
                            0 <= j < i ==> ((#[trigger] results@[j]) matches Err(e2) && e2
                                is AccessDenied),
                        e is ForbiddenOperation <==> pre.controllers.revoke_controller is None,
                        e is AccessDenied <==> (pre.controllers.revoke_controller matches Some(c)
                            && c != caller),
                    decreases entries@.len() - i,
                {
                    match e {
                        Error::ForbiddenOperation => results.push(Err(Error::ForbiddenOperation)),
                        _ => results.push(Err(Error::AccessDenied)),
                    }
                    i = i + 1;
                }
                results
            },
            Ok(()) => {
                let mut i: usize = 0;
                proof {
                    assert(entries@.take(0) =~= Seq::<Principal>::empty());
                }
                while i < entries.len()
                    invariant
                        i <= entries@.len(),
                        results@.len() == i,
                        self.wf(),
                        pre.wf(),
                        pre.controllers.revoke_controller == Some(caller),
                        self.claims@ == revoke_fold(pre.claims@, entries@.take(i as int)).0,
                        self.info == pre.info,
                        self.controllers == pre.controllers,
                        self.on_move_listeners == pre.on_move_listeners,
                        revoke_fold(pre.claims@, entries@.take(i as int)).1.len() == i,
                        forall|j: int|
                            0 <= j < i ==> if revoke_fold(
                                pre.claims@,
                                entries@.take(i as int),
                            ).1[j] {
                                (#[trigger] results@[j]) matches Ok(en) && pre.event_ensures(
                                    en,
                                    Some(entries@[j]),
                                    None,
                                    1,
                                )
                            } else {
                                results@[j] matches Err(e2) && e2 is DoesNotHaveClaimYet
                            },
                    decreases entries@.len() - i,
                {
                    let p = entries[i];
                    let ghost prefix = entries@.take(i as int);
                    let ghost prefix1 = entries@.take(i as int + 1);
                    proof {
                        assert(prefix1.drop_last() =~= prefix);
                        assert(prefix1.last() == entries@[i as int]);
                    }
                    let res = self.revoke(p, caller);
                    proof {
                        assert forall|j: int|
                            0 <= j < i as int implies revoke_fold(pre.claims@, prefix1).1[j]
                            == revoke_fold(pre.claims@, prefix).1[j] by {}
                    }
                    results.push(res);
                    i = i + 1;
                }
                proof {
                    assert(entries@.take(entries@.len() as int) =~= entries@);
                }
                results
            },
        }
    }
}

} // verus!
