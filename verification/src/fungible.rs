//! The fungible token ledger: balances, mint/send/burn under per-operation
//! controllers, and move-event construction with listener fan-out resolution.
//!
//! Balances are kept as an association vector holding only positive amounts;
//! [`FungibleToken::wf`] states the ledger invariant that the balances always
//! sum to `total_supply`.

use vstd::prelude::*;
use vstd::pervasive::VecAdditionalExecFns;
use crate::types::{Account, Principal, TokenMoveEvent};
use crate::assoc::{
    assoc_has_key, assoc_idx, assoc_unique, assoc_get, assoc_sum, assoc_find, lemma_assoc_idx_at,
    lemma_assoc_push, lemma_assoc_remove, lemma_sum_push, lemma_sum_update, lemma_sum_remove,
    lemma_sum_elem, lemma_sum_nonneg,
};
use crate::listeners::{
    OnMoveListener, OnMoveListenerError, OnMoveListenersInfo, TokenMoveEventAndListeners,
    index_post, index_pull,
};

verus! {

/// The accounts allowed to mint, to manage subscriptions, and to edit the
/// token description.
#[derive(Clone, Copy, Debug)]
pub struct Controllers {
    pub mint_controller: Account,
    pub on_move_controller: Account,
    pub info_controller: Account,
}

impl Controllers {
    /// One account controlling every operation.
    pub fn single(controller: Account) -> (r: Controllers)
        ensures
            r.mint_controller == controller,
            r.on_move_controller == controller,
            r.info_controller == controller,
    {
        Controllers {
            mint_controller: controller,
            on_move_controller: controller,
            info_controller: controller,
        }
    }
}

/// Presentation data of the token.
#[derive(Debug)]
pub struct FungibleTokenInfo {
    pub name: String,
    pub symbol: String,
    pub decimals: u8,
}

#[derive(Clone, Copy, PartialEq, Eq, Structural, Debug)]
pub enum Error {
    InsufficientBalance,
    AccessDenied,
    ForbiddenOperation,
    ListenerError(OnMoveListenerError),
}

/// Balances hold pairwise-distinct holders and only positive amounts, so an
/// absent holder and a zero balance read the same.
pub open spec fn balances_wf(s: Seq<(Principal, u64)>) -> bool {
    &&& assoc_unique(s)
    &&& forall|i: int| 0 <= i < s.len() ==> (#[trigger] s[i]).1 > 0
}

/// The balance recorded for `p`, 0 when `p` holds no entry.
pub open spec fn spec_balance(s: Seq<(Principal, u64)>, p: Principal) -> u64 {
    match assoc_get(s, p) {
        Some(b) => b,
        None => 0,
    }
}

/// Crediting `q` to `p`: grows the existing entry, or appends a fresh one;
/// crediting nothing changes nothing.
pub open spec fn credit_spec(s: Seq<(Principal, u64)>, p: Principal, q: u64) -> Seq<
    (Principal, u64),
> {
    if q == 0 {
        s
    } else if assoc_has_key(s, p) {
        let i = assoc_idx(s, p);
        s.update(i, (p, (s[i].1 + q) as u64))
    } else {
        s.push((p, q))
    }
}

/// Debiting `q` from `p`: shrinks the entry and drops it when it reaches
/// zero; debiting nothing changes nothing.
pub open spec fn debit_spec(s: Seq<(Principal, u64)>, p: Principal, q: u64) -> Seq<
    (Principal, u64),
> {
    if q == 0 || !assoc_has_key(s, p) {
        s
    } else {
        let i = assoc_idx(s, p);
        if s[i].1 == q {
            s.remove(i)
        } else {
            s.update(i, (p, (s[i].1 - q) as u64))
        }
    }
}

/// Credits `q` to `p` in place.
fn credit(balances: &mut Vec<(Principal, u64)>, p: Principal, q: u64)
    requires
        balances_wf(old(balances)@),
        assoc_sum(old(balances)@) + q <= u64::MAX,
    ensures
        final(balances)@ == credit_spec(old(balances)@, p, q),
        balances_wf(final(balances)@),
        assoc_sum(final(balances)@) == assoc_sum(old(balances)@) + q,
        spec_balance(final(balances)@, p) == spec_balance(old(balances)@, p) + q,
        forall|p2: Principal|
            p2 != p ==> spec_balance(final(balances)@, p2) == spec_balance(old(balances)@, p2),
{
    let ghost s = balances@;
    if q == 0 {
        return;
    }
    match assoc_find(balances, p) {
        Some(i) => {
            proof {
                lemma_assoc_idx_at(s, p, i as int);
                lemma_sum_elem(s, i as int);
                lemma_sum_nonneg(s);
                lemma_sum_update(s, i as int, (p, (s[i as int].1 + q) as u64));
            }
            let b = balances[i].1;
            balances.set(i, (p, b + q));
            proof {
                let t = balances@;
                assert(balances_wf(t));
                assert forall|p2: Principal|
                    p2 != p implies spec_balance(t, p2) == spec_balance(s, p2) by {
                    if assoc_has_key(s, p2) {
                        let j = assoc_idx(s, p2);
                        assert(s[j].0 == p2);
                        assert(t[j] == s[j]);
                        lemma_assoc_idx_at(t, p2, j);
                    } else {
                        if assoc_has_key(t, p2) {
                            let j = choose|j: int| 0 <= j < t.len() && t[j].0 == p2;
                            assert(s[j].0 == p2);
                        }
                    }
                }
                lemma_assoc_idx_at(balances@, p, i as int);
            }
        },
        None => {
            proof {
                lemma_sum_push(s, (p, q));
                lemma_assoc_push(s, (p, q));
            }
            balances.push((p, q));
            proof {
                lemma_assoc_idx_at(balances@, p, s.len() as int);
            }
        },
    }
}

/// Debits `q` from `p` in place; the caller owns at least `q`.
fn debit(balances: &mut Vec<(Principal, u64)>, p: Principal, q: u64)
    requires
        balances_wf(old(balances)@),
        q <= spec_balance(old(balances)@, p),
    ensures
        final(balances)@ == debit_spec(old(balances)@, p, q),
        balances_wf(final(balances)@),
        assoc_sum(final(balances)@) == assoc_sum(old(balances)@) - q,
        spec_balance(final(balances)@, p) == spec_balance(old(balances)@, p) - q,
        forall|p2: Principal|
            p2 != p ==> spec_balance(final(balances)@, p2) == spec_balance(old(balances)@, p2),
{
    let ghost s = balances@;
    if q == 0 {
        return;
    }
    match assoc_find(balances, p) {
        Some(i) => {
            proof {
                lemma_assoc_idx_at(s, p, i as int);
            }
            let b = balances[i].1;
            if b == q {
                proof {
                    lemma_sum_remove(s, i as int);
                    lemma_assoc_remove(s, i as int);
                }
                balances.remove(i);
            } else {
                proof {
                    lemma_sum_update(s, i as int, (p, (s[i as int].1 - q) as u64));
                }
                balances.set(i, (p, b - q));
                proof {
                    let t = balances@;
                    assert forall|p2: Principal|
                        p2 != p implies spec_balance(t, p2) == spec_balance(s, p2) by {
                        if assoc_has_key(s, p2) {
                            let j = assoc_idx(s, p2);
                            assert(s[j].0 == p2);
                            assert(t[j] == s[j]);
                            lemma_assoc_idx_at(t, p2, j);
                        } else {
                            if assoc_has_key(t, p2) {
                                let j = choose|j: int| 0 <= j < t.len() && t[j].0 == p2;
                                assert(s[j].0 == p2);
                            }
                        }
                    }
                    lemma_assoc_idx_at(t, p, i as int);
                }
            }
        },
        None => {
            proof {
                assert(false);
            }
        },
    }
}

/// Checks a controlled operation: an uncontrolled slot is permanently
/// locked, a controlled one admits exactly its controller.
pub fn check_controlled_op(controller: Account, caller: Principal) -> (r: Result<(), Error>)
    ensures
        controller is None ==> r == Err::<(), Error>(Error::ForbiddenOperation),
        controller matches Some(c) && c != caller ==> r == Err::<(), Error>(Error::AccessDenied),
        controller == Some(caller) ==> r is Ok,
{
    match controller {
        Some(c) => {
            if c.id == caller.id {
                Ok(())
            } else {
                Err(Error::AccessDenied)
            }
        },
        None => Err(Error::ForbiddenOperation),
    }
}

/// The fungible token ledger.
pub struct FungibleToken {
    pub balances: Vec<(Principal, u64)>,
    pub total_supply: u64,
    pub info: FungibleTokenInfo,
    pub on_move_listeners: OnMoveListenersInfo,
    pub controllers: Controllers,
}

impl FungibleToken {
    /// Ledger invariant: well-formed balances summing to the total supply,
    /// over a well-formed listener index.
    pub open spec fn wf(self) -> bool {
        &&& balances_wf(self.balances@)
        &&& assoc_sum(self.balances@) == self.total_supply
        &&& self.on_move_listeners.wf()
    }

    pub open spec fn balance_of_spec(self, p: Principal) -> u64 {
        spec_balance(self.balances@, p)
    }

    /// What a successful move leaves to dispatch: the event itself and the
    /// listener records matched by it.
    pub open spec fn event_ensures(
        self,
        r: TokenMoveEventAndListeners,
        from: Account,
        to: Account,
        qty: u64,
    ) -> bool {
        let ev = TokenMoveEvent { from, to, qty };
        let m = self.on_move_listeners.matched_ids(ev);
        &&& r.event == ev
        &&& r.listeners@.len() == m.len()
        &&& forall|k: int|
            0 <= k < m.len() ==> (#[trigger] r.listeners@[k])@ == self.on_move_listeners.listener_at(
                m[k],
            )@
    }

    /// A fresh ledger with no balances.
    pub fn new(info: FungibleTokenInfo, controllers: Controllers) -> (r: FungibleToken)
        ensures
            r.wf(),
            r.balances@ == Seq::<(Principal, u64)>::empty(),
            r.total_supply == 0,
            r.info == info,
            r.controllers == controllers,
            r.on_move_listeners.id_counter == 0,
            r.on_move_listeners.enumeration@ == Seq::<(u64, OnMoveListener)>::empty(),
    {
        FungibleToken {
            balances: Vec::new(),
            total_supply: 0,
            info,
            on_move_listeners: OnMoveListenersInfo::new(),
            controllers,
        }
    }

    /// The balance of a holder; absent holders own nothing.
    pub fn balance_of(&self, token_holder: &Principal) -> (r: u64)
        requires
            balances_wf(self.balances@),
        ensures
            r == self.balance_of_spec(*token_holder),
    {
        match assoc_find(&self.balances, *token_holder) {
            Some(i) => {
                proof {
                    lemma_assoc_idx_at(self.balances@, *token_holder, i as int);
                }
                self.balances[i].1
            },
            None => 0,
        }
    }

    /// Mints `qty` to `to`, guarded by the mint controller.  On success the
    /// supply and the recipient's balance grow by `qty` and the move event
    /// `(None, Some(to), qty)` is returned with its matched listeners.
    pub fn mint(&mut self, to: Principal, qty: u64, caller: Principal) -> (r: Result<
        TokenMoveEventAndListeners,
        Error,
    >)
        requires
            old(self).wf(),
            old(self).total_supply + qty <= u64::MAX,
        ensures
            final(self).wf(),
            old(self).controllers.mint_controller is None ==> r == Err::<
                TokenMoveEventAndListeners,
                Error,
            >(Error::ForbiddenOperation) && *final(self) == *old(self),
            old(self).controllers.mint_controller matches Some(c) && c != caller ==> r == Err::<
                TokenMoveEventAndListeners,
                Error,
            >(Error::AccessDenied) && *final(self) == *old(self),
            old(self).controllers.mint_controller == Some(caller) ==> {
                &&& final(self).balances@ == credit_spec(old(self).balances@, to, qty)
                &&& final(self).total_supply == old(self).total_supply + qty
                &&& final(self).balance_of_spec(to) == old(self).balance_of_spec(to) + qty
                &&& forall|p2: Principal|
                    p2 != to ==> final(self).balance_of_spec(p2) == old(self).balance_of_spec(p2)
                &&& final(self).info == old(self).info
                &&& final(self).controllers == old(self).controllers
                &&& final(self).on_move_listeners == old(self).on_move_listeners
                &&& r matches Ok(en) && old(self).event_ensures(en, None, Some(to), qty)
            },
    {
        if let Err(e) = check_controlled_op(self.controllers.mint_controller, caller) {
            return Err(e);
        }
        credit(&mut self.balances, to, qty);
        self.total_supply = self.total_supply + qty;
        Ok(self.create_event_and_find_listeners(None, Some(to), qty))
    }

    /// Moves `qty` from `from` to `to`; fails with `InsufficientBalance`
    /// (and changes nothing) when `from` owns less than `qty`.  The supply
    /// is unchanged and the event `(Some(from), Some(to), qty)` is returned.
    pub fn send(&mut self, from: Principal, to: Principal, qty: u64) -> (r: Result<
        TokenMoveEventAndListeners,
        Error,
    >)
        requires
            old(self).wf(),
        ensures
            final(self).wf(),
            old(self).balance_of_spec(from) < qty ==> r == Err::<
                TokenMoveEventAndListeners,
                Error,
            >(Error::InsufficientBalance) && *final(self) == *old(self),
            old(self).balance_of_spec(from) >= qty ==> {
                &&& final(self).balances@ == credit_spec(
                    debit_spec(old(self).balances@, from, qty),
                    to,
                    qty,
                )
                &&& final(self).total_supply == old(self).total_supply
                &&& from != to ==> final(self).balance_of_spec(from) == old(self).balance_of_spec(
                    from,
                ) - qty && final(self).balance_of_spec(to) == old(self).balance_of_spec(to) + qty
                &&& from == to ==> final(self).balance_of_spec(from) == old(self).balance_of_spec(
                    from,
                )
                &&& forall|p2: Principal|
                    p2 != from && p2 != to ==> final(self).balance_of_spec(p2) == old(
                        self,
                    ).balance_of_spec(p2)
                &&& final(self).info == old(self).info
                &&& final(self).controllers == old(self).controllers
                &&& final(self).on_move_listeners == old(self).on_move_listeners
                &&& r matches Ok(en) && old(self).event_ensures(en, Some(from), Some(to), qty)
            },
    {
        let from_prev_balance = self.balance_of(&from);
        if from_prev_balance < qty {
            return Err(Error::InsufficientBalance);
        }
        proof {
            lemma_sum_nonneg(self.balances@);
        }
        debit(&mut self.balances, from, qty);
        credit(&mut self.balances, to, qty);
        Ok(self.create_event_and_find_listeners(Some(from), Some(to), qty))
    }

    /// Burns `qty` of `from`'s balance; fails with `InsufficientBalance`
    /// (and changes nothing) when the balance is smaller.  The supply
    /// shrinks by `qty` and the event `(Some(from), None, qty)` is returned.
    pub fn burn(&mut self, from: Principal, qty: u64) -> (r: Result<
        TokenMoveEventAndListeners,
        Error,
    >)
        requires
            old(self).wf(),
        ensures
            final(self).wf(),
            old(self).balance_of_spec(from) < qty ==> r == Err::<
                TokenMoveEventAndListeners,
                Error,
            >(Error::InsufficientBalance) && *final(self) == *old(self),
            old(self).balance_of_spec(from) >= qty ==> {
                &&& final(self).balances@ == debit_spec(old(self).balances@, from, qty)
                &&& final(self).total_supply == old(self).total_supply - qty
                &&& final(self).balance_of_spec(from) == old(self).balance_of_spec(from) - qty
                &&& forall|p2: Principal|
                    p2 != from ==> final(self).balance_of_spec(p2) == old(self).balance_of_spec(p2)
                &&& final(self).info == old(self).info
                &&& final(self).controllers == old(self).controllers
                &&& final(self).on_move_listeners == old(self).on_move_listeners
                &&& r matches Ok(en) && old(self).event_ensures(en, Some(from), None, qty)
            },
    {
        let prev_balance = self.balance_of(&from);
        if prev_balance < qty {
            return Err(Error::InsufficientBalance);
        }
        proof {
            if qty > 0 {
                lemma_assoc_idx_at(self.balances@, from, assoc_idx(self.balances@, from));
                lemma_sum_elem(self.balances@, assoc_idx(self.balances@, from));
            }
            lemma_sum_nonneg(self.balances@);
        }
        debit(&mut self.balances, from, qty);
        self.total_supply = self.total_supply - qty;
        Ok(self.create_event_and_find_listeners(Some(from), None, qty))
    }

    /// Registers a listener, guarded by the on-move controller.
    pub fn subscribe_on_move(&mut self, listener: OnMoveListener, caller: Principal) -> (r: Result<
        u64,
        Error,
    >)
        requires
            old(self).wf(),
            old(self).on_move_listeners.id_counter < u64::MAX,
        ensures
            final(self).wf(),
            old(self).controllers.on_move_controller is None ==> r == Err::<u64, Error>(
                Error::ForbiddenOperation,
            ) && *final(self) == *old(self),
            old(self).controllers.on_move_controller matches Some(c) && c != caller ==> r == Err::<
                u64,
                Error,
            >(Error::AccessDenied) && *final(self) == *old(self),
            old(self).controllers.on_move_controller == Some(caller) ==> {
                &&& r == Ok::<u64, Error>(old(self).on_move_listeners.id_counter)
                &&& final(self).on_move_listeners.id_counter == old(
                    self,
                ).on_move_listeners.id_counter + 1
                &&& final(self).on_move_listeners.enumeration@ == old(
                    self,
                ).on_move_listeners.enumeration@.push(
                    (old(self).on_move_listeners.id_counter, listener),
                )
                &&& final(self).on_move_listeners.index_view() == index_post(
                    old(self).on_move_listeners.index_view(),
                    listener.filter,
                    old(self).on_move_listeners.id_counter,
                )
                &&& final(self).balances@ == old(self).balances@
                &&& final(self).total_supply == old(self).total_supply
                &&& final(self).info == old(self).info
                &&& final(self).controllers == old(self).controllers
            },
    {
        if let Err(e) = check_controlled_op(self.controllers.on_move_controller, caller) {
            return Err(e);
        }
        match self.on_move_listeners.add_listener(listener) {
            Ok(id) => Ok(id),
            Err(e) => Err(Error::ListenerError(e)),
        }
    }

    /// Withdraws a listener by id, guarded by the on-move controller.
    pub fn unsubscribe_on_move(&mut self, id: u64, caller: Principal) -> (r: Result<
        OnMoveListener,
        Error,
    >)
        requires
            old(self).wf(),
        ensures
            final(self).wf(),
            old(self).controllers.on_move_controller is None ==> r == Err::<
                OnMoveListener,
                Error,
            >(Error::ForbiddenOperation) && *final(self) == *old(self),
            old(self).controllers.on_move_controller matches Some(c) && c != caller ==> r == Err::<
                OnMoveListener,
                Error,
            >(Error::AccessDenied) && *final(self) == *old(self),
            old(self).controllers.on_move_controller == Some(caller) && !assoc_has_key(
                old(self).on_move_listeners.enumeration@,
                id,
            ) ==> r == Err::<OnMoveListener, Error>(
                Error::ListenerError(OnMoveListenerError::ListenerDoesNotExist),
            ) && *final(self) == *old(self),
            old(self).controllers.on_move_controller == Some(caller) && assoc_has_key(
                old(self).on_move_listeners.enumeration@,
                id,
            ) ==> {
                let en = old(self).on_move_listeners.enumeration@;
                let i = assoc_idx(en, id);
                &&& r matches Ok(l) && l == en[i].1
                &&& final(self).on_move_listeners.id_counter == old(
                    self,
                ).on_move_listeners.id_counter
                &&& final(self).on_move_listeners.enumeration@ == en.remove(i)
                &&& final(self).on_move_listeners.index_view() == index_pull(
                    old(self).on_move_listeners.index_view(),
                    en[i].1.filter,
                    id,
                )
                &&& final(self).balances@ == old(self).balances@
                &&& final(self).total_supply == old(self).total_supply
                &&& final(self).info == old(self).info
                &&& final(self).controllers == old(self).controllers
            },
    {
        if let Err(e) = check_controlled_op(self.controllers.on_move_controller, caller) {
            return Err(e);
        }
        match self.on_move_listeners.remove_listener(id) {
            Ok(l) => Ok(l),
            Err(e) => Err(Error::ListenerError(e)),
        }
    }

    /// Replaces the token description, guarded by the info controller;
    /// returns the description it replaced.
    pub fn update_info(&mut self, new_info: FungibleTokenInfo, caller: Principal) -> (r: Result<
        FungibleTokenInfo,
        Error,
    >)
        requires
            old(self).wf(),
        ensures
            final(self).wf(),
            old(self).controllers.info_controller is None ==> r == Err::<
                FungibleTokenInfo,
                Error,
            >(Error::ForbiddenOperation) && *final(self) == *old(self),
            old(self).controllers.info_controller matches Some(c) && c != caller ==> r == Err::<
                FungibleTokenInfo,
                Error,
            >(Error::AccessDenied) && *final(self) == *old(self),
            old(self).controllers.info_controller == Some(caller) ==> {
                &&& r matches Ok(prev) && prev == old(self).info
                &&& final(self).info == new_info
                &&& final(self).balances@ == old(self).balances@
                &&& final(self).total_supply == old(self).total_supply
                &&& final(self).controllers == old(self).controllers
                &&& final(self).on_move_listeners == old(self).on_move_listeners
            },
    {
        if let Err(e) = check_controlled_op(self.controllers.info_controller, caller) {
            return Err(e);
        }
        let mut tmp = new_info;
        core::mem::swap(&mut self.info, &mut tmp);
        Ok(tmp)
    }

    /// Hands the mint authority to another account, guarded by the current
    /// mint controller.
    pub fn update_mint_controller(&mut self, new_mint_controller: Account, caller: Principal) -> (r:
        Result<(), Error>)
        requires
            old(self).wf(),
        ensures
            final(self).wf(),
            old(self).controllers.mint_controller is None ==> r == Err::<(), Error>(
                Error::ForbiddenOperation,
            ) && *final(self) == *old(self),
            old(self).controllers.mint_controller matches Some(c) && c != caller ==> r == Err::<
                (),
                Error,
            >(Error::AccessDenied) && *final(self) == *old(self),
            old(self).controllers.mint_controller == Some(caller) ==> {
                &&& r is Ok
                &&& final(self).controllers.mint_controller == new_mint_controller
                &&& final(self).controllers.on_move_controller == old(
                    self,
                ).controllers.on_move_controller
                &&& final(self).controllers.info_controller == old(
                    self,
                ).controllers.info_controller
                &&& final(self).balances@ == old(self).balances@
                &&& final(self).total_supply == old(self).total_supply
                &&& final(self).info == old(self).info
                &&& final(self).on_move_listeners == old(self).on_move_listeners
            },
    {
        if let Err(e) = check_controlled_op(self.controllers.mint_controller, caller) {
            return Err(e);
        }
        self.controllers.mint_controller = new_mint_controller;
        Ok(())
    }

    /// Hands the subscription authority to another account.
    pub fn update_on_move_controller(
        &mut self,
        new_on_move_controller: Account,
        caller: Principal,
    ) -> (r: Result<(), Error>)
        requires
            old(self).wf(),
        ensures
            final(self).wf(),
            old(self).controllers.on_move_controller is None ==> r == Err::<(), Error>(
                Error::ForbiddenOperation,
            ) && *final(self) == *old(self),
            old(self).controllers.on_move_controller matches Some(c) && c != caller ==> r == Err::<
                (),
                Error,
            >(Error::AccessDenied) && *final(self) == *old(self),
            old(self).controllers.on_move_controller == Some(caller) ==> {
                &&& r is Ok
                &&& final(self).controllers.on_move_controller == new_on_move_controller
                &&& final(self).controllers.mint_controller == old(
                    self,
                ).controllers.mint_controller
                &&& final(self).controllers.info_controller == old(
                    self,
                ).controllers.info_controller
                &&& final(self).balances@ == old(self).balances@
                &&& final(self).total_supply == old(self).total_supply
                &&& final(self).info == old(self).info
                &&& final(self).on_move_listeners == old(self).on_move_listeners
            },
    {
        if let Err(e) = check_controlled_op(self.controllers.on_move_controller, caller) {
            return Err(e);
        }
        self.controllers.on_move_controller = new_on_move_controller;
        Ok(())
    }

    /// Hands the description authority to another account.
    pub fn update_info_controller(&mut self, new_info_controller: Account, caller: Principal) -> (r:
        Result<(), Error>)
        requires
            old(self).wf(),
        ensures
            final(self).wf(),
            old(self).controllers.info_controller is None ==> r == Err::<(), Error>(
                Error::ForbiddenOperation,
            ) && *final(self) == *old(self),
            old(self).controllers.info_controller matches Some(c) && c != caller ==> r == Err::<
                (),
                Error,
            >(Error::AccessDenied) && *final(self) == *old(self),
            old(self).controllers.info_controller == Some(caller) ==> {
                &&& r is Ok
                &&& final(self).controllers.info_controller == new_info_controller
                &&& final(self).controllers.mint_controller == old(
                    self,
                ).controllers.mint_controller
                &&& final(self).controllers.on_move_controller == old(
                    self,
                ).controllers.on_move_controller
                &&& final(self).balances@ == old(self).balances@
                &&& final(self).total_supply == old(self).total_supply
                &&& final(self).info == old(self).info
                &&& final(self).on_move_listeners == old(self).on_move_listeners
            },
    {
        if let Err(e) = check_controlled_op(self.controllers.info_controller, caller) {
            return Err(e);
        }
        self.controllers.info_controller = new_info_controller;
        Ok(())
    }

    /// Builds the move event and resolves the listeners it matches.
    fn create_event_and_find_listeners(&self, from: Account, to: Account, qty: u64) -> (r:
        TokenMoveEventAndListeners)
        requires
            self.on_move_listeners.wf(),
        ensures
            self.event_ensures(r, from, to, qty),
    {
        let event = TokenMoveEvent { from, to, qty };
        let listeners = self.on_move_listeners.get_matching_listeners(&event);
        TokenMoveEventAndListeners { event, listeners }
    }
}

/// One entry of a batched mint or send.
#[derive(Clone, Copy, Debug)]
pub struct FungibleTokenTransferEntry {
    pub to: Principal,
    pub qty: u64,
}

/// The balances after crediting a batch of entries in input order.
pub open spec fn credit_fold(
    s: Seq<(Principal, u64)>,
    entries: Seq<FungibleTokenTransferEntry>,
) -> Seq<(Principal, u64)>
    decreases entries.len(),
{
    if entries.len() == 0 {
        s
    } else {
        credit_spec(credit_fold(s, entries.drop_last()), entries.last().to, entries.last().qty)
    }
}

/// The amount a batch of entries mints in all.
pub open spec fn qty_sum(entries: Seq<FungibleTokenTransferEntry>) -> int
    decreases entries.len(),
{
    if entries.len() == 0 {
        0
    } else {
        qty_sum(entries.drop_last()) + entries.last().qty
    }
}

proof fn lemma_qty_sum_take(entries: Seq<FungibleTokenTransferEntry>, i: int)
    requires
        0 <= i < entries.len(),
    ensures
        qty_sum(entries.take(i + 1)) == qty_sum(entries.take(i)) + entries[i].qty,
        qty_sum(entries.take(i)) <= qty_sum(entries.take(i + 1)),
{
    assert(entries.take(i + 1).drop_last() =~= entries.take(i));
    assert(entries.take(i + 1).last() == entries[i]);
}

proof fn lemma_qty_sum_take_le(entries: Seq<FungibleTokenTransferEntry>, i: int)
    requires
        0 <= i <= entries.len(),
    ensures
        qty_sum(entries.take(i)) <= qty_sum(entries),
    decreases entries.len() - i,
{
    if i == entries.len() {
        assert(entries.take(i) =~= entries);
    } else {
        lemma_qty_sum_take(entries, i);
        lemma_qty_sum_take_le(entries, i + 1);
    }
}

/// The balances and the per-entry success flags after a batch of sends from
/// one sender, applied in input order: each entry is validated against the
/// balances as the earlier entries left them, and a failing entry changes
/// nothing.
pub open spec fn send_fold(
    s: Seq<(Principal, u64)>,
    from: Principal,
    entries: Seq<FungibleTokenTransferEntry>,
) -> (Seq<(Principal, u64)>, Seq<bool>)
    decreases entries.len(),
{
    if entries.len() == 0 {
        (s, Seq::empty())
    } else {
        let (s1, flags) = send_fold(s, from, entries.drop_last());
        let e = entries.last();
        if spec_balance(s1, from) >= e.qty {
            (credit_spec(debit_spec(s1, from, e.qty), e.to, e.qty), flags.push(true))
        } else {
            (s1, flags.push(false))
        }
    }
}

impl FungibleToken {
    /// Mints a batch of entries, guarded once by the mint controller.  Each
    /// entry is applied in input order and yields its own move event with
    /// the listeners it matched; a denied caller gets every entry refused
    /// and changes nothing.
    pub fn mint_batch(
        &mut self,
        entries: &Vec<FungibleTokenTransferEntry>,
        caller: Principal,
    ) -> (r: Vec<Result<TokenMoveEventAndListeners, Error>>)
        requires
            old(self).wf(),
            old(self).total_supply + qty_sum(entries@) <= u64::MAX,
        ensures
            final(self).wf(),
            r@.len() == entries@.len(),
            old(self).controllers.mint_controller is None ==> (*final(self) == *old(self) && forall|
                i: int,
            |
                0 <= i < r@.len() ==> ((#[trigger] r@[i]) matches Err(e) && e is ForbiddenOperation)),
            old(self).controllers.mint_controller matches Some(c) && c != caller ==> (*final(self)
                == *old(self) && forall|i: int|
                0 <= i < r@.len() ==> ((#[trigger] r@[i]) matches Err(e) && e is AccessDenied)),
            old(self).controllers.mint_controller == Some(caller) ==> ({
                &&& final(self).balances@ == credit_fold(old(self).balances@, entries@)
                &&& final(self).total_supply == old(self).total_supply + qty_sum(entries@)
                &&& final(self).info == old(self).info
                &&& final(self).controllers == old(self).controllers
                &&& final(self).on_move_listeners == old(self).on_move_listeners
                &&& forall|i: int|
                    0 <= i < r@.len() ==> ((#[trigger] r@[i]) matches Ok(en) && old(
                        self,
                    ).event_ensures(en, None, Some(entries@[i].to), entries@[i].qty))
            }),
    {
        let ghost pre = *old(self);
        let mut results: Vec<Result<TokenMoveEventAndListeners, Error>> = Vec::new();
        match check_controlled_op(self.controllers.mint_controller, caller) {
            Err(e) => {
                let mut i: usize = 0;
                while i < entries.len()
                    invariant
                        i <= entries@.len(),
                        results@.len() == i,
                        pre.controllers.mint_controller is None ==> forall|j: int|
                            0 <= j < i ==> ((#[trigger] results@[j]) matches Err(e2) && e2
                                is ForbiddenOperation),
                        pre.controllers.mint_controller matches Some(c) && c != caller ==> forall|
                            j: int,
                        |
                            0 <= j < i ==> ((#[trigger] results@[j]) matches Err(e2) && e2
                                is AccessDenied),
                        e is ForbiddenOperation <==> pre.controllers.mint_controller is None,
                        e is AccessDenied <==> (pre.controllers.mint_controller matches Some(c)
                            && c != caller),
                    decreases entries@.len() - i,
                {
                    match e {
                        Error::ForbiddenOperation => results.push(Err(Error::ForbiddenOperation)),
                        _ => results.push(Err(Error::AccessDenied)),
                    }
                    i = i + 1;
                }
                results
            },
            Ok(()) => {
                let mut i: usize = 0;
                proof {
                    assert(entries@.take(0) =~= Seq::<FungibleTokenTransferEntry>::empty());
                }
                while i < entries.len()
                    invariant
                        i <= entries@.len(),
                        results@.len() == i,
                        self.wf(),
                        pre.wf(),
                        pre.controllers.mint_controller == Some(caller),
                        pre.total_supply + qty_sum(entries@) <= u64::MAX,
                        self.balances@ == credit_fold(pre.balances@, entries@.take(i as int)),
                        self.total_supply == pre.total_supply + qty_sum(entries@.take(i as int)),
                        self.info == pre.info,
                        self.controllers == pre.controllers,
                        self.on_move_listeners == pre.on_move_listeners,
                        forall|j: int|
                            0 <= j < i ==> ((#[trigger] results@[j]) matches Ok(en)
                                && pre.event_ensures(en, None, Some(entries@[j].to), entries@[j].qty)),
                    decreases entries@.len() - i,
                {
                    proof {
                        lemma_qty_sum_take(entries@, i as int);
                        lemma_qty_sum_take_le(entries@, i as int + 1);
                        lemma_sum_nonneg(pre.balances@);
                    }
                    let entry = entries[i];
                    let res = self.mint(entry.to, entry.qty, caller);
                    proof {
                        assert(entries@.take(i as int + 1).drop_last() =~= entries@.take(i as int));
                        assert(entries@.take(i as int + 1).last() == entries@[i as int]);
                    }
                    match res {
                        Ok(en) => results.push(Ok(en)),
                        Err(e) => {
                            proof {
                                assert(false);
                            }
                            results.push(Err(e));
                        },
                    }
                    i = i + 1;
                }
                proof {
                    assert(entries@.take(entries@.len() as int) =~= entries@);
                }
                results
            },
        }
    }

    /// Sends a batch of entries from one sender, in input order; each entry
    /// is validated against the balances as the earlier entries left them,
    /// an entry with too little balance is refused on its own and the rest
    /// of the batch continues.
    pub fn send_batch(&mut self, from: Principal, entries: &Vec<FungibleTokenTransferEntry>) -> (r:
        Vec<Result<TokenMoveEventAndListeners, Error>>)
        requires
            old(self).wf(),
        ensures
            final(self).wf(),
            r@.len() == entries@.len(),
            final(self).balances@ == send_fold(old(self).balances@, from, entries@).0,
            final(self).total_supply == old(self).total_supply,
            final(self).info == old(self).info,
            final(self).controllers == old(self).controllers,
            final(self).on_move_listeners == old(self).on_move_listeners,
            forall|i: int|
                0 <= i < r@.len() ==> if send_fold(old(self).balances@, from, entries@).1[i] {
                    (#[trigger] r@[i]) matches Ok(en) && old(self).event_ensures(
                        en,
                        Some(from),
                        Some(entries@[i].to),
                        entries@[i].qty,
                    )
                } else {
                    r@[i] matches Err(e) && e is InsufficientBalance
                },
    {
        let ghost pre = *old(self);
        let mut results: Vec<Result<TokenMoveEventAndListeners, Error>> = Vec::new();
        let mut i: usize = 0;
        proof {
            assert(entries@.take(0) =~= Seq::<FungibleTokenTransferEntry>::empty());
        }
        while i < entries.len()
            invariant
                i <= entries@.len(),
                results@.len() == i,
                self.wf(),
                pre.wf(),
                self.balances@ == send_fold(pre.balances@, from, entries@.take(i as int)).0,
                self.total_supply == pre.total_supply,
                self.info == pre.info,
                self.controllers == pre.controllers,
                self.on_move_listeners == pre.on_move_listeners,
                send_fold(pre.balances@, from, entries@.take(i as int)).1.len() == i,
                forall|j: int|
                    0 <= j < i ==> if send_fold(pre.balances@, from, entries@.take(i as int)).1[j] {
                        (#[trigger] results@[j]) matches Ok(en) && pre.event_ensures(
                            en,
                            Some(from),
                            Some(entries@[j].to),
                            entries@[j].qty,
                        )
                    } else {
                        results@[j] matches Err(e) && e is InsufficientBalance
                    },
            decreases entries@.len() - i,
        {
            let entry = entries[i];
            let ghost prefix = entries@.take(i as int);
            let ghost prefix1 = entries@.take(i as int + 1);
            proof {
                assert(prefix1.drop_last() =~= prefix);
                assert(prefix1.last() == entries@[i as int]);
            }
            let res = self.send(from, entry.to, entry.qty);
            proof {
                assert forall|j: int|
                    0 <= j < i as int implies send_fold(pre.balances@, from, prefix1).1[j]
                    == send_fold(pre.balances@, from, prefix).1[j] by {}
            }
            results.push(res);
            i = i + 1;
        }
        proof {
            assert(entries@.take(entries@.len() as int) =~= entries@);
        }
        results
    }
}

/// The balances, the amount burnt in all, and the per-entry success flags
/// after a batch of burns by one holder, applied in input order.
pub open spec fn burn_fold(s: Seq<(Principal, u64)>, from: Principal, qtys: Seq<u64>) -> (
    Seq<(Principal, u64)>,
    int,
    Seq<bool>,
)
    decreases qtys.len(),
{
    if qtys.len() == 0 {
        (s, 0, Seq::empty())
    } else {
        let (s1, burnt, flags) = burn_fold(s, from, qtys.drop_last());
        let q = qtys.last();
        if spec_balance(s1, from) >= q {
            (debit_spec(s1, from, q), burnt + q, flags.push(true))
        } else {
            (s1, burnt, flags.push(false))
        }
    }
}

impl FungibleToken {
    /// Burns a batch of quantities from one holder, in input order; an
    /// entry exceeding the balance the earlier entries left is refused on
    /// its own and the rest of the batch continues.
    pub fn burn_batch(&mut self, from: Principal, qtys: &Vec<u64>) -> (r: Vec<
        Result<TokenMoveEventAndListeners, Error>,
    >)
        requires
            old(self).wf(),
        ensures
            final(self).wf(),
            r@.len() == qtys@.len(),
            final(self).balances@ == burn_fold(old(self).balances@, from, qtys@).0,
            final(self).total_supply == old(self).total_supply - burn_fold(
                old(self).balances@,
                from,
                qtys@,
            ).1,
            final(self).info == old(self).info,
            final(self).controllers == old(self).controllers,
            final(self).on_move_listeners == old(self).on_move_listeners,
            forall|i: int|
                0 <= i < r@.len() ==> if burn_fold(old(self).balances@, from, qtys@).2[i] {
                    (#[trigger] r@[i]) matches Ok(en) && old(self).event_ensures(
                        en,
                        Some(from),
                        None,
                        qtys@[i],
                    )
                } else {
                    r@[i] matches Err(e) && e is InsufficientBalance
                },
    {
        let ghost pre = *old(self);
        let mut results: Vec<Result<TokenMoveEventAndListeners, Error>> = Vec::new();
        let mut i: usize = 0;
        proof {
            assert(qtys@.take(0) =~= Seq::<u64>::empty());
        }
        while i < qtys.len()
            invariant
                i <= qtys@.len(),
                results@.len() == i,
                self.wf(),
                pre.wf(),
                self.balances@ == burn_fold(pre.balances@, from, qtys@.take(i as int)).0,
                self.total_supply == pre.total_supply - burn_fold(
                    pre.balances@,
                    from,
                    qtys@.take(i as int),
                ).1,
                self.info == pre.info,
                self.controllers == pre.controllers,
                self.on_move_listeners == pre.on_move_listeners,
                burn_fold(pre.balances@, from, qtys@.take(i as int)).2.len() == i,
                forall|j: int|
                    0 <= j < i ==> if burn_fold(pre.balances@, from, qtys@.take(i as int)).2[j] {
                        (#[trigger] results@[j]) matches Ok(en) && pre.event_ensures(
                            en,
                            Some(from),
                            None,
                            qtys@[j],
                        )
                    } else {
                        results@[j] matches Err(e) && e is InsufficientBalance
                    },
            decreases qtys@.len() - i,
        {
            let q = qtys[i];
            let ghost prefix = qtys@.take(i as int);
            let ghost prefix1 = qtys@.take(i as int + 1);
            proof {
                assert(prefix1.drop_last() =~= prefix);
                assert(prefix1.last() == qtys@[i as int]);
            }
            let res = self.burn(from, q);
            proof {
                assert forall|j: int|
                    0 <= j < i as int implies burn_fold(pre.balances@, from, prefix1).2[j]
                    == burn_fold(pre.balances@, from, prefix).2[j] by {}
            }
            results.push(res);
            i = i + 1;
        }
        proof {
            assert(qtys@.take(qtys@.len() as int) =~= qtys@);
        }
        results
    }
}

/// Round trip: minting `q` to `p` and then burning `q` from `p` leaves the
/// balance table exactly as it was (and the supply, which gains and loses
/// `q`).  Stated over the transitions that `mint` and `burn` ensure.
pub proof fn lemma_mint_burn_round_trip(s: Seq<(Principal, u64)>, p: Principal, q: u64)
    requires
        balances_wf(s),
        assoc_sum(s) + q <= u64::MAX,
    ensures
        debit_spec(credit_spec(s, p, q), p, q) == s,
{
    if q == 0 {
    } else if assoc_has_key(s, p) {
        let i = assoc_idx(s, p);
        assert(0 <= i < s.len() && s[i].0 == p);
        lemma_sum_elem(s, i);
        lemma_sum_nonneg(s);
        let s1 = s.update(i, (p, (s[i].1 + q) as u64));
        assert(credit_spec(s, p, q) == s1);
        assert(forall|j: int| 0 <= j < s.len() ==> s1[j].0 == s[j].0);
        assert(assoc_unique(s1));
        lemma_assoc_idx_at(s1, p, i);
        assert(s1[i].1 == s[i].1 + q);
        assert(s1[i].1 != q);
        assert(debit_spec(s1, p, q) == s1.update(i, (p, s[i].1)));
        assert(s1.update(i, (p, s[i].1)) =~= s);
    } else {
        let s1 = s.push((p, q));
        assert(credit_spec(s, p, q) == s1);
        lemma_assoc_push(s, (p, q));
        lemma_assoc_idx_at(s1, p, s.len() as int);
        assert(s1[s.len() as int].1 == q);
        assert(debit_spec(s1, p, q) == s1.remove(s.len() as int));
        assert(s1.remove(s.len() as int) =~= s);
    }
}

} // verus!
