//! The voting-power ledger: per-emitter, per-account time-indexed voting
//! power fed by token move events, with snapshot queries at past instants.

use vstd::prelude::*;
use vstd::pervasive::VecAdditionalExecFns;
use crate::types::{Principal, TokenMoveEvent};
use crate::assoc::{assoc_has_key, assoc_idx, assoc_unique, assoc_find, lemma_assoc_idx_at, lemma_assoc_push, lemma_assoc_remove, assoc_get};
use crate::history::{
    BalanceEntry, HistoryMap, histories_view, histories_wf, history_of, history_post,
    history_sorted, history_value_at, latest_of, fits_after, lemma_history_post, append_history,
    push_entry, lookup_history_at,
};

verus! {

#[derive(Clone, Copy, PartialEq, Eq, Structural, Debug)]
pub enum Error {
    EmitterAlreadyRegistered,
    EmitterNotRegistered,
    AccessDenied,
    HistoryLookupFatalError,
}

/// One recorded voting-power snapshot.
pub type VotingPowerEntry = BalanceEntry;

/// The ledger kept for one emitter: an account-indexed family of histories
/// and the history of the emitter's total voting power.
pub struct VotingPowerLedger {
    pub history: HistoryMap,
    pub total_voting_power: Vec<BalanceEntry>,
}

impl VotingPowerLedger {
    pub open spec fn wf(self) -> bool {
        &&& histories_wf(histories_view(self.history@))
        &&& history_sorted(self.total_voting_power@)
    }
}

/// The global ledger, keyed by the token actor that emits the move events.
/// A key is present exactly for the registered emitters.
pub struct GlobalVotingPowerLedger(pub Vec<(Principal, VotingPowerLedger)>);

impl GlobalVotingPowerLedger {
    pub open spec fn wf(self) -> bool {
        &&& assoc_unique(self.0@)
        &&& forall|i: int| 0 <= i < self.0@.len() ==> (#[trigger] self.0@[i]).1.wf()
    }

    pub open spec fn registered_spec(self, e: Principal) -> bool {
        assoc_has_key(self.0@, e)
    }

    pub open spec fn ledger_at(self, e: Principal) -> VotingPowerLedger {
        self.0@[assoc_idx(self.0@, e)].1
    }

    /// The voting-power history of one account under one emitter.
    pub open spec fn account_hist(self, e: Principal, p: Principal) -> Seq<BalanceEntry> {
        if self.registered_spec(e) {
            history_of(histories_view(self.ledger_at(e).history@), p)
        } else {
            Seq::empty()
        }
    }

    /// The total-voting-power history of one emitter.
    pub open spec fn total_hist(self, e: Principal) -> Seq<BalanceEntry> {
        if self.registered_spec(e) {
            self.ledger_at(e).total_voting_power@
        } else {
            Seq::empty()
        }
    }

    /// An empty global ledger with no registered emitter.
    pub fn new() -> (r: GlobalVotingPowerLedger)
        ensures
            r.wf(),
            r.0@ == Seq::<(Principal, VotingPowerLedger)>::empty(),
    {
        GlobalVotingPowerLedger(Vec::new())
    }

    /// Records the caller as an emitter; fails when it already is one.
    pub fn register_emitter(&mut self, caller: Principal) -> (r: Result<(), Error>)
        requires
            old(self).wf(),
        ensures
            final(self).wf(),
            old(self).registered_spec(caller) ==> r == Err::<(), Error>(
                Error::EmitterAlreadyRegistered,
            ) && *final(self) == *old(self),
            !old(self).registered_spec(caller) ==> {
                &&& r is Ok
                &&& final(self).registered_spec(caller)
                &&& forall|p: Principal|
                    final(self).account_hist(caller, p) == Seq::<BalanceEntry>::empty()
                &&& final(self).total_hist(caller) == Seq::<BalanceEntry>::empty()
                &&& forall|e2: Principal|
                    e2 != caller ==> final(self).registered_spec(e2) == old(self).registered_spec(
                        e2,
                    )
                &&& forall|e2: Principal, p: Principal|
                    e2 != caller ==> final(self).account_hist(e2, p) == old(self).account_hist(
                        e2,
                        p,
                    )
                &&& forall|e2: Principal|
                    e2 != caller ==> final(self).total_hist(e2) == old(self).total_hist(e2)
            },
    {
        let ghost s = self.0@;
        match assoc_find(&self.0, caller) {
            Some(i) => {
                proof {
                    lemma_assoc_idx_at(s, caller, i as int);
                }
                Err(Error::EmitterAlreadyRegistered)
            },
            None => {
                let ledger = VotingPowerLedger {
                    history: Vec::new(),
                    total_voting_power: Vec::new(),
                };
                proof {
                    lemma_assoc_push(s, (caller, ledger));
                }
                self.0.push((caller, ledger));
                proof {
                    lemma_assoc_idx_at(self.0@, caller, s.len() as int);
                    assert(histories_view(self.ledger_at(caller).history@) =~= Seq::<
                        (Principal, Seq<BalanceEntry>),
                    >::empty());
                    self.lemma_untouched(*old(self), caller, s.len() as int);
                }
                Ok(())
            },
        }
    }

    /// Forgets the caller as an emitter, dropping its whole ledger; fails
    /// when it is not registered.
    pub fn unregister_emitter(&mut self, caller: Principal) -> (r: Result<(), Error>)
        requires
            old(self).wf(),
        ensures
            final(self).wf(),
            !old(self).registered_spec(caller) ==> r == Err::<(), Error>(
                Error::EmitterNotRegistered,
            ) && *final(self) == *old(self),
            old(self).registered_spec(caller) ==> {
                &&& r is Ok
                &&& !final(self).registered_spec(caller)
                &&& forall|e2: Principal|
                    e2 != caller ==> final(self).registered_spec(e2) == old(self).registered_spec(
                        e2,
                    )
                &&& forall|e2: Principal, p: Principal|
                    e2 != caller ==> final(self).account_hist(e2, p) == old(self).account_hist(
                        e2,
                        p,
                    )
                &&& forall|e2: Principal|
                    e2 != caller ==> final(self).total_hist(e2) == old(self).total_hist(e2)
            },
    {
        let ghost s = self.0@;
        match assoc_find(&self.0, caller) {
            None => Err(Error::EmitterNotRegistered),
            Some(i) => {
                proof {
                    lemma_assoc_idx_at(s, caller, i as int);
                    lemma_assoc_remove(s, i as int);
                }
                self.0.remove(i);
                proof {
                    assert forall|e2: Principal|
                        e2 != caller implies self.registered_spec(e2) == old(
                        self,
                    ).registered_spec(e2) && (self.registered_spec(e2) ==> self.ledger_at(e2)
                        == old(self).ledger_at(e2)) by {
                        assert(assoc_get(self.0@, e2) == assoc_get(s, e2));
                    }
                }
                Ok(())
            },
        }
    }

    /// Appends a total-voting-power snapshot for an emitter, creating the
    /// emitter's ledger when none exists yet.
    pub fn supply_total_voting_power_entry(
        &mut self,
        canister_id: Principal,
        new_total_voting_power: u64,
        timestamp: i64,
    ) -> (r: Result<(), Error>)
        requires
            old(self).wf(),
            fits_after(old(self).total_hist(canister_id), timestamp),
        ensures
            final(self).wf(),
            r is Ok,
            final(self).registered_spec(canister_id),
            final(self).total_hist(canister_id) == old(self).total_hist(canister_id).push(
                BalanceEntry { timestamp, balance: new_total_voting_power },
            ),
            forall|p: Principal|
                final(self).account_hist(canister_id, p) == old(self).account_hist(canister_id, p),
            forall|e2: Principal|
                e2 != canister_id ==> final(self).registered_spec(e2) == old(self).registered_spec(
                    e2,
                ),
            forall|e2: Principal, p: Principal|
                e2 != canister_id ==> final(self).account_hist(e2, p) == old(self).account_hist(
                    e2,
                    p,
                ),
            forall|e2: Principal|
                e2 != canister_id ==> final(self).total_hist(e2) == old(self).total_hist(e2),
    {
        let ghost s = self.0@;
        let entry = BalanceEntry { timestamp, balance: new_total_voting_power };
        match assoc_find(&self.0, canister_id) {
            Some(i) => {
                proof {
                    lemma_assoc_idx_at(s, canister_id, i as int);
                }
                let mut tmp: (Principal, VotingPowerLedger) = (
                    canister_id,
                    VotingPowerLedger { history: Vec::new(), total_voting_power: Vec::new() },
                );
                self.0.set_and_swap(i, &mut tmp);
                push_entry(&mut tmp.1.total_voting_power, entry);
                self.0.set_and_swap(i, &mut tmp);
                proof {
                    lemma_assoc_idx_at(self.0@, canister_id, i as int);
                    self.lemma_untouched(*old(self), canister_id, i as int);
                    let h = old(self).total_hist(canister_id);
                    assert forall|x: int, y: int|
                        0 <= x <= y < h.push(entry).len() implies h.push(entry)[x].timestamp
                        <= h.push(entry)[y].timestamp by {
                        if y < h.len() {
                            assert(h.push(entry)[x] == h[x] && h.push(entry)[y] == h[y]);
                        } else if x < h.len() {
                            assert(h.push(entry)[x] == h[x]);
                            assert(h[x].timestamp <= h.last().timestamp);
                        }
                    }
                }
                Ok(())
            },
            None => {
                let mut total: Vec<BalanceEntry> = Vec::new();
                total.push(entry);
                let ledger = VotingPowerLedger { history: Vec::new(), total_voting_power: total };
                proof {
                    lemma_assoc_push(s, (canister_id, ledger));
                }
                self.0.push((canister_id, ledger));
                proof {
                    lemma_assoc_idx_at(self.0@, canister_id, s.len() as int);
                    assert(histories_view(self.ledger_at(canister_id).history@) =~= Seq::<
                        (Principal, Seq<BalanceEntry>),
                    >::empty());
                    assert(old(self).total_hist(canister_id).push(entry) =~= seq![entry]);
                    self.lemma_untouched(*old(self), canister_id, s.len() as int);
                }
                Ok(())
            },
        }
    }

    /// Appends an account voting-power snapshot for an emitter, creating
    /// the emitter's ledger when none exists yet.
    pub fn supply_voting_power_entry(
        &mut self,
        canister_id: Principal,
        account_id: Principal,
        voting_power: u64,
        timestamp: i64,
    ) -> (r: Result<(), Error>)
        requires
            old(self).wf(),
            fits_after(old(self).account_hist(canister_id, account_id), timestamp),
        ensures
            final(self).wf(),
            r is Ok,
            final(self).registered_spec(canister_id),
            final(self).account_hist(canister_id, account_id) == old(self).account_hist(
                canister_id,
                account_id,
            ).push(BalanceEntry { timestamp, balance: voting_power }),
            forall|p: Principal|
                p != account_id ==> final(self).account_hist(canister_id, p) == old(
                    self,
                ).account_hist(canister_id, p),
            final(self).total_hist(canister_id) == old(self).total_hist(canister_id),
            forall|e2: Principal|
                e2 != canister_id ==> final(self).registered_spec(e2) == old(self).registered_spec(
                    e2,
                ),
            forall|e2: Principal, p: Principal|
                e2 != canister_id ==> final(self).account_hist(e2, p) == old(self).account_hist(
                    e2,
                    p,
                ),
            forall|e2: Principal|
                e2 != canister_id ==> final(self).total_hist(e2) == old(self).total_hist(e2),
    {
        let ghost s = self.0@;
        let entry = BalanceEntry { timestamp, balance: voting_power };
        match assoc_find(&self.0, canister_id) {
            Some(i) => {
                proof {
                    lemma_assoc_idx_at(s, canister_id, i as int);
                    lemma_history_post(
                        histories_view(old(self).ledger_at(canister_id).history@),
                        account_id,
                        entry,
                    );
                }
                let mut tmp: (Principal, VotingPowerLedger) = (
                    canister_id,
                    VotingPowerLedger { history: Vec::new(), total_voting_power: Vec::new() },
                );
                self.0.set_and_swap(i, &mut tmp);
                append_history(&mut tmp.1.history, account_id, entry);
                self.0.set_and_swap(i, &mut tmp);
                proof {
                    lemma_assoc_idx_at(self.0@, canister_id, i as int);
                    self.lemma_untouched(*old(self), canister_id, i as int);
                }
                Ok(())
            },
            None => {
                let mut h: Vec<BalanceEntry> = Vec::new();
                h.push(entry);
                let mut hm: HistoryMap = Vec::new();
                hm.push((account_id, h));
                let ledger = VotingPowerLedger { history: hm, total_voting_power: Vec::new() };
                proof {
                    lemma_assoc_push(s, (canister_id, ledger));
                }
                self.0.push((canister_id, ledger));
                proof {
                    lemma_assoc_idx_at(self.0@, canister_id, s.len() as int);
                    let hv = histories_view(self.ledger_at(canister_id).history@);
                    assert(hv.len() == 1 && hv[0].0 == account_id && hv[0].1 =~= seq![entry]);
                    assert(assoc_unique(hv));
                    lemma_assoc_idx_at(hv, account_id, 0);
                    assert(old(self).account_hist(canister_id, account_id).push(entry)
                        =~= seq![entry]);
                    assert forall|p: Principal|
                        p != account_id implies self.account_hist(canister_id, p) == old(
                        self,
                    ).account_hist(canister_id, p) by {
                        if assoc_has_key(hv, p) {
                            let j = choose|j: int| 0 <= j < hv.len() && hv[j].0 == p;
                            assert(j == 0);
                        }
                        assert(self.account_hist(canister_id, p) =~= Seq::<
                            BalanceEntry,
                        >::empty());
                    }
                    self.lemma_untouched(*old(self), canister_id, s.len() as int);
                }
                Ok(())
            },
        }
    }

    /// Everything outside the entry at `i` keeps its readings after an
    /// update or append at `i` whose key is `e`.
    proof fn lemma_untouched(self, pre: GlobalVotingPowerLedger, e: Principal, i: int)
        requires
            assoc_unique(pre.0@),
            assoc_unique(self.0@),
            0 <= i < self.0@.len(),
            self.0@.len() == pre.0@.len() || self.0@.len() == pre.0@.len() + 1,
            self.0@.len() == pre.0@.len() + 1 ==> i == pre.0@.len(),
            self.0@[i].0 == e,
            i < pre.0@.len() ==> pre.0@[i].0 == e,
            forall|j: int| 0 <= j < pre.0@.len() && j != i ==> self.0@[j] == pre.0@[j],
        ensures
            forall|e2: Principal|
                e2 != e ==> self.registered_spec(e2) == pre.registered_spec(e2),
            forall|e2: Principal, p: Principal|
                e2 != e ==> self.account_hist(e2, p) == pre.account_hist(e2, p),
            forall|e2: Principal| e2 != e ==> self.total_hist(e2) == pre.total_hist(e2),
    {
        assert forall|e2: Principal|
            e2 != e implies self.registered_spec(e2) == pre.registered_spec(e2) && (
        self.registered_spec(e2) ==> self.ledger_at(e2) == pre.ledger_at(e2)) by {
            if assoc_has_key(pre.0@, e2) {
                let j = choose|j: int| 0 <= j < pre.0@.len() && pre.0@[j].0 == e2;
                assert(j != i);
                assert(self.0@[j] == pre.0@[j]);
                lemma_assoc_idx_at(self.0@, e2, j);
                lemma_assoc_idx_at(pre.0@, e2, j);
            } else {
                if assoc_has_key(self.0@, e2) {
                    let j = choose|j: int| 0 <= j < self.0@.len() && self.0@[j].0 == e2;
                    if j == i {
                        assert(self.0@[i].0 == e);
                    } else if j < pre.0@.len() {
                        assert(self.0@[j] == pre.0@[j]);
                        assert(pre.0@[j].0 == e2);
                    } else {
                        assert(j == pre.0@.len() && i == pre.0@.len());
                    }
                }
            }
        }
    }

    /// The voting power of an account under an emitter at an instant;
    /// fails with `EmitterNotRegistered` for an unknown emitter.  Accounts
    /// without history own no voting power at any time.
    pub fn get_voting_power_at(
        &self,
        canister_id: &Principal,
        account_id: &Principal,
        timestamp: i64,
    ) -> (r: Result<u64, Error>)
        requires
            self.wf(),
        ensures
            !self.registered_spec(*canister_id) ==> r == Err::<u64, Error>(
                Error::EmitterNotRegistered,
            ),
            self.registered_spec(*canister_id) ==> r == Ok::<u64, Error>(
                history_value_at(self.account_hist(*canister_id, *account_id), timestamp),
            ),
    {
        let ghost s = self.0@;
        let i = match assoc_find(&self.0, *canister_id) {
            None => {
                return Err(Error::EmitterNotRegistered);
            },
            Some(i) => i,
        };
        proof {
            lemma_assoc_idx_at(s, *canister_id, i as int);
        }
        let ledger = &self.0[i].1;
        let ghost hv = histories_view(ledger.history@);
        match assoc_find(&ledger.history, *account_id) {
            None => Ok(0),
            Some(j) => {
                proof {
                    lemma_assoc_idx_at(hv, *account_id, j as int);
                    assert(ledger.history@[j as int].1@ == self.account_hist(
                        *canister_id,
                        *account_id,
                    ));
                }
                let pair = &ledger.history[j];
                match lookup_history_at(&pair.1, timestamp) {
                    Some(vp) => Ok(vp),
                    None => {
                        proof {
                            assert(false);
                        }
                        Err(Error::HistoryLookupFatalError)
                    },
                }
            },
        }
    }

    /// The total voting power of an emitter at an instant; fails with
    /// `EmitterNotRegistered` for an unknown emitter.
    pub fn get_total_voting_power_at(&self, canister_id: &Principal, timestamp: i64) -> (r: Result<
        u64,
        Error,
    >)
        requires
            self.wf(),
        ensures
            !self.registered_spec(*canister_id) ==> r == Err::<u64, Error>(
                Error::EmitterNotRegistered,
            ),
            self.registered_spec(*canister_id) ==> r == Ok::<u64, Error>(
                history_value_at(self.total_hist(*canister_id), timestamp),
            ),
    {
        let ghost s = self.0@;
        let i = match assoc_find(&self.0, *canister_id) {
            None => {
                return Err(Error::EmitterNotRegistered);
            },
            Some(i) => i,
        };
        proof {
            lemma_assoc_idx_at(s, *canister_id, i as int);
        }
        let ledger = &self.0[i].1;
        match lookup_history_at(&ledger.total_voting_power, timestamp) {
            Some(vp) => Ok(vp),
            None => {
                proof {
                    assert(false);
                }
                Err(Error::HistoryLookupFatalError)
            },
        }
    }
}

impl GlobalVotingPowerLedger {
    /// Consumes a move event from a registered emitter at instant `time`:
    /// a transfer re-points voting power between the two accounts, a burn
    /// shrinks one account and the total, a mint grows one account and the
    /// total.  Events from unknown emitters are rejected and an event with
    /// neither side does nothing.
    pub fn handle_on_move(&mut self, canister_id: Principal, event: &TokenMoveEvent, time: i64) -> (r:
        Result<(), Error>)
        requires
            old(self).wf(),
            ({
                let e = canister_id;
                old(self).registered_spec(e) ==> {
                    &&& event.from is Some ==> fits_after(
                        old(self).account_hist(e, event.from->0),
                        time,
                    ) && event.qty <= history_value_at(
                        old(self).account_hist(e, event.from->0),
                        time,
                    )
                    &&& event.to is Some ==> fits_after(
                        old(self).account_hist(e, event.to->0),
                        time,
                    ) && history_value_at(old(self).account_hist(e, event.to->0), time) + event.qty
                        <= u64::MAX
                    &&& fits_after(old(self).total_hist(e), time)
                    &&& event.from is Some && event.to is None ==> event.qty <= history_value_at(
                        old(self).total_hist(e),
                        time,
                    )
                    &&& event.from is None && event.to is Some ==> history_value_at(
                        old(self).total_hist(e),
                        time,
                    ) + event.qty <= u64::MAX
                }
            }),
        ensures
            final(self).wf(),
            !old(self).registered_spec(canister_id) && (event.from is Some || event.to is Some)
                ==> r == Err::<(), Error>(Error::EmitterNotRegistered) && *final(self) == *old(
                self,
            ),
            event.from is None && event.to is None ==> r is Ok && *final(self) == *old(self),
            old(self).registered_spec(canister_id) ==> {
                let e = canister_id;
                let pre = *old(self);
                &&& r is Ok
                &&& (event.from is Some && event.to is Some && event.from->0 != event.to->0 ==> {
                    let f = event.from->0;
                    let t = event.to->0;
                    &&& final(self).account_hist(e, f) == pre.account_hist(e, f).push(
                        BalanceEntry {
                            timestamp: time,
                            balance: (history_value_at(pre.account_hist(e, f), time)
                                - event.qty) as u64,
                        },
                    )
                    &&& final(self).account_hist(e, t) == pre.account_hist(e, t).push(
                        BalanceEntry {
                            timestamp: time,
                            balance: (history_value_at(pre.account_hist(e, t), time)
                                + event.qty) as u64,
                        },
                    )
                    &&& final(self).total_hist(e) == pre.total_hist(e)
                })
                &&& (event.from is Some && event.to is Some && event.from->0 == event.to->0 ==> {
                    let f = event.from->0;
                    &&& final(self).account_hist(e, f) == pre.account_hist(e, f).push(
                        BalanceEntry {
                            timestamp: time,
                            balance: (history_value_at(pre.account_hist(e, f), time)
                                - event.qty) as u64,
                        },
                    ).push(
                        BalanceEntry {
                            timestamp: time,
                            balance: (history_value_at(pre.account_hist(e, f), time)
                                + event.qty) as u64,
                        },
                    )
                    &&& final(self).total_hist(e) == pre.total_hist(e)
                })
                &&& (event.from is Some && event.to is None ==> {
                    let f = event.from->0;
                    &&& final(self).account_hist(e, f) == pre.account_hist(e, f).push(
                        BalanceEntry {
                            timestamp: time,
                            balance: (history_value_at(pre.account_hist(e, f), time)
                                - event.qty) as u64,
                        },
                    )
                    &&& final(self).total_hist(e) == pre.total_hist(e).push(
                        BalanceEntry {
                            timestamp: time,
                            balance: (history_value_at(pre.total_hist(e), time)
                                - event.qty) as u64,
                        },
                    )
                })
                &&& (event.from is None && event.to is Some ==> {
                    let t = event.to->0;
                    &&& final(self).account_hist(e, t) == pre.account_hist(e, t).push(
                        BalanceEntry {
                            timestamp: time,
                            balance: (history_value_at(pre.account_hist(e, t), time)
                                + event.qty) as u64,
                        },
                    )
                    &&& final(self).total_hist(e) == pre.total_hist(e).push(
                        BalanceEntry {
                            timestamp: time,
                            balance: (history_value_at(pre.total_hist(e), time)
                                + event.qty) as u64,
                        },
                    )
                })
                &&& forall|e2: Principal|
                    e2 != e ==> final(self).registered_spec(e2) == pre.registered_spec(e2)
                &&& forall|e2: Principal, p: Principal|
                    e2 != e ==> final(self).account_hist(e2, p) == pre.account_hist(e2, p)
                &&& forall|e2: Principal|
                    e2 != e ==> final(self).total_hist(e2) == pre.total_hist(e2)
            },
    {
        if event.from.is_some() && event.to.is_some() {
            let from = event.from.unwrap();
            let to = event.to.unwrap();
            let from_vp = match self.get_voting_power_at(&canister_id, &from, time) {
                Ok(v) => v,
                Err(e) => {
                    return Err(e);
                },
            };
            let to_vp = match self.get_voting_power_at(&canister_id, &to, time) {
                Ok(v) => v,
                Err(e) => {
                    return Err(e);
                },
            };
            let r1 = self.supply_voting_power_entry(canister_id, from, from_vp - event.qty, time);
            let r2 = self.supply_voting_power_entry(canister_id, to, to_vp + event.qty, time);
            Ok(())
        } else if event.from.is_some() {
            let from = event.from.unwrap();
            let from_vp = match self.get_voting_power_at(&canister_id, &from, time) {
                Ok(v) => v,
                Err(e) => {
                    return Err(e);
                },
            };
            let total_vp = match self.get_total_voting_power_at(&canister_id, time) {
                Ok(v) => v,
                Err(e) => {
                    return Err(e);
                },
            };
            let r1 = self.supply_voting_power_entry(canister_id, from, from_vp - event.qty, time);
            let r2 = self.supply_total_voting_power_entry(canister_id, total_vp - event.qty, time);
            Ok(())
        } else if event.to.is_some() {
            let to = event.to.unwrap();
            let to_vp = match self.get_voting_power_at(&canister_id, &to, time) {
                Ok(v) => v,
                Err(e) => {
                    return Err(e);
                },
            };
            let total_vp = match self.get_total_voting_power_at(&canister_id, time) {
                Ok(v) => v,
                Err(e) => {
                    return Err(e);
                },
            };
            let r1 = self.supply_voting_power_entry(canister_id, to, to_vp + event.qty, time);
            let r2 = self.supply_total_voting_power_entry(canister_id, total_vp + event.qty, time);
            Ok(())
        } else {
            Ok(())
        }
    }
}

} // verus!
