//! The shares token: per-holder append-only balance history with snapshot
//! lookup, plus a parallel history of the total supply.

use vstd::prelude::*;
use crate::types::Principal;
use crate::assoc::{assoc_has_key, assoc_unique, assoc_find, lemma_assoc_idx_at};
use crate::history::{
    BalanceEntry, HistoryMap, histories_view, histories_wf, history_of, history_post,
    history_sorted, history_value_at, latest_of, fits_after, lemma_history_post, append_history,
    peek_history, push_entry, lookup_history_at,
};

verus! {

#[derive(Clone, Copy, PartialEq, Eq, Structural, Debug)]
pub enum Error {
    InsufficientBalance,
    AccessDenied,
}

/// The shares token ledger.
pub struct SharesToken {
    pub name: String,
    pub balances: HistoryMap,
    pub total_supplies: Vec<BalanceEntry>,
}

impl SharesToken {
    /// Ledger invariant: distinct holders, every history ordered by
    /// timestamp.
    pub open spec fn wf(self) -> bool {
        &&& histories_wf(histories_view(self.balances@))
        &&& history_sorted(self.total_supplies@)
    }

    /// The recorded history of one holder.
    pub open spec fn history_spec(self, p: Principal) -> Seq<BalanceEntry> {
        history_of(histories_view(self.balances@), p)
    }

    /// The holder's balance now: the tail of their history.
    pub open spec fn latest_balance(self, p: Principal) -> u64 {
        latest_of(self.history_spec(p))
    }

    /// The supply now: the tail of the supply history.
    pub open spec fn latest_total(self) -> u64 {
        latest_of(self.total_supplies@)
    }

    /// A fresh ledger with no history at all.
    pub fn new(name: String) -> (r: SharesToken)
        ensures
            r.wf(),
            r.name == name,
            histories_view(r.balances@) == Seq::<(Principal, Seq<BalanceEntry>)>::empty(),
            r.total_supplies@ == Seq::<BalanceEntry>::empty(),
    {
        let r = SharesToken { name, balances: Vec::new(), total_supplies: Vec::new() };
        proof {
            assert(histories_view(r.balances@) =~= Seq::<(Principal, Seq<BalanceEntry>)>::empty());
        }
        r
    }

    /// Mints `quantity` to `to` at `timestamp`: appends one entry to the
    /// holder's history and one to the supply history.
    pub fn mint(&mut self, to: &Principal, quantity: u64, timestamp: i64)
        requires
            old(self).wf(),
            fits_after(old(self).history_spec(*to), timestamp),
            fits_after(old(self).total_supplies@, timestamp),
            old(self).latest_balance(*to) + quantity <= u64::MAX,
            old(self).latest_total() + quantity <= u64::MAX,
        ensures
            final(self).wf(),
            final(self).history_spec(*to) == old(self).history_spec(*to).push(
                BalanceEntry {
                    timestamp,
                    balance: (old(self).latest_balance(*to) + quantity) as u64,
                },
            ),
            forall|p2: Principal|
                p2 != *to ==> final(self).history_spec(p2) == old(self).history_spec(p2),
            final(self).total_supplies@ == old(self).total_supplies@.push(
                BalanceEntry { timestamp, balance: (old(self).latest_total() + quantity) as u64 },
            ),
            final(self).name == old(self).name,
    {
        proof {
            lemma_history_post(
                histories_view(self.balances@),
                *to,
                BalanceEntry {
                    timestamp,
                    balance: (latest_of(self.history_spec(*to)) + quantity) as u64,
                },
            );
        }
        let prev_balance = self.peek_balance(to);
        let new_balance = BalanceEntry { timestamp, balance: prev_balance + quantity };
        append_history(&mut self.balances, *to, new_balance);
        let prev_total = peek_history(&self.total_supplies);
        let new_total = BalanceEntry { timestamp, balance: prev_total + quantity };
        push_entry(&mut self.total_supplies, new_total);
        proof {
            let h = old(self).total_supplies@;
            assert forall|x: int, y: int|
                0 <= x <= y < self.total_supplies@.len() implies self.total_supplies@[x].timestamp
                <= self.total_supplies@[y].timestamp by {
                if y < h.len() {
                    assert(self.total_supplies@[x] == h[x] && self.total_supplies@[y] == h[y]);
                } else if x < h.len() {
                    assert(self.total_supplies@[x] == h[x]);
                    assert(h[x].timestamp <= h.last().timestamp);
                }
            }
        }
    }

    /// Moves `quantity` from `from` to `to` at `timestamp`; fails with
    /// `InsufficientBalance` (and changes nothing) when `from` holds less.
    /// The recipient's balance is read after the sender's history grows, so
    /// moving shares to oneself records two entries and keeps the balance.
    pub fn send(&mut self, from: &Principal, to: &Principal, quantity: u64, timestamp: i64) -> (r:
        Result<(), Error>)
        requires
            old(self).wf(),
            fits_after(old(self).history_spec(*from), timestamp),
            fits_after(old(self).history_spec(*to), timestamp),
            *from != *to ==> old(self).latest_balance(*to) + quantity <= u64::MAX,
        ensures
            final(self).wf(),
            !assoc_has_key(histories_view(old(self).balances@), *from) || old(
                self,
            ).latest_balance(*from) < quantity ==> r == Err::<(), Error>(Error::InsufficientBalance)
                && *final(self) == *old(self),
            assoc_has_key(histories_view(old(self).balances@), *from) && old(self).latest_balance(
                *from,
            ) >= quantity ==> {
                let debited = history_post(
                    histories_view(old(self).balances@),
                    *from,
                    BalanceEntry {
                        timestamp,
                        balance: (old(self).latest_balance(*from) - quantity) as u64,
                    },
                );
                let credited = history_post(
                    debited,
                    *to,
                    BalanceEntry {
                        timestamp,
                        balance: (latest_of(history_of(debited, *to)) + quantity) as u64,
                    },
                );
                &&& r is Ok
                &&& histories_view(final(self).balances@) == credited
                &&& final(self).total_supplies@ == old(self).total_supplies@
                &&& final(self).name == old(self).name
            },
    {
        let ghost hv = histories_view(self.balances@);
        match assoc_find(&self.balances, *from) {
            None => {
                return Err(Error::InsufficientBalance);
            },
            Some(i) => {
                proof {
                    lemma_assoc_idx_at(hv, *from, i as int);
                }
            },
        }
        let latest_balance_from = self.peek_balance(from);
        if latest_balance_from < quantity {
            return Err(Error::InsufficientBalance);
        }
        let debit_entry = BalanceEntry { timestamp, balance: latest_balance_from - quantity };
        proof {
            lemma_history_post(hv, *from, debit_entry);
        }
        append_history(&mut self.balances, *from, debit_entry);
        let ghost hv1 = histories_view(self.balances@);
        let latest_balance_to = self.peek_balance(to);
        let credit_entry = BalanceEntry { timestamp, balance: latest_balance_to + quantity };
        proof {
            lemma_history_post(hv1, *to, credit_entry);
        }
        append_history(&mut self.balances, *to, credit_entry);
        Ok(())
    }

    /// Burns `quantity` of `from`'s shares at `timestamp`; fails with
    /// `InsufficientBalance` (and changes nothing) when the balance is
    /// smaller.  The supply history shrinks accordingly.
    pub fn burn(&mut self, from: &Principal, quantity: u64, timestamp: i64) -> (r: Result<
        (),
        Error,
    >)
        requires
            old(self).wf(),
            fits_after(old(self).history_spec(*from), timestamp),
            fits_after(old(self).total_supplies@, timestamp),
            assoc_has_key(histories_view(old(self).balances@), *from) && old(self).latest_balance(
                *from,
            ) >= quantity ==> old(self).latest_total() >= quantity,
        ensures
            final(self).wf(),
            !assoc_has_key(histories_view(old(self).balances@), *from) || old(
                self,
            ).latest_balance(*from) < quantity ==> r == Err::<(), Error>(Error::InsufficientBalance)
                && *final(self) == *old(self),
            assoc_has_key(histories_view(old(self).balances@), *from) && old(self).latest_balance(
                *from,
            ) >= quantity ==> {
                &&& r is Ok
                &&& histories_view(final(self).balances@) == history_post(
                    histories_view(old(self).balances@),
                    *from,
                    BalanceEntry {
                        timestamp,
                        balance: (old(self).latest_balance(*from) - quantity) as u64,
                    },
                )
                &&& final(self).total_supplies@ == old(self).total_supplies@.push(
                    BalanceEntry {
                        timestamp,
                        balance: (old(self).latest_total() - quantity) as u64,
                    },
                )
                &&& final(self).name == old(self).name
            },
    {
        let ghost hv = histories_view(self.balances@);
        match assoc_find(&self.balances, *from) {
            None => {
                return Err(Error::InsufficientBalance);
            },
            Some(i) => {
                proof {
                    lemma_assoc_idx_at(hv, *from, i as int);
                }
            },
        }
        let latest_balance = self.peek_balance(from);
        if latest_balance < quantity {
            return Err(Error::InsufficientBalance);
        }
        let debit_entry = BalanceEntry { timestamp, balance: latest_balance - quantity };
        proof {
            lemma_history_post(hv, *from, debit_entry);
        }
        append_history(&mut self.balances, *from, debit_entry);
        let prev_total = peek_history(&self.total_supplies);
        let new_total = BalanceEntry { timestamp, balance: prev_total - quantity };
        push_entry(&mut self.total_supplies, new_total);
        proof {
            let h = old(self).total_supplies@;
            assert forall|x: int, y: int|
                0 <= x <= y < self.total_supplies@.len() implies self.total_supplies@[x].timestamp
                <= self.total_supplies@[y].timestamp by {
                if y < h.len() {
                    assert(self.total_supplies@[x] == h[x] && self.total_supplies@[y] == h[y]);
                } else if x < h.len() {
                    assert(self.total_supplies@[x] == h[x]);
                    assert(h[x].timestamp <= h.last().timestamp);
                }
            }
        }
        Ok(())
    }

    /// The holder's balance at an instant, or the current one with no
    /// instant given.  Absent holders own nothing at any time.
    pub fn balance_of_at(&self, token_holder: &Principal, timestamp: Option<i64>) -> (r: u64)
        requires
            self.wf(),
        ensures
            timestamp is None ==> r == self.latest_balance(*token_holder),
            timestamp matches Some(t) ==> r == history_value_at(self.history_spec(*token_holder), t),
    {
        let ghost hv = histories_view(self.balances@);
        let i = match assoc_find(&self.balances, *token_holder) {
            None => {
                return 0;
            },
            Some(i) => i,
        };
        proof {
            lemma_assoc_idx_at(hv, *token_holder, i as int);
            assert(self.balances@[i as int].1@ == self.history_spec(*token_holder));
        }
        let pair = &self.balances[i];
        match timestamp {
            None => peek_history(&pair.1),
            Some(t) => {
                match lookup_history_at(&pair.1, t) {
                    Some(b) => b,
                    None => {
                        proof {
                            assert(false);
                        }
                        0
                    },
                }
            },
        }
    }

    /// The supply at an instant, or the current one with no instant given.
    pub fn total_supply_at(&self, timestamp: Option<i64>) -> (r: u64)
        requires
            self.wf(),
        ensures
            timestamp is None ==> r == self.latest_total(),
            timestamp matches Some(t) ==> r == history_value_at(self.total_supplies@, t),
    {
        if self.total_supplies.len() == 0 {
            return 0;
        }
        match timestamp {
            None => peek_history(&self.total_supplies),
            Some(t) => {
                match lookup_history_at(&self.total_supplies, t) {
                    Some(b) => b,
                    None => {
                        proof {
                            assert(false);
                        }
                        0
                    },
                }
            },
        }
    }

    /// The tail balance of one holder's history.
    fn peek_balance(&self, p: &Principal) -> (r: u64)
        requires
            assoc_unique(histories_view(self.balances@)),
        ensures
            r == self.latest_balance(*p),
    {
        let ghost hv = histories_view(self.balances@);
        match assoc_find(&self.balances, *p) {
            None => 0,
            Some(i) => {
                proof {
                    lemma_assoc_idx_at(hv, *p, i as int);
                    assert(self.balances@[i as int].1@ == self.history_spec(*p));
                }
                let pair = &self.balances[i];
                peek_history(&pair.1)
            },
        }
    }
}

} // verus!
