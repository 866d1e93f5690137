//! Append-only balance history with snapshot lookup.
//!
//! Both the shares token and the voting-power ledger store, per key, an
//! ordered sequence of `(timestamp, balance)` entries.  Entries are only
//! appended and timestamps never decrease, so any prefix stays valid history
//! and the balance in effect at a past instant can be recovered by binary
//! search.

use vstd::prelude::*;
use vstd::pervasive::VecAdditionalExecFns;
use crate::types::Principal;
use crate::assoc::{assoc_has_key, assoc_idx, assoc_unique, assoc_find, lemma_assoc_idx_at, lemma_assoc_push};

verus! {

/// One snapshot: the balance that took effect at `timestamp`.
#[derive(Clone, Copy, PartialEq, Eq, Structural, Debug)]
pub struct BalanceEntry {
    pub timestamp: i64,
    pub balance: u64,
}

/// Timestamps are non-decreasing in append order.
pub open spec fn history_sorted(h: Seq<BalanceEntry>) -> bool {
    forall|i: int, j: int| 0 <= i <= j < h.len() ==> h[i].timestamp <= h[j].timestamp
}

/// The balance in effect at time `t`: the balance of the latest entry whose
/// timestamp is at most `t`, and 0 before the first entry (or when there is
/// no entry at all).
pub open spec fn history_value_at(h: Seq<BalanceEntry>, t: i64) -> u64
    decreases h.len(),
{
    if h.len() == 0 {
        0
    } else if t >= h.last().timestamp {
        h.last().balance
    } else {
        history_value_at(h.drop_last(), t)
    }
}

/// The lookup is 0 strictly before the first entry, equals the last balance
/// from the last timestamp on, and in between returns the entry in force:
/// the balance at the greatest index whose timestamp is at most `t`.
pub proof fn lemma_history_value_at(h: Seq<BalanceEntry>, t: i64)
    requires
        history_sorted(h),
    ensures
        h.len() > 0 && t < h[0].timestamp ==> history_value_at(h, t) == 0,
        h.len() > 0 && t >= h.last().timestamp ==> history_value_at(h, t) == h.last().balance,
        forall|i: int|
            0 <= i < h.len() && h[i].timestamp <= t && (i == h.len() - 1 || t < h[i + 1].timestamp)
                ==> history_value_at(h, t) == h[i].balance,
    decreases h.len(),
{
    if h.len() > 0 && t < h.last().timestamp {
        lemma_history_value_at(h.drop_last(), t);
        if t < h[0].timestamp {
            if h.drop_last().len() == 0 {
                assert(history_value_at(h.drop_last(), t) == 0);
            } else {
                assert(h.drop_last()[0] == h[0]);
            }
        }
        assert forall|i: int|
            0 <= i < h.len() && h[i].timestamp <= t && (i == h.len() - 1 || t < h[i + 1].timestamp)
                implies history_value_at(h, t) == h[i].balance by {
            let hh = h.drop_last();
            assert(i < h.len() - 1);
            assert(hh[i] == h[i]);
            if i < h.len() - 2 {
                assert(hh[i + 1] == h[i + 1]);
            }
        }
    }
}

/// Appending an entry at or after the last timestamp leaves every strictly
/// earlier instant's lookup unchanged.
pub proof fn lemma_history_append_past(h: Seq<BalanceEntry>, e: BalanceEntry, t: i64)
    requires
        t < e.timestamp,
    ensures
        history_value_at(h.push(e), t) == history_value_at(h, t),
{
    assert(h.push(e).drop_last() =~= h);
}

/// The balance of the latest entry, or 0 with no entry yet.
pub fn peek_history(history: &Vec<BalanceEntry>) -> (r: u64)
    ensures
        history@.len() == 0 ==> r == 0,
        history@.len() > 0 ==> r == history@.last().balance,
{
    if history.len() == 0 {
        0
    } else {
        history[history.len() - 1].balance
    }
}

/// Appends a snapshot.
pub fn push_entry(history: &mut Vec<BalanceEntry>, entry: BalanceEntry)
    ensures
        final(history)@ == old(history)@.push(entry),
{
    history.push(entry);
}

/// Binary search inside `[begin, end)` for the greatest index whose
/// timestamp is at most `timestamp`; the caller must know that the interval
/// starts at or before `timestamp`.
pub fn lookup_history(
    history: &Vec<BalanceEntry>,
    begin: usize,
    end: usize,
    timestamp: i64,
) -> (r: Option<usize>)
    requires
        history_sorted(history@),
        begin < end <= history@.len(),
        history@[begin as int].timestamp <= timestamp,
    ensures
        r matches Some(i) && begin <= i < end && history@[i as int].timestamp <= timestamp && (i
            + 1 < end ==> timestamp < history@[i as int + 1].timestamp),
{
    let mut lo = begin;
    let mut hi = end;
    while hi - lo > 1
        invariant
            begin <= lo < hi <= end <= history@.len(),
            history_sorted(history@),
            history@[lo as int].timestamp <= timestamp,
            hi < end ==> timestamp < history@[hi as int].timestamp,
        decreases hi - lo,
    {
        let mid = lo + (hi - lo) / 2;
        if history[mid].timestamp <= timestamp {
            lo = mid;
        } else {
            hi = mid;
        }
    }
    Some(lo)
}

/// A per-principal family of balance histories.
pub type HistoryMap = Vec<(Principal, Vec<BalanceEntry>)>;

/// The family with each history read as a sequence.
pub open spec fn histories_view(v: Seq<(Principal, Vec<BalanceEntry>)>) -> Seq<
    (Principal, Seq<BalanceEntry>),
> {
    v.map_values(|e: (Principal, Vec<BalanceEntry>)| (e.0, e.1@))
}

/// The history kept for `p`, empty when none has been started.
pub open spec fn history_of(hv: Seq<(Principal, Seq<BalanceEntry>)>, p: Principal) -> Seq<
    BalanceEntry,
> {
    if assoc_has_key(hv, p) {
        hv[assoc_idx(hv, p)].1
    } else {
        Seq::empty()
    }
}

/// Appending an entry to `p`'s history, starting it when absent.
pub open spec fn history_post(
    hv: Seq<(Principal, Seq<BalanceEntry>)>,
    p: Principal,
    e: BalanceEntry,
) -> Seq<(Principal, Seq<BalanceEntry>)> {
    if assoc_has_key(hv, p) {
        let i = assoc_idx(hv, p);
        hv.update(i, (p, hv[i].1.push(e)))
    } else {
        hv.push((p, seq![e]))
    }
}

/// Keys are distinct and every history is ordered by timestamp.
pub open spec fn histories_wf(hv: Seq<(Principal, Seq<BalanceEntry>)>) -> bool {
    &&& assoc_unique(hv)
    &&& forall|i: int| 0 <= i < hv.len() ==> history_sorted(#[trigger] hv[i].1)
}

/// What appending under one key does to each history of the family.
pub proof fn lemma_history_post(
    hv: Seq<(Principal, Seq<BalanceEntry>)>,
    p: Principal,
    e: BalanceEntry,
)
    requires
        histories_wf(hv),
        history_of(hv, p).len() > 0 ==> history_of(hv, p).last().timestamp <= e.timestamp,
    ensures
        histories_wf(history_post(hv, p, e)),
        forall|p2: Principal|
            assoc_has_key(history_post(hv, p, e), p2) <==> (assoc_has_key(hv, p2) || p2 == p),
        history_of(history_post(hv, p, e), p) == history_of(hv, p).push(e),
        forall|p2: Principal|
            p2 != p ==> history_of(history_post(hv, p, e), p2) == history_of(hv, p2),
{
    let post = history_post(hv, p, e);
    if assoc_has_key(hv, p) {
        let b = assoc_idx(hv, p);
        assert(0 <= b < hv.len() && hv[b].0 == p);
        assert(forall|i: int| 0 <= i < hv.len() ==> post[i].0 == hv[i].0);
        assert(assoc_unique(post));
        lemma_assoc_idx_at(post, p, b);
        assert(history_of(post, p) == history_of(hv, p).push(e));
        assert forall|p2: Principal|
            assoc_has_key(post, p2) <==> (assoc_has_key(hv, p2) || p2 == p) by {
            if assoc_has_key(post, p2) {
                let i = choose|i: int| 0 <= i < post.len() && post[i].0 == p2;
                assert(hv[i].0 == p2);
            }
            if assoc_has_key(hv, p2) {
                let i = choose|i: int| 0 <= i < hv.len() && hv[i].0 == p2;
                assert(post[i].0 == p2);
            }
        }
        assert forall|p2: Principal| p2 != p implies history_of(post, p2) == history_of(hv, p2) by {
            if assoc_has_key(hv, p2) {
                let i = choose|i: int| 0 <= i < hv.len() && hv[i].0 == p2;
                assert(i != b);
                assert(post[i] == hv[i]);
                lemma_assoc_idx_at(post, p2, i);
                lemma_assoc_idx_at(hv, p2, i);
            }
        }
        assert forall|i: int| 0 <= i < post.len() implies history_sorted(#[trigger] post[i].1) by {
            if i != b {
                assert(post[i] == hv[i]);
            } else {
                assert(history_sorted(hv[b].1));
                let h = hv[b].1;
                assert(post[i].1 == h.push(e));
                assert forall|x: int, y: int|
                    0 <= x <= y < h.push(e).len() implies h.push(e)[x].timestamp <= h.push(
                    e,
                )[y].timestamp by {
                    if y < h.len() {
                        assert(h.push(e)[x] == h[x] && h.push(e)[y] == h[y]);
                    } else if x < h.len() {
                        assert(h.push(e)[x] == h[x]);
                        assert(h[x].timestamp <= h.last().timestamp);
                    }
                }
            }
        }
    } else {
        lemma_assoc_push(hv, (p, seq![e]));
        lemma_assoc_idx_at(post, p, hv.len() as int);
        assert(history_of(hv, p).push(e) =~= seq![e]);
        assert forall|p2: Principal| p2 != p implies history_of(post, p2) == history_of(hv, p2) by {
            if assoc_has_key(hv, p2) {
                let i = choose|i: int| 0 <= i < hv.len() && hv[i].0 == p2;
                assert(post[i].0 == p2);
                lemma_assoc_idx_at(post, p2, i);
                lemma_assoc_idx_at(hv, p2, i);
            } else {
                assert(!assoc_has_key(post, p2));
            }
        }
        assert forall|i: int| 0 <= i < post.len() implies history_sorted(#[trigger] post[i].1) by {
            if i < hv.len() {
                assert(post[i] == hv[i]);
            } else {
                assert(post[i].1 =~= seq![e]);
            }
        }
    }
}

/// Appends an entry to `p`'s history in the family, starting one if needed.
pub fn append_history(map: &mut HistoryMap, p: Principal, entry: BalanceEntry)
    requires
        assoc_unique(histories_view(old(map)@)),
    ensures
        histories_view(final(map)@) == history_post(histories_view(old(map)@), p, entry),
{
    let ghost hv = histories_view(map@);
    match assoc_find(map, p) {
        Some(i) => {
            proof {
                lemma_assoc_idx_at(hv, p, i as int);
            }
            let mut tmp: (Principal, Vec<BalanceEntry>) = (p, Vec::new());
            map.set_and_swap(i, &mut tmp);
            tmp.1.push(entry);
            map.set_and_swap(i, &mut tmp);
            proof {
                assert(histories_view(map@) =~= history_post(hv, p, entry));
            }
        },
        None => {
            let mut h: Vec<BalanceEntry> = Vec::new();
            h.push(entry);
            map.push((p, h));
            proof {
                assert(histories_view(map@) =~= history_post(hv, p, entry));
            }
        },
    }
}

/// The latest balance of a history, 0 when empty.
pub open spec fn latest_of(h: Seq<BalanceEntry>) -> u64 {
    if h.len() == 0 {
        0
    } else {
        h.last().balance
    }
}

/// A timestamp no earlier than every recorded one; the earliest possible
/// instant when nothing is recorded yet.
pub open spec fn fits_after(h: Seq<BalanceEntry>, t: i64) -> bool {
    h.len() > 0 ==> h.last().timestamp <= t
}

/// The balance in effect at `timestamp`, by boundary checks and binary
/// search on the ordered history.
pub fn lookup_history_at(history: &Vec<BalanceEntry>, timestamp: i64) -> (r: Option<u64>)
    requires
        history_sorted(history@),
    ensures
        r == Some(history_value_at(history@, timestamp)),
{
    proof {
        lemma_history_value_at(history@, timestamp);
    }
    if history.len() == 0 {
        return Some(0);
    }
    if timestamp < history[0].timestamp {
        return Some(0);
    }
    let last = history[history.len() - 1];
    if timestamp >= last.timestamp {
        return Some(last.balance);
    }
    let idx = lookup_history(history, 0, history.len(), timestamp);
    match idx {
        Some(i) => Some(history[i].balance),
        None => None,
    }
}

} // verus!
