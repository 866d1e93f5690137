//! The move-event bus: an indexed listener set with filter-based matching.
//!
//! Listeners are enumerated under monotonically assigned ids and, for O(log n)
//! removal and O(k) matching, each id is also posted under the buckets of its
//! `from` and `to` filter keys (once, when the two keys coincide).  The
//! well-formedness predicate [`OnMoveListenersInfo::wf`] pins the index shape:
//! every enumerated id appears in exactly the buckets of its own listener's
//! filter keys and nowhere else, and each bucket keeps its ids strictly
//! ascending.

use vstd::prelude::*;
use vstd::pervasive::VecAdditionalExecFns;
use crate::types::{Account, RemoteCallEndpoint, EndpointView, TokenMoveEvent, account_eq};
use crate::assoc::{assoc_has_key, assoc_idx, assoc_unique, assoc_get, assoc_find_u64, lemma_assoc_idx_at, lemma_assoc_push, lemma_assoc_remove};

verus! {

/// `None` matches any account, `Some(a)` matches exactly the account `a`.
pub type AccountFilter = Option<Account>;

/// Equality of filter keys.
pub fn account_filter_eq(a: &AccountFilter, b: &AccountFilter) -> (r: bool)
    ensures
        r == (*a == *b),
{
    match (a, b) {
        (None, None) => true,
        (Some(x), Some(y)) => account_eq(x, y),
        _ => false,
    }
}

/// What moves a listener wants to hear about, by each side of the move.
#[derive(Clone, Copy, Debug)]
pub struct Filter {
    pub from: AccountFilter,
    pub to: AccountFilter,
}

/// A subscription: a filter plus the endpoint to invoke on matching moves.
#[derive(Debug)]
pub struct OnMoveListener {
    pub filter: Filter,
    pub endpoint: RemoteCallEndpoint,
}

/// Mathematical image of a listener.
pub struct OnMoveListenerView {
    pub filter: Filter,
    pub endpoint: EndpointView,
}

impl View for OnMoveListener {
    type V = OnMoveListenerView;

    open spec fn view(&self) -> OnMoveListenerView {
        OnMoveListenerView { filter: self.filter, endpoint: self.endpoint@ }
    }
}

impl Clone for OnMoveListener {
    fn clone(&self) -> (r: Self)
        ensures
            r@ == self@,
    {
        OnMoveListener { filter: self.filter, endpoint: self.endpoint.clone() }
    }
}

#[derive(Clone, Copy, PartialEq, Eq, Structural, Debug)]
pub enum OnMoveListenerError {
    AccessDenied,
    ListenerDoesNotExist,
    ListenerFatalError,
}

/// A move event paired with the listeners it matched, ready for fan-out.
pub struct TokenMoveEventAndListeners {
    pub event: TokenMoveEvent,
    pub listeners: Vec<OnMoveListener>,
}

/// The listener index.
pub struct OnMoveListenersInfo {
    pub id_counter: u64,
    pub enumeration: Vec<(u64, OnMoveListener)>,
    pub index: Vec<(AccountFilter, Vec<u64>)>,
}

/// `ids` holds `id` somewhere.
pub open spec fn ids_contain(ids: Seq<u64>, id: u64) -> bool {
    exists|i: int| 0 <= i < ids.len() && ids[i] == id
}

/// `ids` is strictly ascending.
pub open spec fn ids_ascending(ids: Seq<u64>) -> bool {
    forall|i: int, j: int| 0 <= i < j < ids.len() ==> ids[i] < ids[j]
}

/// The index as a sequence of buckets of id sequences.
pub type IndexView = Seq<(AccountFilter, Seq<u64>)>;

/// Every bucket of the index is strictly ascending.
pub open spec fn index_buckets_ascending(ix: IndexView) -> bool {
    forall|b: int| 0 <= b < ix.len() ==> ids_ascending(#[trigger] ix[b].1)
}

/// The bucket posted under `key`, or the empty sequence if none exists.
pub open spec fn bucket_of(ix: IndexView, key: AccountFilter) -> Seq<u64> {
    if assoc_has_key(ix, key) {
        ix[assoc_idx(ix, key)].1
    } else {
        Seq::empty()
    }
}

/// Posting `id` under `key`: appended to the existing bucket, or a fresh
/// one-element bucket.
pub open spec fn bucket_post(ix: IndexView, key: AccountFilter, id: u64) -> IndexView {
    if assoc_has_key(ix, key) {
        let b = assoc_idx(ix, key);
        ix.update(b, (key, ix[b].1.push(id)))
    } else {
        ix.push((key, seq![id]))
    }
}

/// Withdrawing `id` from the bucket under `key` (meaningful when present).
pub open spec fn bucket_pull(ix: IndexView, key: AccountFilter, id: u64) -> IndexView {
    let b = assoc_idx(ix, key);
    let ids = ix[b].1;
    let k = choose|k: int| 0 <= k < ids.len() && ids[k] == id;
    ix.update(b, (key, ids.remove(k)))
}

/// Posting an id under both filter keys (once when they coincide).
pub open spec fn index_post(ix: IndexView, f: Filter, id: u64) -> IndexView {
    let ix1 = bucket_post(ix, f.from, id);
    if f.to == f.from {
        ix1
    } else {
        bucket_post(ix1, f.to, id)
    }
}

/// Withdrawing an id from both filter keys (once when they coincide).
pub open spec fn index_pull(ix: IndexView, f: Filter, id: u64) -> IndexView {
    let ix1 = bucket_pull(ix, f.from, id);
    if f.to == f.from {
        ix1
    } else {
        bucket_pull(ix1, f.to, id)
    }
}

impl OnMoveListenersInfo {
    /// The index with each bucket read as a sequence.
    pub open spec fn index_view(self) -> IndexView {
        self.index@.map_values(|e: (AccountFilter, Vec<u64>)| (e.0, e.1@))
    }

    /// The enumerated listener stored under `id`.
    pub open spec fn listener_at(self, id: u64) -> OnMoveListener {
        self.enumeration@[assoc_idx(self.enumeration@, id)].1
    }

    /// Every enumerated id is below the counter, and ids are distinct.
    pub open spec fn enumeration_wf(self) -> bool {
        &&& assoc_unique(self.enumeration@)
        &&& forall|i: int|
            0 <= i < self.enumeration@.len() ==> #[trigger] self.enumeration@[i].0
                < self.id_counter
    }

    /// Bucket keys are distinct and every bucket is strictly ascending with
    /// ids below the counter.
    pub open spec fn buckets_wf(self) -> bool {
        let ix = self.index_view();
        &&& assoc_unique(ix)
        &&& index_buckets_ascending(ix)
        &&& forall|b: int, k: int|
            0 <= b < ix.len() && 0 <= k < ix[b].1.len() ==> #[trigger] ix[b].1[k]
                < self.id_counter
    }

    /// Every id found in a bucket is enumerated and the bucket's key is one
    /// of that listener's own filter keys: an id appears nowhere else.
    pub open spec fn buckets_sound(self) -> bool {
        let ix = self.index_view();
        forall|b: int, k: int|
            0 <= b < ix.len() && 0 <= k < ix[b].1.len() ==> {
                let id = #[trigger] ix[b].1[k];
                &&& assoc_has_key(self.enumeration@, id)
                &&& (ix[b].0 == self.listener_at(id).filter.from || ix[b].0 == self.listener_at(
                    id,
                ).filter.to)
            }
    }

    /// Every enumerated listener is posted under the buckets of both of its
    /// filter keys.
    pub open spec fn listeners_indexed(self) -> bool {
        let ix = self.index_view();
        forall|i: int|
            0 <= i < self.enumeration@.len() ==> {
                let id = (#[trigger] self.enumeration@[i]).0;
                let f = self.enumeration@[i].1.filter;
                &&& assoc_has_key(ix, f.from)
                &&& ids_contain(bucket_of(ix, f.from), id)
                &&& assoc_has_key(ix, f.to)
                &&& ids_contain(bucket_of(ix, f.to), id)
            }
    }

    /// The index invariant: for every id in the enumeration, the id appears
    /// in exactly the `from`- and `to`-buckets of its listener (one bucket
    /// when they coincide) and nowhere else.
    pub open spec fn wf(self) -> bool {
        &&& self.enumeration_wf()
        &&& self.buckets_wf()
        &&& self.buckets_sound()
        &&& self.listeners_indexed()
    }

    /// An empty index.
    pub fn new() -> (r: OnMoveListenersInfo)
        ensures
            r.wf(),
            r.id_counter == 0,
            r.enumeration@ == Seq::<(u64, OnMoveListener)>::empty(),
            r.index_view() == Seq::<(AccountFilter, Seq<u64>)>::empty(),
    {
        let r = OnMoveListenersInfo { id_counter: 0, enumeration: Vec::new(), index: Vec::new() };
        proof {
            assert(r.index_view() =~= Seq::<(AccountFilter, Seq<u64>)>::empty());
        }
        r
    }
}

/// Appending a strictly larger id keeps a bucket ascending.
proof fn lemma_ids_push(ids: Seq<u64>, id: u64)
    requires
        ids_ascending(ids),
        forall|i: int| 0 <= i < ids.len() ==> ids[i] < id,
    ensures
        ids_ascending(ids.push(id)),
        forall|id2: u64| ids_contain(ids.push(id), id2) <==> (ids_contain(ids, id2) || id2 == id),
{
    let t = ids.push(id);
    assert forall|id2: u64| ids_contain(t, id2) implies (ids_contain(ids, id2) || id2 == id) by {
        let i = choose|i: int| 0 <= i < t.len() && t[i] == id2;
        if i < ids.len() {
            assert(ids[i] == id2);
        }
    }
    assert forall|id2: u64| ids_contain(ids, id2) || id2 == id implies ids_contain(t, id2) by {
        if ids_contain(ids, id2) {
            let i = choose|i: int| 0 <= i < ids.len() && ids[i] == id2;
            assert(t[i] == id2);
        } else {
            assert(t[ids.len() as int] == id2);
        }
    }
}

/// Removing one id keeps a bucket ascending and drops exactly that id.
proof fn lemma_ids_remove(ids: Seq<u64>, k: int)
    requires
        ids_ascending(ids),
        0 <= k < ids.len(),
    ensures
        ids_ascending(ids.remove(k)),
        forall|id2: u64|
            ids_contain(ids.remove(k), id2) <==> (ids_contain(ids, id2) && id2 != ids[k]),
{
    let t = ids.remove(k);
    assert(forall|j: int| 0 <= j < k ==> t[j] == ids[j]);
    assert(forall|j: int| k <= j < t.len() ==> t[j] == ids[j + 1]);
    assert forall|id2: u64| ids_contain(t, id2) implies (ids_contain(ids, id2) && id2 != ids[k]) by {
        let j = choose|j: int| 0 <= j < t.len() && t[j] == id2;
        if j < k {
            assert(ids[j] == id2);
            assert(ids[j] < ids[k]);
        } else {
            assert(ids[j + 1] == id2);
            assert(ids[k] < ids[j + 1]);
        }
    }
    assert forall|id2: u64| ids_contain(ids, id2) && id2 != ids[k] implies ids_contain(t, id2) by {
        let j = choose|j: int| 0 <= j < ids.len() && ids[j] == id2;
        assert(j != k);
        if j < k {
            assert(t[j] == id2);
        } else {
            assert(t[j - 1] == id2);
        }
    }
}

/// In an ascending bucket, an id sits at one position only.
proof fn lemma_ids_position_unique(ids: Seq<u64>, k1: int, k2: int)
    requires
        ids_ascending(ids),
        0 <= k1 < ids.len(),
        0 <= k2 < ids.len(),
        ids[k1] == ids[k2],
    ensures
        k1 == k2,
{
    if k1 < k2 {
        assert(ids[k1] < ids[k2]);
    }
    if k2 < k1 {
        assert(ids[k2] < ids[k1]);
    }
}

/// What posting under a key does to each bucket of a distinct-keyed index.
proof fn lemma_bucket_post(ix: IndexView, key: AccountFilter, id: u64)
    requires
        assoc_unique(ix),
    ensures
        assoc_unique(bucket_post(ix, key, id)),
        forall|k2: AccountFilter|
            assoc_has_key(bucket_post(ix, key, id), k2) <==> (assoc_has_key(ix, k2) || k2 == key),
        bucket_of(bucket_post(ix, key, id), key) == bucket_of(ix, key).push(id),
        forall|k2: AccountFilter|
            k2 != key ==> bucket_of(bucket_post(ix, key, id), k2) == bucket_of(ix, k2),
{
    let post = bucket_post(ix, key, id);
    if assoc_has_key(ix, key) {
        let b = assoc_idx(ix, key);
        assert(0 <= b < ix.len() && ix[b].0 == key);
        assert(forall|i: int| 0 <= i < ix.len() ==> post[i].0 == ix[i].0);
        assert(assoc_unique(post));
        lemma_assoc_idx_at(post, key, b);
        assert(bucket_of(post, key) == bucket_of(ix, key).push(id));
        assert forall|k2: AccountFilter|
            assoc_has_key(post, k2) <==> (assoc_has_key(ix, k2) || k2 == key) by {
            if assoc_has_key(post, k2) {
                let i = choose|i: int| 0 <= i < post.len() && post[i].0 == k2;
                assert(ix[i].0 == k2);
            }
            if assoc_has_key(ix, k2) {
                let i = choose|i: int| 0 <= i < ix.len() && ix[i].0 == k2;
                assert(post[i].0 == k2);
            }
        }
        assert forall|k2: AccountFilter|
            k2 != key implies bucket_of(post, k2) == bucket_of(ix, k2) by {
            if assoc_has_key(ix, k2) {
                let i = choose|i: int| 0 <= i < ix.len() && ix[i].0 == k2;
                assert(i != b);
                assert(post[i] == ix[i]);
                lemma_assoc_idx_at(post, k2, i);
                lemma_assoc_idx_at(ix, k2, i);
            }
        }
    } else {
        lemma_assoc_push(ix, (key, seq![id]));
        lemma_assoc_idx_at(post, key, ix.len() as int);
        assert(bucket_of(ix, key).push(id) =~= seq![id]);
        assert forall|k2: AccountFilter|
            k2 != key implies bucket_of(post, k2) == bucket_of(ix, k2) by {
            if assoc_has_key(ix, k2) {
                let i = choose|i: int| 0 <= i < ix.len() && ix[i].0 == k2;
                assert(post[i].0 == k2);
                lemma_assoc_idx_at(post, k2, i);
                lemma_assoc_idx_at(ix, k2, i);
            } else {
                assert(!assoc_has_key(post, k2));
            }
        }
    }
}

/// What withdrawing an id does to each bucket of a distinct-keyed index.
proof fn lemma_bucket_pull(ix: IndexView, key: AccountFilter, id: u64)
    requires
        assoc_unique(ix),
        assoc_has_key(ix, key),
        ids_contain(bucket_of(ix, key), id),
        index_buckets_ascending(ix),
    ensures
        assoc_unique(bucket_pull(ix, key, id)),
        index_buckets_ascending(bucket_pull(ix, key, id)),
        forall|k2: AccountFilter|
            assoc_has_key(bucket_pull(ix, key, id), k2) == assoc_has_key(ix, k2),
        ids_ascending(bucket_of(bucket_pull(ix, key, id), key)),
        forall|id2: u64|
            ids_contain(bucket_of(bucket_pull(ix, key, id), key), id2) <==> (ids_contain(
                bucket_of(ix, key),
                id2,
            ) && id2 != id),
        forall|k2: AccountFilter|
            k2 != key ==> bucket_of(bucket_pull(ix, key, id), k2) == bucket_of(ix, k2),
        bucket_of(ix, key).len() > 0 && bucket_of(ix, key).last() == id ==> bucket_of(
            bucket_pull(ix, key, id),
            key,
        ) == bucket_of(ix, key).drop_last(),
{
    let post = bucket_pull(ix, key, id);
    let b = assoc_idx(ix, key);
    let ids = ix[b].1;
    assert(ids_ascending(ids));
    let k = choose|k: int| 0 <= k < ids.len() && ids[k] == id;
    assert(0 <= k < ids.len() && ids[k] == id);
    assert(forall|i: int| 0 <= i < ix.len() ==> post[i].0 == ix[i].0);
    assert(assoc_unique(post));
    lemma_assoc_idx_at(post, key, b);
    lemma_ids_remove(ids, k);
    assert forall|b2: int| 0 <= b2 < post.len() implies ids_ascending(#[trigger] post[b2].1) by {
        if b2 != b {
            assert(post[b2] == ix[b2]);
            assert(ids_ascending(ix[b2].1));
        }
    }
    assert forall|k2: AccountFilter| assoc_has_key(post, k2) == assoc_has_key(ix, k2) by {
        if assoc_has_key(post, k2) {
            let i = choose|i: int| 0 <= i < post.len() && post[i].0 == k2;
            assert(ix[i].0 == k2);
        }
        if assoc_has_key(ix, k2) {
            let i = choose|i: int| 0 <= i < ix.len() && ix[i].0 == k2;
            assert(post[i].0 == k2);
        }
    }
    assert forall|k2: AccountFilter| k2 != key implies bucket_of(post, k2) == bucket_of(ix, k2) by {
        if assoc_has_key(ix, k2) {
            let i = choose|i: int| 0 <= i < ix.len() && ix[i].0 == k2;
            assert(i != b);
            assert(post[i] == ix[i]);
            lemma_assoc_idx_at(post, k2, i);
            lemma_assoc_idx_at(ix, k2, i);
        }
    }
    if ids.len() > 0 && ids.last() == id {
        lemma_ids_position_unique(ids, k, ids.len() - 1);
        assert(ids.remove(ids.len() - 1) =~= ids.drop_last());
    }
}

/// Finds the position of the bucket posted under `key`.
fn find_bucket(index: &Vec<(AccountFilter, Vec<u64>)>, key: &AccountFilter) -> (r: Option<usize>)
    ensures
        match r {
            Some(b) => b < index@.len() && index@[b as int].0 == *key,
            None => !assoc_has_key(
                index@.map_values(|e: (AccountFilter, Vec<u64>)| (e.0, e.1@)),
                *key,
            ),
        },
{
    let ghost ix = index@.map_values(|e: (AccountFilter, Vec<u64>)| (e.0, e.1@));
    let mut b: usize = 0;
    while b < index.len()
        invariant
            b <= index@.len(),
            ix == index@.map_values(|e: (AccountFilter, Vec<u64>)| (e.0, e.1@)),
            forall|j: int| 0 <= j < b ==> ix[j].0 != *key,
        decreases index@.len() - b,
    {
        if account_filter_eq(&index[b].0, key) {
            return Some(b);
        }
        b = b + 1;
    }
    None
}

/// Posts `id` at the end of the bucket under `key`, creating the bucket if
/// none exists yet.
fn post_id(index: &mut Vec<(AccountFilter, Vec<u64>)>, key: AccountFilter, id: u64)
    requires
        assoc_unique(old(index)@.map_values(|e: (AccountFilter, Vec<u64>)| (e.0, e.1@))),
    ensures
        final(index)@.map_values(|e: (AccountFilter, Vec<u64>)| (e.0, e.1@)) == bucket_post(
            old(index)@.map_values(|e: (AccountFilter, Vec<u64>)| (e.0, e.1@)),
            key,
            id,
        ),
{
    let ghost ix = index@.map_values(|e: (AccountFilter, Vec<u64>)| (e.0, e.1@));
    match find_bucket(index, &key) {
        Some(b) => {
            proof {
                lemma_assoc_idx_at(ix, key, b as int);
            }
            let mut tmp: (AccountFilter, Vec<u64>) = (None, Vec::new());
            index.set_and_swap(b, &mut tmp);
            tmp.1.push(id);
            index.set_and_swap(b, &mut tmp);
            proof {
                assert(index@.map_values(|e: (AccountFilter, Vec<u64>)| (e.0, e.1@))
                    =~= bucket_post(ix, key, id));
            }
        },
        None => {
            let mut ids: Vec<u64> = Vec::new();
            ids.push(id);
            index.push((key, ids));
            proof {
                assert(index@.map_values(|e: (AccountFilter, Vec<u64>)| (e.0, e.1@))
                    =~= bucket_post(ix, key, id));
            }
        },
    }
}

/// Adding a fresh listener under the next id keeps the index well-formed.
proof fn lemma_add_preserves_wf(pre: OnMoveListenersInfo, post: OnMoveListenersInfo, l: OnMoveListener)
    requires
        pre.wf(),
        pre.id_counter < u64::MAX,
        post.id_counter == pre.id_counter + 1,
        post.enumeration@ == pre.enumeration@.push((pre.id_counter, l)),
        post.index_view() == index_post(pre.index_view(), l.filter, pre.id_counter),
    ensures
        post.wf(),
{
    let id = pre.id_counter;
    let f = l.filter;
    let ix = pre.index_view();
    let en = pre.enumeration@;
    assert forall|i: int| 0 <= i < en.len() implies en[i].0 != id by {
        assert(en[i].0 < id);
    }
    assert(!assoc_has_key(en, id));
    lemma_assoc_push(en, (id, l));
    lemma_assoc_idx_at(post.enumeration@, id, en.len() as int);
    assert(post.listener_at(id) == l);
    // every previously enumerated listener keeps its binding
    assert forall|id2: u64| assoc_has_key(en, id2) implies assoc_has_key(post.enumeration@, id2)
        && post.listener_at(id2) == pre.listener_at(id2) by {
        let i = choose|i: int| 0 <= i < en.len() && en[i].0 == id2;
        lemma_assoc_idx_at(en, id2, i);
        assert(post.enumeration@[i] == en[i]);
        lemma_assoc_idx_at(post.enumeration@, id2, i);
    }
    // enumeration_wf
    assert(post.enumeration_wf());
    // the index transition, bucket by bucket
    lemma_bucket_post(ix, f.from, id);
    let ix1 = bucket_post(ix, f.from, id);
    if f.to == f.from {
        assert(post.index_view() == ix1);
    } else {
        lemma_bucket_post(ix1, f.to, id);
    }
    let pix = post.index_view();
    // characterize every bucket of the new index
    assert(bucket_of(pix, f.from) == if f.to == f.from {
        bucket_of(ix, f.from).push(id)
    } else {
        bucket_of(ix, f.from).push(id)
    });
    assert(bucket_of(pix, f.to) == if f.to == f.from {
        bucket_of(ix, f.from).push(id)
    } else {
        bucket_of(ix, f.to).push(id)
    });
    assert forall|k2: AccountFilter| k2 != f.from && k2 != f.to implies bucket_of(pix, k2)
        == bucket_of(ix, k2) by {}
    assert forall|k2: AccountFilter|
        assoc_has_key(pix, k2) <==> (assoc_has_key(ix, k2) || k2 == f.from || k2 == f.to) by {}
    // buckets_wf: ascending with ids below the new counter
    assert forall|b: int| 0 <= b < pix.len() implies ids_ascending(#[trigger] pix[b].1) by {
        let k2 = pix[b].0;
        lemma_assoc_idx_at(pix, k2, b);
        assert(pix[b].1 == bucket_of(pix, k2));
        if k2 == f.from || k2 == f.to {
            if assoc_has_key(ix, k2) {
                lemma_assoc_idx_at(ix, k2, assoc_idx(ix, k2));
                assert(forall|j: int|
                    0 <= j < bucket_of(ix, k2).len() ==> #[trigger] bucket_of(ix, k2)[j] < id);
                lemma_ids_push(bucket_of(ix, k2), id);
            } else {
                assert(bucket_of(ix, k2) =~= Seq::<u64>::empty());
                lemma_ids_push(bucket_of(ix, k2), id);
            }
        } else {
            if assoc_has_key(ix, k2) {
                assert(ids_ascending(ix[assoc_idx(ix, k2)].1));
            }
        }
    }
    assert forall|b: int, k: int| 0 <= b < pix.len() && 0 <= k < pix[b].1.len() implies #[trigger] pix[b].1[k]
        < post.id_counter by {
        let k2 = pix[b].0;
        lemma_assoc_idx_at(pix, k2, b);
        assert(pix[b].1 == bucket_of(pix, k2));
        if k2 == f.from || k2 == f.to {
            lemma_ids_push_index(bucket_of(ix, k2), id, k);
        } else {
            assert(bucket_of(pix, k2) == bucket_of(ix, k2));
        }
    }
    // buckets_sound
    assert forall|b: int, k: int| 0 <= b < pix.len() && 0 <= k < pix[b].1.len() implies {
        let id2 = #[trigger] pix[b].1[k];
        &&& assoc_has_key(post.enumeration@, id2)
        &&& (pix[b].0 == post.listener_at(id2).filter.from || pix[b].0 == post.listener_at(
            id2,
        ).filter.to)
    } by {
        let k2 = pix[b].0;
        lemma_assoc_idx_at(pix, k2, b);
        assert(pix[b].1 == bucket_of(pix, k2));
        let id2 = pix[b].1[k];
        if k2 == f.from || k2 == f.to {
            lemma_ids_push_index(bucket_of(ix, k2), id, k);
            if id2 == id {
                assert(post.listener_at(id) == l);
            } else {
                assert(ids_contain(bucket_of(ix, k2), id2)) by {
                    assert(bucket_of(ix, k2)[k] == id2);
                }
                lemma_bucket_membership_sound(pre, k2, id2);
            }
        } else {
            assert(bucket_of(pix, k2) == bucket_of(ix, k2));
            assert(ids_contain(bucket_of(ix, k2), id2)) by {
                assert(bucket_of(ix, k2)[k] == id2);
            }
            lemma_bucket_membership_sound(pre, k2, id2);
        }
    }
    // listeners_indexed
    assert forall|i: int| 0 <= i < post.enumeration@.len() implies {
        let id2 = (#[trigger] post.enumeration@[i]).0;
        let f2 = post.enumeration@[i].1.filter;
        &&& assoc_has_key(pix, f2.from)
        &&& ids_contain(bucket_of(pix, f2.from), id2)
        &&& assoc_has_key(pix, f2.to)
        &&& ids_contain(bucket_of(pix, f2.to), id2)
    } by {
        if i < en.len() {
            assert(post.enumeration@[i] == en[i]);
            let id2 = en[i].0;
            let f2 = en[i].1.filter;
            assert((#[trigger] en[i]).0 == id2);
            assert(assoc_has_key(ix, f2.from) && ids_contain(bucket_of(ix, f2.from), id2));
            assert(assoc_has_key(ix, f2.to) && ids_contain(bucket_of(ix, f2.to), id2));
            lemma_contain_after_post(ix, pix, f, id, f2.from, id2);
            lemma_contain_after_post(ix, pix, f, id, f2.to, id2);
        } else {
            assert(post.enumeration@[i] == (id, l));
            assert(bucket_of(pix, f.from)[bucket_of(ix, f.from).len() as int] == id);
            assert(ids_contain(bucket_of(pix, f.from), id));
            if f.to == f.from {
                assert(ids_contain(bucket_of(pix, f.to), id));
            } else {
                assert(bucket_of(pix, f.to)[bucket_of(ix, f.to).len() as int] == id);
                assert(ids_contain(bucket_of(pix, f.to), id));
            }
            assert(assoc_has_key(pix, f.from));
            assert(assoc_has_key(pix, f.to));
        }
    }
}

/// Any id of a pushed bucket is either an old id or the pushed one.
proof fn lemma_ids_push_index(ids: Seq<u64>, id: u64, k: int)
    requires
        0 <= k < ids.push(id).len(),
    ensures
        ids.push(id)[k] == id || (0 <= k < ids.len() && ids.push(id)[k] == ids[k]),
{
}

/// Unfolds the soundness invariant at one bucket membership.
proof fn lemma_bucket_membership_sound(pre: OnMoveListenersInfo, key: AccountFilter, id2: u64)
    requires
        pre.wf(),
        ids_contain(bucket_of(pre.index_view(), key), id2),
    ensures
        assoc_has_key(pre.enumeration@, id2),
        key == pre.listener_at(id2).filter.from || key == pre.listener_at(id2).filter.to,
        id2 < pre.id_counter,
{
    let ix = pre.index_view();
    assert(assoc_has_key(ix, key));
    let b = assoc_idx(ix, key);
    let k = choose|k: int| 0 <= k < bucket_of(ix, key).len() && bucket_of(ix, key)[k] == id2;
    assert(ix[b].1[k] == id2);
}

/// A listener that was posted under its key stays posted after a fresh id
/// is posted anywhere.
proof fn lemma_contain_after_post(
    ix: IndexView,
    pix: IndexView,
    f: Filter,
    id: u64,
    key: AccountFilter,
    id2: u64,
)
    requires
        assoc_unique(ix),
        assoc_has_key(ix, key),
        ids_contain(bucket_of(ix, key), id2),
        pix == index_post(ix, f, id),
    ensures
        assoc_has_key(pix, key),
        ids_contain(bucket_of(pix, key), id2),
{
    lemma_bucket_post(ix, f.from, id);
    let ix1 = bucket_post(ix, f.from, id);
    if f.to == f.from {
        assert(pix == ix1);
        if key == f.from {
            lemma_contain_in_push(bucket_of(ix, key), id, id2);
        }
    } else {
        lemma_bucket_post(ix1, f.to, id);
        if key == f.from {
            lemma_contain_in_push(bucket_of(ix, key), id, id2);
            if key != f.to {
                assert(bucket_of(pix, key) == bucket_of(ix1, key));
            } else {
                lemma_contain_in_push(bucket_of(ix1, key), id, id2);
            }
        } else if key == f.to {
            assert(bucket_of(ix1, key) == bucket_of(ix, key));
            lemma_contain_in_push(bucket_of(ix1, key), id, id2);
        } else {
            assert(bucket_of(pix, key) == bucket_of(ix, key));
        }
    }
}

proof fn lemma_contain_in_push(ids: Seq<u64>, id: u64, id2: u64)
    requires
        ids_contain(ids, id2),
    ensures
        ids_contain(ids.push(id), id2),
{
    let i = choose|i: int| 0 <= i < ids.len() && ids[i] == id2;
    assert(ids.push(id)[i] == id2);
}

impl OnMoveListenersInfo {
    /// Stores a listener under the next id and posts the id under the
    /// buckets of its `from` and `to` filter keys (only once when the two
    /// keys are equal).  Ids within each bucket remain ascending.
    pub fn add_listener(&mut self, listener: OnMoveListener) -> (r: Result<
        u64,
        OnMoveListenerError,
    >)
        requires
            old(self).wf(),
            old(self).id_counter < u64::MAX,
        ensures
            final(self).wf(),
            r == Ok::<u64, OnMoveListenerError>(old(self).id_counter),
            final(self).id_counter == old(self).id_counter + 1,
            final(self).enumeration@ == old(self).enumeration@.push(
                (old(self).id_counter, listener),
            ),
            final(self).index_view() == index_post(
                old(self).index_view(),
                listener.filter,
                old(self).id_counter,
            ),
    {
        let id = self.id_counter;
        let filter = listener.filter;
        proof {
            assert forall|b: int, k: int|
                0 <= b < old(self).index_view().len() && 0 <= k < old(self).index_view()[b].1.len()
                    implies #[trigger] old(self).index_view()[b].1[k] < id by {}
        }
        self.enumeration.push((id, listener));
        if account_filter_eq(&filter.from, &filter.to) {
            post_id(&mut self.index, filter.from, id);
        } else {
            post_id(&mut self.index, filter.from, id);
            proof {
                lemma_bucket_post(old(self).index_view(), filter.from, id);
            }
            post_id(&mut self.index, filter.to, id);
        }
        self.id_counter = self.id_counter + 1;
        proof {
            lemma_add_preserves_wf(*old(self), *self, listener);
        }
        Ok(id)
    }
}

/// Binary search for an id in an ascending bucket.
fn ids_search(ids: &Vec<u64>, id: u64) -> (r: Option<usize>)
    requires
        ids_ascending(ids@),
    ensures
        match r {
            Some(k) => k < ids@.len() && ids@[k as int] == id,
            None => !ids_contain(ids@, id),
        },
{
    let mut lo: usize = 0;
    let mut hi: usize = ids.len();
    while lo < hi
        invariant
            lo <= hi <= ids@.len(),
            ids_ascending(ids@),
            forall|j: int| 0 <= j < ids@.len() && !(lo <= j < hi) ==> ids@[j] != id,
        decreases hi - lo,
    {
        let mid = lo + (hi - lo) / 2;
        if ids[mid] == id {
            return Some(mid);
        } else if ids[mid] < id {
            proof {
                assert forall|j: int| 0 <= j <= mid as int implies ids@[j] != id by {
                    if j < (mid as int) {
                        assert(ids@[j] < ids@[mid as int]);
                    }
                }
            }
            lo = mid + 1;
        } else {
            proof {
                assert forall|j: int| mid as int <= j < ids@.len() implies ids@[j] != id by {
                    if (mid as int) < j {
                        assert(ids@[mid as int] < ids@[j]);
                    }
                }
            }
            hi = mid;
        }
    }
    None
}

/// Withdraws `id` from the bucket under `key` by binary search on the
/// ascending id sequence.
fn pull_id(index: &mut Vec<(AccountFilter, Vec<u64>)>, key: AccountFilter, id: u64) -> (r: Result<
    (),
    OnMoveListenerError,
>)
    requires
        assoc_unique(old(index)@.map_values(|e: (AccountFilter, Vec<u64>)| (e.0, e.1@))),
        index_buckets_ascending(old(index)@.map_values(|e: (AccountFilter, Vec<u64>)| (e.0, e.1@))),
        assoc_has_key(old(index)@.map_values(|e: (AccountFilter, Vec<u64>)| (e.0, e.1@)), key),
        ids_contain(
            bucket_of(old(index)@.map_values(|e: (AccountFilter, Vec<u64>)| (e.0, e.1@)), key),
            id,
        ),
    ensures
        r is Ok,
        final(index)@.map_values(|e: (AccountFilter, Vec<u64>)| (e.0, e.1@)) == bucket_pull(
            old(index)@.map_values(|e: (AccountFilter, Vec<u64>)| (e.0, e.1@)),
            key,
            id,
        ),
{
    let ghost ix = index@.map_values(|e: (AccountFilter, Vec<u64>)| (e.0, e.1@));
    match find_bucket(index, &key) {
        None => {
            proof {
                assert(false);
            }
            Err(OnMoveListenerError::ListenerFatalError)
        },
        Some(b) => {
            proof {
                lemma_assoc_idx_at(ix, key, b as int);
                assert(ids_ascending(ix[b as int].1));
            }
            let mut tmp: (AccountFilter, Vec<u64>) = (None, Vec::new());
            index.set_and_swap(b, &mut tmp);
            match ids_search(&tmp.1, id) {
                None => {
                    proof {
                        assert(tmp.1@ == bucket_of(ix, key));
                        assert(false);
                    }
                    index.set_and_swap(b, &mut tmp);
                    Err(OnMoveListenerError::ListenerFatalError)
                },
                Some(k) => {
                    tmp.1.remove(k);
                    index.set_and_swap(b, &mut tmp);
                    proof {
                        let ids = ix[b as int].1;
                        let kk = choose|kk: int| 0 <= kk < ids.len() && ids[kk] == id;
                        lemma_ids_position_unique(ids, kk, k as int);
                        assert(index@.map_values(|e: (AccountFilter, Vec<u64>)| (e.0, e.1@))
                            =~= bucket_pull(ix, key, id));
                    }
                    Ok(())
                },
            }
        },
    }
}

/// How withdrawing an enumerated listener's id transforms each bucket.
proof fn lemma_remove_index_chars(pre: OnMoveListenersInfo, post: OnMoveListenersInfo, i: int)
    requires
        pre.wf(),
        0 <= i < pre.enumeration@.len(),
        post.index_view() == index_pull(
            pre.index_view(),
            pre.enumeration@[i].1.filter,
            pre.enumeration@[i].0,
        ),
    ensures
        assoc_unique(post.index_view()),
        index_buckets_ascending(post.index_view()),
        forall|k2: AccountFilter|
            assoc_has_key(post.index_view(), k2) == assoc_has_key(pre.index_view(), k2),
        forall|k2: AccountFilter|
            k2 != pre.enumeration@[i].1.filter.from && k2 != pre.enumeration@[i].1.filter.to
                ==> bucket_of(post.index_view(), k2) == bucket_of(pre.index_view(), k2),
        forall|id2: u64| #[trigger]
            ids_contain(bucket_of(post.index_view(), pre.enumeration@[i].1.filter.from), id2)
                <==> (ids_contain(bucket_of(pre.index_view(), pre.enumeration@[i].1.filter.from), id2)
                && id2 != pre.enumeration@[i].0),
        forall|id2: u64| #[trigger]
            ids_contain(bucket_of(post.index_view(), pre.enumeration@[i].1.filter.to), id2)
                <==> (ids_contain(bucket_of(pre.index_view(), pre.enumeration@[i].1.filter.to), id2)
                && id2 != pre.enumeration@[i].0),
{
    let id = pre.enumeration@[i].0;
    let f = pre.enumeration@[i].1.filter;
    let ix = pre.index_view();
    let pix = post.index_view();
    assert(assoc_has_key(ix, f.from) && ids_contain(bucket_of(ix, f.from), id));
    assert(assoc_has_key(ix, f.to) && ids_contain(bucket_of(ix, f.to), id));
    lemma_bucket_pull(ix, f.from, id);
    let ix1 = bucket_pull(ix, f.from, id);
    if f.to != f.from {
        assert(bucket_of(ix1, f.to) == bucket_of(ix, f.to));
        assert(assoc_has_key(ix1, f.to));
        lemma_bucket_pull(ix1, f.to, id);
    }
}

/// Removing an enumerated listener keeps the index well-formed.
proof fn lemma_remove_preserves_wf(pre: OnMoveListenersInfo, post: OnMoveListenersInfo, i: int)
    requires
        pre.wf(),
        0 <= i < pre.enumeration@.len(),
        post.id_counter == pre.id_counter,
        post.enumeration@ == pre.enumeration@.remove(i),
        post.index_view() == index_pull(
            pre.index_view(),
            pre.enumeration@[i].1.filter,
            pre.enumeration@[i].0,
        ),
    ensures
        post.wf(),
{
    let id = pre.enumeration@[i].0;
    let f = pre.enumeration@[i].1.filter;
    let ix = pre.index_view();
    let en = pre.enumeration@;
    let pix = post.index_view();
    lemma_assoc_idx_at(en, id, i);
    lemma_assoc_remove(en, i);
    lemma_remove_index_chars(pre, post, i);
    // every other enumerated listener keeps its binding
    assert forall|id2: u64| id2 != id && assoc_has_key(en, id2) implies assoc_has_key(
        post.enumeration@,
        id2,
    ) && post.listener_at(id2) == pre.listener_at(id2) by {
        assert(assoc_get(post.enumeration@, id2) == assoc_get(en, id2));
    }
    assert(post.enumeration_wf());
    // buckets_wf: ascending is ensured by the characterization; bound the ids
    assert forall|b: int, k: int|
        0 <= b < pix.len() && 0 <= k < pix[b].1.len() implies #[trigger] pix[b].1[k]
        < post.id_counter by {
        let k2 = pix[b].0;
        lemma_assoc_idx_at(pix, k2, b);
        assert(pix[b].1 == bucket_of(pix, k2));
        let id2 = pix[b].1[k];
        assert(ids_contain(bucket_of(pix, k2), id2)) by {
            assert(bucket_of(pix, k2)[k] == id2);
        }
        assert(ids_contain(bucket_of(ix, k2), id2));
        lemma_bucket_membership_sound(pre, k2, id2);
    }
    // buckets_sound
    assert forall|b: int, k: int| 0 <= b < pix.len() && 0 <= k < pix[b].1.len() implies {
        let id2 = #[trigger] pix[b].1[k];
        &&& assoc_has_key(post.enumeration@, id2)
        &&& (pix[b].0 == post.listener_at(id2).filter.from || pix[b].0 == post.listener_at(
            id2,
        ).filter.to)
    } by {
        let k2 = pix[b].0;
        lemma_assoc_idx_at(pix, k2, b);
        assert(pix[b].1 == bucket_of(pix, k2));
        let id2 = pix[b].1[k];
        assert(ids_contain(bucket_of(pix, k2), id2)) by {
            assert(bucket_of(pix, k2)[k] == id2);
        }
        assert(ids_contain(bucket_of(ix, k2), id2));
        lemma_bucket_membership_sound(pre, k2, id2);
        assert(id2 != id) by {
            if id2 == id {
                if k2 == f.from || k2 == f.to {
                    assert(!ids_contain(bucket_of(pix, k2), id));
                } else {
                    assert(k2 == pre.listener_at(id).filter.from || k2 == pre.listener_at(
                        id,
                    ).filter.to);
                    assert(pre.listener_at(id) == en[i].1);
                }
            }
        }
        assert(assoc_has_key(post.enumeration@, id2));
        assert(post.listener_at(id2) == pre.listener_at(id2));
    }
    // listeners_indexed
    assert forall|j: int| 0 <= j < post.enumeration@.len() implies {
        let id2 = (#[trigger] post.enumeration@[j]).0;
        let f2 = post.enumeration@[j].1.filter;
        &&& assoc_has_key(pix, f2.from)
        &&& ids_contain(bucket_of(pix, f2.from), id2)
        &&& assoc_has_key(pix, f2.to)
        &&& ids_contain(bucket_of(pix, f2.to), id2)
    } by {
        let jj = if j < i {
            j
        } else {
            j + 1
        };
        assert(post.enumeration@[j] == en[jj]);
        let id2 = en[jj].0;
        let f2 = en[jj].1.filter;
        assert((#[trigger] en[jj]).0 == id2);
        assert(assoc_has_key(ix, f2.from) && ids_contain(bucket_of(ix, f2.from), id2));
        assert(assoc_has_key(ix, f2.to) && ids_contain(bucket_of(ix, f2.to), id2));
        assert(id2 != id);
        if f2.from == f.from || f2.from == f.to {
            assert(ids_contain(bucket_of(pix, f2.from), id2));
        } else {
            assert(bucket_of(pix, f2.from) == bucket_of(ix, f2.from));
        }
        if f2.to == f.from || f2.to == f.to {
            assert(ids_contain(bucket_of(pix, f2.to), id2));
        } else {
            assert(bucket_of(pix, f2.to) == bucket_of(ix, f2.to));
        }
    }
}

impl OnMoveListenersInfo {
    /// Removes the listener stored under `id` from the enumeration and from
    /// the bucket of each of its filter keys, located there by binary search.
    /// Fails with `ListenerDoesNotExist` when no such listener is stored;
    /// `ListenerFatalError` would signal a broken index invariant and cannot
    /// occur on a well-formed index.
    pub fn remove_listener(&mut self, id: u64) -> (r: Result<OnMoveListener, OnMoveListenerError>)
        requires
            old(self).wf(),
        ensures
            final(self).wf(),
            !assoc_has_key(old(self).enumeration@, id) ==> r == Err::<
                OnMoveListener,
                OnMoveListenerError,
            >(OnMoveListenerError::ListenerDoesNotExist) && *final(self) == *old(self),
            assoc_has_key(old(self).enumeration@, id) ==> {
                let i = assoc_idx(old(self).enumeration@, id);
                &&& r matches Ok(l) && l == old(self).enumeration@[i].1
                &&& final(self).id_counter == old(self).id_counter
                &&& final(self).enumeration@ == old(self).enumeration@.remove(i)
                &&& final(self).index_view() == index_pull(
                    old(self).index_view(),
                    old(self).enumeration@[i].1.filter,
                    id,
                )
            },
    {
        let pos = match assoc_find_u64(&self.enumeration, id) {
            Some(p) => p,
            None => {
                return Err(OnMoveListenerError::ListenerDoesNotExist);
            },
        };
        proof {
            lemma_assoc_idx_at(old(self).enumeration@, id, pos as int);
        }
        let entry = self.enumeration.remove(pos);
        let listener = entry.1;
        let filter = listener.filter;
        let res_from = pull_id(&mut self.index, filter.from, id);
        if res_from.is_err() {
            return Err(OnMoveListenerError::ListenerFatalError);
        }
        if !account_filter_eq(&filter.from, &filter.to) {
            proof {
                lemma_bucket_pull(old(self).index_view(), filter.from, id);
            }
            let res_to = pull_id(&mut self.index, filter.to, id);
            if res_to.is_err() {
                return Err(OnMoveListenerError::ListenerFatalError);
            }
        }
        proof {
            lemma_remove_preserves_wf(*old(self), *self, pos as int);
        }
        Ok(listener)
    }
}

/// Appends to `acc` those ids of `ids` not yet present, keeping order.
pub open spec fn dedup_append(acc: Seq<u64>, ids: Seq<u64>) -> Seq<u64>
    decreases ids.len(),
{
    if ids.len() == 0 {
        acc
    } else {
        let acc1 = if ids_contain(acc, ids[0]) {
            acc
        } else {
            acc.push(ids[0])
        };
        dedup_append(acc1, ids.drop_first())
    }
}

proof fn lemma_dedup_append_snoc(acc: Seq<u64>, ids: Seq<u64>, x: u64)
    ensures
        dedup_append(acc, ids.push(x)) == {
            let a = dedup_append(acc, ids);
            if ids_contain(a, x) {
                a
            } else {
                a.push(x)
            }
        },
    decreases ids.len(),
{
    if ids.len() == 0 {
        let e = Seq::<u64>::empty();
        assert(ids.push(x)[0] == x);
        assert(ids.push(x).drop_first() =~= e);
        let acc1 = if ids_contain(acc, x) {
            acc
        } else {
            acc.push(x)
        };
        assert(dedup_append(acc1, e) == acc1);
        assert(dedup_append(acc, ids.push(x)) == acc1);
        assert(dedup_append(acc, ids) == acc);
    } else {
        assert(ids.push(x)[0] == ids[0]);
        assert(ids.push(x).drop_first() =~= ids.drop_first().push(x));
        let acc1 = if ids_contain(acc, ids[0]) {
            acc
        } else {
            acc.push(ids[0])
        };
        assert(dedup_append(acc, ids.push(x)) == dedup_append(acc1, ids.drop_first().push(x)));
        assert(dedup_append(acc, ids) == dedup_append(acc1, ids.drop_first()));
        lemma_dedup_append_snoc(acc1, ids.drop_first(), x);
    }
}

proof fn lemma_dedup_append_membership(acc: Seq<u64>, ids: Seq<u64>)
    ensures
        forall|x: u64|
            ids_contain(dedup_append(acc, ids), x) <==> (ids_contain(acc, x) || ids_contain(
                ids,
                x,
            )),
    decreases ids.len(),
{
    if ids.len() > 0 {
        let acc1 = if ids_contain(acc, ids[0]) {
            acc
        } else {
            acc.push(ids[0])
        };
        lemma_dedup_append_membership(acc1, ids.drop_first());
        assert forall|x: u64|
            ids_contain(dedup_append(acc, ids), x) <==> (ids_contain(acc, x) || ids_contain(
                ids,
                x,
            )) by {
            if ids_contain(acc1, x) {
                if !ids_contain(acc, x) {
                    let i = choose|i: int| 0 <= i < acc1.len() && acc1[i] == x;
                    assert(x == ids[0]);
                    assert(ids_contain(ids, x)) by {
                        assert(ids[0] == x);
                    }
                }
            }
            if ids_contain(ids, x) {
                let i = choose|i: int| 0 <= i < ids.len() && ids[i] == x;
                if i == 0 {
                    if !ids_contain(acc, x) {
                        assert(acc1[acc.len() as int] == x);
                    }
                } else {
                    assert(ids.drop_first()[i - 1] == x);
                }
            }
            if ids_contain(ids.drop_first(), x) {
                let i = choose|i: int| 0 <= i < ids.drop_first().len() && ids.drop_first()[i] == x;
                assert(ids[i + 1] == x);
            }
            if ids_contain(acc, x) && !ids_contain(acc1, x) {
                let i = choose|i: int| 0 <= i < acc.len() && acc[i] == x;
                assert(acc1[i] == x);
            }
        }
    }
}

/// Whether a bucket holds `id`, by linear scan.
fn ids_contains_exec(ids: &Vec<u64>, id: u64) -> (r: bool)
    ensures
        r == ids_contain(ids@, id),
{
    let mut i: usize = 0;
    while i < ids.len()
        invariant
            i <= ids@.len(),
            forall|j: int| 0 <= j < i ==> ids@[j] != id,
        decreases ids@.len() - i,
    {
        if ids[i] == id {
            return true;
        }
        i = i + 1;
    }
    false
}

/// Appends to `acc` the ids of `more` that `acc` does not hold yet.
fn append_unique(acc: &mut Vec<u64>, more: &Vec<u64>)
    ensures
        final(acc)@ == dedup_append(old(acc)@, more@),
{
    let mut i: usize = 0;
    while i < more.len()
        invariant
            i <= more@.len(),
            acc@ == dedup_append(old(acc)@, more@.take(i as int)),
        decreases more@.len() - i,
    {
        proof {
            lemma_dedup_append_snoc(old(acc)@, more@.take(i as int), more@[i as int]);
            assert(more@.take(i as int + 1) =~= more@.take(i as int).push(more@[i as int]));
        }
        let id = more[i];
        if !ids_contains_exec(acc, id) {
            acc.push(id);
        }
        i = i + 1;
    }
    proof {
        assert(more@.take(more@.len() as int) =~= more@);
    }
}

impl OnMoveListenersInfo {
    /// The ids matched by an event: the wildcard bucket, then the bucket of
    /// the event's `from` account, then the bucket of its `to` account, with
    /// duplicates eliminated.
    pub open spec fn matched_ids(self, event: TokenMoveEvent) -> Seq<u64> {
        let ix = self.index_view();
        dedup_append(
            dedup_append(
                dedup_append(Seq::empty(), bucket_of(ix, None)),
                bucket_of(ix, Some(event.from)),
            ),
            bucket_of(ix, Some(event.to)),
        )
    }

    /// Returns the listener records whose subscriptions match the event:
    /// the union of the wildcard bucket and the buckets of the event's two
    /// account sides.
    pub fn get_matching_listeners(&self, event: &TokenMoveEvent) -> (r: Vec<OnMoveListener>)
        requires
            self.wf(),
        ensures
            r@.len() == self.matched_ids(*event).len(),
            forall|k: int|
                0 <= k < r@.len() ==> {
                    let id = #[trigger] self.matched_ids(*event)[k];
                    &&& assoc_has_key(self.enumeration@, id)
                    &&& r@[k]@ == self.listener_at(id)@
                },
    {
        let ghost ix = self.index_view();
        let mut ids: Vec<u64> = Vec::new();
        let wildcard: AccountFilter = None;
        let from_key: AccountFilter = Some(event.from);
        let to_key: AccountFilter = Some(event.to);
        match find_bucket(&self.index, &wildcard) {
            Some(b) => {
                proof {
                    lemma_assoc_idx_at(ix, wildcard, b as int);
                }
                let pair = &self.index[b];
                append_unique(&mut ids, &pair.1);
            },
            None => {
                proof {
                    assert(bucket_of(ix, wildcard) =~= Seq::<u64>::empty());
                    assert(dedup_append(ids@, Seq::<u64>::empty()) == ids@);
                }
            },
        }
        proof {
            assert(ids@ == dedup_append(Seq::empty(), bucket_of(ix, wildcard)));
        }
        let ghost ids1 = ids@;
        match find_bucket(&self.index, &from_key) {
            Some(b) => {
                proof {
                    lemma_assoc_idx_at(ix, from_key, b as int);
                }
                let pair = &self.index[b];
                append_unique(&mut ids, &pair.1);
            },
            None => {
                proof {
                    assert(bucket_of(ix, from_key) =~= Seq::<u64>::empty());
                    assert(dedup_append(ids@, Seq::<u64>::empty()) == ids@);
                }
            },
        }
        proof {
            assert(ids@ == dedup_append(ids1, bucket_of(ix, from_key)));
        }
        let ghost ids2 = ids@;
        match find_bucket(&self.index, &to_key) {
            Some(b) => {
                proof {
                    lemma_assoc_idx_at(ix, to_key, b as int);
                }
                let pair = &self.index[b];
                append_unique(&mut ids, &pair.1);
            },
            None => {
                proof {
                    assert(bucket_of(ix, to_key) =~= Seq::<u64>::empty());
                    assert(dedup_append(ids@, Seq::<u64>::empty()) == ids@);
                }
            },
        }
        proof {
            assert(ids@ == self.matched_ids(*event));
            lemma_dedup_append_membership(ids2, bucket_of(ix, to_key));
            lemma_dedup_append_membership(ids1, bucket_of(ix, from_key));
            lemma_dedup_append_membership(Seq::empty(), bucket_of(ix, wildcard));
        }
        let ghost m = ids@;
        let mut out: Vec<OnMoveListener> = Vec::new();
        let mut k: usize = 0;
        while k < ids.len()
            invariant
                self.wf(),
                k <= m.len(),
                ids@ == m,
                out@.len() == k,
                forall|j: int|
                    0 <= j < k ==> {
                        &&& assoc_has_key(self.enumeration@, #[trigger] m[j])
                        &&& out@[j]@ == self.listener_at(m[j])@
                    },
                forall|x: u64|
                    ids_contain(m, x) ==> (ids_contain(bucket_of(self.index_view(), None), x)
                        || ids_contain(bucket_of(self.index_view(), Some(event.from)), x)
                        || ids_contain(bucket_of(self.index_view(), Some(event.to)), x)),
            decreases m.len() - k,
        {
            let id = ids[k];
            proof {
                assert(ids_contain(m, id)) by {
                    assert(m[k as int] == id);
                }
                if ids_contain(bucket_of(self.index_view(), None), id) {
                    lemma_bucket_membership_sound(*self, None, id);
                } else if ids_contain(bucket_of(self.index_view(), Some(event.from)), id) {
                    lemma_bucket_membership_sound(*self, Some(event.from), id);
                } else {
                    lemma_bucket_membership_sound(*self, Some(event.to), id);
                }
            }
            match assoc_find_u64(&self.enumeration, id) {
                Some(p) => {
                    proof {
                        lemma_assoc_idx_at(self.enumeration@, id, p as int);
                    }
                    let ghost prev_out = out@;
                    let pair = &self.enumeration[p];
                    out.push(pair.1.clone());
                    proof {
                        assert forall|j: int| 0 <= j < k as int + 1 implies {
                            &&& assoc_has_key(self.enumeration@, #[trigger] m[j])
                            &&& out@[j]@ == self.listener_at(m[j])@
                        } by {
                            if j < k as int {
                                assert(out@[j] == prev_out[j]);
                            } else {
                                assert(out@[j]@ == self.listener_at(m[j])@);
                            }
                        }
                    }
                },
                None => {
                    proof {
                        assert(false);
                    }
                },
            }
            k = k + 1;
        }
        out
    }
}

/// Round trip: subscribing a listener and immediately unsubscribing the
/// returned id leaves the enumeration and the index exactly as they were;
/// only the id counter has moved on.  This is stated over the transitions
/// that `add_listener` and `remove_listener` ensure.  The one proviso is
/// that both of the listener's filter keys already own a bucket: a fresh
/// key leaves behind an empty bucket, as removal never deletes buckets.
pub proof fn lemma_add_remove_round_trip(pre: OnMoveListenersInfo, l: OnMoveListener)
    requires
        pre.wf(),
        pre.id_counter < u64::MAX,
        assoc_has_key(pre.index_view(), l.filter.from),
        assoc_has_key(pre.index_view(), l.filter.to),
    ensures
        ({
            let id = pre.id_counter;
            let en1 = pre.enumeration@.push((id, l));
            let ix1 = index_post(pre.index_view(), l.filter, id);
            &&& assoc_has_key(en1, id)
            &&& assoc_idx(en1, id) == pre.enumeration@.len()
            &&& en1.remove(assoc_idx(en1, id)) == pre.enumeration@
            &&& index_pull(ix1, l.filter, id) == pre.index_view()
        }),
{
    let id = pre.id_counter;
    let f = l.filter;
    let ix = pre.index_view();
    let en = pre.enumeration@;
    let en1 = en.push((id, l));
    // the enumeration: the pushed pair is the last one, and removing it
    // restores the sequence
    assert forall|i: int| 0 <= i < en.len() implies en[i].0 != id by {
        assert(en[i].0 < id);
    }
    assert(!assoc_has_key(en, id));
    lemma_assoc_push(en, (id, l));
    lemma_assoc_idx_at(en1, id, en.len() as int);
    assert(en1.remove(en.len() as int) =~= en);
    // the index: each posted id sits at the end of its bucket and is pulled
    // from exactly there
    assert forall|b: int, k: int|
        0 <= b < ix.len() && 0 <= k < ix[b].1.len() implies #[trigger] ix[b].1[k] < id by {}
    lemma_bucket_post(ix, f.from, id);
    let ixa = bucket_post(ix, f.from, id);
    let ix1 = index_post(ix, f, id);
    if f.to == f.from {
        assert(ix1 == ixa);
        // ascending buckets of ix1
        assert forall|b: int| 0 <= b < ix1.len() implies ids_ascending(#[trigger] ix1[b].1) by {
            let k2 = ix1[b].0;
            lemma_assoc_idx_at(ix1, k2, b);
            assert(ix1[b].1 == bucket_of(ix1, k2));
            if k2 == f.from {
                lemma_ids_push(bucket_of(ix, k2), id);
            } else {
                lemma_assoc_idx_at(ix, k2, assoc_idx(ix, k2));
            }
        }
        assert(ids_contain(bucket_of(ix1, f.from), id)) by {
            assert(bucket_of(ix1, f.from)[bucket_of(ix, f.from).len() as int] == id);
        }
        lemma_bucket_pull(ix1, f.from, id);
        let ix2 = bucket_pull(ix1, f.from, id);
        assert(index_pull(ix1, f, id) == ix2);
        assert(bucket_of(ix1, f.from).last() == id);
        assert(bucket_of(ix2, f.from) == bucket_of(ix1, f.from).drop_last());
        assert(bucket_of(ix1, f.from).drop_last() =~= bucket_of(ix, f.from));
        lemma_index_restored(ix, ix2, f, id);
    } else {
        lemma_bucket_post(ixa, f.to, id);
        assert(ix1 == bucket_post(ixa, f.to, id));
        // ascending buckets of ix1
        assert forall|b: int| 0 <= b < ix1.len() implies ids_ascending(#[trigger] ix1[b].1) by {
            let k2 = ix1[b].0;
            lemma_assoc_idx_at(ix1, k2, b);
            assert(ix1[b].1 == bucket_of(ix1, k2));
            if k2 == f.from {
                assert(bucket_of(ix1, k2) == bucket_of(ix, k2).push(id));
                lemma_ids_push(bucket_of(ix, k2), id);
            } else if k2 == f.to {
                assert(bucket_of(ix1, k2) == bucket_of(ix, k2).push(id));
                lemma_ids_push(bucket_of(ix, k2), id);
            } else {
                assert(bucket_of(ix1, k2) == bucket_of(ix, k2));
                lemma_assoc_idx_at(ix, k2, assoc_idx(ix, k2));
            }
        }
        assert(bucket_of(ix1, f.from) == bucket_of(ix, f.from).push(id));
        assert(bucket_of(ix1, f.to) == bucket_of(ix, f.to).push(id));
        assert(ids_contain(bucket_of(ix1, f.from), id)) by {
            assert(bucket_of(ix1, f.from)[bucket_of(ix, f.from).len() as int] == id);
        }
        lemma_bucket_pull(ix1, f.from, id);
        let ixb = bucket_pull(ix1, f.from, id);
        assert(bucket_of(ix1, f.from).last() == id);
        assert(bucket_of(ixb, f.from) == bucket_of(ix1, f.from).drop_last());
        assert(bucket_of(ix1, f.from).drop_last() =~= bucket_of(ix, f.from));
        assert(bucket_of(ixb, f.to) == bucket_of(ix1, f.to));
        assert(assoc_has_key(ixb, f.to));
        assert(ids_contain(bucket_of(ixb, f.to), id)) by {
            assert(bucket_of(ixb, f.to)[bucket_of(ix, f.to).len() as int] == id);
        }
        lemma_bucket_pull(ixb, f.to, id);
        let ixc = bucket_pull(ixb, f.to, id);
        assert(index_pull(ix1, f, id) == ixc);
        assert(bucket_of(ixb, f.to).last() == id);
        assert(bucket_of(ixc, f.to) == bucket_of(ixb, f.to).drop_last());
        assert(bucket_of(ixb, f.to).drop_last() =~= bucket_of(ix, f.to));
        assert(bucket_of(ixc, f.from) == bucket_of(ixb, f.from));
        lemma_index_restored(ix, ixc, f, id);
    }
}

/// An index whose every bucket reads back as in `ix` is `ix` itself.
proof fn lemma_index_restored(ix: IndexView, post: IndexView, f: Filter, id: u64)
    requires
        assoc_unique(ix),
        assoc_unique(post),
        post.len() == ix.len(),
        forall|p: int| 0 <= p < ix.len() ==> #[trigger] post[p].0 == ix[p].0,
        bucket_of(post, f.from) == bucket_of(ix, f.from),
        bucket_of(post, f.to) == bucket_of(ix, f.to),
        forall|k2: AccountFilter|
            k2 != f.from && k2 != f.to ==> bucket_of(post, k2) == bucket_of(ix, k2),
    ensures
        post == ix,
{
    assert forall|p: int| 0 <= p < ix.len() implies post[p] == ix[p] by {
        let k2 = ix[p].0;
        lemma_assoc_idx_at(ix, k2, p);
        lemma_assoc_idx_at(post, k2, p);
        assert(post[p].1 == bucket_of(post, k2));
        assert(ix[p].1 == bucket_of(ix, k2));
        if k2 != f.from && k2 != f.to {
            assert(bucket_of(post, k2) == bucket_of(ix, k2));
        }
    }
    assert(post =~= ix);
}

} // verus!
