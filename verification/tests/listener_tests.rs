//! The move-event bus: posting, matching and withdrawing subscriptions.

use union_gov::listeners::{
    Filter, OnMoveListener, OnMoveListenerError, OnMoveListenersInfo,
};
use union_gov::types::{Principal, RemoteCallEndpoint, TokenMoveEvent};

fn endpoint(id: u64, method: &str) -> RemoteCallEndpoint {
    RemoteCallEndpoint {
        canister_id: Principal { id },
        method_name: String::from(method),
    }
}

fn listener(from: Option<Option<Principal>>, to: Option<Option<Principal>>) -> OnMoveListener {
    OnMoveListener {
        filter: Filter { from, to },
        endpoint: endpoint(77, "handle_on_move"),
    }
}

#[test]
fn ids_are_assigned_in_order() {
    let mut info = OnMoveListenersInfo::new();
    let id0 = info.add_listener(listener(None, None)).unwrap();
    let id1 = info.add_listener(listener(None, None)).unwrap();
    assert_eq!(id0, 0);
    assert_eq!(id1, 1);
    assert_eq!(info.id_counter, 2);
    assert_eq!(info.enumeration.len(), 2);
}

#[test]
fn removing_an_unknown_id_fails() {
    let mut info = OnMoveListenersInfo::new();
    let r = info.remove_listener(5);
    assert!(matches!(r, Err(OnMoveListenerError::ListenerDoesNotExist)));
}

#[test]
fn subscribe_then_unsubscribe_restores_the_index() {
    let a = Principal { id: 1 };
    let mut info = OnMoveListenersInfo::new();
    // Seed the buckets the new listener will use, so removal can restore
    // them exactly.
    let seed = info.add_listener(listener(Some(Some(a)), None)).unwrap();
    let enumeration_before: Vec<u64> = info.enumeration.iter().map(|e| e.0).collect();
    let index_before: Vec<(Option<Option<Principal>>, Vec<u64>)> = info.index.clone();
    let id = info.add_listener(listener(Some(Some(a)), None)).unwrap();
    assert_ne!(seed, id);
    let removed = info.remove_listener(id).unwrap();
    assert_eq!(removed.endpoint.method_name, "handle_on_move");
    let enumeration_after: Vec<u64> = info.enumeration.iter().map(|e| e.0).collect();
    assert_eq!(enumeration_after, enumeration_before);
    assert_eq!(info.index, index_before);
}

#[test]
fn wildcard_listener_matches_every_move() {
    let a = Principal { id: 1 };
    let b = Principal { id: 2 };
    let mut info = OnMoveListenersInfo::new();
    info.add_listener(listener(None, None)).unwrap();
    let send = TokenMoveEvent { from: Some(a), to: Some(b), qty: 5 };
    let matched = info.get_matching_listeners(&send);
    assert_eq!(matched.len(), 1);
}

#[test]
fn outside_world_filter_matches_burns_but_not_sends() {
    // A filter keyed on the outside-world account on both sides sits in a
    // single bucket and is found through the event's `to` side on a burn.
    let a = Principal { id: 1 };
    let b = Principal { id: 2 };
    let mut info = OnMoveListenersInfo::new();
    info.add_listener(listener(Some(None), Some(None))).unwrap();
    let send = TokenMoveEvent { from: Some(a), to: Some(b), qty: 5 };
    assert_eq!(info.get_matching_listeners(&send).len(), 0);
    let burn = TokenMoveEvent { from: Some(a), to: None, qty: 5 };
    assert_eq!(info.get_matching_listeners(&burn).len(), 1);
}

#[test]
fn matching_eliminates_duplicates() {
    let a = Principal { id: 1 };
    let mut info = OnMoveListenersInfo::new();
    // Posted under both `Some(a)`-from and `Some(a)`-to buckets.
    info.add_listener(listener(Some(Some(a)), Some(Some(a)))).unwrap();
    let self_send = TokenMoveEvent { from: Some(a), to: Some(a), qty: 5 };
    let matched = info.get_matching_listeners(&self_send);
    assert_eq!(matched.len(), 1);
}

#[test]
fn each_id_sits_only_in_its_own_buckets() {
    let a = Principal { id: 1 };
    let b = Principal { id: 2 };
    let mut info = OnMoveListenersInfo::new();
    let id_a = info.add_listener(listener(Some(Some(a)), None)).unwrap();
    let id_b = info.add_listener(listener(Some(Some(b)), Some(Some(b)))).unwrap();
    for (key, ids) in info.index.iter() {
        for id in ids.iter() {
            if *id == id_a {
                assert!(*key == Some(Some(a)) || *key == None);
            }
            if *id == id_b {
                assert_eq!(*key, Some(Some(b)));
            }
        }
    }
    // And each appears in every bucket of its own filter keys.
    let bucket_of = |key: &Option<Option<Principal>>| -> Vec<u64> {
        info.index
            .iter()
            .find(|e| e.0 == *key)
            .map(|e| e.1.clone())
            .unwrap_or_default()
    };
    assert!(bucket_of(&Some(Some(a))).contains(&id_a));
    assert!(bucket_of(&None).contains(&id_a));
    assert!(bucket_of(&Some(Some(b))).contains(&id_b));
}
