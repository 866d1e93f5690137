//! The wallet executor: argument encoding and strictly sequential result
//! collection.

use union_gov::executor::{only_by, prepare_remote_call, union_call_collect, union_call_prepare};
use union_gov::types::{Principal, RemoteCallEndpoint, RemoteCallError, RemoteCallPayload};

fn call(args: &str) -> RemoteCallPayload {
    RemoteCallPayload {
        endpoint: RemoteCallEndpoint {
            canister_id: Principal { id: 3 },
            method_name: String::from("mint"),
        },
        idl_str_args: String::from(args),
        payment: 0,
    }
}

#[test]
fn only_the_call_controller_passes() {
    let owner = Principal { id: 1 };
    let stranger = Principal { id: 2 };
    assert!(only_by(Some(owner), owner));
    assert!(!only_by(Some(owner), stranger));
    assert!(only_by(None, stranger));
}

#[test]
fn preparing_encodes_the_argument_literal() {
    // The wire bytes must be candid's own encoding of the literal, not the
    // literal's text.
    let bytes = prepare_remote_call(&call("(42 : nat64)")).unwrap();
    let direct = "(42 : nat64)"
        .parse::<candid::IDLArgs>()
        .unwrap()
        .to_bytes()
        .unwrap();
    assert_eq!(bytes, direct);
    assert_eq!(&bytes[0..4], b"DIDL");
    assert_ne!(bytes, "(42 : nat64)".as_bytes().to_vec());
}

#[test]
fn malformed_literal_fails_to_parse() {
    let r = prepare_remote_call(&call("(42 : nat64"));
    assert!(matches!(r, Err(RemoteCallError::UnableToParseArgs)));
}

#[test]
fn a_failing_call_is_recorded_in_place_and_the_program_continues() {
    // Three calls; the host rejects the middle one.  The result sequence
    // keeps program order: success, rejection, success.
    let program = vec![call("(1 : nat64)"), call("(2 : nat64)"), call("(3 : nat64)")];
    let prepared = union_call_prepare(&program);
    assert_eq!(prepared.len(), 3);
    assert!(prepared.iter().all(|p| p.is_ok()));
    let responses: Vec<Result<Vec<u8>, String>> = vec![
        Ok(vec![1]),
        Err(String::from("destination trapped")),
        Ok(vec![3]),
    ];
    let results = union_call_collect(prepared, responses);
    assert_eq!(results.len(), 3);
    assert_eq!(results[0], Ok(vec![1]));
    assert!(matches!(
        &results[1],
        Err(RemoteCallError::RemoteCallReject(m)) if m == "destination trapped"
    ));
    assert_eq!(results[2], Ok(vec![3]));
}

#[test]
fn an_unencodable_element_keeps_its_error_and_consumes_no_answer() {
    let program = vec![call("(1 : nat64)"), call("((("), call("(3 : nat64)")];
    let prepared = union_call_prepare(&program);
    assert!(prepared[0].is_ok());
    assert!(prepared[1].is_err());
    assert!(prepared[2].is_ok());
    // Only the two encodable elements cause calls, so only two answers.
    let responses: Vec<Result<Vec<u8>, String>> = vec![Ok(vec![1]), Ok(vec![3])];
    let results = union_call_collect(prepared, responses);
    assert_eq!(results.len(), 3);
    assert_eq!(results[0], Ok(vec![1]));
    assert!(matches!(
        results[1],
        Err(RemoteCallError::UnableToParseArgs)
    ));
    assert_eq!(results[2], Ok(vec![3]));
}
