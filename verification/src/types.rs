//! Shared data model: principals, accounts, controlled slots, endpoints and
//! remote-call payloads.

use vstd::prelude::*;

verus! {

/// Opaque platform-level identifier for a caller or an actor.  The kernel
/// never looks inside an identity; it only compares identities for equality,
/// so one word of distinguishing data is all a principal carries here.
#[derive(Clone, Copy, PartialEq, Eq, Structural, Hash, Debug)]
pub struct Principal {
    pub id: u64,
}

/// `None` denotes the outside world (mint source, burn sink) or "no one".
pub type Account = Option<Principal>;

/// Equality on accounts: `None` matches `None`, `Some(p)` matches exactly `p`.
pub fn account_eq(a: &Account, b: &Account) -> (r: bool)
    ensures
        r == (*a == *b),
{
    match (a, b) {
        (None, None) => true,
        (Some(x), Some(y)) => x.id == y.id,
        _ => false,
    }
}

/// A datum together with the account allowed to replace or use it.
/// If the controller is `None`, any caller passes the controller check.
pub struct Controlled<T> {
    pub data: T,
    pub controller: Account,
}

impl<T> Controlled<T> {
    /// Wraps `data` under the exclusive control of `exact`.
    pub fn by_exact(exact: Principal, data: T) -> (r: Controlled<T>)
        ensures
            r.controller == Some(exact),
            r.data == data,
    {
        Controlled { controller: Some(exact), data }
    }

    /// Wraps `data` under no control: every caller passes.
    pub fn by_no_one(data: T) -> (r: Controlled<T>)
        ensures
            r.controller is None,
            r.data == data,
    {
        Controlled { controller: None, data }
    }

    /// A caller passes when the slot is uncontrolled or when it is the
    /// controller itself.
    pub fn is_controller(&self, principal: Principal) -> (r: bool)
        ensures
            r == (self.controller is None || self.controller == Some(principal)),
    {
        match &self.controller {
            Some(c) => c.id == principal.id,
            None => true,
        }
    }
}

/// Identity and human-readable description of an actor.
pub struct CanisterInfo {
    pub canister_id: Principal,
    pub description: String,
}

/// Identifies one voting inside one union wallet.
#[derive(Clone, Copy, PartialEq, Eq, Structural, Debug)]
pub struct VotingId {
    pub union_wallet: Principal,
    pub idx: usize,
}

/// A record of a balance move.  `(None, Some)` is a mint, `(Some, None)` a
/// burn, `(Some, Some)` a transfer.
#[derive(Clone, Copy, Debug)]
pub struct TokenMoveEvent {
    pub from: Account,
    pub to: Account,
    pub qty: u64,
}

/// `(actor, method)` pair identifying a callable service method.
#[derive(Debug)]
pub struct RemoteCallEndpoint {
    pub canister_id: Principal,
    pub method_name: String,
}

/// Mathematical image of an endpoint: the method name as a character sequence.
pub struct EndpointView {
    pub canister_id: Principal,
    pub method_name: Seq<char>,
}

impl View for RemoteCallEndpoint {
    type V = EndpointView;

    open spec fn view(&self) -> EndpointView {
        EndpointView { canister_id: self.canister_id, method_name: self.method_name@ }
    }
}

impl Clone for RemoteCallEndpoint {
    fn clone(&self) -> (r: Self)
        ensures
            r@ == self@,
    {
        RemoteCallEndpoint {
            canister_id: self.canister_id,
            method_name: self.method_name.clone(),
        }
    }
}

/// Equality of endpoints, decided by actor identity and method name.
pub fn endpoint_eq(a: &RemoteCallEndpoint, b: &RemoteCallEndpoint) -> (r: bool)
    ensures
        r == (a@ == b@),
{
    a.canister_id.id == b.canister_id.id && a.method_name == b.method_name
}

/// One remote call to perform: the endpoint, a textual argument literal in
/// the platform's interface-description language, and an attached payment.
#[derive(Debug)]
pub struct RemoteCallPayload {
    pub endpoint: RemoteCallEndpoint,
    pub idl_str_args: String,
    pub payment: i64,
}

/// Mathematical image of a remote-call payload.
pub struct RemoteCallPayloadView {
    pub endpoint: EndpointView,
    pub idl_str_args: Seq<char>,
    pub payment: i64,
}

impl View for RemoteCallPayload {
    type V = RemoteCallPayloadView;

    open spec fn view(&self) -> RemoteCallPayloadView {
        RemoteCallPayloadView {
            endpoint: self.endpoint@,
            idl_str_args: self.idl_str_args@,
            payment: self.payment,
        }
    }
}

impl Clone for RemoteCallPayload {
    fn clone(&self) -> (r: Self)
        ensures
            r@ == self@,
    {
        RemoteCallPayload {
            endpoint: self.endpoint.clone(),
            idl_str_args: self.idl_str_args.clone(),
            payment: self.payment,
        }
    }
}

/// Why a remote call produced no reply blob.
#[derive(Debug, PartialEq, Eq)]
pub enum RemoteCallError {
    UnableToParseArgs,
    UnableToSerializeArgs,
    RemoteCallReject(String),
}

/// Mathematical image of a remote-call error.
pub enum RemoteCallErrorView {
    UnableToParseArgs,
    UnableToSerializeArgs,
    RemoteCallReject(Seq<char>),
}

impl View for RemoteCallError {
    type V = RemoteCallErrorView;

    open spec fn view(&self) -> RemoteCallErrorView {
        match self {
            RemoteCallError::UnableToParseArgs => RemoteCallErrorView::UnableToParseArgs,
            RemoteCallError::UnableToSerializeArgs => RemoteCallErrorView::UnableToSerializeArgs,
            RemoteCallError::RemoteCallReject(m) => RemoteCallErrorView::RemoteCallReject(m@),
        }
    }
}

impl Clone for RemoteCallError {
    fn clone(&self) -> (r: Self)
        ensures
            r@ == self@,
    {
        match self {
            RemoteCallError::UnableToParseArgs => RemoteCallError::UnableToParseArgs,
            RemoteCallError::UnableToSerializeArgs => RemoteCallError::UnableToSerializeArgs,
            RemoteCallError::RemoteCallReject(m) => RemoteCallError::RemoteCallReject(m.clone()),
        }
    }
}

/// Outcome of one remote call: the reply blob, or the reason it failed.
pub type RemoteCallResult = Result<Vec<u8>, RemoteCallError>;

} // verus!
