//! The wallet executor: a single-principal-gated sequential remote-call
//! runner.  The executor turns each textual argument literal into wire
//! bytes, has the host dispatch the calls strictly in order, and collects
//! one result per program element, never short-circuiting: a rejected call
//! is recorded and the program continues.
//!
//! The host shell performs the actual remote calls; the logic here prepares
//! the wire bytes for every element and merges the host's answers back into
//! the per-element result sequence.

use vstd::prelude::*;
use vstd::pervasive::VecAdditionalExecFns;
use crate::types::{Principal, RemoteCallPayload, RemoteCallError, RemoteCallResult, VotingId};

verus! {

/// What the voting manager hands to the wallet executor.
pub struct UnionCallPayload {
    pub program: Vec<RemoteCallPayload>,
    pub voting_id: VotingId,
}

/// Whether candid's text parser accepts the argument literal.
pub uninterp spec fn idl_parses(s: Seq<char>) -> bool;

/// Whether candid's serializer accepts the parsed argument values.
pub uninterp spec fn idl_encodes(s: Seq<char>) -> bool;

/// The wire encoding of the argument literal, when parsing and
/// serialization both succeed.
pub uninterp spec fn idl_bytes_of(s: Seq<char>) -> Seq<u8>;

/// Which of the two encoding stages failed.
enum IdlEncodeError {
    Parse,
    Serialize,
}

/// Relies on candid's `FromStr for IDLArgs` to parse the textual argument
/// literal, and on `IDLArgs::to_bytes` to produce its wire encoding; both
/// results are functions of the text alone.
#[verifier::external_body]
fn encode_idl_args(s: &str) -> (r: Result<Vec<u8>, IdlEncodeError>)
    ensures
        r matches Ok(b) ==> idl_parses(s@) && idl_encodes(s@) && b@ == idl_bytes_of(s@),
        (r matches Err(e) && e is Parse) <==> !idl_parses(s@),
        (r matches Err(e) && e is Serialize) <==> (idl_parses(s@) && !idl_encodes(s@)),
{
    match s.parse::<candid::IDLArgs>() {
        Err(_) => Err(IdlEncodeError::Parse),
        Ok(args) => match args.to_bytes() {
            Err(_) => Err(IdlEncodeError::Serialize),
            Ok(bytes) => Ok(bytes),
        },
    }
}

/// The caller gate: an unset controller admits everyone, a set one admits
/// exactly itself.
pub fn only_by(controller_opt: Option<Principal>, caller: Principal) -> (r: bool)
    ensures
        r == (controller_opt matches Some(c) ==> c == caller),
{
    match controller_opt {
        Some(controller) => controller.id == caller.id,
        None => true,
    }
}

/// What preparing one program element yields: its wire bytes, or the exact
/// encoding error.
pub open spec fn prepare_outcome(
    entry: RemoteCallPayload,
    r: Result<Vec<u8>, RemoteCallError>,
) -> bool {
    &&& !idl_parses(entry.idl_str_args@) ==> (r matches Err(e) && e is UnableToParseArgs)
    &&& idl_parses(entry.idl_str_args@) && !idl_encodes(entry.idl_str_args@) ==> (r matches Err(e)
        && e is UnableToSerializeArgs)
    &&& idl_parses(entry.idl_str_args@) && idl_encodes(entry.idl_str_args@) ==> (r matches Ok(b)
        && b@ == idl_bytes_of(entry.idl_str_args@))
}

/// Turns one program element's argument literal into wire bytes; fails
/// with `UnableToParseArgs` on a malformed literal and with
/// `UnableToSerializeArgs` when the parsed values cannot be encoded.
pub fn prepare_remote_call(entry: &RemoteCallPayload) -> (r: Result<Vec<u8>, RemoteCallError>)
    ensures
        prepare_outcome(*entry, r),
{
    match encode_idl_args(entry.idl_str_args.as_str()) {
        Ok(b) => Ok(b),
        Err(IdlEncodeError::Parse) => Err(RemoteCallError::UnableToParseArgs),
        Err(IdlEncodeError::Serialize) => Err(RemoteCallError::UnableToSerializeArgs),
    }
}

/// Prepares every element of a program, in order and independently.
pub fn union_call_prepare(program: &Vec<RemoteCallPayload>) -> (r: Vec<
    Result<Vec<u8>, RemoteCallError>,
>)
    ensures
        r@.len() == program@.len(),
        forall|i: int| 0 <= i < program@.len() ==> prepare_outcome(program@[i], #[trigger] r@[i]),
{
    let mut out: Vec<Result<Vec<u8>, RemoteCallError>> = Vec::new();
    let mut i: usize = 0;
    while i < program.len()
        invariant
            i <= program@.len(),
            out@.len() == i,
            forall|j: int| 0 <= j < i ==> prepare_outcome(program@[j], #[trigger] out@[j]),
        decreases program@.len() - i,
    {
        out.push(prepare_remote_call(&program[i]));
        i = i + 1;
    }
    out
}

/// How many elements were prepared successfully (and so produce one remote
/// call each).
pub open spec fn count_oks(s: Seq<Result<Vec<u8>, RemoteCallError>>) -> int
    decreases s.len(),
{
    if s.len() == 0 {
        0
    } else {
        count_oks(s.drop_last()) + if s.last() is Ok {
            1int
        } else {
            0int
        }
    }
}

proof fn lemma_count_oks_snoc(s: Seq<Result<Vec<u8>, RemoteCallError>>, i: int)
    requires
        0 <= i < s.len(),
    ensures
        count_oks(s.take(i + 1)) == count_oks(s.take(i)) + if s[i] is Ok {
            1int
        } else {
            0int
        },
{
    assert(s.take(i + 1).drop_last() =~= s.take(i));
    assert(s.take(i + 1).last() == s[i]);
}

proof fn lemma_count_oks_take_le(s: Seq<Result<Vec<u8>, RemoteCallError>>, i: int)
    requires
        0 <= i <= s.len(),
    ensures
        count_oks(s.take(i)) <= count_oks(s),
    decreases s.len() - i,
{
    if i == s.len() {
        assert(s.take(i) =~= s);
    } else {
        lemma_count_oks_snoc(s, i);
        lemma_count_oks_take_le(s, i + 1);
    }
}

/// The result recorded for program element `j`: its own encoding error, or
/// the host's answer to the call it caused, a rejection turning into
/// `RemoteCallReject` with the host's message.
pub open spec fn collected_at(
    prepared: Seq<Result<Vec<u8>, RemoteCallError>>,
    responses: Seq<Result<Vec<u8>, String>>,
    j: int,
) -> RemoteCallResult {
    match prepared[j] {
        Err(e) => Err(e),
        Ok(_) => match responses[count_oks(prepared.take(j))] {
            Ok(b) => Ok(b),
            Err(m) => Err(RemoteCallError::RemoteCallReject(m)),
        },
    }
}

/// Merges the host's call answers back into one result per program
/// element, in program order: elements that failed to encode keep their
/// encoding error, and the host's answers are consumed strictly in order,
/// one per successfully encoded element.
pub fn union_call_collect(
    prepared: Vec<Result<Vec<u8>, RemoteCallError>>,
    responses: Vec<Result<Vec<u8>, String>>,
) -> (r: Vec<RemoteCallResult>)
    requires
        count_oks(prepared@) == responses@.len(),
    ensures
        r@.len() == prepared@.len(),
        forall|j: int|
            0 <= j < prepared@.len() ==> #[trigger] r@[j] == collected_at(
                prepared@,
                responses@,
                j,
            ),
{
    let ghost orig_prepared = prepared@;
    let ghost orig_responses = responses@;
    let mut prepared = prepared;
    let mut responses = responses;
    let mut out: Vec<RemoteCallResult> = Vec::new();
    let mut k: usize = 0;
    let mut i: usize = 0;
    proof {
        assert(orig_prepared.take(0) =~= Seq::<Result<Vec<u8>, RemoteCallError>>::empty());
    }
    while i < prepared.len()
        invariant
            i <= orig_prepared.len(),
            prepared@.len() == orig_prepared.len(),
            responses@.len() == orig_responses.len(),
            count_oks(orig_prepared) == orig_responses.len(),
            k == count_oks(orig_prepared.take(i as int)),
            forall|j: int| i <= j < orig_prepared.len() ==> prepared@[j] == orig_prepared[j],
            forall|j: int| k <= j < orig_responses.len() ==> responses@[j] == orig_responses[j],
            out@.len() == i,
            forall|j: int|
                0 <= j < i ==> #[trigger] out@[j] == collected_at(
                    orig_prepared,
                    orig_responses,
                    j,
                ),
        decreases orig_prepared.len() - i,
    {
        proof {
            lemma_count_oks_snoc(orig_prepared, i as int);
            lemma_count_oks_take_le(orig_prepared, i as int + 1);
        }
        let mut slot: Result<Vec<u8>, RemoteCallError> = Ok(Vec::new());
        prepared.set_and_swap(i, &mut slot);
        match slot {
            Err(e) => {
                out.push(Err(e));
            },
            Ok(_) => {
                proof {
                    assert(orig_prepared[i as int] is Ok);
                    assert(k as int + 1 == count_oks(orig_prepared.take(i as int + 1)));
                    assert(k as int + 1 <= count_oks(orig_prepared));
                    assert(k < orig_responses.len());
                }
                let mut resp: Result<Vec<u8>, String> = Ok(Vec::new());
                let rlen = responses.len();
                responses.set_and_swap(k, &mut resp);
                proof {
                    assert(k < rlen);
                }
                k = k + 1;
                match resp {
                    Ok(b) => {
                        out.push(Ok(b));
                    },
                    Err(m) => {
                        out.push(Err(RemoteCallError::RemoteCallReject(m)));
                    },
                }
            },
        }
        i = i + 1;
    }
    out
}

} // verus!
