//! Serving a request: the steps of a connection and the reply to it.

use vstd::prelude::*;
use vstd::utf8::encode_utf8;
use crate::markgem::{document_gemtext, to_gemini, ConvertError};

verus! {

/// The step at which a connection stands.
#[derive(Clone, Copy, Debug, PartialEq, Eq, Structural)]
pub enum ConnectionState {
    /// The connection was accepted and is handed to a task of its own.
    Accepted,
    /// The secure handshake is made.
    TlsNegotiated,
    /// The request line is read and judged.
    RequestRead,
    /// The document is looked up, read and converted, and the reply is written.
    Replying,
    /// The reply was written and the connection is dropped.
    Closed,
    /// A step failed and the connection is dropped without anything more written.
    Errored,
}

/// What is to be done for a connection at a step.
#[derive(Clone, Copy, Debug, PartialEq, Eq, Structural)]
pub enum Work {
    /// Hand the connection to a task of its own.
    HandOff,
    /// Make the secure handshake.
    Handshake,
    /// Read the request line and judge it.
    ReadRequest,
    /// Look the document up, read and convert it, write the reply and flush.
    Reply,
}

/// How the work of a step ended.
#[derive(Clone, Copy, Debug, PartialEq, Eq, Structural)]
pub enum Outcome {
    /// The work was done.
    Done,
    /// The work failed.
    Failed,
}

/// The work of a step; none is left once the connection is closed or has failed.
pub open spec fn work_at(state: ConnectionState) -> Option<Work> {
    match state {
        ConnectionState::Accepted => Some(Work::HandOff),
        ConnectionState::TlsNegotiated => Some(Work::Handshake),
        ConnectionState::RequestRead => Some(Work::ReadRequest),
        ConnectionState::Replying => Some(Work::Reply),
        ConnectionState::Closed => None,
        ConnectionState::Errored => None,
    }
}

/// The step that follows when the work of a step has ended.
///
/// Work that is done leads to the next step in order; work that failed ends the
/// connection at once. A connection that is closed or has failed stays so.
pub open spec fn next_state(state: ConnectionState, outcome: Outcome) -> ConnectionState {
    match (state, outcome) {
        (ConnectionState::Closed, _) => ConnectionState::Closed,
        (ConnectionState::Errored, _) => ConnectionState::Errored,
        (_, Outcome::Failed) => ConnectionState::Errored,
        (ConnectionState::Accepted, Outcome::Done) => ConnectionState::TlsNegotiated,
        (ConnectionState::TlsNegotiated, Outcome::Done) => ConnectionState::RequestRead,
        (ConnectionState::RequestRead, Outcome::Done) => ConnectionState::Replying,
        (ConnectionState::Replying, Outcome::Done) => ConnectionState::Closed,
    }
}

/// The step after some outcomes, one after another.
pub open spec fn state_after(state: ConnectionState, outcomes: Seq<Outcome>) -> ConnectionState
    decreases outcomes.len(),
{
    if outcomes.len() == 0 {
        state
    } else {
        next_state(state_after(state, outcomes.drop_last()), outcomes.last())
    }
}

/// Tells what is to be done for a connection at a step.
pub fn work(state: ConnectionState) -> (work: Option<Work>)
    ensures
        work == work_at(state),
{
    match state {
        ConnectionState::Accepted => Some(Work::HandOff),
        ConnectionState::TlsNegotiated => Some(Work::Handshake),
        ConnectionState::RequestRead => Some(Work::ReadRequest),
        ConnectionState::Replying => Some(Work::Reply),
        ConnectionState::Closed => None,
        ConnectionState::Errored => None,
    }
}

/// Moves a connection on when the work of its step has ended.
pub fn advance(state: ConnectionState, outcome: Outcome) -> (next: ConnectionState)
    ensures
        next == next_state(state, outcome),
{
    match state {
        ConnectionState::Closed => ConnectionState::Closed,
        ConnectionState::Errored => ConnectionState::Errored,
        _ => match outcome {
            Outcome::Failed => ConnectionState::Errored,
            Outcome::Done => match state {
                ConnectionState::Accepted => ConnectionState::TlsNegotiated,
                ConnectionState::TlsNegotiated => ConnectionState::RequestRead,
                ConnectionState::RequestRead => ConnectionState::Replying,
                _ => ConnectionState::Closed,
            },
        },
    }
}

/// A connection that has failed stays failed, and one that is closed stays closed,
/// whatever comes after.
pub proof fn lemma_end_states_absorb(state: ConnectionState, outcomes: Seq<Outcome>)
    requires
        state == ConnectionState::Errored || state == ConnectionState::Closed,
    ensures
        state_after(state, outcomes) == state,
    decreases outcomes.len(),
{
    if outcomes.len() > 0 {
        lemma_end_states_absorb(state, outcomes.drop_last());
    }
}

/// A failure at any step at which work is left ends the connection as failed.
pub proof fn lemma_failure_ends_connection(state: ConnectionState)
    requires
        work_at(state) is Some,
    ensures
        next_state(state, Outcome::Failed) == ConnectionState::Errored,
{
}

/// A reply is written only to a request that was read: the step of replying is
/// reached from the step of reading alone, and only when that was done.
pub proof fn lemma_reply_follows_request(state: ConnectionState, outcome: Outcome)
    requires
        next_state(state, outcome) == ConnectionState::Replying,
    ensures
        state == ConnectionState::RequestRead,
        outcome == Outcome::Done,
{
}

/// A connection on which every step is done runs through the steps in order and is
/// closed after the fourth.
pub proof fn lemma_steps_in_order()
    ensures
        state_after(ConnectionState::Accepted, seq![Outcome::Done])
            == ConnectionState::TlsNegotiated,
        state_after(ConnectionState::Accepted, seq![Outcome::Done, Outcome::Done])
            == ConnectionState::RequestRead,
        state_after(ConnectionState::Accepted, seq![Outcome::Done, Outcome::Done, Outcome::Done])
            == ConnectionState::Replying,
        state_after(
            ConnectionState::Accepted,
            seq![Outcome::Done, Outcome::Done, Outcome::Done, Outcome::Done],
        ) == ConnectionState::Closed,
{
    reveal_with_fuel(state_after, 5);
}

/// The line that starts a reply with a document: the status of success, a space, the
/// media type of Gemtext, and CR LF.
pub open spec fn success_header() -> Seq<u8> {
    encode_utf8("20 text/gemini\r\n"@)
}

/// The line of success byte by byte: `20`, a space, `text/gemini`, CR and LF.
pub proof fn lemma_success_header_bytes()
    ensures
        success_header() == seq![
            0x32u8, 0x30, 0x20, 0x74, 0x65, 0x78, 0x74, 0x2F, 0x67, 0x65, 0x6D, 0x69, 0x6E, 0x69,
            0x0D, 0x0A,
        ],
{
    reveal_strlit("20 text/gemini\r\n");
    let line = "20 text/gemini\r\n"@;
    vstd::utf8::is_ascii_chars_encode_utf8(line);
    assert(success_header() =~= seq![
        0x32u8, 0x30, 0x20, 0x74, 0x65, 0x78, 0x74, 0x2F, 0x67, 0x65, 0x6D, 0x69, 0x6E, 0x69,
        0x0D, 0x0A,
    ]);
}

/// The reply to a request for a document with the given contents: the line of
/// success and, right after it, the document as Gemtext.
pub open spec fn reply_to(contents: Seq<char>) -> Seq<u8> {
    success_header() + document_gemtext(contents)
}

/// Makes the reply to a request for a document with the given contents.
pub fn reply(contents: &str) -> (result: Result<Vec<u8>, ConvertError>)
    ensures
        result matches Ok(bytes) && bytes@ == reply_to(contents@),
{
    let mut bytes: Vec<u8> = Vec::new();
    bytes.extend_from_slice("20 text/gemini\r\n".as_bytes());
    let mut body = to_gemini(contents)?;
    bytes.append(&mut body);
    Ok(bytes)
}

} // verus!
