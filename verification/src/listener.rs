//! The accept-loop decisions of one repository's listener.
//!
//! A listener binds its repository's endpoint and accepts connections
//! forever. Accepting never stops the loop: a connection whose peer address
//! cannot be read is still served, and an accept failure is logged and passed
//! over. Each served connection gets a fresh pipeline scheduled independently
//! of the loop, so new connections keep being accepted while old ones run.

use vstd::prelude::*;
use crate::logging::LogEntry;
use crate::logging::Severity;
use crate::pipeline::Engine;
use crate::pipeline::init_conn;

verus! {

/// What one turn of the accept loop observed.
pub enum AcceptEvent {
    /// A connection arrived; its peer address, or the cause when the address
    /// could not be read.
    Connected(Result<String, String>),
    /// Accepting itself failed; the cause is carried along.
    AcceptFailed(String),
}

/// Model of an accept event.
pub enum AcceptEventModel {
    Connected(Result<Seq<char>, Seq<char>>),
    AcceptFailed(Seq<char>),
}

impl View for AcceptEvent {
    type V = AcceptEventModel;

    open spec fn view(&self) -> AcceptEventModel {
        match self {
            AcceptEvent::Connected(Ok(p)) => AcceptEventModel::Connected(Ok(p@)),
            AcceptEvent::Connected(Err(e)) => AcceptEventModel::Connected(Err(e@)),
            AcceptEvent::AcceptFailed(e) => AcceptEventModel::AcceptFailed(e@),
        }
    }
}

/// What the listener does with one accept event.
pub struct AcceptDecision {
    /// Serve the connection: build its streams, bridge and pipeline, and
    /// schedule the pipeline independently of the accept loop.
    pub spawn: bool,
    /// The loop goes on to the next accept.
    pub keep_listening: bool,
    /// What is logged for this event, on the local side only.
    pub entry: LogEntry,
}

impl AcceptDecision {
    /// Decide one turn of the accept loop. The loop never stops: every
    /// arrived connection is served — with its peer address logged, or the
    /// failure to read it — and an accept failure is only logged.
    pub fn on_accept(ev: AcceptEvent) -> (d: AcceptDecision)
        ensures
            d.keep_listening,
            !d.entry@.remote,
            ev@ matches AcceptEventModel::Connected(p) ==> d.spawn,
            ev@ matches AcceptEventModel::Connected(Ok(p)) ==> d.entry@.severity
                == Severity::Info && d.entry@.message == p,
            ev@ matches AcceptEventModel::Connected(Err(e)) ==> d.entry@.severity
                == Severity::Error && d.entry@.message == e,
            ev@ matches AcceptEventModel::AcceptFailed(e) ==> !d.spawn && d.entry@.severity
                == Severity::Error && d.entry@.message == e,
    {
        match ev {
            AcceptEvent::Connected(Ok(peer)) => AcceptDecision {
                spawn: true,
                keep_listening: true,
                entry: LogEntry { severity: Severity::Info, message: peer, remote: false },
            },
            AcceptEvent::Connected(Err(cause)) => AcceptDecision {
                spawn: true,
                keep_listening: true,
                entry: LogEntry { severity: Severity::Error, message: cause, remote: false },
            },
            AcceptEvent::AcceptFailed(cause) => AcceptDecision {
                spawn: false,
                keep_listening: true,
                entry: LogEntry { severity: Severity::Error, message: cause, remote: false },
            },
        }
    }
}

/// Carry out the spawning half of a decision: a spawned connection enters the
/// repository's engine as a fresh pipeline; otherwise nothing changes.
pub fn admit_connection(engine: &mut Engine, d: &AcceptDecision) -> (r: Option<usize>)
    ensures
        d.spawn ==> final(engine)@ == old(engine)@.push(init_conn()) && r == Some(
            old(engine)@.len() as usize,
        ),
        !d.spawn ==> final(engine)@ == old(engine)@ && r is None,
{
    if d.spawn {
        Some(engine.accept())
    } else {
        None
    }
}

} // verus!
