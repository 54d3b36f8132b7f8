//! Connection-state tracking over periodic device queries.
//!
//! The external listing tool is run by the surrounding program; its raw
//! outcome — stdout bytes on success, a query error otherwise — is handed to
//! the functions here. A query outcome means "connected" exactly when the
//! query succeeded and its output parses to at least one device record; every
//! query failure is swallowed into "disconnected" and never surfaced as an
//! error of its own.

use vstd::prelude::*;

use crate::parser::parse_devices;
use crate::parser::parse_devices_spec;
use crate::parser::records_view;

verus! {

/// Why a device query yielded no listing.
#[derive(Clone, Debug, PartialEq, Eq)]
pub enum QueryError {
    /// The listing tool could not be started at all.
    LaunchFailed,
    /// The listing tool ran but exited with a failure status; the bytes are
    /// what it wrote to its error stream.
    NonZeroExit(Vec<u8>),
}

/// Whether a query outcome reads as "connected": the query succeeded and its
/// output holds at least one well-formed device line.
pub open spec fn query_connected(q: Result<Vec<u8>, QueryError>) -> bool {
    match q {
        Ok(listing) => parse_devices_spec(listing@).len() > 0,
        Err(_) => false,
    }
}

/// One observation of the connection state from a fresh query outcome: any
/// query failure reads as disconnected, whatever was stored before; a
/// successful query reads as connected exactly when at least one device
/// parses from its output. Pure observation — no state is touched.
pub fn check_now(q: &Result<Vec<u8>, QueryError>) -> (connected: bool)
    ensures
        connected == query_connected(*q),
{
    match q {
        Ok(listing) => {
            let records = parse_devices(listing.as_slice());
            proof {
                assert(records_view(records@).len() == records@.len());
            }
            records.len() > 0
        },
        Err(_) => false,
    }
}

/// The event sent to the presentation layer when the stored connection state
/// changes, carrying the new state.
#[derive(Clone, Copy, Debug, PartialEq, Eq, Structural)]
pub enum ConnectionEvent {
    /// The connection state flipped; the payload is the new state.
    ConnectionChanged(bool),
}

/// One poll transition: from the stored state and a fresh observation to the
/// new stored state and the event to emit — a change event when the
/// observation differs from the stored state, nothing when it does not.
pub open spec fn poll_step(stored: bool, observed: bool) -> (bool, Option<ConnectionEvent>) {
    if observed == stored {
        (stored, None)
    } else {
        (observed, Some(ConnectionEvent::ConnectionChanged(observed)))
    }
}

/// The last-known connection state, refreshed by poll ticks for the life of
/// the process.
pub struct ConnectionTracker {
    connected: bool,
}

impl ConnectionTracker {
    /// The stored state: what the most recent accepted observation saw.
    pub closed spec fn connected_spec(self) -> bool {
        self.connected
    }

    /// A tracker whose initial state comes from one query made at startup.
    pub fn new(q: &Result<Vec<u8>, QueryError>) -> (t: Self)
        ensures
            t.connected_spec() == query_connected(*q),
    {
        ConnectionTracker { connected: check_now(q) }
    }

    /// The stored state, as the presentation layer and the action handler
    /// read it between ticks.
    pub fn is_connected(&self) -> (connected: bool)
        ensures
            connected == self.connected_spec(),
    {
        self.connected
    }

    /// One poll tick: observe the fresh query outcome, store it, and emit a
    /// change event exactly when the stored state flipped.
    pub fn poll_tick(&mut self, q: &Result<Vec<u8>, QueryError>) -> (event: Option<
        ConnectionEvent,
    >)
        ensures
            final(self).connected_spec() == poll_step(
                old(self).connected_spec(),
                query_connected(*q),
            ).0,
            event == poll_step(old(self).connected_spec(), query_connected(*q)).1,
    {
        let observed = check_now(q);
        if observed != self.connected {
            self.connected = observed;
            Some(ConnectionEvent::ConnectionChanged(observed))
        } else {
            None
        }
    }
}

/// A failed query is observed as disconnected, whatever state the tracker
/// stored before: the poll transition out of any stored state lands on
/// "disconnected".
pub proof fn lemma_query_failure_disconnected(q: Result<Vec<u8>, QueryError>, stored: bool)
    requires
        q is Err,
    ensures
        !query_connected(q),
        !poll_step(stored, query_connected(q)).0,
{
}

/// A second poll tick over an unchanged observation emits no event; a tick
/// whose observation differs from the stored state emits exactly one change
/// event carrying the new state, and a tick whose observation matches emits
/// none.
pub proof fn lemma_poll_emits_once(stored: bool, observed: bool)
    ensures
        poll_step(poll_step(stored, observed).0, observed).1 is None,
        stored != observed ==> poll_step(stored, observed).1 == Some(
            ConnectionEvent::ConnectionChanged(observed),
        ),
        stored == observed ==> poll_step(stored, observed).1 is None,
{
}

} // verus!
