//! A WebSocket session as the node keeps it: its id, its user, its client
//! device and when it was last heard from.
use vstd::prelude::*;
use crate::types::{ClientId, SessionId, UserId};

verus! {

/// Seconds of silence after which a session is dropped.
pub const HEARTBEAT_TIMEOUT: u64 = 30;

/// Seconds between two sweeps for silent sessions.
pub const HEARTBEAT_CHECK_INTERVAL: u64 = 10;

/// A WebSocket session.
#[derive(Debug, Clone)]
pub struct Session {
    /// Session id.
    pub id: SessionId,
    /// The user.
    pub uid: UserId,
    /// The client device (device fingerprint).
    pub client_id: ClientId,
    /// When the session was last heard from (Unix time, seconds).
    pub last_seen: u64,
}

/// The view of a session.
pub struct SessionView {
    pub id: Seq<char>,
    pub uid: u64,
    pub client_id: Seq<char>,
    pub last_seen: u64,
}

impl View for Session {
    type V = SessionView;

    open spec fn view(&self) -> SessionView {
        SessionView {
            id: self.id@,
            uid: self.uid,
            client_id: self.client_id@,
            last_seen: self.last_seen,
        }
    }
}

/// A session that has been silent for more than `HEARTBEAT_TIMEOUT` seconds at
/// time `now`; a clock that went back counts as no silence.
pub open spec fn heartbeat_expired_spec(now: u64, last_seen: u64) -> bool {
    now > last_seen && now - last_seen > HEARTBEAT_TIMEOUT
}

/// Whether a session last heard from at `last_seen` is silent for too long at
/// time `now` (the elapsed time saturates at zero).
pub fn heartbeat_expired(now: u64, last_seen: u64) -> (r: bool)
    ensures
        r == heartbeat_expired_spec(now, last_seen),
{
    now.saturating_sub(last_seen) > HEARTBEAT_TIMEOUT
}

impl Session {
    /// A new session, heard from at time `now`.
    pub fn new(id: SessionId, uid: UserId, client_id: ClientId, now: u64) -> (r: Self)
        ensures
            r@ == (SessionView { id: id@, uid, client_id: client_id@, last_seen: now }),
    {
        Session { id, uid, client_id, last_seen: now }
    }

    /// Records that the session was heard from at time `now`.
    pub fn touch(&mut self, now: u64)
        ensures
            final(self)@ == (SessionView { last_seen: now, ..old(self)@ }),
    {
        self.last_seen = now;
    }

    /// When the session was last heard from.
    pub fn last_seen(&self) -> (r: u64)
        ensures
            r == self@.last_seen,
    {
        self.last_seen
    }
}

} // verus!
