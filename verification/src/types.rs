//! Identifier types shared by the node.
use vstd::prelude::*;

verus! {

/// A user.
pub type UserId = u64;

/// A room.
pub type RoomId = i64;

/// A client device (device fingerprint).
pub type ClientId = String;

/// A WebSocket session.
pub type SessionId = String;

} // verus!
