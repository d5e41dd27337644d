//! The messages and records that the node exchanges: request and response
//! payloads, and the room record.
use vstd::prelude::*;
use crate::types::{RoomId, UserId};

verus! {

/// Message receipt acknowledgement.
pub struct AckMessageDto {
    /// The user.
    pub uid: Option<u64>,
    /// The message.
    pub msg_id: u64,
}

/// Messages read in a room.
pub struct ReadMessageDto {
    /// The user.
    pub uid: Option<u64>,
    /// The room.
    pub room_id: u64,
    /// The messages read.
    pub msg_ids: Vec<u64>,
}

/// A call was accepted.
pub struct CallAcceptedVO {
    /// Who accepted the call.
    pub accepted_by: String,
    /// The room.
    pub room_id: String,
}

/// The answer to a call.
pub struct CallResponseVO {
    /// Who called.
    pub caller_uid: u64,
    /// The room.
    pub room_id: u64,
    /// -1 timed out, 0 rejected, 1 accepted, 2 hung up.
    pub accepted: i32,
}

/// A heartbeat inside a call.
pub struct HeartbeatReq {
    /// The room.
    pub room_id: u64,
}

/// Screen sharing state.
pub struct ScreenSharingVO {
    /// The room.
    pub room_id: u64,
    /// Who shares.
    pub user_id: u64,
    /// Whether the screen is being shared.
    pub sharing: bool,
}

/// Signalling starts in a room.
pub struct StartSignalingVO {
    /// The room.
    pub room_id: u64,
}

/// A user was kicked out of a room.
pub struct UserKickedVO {
    /// The room.
    pub room_id: u64,
    /// Who was kicked out.
    pub kicked_uid: u64,
    /// Who did it.
    pub operator_id: u64,
    /// Why.
    pub reason: String,
}

/// A call was not answered in time.
pub struct CallTimeoutVO {
    /// The user that did not answer.
    pub target_uid: UserId,
}

/// A room was closed.
pub struct RoomClosedVO {
    /// The room.
    pub room_id: RoomId,
    /// Why.
    pub reason: String,
}

/// A room; times are microseconds since the Unix epoch.
pub struct Room {
    pub id: i64,
    /// 1: group chat, 2: one-to-one chat.
    pub room_type: i32,
    /// Whether the room is shown to everyone: 0 no, 1 yes.
    pub hot_flag: i32,
    pub active_time: i64,
    pub last_msg_id: i64,
    pub ext_json: Option<String>,
    pub create_time: i64,
    pub create_by: i64,
    pub update_time: i64,
    pub update_by: i64,
    pub is_del: i32,
    pub tenant_id: i64,
}

impl Room {
    /// The room type.
    pub fn get_type(&self) -> (r: i32)
        ensures
            r == self.room_type,
    {
        self.room_type
    }

    /// The room id.
    pub fn get_id(&self) -> (r: i64)
        ensures
            r == self.id,
    {
        self.id
    }

    /// The tenant id.
    pub fn get_tenant_id(&self) -> (r: i64)
        ensures
            r == self.tenant_id,
    {
        self.tenant_id
    }
}

} // verus!
