//! Room timeouts: at most one pending timeout task per room, the decisions
//! taken when a timeout fires, and the steps that close a room.
use vstd::prelude::*;
use std::collections::HashMap;
use crate::model::{CallTimeoutVO, Room, RoomClosedVO};
use crate::types::{RoomId, UserId};
use crate::ws_msg_type::WsMsgTypeEnum;

verus! {

broadcast use vstd::std_specs::hash::group_hash_axioms;

/// Seconds without activity after which a room is cleaned up.
pub const ROOM_IDLE_TIMEOUT_SECS: u64 = 300;

/// Seconds a call may ring before it times out.
pub const CALL_TIMEOUT_SECS: u64 = 30;

/// The pending timeout task of each room, by task id.
pub struct TimeoutTasks {
    tasks: HashMap<RoomId, u64>,
}

impl View for TimeoutTasks {
    type V = Map<RoomId, u64>;

    closed spec fn view(&self) -> Map<RoomId, u64> {
        self.tasks@
    }
}

impl TimeoutTasks {
    /// No pending task.
    pub fn new() -> (r: Self)
        ensures
            r@ == Map::<RoomId, u64>::empty(),
    {
        TimeoutTasks { tasks: HashMap::new() }
    }

    /// Takes a room's pending task off the list; the task handed back is the
    /// one to abort.
    pub fn cancel(&mut self, room_id: RoomId) -> (r: Option<u64>)
        ensures
            final(self)@ == old(self)@.remove(room_id),
            r is Some <==> old(self)@.contains_key(room_id),
            r matches Some(t) ==> t == old(self)@[room_id],
    {
        self.tasks.remove(&room_id)
    }

    /// Makes `task` the room's pending task. Any task the room had is taken
    /// off and handed back, to be aborted.
    pub fn schedule(&mut self, room_id: RoomId, task: u64) -> (r: Option<u64>)
        ensures
            final(self)@ == old(self)@.insert(room_id, task),
            r is Some <==> old(self)@.contains_key(room_id),
            r matches Some(t) ==> t == old(self)@[room_id],
    {
        let previous = self.cancel(room_id);
        self.tasks.insert(room_id, task);
        previous
    }

    /// A room's timeout task ran to its end: the room has no pending task.
    pub fn finish(&mut self, room_id: RoomId)
        ensures
            final(self)@ == old(self)@.remove(room_id),
    {
        self.tasks.remove(&room_id);
    }

    /// The room's pending task, if any.
    pub fn pending(&self, room_id: RoomId) -> (r: Option<u64>)
        ensures
            r is Some <==> self@.contains_key(room_id),
            r matches Some(t) ==> t == self@[room_id],
    {
        match self.tasks.get(&room_id) {
            Some(t) => Some(*t),
            None => None,
        }
    }
}

/// A room has at most one pending timeout: scheduling a new one replaces the
/// old one, which is handed back to be aborted, and cancelling then leaves
/// the room with none and hands back the new one.
pub proof fn lemma_schedule_replaces_and_cancel_clears(m: Map<RoomId, u64>, room: RoomId, t1: u64, t2: u64)
    ensures
        m.insert(room, t1).insert(room, t2) == m.insert(room, t2),
        m.insert(room, t1)[room] == t1,
        !m.insert(room, t2).remove(room).contains_key(room),
        m.insert(room, t2).remove(room) == m.remove(room),
{
    assert(m.insert(room, t1).insert(room, t2) =~= m.insert(room, t2));
    assert(m.insert(room, t2).remove(room) =~= m.remove(room));
}

/// A room is cleaned up when its idle timeout fires if it is known to be
/// open and known to have no member; a failed lookup counts as closed for
/// the first and as no member for the second.
pub open spec fn room_cleanup_due_spec(closed: Option<bool>, members: Option<Seq<UserId>>) -> bool {
    closed == Some(false) && match members {
        Some(m) => m.len() == 0,
        None => true,
    }
}

/// Whether a room is to be cleaned up when its idle timeout fires.
pub fn room_cleanup_due(closed: Option<bool>, members: &Option<Vec<UserId>>) -> (r: bool)
    ensures
        r == room_cleanup_due_spec(
            closed,
            match members {
                Some(m) => Some(m@),
                None => None,
            },
        ),
{
    let is_closed = match closed {
        Some(c) => c,
        None => true,
    };
    let empty = match members {
        Some(m) => m.len() == 0,
        None => true,
    };
    !is_closed && empty
}

/// The notice sent to the caller when a call times out.
pub struct CallTimeoutNotice {
    /// The message type: `Timeout`.
    pub msg_type: i32,
    /// Who is told: the caller.
    pub to_uid: UserId,
    /// The sender recorded with the push: the receiver.
    pub cuid: UserId,
    /// The payload: the user who did not answer.
    pub vo: CallTimeoutVO,
}

/// What to do when a call's timeout fires: nothing when the room is closed
/// or its state cannot be read; otherwise tell the caller that the receiver
/// did not answer.
pub fn call_timeout_notice(closed: Option<bool>, caller: UserId, receiver: UserId) -> (r: Option<
    CallTimeoutNotice,
>)
    ensures
        r is Some <==> closed == Some(false),
        r matches Some(n) ==> n.msg_type == WsMsgTypeEnum::Timeout.code() && n.to_uid == caller
            && n.cuid == receiver && n.vo.target_uid == receiver,
{
    let is_closed = match closed {
        Some(c) => c,
        None => true,
    };
    if is_closed {
        None
    } else {
        Some(
            CallTimeoutNotice {
                msg_type: WsMsgTypeEnum::Timeout.as_i32(),
                to_uid: caller,
                cuid: receiver,
                vo: CallTimeoutVO { target_uid: receiver },
            },
        )
    }
}

/// A write of a room's metadata.
pub enum RoomMetaWrite {
    /// Mark the room open.
    OpenRoom,
    /// Record the tenant.
    SetTenantId(i64),
    /// Record whether it is a video call.
    SetMediumType(bool),
    /// Record the room type.
    SetRoomType(i32),
    /// Record the creator.
    SetCreator(UserId),
    /// Add an administrator.
    AddAdmin(UserId),
}

/// The metadata written when a call opens a room, in order: open it, then
/// its tenant, medium, type, creator and first administrator (the creator).
pub fn room_meta_writes(room: &Room, uid: UserId, is_video: bool) -> (r: Vec<RoomMetaWrite>)
    ensures
        r@ == seq![
            RoomMetaWrite::OpenRoom,
            RoomMetaWrite::SetTenantId(room.tenant_id),
            RoomMetaWrite::SetMediumType(is_video),
            RoomMetaWrite::SetRoomType(room.room_type),
            RoomMetaWrite::SetCreator(uid),
            RoomMetaWrite::AddAdmin(uid),
        ],
{
    let mut w: Vec<RoomMetaWrite> = Vec::new();
    w.push(RoomMetaWrite::OpenRoom);
    w.push(RoomMetaWrite::SetTenantId(room.tenant_id));
    w.push(RoomMetaWrite::SetMediumType(is_video));
    w.push(RoomMetaWrite::SetRoomType(room.room_type));
    w.push(RoomMetaWrite::SetCreator(uid));
    w.push(RoomMetaWrite::AddAdmin(uid));
    assert(w@ =~= seq![
        RoomMetaWrite::OpenRoom,
        RoomMetaWrite::SetTenantId(room.tenant_id),
        RoomMetaWrite::SetMediumType(is_video),
        RoomMetaWrite::SetRoomType(room.room_type),
        RoomMetaWrite::SetCreator(uid),
        RoomMetaWrite::AddAdmin(uid),
    ]);
    w
}

/// Where the closing of a room stands.
pub enum CleanRoomState {
    /// Nothing done yet.
    Start,
    /// Waiting to learn whether the room is closed already.
    CheckingClosed,
    /// The room's timeouts were cancelled and it is being marked closed.
    MarkingClosed,
    /// Waiting for the room's members.
    FetchingMembers,
    /// The room's data is being removed; these members are to be told.
    CleaningData { members: Vec<UserId> },
    /// Finished.
    Done,
}

/// What happened since the last step.
pub enum CleanRoomEvent {
    /// Nothing: the first step.
    Begin,
    /// Whether the room is closed.
    ClosedChecked { closed: bool },
    /// The room is marked closed.
    MarkedClosed,
    /// The room's members.
    MembersFetched { members: Vec<UserId> },
    /// The room's data is removed.
    DataCleaned,
}

/// What to do next.
pub enum CleanRoomAction {
    /// Ask whether the room is closed.
    CheckClosed,
    /// Cancel the room's timeout task and mark the room closed.
    CancelTimeoutAndMarkClosed,
    /// Ask for the room's members.
    FetchMembers,
    /// Remove the room's data.
    CleanRoomData,
    /// Tell the members that the room is closed, then stop.
    NotifyClosed { msg_type: i32, members: Vec<u64>, cuid: u64, vo: RoomClosedVO },
    /// Stop.
    Finish,
    /// The event does not fit the state: stop.
    Unexpected,
}

/// One step of closing a room: from the state and what happened, the next
/// state and what to do. A room found closed already is left alone; otherwise
/// its timeouts are cancelled, it is marked closed, its members are read, its
/// data removed, and the members, if any, are told with a `CloseRoom` message.
pub fn clean_room_step(state: CleanRoomState, event: CleanRoomEvent, room_id: RoomId, reason: &String) -> (r: (
    CleanRoomState,
    CleanRoomAction,
))
    ensures
        match (state, event) {
            (CleanRoomState::Start, CleanRoomEvent::Begin) => r.0 is CheckingClosed && r.1 is CheckClosed,
            (CleanRoomState::CheckingClosed, CleanRoomEvent::ClosedChecked { closed }) => if closed {
                r.0 is Done && r.1 is Finish
            } else {
                r.0 is MarkingClosed && r.1 is CancelTimeoutAndMarkClosed
            },
            (CleanRoomState::MarkingClosed, CleanRoomEvent::MarkedClosed) => r.0 is FetchingMembers
                && r.1 is FetchMembers,
            (CleanRoomState::FetchingMembers, CleanRoomEvent::MembersFetched { members }) => r.1 is CleanRoomData
                && (r.0 matches CleanRoomState::CleaningData { members: m } && m@ == members@),
            (CleanRoomState::CleaningData { members }, CleanRoomEvent::DataCleaned) => r.0 is Done && if members.len()
                == 0 {
                r.1 is Finish
            } else {
                r.1 matches CleanRoomAction::NotifyClosed { msg_type, members: to, cuid, vo } && msg_type
                    == WsMsgTypeEnum::CloseRoom.code() && to@ == members@ && cuid == 0 && vo.room_id == room_id
                    && vo.reason@ == reason@
            },
            _ => r.0 is Done && r.1 is Unexpected,
        },
{
    match (state, event) {
        (CleanRoomState::Start, CleanRoomEvent::Begin) => (CleanRoomState::CheckingClosed, CleanRoomAction::CheckClosed),
        (CleanRoomState::CheckingClosed, CleanRoomEvent::ClosedChecked { closed }) => {
            if closed {
                (CleanRoomState::Done, CleanRoomAction::Finish)
            } else {
                (CleanRoomState::MarkingClosed, CleanRoomAction::CancelTimeoutAndMarkClosed)
            }
        },
        (CleanRoomState::MarkingClosed, CleanRoomEvent::MarkedClosed) => (
            CleanRoomState::FetchingMembers,
            CleanRoomAction::FetchMembers,
        ),
        (CleanRoomState::FetchingMembers, CleanRoomEvent::MembersFetched { members }) => (
            CleanRoomState::CleaningData { members },
            CleanRoomAction::CleanRoomData,
        ),
        (CleanRoomState::CleaningData { members }, CleanRoomEvent::DataCleaned) => {
            if members.len() == 0 {
                (CleanRoomState::Done, CleanRoomAction::Finish)
            } else {
                (
                    CleanRoomState::Done,
                    CleanRoomAction::NotifyClosed {
                        msg_type: WsMsgTypeEnum::CloseRoom.as_i32(),
                        members,
                        cuid: 0,
                        vo: RoomClosedVO { room_id, reason: reason.clone() },
                    },
                )
            }
        },
        _ => (CleanRoomState::Done, CleanRoomAction::Unexpected),
    }
}

} // verus!
