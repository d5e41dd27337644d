use ms_websocket::model::Room;
use ms_websocket::room_timeout::{
    call_timeout_notice, clean_room_step, room_cleanup_due, room_meta_writes, CleanRoomAction,
    CleanRoomEvent, CleanRoomState, RoomMetaWrite, TimeoutTasks, CALL_TIMEOUT_SECS,
    ROOM_IDLE_TIMEOUT_SECS,
};

fn room() -> Room {
    Room {
        id: 5,
        room_type: 1,
        hot_flag: 0,
        active_time: 0,
        last_msg_id: 0,
        ext_json: None,
        create_time: 0,
        create_by: 0,
        update_time: 0,
        update_by: 0,
        is_del: 0,
        tenant_id: 88,
    }
}

#[test]
fn one_pending_timeout_per_room() {
    let mut t = TimeoutTasks::new();
    assert_eq!(t.schedule(1, 100), None);
    assert_eq!(t.schedule(1, 101), Some(100));
    assert_eq!(t.pending(1), Some(101));
    assert_eq!(t.schedule(2, 200), None);
    assert_eq!(t.cancel(1), Some(101));
    assert_eq!(t.cancel(1), None);
    assert_eq!(t.pending(2), Some(200));
    t.finish(2);
    assert_eq!(t.pending(2), None);
    assert_eq!(ROOM_IDLE_TIMEOUT_SECS, 300);
    assert_eq!(CALL_TIMEOUT_SECS, 30);
}

#[test]
fn cleanup_decision_after_idle_timeout() {
    assert!(room_cleanup_due(Some(false), &Some(vec![])));
    assert!(room_cleanup_due(Some(false), &None));
    assert!(!room_cleanup_due(Some(false), &Some(vec![1])));
    assert!(!room_cleanup_due(Some(true), &Some(vec![])));
    assert!(!room_cleanup_due(None, &Some(vec![])));
}

#[test]
fn call_timeout_tells_the_caller() {
    let n = call_timeout_notice(Some(false), 1, 2).unwrap();
    assert_eq!(n.msg_type, 17);
    assert_eq!(n.to_uid, 1);
    assert_eq!(n.cuid, 2);
    assert_eq!(n.vo.target_uid, 2);
    assert!(call_timeout_notice(Some(true), 1, 2).is_none());
    assert!(call_timeout_notice(None, 1, 2).is_none());
}

#[test]
fn room_metadata_writes_in_order() {
    let w = room_meta_writes(&room(), 9, true);
    assert_eq!(w.len(), 6);
    assert!(matches!(w[0], RoomMetaWrite::OpenRoom));
    assert!(matches!(w[1], RoomMetaWrite::SetTenantId(88)));
    assert!(matches!(w[2], RoomMetaWrite::SetMediumType(true)));
    assert!(matches!(w[3], RoomMetaWrite::SetRoomType(1)));
    assert!(matches!(w[4], RoomMetaWrite::SetCreator(9)));
    assert!(matches!(w[5], RoomMetaWrite::AddAdmin(9)));
}

#[test]
fn closing_an_open_room_with_members() {
    let reason = "TIMEOUT".to_string();
    let (s, a) = clean_room_step(CleanRoomState::Start, CleanRoomEvent::Begin, 5, &reason);
    assert!(matches!(a, CleanRoomAction::CheckClosed));
    let (s, a) = clean_room_step(s, CleanRoomEvent::ClosedChecked { closed: false }, 5, &reason);
    assert!(matches!(a, CleanRoomAction::CancelTimeoutAndMarkClosed));
    let (s, a) = clean_room_step(s, CleanRoomEvent::MarkedClosed, 5, &reason);
    assert!(matches!(a, CleanRoomAction::FetchMembers));
    let (s, a) = clean_room_step(s, CleanRoomEvent::MembersFetched { members: vec![3, 4] }, 5, &reason);
    assert!(matches!(a, CleanRoomAction::CleanRoomData));
    let (s, a) = clean_room_step(s, CleanRoomEvent::DataCleaned, 5, &reason);
    assert!(matches!(s, CleanRoomState::Done));
    match a {
        CleanRoomAction::NotifyClosed { msg_type, members, cuid, vo } => {
            assert_eq!(msg_type, 11);
            assert_eq!(members, vec![3, 4]);
            assert_eq!(cuid, 0);
            assert_eq!(vo.room_id, 5);
            assert_eq!(vo.reason, "TIMEOUT");
        }
        _ => panic!("expected a notice"),
    }
}

#[test]
fn closing_a_closed_or_empty_room() {
    let reason = String::new();
    let (s, a) = clean_room_step(CleanRoomState::CheckingClosed, CleanRoomEvent::ClosedChecked { closed: true }, 1, &reason);
    assert!(matches!(s, CleanRoomState::Done));
    assert!(matches!(a, CleanRoomAction::Finish));
    let (s, a) = clean_room_step(CleanRoomState::CleaningData { members: vec![] }, CleanRoomEvent::DataCleaned, 1, &reason);
    assert!(matches!(s, CleanRoomState::Done));
    assert!(matches!(a, CleanRoomAction::Finish));
    let (_, a) = clean_room_step(CleanRoomState::Start, CleanRoomEvent::DataCleaned, 1, &reason);
    assert!(matches!(a, CleanRoomAction::Unexpected));
}

#[test]
fn room_getters() {
    let r = room();
    assert_eq!(r.get_id(), 5);
    assert_eq!(r.get_type(), 1);
    assert_eq!(r.get_tenant_id(), 88);
}
