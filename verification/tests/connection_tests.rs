use ms_websocket::connection::{admit_connection, admit_connection_with_fresh_ids, on_frame, Admission, FrameAction, FrameKind};
use ms_websocket::processors::{
    push_router_group_id, push_router_topics, QualityMonitorProcessor, QualityRequest,
    RoomAdminProcessor, RoomAdminRequest, VideoCallProcessor, VideoCallRequest,
};

fn s(v: &str) -> Option<String> {
    Some(v.to_string())
}

#[test]
fn connections_need_a_user_and_an_open_node() {
    let a = admit_connection(true, s("dev-1"), s("42"), "gen-c".to_string(), "gen-s".to_string());
    match a {
        Admission::Accept { client_id, uid, session_id } => {
            assert_eq!(client_id, "dev-1");
            assert_eq!(uid, 42);
            assert_eq!(session_id, "gen-s");
        }
        Admission::Reject => panic!("expected the connection to be taken"),
    }
    let b = admit_connection(true, None, s("7"), "gen-c".to_string(), "gen-s".to_string());
    assert!(matches!(b, Admission::Accept { ref client_id, .. } if client_id == "gen-c"));
    assert!(matches!(admit_connection(false, s("d"), s("7"), String::new(), String::new()), Admission::Reject));
    assert!(matches!(admit_connection(true, s("d"), s("0"), String::new(), String::new()), Admission::Reject));
    assert!(matches!(admit_connection(true, s("d"), s("x"), String::new(), String::new()), Admission::Reject));
    assert!(matches!(admit_connection(true, s("d"), None, String::new(), String::new()), Admission::Reject));
}

#[test]
fn frames() {
    assert!(matches!(on_frame(FrameKind::Text), (true, FrameAction::Dispatch)));
    assert!(matches!(on_frame(FrameKind::Binary), (true, FrameAction::Ignore)));
    assert!(matches!(on_frame(FrameKind::Ping), (true, FrameAction::ReplyPong)));
    assert!(matches!(on_frame(FrameKind::Pong), (true, FrameAction::Ignore)));
    assert!(matches!(on_frame(FrameKind::Close), (false, FrameAction::Stop)));
}

#[test]
fn quality_monitor_types() {
    let p = QualityMonitorProcessor::new();
    assert!(p.supports("network_report"));
    assert!(p.supports("SCREEN_SHARING"));
    assert!(!p.supports("Network_Report"));
    assert!(matches!(p.classify("NETWORK_REPORT"), Some(QualityRequest::NetworkReport)));
    assert!(matches!(p.classify("screen_sharing"), Some(QualityRequest::ScreenSharing)));
    assert!(p.classify("video_call_request").is_none());
    let _d = QualityMonitorProcessor::default();
}

#[test]
fn room_admin_types() {
    let p = RoomAdminProcessor::new();
    assert!(p.supports(11));
    assert!(p.supports(12));
    assert!(p.supports(9));
    assert!(!p.supports(10));
    assert!(matches!(p.classify(11), Some(RoomAdminRequest::CloseRoom)));
    assert!(matches!(p.classify(12), Some(RoomAdminRequest::KickUser)));
    assert!(matches!(p.classify(9), Some(RoomAdminRequest::MuteAll)));
    assert!(p.classify(1).is_none());
    let _d = RoomAdminProcessor::default();
}

#[test]
fn video_call_types() {
    let p = VideoCallProcessor::new();
    assert!(p.supports("video_call_request"));
    assert!(p.supports("VIDEO_CALL_RESPONSE"));
    assert!(!p.supports("video_call"));
    assert!(matches!(p.classify("VIDEO_CALL_REQUEST"), Some(VideoCallRequest::CallRequest)));
    assert!(matches!(p.classify("video_call_response"), Some(VideoCallRequest::CallResponse)));
    let _d = VideoCallProcessor::default();
}

#[test]
fn push_router_subscription() {
    assert_eq!(push_router_topics(), vec!["websocket_push".to_string()]);
    assert_eq!(push_router_group_id(), "websocket_push_group");
}

fn is_uuid_text(t: &str) -> bool {
    t.len() == 36
        && t.chars().enumerate().all(|(i, c)| {
            if i == 8 || i == 13 || i == 18 || i == 23 {
                c == '-'
            } else {
                c.is_ascii_digit() || ('a'..='f').contains(&c)
            }
        })
}

#[test]
fn fresh_ids_are_drawn_for_the_session_and_a_missing_client() {
    match admit_connection_with_fresh_ids(true, None, s("42")) {
        Admission::Accept { client_id, uid, session_id } => {
            assert_eq!(uid, 42);
            assert!(is_uuid_text(&client_id));
            assert!(is_uuid_text(&session_id));
            assert_ne!(client_id, session_id);
        }
        Admission::Reject => panic!("expected the connection to be accepted"),
    }
    match admit_connection_with_fresh_ids(true, s("phone"), s("42")) {
        Admission::Accept { client_id, .. } => assert_eq!(client_id, "phone"),
        Admission::Reject => panic!("expected the connection to be accepted"),
    }
    assert!(matches!(admit_connection_with_fresh_ids(true, s("phone"), s("0")), Admission::Reject));
    assert!(matches!(admit_connection_with_fresh_ids(false, s("phone"), s("42")), Admission::Reject));
}
