use ms_websocket::ws_msg_type::WsMsgTypeEnum;

const ALL: [(i32, WsMsgTypeEnum, &str); 19] = [
    (1, WsMsgTypeEnum::Login, "请求登录二维码"),
    (2, WsMsgTypeEnum::Heartbeat, "心跳包"),
    (3, WsMsgTypeEnum::Authorize, "登录认证"),
    (4, WsMsgTypeEnum::VideoHeartbeat, "视频心跳"),
    (5, WsMsgTypeEnum::VideoCallRequest, "视频通话请求"),
    (6, WsMsgTypeEnum::VideoCallResponse, "视频通话响应"),
    (7, WsMsgTypeEnum::MediaMuteAudio, "媒体静音音频"),
    (8, WsMsgTypeEnum::MediaMuteVideo, "静音视频"),
    (9, WsMsgTypeEnum::MediaMuteAll, "静音全部用户"),
    (10, WsMsgTypeEnum::ScreenSharing, "屏幕共享"),
    (11, WsMsgTypeEnum::CloseRoom, "关闭房间"),
    (12, WsMsgTypeEnum::KickUser, "踢出用户"),
    (13, WsMsgTypeEnum::NetworkReport, "通话质量监控"),
    (14, WsMsgTypeEnum::WebrtcSignal, "信令消息"),
    (15, WsMsgTypeEnum::Ack, "消息确认接收ack"),
    (16, WsMsgTypeEnum::Read, "消息已读"),
    (17, WsMsgTypeEnum::Timeout, "超时"),
    (18, WsMsgTypeEnum::JoinVideo, "用户加入房间"),
    (19, WsMsgTypeEnum::LeaveVideo, "用户离开房间"),
];

#[test]
fn from_decodes_every_code() {
    for (code, t, _) in ALL.iter() {
        assert_eq!(WsMsgTypeEnum::from(*code), Some(*t));
    }
}

#[test]
fn from_rejects_unknown_codes() {
    assert_eq!(WsMsgTypeEnum::from(0), None);
    assert_eq!(WsMsgTypeEnum::from(20), None);
    assert_eq!(WsMsgTypeEnum::from(-1), None);
    assert_eq!(WsMsgTypeEnum::from(i32::MAX), None);
}

#[test]
fn as_i32_gives_the_wire_code() {
    for (code, t, _) in ALL.iter() {
        assert_eq!(t.as_i32(), *code);
    }
}

#[test]
fn code_round_trip() {
    for (_, t, _) in ALL.iter() {
        assert_eq!(WsMsgTypeEnum::from(t.as_i32()), Some(*t));
    }
}

#[test]
fn desc_of_every_type() {
    for (_, t, d) in ALL.iter() {
        assert_eq!(t.desc(), *d);
    }
}

#[test]
fn eq_compares_with_the_code() {
    assert!(WsMsgTypeEnum::CloseRoom.eq(11));
    assert!(!WsMsgTypeEnum::CloseRoom.eq(12));
    assert!(WsMsgTypeEnum::LeaveVideo.eq(19));
    assert!(!WsMsgTypeEnum::Login.eq(0));
}
