//! Request processors of meetings: which request types each one takes, and
//! which of its handlers a request goes to.
use vstd::prelude::*;
use crate::text::str_equal;
use crate::ws_msg_type::WsMsgTypeEnum;

verus! {

/// What the quality monitor handles.
pub enum QualityRequest {
    /// A network quality report.
    NetworkReport,
    /// A change of screen sharing.
    ScreenSharing,
}

/// The quality monitor's request for a type name, if it handles it.
pub open spec fn quality_request_of(t: Seq<char>) -> Option<QualityRequest> {
    if t == "network_report"@ || t == "NETWORK_REPORT"@ {
        Some(QualityRequest::NetworkReport)
    } else if t == "screen_sharing"@ || t == "SCREEN_SHARING"@ {
        Some(QualityRequest::ScreenSharing)
    } else {
        None
    }
}

/// Each quality name goes to the handler of its own meaning, in lower and
/// upper case alike.
pub proof fn lemma_quality_names(t: Seq<char>)
    ensures
        t == "network_report"@ ==> quality_request_of(t) == Some(QualityRequest::NetworkReport),
        t == "NETWORK_REPORT"@ ==> quality_request_of(t) == Some(QualityRequest::NetworkReport),
        t == "screen_sharing"@ ==> quality_request_of(t) == Some(QualityRequest::ScreenSharing),
        t == "SCREEN_SHARING"@ ==> quality_request_of(t) == Some(QualityRequest::ScreenSharing),
{
    reveal_strlit("network_report");
    reveal_strlit("NETWORK_REPORT");
    reveal_strlit("screen_sharing");
    reveal_strlit("SCREEN_SHARING");
    assert("screen_sharing"@ != "network_report"@) by {
        assert("screen_sharing"@[0] != "network_report"@[0]);
    }
    assert("screen_sharing"@ != "NETWORK_REPORT"@) by {
        assert("screen_sharing"@[0] != "NETWORK_REPORT"@[0]);
    }
    assert("SCREEN_SHARING"@ != "network_report"@) by {
        assert("SCREEN_SHARING"@[0] != "network_report"@[0]);
    }
    assert("SCREEN_SHARING"@ != "NETWORK_REPORT"@) by {
        assert("SCREEN_SHARING"@[0] != "NETWORK_REPORT"@[0]);
    }
}

/// Monitors call quality: network reports and screen sharing.
pub struct QualityMonitorProcessor;

impl QualityMonitorProcessor {
    /// A quality monitor.
    pub fn new() -> (r: Self)
        ensures
            r == QualityMonitorProcessor,
    {
        QualityMonitorProcessor
    }

    /// Which handler takes a request of type `req_type`, if any.
    pub fn classify(&self, req_type: &str) -> (r: Option<QualityRequest>)
        ensures
            r == quality_request_of(req_type@),
            req_type@ == "network_report"@ ==> r == Some(QualityRequest::NetworkReport),
            req_type@ == "NETWORK_REPORT"@ ==> r == Some(QualityRequest::NetworkReport),
            req_type@ == "screen_sharing"@ ==> r == Some(QualityRequest::ScreenSharing),
            req_type@ == "SCREEN_SHARING"@ ==> r == Some(QualityRequest::ScreenSharing),
    {
        proof {
            lemma_quality_names(req_type@);
        }
        if str_equal(req_type, "network_report") || str_equal(req_type, "NETWORK_REPORT") {
            Some(QualityRequest::NetworkReport)
        } else if str_equal(req_type, "screen_sharing") || str_equal(req_type, "SCREEN_SHARING") {
            Some(QualityRequest::ScreenSharing)
        } else {
            None
        }
    }

    /// Whether the monitor takes requests of type `req_type`.
    pub fn supports(&self, req_type: &str) -> (r: bool)
        ensures
            r == quality_request_of(req_type@) is Some,
    {
        self.classify(req_type).is_some()
    }
}

impl Default for QualityMonitorProcessor {
    fn default() -> (r: Self)
        ensures
            r == QualityMonitorProcessor,
    {
        QualityMonitorProcessor::new()
    }
}

/// What the room administration handles.
pub enum RoomAdminRequest {
    /// Close the room.
    CloseRoom,
    /// Kick a user out.
    KickUser,
    /// Mute everyone.
    MuteAll,
}

/// The room administration's request for a type code, if it handles it.
pub open spec fn room_admin_request_of(t: i32) -> Option<RoomAdminRequest> {
    if t == WsMsgTypeEnum::CloseRoom.code() {
        Some(RoomAdminRequest::CloseRoom)
    } else if t == WsMsgTypeEnum::KickUser.code() {
        Some(RoomAdminRequest::KickUser)
    } else if t == WsMsgTypeEnum::MediaMuteAll.code() {
        Some(RoomAdminRequest::MuteAll)
    } else {
        None
    }
}

/// The room administration takes exactly the codes of closing a room (11),
/// kicking a user (12) and muting everyone (9), each to its own handler.
pub proof fn lemma_room_admin_codes(t: i32)
    ensures
        t == 11 ==> room_admin_request_of(t) == Some(RoomAdminRequest::CloseRoom),
        t == 12 ==> room_admin_request_of(t) == Some(RoomAdminRequest::KickUser),
        t == 9 ==> room_admin_request_of(t) == Some(RoomAdminRequest::MuteAll),
        !(t == 9 || t == 11 || t == 12) ==> room_admin_request_of(t) is None,
{
}

/// Room administration: closing a room, kicking users, muting everyone.
pub struct RoomAdminProcessor;

impl RoomAdminProcessor {
    /// A room administration processor.
    pub fn new() -> (r: Self)
        ensures
            r == RoomAdminProcessor,
    {
        RoomAdminProcessor
    }

    /// Which handler takes a request of type code `req_type`, if any.
    pub fn classify(&self, req_type: i32) -> (r: Option<RoomAdminRequest>)
        ensures
            r == room_admin_request_of(req_type),
            req_type == 11 ==> r == Some(RoomAdminRequest::CloseRoom),
            req_type == 12 ==> r == Some(RoomAdminRequest::KickUser),
            req_type == 9 ==> r == Some(RoomAdminRequest::MuteAll),
            !(req_type == 9 || req_type == 11 || req_type == 12) ==> r is None,
    {
        match WsMsgTypeEnum::from(req_type) {
            Some(WsMsgTypeEnum::CloseRoom) => Some(RoomAdminRequest::CloseRoom),
            Some(WsMsgTypeEnum::KickUser) => Some(RoomAdminRequest::KickUser),
            Some(WsMsgTypeEnum::MediaMuteAll) => Some(RoomAdminRequest::MuteAll),
            _ => None,
        }
    }

    /// Whether the processor takes requests of type code `req_type`.
    pub fn supports(&self, req_type: i32) -> (r: bool)
        ensures
            r == room_admin_request_of(req_type) is Some,
    {
        WsMsgTypeEnum::CloseRoom.eq(req_type) || WsMsgTypeEnum::KickUser.eq(req_type)
            || WsMsgTypeEnum::MediaMuteAll.eq(req_type)
    }
}

impl Default for RoomAdminProcessor {
    fn default() -> (r: Self)
        ensures
            r == RoomAdminProcessor,
    {
        RoomAdminProcessor::new()
    }
}

/// What the video call processor handles.
pub enum VideoCallRequest {
    /// A call request.
    CallRequest,
    /// The answer to a call.
    CallResponse,
}

/// The video call processor's request for a type name, if it handles it.
pub open spec fn video_call_request_of(t: Seq<char>) -> Option<VideoCallRequest> {
    if t == "video_call_request"@ || t == "VIDEO_CALL_REQUEST"@ {
        Some(VideoCallRequest::CallRequest)
    } else if t == "video_call_response"@ || t == "VIDEO_CALL_RESPONSE"@ {
        Some(VideoCallRequest::CallResponse)
    } else {
        None
    }
}

/// Each video call name goes to the handler of its own meaning, in lower and
/// upper case alike: the two request names to the call request handler, the
/// two response names to the answer handler.
pub proof fn lemma_video_call_names(t: Seq<char>)
    ensures
        t == "video_call_request"@ ==> video_call_request_of(t) == Some(VideoCallRequest::CallRequest),
        t == "VIDEO_CALL_REQUEST"@ ==> video_call_request_of(t) == Some(VideoCallRequest::CallRequest),
        t == "video_call_response"@ ==> video_call_request_of(t) == Some(VideoCallRequest::CallResponse),
        t == "VIDEO_CALL_RESPONSE"@ ==> video_call_request_of(t) == Some(VideoCallRequest::CallResponse),
{
    reveal_strlit("video_call_request");
    reveal_strlit("VIDEO_CALL_REQUEST");
    reveal_strlit("video_call_response");
    reveal_strlit("VIDEO_CALL_RESPONSE");
    assert("video_call_response"@ != "video_call_request"@) by {
        assert("video_call_response"@[13] != "video_call_request"@[13]);
    }
    assert("video_call_response"@ != "VIDEO_CALL_REQUEST"@) by {
        assert("video_call_response"@[0] != "VIDEO_CALL_REQUEST"@[0]);
    }
    assert("VIDEO_CALL_RESPONSE"@ != "video_call_request"@) by {
        assert("VIDEO_CALL_RESPONSE"@[0] != "video_call_request"@[0]);
    }
    assert("VIDEO_CALL_RESPONSE"@ != "VIDEO_CALL_REQUEST"@) by {
        assert("VIDEO_CALL_RESPONSE"@[13] != "VIDEO_CALL_REQUEST"@[13]);
    }
}

/// Video calls: requests, answers, timeouts.
pub struct VideoCallProcessor;

impl VideoCallProcessor {
    /// A video call processor.
    pub fn new() -> (r: Self)
        ensures
            r == VideoCallProcessor,
    {
        VideoCallProcessor
    }

    /// Which handler takes a request of type `req_type`, if any.
    pub fn classify(&self, req_type: &str) -> (r: Option<VideoCallRequest>)
        ensures
            r == video_call_request_of(req_type@),
            req_type@ == "video_call_request"@ ==> r == Some(VideoCallRequest::CallRequest),
            req_type@ == "VIDEO_CALL_REQUEST"@ ==> r == Some(VideoCallRequest::CallRequest),
            req_type@ == "video_call_response"@ ==> r == Some(VideoCallRequest::CallResponse),
            req_type@ == "VIDEO_CALL_RESPONSE"@ ==> r == Some(VideoCallRequest::CallResponse),
    {
        proof {
            lemma_video_call_names(req_type@);
        }
        if str_equal(req_type, "video_call_request") || str_equal(req_type, "VIDEO_CALL_REQUEST") {
            Some(VideoCallRequest::CallRequest)
        } else if str_equal(req_type, "video_call_response") || str_equal(req_type, "VIDEO_CALL_RESPONSE") {
            Some(VideoCallRequest::CallResponse)
        } else {
            None
        }
    }

    /// Whether the processor takes requests of type `req_type`.
    pub fn supports(&self, req_type: &str) -> (r: bool)
        ensures
            r == video_call_request_of(req_type@) is Some,
    {
        self.classify(req_type).is_some()
    }
}

impl Default for VideoCallProcessor {
    fn default() -> (r: Self)
        ensures
            r == VideoCallProcessor,
    {
        VideoCallProcessor::new()
    }
}

/// The topics the push router listens to.
pub fn push_router_topics() -> (r: Vec<String>)
    ensures
        r.deep_view() == seq!["websocket_push"@],
{
    let mut v: Vec<String> = Vec::new();
    v.push(String::from_str("websocket_push"));
    assert(v.deep_view() =~= seq!["websocket_push"@]);
    v
}

/// The consumer group of the push router.
pub fn push_router_group_id() -> (r: String)
    ensures
        r@ == "websocket_push_group"@,
{
    String::from_str("websocket_push_group")
}

} // verus!
