//! The request types that clients send over the WebSocket.
use vstd::prelude::*;

verus! {

/// WebSocket request type.
#[derive(Debug, Clone, Copy, PartialEq, Eq, Hash, Structural)]
pub enum WsMsgTypeEnum {
    /// Request a login QR code.
    Login,
    /// Heartbeat.
    Heartbeat,
    /// Login authorisation.
    Authorize,
    /// Heartbeat inside a video call.
    VideoHeartbeat,
    /// Video call request.
    VideoCallRequest,
    /// Video call response.
    VideoCallResponse,
    /// Mute audio.
    MediaMuteAudio,
    /// Mute video.
    MediaMuteVideo,
    /// Mute every user.
    MediaMuteAll,
    /// Screen sharing.
    ScreenSharing,
    /// Close the room.
    CloseRoom,
    /// Kick a user out.
    KickUser,
    /// Call quality report.
    NetworkReport,
    /// WebRTC signalling message.
    WebrtcSignal,
    /// Message receipt acknowledgement.
    Ack,
    /// Message read.
    Read,
    /// Timeout.
    Timeout,
    /// A user joins the room.
    JoinVideo,
    /// A user leaves the room.
    LeaveVideo,
}

impl WsMsgTypeEnum {
    /// The wire code of each request type.
    pub open spec fn code(self) -> i32 {
        match self {
            WsMsgTypeEnum::Login => 1,
            WsMsgTypeEnum::Heartbeat => 2,
            WsMsgTypeEnum::Authorize => 3,
            WsMsgTypeEnum::VideoHeartbeat => 4,
            WsMsgTypeEnum::VideoCallRequest => 5,
            WsMsgTypeEnum::VideoCallResponse => 6,
            WsMsgTypeEnum::MediaMuteAudio => 7,
            WsMsgTypeEnum::MediaMuteVideo => 8,
            WsMsgTypeEnum::MediaMuteAll => 9,
            WsMsgTypeEnum::ScreenSharing => 10,
            WsMsgTypeEnum::CloseRoom => 11,
            WsMsgTypeEnum::KickUser => 12,
            WsMsgTypeEnum::NetworkReport => 13,
            WsMsgTypeEnum::WebrtcSignal => 14,
            WsMsgTypeEnum::Ack => 15,
            WsMsgTypeEnum::Read => 16,
            WsMsgTypeEnum::Timeout => 17,
            WsMsgTypeEnum::JoinVideo => 18,
            WsMsgTypeEnum::LeaveVideo => 19,
        }
    }

    /// The human-readable description of each request type.
    pub open spec fn description(self) -> Seq<char> {
        match self {
            WsMsgTypeEnum::Login => "请求登录二维码"@,
            WsMsgTypeEnum::Heartbeat => "心跳包"@,
            WsMsgTypeEnum::Authorize => "登录认证"@,
            WsMsgTypeEnum::VideoHeartbeat => "视频心跳"@,
            WsMsgTypeEnum::VideoCallRequest => "视频通话请求"@,
            WsMsgTypeEnum::VideoCallResponse => "视频通话响应"@,
            WsMsgTypeEnum::MediaMuteAudio => "媒体静音音频"@,
            WsMsgTypeEnum::MediaMuteVideo => "静音视频"@,
            WsMsgTypeEnum::MediaMuteAll => "静音全部用户"@,
            WsMsgTypeEnum::ScreenSharing => "屏幕共享"@,
            WsMsgTypeEnum::CloseRoom => "关闭房间"@,
            WsMsgTypeEnum::KickUser => "踢出用户"@,
            WsMsgTypeEnum::NetworkReport => "通话质量监控"@,
            WsMsgTypeEnum::WebrtcSignal => "信令消息"@,
            WsMsgTypeEnum::Ack => "消息确认接收ack"@,
            WsMsgTypeEnum::Read => "消息已读"@,
            WsMsgTypeEnum::Timeout => "超时"@,
            WsMsgTypeEnum::JoinVideo => "用户加入房间"@,
            WsMsgTypeEnum::LeaveVideo => "用户离开房间"@,
        }
    }

    /// The request type of a wire code, if any.
    pub open spec fn from_code(value: i32) -> Option<Self> {
        if value == 1 { Some(WsMsgTypeEnum::Login) }
        else if value == 2 { Some(WsMsgTypeEnum::Heartbeat) }
        else if value == 3 { Some(WsMsgTypeEnum::Authorize) }
        else if value == 4 { Some(WsMsgTypeEnum::VideoHeartbeat) }
        else if value == 5 { Some(WsMsgTypeEnum::VideoCallRequest) }
        else if value == 6 { Some(WsMsgTypeEnum::VideoCallResponse) }
        else if value == 7 { Some(WsMsgTypeEnum::MediaMuteAudio) }
        else if value == 8 { Some(WsMsgTypeEnum::MediaMuteVideo) }
        else if value == 9 { Some(WsMsgTypeEnum::MediaMuteAll) }
        else if value == 10 { Some(WsMsgTypeEnum::ScreenSharing) }
        else if value == 11 { Some(WsMsgTypeEnum::CloseRoom) }
        else if value == 12 { Some(WsMsgTypeEnum::KickUser) }
        else if value == 13 { Some(WsMsgTypeEnum::NetworkReport) }
        else if value == 14 { Some(WsMsgTypeEnum::WebrtcSignal) }
        else if value == 15 { Some(WsMsgTypeEnum::Ack) }
        else if value == 16 { Some(WsMsgTypeEnum::Read) }
        else if value == 17 { Some(WsMsgTypeEnum::Timeout) }
        else if value == 18 { Some(WsMsgTypeEnum::JoinVideo) }
        else if value == 19 { Some(WsMsgTypeEnum::LeaveVideo) }
        else { None }
    }

    /// Converts a wire code into a request type; codes outside 1..=19 have none.
    pub fn from(value: i32) -> (r: Option<Self>)
        ensures
            r == Self::from_code(value),
            r is Some <==> 1 <= value <= 19,
            r matches Some(t) ==> t.code() == value,
    {
        match value {
            1 => Some(WsMsgTypeEnum::Login),
            2 => Some(WsMsgTypeEnum::Heartbeat),
            3 => Some(WsMsgTypeEnum::Authorize),
            4 => Some(WsMsgTypeEnum::VideoHeartbeat),
            5 => Some(WsMsgTypeEnum::VideoCallRequest),
            6 => Some(WsMsgTypeEnum::VideoCallResponse),
            7 => Some(WsMsgTypeEnum::MediaMuteAudio),
            8 => Some(WsMsgTypeEnum::MediaMuteVideo),
            9 => Some(WsMsgTypeEnum::MediaMuteAll),
            10 => Some(WsMsgTypeEnum::ScreenSharing),
            11 => Some(WsMsgTypeEnum::CloseRoom),
            12 => Some(WsMsgTypeEnum::KickUser),
            13 => Some(WsMsgTypeEnum::NetworkReport),
            14 => Some(WsMsgTypeEnum::WebrtcSignal),
            15 => Some(WsMsgTypeEnum::Ack),
            16 => Some(WsMsgTypeEnum::Read),
            17 => Some(WsMsgTypeEnum::Timeout),
            18 => Some(WsMsgTypeEnum::JoinVideo),
            19 => Some(WsMsgTypeEnum::LeaveVideo),
            _ => None,
        }
    }

    /// The wire code of this request type.
    pub fn as_i32(&self) -> (r: i32)
        ensures
            r == self.code(),
    {
        match self {
            WsMsgTypeEnum::Login => 1,
            WsMsgTypeEnum::Heartbeat => 2,
            WsMsgTypeEnum::Authorize => 3,
            WsMsgTypeEnum::VideoHeartbeat => 4,
            WsMsgTypeEnum::VideoCallRequest => 5,
            WsMsgTypeEnum::VideoCallResponse => 6,
            WsMsgTypeEnum::MediaMuteAudio => 7,
            WsMsgTypeEnum::MediaMuteVideo => 8,
            WsMsgTypeEnum::MediaMuteAll => 9,
            WsMsgTypeEnum::ScreenSharing => 10,
            WsMsgTypeEnum::CloseRoom => 11,
            WsMsgTypeEnum::KickUser => 12,
            WsMsgTypeEnum::NetworkReport => 13,
            WsMsgTypeEnum::WebrtcSignal => 14,
            WsMsgTypeEnum::Ack => 15,
            WsMsgTypeEnum::Read => 16,
            WsMsgTypeEnum::Timeout => 17,
            WsMsgTypeEnum::JoinVideo => 18,
            WsMsgTypeEnum::LeaveVideo => 19,
        }
    }

    /// The description of this request type.
    pub fn desc(&self) -> (r: &'static str)
        ensures
            r@ == self.description(),
    {
        match self {
            WsMsgTypeEnum::Login => "请求登录二维码",
            WsMsgTypeEnum::Heartbeat => "心跳包",
            WsMsgTypeEnum::Authorize => "登录认证",
            WsMsgTypeEnum::VideoHeartbeat => "视频心跳",
            WsMsgTypeEnum::VideoCallRequest => "视频通话请求",
            WsMsgTypeEnum::VideoCallResponse => "视频通话响应",
            WsMsgTypeEnum::MediaMuteAudio => "媒体静音音频",
            WsMsgTypeEnum::MediaMuteVideo => "静音视频",
            WsMsgTypeEnum::MediaMuteAll => "静音全部用户",
            WsMsgTypeEnum::ScreenSharing => "屏幕共享",
            WsMsgTypeEnum::CloseRoom => "关闭房间",
            WsMsgTypeEnum::KickUser => "踢出用户",
            WsMsgTypeEnum::NetworkReport => "通话质量监控",
            WsMsgTypeEnum::WebrtcSignal => "信令消息",
            WsMsgTypeEnum::Ack => "消息确认接收ack",
            WsMsgTypeEnum::Read => "消息已读",
            WsMsgTypeEnum::Timeout => "超时",
            WsMsgTypeEnum::JoinVideo => "用户加入房间",
            WsMsgTypeEnum::LeaveVideo => "用户离开房间",
        }
    }

    /// Whether this request type has the given wire code.
    pub fn eq(&self, type_val: i32) -> (r: bool)
        ensures
            r == (self.code() == type_val),
    {
        self.as_i32() == type_val
    }
}

/// Decoding the wire code of a request type gives back the type, and each
/// type has its own code.
pub proof fn lemma_code_round_trip(t: WsMsgTypeEnum)
    ensures
        1 <= t.code() <= 19,
        WsMsgTypeEnum::from_code(t.code()) == Some(t),
        forall|u: WsMsgTypeEnum| #[trigger] u.code() == t.code() ==> u == t,
{
}

/// Encoding the request type that a wire code decodes to gives back the code.
pub proof fn lemma_from_code_round_trip(value: i32)
    ensures
        WsMsgTypeEnum::from_code(value) matches Some(t) ==> t.code() == value,
{
}

} // verus!
