//! The WebSocket service settings, their defaults, and how they are read from
//! the `APP__WEBSOCKET__*` environment values.
use vstd::prelude::*;
use vstd::string::*;
use crate::text::{eq_ignore_ascii_case, parse_u64, parse_u64_spec, parse_usize, parse_usize_spec, str_eq_ignore_ascii_case};

verus! {

/// WebSocket service settings.
pub struct WebSocketServiceConfig {
    /// The id of this node.
    pub node_id: String,
    /// Whether one device may hold several sessions.
    pub allow_multi_session_per_device: bool,
    /// Heartbeat timeout in seconds.
    pub heartbeat_timeout_secs: u64,
    /// Capacity of a session's write channel.
    pub write_channel_cap: usize,
}

/// The view of the settings.
pub struct WebSocketServiceConfigView {
    pub node_id: Seq<char>,
    pub allow_multi_session_per_device: bool,
    pub heartbeat_timeout_secs: u64,
    pub write_channel_cap: usize,
}

impl View for WebSocketServiceConfig {
    type V = WebSocketServiceConfigView;

    open spec fn view(&self) -> WebSocketServiceConfigView {
        WebSocketServiceConfigView {
            node_id: self.node_id@,
            allow_multi_session_per_device: self.allow_multi_session_per_device,
            heartbeat_timeout_secs: self.heartbeat_timeout_secs,
            write_channel_cap: self.write_channel_cap,
        }
    }
}

/// The default heartbeat timeout, in seconds.
pub const DEFAULT_HEARTBEAT_TIMEOUT_SECS: u64 = 30;

/// The default capacity of a session's write channel.
pub const DEFAULT_WRITE_CHANNEL_CAP: usize = 1024;

/// The default settings: node `"1"`, one session per device, a 30 second
/// heartbeat timeout and write channels of 1024 messages.
pub open spec fn default_config_view() -> WebSocketServiceConfigView {
    WebSocketServiceConfigView {
        node_id: "1"@,
        allow_multi_session_per_device: false,
        heartbeat_timeout_secs: DEFAULT_HEARTBEAT_TIMEOUT_SECS,
        write_channel_cap: DEFAULT_WRITE_CHANNEL_CAP,
    }
}

/// The settings read from the environment values: each value that is set
/// replaces its default, the flag is set by `true` in any case, and a number
/// that does not parse keeps its default.
pub open spec fn config_from_env_spec(
    node_id: Option<Seq<char>>,
    allow_multi_session_per_device: Option<Seq<char>>,
    heartbeat_timeout_secs: Option<Seq<char>>,
    write_channel_cap: Option<Seq<char>>,
) -> WebSocketServiceConfigView {
    WebSocketServiceConfigView {
        node_id: match node_id {
            Some(n) => n,
            None => "1"@,
        },
        allow_multi_session_per_device: match allow_multi_session_per_device {
            Some(v) => eq_ignore_ascii_case(v, "true"@),
            None => false,
        },
        heartbeat_timeout_secs: match heartbeat_timeout_secs {
            Some(v) => match parse_u64_spec(v) {
                Some(n) => n,
                None => DEFAULT_HEARTBEAT_TIMEOUT_SECS,
            },
            None => DEFAULT_HEARTBEAT_TIMEOUT_SECS,
        },
        write_channel_cap: match write_channel_cap {
            Some(v) => match parse_usize_spec(v) {
                Some(n) => n,
                None => DEFAULT_WRITE_CHANNEL_CAP,
            },
            None => DEFAULT_WRITE_CHANNEL_CAP,
        },
    }
}

/// With no environment value set, the settings are the defaults.
pub proof fn lemma_no_env_gives_defaults()
    ensures
        config_from_env_spec(None, None, None, None) == default_config_view(),
{
}

/// The default node id, `"1"`.
pub fn default_node_id() -> (r: String)
    ensures
        r@ == "1"@,
{
    String::from_str("1")
}

/// The default heartbeat timeout, 30 seconds.
pub fn default_heartbeat_timeout_secs() -> (r: u64)
    ensures
        r == DEFAULT_HEARTBEAT_TIMEOUT_SECS,
{
    DEFAULT_HEARTBEAT_TIMEOUT_SECS
}

/// The default write channel capacity, 1024.
pub fn default_write_channel_cap() -> (r: usize)
    ensures
        r == DEFAULT_WRITE_CHANNEL_CAP,
{
    DEFAULT_WRITE_CHANNEL_CAP
}

/// The default settings.
pub fn default_websocket_config() -> (r: WebSocketServiceConfig)
    ensures
        r@ == default_config_view(),
{
    WebSocketServiceConfig::default()
}

impl Default for WebSocketServiceConfig {
    fn default() -> (r: Self)
        ensures
            r@ == default_config_view(),
    {
        WebSocketServiceConfig {
            node_id: default_node_id(),
            allow_multi_session_per_device: false,
            heartbeat_timeout_secs: default_heartbeat_timeout_secs(),
            write_channel_cap: default_write_channel_cap(),
        }
    }
}

impl WebSocketServiceConfig {
    /// The settings from the values of `APP__WEBSOCKET__NODE_ID`,
    /// `APP__WEBSOCKET__ALLOW_MULTI_SESSION_PER_DEVICE`,
    /// `APP__WEBSOCKET__HEARTBEAT_TIMEOUT_SECS` and
    /// `APP__WEBSOCKET__WRITE_CHANNEL_CAP`, where set.
    pub fn from_env_values(
        node_id: Option<String>,
        allow_multi_session_per_device: Option<String>,
        heartbeat_timeout_secs: Option<String>,
        write_channel_cap: Option<String>,
    ) -> (r: Self)
        ensures
            r@ == config_from_env_spec(
                crate::cache_keys::opt_view(node_id),
                crate::cache_keys::opt_view(allow_multi_session_per_device),
                crate::cache_keys::opt_view(heartbeat_timeout_secs),
                crate::cache_keys::opt_view(write_channel_cap),
            ),
    {
        let node_id = match node_id {
            Some(n) => n,
            None => default_node_id(),
        };
        let allow = match &allow_multi_session_per_device {
            Some(v) => str_eq_ignore_ascii_case(v.as_str(), "true"),
            None => false,
        };
        let heartbeat = match &heartbeat_timeout_secs {
            Some(v) => match parse_u64(v.as_str()) {
                Some(n) => n,
                None => default_heartbeat_timeout_secs(),
            },
            None => default_heartbeat_timeout_secs(),
        };
        let cap = match &write_channel_cap {
            Some(v) => match parse_usize(v.as_str()) {
                Some(n) => n,
                None => default_write_channel_cap(),
            },
            None => default_write_channel_cap(),
        };
        WebSocketServiceConfig {
            node_id,
            allow_multi_session_per_device: allow,
            heartbeat_timeout_secs: heartbeat,
            write_channel_cap: cap,
        }
    }
}

} // verus!
