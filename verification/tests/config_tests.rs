use ms_websocket::config::{
    default_heartbeat_timeout_secs, default_node_id, default_websocket_config,
    default_write_channel_cap, WebSocketServiceConfig,
};

fn s(v: &str) -> Option<String> {
    Some(v.to_string())
}

#[test]
fn defaults() {
    assert_eq!(default_node_id(), "1");
    assert_eq!(default_heartbeat_timeout_secs(), 30);
    assert_eq!(default_write_channel_cap(), 1024);
    let c = default_websocket_config();
    assert_eq!(c.node_id, "1");
    assert!(!c.allow_multi_session_per_device);
    assert_eq!(c.heartbeat_timeout_secs, 30);
    assert_eq!(c.write_channel_cap, 1024);
    let d = WebSocketServiceConfig::default();
    assert_eq!(d.node_id, "1");
}

#[test]
fn no_environment_gives_defaults() {
    let c = WebSocketServiceConfig::from_env_values(None, None, None, None);
    assert_eq!(c.node_id, "1");
    assert!(!c.allow_multi_session_per_device);
    assert_eq!(c.heartbeat_timeout_secs, 30);
    assert_eq!(c.write_channel_cap, 1024);
}

#[test]
fn environment_values_override() {
    let c = WebSocketServiceConfig::from_env_values(s("node-9"), s("TRUE"), s("45"), s("16"));
    assert_eq!(c.node_id, "node-9");
    assert!(c.allow_multi_session_per_device);
    assert_eq!(c.heartbeat_timeout_secs, 45);
    assert_eq!(c.write_channel_cap, 16);
}

#[test]
fn bad_environment_values_keep_defaults() {
    let c = WebSocketServiceConfig::from_env_values(s(""), s("yes"), s("-1"), s("lots"));
    assert_eq!(c.node_id, "");
    assert!(!c.allow_multi_session_per_device);
    assert_eq!(c.heartbeat_timeout_secs, 30);
    assert_eq!(c.write_channel_cap, 1024);
    let t = WebSocketServiceConfig::from_env_values(None, s("tRuE"), None, None);
    assert!(t.allow_multi_session_per_device);
}
