use ms_websocket::session::{heartbeat_expired, Session, HEARTBEAT_TIMEOUT};
use ms_websocket::session_manager::SessionManager;

fn session(id: &str, uid: u64, client: &str, now: u64) -> Session {
    Session::new(id.to_string(), uid, client.to_string(), now)
}

fn ids(sessions: &[Session]) -> Vec<String> {
    let mut v: Vec<String> = sessions.iter().map(|s| s.id.clone()).collect();
    v.sort();
    v
}

#[test]
fn new_manager_is_empty_and_accepting() {
    let m = SessionManager::new("node-1".to_string());
    assert_eq!(m.get_session_count(), 0);
    assert!(m.is_accepting_new_connections());
    assert_eq!(m.node_id(), "node-1");
    assert!(m.get_client_ids().is_empty());
    assert!(m.get_user_sessions(1).is_empty());
}

#[test]
fn first_session_of_a_device_registers_the_device() {
    let mut m = SessionManager::new("1".to_string());
    assert!(m.register_session(session("s1", 10, "phone", 100)));
    assert!(!m.register_session(session("s2", 10, "phone", 100)));
    assert!(m.register_session(session("s3", 10, "laptop", 100)));
    assert!(m.register_session(session("s4", 11, "phone", 100)));
    assert_eq!(m.get_session_count(), 4);
}

#[test]
fn user_sessions_cover_all_devices() {
    let mut m = SessionManager::new("1".to_string());
    m.register_session(session("s1", 10, "phone", 100));
    m.register_session(session("s2", 10, "phone", 100));
    m.register_session(session("s3", 10, "laptop", 100));
    m.register_session(session("s4", 11, "phone", 100));
    assert_eq!(ids(&m.get_user_sessions(10)), vec!["s1", "s2", "s3"]);
    assert_eq!(ids(&m.get_user_sessions(11)), vec!["s4"]);
    assert!(m.get_user_sessions(12).is_empty());
    let mut clients = m.get_client_ids();
    clients.sort();
    assert_eq!(clients, vec!["laptop", "phone", "phone"]);
    assert_eq!(m.device_session_ids(10, &"phone".to_string()), vec!["s1", "s2"]);
    assert!(m.device_session_ids(10, &"tablet".to_string()).is_empty());
}

#[test]
fn registering_the_same_session_twice_keeps_one_entry() {
    let mut m = SessionManager::new("1".to_string());
    assert!(m.register_session(session("s1", 10, "phone", 100)));
    assert!(!m.register_session(session("s1", 10, "phone", 200)));
    assert_eq!(m.get_session_count(), 1);
    assert_eq!(m.device_session_ids(10, &"phone".to_string()), vec!["s1"]);
    assert_eq!(m.get_session(&"s1".to_string()).unwrap().last_seen(), 200);
}

#[test]
fn cleanup_reports_remaining_sessions() {
    let mut m = SessionManager::new("1".to_string());
    m.register_session(session("s1", 10, "phone", 100));
    m.register_session(session("s2", 10, "phone", 100));
    m.register_session(session("s3", 10, "laptop", 100));

    let c = m.cleanup_session(&"s2".to_string()).unwrap();
    assert_eq!(c.uid, 10);
    assert_eq!(c.client_id, "phone");
    assert_eq!(c.remaining_sessions, 2);
    assert!(!c.unregister_device);

    let c = m.cleanup_session(&"s1".to_string()).unwrap();
    assert_eq!(c.remaining_sessions, 1);
    assert!(c.unregister_device);
    let mut clients = m.get_client_ids();
    clients.sort();
    assert_eq!(clients, vec!["laptop"]);

    let c = m.cleanup_session(&"s3".to_string()).unwrap();
    assert_eq!(c.remaining_sessions, 0);
    assert!(c.unregister_device);
    assert_eq!(m.get_session_count(), 0);
    assert!(m.get_client_ids().is_empty());
}

#[test]
fn cleanup_of_an_unknown_session_changes_nothing() {
    let mut m = SessionManager::new("1".to_string());
    m.register_session(session("s1", 10, "phone", 100));
    assert!(m.cleanup_session(&"nope".to_string()).is_none());
    assert_eq!(m.get_session_count(), 1);
    assert!(m.cleanup_session(&"s1".to_string()).is_some());
    assert!(m.cleanup_session(&"s1".to_string()).is_none());
}

#[test]
fn register_then_cleanup_restores_the_state() {
    let mut m = SessionManager::new("1".to_string());
    m.register_session(session("a", 1, "d1", 5));
    m.register_session(session("b", 1, "d2", 5));
    let before_clients = {
        let mut c = m.get_client_ids();
        c.sort();
        c
    };
    assert!(m.register_session(session("fresh", 1, "d3", 5)));
    let c = m.cleanup_session(&"fresh".to_string()).unwrap();
    assert_eq!(c.remaining_sessions, 2);
    assert!(c.unregister_device);
    let mut after_clients = m.get_client_ids();
    after_clients.sort();
    assert_eq!(after_clients, before_clients);
    assert_eq!(ids(&m.get_user_sessions(1)), vec!["a", "b"]);
    assert_eq!(m.get_session_count(), 2);
}

#[test]
fn lone_session_cleanup_unregisters() {
    let mut m = SessionManager::new("1".to_string());
    m.register_session(session("other", 2, "x", 0));
    assert!(m.register_session(session("only", 1, "d", 0)));
    let c = m.cleanup_session(&"only".to_string()).unwrap();
    assert!(c.unregister_device);
    assert_eq!(m.get_session_count(), 1);
}

#[test]
fn touch_and_expiry() {
    let mut m = SessionManager::new("1".to_string());
    m.register_session(session("old", 1, "d", 100));
    m.register_session(session("new", 2, "d", 125));
    let mut expired = m.expired_sessions(131);
    expired.sort();
    assert_eq!(expired, vec!["old"]);
    assert!(m.expired_sessions(130).is_empty());
    assert!(m.touch_session(&"old".to_string(), 131));
    assert!(m.expired_sessions(150).is_empty());
    assert!(!m.touch_session(&"ghost".to_string(), 131));
    let mut e = m.expired_sessions(1000);
    e.sort();
    assert_eq!(e, vec!["new", "old"]);
}

#[test]
fn accepting_flag() {
    let mut m = SessionManager::new("1".to_string());
    m.set_accepting_new_connections(false);
    assert!(!m.is_accepting_new_connections());
    m.set_accepting_new_connections(true);
    assert!(m.is_accepting_new_connections());
}

#[test]
fn session_touch_and_heartbeat() {
    let mut s = session("s", 1, "c", 10);
    assert_eq!(s.last_seen(), 10);
    s.touch(50);
    assert_eq!(s.last_seen(), 50);
    assert_eq!(HEARTBEAT_TIMEOUT, 30);
    assert!(!heartbeat_expired(40, 10));
    assert!(heartbeat_expired(41, 10));
    assert!(!heartbeat_expired(5, 10));
}
