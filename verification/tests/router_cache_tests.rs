use ms_websocket::local_router_cache::{LocalRouterCache, DEFAULT_ROUTER_CACHE_TTL_SECS};
use ms_websocket::push_routing::{find_node_device_user_cached, NodeRoute};
use ms_websocket::session::Session;
use ms_websocket::session_manager::SessionManager;

fn s(v: &str) -> String {
    v.to_string()
}

fn summary(routes: &[NodeRoute]) -> Vec<(String, String, u64)> {
    let mut v: Vec<(String, String, u64)> = routes
        .iter()
        .flat_map(|r| r.devices.iter().map(move |d| (r.node_id.clone(), d.client_id.clone(), d.uid)))
        .collect();
    v.sort();
    v
}

#[test]
fn entries_stay_fresh_for_the_ttl() {
    let mut c = LocalRouterCache::default();
    assert_eq!(c.ttl_secs(), 30);
    assert_eq!(DEFAULT_ROUTER_CACHE_TTL_SECS, 30);
    c.put(s("7:phone"), s("node-a"), 100);
    assert_eq!(c.get("7:phone", 100), Some(s("node-a")));
    assert_eq!(c.get("7:phone", 129), Some(s("node-a")));
    assert_eq!(c.get("7:phone", 130), None);
    assert_eq!(c.get("8:phone", 100), None);
    c.remove("7:phone");
    assert_eq!(c.get("7:phone", 100), None);
}

#[test]
fn expiry_saturates() {
    let mut c = LocalRouterCache::new(10);
    c.put(s("1:a"), s("n"), u64::MAX - 3);
    assert_eq!(c.get("1:a", u64::MAX - 1), Some(s("n")));
    assert_eq!(c.get("1:a", u64::MAX), None);
}

#[test]
fn purge_drops_stale_entries() {
    let mut c = LocalRouterCache::new(30);
    c.put(s("1:a"), s("n1"), 0);
    c.put(s("2:b"), s("n2"), 20);
    c.purge_expired(35);
    assert_eq!(c.get("1:a", 0), None);
    assert_eq!(c.get("2:b", 35), Some(s("n2")));
}

#[test]
fn lookup_answers_only_while_a_copy_of_the_table_is_fresh() {
    let mut c = LocalRouterCache::new(30);
    c.put(s("1:phone"), s("n1"), 100);
    // entries written one by one are no copy of the whole table
    assert!(c.lookup(110).is_none());
    c.refresh(&vec![(s("1:phone"), s("n1")), (s("2:laptop"), s("n2"))], 100);
    let mut items = c.lookup(110).unwrap();
    items.sort();
    assert_eq!(items, vec![(s("1:phone"), s("n1")), (s("2:laptop"), s("n2"))]);
    assert!(c.lookup(130).is_none());
}

#[test]
fn refresh_replaces_the_copy() {
    let mut c = LocalRouterCache::new(30);
    c.put(s("9:old"), s("n9"), 50);
    c.refresh(&vec![(s("1:phone"), s("n1")), (s("2:pad"), s("n2"))], 50);
    assert_eq!(c.get("9:old", 60), None);
    assert_eq!(c.get("1:phone", 60), Some(s("n1")));
    assert_eq!(c.get("2:pad", 79), Some(s("n2")));
    assert_eq!(c.get("2:pad", 80), None);
}

#[test]
fn registering_and_clearing_a_device_updates_the_local_copy() {
    let mut m = SessionManager::new(s("node-1"));
    assert!(m.register_session(Session::new(s("s1"), 10, s("phone"), 100)));
    assert_eq!(m.router_cache().get("10:phone", 110), Some(s("node-1")));
    assert!(!m.register_session(Session::new(s("s2"), 10, s("phone"), 200)));
    // a second session of the device leaves the entry as it was
    assert_eq!(m.router_cache().get("10:phone", 140), None);
    m.register_session(Session::new(s("s3"), 10, s("laptop"), 100));
    assert_eq!(m.router_cache().get("10:laptop", 100), Some(s("node-1")));
    // the laptop's only session closes: its route goes, the phone's stays
    let c = m.cleanup_session(&s("s3")).unwrap();
    assert!(c.unregister_device);
    assert_eq!(c.remaining_sessions, 2);
    assert_eq!(m.router_cache().get("10:laptop", 100), None);
    assert_eq!(m.router_cache().get("10:phone", 110), Some(s("node-1")));
}

#[test]
fn push_routes_come_from_a_fresh_copy_or_from_the_table() {
    let mut m = SessionManager::new(s("node-1"));
    m.register_session(Session::new(s("s1"), 7, s("d1"), 0));
    let active = vec![s("node-1"), s("node-2")];
    // only a local entry for user 7: the table is needed
    assert!(find_node_device_user_cached(&mut m, &vec![7], &active, 5, None).is_none());
    let table = vec![(s("7:d1"), s("node-1")), (s("7:d2"), s("node-2"))];
    let routes = find_node_device_user_cached(&mut m, &vec![7], &active, 5, Some(&table)).unwrap();
    let both = vec![(s("node-1"), s("d1"), 7), (s("node-2"), s("d2"), 7)];
    assert_eq!(summary(&routes), both);
    // within 30 seconds the copy answers, and reaches both devices
    let routes = find_node_device_user_cached(&mut m, &vec![7], &active, 20, None).unwrap();
    assert_eq!(summary(&routes), both);
    // later the table has to be read again
    assert!(find_node_device_user_cached(&mut m, &vec![7], &active, 35, None).is_none());
    assert_eq!(m.get_session_count(), 1);
}
