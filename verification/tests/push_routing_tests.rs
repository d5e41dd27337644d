use ms_websocket::push_routing::{
    count_delivered, find_node_device_user, get_all_active_nodes, local_push_parallelism,
    node_push_topic, parse_route_field, plan_push, route_field, should_push, DeviceRoute,
    NodeRoute, PushAction, ServiceInstance,
};

fn entry(field: &str, node: &str) -> (String, String) {
    (field.to_string(), node.to_string())
}

fn devices(r: &NodeRoute) -> Vec<(String, u64)> {
    let mut v: Vec<(String, u64)> = r.devices.iter().map(|d| (d.client_id.clone(), d.uid)).collect();
    v.sort();
    v
}

#[test]
fn route_field_format() {
    assert_eq!(route_field(42, "dev-a"), "42:dev-a");
    assert_eq!(route_field(0, ""), "0:");
}

#[test]
fn route_field_reads_back() {
    assert_eq!(parse_route_field(&route_field(42, "dev-a")), Some((42, "dev-a".to_string())));
    assert_eq!(parse_route_field("7:"), Some((7, String::new())));
    assert_eq!(parse_route_field("nouid"), None);
    assert_eq!(parse_route_field("x:dev"), None);
    assert_eq!(parse_route_field("1:2:3"), None);
    assert_eq!(parse_route_field(":dev"), None);
    assert_eq!(parse_route_field("+5:dev"), Some((5, "dev".to_string())));
}

#[test]
fn grouping_keeps_active_nodes_and_target_users() {
    let items = vec![
        entry("1:phone", "n1"),
        entry("1:laptop", "n2"),
        entry("2:phone", "n1"),
        entry("3:tv", "n1"),
        entry("bad", "n1"),
        entry("1:watch", "down"),
    ];
    let active = vec!["n1".to_string(), "n2".to_string()];
    let routes = find_node_device_user(&items, &active, &vec![1, 2]);
    assert_eq!(routes.len(), 2);
    let n1 = routes.iter().find(|r| r.node_id == "n1").unwrap();
    let n2 = routes.iter().find(|r| r.node_id == "n2").unwrap();
    assert_eq!(devices(n1), vec![("phone".to_string(), 2)]);
    assert_eq!(devices(n2), vec![("laptop".to_string(), 1)]);
}

#[test]
fn grouping_with_no_target_is_empty() {
    let items = vec![entry("1:phone", "n1")];
    let routes = find_node_device_user(&items, &vec!["n1".to_string()], &vec![]);
    assert!(routes.is_empty());
}

#[test]
fn grouping_later_entry_wins_for_a_device() {
    let items = vec![entry("1:phone", "n1"), entry("2:phone", "n1"), entry("1:tab", "n1")];
    let routes = find_node_device_user(&items, &vec!["n1".to_string()], &vec![1, 2]);
    assert_eq!(routes.len(), 1);
    assert_eq!(devices(&routes[0]), vec![("phone".to_string(), 2), ("tab".to_string(), 1)]);
}

#[test]
fn active_nodes_are_healthy_and_distinct() {
    let instances = Some(vec![
        ServiceInstance { healthy: true, node_id: Some("a".to_string()) },
        ServiceInstance { healthy: false, node_id: Some("b".to_string()) },
        ServiceInstance { healthy: true, node_id: None },
        ServiceInstance { healthy: true, node_id: Some("a".to_string()) },
        ServiceInstance { healthy: true, node_id: Some("c".to_string()) },
    ]);
    let mut nodes = get_all_active_nodes(&instances);
    nodes.sort();
    assert_eq!(nodes, vec!["a", "c"]);
    assert!(get_all_active_nodes(&None).is_empty());
}

#[test]
fn plan_splits_local_and_remote() {
    let routes = vec![
        NodeRoute {
            node_id: "me".to_string(),
            devices: vec![
                DeviceRoute { client_id: "p".to_string(), uid: 1 },
                DeviceRoute { client_id: "q".to_string(), uid: 2 },
            ],
        },
        NodeRoute {
            node_id: "other".to_string(),
            devices: vec![DeviceRoute { client_id: "r".to_string(), uid: 3 }],
        },
    ];
    let plan = plan_push(routes, "me", 99);
    assert_eq!(plan.len(), 2);
    match &plan[0] {
        PushAction::Local { uids } => assert_eq!(uids, &vec![1, 2]),
        _ => panic!("expected a local push"),
    }
    match &plan[1] {
        PushAction::Remote { node_id, topic, message_key, device_user_map, hash_id, uid } => {
            assert_eq!(node_id, "other");
            assert_eq!(topic, "push_topic_other");
            assert_eq!(message_key, "99");
            assert_eq!(device_user_map.len(), 1);
            assert_eq!(device_user_map[0].client_id, "r");
            assert_eq!(device_user_map[0].uid, 3);
            assert_eq!(*hash_id, 99);
            assert_eq!(*uid, 99);
        }
        _ => panic!("expected a remote push"),
    }
}

#[test]
fn small_helpers() {
    assert_eq!(node_push_topic("7"), "push_topic_7");
    assert!(should_push(&vec![1]));
    assert!(!should_push(&vec![]));
    assert_eq!(local_push_parallelism(5), 5);
    assert_eq!(local_push_parallelism(32), 32);
    assert_eq!(local_push_parallelism(100), 32);
    assert_eq!(count_delivered(&vec![0, 2, 1, 0]), 2);
    assert_eq!(count_delivered(&vec![]), 0);
}
