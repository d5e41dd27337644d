use ms_websocket::cache_keys::{
    CacheValueType, CloseRoomCacheKeyBuilder, DeviceNodeMapping, NodeDevices,
    RoomAdminMetadataCacheKeyBuilder, RouterCacheKeyBuilder, UserRoomsCacheKeyBuilder,
    EXPIRE_CLOSE_ROOM, EXPIRE_ROOM_ADMIN_META, EXPIRE_VIDEO_USER_ROOMS,
};

#[test]
fn close_room_key_with_prefix() {
    let k = CloseRoomCacheKeyBuilder::builder_with_prefix(42, &Some("dev".to_string()));
    assert_eq!(k.key, "dev:chat:close_room:id:string:42");
    assert_eq!(k.expire_secs, Some(5 * 60 * 60));
    assert_eq!(EXPIRE_CLOSE_ROOM, 18000);
}

#[test]
fn close_room_key_without_prefix() {
    let k = CloseRoomCacheKeyBuilder::builder_with_prefix(-3, &None);
    assert_eq!(k.key, "chat:close_room:id:string:-3");
    let empty = CloseRoomCacheKeyBuilder::builder_with_prefix(7, &Some(String::new()));
    assert_eq!(empty.key, "chat:close_room:id:string:7");
}

#[test]
fn close_room_key_with_unset_process_prefix() {
    let k = CloseRoomCacheKeyBuilder::builder(1001);
    assert_eq!(k.key, "chat:close_room:id:string:1001");
}

#[test]
fn room_admin_metadata_key_skips_the_empty_tenant() {
    let k = RoomAdminMetadataCacheKeyBuilder::builder_with_prefix(5, &Some("prod".to_string()));
    assert_eq!(k.key, "prod:VideoCall:meta_data_admin:id:obj:5");
    assert_eq!(k.expire_secs, Some(EXPIRE_ROOM_ADMIN_META));
    assert_eq!(EXPIRE_ROOM_ADMIN_META, 3600);
    let k2 = RoomAdminMetadataCacheKeyBuilder::builder(9);
    assert_eq!(k2.key, "VideoCall:meta_data_admin:id:obj:9");
}

#[test]
fn device_node_map_hash_key() {
    let k = RouterCacheKeyBuilder::build_device_node_map(String::new());
    assert_eq!(k.key, "luohuo:router:string:device-node-mapping");
    assert_eq!(k.field, Some(String::new()));
    assert_eq!(k.expire_secs, None);
    let k2 = RouterCacheKeyBuilder::build_device_node_map("abc".to_string());
    assert_eq!(k2.key, "luohuo:router:string:device-node-mapping");
    assert_eq!(k2.field, Some("abc".to_string()));
}

#[test]
fn node_devices_key() {
    let k = RouterCacheKeyBuilder::build_node_devices("node-7");
    assert_eq!(k.key, "luohuo:router:node-devices:string:node-7");
    assert_eq!(k.expire_secs, None);
    let empty = RouterCacheKeyBuilder::build_node_devices("");
    assert_eq!(empty.key, "luohuo:router:node-devices:string");
}

#[test]
fn user_rooms_key() {
    let k = UserRoomsCacheKeyBuilder::build_with_prefix(77, &Some("dev".to_string()));
    assert_eq!(k.key, "dev:VideoCall:user_rooms:obj:77");
    assert_eq!(k.expire_secs, Some(EXPIRE_VIDEO_USER_ROOMS));
    assert_eq!(EXPIRE_VIDEO_USER_ROOMS, 900);
    assert_eq!(UserRoomsCacheKeyBuilder::build(0).key, "VideoCall:user_rooms:obj:0");
}

#[test]
fn different_rooms_get_different_keys() {
    let a = CloseRoomCacheKeyBuilder::builder_with_prefix(12, &None);
    let b = CloseRoomCacheKeyBuilder::builder_with_prefix(-12, &None);
    let c = CloseRoomCacheKeyBuilder::builder_with_prefix(1, &None);
    assert_ne!(a.key, b.key);
    assert_ne!(a.key, c.key);
}

#[test]
fn layouts_of_the_routing_tables() {
    let l = DeviceNodeMapping.layout();
    assert_eq!(l.prefix, Some("luohuo".to_string()));
    assert_eq!(l.table, "router");
    assert!(matches!(l.value_type, CacheValueType::String));
    let n = NodeDevices.layout();
    assert_eq!(n.modular, Some("router".to_string()));
    assert_eq!(n.table, "node-devices");
}
