use ms_websocket::cache_keys::{CloseRoomCacheKeyBuilder, UserRoomsCacheKeyBuilder};

#[test]
fn builders_use_the_configured_prefix() {
    fbc_starter::cache::set_cache_prefix("staging".to_string());
    assert_eq!(
        CloseRoomCacheKeyBuilder::builder(8).key,
        "staging:chat:close_room:id:string:8"
    );
    assert_eq!(UserRoomsCacheKeyBuilder::build(3).key, "staging:VideoCall:user_rooms:obj:3");
}
