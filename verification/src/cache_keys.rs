//! Redis cache keys of the node. Each builder fixes the layout of its keys
//! (prefix, tenant, module, table, field, value type, expiry); the key text is
//! assembled by `fbc_starter`'s `CacheKeyBuilder`.
use vstd::prelude::*;
use crate::text::{
    decimal, i64_to_decimal, lemma_decimal, lemma_signed_decimal_injective, signed_decimal, u64_to_decimal,
};
use crate::types::{ClientId, RoomId, UserId};
use fbc_starter::cache::{CacheKeyBuilder, SimpleCacheKeyBuilder, ValueType as FbcValueType};
use std::time::Duration;

verus! {

/// What a cached value holds.
#[derive(Debug, Clone, Copy, PartialEq, Eq, Structural)]
pub enum CacheValueType {
    /// An object.
    Obj,
    /// A string.
    String,
    /// A number.
    Number,
}

/// The key segment naming each value type.
pub open spec fn value_type_text(t: CacheValueType) -> Seq<char> {
    match t {
        CacheValueType::Obj => "obj"@,
        CacheValueType::String => "string"@,
        CacheValueType::Number => "number"@,
    }
}

/// The layout of the keys that one builder produces.
#[derive(Clone)]
pub struct CacheKeyLayout {
    /// Project or environment prefix.
    pub prefix: Option<String>,
    /// Tenant code.
    pub tenant: Option<String>,
    /// Service module.
    pub modular: Option<String>,
    /// Business type (table); never empty.
    pub table: String,
    /// Business field.
    pub field: Option<String>,
    /// What the value holds.
    pub value_type: CacheValueType,
    /// Expiry in seconds; `None` never expires.
    pub expire_secs: Option<u64>,
}

/// The view of a key layout.
pub struct CacheKeyLayoutView {
    pub prefix: Option<Seq<char>>,
    pub tenant: Option<Seq<char>>,
    pub modular: Option<Seq<char>>,
    pub table: Seq<char>,
    pub field: Option<Seq<char>>,
    pub value_type: CacheValueType,
    pub expire_secs: Option<u64>,
}

/// The view of an optional string.
pub open spec fn opt_view(o: Option<String>) -> Option<Seq<char>> {
    match o {
        Some(s) => Some(s@),
        None => None,
    }
}

impl View for CacheKeyLayout {
    type V = CacheKeyLayoutView;

    open spec fn view(&self) -> CacheKeyLayoutView {
        CacheKeyLayoutView {
            prefix: opt_view(self.prefix),
            tenant: opt_view(self.tenant),
            modular: opt_view(self.modular),
            table: self.table@,
            field: opt_view(self.field),
            value_type: self.value_type,
            expire_secs: self.expire_secs,
        }
    }
}

/// A plain cache key with its expiry in seconds.
pub struct CacheKey {
    /// The key text.
    pub key: String,
    /// Expiry in seconds; `None` never expires.
    pub expire_secs: Option<u64>,
}

/// A Redis hash key: the key text, the hash field and the expiry in seconds.
pub struct CacheHashKey {
    /// The key text.
    pub key: String,
    /// The hash field.
    pub field: Option<String>,
    /// Expiry in seconds; `None` never expires.
    pub expire_secs: Option<u64>,
}

/// The segment an optional part contributes: itself when present and not empty.
pub open spec fn optional_segment(o: Option<Seq<char>>) -> Seq<Seq<char>> {
    match o {
        Some(p) => if p.len() > 0 {
            seq![p]
        } else {
            seq![]
        },
        None => seq![],
    }
}

/// The business values that appear in a key: the non-empty ones, in order.
pub open spec fn value_segments(uniques: Seq<Seq<char>>) -> Seq<Seq<char>>
    decreases uniques.len(),
{
    if uniques.len() == 0 {
        seq![]
    } else {
        let rest = value_segments(uniques.drop_last());
        if uniques.last().len() > 0 {
            rest.push(uniques.last())
        } else {
            rest
        }
    }
}

/// The segments of a key:
/// `[prefix:][tenant:][module:]table[:field]:value-type[:value]...`.
pub open spec fn key_segments(l: CacheKeyLayoutView, uniques: Seq<Seq<char>>) -> Seq<Seq<char>> {
    optional_segment(l.prefix) + optional_segment(l.tenant) + optional_segment(l.modular) + seq![
        l.table,
    ] + optional_segment(l.field) + seq![value_type_text(l.value_type)] + value_segments(
        uniques,
    )
}

/// Segments joined by `:`.
pub open spec fn join_colon(parts: Seq<Seq<char>>) -> Seq<char>
    decreases parts.len(),
{
    if parts.len() == 0 {
        seq![]
    } else if parts.len() == 1 {
        parts[0]
    } else {
        join_colon(parts.drop_last()) + seq![':'] + parts.last()
    }
}

/// The key text for a layout and business values.
pub open spec fn cache_key_text(l: CacheKeyLayoutView, uniques: Seq<Seq<char>>) -> Seq<char> {
    join_colon(key_segments(l, uniques))
}

/// Builds a key with `fbc_starter::cache::SimpleCacheKeyBuilder` and
/// `CacheKeyBuilder::key`. The contract claims what that crate's
/// `build_key` does: the present non-empty prefix, tenant and module, the
/// table, the present non-empty field, the value type's name and the non-empty
/// business values, joined by `:`; the expiry is the layout's.
#[verifier::external_body]
fn fbc_cache_key(layout: &CacheKeyLayout, uniques: &Vec<String>) -> (r: CacheKey)
    requires
        layout.table@.len() > 0,
    ensures
        r.key@ == cache_key_text(layout@, uniques.deep_view()),
        r.expire_secs == layout.expire_secs,
{
    let l = layout.clone();
    let b = SimpleCacheKeyBuilder { prefix: l.prefix, tenant: l.tenant, modular: l.modular,
        table: l.table, field: l.field, expire: l.expire_secs.map(Duration::from_secs),
        value_type: match l.value_type { CacheValueType::Obj => FbcValueType::Obj,
            CacheValueType::String => FbcValueType::String,
            CacheValueType::Number => FbcValueType::Number } };
    let refs: Vec<&dyn ToString> = uniques.iter().map(|u| u as &dyn ToString).collect();
    let k = b.key(&refs);
    CacheKey { key: k.key, expire_secs: k.expire.map(|d| d.as_secs()) }
}

/// Builds a hash key with `fbc_starter::cache::SimpleCacheKeyBuilder` and
/// `CacheKeyBuilder::hash_field_key`. The contract claims that the key text is
/// the one `fbc_cache_key` states, that the hash field is `field`, and that the
/// expiry is the layout's.
#[verifier::external_body]
fn fbc_cache_hash_key(layout: &CacheKeyLayout, field: &String, uniques: &Vec<String>) -> (r:
    CacheHashKey)
    requires
        layout.table@.len() > 0,
    ensures
        r.key@ == cache_key_text(layout@, uniques.deep_view()),
        opt_view(r.field) == Some(field@),
        r.expire_secs == layout.expire_secs,
{
    let l = layout.clone();
    let b = SimpleCacheKeyBuilder { prefix: l.prefix, tenant: l.tenant, modular: l.modular,
        table: l.table, field: l.field, expire: l.expire_secs.map(Duration::from_secs),
        value_type: match l.value_type { CacheValueType::Obj => FbcValueType::Obj,
            CacheValueType::String => FbcValueType::String,
            CacheValueType::Number => FbcValueType::Number } };
    let refs: Vec<&dyn ToString> = uniques.iter().map(|u| u as &dyn ToString).collect();
    let k = b.hash_field_key(field, &refs);
    CacheHashKey { key: k.key, field: k.field, expire_secs: k.expire.map(|d| d.as_secs()) }
}

/// The key prefix configured for this process with
/// `fbc_starter::cache::set_cache_prefix`, read with `get_cache_prefix`.
/// It is process state: nothing is claimed of it.
#[verifier::external_body]
fn configured_cache_prefix() -> (r: Option<String>) {
    fbc_starter::cache::get_cache_prefix().cloned()
}

/// Video/user room list cache: 15 minutes, in seconds.
pub const EXPIRE_VIDEO_USER_ROOMS: u64 = 900;

/// Room administrator metadata: 60 minutes, in seconds.
pub const EXPIRE_ROOM_ADMIN_META: u64 = 3600;

/// Closed-room marker: 5 hours, in seconds.
pub const EXPIRE_CLOSE_ROOM: u64 = 18000;

/// Copies an optional string.
fn clone_opt(o: &Option<String>) -> (r: Option<String>)
    ensures
        opt_view(r) == opt_view(*o),
{
    match o {
        Some(s) => Some(s.clone()),
        None => None,
    }
}

/// Layout of the closed-room marker keys.
pub open spec fn close_room_layout(prefix: Option<Seq<char>>) -> CacheKeyLayoutView {
    CacheKeyLayoutView {
        prefix,
        tenant: None,
        modular: Some("chat"@),
        table: "close_room"@,
        field: Some("id"@),
        value_type: CacheValueType::String,
        expire_secs: Some(EXPIRE_CLOSE_ROOM),
    }
}

/// Layout of the room administrator metadata keys.
pub open spec fn room_admin_metadata_layout(prefix: Option<Seq<char>>) -> CacheKeyLayoutView {
    CacheKeyLayoutView {
        prefix,
        tenant: Some(""@),
        modular: Some("VideoCall"@),
        table: "meta_data_admin"@,
        field: Some("id"@),
        value_type: CacheValueType::Obj,
        expire_secs: Some(EXPIRE_ROOM_ADMIN_META),
    }
}

/// Layout of the device-to-node routing hash.
pub open spec fn device_node_mapping_layout() -> CacheKeyLayoutView {
    CacheKeyLayoutView {
        prefix: Some("luohuo"@),
        tenant: None,
        modular: None,
        table: "router"@,
        field: None,
        value_type: CacheValueType::String,
        expire_secs: None,
    }
}

/// Layout of the per-node device set keys.
pub open spec fn node_devices_layout() -> CacheKeyLayoutView {
    CacheKeyLayoutView {
        prefix: Some("luohuo"@),
        tenant: None,
        modular: Some("router"@),
        table: "node-devices"@,
        field: None,
        value_type: CacheValueType::String,
        expire_secs: None,
    }
}

/// Layout of the per-user room list keys.
pub open spec fn user_rooms_layout(prefix: Option<Seq<char>>) -> CacheKeyLayoutView {
    CacheKeyLayoutView {
        prefix,
        tenant: None,
        modular: Some("VideoCall"@),
        table: "user_rooms"@,
        field: None,
        value_type: CacheValueType::Obj,
        expire_secs: Some(EXPIRE_VIDEO_USER_ROOMS),
    }
}

/// With a single non-empty business value, the key ends with `:` and that
/// value after the layout's fixed part, so the key determines the value.
pub proof fn lemma_key_determines_value(l: CacheKeyLayoutView, u1: Seq<char>, u2: Seq<char>)
    requires
        u1.len() > 0,
        u2.len() > 0,
        cache_key_text(l, seq![u1]) == cache_key_text(l, seq![u2]),
    ensures
        u1 == u2,
{
    let base = optional_segment(l.prefix) + optional_segment(l.tenant) + optional_segment(l.modular)
        + seq![l.table] + optional_segment(l.field) + seq![value_type_text(l.value_type)];
    assert(seq![u1].drop_last() =~= Seq::<Seq<char>>::empty());
    assert(seq![u2].drop_last() =~= Seq::<Seq<char>>::empty());
    assert(value_segments(Seq::<Seq<char>>::empty()) =~= Seq::<Seq<char>>::empty());
    assert(seq![u1].last() == u1);
    assert(seq![u2].last() == u2);
    assert(value_segments(seq![u1]) =~= seq![u1]);
    assert(value_segments(seq![u2]) =~= seq![u2]);
    assert(key_segments(l, seq![u1]) =~= base.push(u1));
    assert(key_segments(l, seq![u2]) =~= base.push(u2));
    assert(base.len() >= 2);
    assert(base.push(u1).drop_last() =~= base);
    assert(base.push(u2).drop_last() =~= base);
    let j = join_colon(base);
    assert(join_colon(base.push(u1)) == j + seq![':'] + u1);
    assert(join_colon(base.push(u2)) == j + seq![':'] + u2);
    let k1 = j + seq![':'] + u1;
    let k2 = j + seq![':'] + u2;
    assert(u1 =~= k1.subrange(j.len() as int + 1, k1.len() as int));
    assert(u2 =~= k2.subrange(j.len() as int + 1, k2.len() as int));
}

/// Different rooms have different closed-room markers.
pub proof fn lemma_close_room_key_injective(prefix: Option<Seq<char>>, a: RoomId, b: RoomId)
    requires
        cache_key_text(close_room_layout(prefix), seq![signed_decimal(a as int)])
            == cache_key_text(close_room_layout(prefix), seq![signed_decimal(b as int)]),
    ensures
        a == b,
{
    lemma_signed_decimal_nonempty(a as int);
    lemma_signed_decimal_nonempty(b as int);
    lemma_key_determines_value(close_room_layout(prefix), signed_decimal(a as int), signed_decimal(b as int));
    lemma_signed_decimal_injective(a as int, b as int);
}

/// Different rooms have different administrator metadata keys.
pub proof fn lemma_room_admin_metadata_key_injective(prefix: Option<Seq<char>>, a: RoomId, b: RoomId)
    requires
        cache_key_text(room_admin_metadata_layout(prefix), seq![signed_decimal(a as int)])
            == cache_key_text(room_admin_metadata_layout(prefix), seq![signed_decimal(b as int)]),
    ensures
        a == b,
{
    lemma_signed_decimal_nonempty(a as int);
    lemma_signed_decimal_nonempty(b as int);
    lemma_key_determines_value(
        room_admin_metadata_layout(prefix),
        signed_decimal(a as int),
        signed_decimal(b as int),
    );
    lemma_signed_decimal_injective(a as int, b as int);
}

/// Different users have different room list keys.
pub proof fn lemma_user_rooms_key_injective(prefix: Option<Seq<char>>, a: UserId, b: UserId)
    requires
        cache_key_text(user_rooms_layout(prefix), seq![decimal(a as nat)]) == cache_key_text(
            user_rooms_layout(prefix),
            seq![decimal(b as nat)],
        ),
    ensures
        a == b,
{
    lemma_decimal(a as nat);
    lemma_decimal(b as nat);
    lemma_key_determines_value(user_rooms_layout(prefix), decimal(a as nat), decimal(b as nat));
    lemma_signed_decimal_injective(a as int, b as int);
}

proof fn lemma_signed_decimal_nonempty(i: int)
    ensures
        signed_decimal(i).len() > 0,
{
    if i < 0 {
        lemma_decimal((-i) as nat);
    } else {
        lemma_decimal(i as nat);
    }
}

/// Key builder for the marker of a closed room.
pub struct CloseRoomCacheKeyBuilder;

impl CloseRoomCacheKeyBuilder {
    /// The layout of the keys, under the given prefix.
    pub fn layout(prefix: &Option<String>) -> (r: CacheKeyLayout)
        ensures
            r@ == close_room_layout(opt_view(*prefix)),
    {
        CacheKeyLayout {
            prefix: clone_opt(prefix),
            tenant: None,
            modular: Some(String::from_str("chat")),
            table: String::from_str("close_room"),
            field: Some(String::from_str("id")),
            value_type: CacheValueType::String,
            expire_secs: Some(EXPIRE_CLOSE_ROOM),
        }
    }

    /// The key of a room's closed marker under the given prefix.
    pub fn builder_with_prefix(room_id: RoomId, prefix: &Option<String>) -> (r: CacheKey)
        ensures
            r.key@ == cache_key_text(
                close_room_layout(opt_view(*prefix)),
                seq![signed_decimal(room_id as int)],
            ),
            r.expire_secs == Some(EXPIRE_CLOSE_ROOM),
    {
        let layout = Self::layout(prefix);
        proof {
            reveal_strlit("close_room");
        }
        let mut uniques: Vec<String> = Vec::new();
        uniques.push(i64_to_decimal(room_id));
        assert(uniques.deep_view() =~= seq![signed_decimal(room_id as int)]);
        fbc_cache_key(&layout, &uniques)
    }

    /// The key of a room's closed marker under the prefix configured for
    /// this process.
    pub fn builder(room_id: RoomId) -> (r: CacheKey)
        ensures
            exists|p: Option<Seq<char>>|
                r.key@ == cache_key_text(
                    #[trigger] close_room_layout(p),
                    seq![signed_decimal(room_id as int)],
                ),
            r.expire_secs == Some(EXPIRE_CLOSE_ROOM),
    {
        let prefix = configured_cache_prefix();
        Self::builder_with_prefix(room_id, &prefix)
    }
}

/// Key builder for the administrator metadata of a room.
pub struct RoomAdminMetadataCacheKeyBuilder;

impl RoomAdminMetadataCacheKeyBuilder {
    /// The layout of the keys, under the given prefix.
    pub fn layout(prefix: &Option<String>) -> (r: CacheKeyLayout)
        ensures
            r@ == room_admin_metadata_layout(opt_view(*prefix)),
    {
        CacheKeyLayout {
            prefix: clone_opt(prefix),
            tenant: Some(String::from_str("")),
            modular: Some(String::from_str("VideoCall")),
            table: String::from_str("meta_data_admin"),
            field: Some(String::from_str("id")),
            value_type: CacheValueType::Obj,
            expire_secs: Some(EXPIRE_ROOM_ADMIN_META),
        }
    }

    /// The key of a room's administrator metadata under the given prefix.
    pub fn builder_with_prefix(room_id: RoomId, prefix: &Option<String>) -> (r: CacheKey)
        ensures
            r.key@ == cache_key_text(
                room_admin_metadata_layout(opt_view(*prefix)),
                seq![signed_decimal(room_id as int)],
            ),
            r.expire_secs == Some(EXPIRE_ROOM_ADMIN_META),
    {
        let layout = Self::layout(prefix);
        proof {
            reveal_strlit("meta_data_admin");
        }
        let mut uniques: Vec<String> = Vec::new();
        uniques.push(i64_to_decimal(room_id));
        assert(uniques.deep_view() =~= seq![signed_decimal(room_id as int)]);
        fbc_cache_key(&layout, &uniques)
    }

    /// The key of a room's administrator metadata under the prefix configured
    /// for this process.
    pub fn builder(room_id: RoomId) -> (r: CacheKey)
        ensures
            exists|p: Option<Seq<char>>|
                r.key@ == cache_key_text(
                    #[trigger] room_admin_metadata_layout(p),
                    seq![signed_decimal(room_id as int)],
                ),
            r.expire_secs == Some(EXPIRE_ROOM_ADMIN_META),
    {
        let prefix = configured_cache_prefix();
        Self::builder_with_prefix(room_id, &prefix)
    }
}

/// The business value under which the device-to-node routing hash is kept.
pub open spec fn device_node_mapping_value() -> Seq<char> {
    "device-node-mapping"@
}

/// Key builders of the routing module.
pub struct RouterCacheKeyBuilder;

/// The device-to-node routing hash.
pub struct DeviceNodeMapping;

/// The set of devices connected to a node.
pub struct NodeDevices;

impl DeviceNodeMapping {
    /// The layout of the routing hash key.
    pub fn layout(&self) -> (r: CacheKeyLayout)
        ensures
            r@ == device_node_mapping_layout(),
    {
        CacheKeyLayout {
            prefix: Some(String::from_str("luohuo")),
            tenant: None,
            modular: None,
            table: String::from_str("router"),
            field: None,
            value_type: CacheValueType::String,
            expire_secs: None,
        }
    }
}

impl NodeDevices {
    /// The layout of the per-node device set keys.
    pub fn layout(&self) -> (r: CacheKeyLayout)
        ensures
            r@ == node_devices_layout(),
    {
        CacheKeyLayout {
            prefix: Some(String::from_str("luohuo")),
            tenant: None,
            modular: Some(String::from_str("router")),
            table: String::from_str("node-devices"),
            field: None,
            value_type: CacheValueType::String,
            expire_secs: None,
        }
    }
}

impl RouterCacheKeyBuilder {
    /// The hash key of the device-to-node routing table, with `client_id` as
    /// the hash field.
    pub fn build_device_node_map(client_id: ClientId) -> (r: CacheHashKey)
        ensures
            r.key@ == cache_key_text(device_node_mapping_layout(), seq![device_node_mapping_value()]),
            opt_view(r.field) == Some(client_id@),
            r.expire_secs is None,
    {
        let layout = DeviceNodeMapping.layout();
        proof {
            reveal_strlit("router");
        }
        let mut uniques: Vec<String> = Vec::new();
        uniques.push(String::from_str("device-node-mapping"));
        assert(uniques.deep_view() =~= seq![device_node_mapping_value()]);
        fbc_cache_hash_key(&layout, &client_id, &uniques)
    }

    /// The key of the set of devices connected to a node.
    pub fn build_node_devices(node_id: &str) -> (r: CacheKey)
        ensures
            r.key@ == cache_key_text(node_devices_layout(), seq![node_id@]),
            r.expire_secs is None,
    {
        let layout = NodeDevices.layout();
        proof {
            reveal_strlit("node-devices");
        }
        let mut uniques: Vec<String> = Vec::new();
        uniques.push(String::from_str(node_id));
        assert(uniques.deep_view() =~= seq![node_id@]);
        fbc_cache_key(&layout, &uniques)
    }
}

/// Key builder for a user's room list.
pub struct UserRoomsCacheKeyBuilder;

impl UserRoomsCacheKeyBuilder {
    /// The layout of the keys, under the given prefix.
    pub fn layout(prefix: &Option<String>) -> (r: CacheKeyLayout)
        ensures
            r@ == user_rooms_layout(opt_view(*prefix)),
    {
        CacheKeyLayout {
            prefix: clone_opt(prefix),
            tenant: None,
            modular: Some(String::from_str("VideoCall")),
            table: String::from_str("user_rooms"),
            field: None,
            value_type: CacheValueType::Obj,
            expire_secs: Some(EXPIRE_VIDEO_USER_ROOMS),
        }
    }

    /// The key of a user's room list under the given prefix.
    pub fn build_with_prefix(key: UserId, prefix: &Option<String>) -> (r: CacheKey)
        ensures
            r.key@ == cache_key_text(
                user_rooms_layout(opt_view(*prefix)),
                seq![decimal(key as nat)],
            ),
            r.expire_secs == Some(EXPIRE_VIDEO_USER_ROOMS),
    {
        let layout = Self::layout(prefix);
        proof {
            reveal_strlit("user_rooms");
        }
        let mut uniques: Vec<String> = Vec::new();
        uniques.push(u64_to_decimal(key));
        assert(uniques.deep_view() =~= seq![decimal(key as nat)]);
        fbc_cache_key(&layout, &uniques)
    }

    /// The key of a user's room list under the prefix configured for this
    /// process.
    pub fn build(key: UserId) -> (r: CacheKey)
        ensures
            exists|p: Option<Seq<char>>|
                r.key@ == cache_key_text(#[trigger] user_rooms_layout(p), seq![decimal(key as nat)]),
            r.expire_secs == Some(EXPIRE_VIDEO_USER_ROOMS),
    {
        let prefix = configured_cache_prefix();
        Self::build_with_prefix(key, &prefix)
    }
}

} // verus!
