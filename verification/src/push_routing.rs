//! Push routing: the routing table maps each device field `"{uid}:{client}"`
//! to the node that holds the device. To push to users, the node groups the
//! table's live entries by node and device, pushes locally to its own users
//! and hands the rest to the other nodes over the message queue.
use vstd::prelude::*;
use vstd::string::*;
use crate::text::{
    count_char, decimal, is_digit, lemma_count_char_add, lemma_count_char_zero, lemma_decimal_has_no,
    lemma_parse_decimal_round_trip, parse_u64, parse_u64_spec, u64_to_decimal, vec_contains_string,
    vec_contains_u64,
};
use crate::cache_keys::opt_view;
use crate::session_manager::SessionManager;
use crate::types::{ClientId, UserId};

verus! {

/// The routing-table field of a user's device: `"{uid}:{client_id}"`.
pub open spec fn route_field_spec(uid: u64, client_id: Seq<char>) -> Seq<char> {
    decimal(uid as nat) + seq![':'] + client_id
}

/// The index of the last occurrence of `c` in `s`, or -1.
pub open spec fn last_index_of(s: Seq<char>, c: char) -> int
    decreases s.len(),
{
    if s.len() == 0 {
        -1
    } else if s.last() == c {
        s.len() - 1
    } else {
        last_index_of(s.drop_last(), c)
    }
}

/// Reading a routing-table field back: it must split at `:` into exactly two
/// parts, the first of them a user id; the second is the client id.
pub open spec fn parse_route_field_spec(f: Seq<char>) -> Option<(u64, Seq<char>)> {
    if count_char(f, ':') == 1 {
        let k = last_index_of(f, ':');
        match parse_u64_spec(f.subrange(0, k)) {
            Some(uid) => Some((uid, f.subrange(k + 1, f.len() as int))),
            None => None,
        }
    } else {
        None
    }
}

/// The routing-table field of a user's device.
pub fn route_field(uid: UserId, client_id: &str) -> (r: String)
    ensures
        r@ == route_field_spec(uid, client_id@),
{
    let mut s = u64_to_decimal(uid);
    s.append(":");
    proof {
        reveal_strlit(":");
    }
    s.append(client_id);
    s
}

proof fn lemma_last_index_of_bounds(s: Seq<char>, c: char)
    ensures
        -1 <= last_index_of(s, c) < s.len(),
        last_index_of(s, c) >= 0 ==> s[last_index_of(s, c)] == c,
        last_index_of(s, c) == -1 ==> count_char(s, c) == 0,
        last_index_of(s, c) >= 0 ==> count_char(s, c) >= 1,
    decreases s.len(),
{
    if s.len() > 0 {
        lemma_last_index_of_bounds(s.drop_last(), c);
        if s.last() != c && last_index_of(s.drop_last(), c) >= 0 {
            assert(s[last_index_of(s, c)] == s.drop_last()[last_index_of(s, c)]);
        }
    }
}

proof fn lemma_last_index_of_append(a: Seq<char>, b: Seq<char>, c: char)
    requires
        !b.contains(c),
    ensures
        last_index_of(a + b, c) == last_index_of(a, c),
    decreases b.len(),
{
    if b.len() == 0 {
        assert(a + b =~= a);
    } else {
        assert((a + b).drop_last() =~= a + b.drop_last());
        assert(!b.drop_last().contains(c)) by {
            if b.drop_last().contains(c) {
                let k = choose|k: int| 0 <= k < b.drop_last().len() && b.drop_last()[k] == c;
                assert(b[k] == c);
            }
        }
        assert((a + b).last() == b[b.len() - 1]);
        lemma_last_index_of_append(a, b.drop_last(), c);
    }
}

/// Reading back the field written for a device gives its user and client id,
/// for any client id without a `:`.
pub proof fn lemma_route_field_round_trip(uid: u64, client_id: Seq<char>)
    requires
        !client_id.contains(':'),
    ensures
        parse_route_field_spec(route_field_spec(uid, client_id)) == Some((uid, client_id)),
{
    let d = decimal(uid as nat);
    let f = route_field_spec(uid, client_id);
    assert(!is_digit(':'));
    lemma_decimal_has_no(uid as nat, ':');
    lemma_count_char_zero(client_id, ':');
    lemma_count_char_add(d + seq![':'], client_id, ':');
    lemma_count_char_add(d, seq![':'], ':');
    assert(seq![':'].drop_last() =~= Seq::<char>::empty());
    assert(count_char(Seq::<char>::empty(), ':') == 0);
    assert(seq![':'].last() == ':');
    assert(count_char(seq![':'], ':') == 1);
    lemma_last_index_of_append(d + seq![':'], client_id, ':');
    assert((d + seq![':']).last() == ':');
    assert(last_index_of(f, ':') == d.len());
    assert(f.subrange(0, d.len() as int) =~= d);
    assert(f.subrange(d.len() as int + 1, f.len() as int) =~= client_id);
    lemma_parse_decimal_round_trip(uid as nat);
}

/// Reads a routing-table field back into its user and client id, as
/// `field.split(':')` into exactly two parts and `parse::<u64>` of the first.
pub fn parse_route_field(field: &str) -> (r: Option<(UserId, ClientId)>)
    ensures
        r matches Some((uid, cid)) ==> parse_route_field_spec(field@) == Some((uid, cid@)),
        r is None ==> parse_route_field_spec(field@) is None,
{
    let len = field.unicode_len();
    let mut count: usize = 0;
    let mut pos: usize = 0;
    let mut found = false;
    let mut i: usize = 0;
    while i < len
        invariant
            i <= len,
            len == field@.len(),
            count == count_char(field@.take(i as int), ':'),
            count <= i,
            found == (last_index_of(field@.take(i as int), ':') >= 0),
            found ==> pos == last_index_of(field@.take(i as int), ':'),
        decreases len - i,
    {
        let c = field.get_char(i);
        let ghost pre = field@.take(i as int);
        let ghost next = field@.take(i + 1);
        assert(next.drop_last() =~= pre);
        assert(next.last() == c);
        if c == ':' {
            count = count + 1;
            pos = i;
            found = true;
        }
        i = i + 1;
    }
    assert(field@.take(len as int) =~= field@);
    if count != 1 {
        return None;
    }
    proof {
        lemma_last_index_of_bounds(field@, ':');
    }
    let head = field.substring_char(0, pos);
    let tail = field.substring_char(pos + 1, len);
    match parse_u64(head) {
        Some(uid) => Some((uid, String::from_str(tail))),
        None => None,
    }
}

/// A device of a node, with the user it belongs to.
pub struct DeviceRoute {
    /// The client device.
    pub client_id: ClientId,
    /// Its user.
    pub uid: UserId,
}

/// A node with the devices that it holds.
pub struct NodeRoute {
    /// The node.
    pub node_id: String,
    /// Its devices, each once.
    pub devices: Vec<DeviceRoute>,
}

/// The device-to-user map that a list of device routes stands for; a later
/// entry for a device wins.
pub open spec fn device_routes_map(ds: Seq<DeviceRoute>) -> Map<Seq<char>, u64>
    decreases ds.len(),
{
    if ds.len() == 0 {
        Map::empty()
    } else {
        device_routes_map(ds.drop_last()).insert(ds.last().client_id@, ds.last().uid)
    }
}

/// The node-to-devices map that a list of node routes stands for.
pub open spec fn node_routes_map(ns: Seq<NodeRoute>) -> Map<Seq<char>, Map<Seq<char>, u64>>
    decreases ns.len(),
{
    if ns.len() == 0 {
        Map::empty()
    } else {
        node_routes_map(ns.drop_last()).insert(ns.last().node_id@, device_routes_map(ns.last().devices@))
    }
}

/// No device occurs twice.
pub open spec fn distinct_devices(ds: Seq<DeviceRoute>) -> bool {
    forall|i: int, j: int|
        0 <= i < ds.len() && 0 <= j < ds.len() && i != j ==> #[trigger] ds[i].client_id@
            != #[trigger] ds[j].client_id@
}

/// No node occurs twice, and no device twice within a node.
pub open spec fn routes_wf(ns: Seq<NodeRoute>) -> bool {
    &&& forall|i: int, j: int|
        0 <= i < ns.len() && 0 <= j < ns.len() && i != j ==> #[trigger] ns[i].node_id@
            != #[trigger] ns[j].node_id@
    &&& forall|i: int| 0 <= i < ns.len() ==> distinct_devices(#[trigger] ns[i].devices@)
}

/// One routing-table entry `(field, node)` applied to the grouping: it counts
/// when the node is active, the field parses, and its user is a target; the
/// device then maps to the user under the node.
pub open spec fn route_step(
    acc: Map<Seq<char>, Map<Seq<char>, u64>>,
    item: (Seq<char>, Seq<char>),
    active: Seq<Seq<char>>,
    targets: Seq<u64>,
) -> Map<Seq<char>, Map<Seq<char>, u64>> {
    let (field, node) = item;
    if !active.contains(node) {
        acc
    } else {
        match parse_route_field_spec(field) {
            None => acc,
            Some((uid, cid)) => if !targets.contains(uid) {
                acc
            } else {
                let d = if acc.contains_key(node) {
                    acc[node]
                } else {
                    Map::empty()
                };
                acc.insert(node, d.insert(cid, uid))
            },
        }
    }
}

/// The grouping of routing-table entries, in the order given, by node and
/// device.
pub open spec fn group_routes_spec(
    items: Seq<(Seq<char>, Seq<char>)>,
    active: Seq<Seq<char>>,
    targets: Seq<u64>,
) -> Map<Seq<char>, Map<Seq<char>, u64>>
    decreases items.len(),
{
    if items.len() == 0 {
        Map::empty()
    } else {
        route_step(group_routes_spec(items.drop_last(), active, targets), items.last(), active, targets)
    }
}

proof fn lemma_device_routes_update(ds: Seq<DeviceRoute>, j: int, x: DeviceRoute)
    requires
        distinct_devices(ds),
        0 <= j < ds.len(),
        ds[j].client_id@ == x.client_id@,
    ensures
        device_routes_map(ds.update(j, x)) == device_routes_map(ds).insert(x.client_id@, x.uid),
        distinct_devices(ds.update(j, x)),
    decreases ds.len(),
{
    let u = ds.update(j, x);
    assert(distinct_devices(u)) by {
        assert forall|a: int, b: int| 0 <= a < u.len() && 0 <= b < u.len() && a != b implies #[trigger] u[a].client_id@
            != #[trigger] u[b].client_id@ by {
            assert(ds[a].client_id@ != ds[b].client_id@);
        }
    }
    if j == ds.len() - 1 {
        assert(u.drop_last() =~= ds.drop_last());
        assert(device_routes_map(u) =~= device_routes_map(ds).insert(x.client_id@, x.uid));
    } else {
        let p = ds.drop_last();
        assert(distinct_devices(p)) by {
            assert forall|a: int, b: int| 0 <= a < p.len() && 0 <= b < p.len() && a != b implies #[trigger] p[a].client_id@
                != #[trigger] p[b].client_id@ by {
                assert(p[a] == ds[a] && p[b] == ds[b]);
            }
        }
        lemma_device_routes_update(p, j, x);
        assert(u.drop_last() =~= p.update(j, x));
        assert(u.last() == ds.last());
        assert(ds[ds.len() - 1].client_id@ != ds[j].client_id@);
        assert(device_routes_map(u) =~= device_routes_map(ds).insert(x.client_id@, x.uid));
    }
}

proof fn lemma_device_routes_keys(ds: Seq<DeviceRoute>)
    ensures
        forall|k: Seq<char>| #[trigger] device_routes_map(ds).contains_key(k) <==> exists|i: int|
            0 <= i < ds.len() && ds[i].client_id@ == k,
        distinct_devices(ds) ==> forall|i: int|
            0 <= i < ds.len() ==> device_routes_map(ds)[#[trigger] ds[i].client_id@] == ds[i].uid,
    decreases ds.len(),
{
    if ds.len() > 0 {
        let p = ds.drop_last();
        lemma_device_routes_keys(p);
        assert forall|k: Seq<char>| #[trigger] device_routes_map(ds).contains_key(k) <==> exists|i: int|
            0 <= i < ds.len() && ds[i].client_id@ == k by {
            if device_routes_map(ds).contains_key(k) && k != ds.last().client_id@ {
                assert(device_routes_map(p).contains_key(k));
                let i = choose|i: int| 0 <= i < p.len() && p[i].client_id@ == k;
                assert(ds[i] == p[i]);
            }
            if k == ds.last().client_id@ {
                assert(ds[ds.len() - 1].client_id@ == k);
            }
            if exists|i: int| 0 <= i < ds.len() && ds[i].client_id@ == k {
                let i = choose|i: int| 0 <= i < ds.len() && ds[i].client_id@ == k;
                if i < ds.len() - 1 {
                    assert(p[i] == ds[i]);
                    assert(device_routes_map(p).contains_key(k));
                }
            }
        }
        if distinct_devices(ds) {
            assert(distinct_devices(p)) by {
                assert forall|a: int, b: int| 0 <= a < p.len() && 0 <= b < p.len() && a != b implies #[trigger] p[a].client_id@
                    != #[trigger] p[b].client_id@ by {
                    assert(p[a] == ds[a] && p[b] == ds[b]);
                }
            }
            assert forall|i: int| 0 <= i < ds.len() implies device_routes_map(ds)[#[trigger] ds[i].client_id@]
                == ds[i].uid by {
                if i < ds.len() - 1 {
                    assert(p[i] == ds[i]);
                    assert(ds[i].client_id@ != ds[ds.len() - 1].client_id@);
                }
            }
        }
    }
}

/// Sets device `client_id` of a node's list to `uid`, keeping each device once.
fn upsert_device(ds: &mut Vec<DeviceRoute>, client_id: String, uid: UserId)
    requires
        distinct_devices(old(ds)@),
    ensures
        distinct_devices(final(ds)@),
        device_routes_map(final(ds)@) == device_routes_map(old(ds)@).insert(client_id@, uid),
{
    let ghost orig = ds@;
    let mut j: usize = 0;
    while j < ds.len()
        invariant
            j <= ds.len(),
            ds@ == orig,
            orig == old(ds)@,
            distinct_devices(orig),
            forall|k: int| 0 <= k < j ==> #[trigger] ds@[k].client_id@ != client_id@,
        decreases ds.len() - j,
    {
        if ds[j].client_id == client_id {
            let ghost before = ds@;
            let x = DeviceRoute { client_id, uid };
            proof {
                lemma_device_routes_update(before, j as int, x);
            }
            ds.set(j, x);
            return;
        }
        j = j + 1;
    }
    let ghost before = ds@;
    let x = DeviceRoute { client_id, uid };
    ds.push(x);
    assert(ds@.drop_last() =~= before);
    assert(ds@.last() == x);
    assert(distinct_devices(ds@)) by {
        assert forall|a: int, b: int| 0 <= a < ds@.len() && 0 <= b < ds@.len() && a != b implies #[trigger] ds@[a].client_id@
            != #[trigger] ds@[b].client_id@ by {
            if a < before.len() && b < before.len() {
                assert(ds@[a] == before[a] && ds@[b] == before[b]);
            } else if a < before.len() {
                assert(ds@[a] == before[a]);
            } else {
                assert(ds@[b] == before[b]);
            }
        }
    }
}

proof fn lemma_node_routes_update(ns: Seq<NodeRoute>, j: int, x: NodeRoute)
    requires
        routes_wf(ns),
        0 <= j < ns.len(),
        ns[j].node_id@ == x.node_id@,
        distinct_devices(x.devices@),
    ensures
        node_routes_map(ns.update(j, x)) == node_routes_map(ns).insert(
            x.node_id@,
            device_routes_map(x.devices@),
        ),
        routes_wf(ns.update(j, x)),
    decreases ns.len(),
{
    let u = ns.update(j, x);
    assert(routes_wf(u)) by {
        assert forall|a: int, b: int| 0 <= a < u.len() && 0 <= b < u.len() && a != b implies #[trigger] u[a].node_id@
            != #[trigger] u[b].node_id@ by {
            assert(ns[a].node_id@ != ns[b].node_id@);
        }
        assert forall|a: int| 0 <= a < u.len() implies distinct_devices(#[trigger] u[a].devices@) by {
            if a != j {
                assert(u[a] == ns[a]);
            }
        }
    }
    if j == ns.len() - 1 {
        assert(u.drop_last() =~= ns.drop_last());
        assert(node_routes_map(u) =~= node_routes_map(ns).insert(x.node_id@, device_routes_map(x.devices@)));
    } else {
        let p = ns.drop_last();
        assert(routes_wf(p)) by {
            assert forall|a: int, b: int| 0 <= a < p.len() && 0 <= b < p.len() && a != b implies #[trigger] p[a].node_id@
                != #[trigger] p[b].node_id@ by {
                assert(p[a] == ns[a] && p[b] == ns[b]);
            }
            assert forall|a: int| 0 <= a < p.len() implies distinct_devices(#[trigger] p[a].devices@) by {
                assert(p[a] == ns[a]);
            }
        }
        lemma_node_routes_update(p, j, x);
        assert(u.drop_last() =~= p.update(j, x));
        assert(u.last() == ns.last());
        assert(ns[ns.len() - 1].node_id@ != ns[j].node_id@);
        assert(node_routes_map(u) =~= node_routes_map(ns).insert(x.node_id@, device_routes_map(x.devices@)));
    }
}

proof fn lemma_node_routes_keys(ns: Seq<NodeRoute>)
    ensures
        forall|k: Seq<char>| #[trigger] node_routes_map(ns).contains_key(k) <==> exists|i: int|
            0 <= i < ns.len() && ns[i].node_id@ == k,
        routes_wf(ns) ==> forall|i: int|
            0 <= i < ns.len() ==> node_routes_map(ns)[#[trigger] ns[i].node_id@] == device_routes_map(
                ns[i].devices@,
            ),
    decreases ns.len(),
{
    if ns.len() > 0 {
        let p = ns.drop_last();
        lemma_node_routes_keys(p);
        assert forall|k: Seq<char>| #[trigger] node_routes_map(ns).contains_key(k) <==> exists|i: int|
            0 <= i < ns.len() && ns[i].node_id@ == k by {
            if node_routes_map(ns).contains_key(k) && k != ns.last().node_id@ {
                assert(node_routes_map(p).contains_key(k));
                let i = choose|i: int| 0 <= i < p.len() && p[i].node_id@ == k;
                assert(ns[i] == p[i]);
            }
            if k == ns.last().node_id@ {
                assert(ns[ns.len() - 1].node_id@ == k);
            }
            if exists|i: int| 0 <= i < ns.len() && ns[i].node_id@ == k {
                let i = choose|i: int| 0 <= i < ns.len() && ns[i].node_id@ == k;
                if i < ns.len() - 1 {
                    assert(p[i] == ns[i]);
                    assert(node_routes_map(p).contains_key(k));
                }
            }
        }
        if routes_wf(ns) {
            assert(routes_wf(p)) by {
                assert forall|a: int, b: int| 0 <= a < p.len() && 0 <= b < p.len() && a != b implies #[trigger] p[a].node_id@
                    != #[trigger] p[b].node_id@ by {
                    assert(p[a] == ns[a] && p[b] == ns[b]);
                }
                assert forall|a: int| 0 <= a < p.len() implies distinct_devices(#[trigger] p[a].devices@) by {
                    assert(p[a] == ns[a]);
                }
            }
            assert forall|i: int| 0 <= i < ns.len() implies node_routes_map(ns)[#[trigger] ns[i].node_id@]
                == device_routes_map(ns[i].devices@) by {
                if i < ns.len() - 1 {
                    assert(p[i] == ns[i]);
                    assert(ns[i].node_id@ != ns[ns.len() - 1].node_id@);
                }
            }
        }
    }
}

/// Records that device `client_id` of user `uid` is held by node `node_id`.
fn add_route(ns: &mut Vec<NodeRoute>, node_id: String, client_id: String, uid: UserId)
    requires
        routes_wf(old(ns)@),
    ensures
        routes_wf(final(ns)@),
        node_routes_map(final(ns)@) == ({
            let acc = node_routes_map(old(ns)@);
            let d = if acc.contains_key(node_id@) {
                acc[node_id@]
            } else {
                Map::empty()
            };
            acc.insert(node_id@, d.insert(client_id@, uid))
        }),
{
    let ghost orig = ns@;
    proof {
        lemma_node_routes_keys(orig);
    }
    let mut i: usize = 0;
    while i < ns.len()
        invariant
            i <= ns.len(),
            ns@ == orig,
            orig == old(ns)@,
            routes_wf(orig),
            forall|k: int| 0 <= k < i ==> #[trigger] ns@[k].node_id@ != node_id@,
        decreases ns.len() - i,
    {
        if ns[i].node_id == node_id {
            let mut nr = ns.remove(i);
            assert(nr == orig[i as int]);
            assert(distinct_devices(nr.devices@));
            upsert_device(&mut nr.devices, client_id, uid);
            ns.insert(i, nr);
            proof {
                assert(ns@ =~= orig.update(i as int, nr));
                lemma_node_routes_update(orig, i as int, nr);
                lemma_node_routes_keys(orig);
                assert(orig[i as int].node_id@ == node_id@);
                assert(node_routes_map(orig).contains_key(node_id@));
                assert(nr.node_id@ == node_id@);
                assert(node_routes_map(orig)[orig[i as int].node_id@] == device_routes_map(orig[i as int].devices@));
            }
            return;
        }
        i = i + 1;
    }
    proof {
        assert(!node_routes_map(orig).contains_key(node_id@)) by {
            if node_routes_map(orig).contains_key(node_id@) {
                let k = choose|k: int| 0 <= k < orig.len() && orig[k].node_id@ == node_id@;
                assert(ns@[k].node_id@ != node_id@);
            }
        }
    }
    let mut devices: Vec<DeviceRoute> = Vec::new();
    devices.push(DeviceRoute { client_id, uid });
    let ghost dv = devices@;
    assert(dv.drop_last() =~= Seq::<DeviceRoute>::empty());
    assert(device_routes_map(Seq::<DeviceRoute>::empty()) =~= Map::<Seq<char>, u64>::empty());
    assert(device_routes_map(dv) =~= Map::<Seq<char>, u64>::empty().insert(client_id@, uid));
    let nr = NodeRoute { node_id, devices };
    ns.push(nr);
    assert(ns@.drop_last() =~= orig);
    assert(ns@.last() == nr);
    assert(routes_wf(ns@)) by {
        assert forall|a: int, b: int| 0 <= a < ns@.len() && 0 <= b < ns@.len() && a != b implies #[trigger] ns@[a].node_id@
            != #[trigger] ns@[b].node_id@ by {
            if a < orig.len() && b < orig.len() {
                assert(ns@[a] == orig[a] && ns@[b] == orig[b]);
            } else if a < orig.len() {
                assert(ns@[a] == orig[a]);
            } else {
                assert(ns@[b] == orig[b]);
            }
        }
        assert forall|a: int| 0 <= a < ns@.len() implies distinct_devices(#[trigger] ns@[a].devices@) by {
            if a < orig.len() {
                assert(ns@[a] == orig[a]);
            }
        }
    }
}

/// The view of a list of routing-table entries `(field, node)`.
pub open spec fn entries_view(items: Seq<(String, String)>) -> Seq<(Seq<char>, Seq<char>)> {
    items.map_values(|e: (String, String)| (e.0@, e.1@))
}

/// With no target user, no entry counts.
pub proof fn lemma_group_routes_no_targets(
    items: Seq<(Seq<char>, Seq<char>)>,
    active: Seq<Seq<char>>,
    targets: Seq<u64>,
)
    requires
        targets.len() == 0,
    ensures
        group_routes_spec(items, active, targets) == Map::<Seq<char>, Map<Seq<char>, u64>>::empty(),
    decreases items.len(),
{
    if items.len() > 0 {
        lemma_group_routes_no_targets(items.drop_last(), active, targets);
    }
}

/// Groups the routing table's entries by node and device: an entry counts
/// when its node is active, its field reads back, and its user is one of
/// `uids`; later entries for the same device win.
pub fn find_node_device_user(
    items: &Vec<(String, String)>,
    active_nodes: &Vec<String>,
    uids: &Vec<UserId>,
) -> (r: Vec<NodeRoute>)
    ensures
        routes_wf(r@),
        node_routes_map(r@) == group_routes_spec(
            entries_view(items@),
            active_nodes.deep_view(),
            uids@,
        ),
{
    let ghost iv = entries_view(items@);
    let ghost av = active_nodes.deep_view();
    let mut result: Vec<NodeRoute> = Vec::new();
    if uids.len() == 0 {
        proof {
            lemma_group_routes_no_targets(iv, av, uids@);
        }
        assert(node_routes_map(result@) =~= Map::<Seq<char>, Map<Seq<char>, u64>>::empty());
        return result;
    }
    let mut i: usize = 0;
    while i < items.len()
        invariant
            i <= items.len(),
            iv == entries_view(items@),
            av == active_nodes.deep_view(),
            routes_wf(result@),
            node_routes_map(result@) == group_routes_spec(iv.take(i as int), av, uids@),
        decreases items.len() - i,
    {
        let ghost pre = iv.take(i as int);
        let ghost next = iv.take(i + 1);
        assert(next.drop_last() =~= pre);
        assert(next.last() == (items@[i as int].0@, items@[i as int].1@));
        let field = &items[i].0;
        let node_id = &items[i].1;
        if vec_contains_string(active_nodes, node_id) {
            match parse_route_field(field.as_str()) {
                Some((uid, client_id)) => {
                    if vec_contains_u64(uids, uid) {
                        add_route(&mut result, node_id.clone(), client_id, uid);
                    }
                },
                None => {},
            }
        }
        i = i + 1;
    }
    assert(iv.take(items.len() as int) =~= iv);
    result
}

/// The grouping reaches every live route to a target user, whatever other
/// entries come before or after it: when no later live target entry names the
/// same node and device, the node maps that device to that user.
pub proof fn lemma_group_routes_complete(
    items: Seq<(Seq<char>, Seq<char>)>,
    active: Seq<Seq<char>>,
    targets: Seq<u64>,
    j: int,
)
    requires
        0 <= j < items.len(),
        active.contains(items[j].1),
        parse_route_field_spec(items[j].0) is Some,
        targets.contains((parse_route_field_spec(items[j].0)->0).0),
        forall|k: int|
            j < k < items.len() && active.contains(#[trigger] items[k].1) && items[k].1 == items[j].1
                && parse_route_field_spec(items[k].0) is Some && targets.contains(
                (parse_route_field_spec(items[k].0)->0).0,
            ) ==> (parse_route_field_spec(items[k].0)->0).1 != (parse_route_field_spec(items[j].0)->0).1,
    ensures
        group_routes_spec(items, active, targets).contains_key(items[j].1),
        group_routes_spec(items, active, targets)[items[j].1].contains_key(
            (parse_route_field_spec(items[j].0)->0).1,
        ),
        group_routes_spec(items, active, targets)[items[j].1][(parse_route_field_spec(items[j].0)->0).1]
            == (parse_route_field_spec(items[j].0)->0).0,
    decreases items.len(),
{
    let last = items.len() - 1;
    let node = items[j].1;
    let p = parse_route_field_spec(items[j].0)->0;
    if j < last {
        let rest = items.drop_last();
        assert(rest[j] == items[j]);
        assert forall|k: int|
            j < k < rest.len() && active.contains(#[trigger] rest[k].1) && rest[k].1 == rest[j].1
                && parse_route_field_spec(rest[k].0) is Some && targets.contains(
                (parse_route_field_spec(rest[k].0)->0).0,
            ) implies (parse_route_field_spec(rest[k].0)->0).1 != (parse_route_field_spec(rest[j].0)->0).1 by {
            assert(rest[k] == items[k]);
            assert(active.contains(items[k].1));
        }
        lemma_group_routes_complete(rest, active, targets, j);
        let acc = group_routes_spec(rest, active, targets);
        let it = items[last];
        assert(group_routes_spec(items, active, targets) == route_step(acc, it, active, targets));
        if active.contains(it.1) && parse_route_field_spec(it.0) is Some && targets.contains(
            (parse_route_field_spec(it.0)->0).0,
        ) && it.1 == node {
            assert(active.contains(items[last].1));
            assert((parse_route_field_spec(it.0)->0).1 != p.1);
        }
    }
}

/// Every device that a push goes to comes from an entry of the routing table
/// for that node and device, the node is active, and the user is a target.
pub proof fn lemma_group_routes_sound(
    items: Seq<(Seq<char>, Seq<char>)>,
    active: Seq<Seq<char>>,
    targets: Seq<u64>,
    node: Seq<char>,
    cid: Seq<char>,
)
    requires
        group_routes_spec(items, active, targets).contains_key(node),
        group_routes_spec(items, active, targets)[node].contains_key(cid),
    ensures
        active.contains(node),
        targets.contains(group_routes_spec(items, active, targets)[node][cid]),
        exists|i: int|
            0 <= i < items.len() && #[trigger] items[i].1 == node && parse_route_field_spec(items[i].0)
                == Some((group_routes_spec(items, active, targets)[node][cid], cid)),
    decreases items.len(),
{
    let g = group_routes_spec(items, active, targets);
    let p = items.drop_last();
    let gp = group_routes_spec(p, active, targets);
    let (field, n) = items.last();
    let last = (items.len() - 1) as int;
    assert(items[last] == items.last());
    if gp.contains_key(node) && gp[node].contains_key(cid) && g[node][cid] == gp[node][cid] {
        lemma_group_routes_sound(p, active, targets, node, cid);
        let i = choose|i: int|
            0 <= i < p.len() && #[trigger] p[i].1 == node && parse_route_field_spec(p[i].0) == Some(
                (gp[node][cid], cid),
            );
        assert(items[i] == p[i]);
    } else {
        assert(items.len() > 0);
        assert(g != gp);
        assert(active.contains(n));
        let (uid, c) = parse_route_field_spec(field)->0;
        assert(targets.contains(uid));
        assert(node == n);
        assert(c == cid);
        assert(items[last].1 == node);
    }
}

/// Groups the routing table for a push to `uids` at time `now`, reading the
/// node's local copy first. While the copy of the whole table is fresh, its
/// fresh entries are grouped and the copy is left as it is. Otherwise `table`,
/// the routing table read from Redis, is grouped and replaces the local copy;
/// when it was not read (`None`), nothing is grouped and the caller reads it
/// and asks again. The sessions are untouched.
pub fn find_node_device_user_cached(
    manager: &mut SessionManager,
    uids: &Vec<UserId>,
    active_nodes: &Vec<String>,
    now: u64,
    table: Option<&Vec<(String, String)>>,
) -> (r: Option<Vec<NodeRoute>>)
    requires
        old(manager).wf(),
    ensures
        final(manager).wf(),
        final(manager)@ == old(manager)@,
        old(manager).route_cache().snapshot_fresh(now) ==> {
            &&& final(manager).route_cache() == old(manager).route_cache()
            &&& r matches Some(routes) && routes_wf(routes@) && exists|items: Seq<(Seq<char>, Seq<char>)>|
                #[trigger] old(manager).route_cache().lists_fresh(items, now) && node_routes_map(routes@)
                    == group_routes_spec(items, active_nodes.deep_view(), uids@)
        },
        !old(manager).route_cache().snapshot_fresh(now) ==> match table {
            Some(t) => {
                &&& final(manager).route_cache() == old(manager).route_cache().refreshed(entries_view(t@), now)
                &&& r matches Some(routes) && routes_wf(routes@) && node_routes_map(routes@)
                    == group_routes_spec(entries_view(t@), active_nodes.deep_view(), uids@)
            },
            None => r is None && final(manager).route_cache() == old(manager).route_cache(),
        },
{
    match manager.router_cache().lookup(now) {
        Some(items) => {
            let routes = find_node_device_user(&items, active_nodes, uids);
            assert(old(manager).route_cache().lists_fresh(entries_view(items@), now));
            Some(routes)
        },
        None => match table {
            Some(t) => {
                manager.refresh_router_cache(t, now);
                Some(find_node_device_user(t, active_nodes, uids))
            },
            None => None,
        },
    }
}

/// A service instance as the registry lists it: whether it is healthy, and
/// the node id in its metadata, if any.
pub struct ServiceInstance {
    /// Whether the instance is healthy.
    pub healthy: bool,
    /// The `nodeId` entry of its metadata.
    pub node_id: Option<String>,
}

/// Node `n` belongs to a healthy instance.
pub open spec fn is_active_node(instances: Seq<ServiceInstance>, n: Seq<char>) -> bool {
    exists|i: int|
        0 <= i < instances.len() && #[trigger] instances[i].healthy && opt_view(instances[i].node_id)
            == Some(n)
}

/// The ids of the active nodes: the node ids of the healthy instances, each
/// once; none when the service has no instance list.
pub fn get_all_active_nodes(instances: &Option<Vec<ServiceInstance>>) -> (r: Vec<String>)
    ensures
        instances is None ==> r.len() == 0,
        instances matches Some(list) ==> {
            &&& forall|k: int| 0 <= k < r.len() ==> is_active_node(list@, #[trigger] r@[k]@)
            &&& forall|n: Seq<char>| #[trigger] is_active_node(list@, n) ==> r.deep_view().contains(n)
        },
        forall|a: int, b: int|
            0 <= a < r.len() && 0 <= b < r.len() && a != b ==> #[trigger] r@[a]@ != #[trigger] r@[b]@,
{
    let mut result: Vec<String> = Vec::new();
    let list = match instances {
        Some(list) => list,
        None => {
            return result;
        },
    };
    let mut i: usize = 0;
    while i < list.len()
        invariant
            i <= list.len(),
            forall|k: int| 0 <= k < result.len() ==> is_active_node(list@, #[trigger] result@[k]@),
            forall|j: int|
                #![trigger list@[j]]
                0 <= j < i && list@[j].healthy && list@[j].node_id is Some ==> result.deep_view().contains(
                    list@[j].node_id->0@,
                ),
            forall|a: int, b: int|
                0 <= a < result.len() && 0 <= b < result.len() && a != b ==> #[trigger] result@[a]@
                    != #[trigger] result@[b]@,
        decreases list.len() - i,
    {
        if list[i].healthy {
            match &list[i].node_id {
                Some(id) => {
                    if !vec_contains_string(&result, id) {
                        let ghost before = result@;
                        let ghost bdv = result.deep_view();
                        result.push(id.clone());
                        proof {
                            assert(is_active_node(list@, id@)) by {
                                assert(list@[i as int].healthy);
                            }
                            assert forall|k: int| 0 <= k < result.len() implies is_active_node(
                                list@,
                                #[trigger] result@[k]@,
                            ) by {
                                if k < before.len() {
                                    assert(result@[k] == before[k]);
                                }
                            }
                            assert forall|j: int|
                                #![trigger list@[j]]
                                0 <= j < i + 1 && list@[j].healthy && list@[j].node_id is Some implies result.deep_view().contains(
                                list@[j].node_id->0@,
                            ) by {
                                if j < i {
                                    let k = choose|k: int|
                                        0 <= k < before.len() && before[k]@ == list@[j].node_id->0@;
                                    assert(result.deep_view()[k] == before[k]@);
                                } else {
                                    assert(result.deep_view()[before.len() as int] == id@);
                                }
                            }
                            assert forall|a: int, b: int|
                                0 <= a < result.len() && 0 <= b < result.len() && a != b implies #[trigger] result@[a]@
                                != #[trigger] result@[b]@ by {
                                if a < before.len() && b < before.len() {
                                    assert(result@[a] == before[a] && result@[b] == before[b]);
                                } else if a < before.len() {
                                    assert(result@[a] == before[a]);
                                    assert(bdv[a] == before[a]@);
                                    assert(result@[b]@ == id@);
                                } else if b < before.len() {
                                    assert(result@[b] == before[b]);
                                    assert(bdv[b] == before[b]@);
                                    assert(result@[a]@ == id@);
                                }
                            }
                        }
                    }
                },
                None => {},
            }
        }
        i = i + 1;
    }
    proof {
        assert forall|n: Seq<char>| #[trigger] is_active_node(list@, n) implies result.deep_view().contains(n) by {
            let j = choose|j: int|
                0 <= j < list@.len() && #[trigger] list@[j].healthy && opt_view(list@[j].node_id) == Some(n);
            assert(list@[j].healthy);
        }
    }
    result
}

/// The message-queue topic of a node.
pub open spec fn node_push_topic_spec(node_id: Seq<char>) -> Seq<char> {
    "push_topic_"@ + node_id
}

/// The message-queue topic of a node: `"push_topic_{node_id}"`.
pub fn node_push_topic(node_id: &str) -> (r: String)
    ensures
        r@ == node_push_topic_spec(node_id@),
{
    let mut s = String::from_str("push_topic_");
    s.append(node_id);
    s
}

/// What to do for one node of a push.
pub enum PushAction {
    /// This node holds the devices: push to each of these users here.
    Local { uids: Vec<UserId> },
    /// Another node holds the devices: publish to its topic, keyed by the
    /// sender, with the device-to-user map.
    Remote {
        node_id: String,
        topic: String,
        message_key: String,
        device_user_map: Vec<DeviceRoute>,
        hash_id: u64,
        uid: u64,
    },
}

/// The view of a device route.
pub open spec fn device_route_view(d: DeviceRoute) -> (Seq<char>, u64) {
    (d.client_id@, d.uid)
}

/// The action for node route `n` of a push sent by `cuid` from node `self_node`.
pub open spec fn push_action_spec(a: PushAction, n: NodeRoute, self_node: Seq<char>, cuid: u64) -> bool {
    if n.node_id@ == self_node {
        a matches PushAction::Local { uids } && uids@ == n.devices@.map_values(|d: DeviceRoute| d.uid)
    } else {
        a matches PushAction::Remote { node_id, topic, message_key, device_user_map, hash_id, uid }
            && node_id@ == n.node_id@ && topic@ == node_push_topic_spec(n.node_id@) && message_key@
            == decimal(cuid as nat) && device_user_map@.map_values(|d: DeviceRoute| device_route_view(d))
            == n.devices@.map_values(|d: DeviceRoute| device_route_view(d)) && hash_id == cuid && uid
            == cuid
    }
}

/// A node's action reaches all of the node's devices, each with its user, in
/// the node's order: a local push goes to the user of every device, and the
/// message for another node hands on every device with its user.
pub proof fn lemma_push_action_keeps_devices(a: PushAction, n: NodeRoute, self_node: Seq<char>, cuid: u64)
    requires
        push_action_spec(a, n, self_node, cuid),
    ensures
        n.node_id@ == self_node ==> (a matches PushAction::Local { uids } && uids@.len() == n.devices@.len()
            && forall|i: int| 0 <= i < uids@.len() ==> #[trigger] uids@[i] == n.devices@[i].uid),
        n.node_id@ != self_node ==> (a matches PushAction::Remote { device_user_map, .. }
            && device_user_map@.len() == n.devices@.len() && forall|i: int|
            0 <= i < device_user_map@.len() ==> #[trigger] device_user_map@[i].client_id@ == n.devices@[i].client_id@
                && device_user_map@[i].uid == n.devices@[i].uid),
{
    if n.node_id@ == self_node {
        if let PushAction::Local { uids } = a {
            let f = |d: DeviceRoute| d.uid;
            assert(uids@.len() == n.devices@.map_values(f).len());
            assert forall|i: int| 0 <= i < uids@.len() implies #[trigger] uids@[i] == n.devices@[i].uid by {
                assert(n.devices@.map_values(f)[i] == n.devices@[i].uid);
            }
        }
    } else {
        if let PushAction::Remote { device_user_map, .. } = a {
            let f = |d: DeviceRoute| device_route_view(d);
            assert(device_user_map@.map_values(f).len() == n.devices@.map_values(f).len());
            assert forall|i: int| 0 <= i < device_user_map@.len() implies #[trigger] device_user_map@[i].client_id@
                == n.devices@[i].client_id@ && device_user_map@[i].uid == n.devices@[i].uid by {
                assert(device_user_map@.map_values(f)[i] == n.devices@.map_values(f)[i]);
            }
        }
    }
}

/// Splits a push over the nodes that hold the devices: one action per node,
/// in the order given — a local push for this node, a message to the node's
/// topic for every other node.
pub fn plan_push(routes: Vec<NodeRoute>, self_node: &str, cuid: u64) -> (r: Vec<PushAction>)
    ensures
        r.len() == routes.len(),
        forall|k: int| 0 <= k < r.len() ==> push_action_spec(#[trigger] r@[k], routes@[k], self_node@, cuid),
        forall|k: int|
            0 <= k < r.len() && routes@[k].node_id@ != self_node@ ==> (#[trigger] r@[k] matches PushAction::Remote {
                device_user_map,
                ..
            } && device_user_map@.len() == routes@[k].devices@.len() && forall|i: int|
                0 <= i < device_user_map@.len() ==> #[trigger] device_user_map@[i].client_id@
                    == routes@[k].devices@[i].client_id@ && device_user_map@[i].uid == routes@[k].devices@[i].uid),
        forall|k: int|
            0 <= k < r.len() && routes@[k].node_id@ == self_node@ ==> (#[trigger] r@[k] matches PushAction::Local {
                uids,
            } && uids@.len() == routes@[k].devices@.len() && forall|i: int|
                0 <= i < uids@.len() ==> #[trigger] uids@[i] == routes@[k].devices@[i].uid),
{
    let ghost orig = routes@;
    let self_node_owned = String::from_str(self_node);
    let mut rest = routes;
    let mut result: Vec<PushAction> = Vec::new();
    while rest.len() > 0
        invariant
            result.len() + rest.len() == orig.len(),
            self_node_owned@ == self_node@,
            rest@ == orig.subrange(result.len() as int, orig.len() as int),
            forall|k: int| 0 <= k < result.len() ==> push_action_spec(#[trigger] result@[k], orig[k], self_node@, cuid),
        decreases rest.len(),
    {
        let n = rest.remove(0);
        let ghost k = result.len() as int;
        assert(n == orig[k]);
        let ghost before = result@;
        let NodeRoute { node_id, devices } = n;
        let action = if node_id == self_node_owned {
            let mut uids: Vec<UserId> = Vec::new();
            let mut j: usize = 0;
            while j < devices.len()
                invariant
                    j <= devices.len(),
                    uids@ == devices@.take(j as int).map_values(|d: DeviceRoute| d.uid),
                decreases devices.len() - j,
            {
                uids.push(devices[j].uid);
                assert(devices@.take(j + 1).map_values(|d: DeviceRoute| d.uid) =~= devices@.take(
                    j as int,
                ).map_values(|d: DeviceRoute| d.uid).push(devices@[j as int].uid));
                j = j + 1;
            }
            assert(devices@.take(devices.len() as int) =~= devices@);
            PushAction::Local { uids }
        } else {
            let topic = node_push_topic(node_id.as_str());
            let message_key = u64_to_decimal(cuid);
            PushAction::Remote { node_id, topic, message_key, device_user_map: devices, hash_id: cuid, uid: cuid }
        };
        result.push(action);
        proof {
            assert forall|i: int| 0 <= i < result.len() implies push_action_spec(
                #[trigger] result@[i],
                orig[i],
                self_node@,
                cuid,
            ) by {
                if i < before.len() {
                    assert(result@[i] == before[i]);
                }
            }
            assert(rest@ =~= orig.subrange(result.len() as int, orig.len() as int));
        }
    }
    proof {
        assert forall|k: int| 0 <= k < result.len() implies {
            &&& orig[k].node_id@ != self_node@ ==> (#[trigger] result@[k] matches PushAction::Remote {
                device_user_map,
                ..
            } && device_user_map@.len() == orig[k].devices@.len() && forall|i: int|
                0 <= i < device_user_map@.len() ==> #[trigger] device_user_map@[i].client_id@
                    == orig[k].devices@[i].client_id@ && device_user_map@[i].uid == orig[k].devices@[i].uid)
            &&& orig[k].node_id@ == self_node@ ==> (result@[k] matches PushAction::Local { uids }
                && uids@.len() == orig[k].devices@.len() && forall|i: int|
                0 <= i < uids@.len() ==> #[trigger] uids@[i] == orig[k].devices@[i].uid)
        } by {
            lemma_push_action_keeps_devices(result@[k], orig[k], self_node@, cuid);
        }
    }
    result
}

/// Whether a push has anyone to go to.
pub fn should_push(uid_list: &Vec<UserId>) -> (r: bool)
    ensures
        r == (uid_list.len() > 0),
{
    uid_list.len() > 0
}

/// The number of concurrent local deliveries: one per user, at most 32.
pub fn local_push_parallelism(n: usize) -> (r: usize)
    ensures
        r == if n < 32 {
            n
        } else {
            32
        },
{
    if n < 32 {
        n
    } else {
        32
    }
}

/// The number of users reached: those to whom at least one session got the
/// message.
pub open spec fn delivered_count(sent: Seq<usize>) -> nat
    decreases sent.len(),
{
    if sent.len() == 0 {
        0
    } else {
        delivered_count(sent.drop_last()) + if sent.last() > 0 {
            1nat
        } else {
            0nat
        }
    }
}

/// Counts the users reached by a local push, from how many sessions got the
/// message for each user.
pub fn count_delivered(sent: &Vec<usize>) -> (r: usize)
    ensures
        r == delivered_count(sent@),
{
    let mut count: usize = 0;
    let mut i: usize = 0;
    while i < sent.len()
        invariant
            i <= sent.len(),
            count == delivered_count(sent@.take(i as int)),
            count <= i,
        decreases sent.len() - i,
    {
        assert(sent@.take(i + 1).drop_last() =~= sent@.take(i as int));
        if sent[i] > 0 {
            count = count + 1;
        }
        i = i + 1;
    }
    assert(sent@.take(sent.len() as int) =~= sent@);
    count
}

} // verus!
