//! The session manager: which sessions are open, and for each user which
//! client devices carry which sessions. Registering and cleaning up sessions
//! also tells the caller when a device's route has to be written to, or
//! removed from, the shared routing table.
use vstd::prelude::*;
use dashmap::DashMap;
use crate::session::{heartbeat_expired, heartbeat_expired_spec, Session, SessionView};
use crate::session_tables::{
    device_table, devices_entries, devices_get, devices_insert, devices_is_empty, devices_new,
    devices_remove, session_client_table, session_clients_insert, session_clients_new,
    session_clients_remove, session_table, session_user_table, session_users_insert,
    session_users_new, session_users_remove, sessions_entries, sessions_get, sessions_insert,
    sessions_len, sessions_new, sessions_remove, user_device_table, users_entries, users_get,
    users_insert, users_new, users_remove,
};
use crate::text::vec_contains_string;
use crate::local_router_cache::{DEFAULT_ROUTER_CACHE_TTL_SECS, LocalRouterCache, LocalRouterCacheView};
use crate::push_routing::{entries_view, route_field, route_field_spec};
use crate::types::{ClientId, SessionId, UserId};

verus! {

/// A user's client devices, each with the ids of its sessions.
pub type DeviceSessions = Map<Seq<char>, Seq<Seq<char>>>;

/// The view of the session manager.
pub struct SessionManagerView {
    /// Session id to session.
    pub sessions: Map<Seq<char>, SessionView>,
    /// User to client devices to session ids.
    pub devices: Map<u64, DeviceSessions>,
    /// Session id to its user.
    pub session_user: Map<Seq<char>, u64>,
    /// Session id to its client device.
    pub session_client: Map<Seq<char>, Seq<char>>,
    /// Whether new connections are accepted.
    pub accepting: bool,
    /// The id of this node.
    pub node_id: Seq<char>,
}

/// The devices of a user; none for an unknown user.
pub open spec fn devices_of(v: SessionManagerView, uid: u64) -> DeviceSessions {
    if v.devices.contains_key(uid) {
        v.devices[uid]
    } else {
        Map::empty()
    }
}

/// The sessions of a device; none for an unknown device.
pub open spec fn sessions_on(d: DeviceSessions, cid: Seq<char>) -> Seq<Seq<char>> {
    if d.contains_key(cid) {
        d[cid]
    } else {
        seq![]
    }
}

/// `s` with `x` added at the end unless it already holds it.
pub open spec fn add_unique(s: Seq<Seq<char>>, x: Seq<char>) -> Seq<Seq<char>> {
    if s.contains(x) {
        s
    } else {
        s.push(x)
    }
}

/// `s` without any occurrence of `x`, the rest in order.
pub open spec fn remove_value(s: Seq<Seq<char>>, x: Seq<char>) -> Seq<Seq<char>>
    decreases s.len(),
{
    if s.len() == 0 {
        s
    } else {
        let r = remove_value(s.drop_last(), x);
        if s.last() == x {
            r
        } else {
            r.push(s.last())
        }
    }
}

/// The number of session ids over all devices of a map.
pub open spec fn total_len(m: DeviceSessions) -> nat
    decreases m.dom().len(),
    when m.dom().finite()
{
    if m.dom().len() == 0 {
        0
    } else {
        let k = m.dom().choose();
        m[k].len() + total_len(m.remove(k))
    }
}

/// A count as a `usize` would hold it, the largest `usize` standing for more.
pub open spec fn saturate(n: nat) -> usize {
    if n <= usize::MAX {
        n as usize
    } else {
        usize::MAX
    }
}

/// Taking any one device out of the count: the total is that device's
/// sessions plus the total of the others.
pub proof fn lemma_total_len_remove(m: DeviceSessions, k: Seq<char>)
    requires
        m.dom().finite(),
        m.contains_key(k),
    ensures
        total_len(m) == m[k].len() + total_len(m.remove(k)),
    decreases m.dom().len(),
{
    let c = m.dom().choose();
    assert(m.dom().contains(c));
    if c != k {
        let mc = m.remove(c);
        let mk = m.remove(k);
        lemma_total_len_remove(mc, k);
        lemma_total_len_remove(mk, c);
        assert(mc.remove(k) =~= mk.remove(c));
    }
}

/// The total is zero exactly when every device has no session.
pub proof fn lemma_total_len_zero(m: DeviceSessions)
    requires
        m.dom().finite(),
    ensures
        total_len(m) == 0 <==> forall|k: Seq<char>| #[trigger] m.contains_key(k) ==> m[k].len() == 0,
    decreases m.dom().len(),
{
    if m.dom().len() != 0 {
        let c = m.dom().choose();
        assert(m.dom().contains(c));
        lemma_total_len_zero(m.remove(c));
        if total_len(m) == 0 {
            assert forall|k: Seq<char>| #[trigger] m.contains_key(k) implies m[k].len() == 0 by {
                if k != c {
                    assert(m.remove(c).contains_key(k));
                }
            }
        }
    } else {
        assert forall|k: Seq<char>| #[trigger] m.contains_key(k) implies m[k].len() == 0 by {
            assert(m.dom().contains(k));
        }
    }
}

/// The sum of the session counts in a list of device entries.
pub open spec fn entries_total(es: Seq<(Seq<char>, Seq<Seq<char>>)>) -> nat
    decreases es.len(),
{
    if es.len() == 0 {
        0
    } else {
        entries_total(es.drop_last()) + es.last().1.len()
    }
}

/// `es` lists every entry of `m` exactly once.
pub open spec fn lists_entries(es: Seq<(Seq<char>, Seq<Seq<char>>)>, m: DeviceSessions) -> bool {
    &&& forall|i: int| 0 <= i < es.len() ==> m.contains_key(#[trigger] es[i].0) && m[es[i].0] == es[i].1
    &&& forall|i: int, j: int|
        0 <= i < es.len() && 0 <= j < es.len() && i != j ==> #[trigger] es[i].0 != #[trigger] es[j].0
    &&& forall|k: Seq<char>| #[trigger] m.contains_key(k) ==> exists|i: int| 0 <= i < es.len() && es[i].0 == k
}

/// Summing a complete listing of the entries gives the total.
pub proof fn lemma_entries_total(es: Seq<(Seq<char>, Seq<Seq<char>>)>, m: DeviceSessions)
    requires
        m.dom().finite(),
        lists_entries(es, m),
    ensures
        entries_total(es) == total_len(m),
    decreases es.len(),
{
    if es.len() == 0 {
        assert(m.dom() =~= Set::<Seq<char>>::empty()) by {
            assert forall|k: Seq<char>| !m.dom().contains(k) by {
                if m.contains_key(k) {
                    let i = choose|i: int| 0 <= i < es.len() && es[i].0 == k;
                }
            }
        }
    } else {
        let last = es.last();
        let rest = es.drop_last();
        let n = (es.len() - 1) as int;
        assert(es[n] == last);
        assert(m.contains_key(last.0));
        let mr = m.remove(last.0);
        assert(lists_entries(rest, mr)) by {
            assert forall|i: int| 0 <= i < rest.len() implies mr.contains_key(#[trigger] rest[i].0)
                && mr[rest[i].0] == rest[i].1 by {
                assert(rest[i] == es[i]);
                assert(es[i].0 != es[n].0);
            }
            assert forall|i: int, j: int|
                0 <= i < rest.len() && 0 <= j < rest.len() && i != j implies #[trigger] rest[i].0
                != #[trigger] rest[j].0 by {
                assert(rest[i] == es[i]);
                assert(rest[j] == es[j]);
            }
            assert forall|k: Seq<char>| #[trigger] mr.contains_key(k) implies exists|i: int|
                0 <= i < rest.len() && rest[i].0 == k by {
                assert(m.contains_key(k));
                let i = choose|i: int| 0 <= i < es.len() && es[i].0 == k;
                assert(i != n);
                assert(rest[i] == es[i]);
            }
        }
        lemma_entries_total(rest, mr);
        lemma_total_len_remove(m, last.0);
    }
}

/// Removing a value that is absent changes nothing.
pub proof fn lemma_remove_absent(s: Seq<Seq<char>>, x: Seq<char>)
    requires
        !s.contains(x),
    ensures
        remove_value(s, x) == s,
    decreases s.len(),
{
    if s.len() > 0 {
        assert(!s.drop_last().contains(x)) by {
            if s.drop_last().contains(x) {
                let k = choose|k: int| 0 <= k < s.drop_last().len() && s.drop_last()[k] == x;
                assert(s[k] == x);
            }
        }
        lemma_remove_absent(s.drop_last(), x);
        assert(s.last() != x) by {
            assert(s[s.len() - 1] == s.last());
        }
        assert(s.drop_last().push(s.last()) =~= s);
    }
}

/// What is left after removing `x`: exactly the other values of `s`, still
/// without duplicates, and one fewer when `x` occurred once.
pub proof fn lemma_remove_value(s: Seq<Seq<char>>, x: Seq<char>)
    ensures
        forall|y: Seq<char>| #[trigger] remove_value(s, x).contains(y) <==> (s.contains(y) && y != x),
        s.no_duplicates() ==> remove_value(s, x).no_duplicates(),
        s.no_duplicates() && s.contains(x) ==> remove_value(s, x).len() + 1 == s.len(),
        remove_value(s, x).len() <= s.len(),
    decreases s.len(),
{
    if s.len() > 0 {
        let p = s.drop_last();
        let r = remove_value(p, x);
        lemma_remove_value(p, x);
        assert forall|y: Seq<char>| #[trigger] s.contains(y) <==> (p.contains(y) || y == s.last()) by {
            if s.contains(y) {
                let k = choose|k: int| 0 <= k < s.len() && s[k] == y;
                if k < s.len() - 1 {
                    assert(p[k] == y);
                }
            }
            if p.contains(y) {
                let k = choose|k: int| 0 <= k < p.len() && p[k] == y;
                assert(s[k] == y);
            }
            if y == s.last() {
                assert(s[s.len() - 1] == y);
            }
        }
        if s.last() != x {
            assert forall|y: Seq<char>| #[trigger] r.push(s.last()).contains(y) <==> (r.contains(y)
                || y == s.last()) by {
                if r.push(s.last()).contains(y) {
                    let k = choose|k: int| 0 <= k < r.push(s.last()).len() && r.push(s.last())[k] == y;
                    if k < r.len() {
                        assert(r[k] == y);
                    }
                }
                if r.contains(y) {
                    let k = choose|k: int| 0 <= k < r.len() && r[k] == y;
                    assert(r.push(s.last())[k] == y);
                }
                if y == s.last() {
                    assert(r.push(s.last())[r.len() as int] == y);
                }
            }
        }
        if s.no_duplicates() {
            assert(p.no_duplicates()) by {
                assert forall|i: int, j: int| 0 <= i < p.len() && 0 <= j < p.len() && i != j implies p[i]
                    != p[j] by {
                    assert(p[i] == s[i]);
                    assert(p[j] == s[j]);
                }
            }
            assert(!p.contains(s.last())) by {
                if p.contains(s.last()) {
                    let k = choose|k: int| 0 <= k < p.len() && p[k] == s.last();
                    assert(s[k] == s[s.len() - 1]);
                }
            }
            if s.last() != x {
                assert(!r.contains(s.last()));
                assert(r.push(s.last()).no_duplicates()) by {
                    let q = r.push(s.last());
                    assert forall|i: int, j: int| 0 <= i < q.len() && 0 <= j < q.len() && i != j implies q[i]
                        != q[j] by {
                        if i < r.len() && j < r.len() {
                            assert(q[i] == r[i] && q[j] == r[j]);
                        } else if i < r.len() {
                            assert(q[i] == r[i]);
                            assert(r.contains(r[i]));
                        } else if j < r.len() {
                            assert(q[j] == r[j]);
                            assert(r.contains(r[j]));
                        }
                    }
                }
            } else {
                if s.contains(x) {
                    lemma_remove_absent(p, x);
                }
            }
        }
    }
}

/// Every entry of the session table is indexed under its user and device.
pub open spec fn session_indexed(v: SessionManagerView, id: Seq<char>) -> bool {
    let s = v.sessions[id];
    &&& s.id == id
    &&& v.devices.contains_key(s.uid)
    &&& v.devices[s.uid].contains_key(s.client_id)
    &&& v.devices[s.uid][s.client_id].contains(id)
    &&& v.session_user.contains_key(id)
    &&& v.session_user[id] == s.uid
    &&& v.session_client.contains_key(id)
    &&& v.session_client[id] == s.client_id
}

/// Every device entry is a non-empty list of distinct ids of open sessions of
/// that user on that device.
pub open spec fn device_entry_ok(v: SessionManagerView, uid: u64, cid: Seq<char>) -> bool {
    let ids = v.devices[uid][cid];
    &&& ids.len() > 0
    &&& ids.no_duplicates()
    &&& forall|i: int|
        0 <= i < ids.len() ==> {
            &&& v.sessions.contains_key(#[trigger] ids[i])
            &&& v.sessions[ids[i]].uid == uid
            &&& v.sessions[ids[i]].client_id == cid
        }
}

impl SessionManagerView {
    /// The invariant of the session manager: the session table, the per-user
    /// device index and the two reverse indexes describe the same sessions,
    /// and no user or device entry is left empty.
    pub open spec fn wf(self) -> bool {
        &&& self.sessions.dom().finite()
        &&& self.devices.dom().finite()
        &&& forall|id: Seq<char>| #[trigger]
            self.sessions.contains_key(id) ==> session_indexed(self, id)
        &&& forall|id: Seq<char>| #[trigger]
            self.session_user.contains_key(id) ==> self.sessions.contains_key(id)
        &&& forall|id: Seq<char>| #[trigger]
            self.session_client.contains_key(id) ==> self.sessions.contains_key(id)
        &&& forall|uid: u64| #[trigger]
            self.devices.contains_key(uid) ==> {
                &&& self.devices[uid].dom().finite()
                &&& !self.devices[uid].dom().is_empty()
            }
        &&& forall|uid: u64, cid: Seq<char>|
            self.devices.contains_key(uid) && #[trigger] self.devices[uid].contains_key(cid)
                ==> device_entry_ok(self, uid, cid)
    }

    /// Registering `s` keeps the invariant: its id is new, or already belongs
    /// to the same user and device.
    pub open spec fn may_register(self, s: SessionView) -> bool {
        !self.sessions.contains_key(s.id) || (self.sessions[s.id].uid == s.uid
            && self.sessions[s.id].client_id == s.client_id)
    }

    /// The state after registering session `s`.
    pub open spec fn after_register(self, s: SessionView) -> SessionManagerView {
        let d = devices_of(self, s.uid);
        SessionManagerView {
            sessions: self.sessions.insert(s.id, s),
            devices: self.devices.insert(
                s.uid,
                d.insert(s.client_id, add_unique(sessions_on(d, s.client_id), s.id)),
            ),
            session_user: self.session_user.insert(s.id, s.uid),
            session_client: self.session_client.insert(s.id, s.client_id),
            ..self
        }
    }

    /// Registering `s` opens the first session of its device, so that the
    /// device's route has to be written.
    pub open spec fn registers_first_device(self, s: SessionView) -> bool {
        sessions_on(devices_of(self, s.uid), s.client_id).len() == 0
    }

    /// The user's devices once session `id` is taken off device `cid`.
    pub open spec fn devices_without(self, uid: u64, cid: Seq<char>, id: Seq<char>) -> DeviceSessions {
        let d = self.devices[uid];
        if d.contains_key(cid) {
            d.insert(cid, remove_value(d[cid], id))
        } else {
            d
        }
    }

    /// Whether cleaning up session `id` takes the last session off its device.
    pub open spec fn clears_device(self, id: Seq<char>) -> bool {
        self.sessions.contains_key(id) && self.empties_device(
            self.sessions[id].uid,
            self.sessions[id].client_id,
            id,
        )
    }

    /// Whether cleaning up session `id` empties its device entry.
    pub open spec fn empties_device(self, uid: u64, cid: Seq<char>, id: Seq<char>) -> bool {
        let d = self.devices[uid];
        d.contains_key(cid) && d[cid].len() == 1 && d[cid].contains(id)
    }

    /// The device index after cleaning up session `id` of user `uid` on
    /// device `cid`.
    pub open spec fn devices_after_cleanup(self, uid: u64, cid: Seq<char>, id: Seq<char>) -> Map<
        u64,
        DeviceSessions,
    > {
        if !self.devices.contains_key(uid) {
            self.devices
        } else {
            let d1 = self.devices_without(uid, cid, id);
            if self.empties_device(uid, cid, id) {
                let d2 = d1.remove(cid);
                if d2.dom().is_empty() {
                    self.devices.remove(uid)
                } else {
                    self.devices.insert(uid, d2)
                }
            } else {
                self.devices.insert(uid, d1)
            }
        }
    }

    /// The state after cleaning up session `id`; nothing changes for an
    /// unknown id.
    pub open spec fn after_cleanup(self, id: Seq<char>) -> SessionManagerView {
        if !self.sessions.contains_key(id) {
            self
        } else {
            let s = self.sessions[id];
            SessionManagerView {
                sessions: self.sessions.remove(id),
                devices: self.devices_after_cleanup(s.uid, s.client_id, id),
                session_user: self.session_user.remove(id),
                session_client: self.session_client.remove(id),
                ..self
            }
        }
    }

    /// The ids listed for a device that are open sessions, in order.
    pub open spec fn live_ids(self, ids: Seq<Seq<char>>) -> Seq<Seq<char>>
        decreases ids.len(),
    {
        if ids.len() == 0 {
            ids
        } else {
            let r = self.live_ids(ids.drop_last());
            if self.sessions.contains_key(ids.last()) {
                r.push(ids.last())
            } else {
                r
            }
        }
    }

    /// Session `id` is listed under one of the devices of user `uid`.
    pub open spec fn listed_for_user(self, uid: u64, id: Seq<char>) -> bool {
        exists|cid: Seq<char>|
            #![trigger devices_of(self, uid)[cid]]
            devices_of(self, uid).contains_key(cid) && devices_of(self, uid)[cid].contains(id)
    }

    /// Device `cid` is a device of some user.
    pub open spec fn has_device(self, cid: Seq<char>) -> bool {
        exists|uid: u64| #[trigger] self.devices.contains_key(uid) && self.devices[uid].contains_key(cid)
    }

    /// `ids` lists the devices of all users, device `ids[k]` being one of
    /// user `owners[k]`: each pair of a user and one of its devices once.
    pub open spec fn lists_user_devices(self, ids: Seq<Seq<char>>, owners: Seq<u64>) -> bool {
        &&& owners.len() == ids.len()
        &&& forall|k: int|
            #![trigger owners[k]]
            0 <= k < ids.len() ==> self.devices.contains_key(owners[k]) && self.devices[owners[k]].contains_key(
                ids[k],
            )
        &&& forall|a: int, b: int|
            #![trigger owners[a], owners[b]]
            0 <= a < ids.len() && 0 <= b < ids.len() && a != b ==> owners[a] != owners[b] || ids[a] != ids[b]
        &&& forall|uid: u64, cid: Seq<char>|
            self.devices.contains_key(uid) && #[trigger] self.devices[uid].contains_key(cid) ==> exists|k: int|
                0 <= k < ids.len() && owners[k] == uid && ids[k] == cid
    }

    /// Session `id` has been silent for too long at time `now`.
    pub open spec fn expired(self, id: Seq<char>, now: u64) -> bool {
        heartbeat_expired_spec(now, self.sessions[id].last_seen)
    }

    /// The number of sessions the user of session `id` keeps on all devices
    /// once `id` is taken off its device.
    pub open spec fn remaining_after_cleanup(self, id: Seq<char>) -> nat {
        let s = self.sessions[id];
        if self.devices.contains_key(s.uid) {
            total_len(self.devices_without(s.uid, s.client_id, id))
        } else {
            0
        }
    }
}

/// Cleaning up an open session leaves its user with one session fewer than
/// it has over all its devices now, wherever the session stands in its
/// device's list.
pub proof fn lemma_remaining_is_one_fewer(v: SessionManagerView, id: Seq<char>)
    requires
        v.wf(),
        v.sessions.contains_key(id),
    ensures
        v.remaining_after_cleanup(id) + 1 == total_len(devices_of(v, v.sessions[id].uid)),
{
    let s = v.sessions[id];
    assert(session_indexed(v, id));
    let d = v.devices[s.uid];
    assert(device_entry_ok(v, s.uid, s.client_id));
    lemma_remove_value(d[s.client_id], id);
    let d1 = v.devices_without(s.uid, s.client_id, id);
    assert(d1.dom() =~= d.dom());
    lemma_total_len_remove(d, s.client_id);
    lemma_total_len_remove(d1, s.client_id);
    assert(d1.remove(s.client_id) =~= d.remove(s.client_id));
}

/// Registering a session whose id is new, or already belongs to the same user
/// and device, keeps the invariant.
pub proof fn lemma_register_preserves_wf(v: SessionManagerView, s: SessionView)
    requires
        v.wf(),
        v.may_register(s),
    ensures
        v.after_register(s).wf(),
{
    let w = v.after_register(s);
    let d = devices_of(v, s.uid);
    let old_ids = sessions_on(d, s.client_id);
    let new_ids = add_unique(old_ids, s.id);
    assert(v.devices.contains_key(s.uid) ==> d == v.devices[s.uid]);
    assert(d.dom().finite()) by {
        if !v.devices.contains_key(s.uid) {
            assert(d.dom() =~= Set::<Seq<char>>::empty());
        }
    }
    assert(new_ids.contains(s.id)) by {
        if !old_ids.contains(s.id) {
            assert(new_ids[old_ids.len() as int] == s.id);
        }
    }
    assert forall|x: Seq<char>| #[trigger] old_ids.contains(x) implies new_ids.contains(x) by {
        if !old_ids.contains(s.id) {
            let k = choose|k: int| 0 <= k < old_ids.len() && old_ids[k] == x;
            assert(new_ids[k] == x);
        }
    }
    assert forall|id: Seq<char>| #[trigger] w.sessions.contains_key(id) implies session_indexed(w, id) by {
        if id != s.id {
            assert(session_indexed(v, id));
            let s2 = v.sessions[id];
            if s2.uid == s.uid && s2.client_id == s.client_id {
                assert(old_ids.contains(id));
            }
        }
    }
    assert forall|uid: u64, cid: Seq<char>|
        w.devices.contains_key(uid) && #[trigger] w.devices[uid].contains_key(cid) implies device_entry_ok(
        w,
        uid,
        cid,
    ) by {
        if uid == s.uid && cid == s.client_id {
            let ids = new_ids;
            assert(w.devices[uid][cid] == ids);
            if old_ids.contains(s.id) {
                assert(d.contains_key(cid));
                assert(device_entry_ok(v, uid, cid));
            } else {
                if d.contains_key(cid) {
                    assert(device_entry_ok(v, uid, cid));
                }
                assert(old_ids.no_duplicates());
                assert(ids.no_duplicates()) by {
                    assert forall|i: int, j: int| 0 <= i < ids.len() && 0 <= j < ids.len() && i != j implies ids[i]
                        != ids[j] by {
                        if i < old_ids.len() && j < old_ids.len() {
                            assert(ids[i] == old_ids[i] && ids[j] == old_ids[j]);
                        } else if i < old_ids.len() {
                            assert(ids[i] == old_ids[i]);
                            assert(old_ids.contains(old_ids[i]));
                        } else if j < old_ids.len() {
                            assert(ids[j] == old_ids[j]);
                            assert(old_ids.contains(old_ids[j]));
                        }
                    }
                }
            }
            assert forall|i: int| 0 <= i < ids.len() implies {
                &&& w.sessions.contains_key(#[trigger] ids[i])
                &&& w.sessions[ids[i]].uid == uid
                &&& w.sessions[ids[i]].client_id == cid
            } by {
                if ids[i] != s.id {
                    assert(i < old_ids.len());
                    assert(ids[i] == old_ids[i]);
                    assert(device_entry_ok(v, uid, cid));
                }
            }
        } else {
            assert(v.devices.contains_key(uid) && v.devices[uid].contains_key(cid));
            assert(w.devices[uid][cid] == v.devices[uid][cid]);
            assert(device_entry_ok(v, uid, cid));
            let ids = v.devices[uid][cid];
            assert forall|i: int| 0 <= i < ids.len() implies {
                &&& w.sessions.contains_key(#[trigger] ids[i])
                &&& w.sessions[ids[i]].uid == uid
                &&& w.sessions[ids[i]].client_id == cid
            } by {
                assert(v.sessions.contains_key(ids[i]));
                if ids[i] == s.id {
                    assert(v.sessions[s.id].uid == s.uid && v.sessions[s.id].client_id == s.client_id);
                }
            }
        }
    }
    assert forall|uid: u64| #[trigger] w.devices.contains_key(uid) implies {
        &&& w.devices[uid].dom().finite()
        &&& !w.devices[uid].dom().is_empty()
    } by {
        if uid == s.uid {
            assert(w.devices[uid].dom().contains(s.client_id));
        }
    }
}

/// Cleaning up a session keeps the invariant.
pub proof fn lemma_cleanup_preserves_wf(v: SessionManagerView, id: Seq<char>)
    requires
        v.wf(),
    ensures
        v.after_cleanup(id).wf(),
{
    if v.sessions.contains_key(id) {
        let w = v.after_cleanup(id);
        let s = v.sessions[id];
        let uid0 = s.uid;
        let cid0 = s.client_id;
        assert(session_indexed(v, id));
        let d = v.devices[uid0];
        assert(device_entry_ok(v, uid0, cid0));
        let ids0 = d[cid0];
        lemma_remove_value(ids0, id);
        let d1 = v.devices_without(uid0, cid0, id);
        let empties = v.empties_device(uid0, cid0, id);
        assert(!empties ==> remove_value(ids0, id).len() > 0);
        assert forall|id2: Seq<char>| #[trigger] w.sessions.contains_key(id2) implies session_indexed(w, id2) by {
            assert(session_indexed(v, id2));
            let s2 = v.sessions[id2];
            if s2.uid == uid0 && s2.client_id == cid0 {
                assert(remove_value(ids0, id).contains(id2));
                if empties {
                    let k = choose|k: int| 0 <= k < ids0.len() && ids0[k] == id2;
                    assert(ids0[0] == id);
                }
            } else if s2.uid == uid0 {
                assert(d1.contains_key(s2.client_id));
            }
        }
        assert forall|uid: u64, cid: Seq<char>|
            w.devices.contains_key(uid) && #[trigger] w.devices[uid].contains_key(cid) implies device_entry_ok(
            w,
            uid,
            cid,
        ) by {
            assert(v.devices.contains_key(uid) && v.devices[uid].contains_key(cid));
            assert(device_entry_ok(v, uid, cid));
            let ids = w.devices[uid][cid];
            if uid == uid0 && cid == cid0 {
                assert(ids == remove_value(ids0, id));
            } else {
                assert(ids == v.devices[uid][cid]);
            }
            assert forall|i: int| 0 <= i < ids.len() implies {
                &&& w.sessions.contains_key(#[trigger] ids[i])
                &&& w.sessions[ids[i]].uid == uid
                &&& w.sessions[ids[i]].client_id == cid
            } by {
                if uid == uid0 && cid == cid0 {
                    assert(remove_value(ids0, id).contains(ids[i]));
                    let k = choose|k: int| 0 <= k < ids0.len() && ids0[k] == ids[i];
                } else {
                    assert(v.sessions.contains_key(ids[i]));
                }
            }
        }
        assert forall|uid: u64| #[trigger] w.devices.contains_key(uid) implies {
            &&& w.devices[uid].dom().finite()
            &&& !w.devices[uid].dom().is_empty()
        } by {
            if uid == uid0 {
                if !empties {
                    assert(w.devices[uid].dom().contains(cid0));
                }
            }
        }
    }
}

/// Registering a new session and then cleaning it up gives back the state
/// before the registration; the user keeps exactly the sessions it had.
pub proof fn lemma_register_then_cleanup(v: SessionManagerView, s: SessionView)
    requires
        v.wf(),
        !v.sessions.contains_key(s.id),
    ensures
        v.after_register(s).after_cleanup(s.id) == v,
        v.after_register(s).remaining_after_cleanup(s.id) == total_len(devices_of(v, s.uid)),
{
    let w = v.after_register(s);
    let d = devices_of(v, s.uid);
    let old_ids = sessions_on(d, s.client_id);
    assert(!old_ids.contains(s.id)) by {
        if old_ids.contains(s.id) {
            let k = choose|k: int| 0 <= k < old_ids.len() && old_ids[k] == s.id;
            assert(device_entry_ok(v, s.uid, s.client_id));
        }
    }
    assert(add_unique(old_ids, s.id) == old_ids.push(s.id));
    lemma_remove_absent(old_ids, s.id);
    assert(old_ids.push(s.id).drop_last() =~= old_ids);
    assert(remove_value(old_ids.push(s.id), s.id) == old_ids);
    assert(d.dom().finite()) by {
        if !v.devices.contains_key(s.uid) {
            assert(d.dom() =~= Set::<Seq<char>>::empty());
        }
    }
    let d1 = w.devices_without(s.uid, s.client_id, s.id);
    assert(d1 == d.insert(s.client_id, old_ids));
    let r = w.after_cleanup(s.id);
    assert(r.sessions =~= v.sessions);
    assert(!v.session_user.contains_key(s.id));
    assert(!v.session_client.contains_key(s.id));
    assert(r.session_user =~= v.session_user);
    assert(r.session_client =~= v.session_client);
    if d.contains_key(s.client_id) {
        assert(device_entry_ok(v, s.uid, s.client_id));
        assert(d1 =~= d);
        assert(v.devices.contains_key(s.uid));
        assert(r.devices =~= v.devices);
    } else {
        assert(w.empties_device(s.uid, s.client_id, s.id));
        assert(d1.remove(s.client_id) =~= d);
        if d.dom().is_empty() {
            assert(!v.devices.contains_key(s.uid));
            assert(r.devices =~= v.devices);
        } else {
            assert(v.devices.contains_key(s.uid));
            assert(r.devices =~= v.devices);
        }
        lemma_total_len_remove(d1, s.client_id);
        assert(d1.remove(s.client_id) =~= d);
    }
    assert(r =~= v);
}

/// When every listed id is an open session, none is filtered out.
pub proof fn lemma_live_ids_all(v: SessionManagerView, ids: Seq<Seq<char>>)
    requires
        forall|i: int| 0 <= i < ids.len() ==> v.sessions.contains_key(#[trigger] ids[i]),
    ensures
        v.live_ids(ids) == ids,
    decreases ids.len(),
{
    if ids.len() > 0 {
        let p = ids.drop_last();
        assert forall|i: int| 0 <= i < p.len() implies v.sessions.contains_key(#[trigger] p[i]) by {
            assert(p[i] == ids[i]);
        }
        lemma_live_ids_all(v, p);
        assert(v.sessions.contains_key(ids[ids.len() - 1]));
        assert(p.push(ids.last()) =~= ids);
    }
}

/// A registered session is an open session listed under its user.
pub proof fn lemma_registered_is_listed(v: SessionManagerView, s: SessionView)
    ensures
        v.after_register(s).sessions.contains_key(s.id),
        v.after_register(s).sessions[s.id] == s,
        v.after_register(s).listed_for_user(s.uid, s.id),
{
    let w = v.after_register(s);
    let d = devices_of(v, s.uid);
    let ids = add_unique(sessions_on(d, s.client_id), s.id);
    assert(ids.contains(s.id)) by {
        if !sessions_on(d, s.client_id).contains(s.id) {
            assert(ids[sessions_on(d, s.client_id).len() as int] == s.id);
        }
    }
    assert(devices_of(w, s.uid)[s.client_id] == ids);
}

/// Opening and then closing a session asks for the device's route to be
/// removed exactly when the device had no other session on this node.
pub proof fn lemma_register_then_cleanup_unregisters(v: SessionManagerView, s: SessionView)
    requires
        v.wf(),
        !v.sessions.contains_key(s.id),
    ensures
        v.after_register(s).clears_device(s.id) <==> v.registers_first_device(s),
{
    let w = v.after_register(s);
    let d = devices_of(v, s.uid);
    let old_ids = sessions_on(d, s.client_id);
    assert(!old_ids.contains(s.id)) by {
        if old_ids.contains(s.id) {
            assert(v.devices.contains_key(s.uid) && d.contains_key(s.client_id));
            assert(device_entry_ok(v, s.uid, s.client_id));
            let i = choose|i: int| 0 <= i < old_ids.len() && old_ids[i] == s.id;
            assert(v.sessions.contains_key(old_ids[i]));
        }
    }
    let ids = old_ids.push(s.id);
    assert(add_unique(old_ids, s.id) == ids);
    assert(w.sessions.contains_key(s.id) && w.sessions[s.id] == s);
    assert(w.devices[s.uid][s.client_id] == ids);
    assert(ids.contains(s.id)) by {
        assert(ids[old_ids.len() as int] == s.id);
    }
}

impl SessionManagerView {
    /// The pairs of a user and one of its devices: what the list of client
    /// ids holds, one entry per pair.
    pub open spec fn device_pairs(self) -> Set<(u64, Seq<char>)> {
        Set::new(|p: (u64, Seq<char>)| self.devices.contains_key(p.0) && self.devices[p.0].contains_key(p.1))
    }
}

/// Under the invariant, a session is listed for a user exactly when it is open
/// and belongs to that user.
pub proof fn lemma_listed_iff_open(v: SessionManagerView, uid: u64, id: Seq<char>)
    requires
        v.wf(),
    ensures
        v.listed_for_user(uid, id) <==> (v.sessions.contains_key(id) && v.sessions[id].uid == uid),
{
    if v.listed_for_user(uid, id) {
        let cid = choose|cid: Seq<char>|
            #![trigger devices_of(v, uid)[cid]]
            devices_of(v, uid).contains_key(cid) && devices_of(v, uid)[cid].contains(id);
        assert(v.devices.contains_key(uid));
        assert(device_entry_ok(v, uid, cid));
        let i = choose|i: int| 0 <= i < v.devices[uid][cid].len() && v.devices[uid][cid][i] == id;
        assert(v.sessions.contains_key(v.devices[uid][cid][i]));
    }
    if v.sessions.contains_key(id) && v.sessions[id].uid == uid {
        assert(session_indexed(v, id));
        let cid = v.sessions[id].client_id;
        assert(devices_of(v, uid)[cid].contains(id));
    }
}

/// Registering a session with a new id: one more open session; the user's
/// sessions gain exactly that id and every other user's stay as they were;
/// the user-device pairs gain the session's pair, which is new exactly when
/// the device had no session.
pub proof fn lemma_register_changes(v: SessionManagerView, s: SessionView)
    requires
        v.wf(),
        !v.sessions.contains_key(s.id),
    ensures
        v.after_register(s).sessions.len() == v.sessions.len() + 1,
        forall|x: Seq<char>|
            #[trigger] v.after_register(s).listed_for_user(s.uid, x) <==> (v.listed_for_user(s.uid, x) || x == s.id),
        forall|u: u64, x: Seq<char>|
            u != s.uid ==> (#[trigger] v.after_register(s).listed_for_user(u, x) <==> v.listed_for_user(u, x)),
        forall|x: Seq<char>| #[trigger] v.sessions.contains_key(x) ==> v.after_register(s).sessions.contains_key(x),
        v.after_register(s).device_pairs() == v.device_pairs().insert((s.uid, s.client_id)),
        v.registers_first_device(s) <==> !v.device_pairs().contains((s.uid, s.client_id)),
{
    let w = v.after_register(s);
    lemma_register_preserves_wf(v, s);
    assert(w.sessions.dom() =~= v.sessions.dom().insert(s.id));
    assert forall|u: u64, x: Seq<char>| #[trigger] w.listed_for_user(u, x) <==> (v.listed_for_user(u, x) || (
        u == s.uid && x == s.id)) by {
        lemma_listed_iff_open(v, u, x);
        lemma_listed_iff_open(w, u, x);
    }
    assert forall|x: Seq<char>| #[trigger] w.listed_for_user(s.uid, x) <==> (v.listed_for_user(s.uid, x) || x == s.id) by {
        assert(w.listed_for_user(s.uid, x) <==> (v.listed_for_user(s.uid, x) || (s.uid == s.uid && x == s.id)));
    }
    assert forall|u: u64, x: Seq<char>| u != s.uid implies (#[trigger] w.listed_for_user(u, x) <==> v.listed_for_user(u, x)) by {
        assert(w.listed_for_user(u, x) <==> (v.listed_for_user(u, x) || (u == s.uid && x == s.id)));
    }
    assert(w.device_pairs() =~= v.device_pairs().insert((s.uid, s.client_id)));
    if v.device_pairs().contains((s.uid, s.client_id)) {
        assert(device_entry_ok(v, s.uid, s.client_id));
    }
}

/// Cleaning up an open session: one open session fewer, every other one
/// stays open; the user's sessions lose exactly that id and every other
/// user's stay as they were; the user-device pairs lose the session's pair
/// exactly when it was the device's last session.
pub proof fn lemma_cleanup_changes(v: SessionManagerView, id: Seq<char>)
    requires
        v.wf(),
        v.sessions.contains_key(id),
    ensures
        v.after_cleanup(id).sessions.len() + 1 == v.sessions.len(),
        forall|x: Seq<char>|
            x != id && #[trigger] v.sessions.contains_key(x) ==> v.after_cleanup(id).sessions.contains_key(x)
                && v.after_cleanup(id).sessions[x] == v.sessions[x],
        forall|x: Seq<char>|
            #[trigger] v.after_cleanup(id).listed_for_user(v.sessions[id].uid, x) <==> (v.listed_for_user(
                v.sessions[id].uid,
                x,
            ) && x != id),
        forall|u: u64, x: Seq<char>|
            u != v.sessions[id].uid ==> (#[trigger] v.after_cleanup(id).listed_for_user(u, x)
                <==> v.listed_for_user(u, x)),
        v.after_cleanup(id).device_pairs() == if v.clears_device(id) {
            v.device_pairs().remove((v.sessions[id].uid, v.sessions[id].client_id))
        } else {
            v.device_pairs()
        },
{
    let w = v.after_cleanup(id);
    let s = v.sessions[id];
    lemma_cleanup_preserves_wf(v, id);
    assert(session_indexed(v, id));
    assert(w.sessions.dom() =~= v.sessions.dom().remove(id));
    assert forall|u: u64, x: Seq<char>| #[trigger] w.listed_for_user(u, x) <==> (v.listed_for_user(u, x) && x != id) by {
        lemma_listed_iff_open(v, u, x);
        lemma_listed_iff_open(w, u, x);
    }
    assert forall|x: Seq<char>| #[trigger] w.listed_for_user(s.uid, x) <==> (v.listed_for_user(s.uid, x) && x != id) by {
        assert(w.listed_for_user(s.uid, x) <==> (v.listed_for_user(s.uid, x) && x != id));
    }
    assert forall|u: u64, x: Seq<char>| u != s.uid implies (#[trigger] w.listed_for_user(u, x) <==> v.listed_for_user(u, x)) by {
        assert(w.listed_for_user(u, x) <==> (v.listed_for_user(u, x) && x != id));
        if x == id && v.listed_for_user(u, x) {
            lemma_listed_iff_open(v, u, x);
        }
    }
    let d = v.devices[s.uid];
    let d1 = v.devices_without(s.uid, s.client_id, id);
    if v.clears_device(id) {
        let d2 = d1.remove(s.client_id);
        if d2.dom().is_empty() {
            assert forall|c: Seq<char>| d.contains_key(c) implies c == s.client_id by {
                if c != s.client_id {
                    assert(d2.contains_key(c));
                }
            }
        }
        assert(w.device_pairs() =~= v.device_pairs().remove((s.uid, s.client_id)));
    } else {
        assert(w.device_pairs() =~= v.device_pairs());
    }
}

impl SessionManagerView {
    /// The users that have a device `cid`.
    pub open spec fn users_with_device(self, cid: Seq<char>) -> Set<u64> {
        Set::new(|u: u64| self.devices.contains_key(u) && self.devices[u].contains_key(cid))
    }
}

/// The owners paired with `c` in a list of (owner, id) pairs.
pub open spec fn owners_of(ids: Seq<Seq<char>>, owners: Seq<u64>, c: Seq<char>) -> Set<u64> {
    Set::new(|u: u64| exists|k: int| 0 <= k < ids.len() && owners[k] == u && ids[k] == c)
}

/// In a list of distinct (owner, id) pairs, an id occurs as often as there
/// are owners paired with it.
proof fn lemma_pair_counts(ids: Seq<Seq<char>>, owners: Seq<u64>, c: Seq<char>)
    requires
        owners.len() == ids.len(),
        forall|a: int, b: int|
            #![trigger owners[a], owners[b]]
            0 <= a < ids.len() && 0 <= b < ids.len() && a != b ==> owners[a] != owners[b] || ids[a] != ids[b],
    ensures
        owners_of(ids, owners, c).finite(),
        ids.to_multiset().count(c) == owners_of(ids, owners, c).len(),
    decreases ids.len(),
{
    broadcast use vstd::seq_lib::group_to_multiset_ensures;
    broadcast use vstd::multiset::group_multiset_axioms;
    if ids.len() == 0 {
        assert(owners_of(ids, owners, c) =~= Set::<u64>::empty());
        assert(ids.to_multiset().len() == 0);
    } else {
        let i2 = ids.drop_last();
        let o2 = owners.drop_last();
        assert forall|a: int, b: int|
            #![trigger o2[a], o2[b]]
            0 <= a < i2.len() && 0 <= b < i2.len() && a != b implies o2[a] != o2[b] || i2[a] != i2[b] by {
            assert(o2[a] == owners[a] && o2[b] == owners[b]);
        }
        lemma_pair_counts(i2, o2, c);
        assert(ids =~= i2.push(ids.last()));
        let last = ids.len() - 1;
        let prev = owners_of(i2, o2, c);
        if ids.last() == c {
            assert(!prev.contains(owners[last])) by {
                if prev.contains(owners[last]) {
                    let k = choose|k: int| 0 <= k < i2.len() && o2[k] == owners[last] && i2[k] == c;
                    assert(owners[k] == o2[k]);
                }
            }
            assert(owners_of(ids, owners, c) =~= prev.insert(owners[last])) by {
                assert forall|u: u64| owners_of(ids, owners, c).contains(u) implies prev.insert(owners[last]).contains(u) by {
                    let k = choose|k: int| 0 <= k < ids.len() && owners[k] == u && ids[k] == c;
                    if k < last {
                        assert(o2[k] == owners[k] && i2[k] == ids[k]);
                    }
                }
                assert forall|u: u64| prev.contains(u) implies owners_of(ids, owners, c).contains(u) by {
                    let k = choose|k: int| 0 <= k < i2.len() && o2[k] == u && i2[k] == c;
                    assert(o2[k] == owners[k] && i2[k] == ids[k]);
                }
            }
        } else {
            assert(owners_of(ids, owners, c) =~= prev) by {
                assert forall|u: u64| owners_of(ids, owners, c).contains(u) implies prev.contains(u) by {
                    let k = choose|k: int| 0 <= k < ids.len() && owners[k] == u && ids[k] == c;
                    assert(k != last);
                    assert(o2[k] == owners[k] && i2[k] == ids[k]);
                }
                assert forall|u: u64| prev.contains(u) implies owners_of(ids, owners, c).contains(u) by {
                    let k = choose|k: int| 0 <= k < i2.len() && o2[k] == u && i2[k] == c;
                    assert(o2[k] == owners[k] && i2[k] == ids[k]);
                }
            }
        }
    }
}

/// In a list of the client devices of all users (as `get_client_ids` gives
/// it), a device id occurs once for each user that has such a device.
pub proof fn lemma_client_ids_count(v: SessionManagerView, ids: Seq<Seq<char>>, owners: Seq<u64>, c: Seq<char>)
    requires
        v.lists_user_devices(ids, owners),
    ensures
        v.users_with_device(c).finite(),
        ids.to_multiset().count(c) == v.users_with_device(c).len(),
{
    lemma_pair_counts(ids, owners, c);
    assert(owners_of(ids, owners, c) =~= v.users_with_device(c)) by {
        assert forall|u: u64| owners_of(ids, owners, c).contains(u) implies v.users_with_device(c).contains(u) by {
            let k = choose|k: int| 0 <= k < ids.len() && owners[k] == u && ids[k] == c;
            assert(v.devices.contains_key(owners[k]) && v.devices[owners[k]].contains_key(ids[k]));
        }
        assert forall|u: u64| v.users_with_device(c).contains(u) implies owners_of(ids, owners, c).contains(u) by {
            assert(v.devices[u].contains_key(c));
        }
    }
}

/// Registering a session with a new id changes the list of client ids by one
/// more entry of its device exactly when the device had no session before.
pub proof fn lemma_register_client_ids(
    v: SessionManagerView,
    s: SessionView,
    ids1: Seq<Seq<char>>,
    owners1: Seq<u64>,
    ids2: Seq<Seq<char>>,
    owners2: Seq<u64>,
)
    requires
        v.wf(),
        !v.sessions.contains_key(s.id),
        v.lists_user_devices(ids1, owners1),
        v.after_register(s).lists_user_devices(ids2, owners2),
    ensures
        ids2.to_multiset() == if v.registers_first_device(s) {
            ids1.to_multiset().insert(s.client_id)
        } else {
            ids1.to_multiset()
        },
{
    broadcast use vstd::multiset::group_multiset_axioms;
    let w = v.after_register(s);
    lemma_register_changes(v, s);
    let target = if v.registers_first_device(s) {
        ids1.to_multiset().insert(s.client_id)
    } else {
        ids1.to_multiset()
    };
    assert forall|c: Seq<char>| ids2.to_multiset().count(c) == target.count(c) by {
        lemma_client_ids_count(v, ids1, owners1, c);
        lemma_client_ids_count(w, ids2, owners2, c);
        let a = v.users_with_device(c);
        let b = w.users_with_device(c);
        if c == s.client_id {
            assert(b =~= a.insert(s.uid)) by {
                assert forall|u: u64| b.contains(u) <==> a.insert(s.uid).contains(u) by {
                    assert(w.device_pairs().contains((u, c)) <==> v.device_pairs().insert((s.uid, s.client_id)).contains((u, c)));
                }
            }
            assert(a.contains(s.uid) <==> v.device_pairs().contains((s.uid, s.client_id)));
        } else {
            assert(b =~= a) by {
                assert forall|u: u64| b.contains(u) <==> a.contains(u) by {
                    assert(w.device_pairs().contains((u, c)) <==> v.device_pairs().insert((s.uid, s.client_id)).contains((u, c)));
                }
            }
        }
    }
    assert(ids2.to_multiset() =~= target);
}

/// Cleaning up an open session changes the list of client ids by one entry
/// of its device fewer exactly when it was the device's last session.
pub proof fn lemma_cleanup_client_ids(
    v: SessionManagerView,
    id: Seq<char>,
    ids1: Seq<Seq<char>>,
    owners1: Seq<u64>,
    ids2: Seq<Seq<char>>,
    owners2: Seq<u64>,
)
    requires
        v.wf(),
        v.sessions.contains_key(id),
        v.lists_user_devices(ids1, owners1),
        v.after_cleanup(id).lists_user_devices(ids2, owners2),
    ensures
        ids2.to_multiset() == if v.clears_device(id) {
            ids1.to_multiset().remove(v.sessions[id].client_id)
        } else {
            ids1.to_multiset()
        },
{
    broadcast use vstd::multiset::group_multiset_axioms;
    let w = v.after_cleanup(id);
    let s = v.sessions[id];
    lemma_cleanup_changes(v, id);
    assert(session_indexed(v, id));
    assert(v.device_pairs().contains((s.uid, s.client_id)));
    let target = if v.clears_device(id) {
        ids1.to_multiset().remove(s.client_id)
    } else {
        ids1.to_multiset()
    };
    assert forall|c: Seq<char>| ids2.to_multiset().count(c) == target.count(c) by {
        lemma_client_ids_count(v, ids1, owners1, c);
        lemma_client_ids_count(w, ids2, owners2, c);
        let a = v.users_with_device(c);
        let b = w.users_with_device(c);
        if v.clears_device(id) && c == s.client_id {
            assert(a.contains(s.uid));
            assert(b =~= a.remove(s.uid)) by {
                assert forall|u: u64| b.contains(u) <==> a.remove(s.uid).contains(u) by {
                    assert(w.device_pairs().contains((u, c)) <==> v.device_pairs().remove((s.uid, s.client_id)).contains((u, c)));
                }
            }
        } else {
            assert(b =~= a) by {
                assert forall|u: u64| b.contains(u) <==> a.contains(u) by {
                    if v.clears_device(id) {
                        assert(w.device_pairs().contains((u, c)) <==> v.device_pairs().remove((s.uid, s.client_id)).contains((u, c)));
                    } else {
                        assert(w.device_pairs().contains((u, c)) <==> v.device_pairs().contains((u, c)));
                    }
                }
            }
        }
    }
    assert(ids2.to_multiset() =~= target);
}

/// The outcome of cleaning up a session: whose session it was, how many
/// sessions the user still has here, and whether the device's route must be
/// removed from the routing table (the device has no session left).
pub struct SessionCleanup {
    /// The user of the session.
    pub uid: UserId,
    /// The client device of the session.
    pub client_id: ClientId,
    /// The sessions the user still has on this node.
    pub remaining_sessions: usize,
    /// Whether the device's route has to be removed.
    pub unregister_device: bool,
}

/// The session manager.
pub struct SessionManager {
    sessions: DashMap<String, Session>,
    user_device_sessions: DashMap<u64, DashMap<String, Vec<String>>>,
    session_user: DashMap<String, u64>,
    session_client: DashMap<String, String>,
    accepting_new_connections: bool,
    node_id: String,
    router_cache: LocalRouterCache,
}

impl View for SessionManager {
    type V = SessionManagerView;

    closed spec fn view(&self) -> SessionManagerView {
        SessionManagerView {
            sessions: session_table(self.sessions),
            devices: user_device_table(self.user_device_sessions),
            session_user: session_user_table(self.session_user),
            session_client: session_client_table(self.session_client),
            accepting: self.accepting_new_connections,
            node_id: self.node_id@,
        }
    }
}

/// `v` without the entries equal to `s`, the rest in order.
fn remove_string(v: &Vec<String>, s: &String) -> (r: Vec<String>)
    ensures
        r.deep_view() == remove_value(v.deep_view(), s@),
{
    let mut out: Vec<String> = Vec::new();
    let mut i: usize = 0;
    while i < v.len()
        invariant
            i <= v.len(),
            out.deep_view() == remove_value(v.deep_view().take(i as int), s@),
        decreases v.len() - i,
    {
        let ghost before = out.deep_view();
        let ghost pre = v.deep_view().take(i as int);
        let ghost next = v.deep_view().take(i + 1);
        assert(next.drop_last() =~= pre);
        assert(next.last() == v[i as int]@);
        if v[i] != *s {
            out.push(v[i].clone());
            assert(out.deep_view() =~= before.push(v[i as int]@));
        }
        i = i + 1;
    }
    assert(v.deep_view().take(v.len() as int) =~= v.deep_view());
    out
}

impl SessionManager {
    /// The invariant of the session manager.
    pub open spec fn wf(&self) -> bool {
        self@.wf()
    }

    /// The node's local copy of the routing table.
    pub closed spec fn route_cache(&self) -> LocalRouterCacheView {
        self.router_cache@
    }

    /// A session manager for node `node_id`, with no session, accepting new
    /// connections.
    pub fn new(node_id: String) -> (r: Self)
        ensures
            r.wf(),
            r@.sessions.dom().is_empty(),
            r@.devices.dom().is_empty(),
            r@.session_user.dom().is_empty(),
            r@.session_client.dom().is_empty(),
            r@.accepting,
            r@.node_id == node_id@,
            r.route_cache().entries.dom().is_empty(),
            r.route_cache().ttl_secs == DEFAULT_ROUTER_CACHE_TTL_SECS,
            r.route_cache().refreshed_at is None,
    {
        let r = SessionManager {
            sessions: sessions_new(),
            user_device_sessions: users_new(),
            session_user: session_users_new(),
            session_client: session_clients_new(),
            accepting_new_connections: true,
            node_id,
            router_cache: LocalRouterCache::new(DEFAULT_ROUTER_CACHE_TTL_SECS),
        };
        assert(r@.sessions =~= Map::<Seq<char>, SessionView>::empty());
        assert(r@.devices =~= Map::<u64, DeviceSessions>::empty());
        r
    }

    /// Sets whether new connections are accepted.
    pub fn set_accepting_new_connections(&mut self, accepting: bool)
        requires
            old(self).wf(),
        ensures
            final(self).wf(),
            final(self)@ == (SessionManagerView { accepting, ..old(self)@ }),
            final(self).route_cache() == old(self).route_cache(),
    {
        self.accepting_new_connections = accepting;
    }

    /// Whether new connections are accepted.
    pub fn is_accepting_new_connections(&self) -> (r: bool)
        ensures
            r == self@.accepting,
    {
        self.accepting_new_connections
    }

    /// The number of open sessions.
    pub fn get_session_count(&self) -> (r: usize)
        ensures
            r == self@.sessions.len(),
    {
        sessions_len(&self.sessions)
    }

    /// The id of this node.
    pub fn node_id(&self) -> (r: &str)
        ensures
            r@ == self@.node_id,
    {
        self.node_id.as_str()
    }

    /// The node's local copy of the routing table.
    pub fn router_cache(&self) -> (r: &LocalRouterCache)
        ensures
            r@ == self.route_cache(),
    {
        &self.router_cache
    }

    /// Replaces the local copy by the whole routing table `items` (field,
    /// node), read at time `now`; the sessions are untouched.
    pub fn refresh_router_cache(&mut self, items: &Vec<(String, String)>, now: u64)
        requires
            old(self).wf(),
        ensures
            final(self).wf(),
            final(self)@ == old(self)@,
            final(self).route_cache() == old(self).route_cache().refreshed(entries_view(items@), now),
    {
        self.router_cache.refresh(items, now);
    }

    /// Drops the entries of the local copy that are stale at `now`; the
    /// sessions are untouched.
    pub fn purge_router_cache(&mut self, now: u64)
        requires
            old(self).wf(),
        ensures
            final(self).wf(),
            final(self)@ == old(self)@,
            final(self).route_cache() == old(self).route_cache().purged(now),
    {
        self.router_cache.purge_expired(now);
    }

    /// The session with the given id.
    pub fn get_session(&self, session_id: &SessionId) -> (r: Option<Session>)
        ensures
            r is Some <==> self@.sessions.contains_key(session_id@),
            r matches Some(s) ==> s@ == self@.sessions[session_id@],
    {
        sessions_get(&self.sessions, session_id.as_str())
    }

    /// Registers a session under its user and device. The result tells
    /// whether this is the device's first session, in which case the device's
    /// route has to be written to the routing table.
    pub fn register_session(&mut self, session: Session) -> (first_device: bool)
        requires
            old(self).wf(),
        ensures
            final(self)@ == old(self)@.after_register(session@),
            first_device == old(self)@.registers_first_device(session@),
            old(self)@.may_register(session@) ==> final(self).wf(),
            final(self).route_cache() == if first_device {
                old(self).route_cache().with_route(
                    route_field_spec(session.uid, session.client_id@),
                    old(self)@.node_id,
                    session.last_seen,
                )
            } else {
                old(self).route_cache()
            },
    {
        let registered_at = session.last_seen;
        let ghost v = self@;
        let ghost sv = session@;
        let session_id = session.id.clone();
        let uid = session.uid;
        let client_id = session.client_id.clone();
        let client_for_route = client_id.clone();
        let mut device_map = match users_remove(&mut self.user_device_sessions, uid) {
            Some(d) => d,
            None => devices_new(),
        };
        let ghost d = devices_of(v, uid);
        assert(device_table(device_map) =~= d);
        let existing = devices_remove(&mut device_map, client_id.as_str());
        let mut ids = match existing {
            Some(e) => e,
            None => Vec::new(),
        };
        let ghost old_ids = sessions_on(d, sv.client_id);
        assert(ids.deep_view() =~= old_ids);
        let was_empty = ids.len() == 0;
        if !vec_contains_string(&ids, &session_id) {
            ids.push(session_id.clone());
            assert(ids.deep_view() =~= old_ids.push(sv.id));
        }
        assert(ids.deep_view() == add_unique(old_ids, sv.id));
        devices_insert(&mut device_map, client_id.clone(), ids);
        assert(device_table(device_map) =~= d.insert(sv.client_id, add_unique(old_ids, sv.id)));
        users_insert(&mut self.user_device_sessions, uid, device_map);
        session_users_insert(&mut self.session_user, session_id.clone(), uid);
        session_clients_insert(&mut self.session_client, session_id.clone(), client_id);
        sessions_insert(&mut self.sessions, session_id, session);
        proof {
            assert(self@.sessions =~= v.after_register(sv).sessions);
            assert(self@.devices =~= v.after_register(sv).devices);
            assert(self@.session_user =~= v.after_register(sv).session_user);
            assert(self@.session_client =~= v.after_register(sv).session_client);
            assert(self@ =~= v.after_register(sv));
            if v.may_register(sv) {
                lemma_register_preserves_wf(v, sv);
            }
        }
        if was_empty {
            let field = route_field(uid, client_for_route.as_str());
            let node = self.node_id.clone();
            self.router_cache.put(field, node, registered_at);
        }
        was_empty
    }

    /// The open sessions of a user over all its devices, each once.
    pub fn get_user_sessions(&self, uid: UserId) -> (r: Vec<Session>)
        requires
            self.wf(),
        ensures
            forall|i: int|
                0 <= i < r.len() ==> {
                    &&& self@.sessions.contains_key(#[trigger] r@[i].id@)
                    &&& r@[i]@ == self@.sessions[r@[i].id@]
                    &&& self@.listed_for_user(uid, r@[i].id@)
                },
            forall|id: Seq<char>|
                #[trigger] self@.listed_for_user(uid, id) ==> exists|i: int|
                    0 <= i < r.len() && r@[i].id@ == id,
            forall|i: int, j: int|
                0 <= i < r.len() && 0 <= j < r.len() && i != j ==> #[trigger] r@[i].id@
                    != #[trigger] r@[j].id@,
    {
        let ghost v = self@;
        let mut result: Vec<Session> = Vec::new();
        let device_map = match users_get(&self.user_device_sessions, uid) {
            Some(d) => d,
            None => {
                return result;
            },
        };
        let ghost d = devices_of(v, uid);
        assert(device_table(device_map) == d);
        let entries = devices_entries(&device_map);
        let ghost mut src: Seq<int> = seq![];
        let mut i: usize = 0;
        while i < entries.len()
            invariant
                i <= entries.len(),
                v == self@,
                v.wf(),
                v.devices.contains_key(uid),
                d == v.devices[uid],
                forall|k: int|
                    #![trigger entries@[k]]
                    0 <= k < entries.len() ==> d.contains_key(entries@[k].0@)
                        && entries@[k].1.deep_view() == d[entries@[k].0@],
                forall|a: int, b: int|
                    #![trigger entries@[a], entries@[b]]
                    0 <= a < entries.len() && 0 <= b < entries.len() && a != b ==> entries@[a].0@
                        != entries@[b].0@,
                forall|k: int|
                    0 <= k < result.len() ==> {
                        &&& v.sessions.contains_key(#[trigger] result@[k].id@)
                        &&& result@[k]@ == v.sessions[result@[k].id@]
                        &&& v.listed_for_user(uid, result@[k].id@)
                    },
                src.len() == result.len(),
                forall|k: int|
                    #![trigger src[k]]
                    0 <= k < result.len() ==> 0 <= src[k] < i && entries@[src[k]].0@
                        == result@[k].client_id@,
                forall|a: int, x: Seq<char>|
                    0 <= a < i && #[trigger] d[entries@[a].0@].contains(x) ==> exists|k: int|
                        0 <= k < result.len() && result@[k].id@ == x,
                forall|a: int, b: int|
                    0 <= a < result.len() && 0 <= b < result.len() && a != b ==> #[trigger] result@[a].id@
                        != #[trigger] result@[b].id@,
            decreases entries.len() - i,
        {
            let ids = &entries[i].1;
            let ghost cid = entries@[i as int].0@;
            assert(d.contains_key(cid));
            assert(device_entry_ok(v, uid, cid));
            let ghost start = result.len();
            let mut j: usize = 0;
            while j < ids.len()
                invariant
                    j <= ids.len(),
                    start <= result.len(),
                    v == self@,
                    v.wf(),
                    v.devices.contains_key(uid),
                    d == v.devices[uid],
                    d.contains_key(cid),
                    ids.deep_view() == d[cid],
                    cid == entries@[i as int].0@,
                    i < entries.len(),
                    device_entry_ok(v, uid, cid),
                    forall|k: int|
                        #![trigger entries@[k]]
                        0 <= k < entries.len() ==> d.contains_key(entries@[k].0@)
                            && entries@[k].1.deep_view() == d[entries@[k].0@],
                    forall|a: int, b: int|
                        #![trigger entries@[a], entries@[b]]
                        0 <= a < entries.len() && 0 <= b < entries.len() && a != b ==> entries@[a].0@
                            != entries@[b].0@,
                    forall|k: int|
                        0 <= k < result.len() ==> {
                            &&& v.sessions.contains_key(#[trigger] result@[k].id@)
                            &&& result@[k]@ == v.sessions[result@[k].id@]
                            &&& v.listed_for_user(uid, result@[k].id@)
                        },
                    src.len() == result.len(),
                    forall|k: int|
                        #![trigger src[k]]
                        0 <= k < result.len() ==> 0 <= src[k] <= i && entries@[src[k]].0@
                            == result@[k].client_id@,
                    forall|k: int| #![trigger src[k]] 0 <= k < start ==> src[k] < i,
                    forall|k: int| start <= k < result.len() ==> #[trigger] result@[k].client_id@ == cid,
                    forall|k: int|
                        #![trigger result@[k]]
                        start <= k < result.len() ==> exists|t: int|
                            0 <= t < j && #[trigger] d[cid][t] == result@[k].id@,
                    forall|t: int| 0 <= t < j ==> exists|k: int| 0 <= k < result.len() && result@[k].id@ == #[trigger] d[cid][t],
                    forall|a: int, x: Seq<char>|
                        0 <= a < i && #[trigger] d[entries@[a].0@].contains(x) ==> exists|k: int|
                            0 <= k < result.len() && result@[k].id@ == x,
                    forall|a: int, b: int|
                        0 <= a < result.len() && 0 <= b < result.len() && a != b ==> #[trigger] result@[a].id@
                            != #[trigger] result@[b].id@,
                decreases ids.len() - j,
            {
                let ghost x = d[cid][j as int];
                assert(ids[j as int]@ == x);
                assert(v.sessions.contains_key(x));
                let found = sessions_get(&self.sessions, ids[j].as_str());
                match found {
                    Some(sess) => {
                        let ghost before = result@;
                        assert(session_indexed(v, x));
                        assert(d[cid].no_duplicates());
                        assert(devices_of(v, uid) == d);
                        assert(d[cid].contains(x));
                        assert(devices_of(v, uid)[cid].contains(x));
                        assert(v.listed_for_user(uid, x));
                        proof {
                            assert forall|k: int| 0 <= k < before.len() implies before[k].id@ != x by {
                                if k >= start {
                                    let t = choose|t: int| 0 <= t < j && d[cid][t] == before[k].id@;
                                    assert(d[cid][t] != d[cid][j as int]);
                                } else {
                                    let a = src[k];
                                    if before[k].id@ == x {
                                        assert(before[k].client_id@ == cid);
                                        assert(entries@[a].0@ != entries@[i as int].0@);
                                    }
                                }
                            }
                        }
                        result.push(sess);
                        proof {
                            src = src.push(i as int);
                        }
                        assert(result@[result.len() - 1] == sess);
                        proof {
                            assert forall|t: int| 0 <= t < j + 1 implies exists|k: int|
                                0 <= k < result.len() && result@[k].id@ == #[trigger] d[cid][t] by {
                                if t < j {
                                    let k = choose|k: int| 0 <= k < before.len() && before[k].id@ == d[cid][t];
                                    assert(result@[k] == before[k]);
                                } else {
                                    assert(result@[result.len() - 1].id@ == x);
                                }
                            }
                            assert forall|a: int, y: Seq<char>|
                                0 <= a < i && #[trigger] d[entries@[a].0@].contains(y) implies exists|k: int|
                                0 <= k < result.len() && result@[k].id@ == y by {
                                let k = choose|k: int| 0 <= k < before.len() && before[k].id@ == y;
                                assert(result@[k] == before[k]);
                            }
                        }
                    },
                    None => {},
                }
                j = j + 1;
            }
            proof {
                assert forall|a: int, x: Seq<char>|
                    0 <= a < i + 1 && #[trigger] d[entries@[a].0@].contains(x) implies exists|k: int|
                    0 <= k < result.len() && result@[k].id@ == x by {
                    if a == i {
                        let t = choose|t: int| 0 <= t < d[cid].len() && d[cid][t] == x;
                        assert(d[cid][t] == x);
                    }
                }
            }
            i = i + 1;
        }
        proof {
            assert forall|x: Seq<char>| #[trigger] v.listed_for_user(uid, x) implies exists|k: int|
                0 <= k < result.len() && result@[k].id@ == x by {
                let c = choose|c: Seq<char>| #![trigger devices_of(v, uid)[c]]
                    devices_of(v, uid).contains_key(c) && devices_of(v, uid)[c].contains(x);
                let a = choose|a: int| 0 <= a < entries.len() && entries@[a].0@ == c;
                assert(d[entries@[a].0@].contains(x));
            }
        }
        result
    }

    /// The client devices of all users, one entry per user and device.
    #[verifier::spinoff_prover]
    #[verifier::rlimit(40)]
    pub fn get_client_ids(&self) -> (r: Vec<ClientId>)
        ensures
            exists|owners: Seq<u64>| #[trigger] self@.lists_user_devices(r.deep_view(), owners),
            forall|k: int| 0 <= k < r.len() ==> self@.has_device(#[trigger] r@[k]@),
            forall|uid: u64, cid: Seq<char>|
                self@.devices.contains_key(uid) && #[trigger] self@.devices[uid].contains_key(cid)
                    ==> exists|k: int| 0 <= k < r.len() && r@[k]@ == cid,
    {
        let ghost v = self@;
        let users = users_entries(&self.user_device_sessions);
        let mut result: Vec<ClientId> = Vec::new();
        let ghost mut owner: Seq<u64> = seq![];
        let mut i: usize = 0;
        while i < users.len()
            invariant
                i <= users.len(),
                v == self@,
                forall|k: int|
                    #![trigger users@[k]]
                    0 <= k < users.len() ==> v.devices.contains_key(users@[k].0) && device_table(
                        users@[k].1,
                    ) == v.devices[users@[k].0],
                forall|a: int, b: int|
                    #![trigger users@[a], users@[b]]
                    0 <= a < users.len() && 0 <= b < users.len() && a != b ==> users@[a].0 != users@[b].0,
                forall|u: u64| #[trigger] v.devices.contains_key(u) ==> exists|k: int|
                    0 <= k < users.len() && users@[k].0 == u,
                owner.len() == result.len(),
                forall|k: int|
                    #![trigger owner[k]]
                    0 <= k < result.len() ==> v.devices.contains_key(owner[k])
                        && v.devices[owner[k]].contains_key(result@[k]@),
                forall|k: int, b: int|
                    #![trigger owner[k], users@[b]]
                    0 <= k < result.len() && i <= b < users.len() ==> owner[k] != users@[b].0,
                forall|a: int, b: int|
                    #![trigger owner[a], owner[b]]
                    0 <= a < result.len() && 0 <= b < result.len() && a != b ==> owner[a] != owner[b]
                        || result@[a]@ != result@[b]@,
                forall|a: int, cid: Seq<char>|
                    0 <= a < i && #[trigger] v.devices[users@[a].0].contains_key(cid) ==> exists|k: int|
                        0 <= k < result.len() && owner[k] == users@[a].0 && result@[k]@ == cid,
            decreases users.len() - i,
        {
            let uid = users[i].0;
            let devices = devices_entries(&users[i].1);
            let ghost dm = v.devices[uid];
            let ghost start = result.len() as int;
            assert(device_table(users@[i as int].1) == dm);
            let mut j: usize = 0;
            while j < devices.len()
                invariant
                    j <= devices.len(),
                    i < users.len(),
                    uid == users@[i as int].0,
                    v.devices.contains_key(uid),
                    dm == v.devices[uid],
                    forall|a: int, b: int|
                        #![trigger users@[a], users@[b]]
                        0 <= a < users.len() && 0 <= b < users.len() && a != b ==> users@[a].0 != users@[b].0,
                    forall|k: int|
                        #![trigger devices@[k]]
                        0 <= k < devices.len() ==> dm.contains_key(devices@[k].0@),
                    forall|a: int, b: int|
                        #![trigger devices@[a], devices@[b]]
                        0 <= a < devices.len() && 0 <= b < devices.len() && a != b ==> devices@[a].0@
                            != devices@[b].0@,
                    forall|c: Seq<char>| #[trigger] dm.contains_key(c) ==> exists|k: int|
                        0 <= k < devices.len() && devices@[k].0@ == c,
                    owner.len() == result.len(),
                    0 <= start,
                    result.len() == start + j,
                    forall|k: int|
                        #![trigger owner[k]]
                        0 <= k < result.len() ==> v.devices.contains_key(owner[k])
                            && v.devices[owner[k]].contains_key(result@[k]@),
                    forall|k: int|
                        #![trigger owner[k]]
                        start <= k < result.len() ==> owner[k] == uid && result@[k]@ == devices@[k - start].0@,
                    forall|b: int|
                        #![trigger devices@[b]]
                        0 <= b < j ==> owner[start + b] == uid && result@[start + b]@ == devices@[b].0@,
                    forall|k: int, b: int|
                        #![trigger owner[k], users@[b]]
                        0 <= k < start && i <= b < users.len() ==> owner[k] != users@[b].0,
                    forall|a: int, b: int|
                        #![trigger owner[a], owner[b]]
                        0 <= a < result.len() && 0 <= b < result.len() && a != b ==> owner[a] != owner[b]
                            || result@[a]@ != result@[b]@,
                    forall|a: int, cid: Seq<char>|
                        0 <= a < i && #[trigger] v.devices[users@[a].0].contains_key(cid) ==> exists|k: int|
                            0 <= k < result.len() && owner[k] == users@[a].0 && result@[k]@ == cid,
                decreases devices.len() - j,
            {
                let ghost before = result@;
                let ghost before_owner = owner;
                result.push(devices[j].0.clone());
                proof {
                    owner = owner.push(uid);
                    assert forall|k: int| #![trigger owner[k]] 0 <= k < result.len() implies v.devices.contains_key(owner[k])
                        && v.devices[owner[k]].contains_key(result@[k]@) by {
                        if k < before.len() {
                            assert(result@[k] == before[k]);
                            assert(owner[k] == before_owner[k]);
                        } else {
                            assert(dm.contains_key(devices@[j as int].0@));
                        }
                    }
                    assert forall|k: int| #![trigger owner[k]] start <= k < result.len() implies owner[k] == uid
                        && result@[k]@ == devices@[k - start].0@ by {
                        if k < before.len() {
                            assert(result@[k] == before[k]);
                            assert(owner[k] == before_owner[k]);
                        }
                    }
                    assert forall|b: int| #![trigger devices@[b]] 0 <= b < j + 1 implies owner[start + b] == uid
                        && result@[start + b]@ == devices@[b].0@ by {
                        if b < j {
                            assert(result@[start + b] == before[start + b]);
                            assert(owner[start + b] == before_owner[start + b]);
                        }
                    }
                    assert forall|k: int, b: int|
                        #![trigger owner[k], users@[b]]
                        0 <= k < start && i <= b < users.len() implies owner[k] != users@[b].0 by {
                        assert(owner[k] == before_owner[k]);
                    }
                    assert forall|a: int, b: int|
                        #![trigger owner[a], owner[b]]
                        0 <= a < result.len() && 0 <= b < result.len() && a != b implies owner[a] != owner[b]
                            || result@[a]@ != result@[b]@ by {
                        let last = before.len() as int;
                        if a < last && b < last {
                            assert(result@[a] == before[a] && result@[b] == before[b]);
                            assert(owner[a] == before_owner[a] && owner[b] == before_owner[b]);
                        } else if a == last || b == last {
                            let o = if a == last { b } else { a };
                            assert(result@[o] == before[o]);
                            assert(owner[o] == before_owner[o]);
                            if o < start {
                                assert(before_owner[o] != users@[i as int].0);
                            } else {
                                assert(before_owner[o] == uid && before[o]@ == devices@[o - start].0@);
                                assert(devices@[o - start].0@ != devices@[j as int].0@);
                            }
                        }
                    }
                    assert forall|a: int, cid: Seq<char>|
                        0 <= a < i && #[trigger] v.devices[users@[a].0].contains_key(cid) implies exists|k: int|
                        0 <= k < result.len() && owner[k] == users@[a].0 && result@[k]@ == cid by {
                        let k = choose|k: int| 0 <= k < before.len() && before_owner[k] == users@[a].0 && before[k]@ == cid;
                        assert(result@[k] == before[k]);
                        assert(owner[k] == before_owner[k]);
                    }
                }
                j = j + 1;
            }
            assert(result.len() == start + devices.len());
            proof {
                assert forall|k: int, b: int|
                    #![trigger owner[k], users@[b]]
                    0 <= k < result.len() && i + 1 <= b < users.len() implies owner[k] != users@[b].0 by {
                    if k >= start {
                        assert(owner[k] == uid);
                        assert(users@[i as int].0 != users@[b].0);
                    }
                }
                assert forall|a: int, cid: Seq<char>|
                    0 <= a < i + 1 && #[trigger] v.devices[users@[a].0].contains_key(cid) implies exists|k: int|
                    0 <= k < result.len() && owner[k] == users@[a].0 && result@[k]@ == cid by {
                    if a == i {
                        let b = choose|b: int| 0 <= b < devices.len() && devices@[b].0@ == cid;
                        assert(owner[start + b] == uid && result@[start + b]@ == devices@[b].0@);
                    }
                }
            }
            i = i + 1;
        }
        proof {
            assert(v.lists_user_devices(result.deep_view(), owner)) by {
                assert forall|k: int| #![trigger owner[k]] 0 <= k < result.deep_view().len() implies v.devices.contains_key(owner[k])
                    && v.devices[owner[k]].contains_key(result.deep_view()[k]) by {
                    assert(result.deep_view()[k] == result@[k]@);
                }
                assert forall|a: int, b: int|
                    #![trigger owner[a], owner[b]]
                    0 <= a < result.deep_view().len() && 0 <= b < result.deep_view().len() && a != b implies owner[a]
                        != owner[b] || result.deep_view()[a] != result.deep_view()[b] by {
                    assert(result.deep_view()[a] == result@[a]@ && result.deep_view()[b] == result@[b]@);
                }
                assert forall|u: u64, cid: Seq<char>|
                    v.devices.contains_key(u) && #[trigger] v.devices[u].contains_key(cid) implies exists|k: int|
                    0 <= k < result.deep_view().len() && owner[k] == u && result.deep_view()[k] == cid by {
                    let a = choose|a: int| 0 <= a < users.len() && users@[a].0 == u;
                    assert(v.devices[users@[a].0].contains_key(cid));
                    let k = choose|k: int| 0 <= k < result.len() && owner[k] == users@[a].0 && result@[k]@ == cid;
                    assert(result.deep_view()[k] == result@[k]@);
                }
            }
            assert forall|k: int| 0 <= k < result.len() implies v.has_device(#[trigger] result@[k]@) by {
                assert(v.devices.contains_key(owner[k]));
            }
            assert forall|u: u64, cid: Seq<char>|
                v.devices.contains_key(u) && #[trigger] v.devices[u].contains_key(cid) implies exists|k: int|
                0 <= k < result.len() && result@[k]@ == cid by {
                let a = choose|a: int| 0 <= a < users.len() && users@[a].0 == u;
                assert(v.devices[users@[a].0].contains_key(cid));
                let k = choose|k: int| 0 <= k < result.len() && owner[k] == users@[a].0 && result@[k]@ == cid;
            }
        }
        result
    }

    /// The ids of the open sessions of a user's device, in the device's
    /// order; every listed id when the invariant holds.
    pub fn device_session_ids(&self, uid: UserId, client_id: &ClientId) -> (r: Vec<SessionId>)
        ensures
            r.deep_view() == self@.live_ids(sessions_on(devices_of(self@, uid), client_id@)),
            self.wf() ==> r.deep_view() == sessions_on(devices_of(self@, uid), client_id@),
    {
        let ghost v = self@;
        let ghost listed = sessions_on(devices_of(v, uid), client_id@);
        let mut result: Vec<SessionId> = Vec::new();
        let device_map = match users_get(&self.user_device_sessions, uid) {
            Some(d) => d,
            None => {
                assert(result.deep_view() =~= v.live_ids(listed));
                proof {
                    if v.wf() {
                        assert(listed =~= Seq::<Seq<char>>::empty());
                    }
                }
                return result;
            },
        };
        let ids = match devices_get(&device_map, client_id.as_str()) {
            Some(ids) => ids,
            None => {
                assert(result.deep_view() =~= v.live_ids(listed));
                proof {
                    if v.wf() {
                        assert(listed =~= Seq::<Seq<char>>::empty());
                    }
                }
                return result;
            },
        };
        assert(ids.deep_view() == listed);
        let mut j: usize = 0;
        while j < ids.len()
            invariant
                j <= ids.len(),
                v == self@,
                ids.deep_view() == listed,
                result.deep_view() == v.live_ids(listed.take(j as int)),
            decreases ids.len() - j,
        {
            let ghost pre = listed.take(j as int);
            let ghost next = listed.take(j + 1);
            assert(next.drop_last() =~= pre);
            assert(next.last() == ids[j as int]@);
            let ghost before = result.deep_view();
            if sessions_get(&self.sessions, ids[j].as_str()).is_some() {
                result.push(ids[j].clone());
                assert(result.deep_view() =~= before.push(ids[j as int]@));
            }
            j = j + 1;
        }
        assert(listed.take(ids.len() as int) =~= listed);
        proof {
            if v.wf() {
                assert(v.devices.contains_key(uid) && v.devices[uid].contains_key(client_id@));
                assert(device_entry_ok(v, uid, client_id@));
                lemma_live_ids_all(v, listed);
            }
        }
        result
    }

    /// Records that a session was heard from at time `now`; false for an
    /// unknown session.
    pub fn touch_session(&mut self, session_id: &SessionId, now: u64) -> (r: bool)
        requires
            old(self).wf(),
        ensures
            final(self).wf(),
            r == old(self)@.sessions.contains_key(session_id@),
            r ==> final(self)@ == (SessionManagerView {
                sessions: old(self)@.sessions.insert(
                    session_id@,
                    SessionView { last_seen: now, ..old(self)@.sessions[session_id@] },
                ),
                ..old(self)@
            }),
            !r ==> final(self)@ == old(self)@,
            final(self).route_cache() == old(self).route_cache(),
    {
        let ghost v = self@;
        match sessions_get(&self.sessions, session_id.as_str()) {
            Some(s) => {
                let mut s = s;
                s.touch(now);
                sessions_insert(&mut self.sessions, session_id.clone(), s);
                proof {
                    let w = self@;
                    assert forall|id: Seq<char>| #[trigger] w.sessions.contains_key(id) implies session_indexed(w, id) by {
                        assert(session_indexed(v, id));
                    }
                    assert forall|uid: u64, cid: Seq<char>|
                        w.devices.contains_key(uid) && #[trigger] w.devices[uid].contains_key(cid) implies device_entry_ok(
                        w,
                        uid,
                        cid,
                    ) by {
                        assert(device_entry_ok(v, uid, cid));
                        let ids = w.devices[uid][cid];
                        assert forall|i: int| 0 <= i < ids.len() implies {
                            &&& w.sessions.contains_key(#[trigger] ids[i])
                            &&& w.sessions[ids[i]].uid == uid
                            &&& w.sessions[ids[i]].client_id == cid
                        } by {
                            assert(v.sessions.contains_key(ids[i]));
                        }
                    }
                }
                true
            },
            None => false,
        }
    }

    /// The ids of the sessions that have been silent for too long at time
    /// `now`, each once.
    pub fn expired_sessions(&self, now: u64) -> (r: Vec<SessionId>)
        ensures
            forall|k: int|
                0 <= k < r.len() ==> self@.sessions.contains_key(#[trigger] r@[k]@) && self@.expired(
                    r@[k]@,
                    now,
                ),
            forall|id: Seq<char>|
                #[trigger] self@.sessions.contains_key(id) && self@.expired(id, now) ==> exists|k: int|
                    0 <= k < r.len() && r@[k]@ == id,
            forall|a: int, b: int|
                0 <= a < r.len() && 0 <= b < r.len() && a != b ==> #[trigger] r@[a]@ != #[trigger] r@[b]@,
    {
        let ghost v = self@;
        let entries = sessions_entries(&self.sessions);
        let mut result: Vec<SessionId> = Vec::new();
        let ghost mut src: Seq<int> = seq![];
        let mut i: usize = 0;
        while i < entries.len()
            invariant
                i <= entries.len(),
                v == self@,
                forall|k: int|
                    #![trigger entries@[k]]
                    0 <= k < entries.len() ==> v.sessions.contains_key(entries@[k].0@) && entries@[k].1@
                        == v.sessions[entries@[k].0@],
                forall|a: int, b: int|
                    #![trigger entries@[a], entries@[b]]
                    0 <= a < entries.len() && 0 <= b < entries.len() && a != b ==> entries@[a].0@
                        != entries@[b].0@,
                src.len() == result.len(),
                forall|k: int|
                    #![trigger src[k]]
                    0 <= k < result.len() ==> 0 <= src[k] < i && entries@[src[k]].0@ == result@[k]@
                        && v.expired(result@[k]@, now),
                forall|a: int, b: int|
                    #![trigger src[a], src[b]]
                    0 <= a < b < result.len() ==> src[a] < src[b],
                forall|a: int|
                    #![trigger entries@[a]]
                    0 <= a < i && v.expired(entries@[a].0@, now) ==> exists|k: int|
                        0 <= k < result.len() && result@[k]@ == entries@[a].0@,
            decreases entries.len() - i,
        {
            let ghost before = result@;
            if heartbeat_expired(now, entries[i].1.last_seen()) {
                result.push(entries[i].0.clone());
                proof {
                    src = src.push(i as int);
                    assert forall|a: int|
                        #![trigger entries@[a]]
                        0 <= a < i + 1 && v.expired(entries@[a].0@, now) implies exists|k: int|
                        0 <= k < result.len() && result@[k]@ == entries@[a].0@ by {
                        if a < i {
                            let k = choose|k: int| 0 <= k < before.len() && before[k]@ == entries@[a].0@;
                            assert(result@[k] == before[k]);
                        } else {
                            assert(result@[before.len() as int]@ == entries@[a].0@);
                        }
                    }
                    assert forall|k: int|
                        #![trigger src[k]]
                        0 <= k < result.len() implies 0 <= src[k] < i + 1 && entries@[src[k]].0@
                        == result@[k]@ && v.expired(result@[k]@, now) by {
                        if k < before.len() {
                            assert(result@[k] == before[k]);
                        }
                    }
                }
            } else {
                proof {
                    assert forall|a: int|
                        #![trigger entries@[a]]
                        0 <= a < i + 1 && v.expired(entries@[a].0@, now) implies exists|k: int|
                        0 <= k < result.len() && result@[k]@ == entries@[a].0@ by {
                        if a == i {
                            assert(entries@[a].1@ == v.sessions[entries@[a].0@]);
                        }
                    }
                }
            }
            i = i + 1;
        }
        proof {
            assert forall|k: int| 0 <= k < result.len() implies v.sessions.contains_key(#[trigger] result@[k]@)
                && v.expired(result@[k]@, now) by {
                let a = src[k];
                assert(entries@[a].0@ == result@[k]@);
            }
            assert forall|id: Seq<char>| #[trigger] v.sessions.contains_key(id) && v.expired(id, now) implies exists|k: int|
                0 <= k < result.len() && result@[k]@ == id by {
                let a = choose|a: int| 0 <= a < entries.len() && entries@[a].0@ == id;
                assert(entries@[a].0@ == id);
            }
            assert forall|a: int, b: int|
                0 <= a < result.len() && 0 <= b < result.len() && a != b implies #[trigger] result@[a]@
                != #[trigger] result@[b]@ by {
                let sa = src[a];
                let sb = src[b];
                if a < b {
                    assert(src[a] < src[b]);
                } else {
                    assert(src[b] < src[a]);
                }
                assert(entries@[sa].0@ != entries@[sb].0@);
            }
        }
        result
    }

    /// Counts the sessions over all devices of a user's device map.
    fn count_sessions(device_map: &DashMap<String, Vec<String>>) -> (r: usize)
        requires
            device_table(*device_map).dom().finite(),
        ensures
            r == saturate(total_len(device_table(*device_map))),
    {
        let entries = devices_entries(device_map);
        let ghost es = entries@.map_values(|e: (String, Vec<String>)| (e.0@, e.1.deep_view()));
        let ghost m = device_table(*device_map);
        let mut count: usize = 0;
        let mut i: usize = 0;
        while i < entries.len()
            invariant
                i <= entries.len(),
                es.len() == entries.len(),
                forall|k: int|
                    0 <= k < entries.len() ==> #[trigger] es[k] == (
                        entries@[k].0@,
                        entries@[k].1.deep_view(),
                    ),
                count == saturate(entries_total(es.take(i as int))),
            decreases entries.len() - i,
        {
            let n = entries[i].1.len();
            let ghost pre = es.take(i as int);
            let ghost next = es.take(i + 1);
            assert(next.drop_last() =~= pre);
            assert(next.last() == es[i as int]);
            assert(es[i as int].1.len() == n);
            count = count.saturating_add(n);
            i = i + 1;
        }
        assert(es.take(entries.len() as int) =~= es);
        proof {
            assert(lists_entries(es, m)) by {
                assert forall|a: int| 0 <= a < es.len() implies m.contains_key(#[trigger] es[a].0)
                    && m[es[a].0] == es[a].1 by {
                    assert(entries@[a] == entries@[a]);
                }
                assert forall|a: int, b: int|
                    0 <= a < es.len() && 0 <= b < es.len() && a != b implies #[trigger] es[a].0
                    != #[trigger] es[b].0 by {
                    assert(entries@[a] == entries@[a] && entries@[b] == entries@[b]);
                }
                assert forall|key: Seq<char>| #[trigger] m.contains_key(key) implies exists|a: int|
                    0 <= a < es.len() && es[a].0 == key by {
                    let a = choose|a: int| 0 <= a < entries.len() && entries@[a].0@ == key;
                    assert(es[a].0 == key);
                }
            }
            lemma_entries_total(es, m);
        }
        count
    }

    /// Removes a session from every index. When the session was its device's
    /// only one, the device is dropped, and the user too when no device is
    /// left. The result says whose session it was, how many sessions the user
    /// keeps, and whether the device's route has to be removed from the
    /// routing table; there is none for an unknown id.
    pub fn cleanup_session(&mut self, session_id: &SessionId) -> (r: Option<SessionCleanup>)
        requires
            old(self).wf(),
        ensures
            final(self).wf(),
            final(self)@ == old(self)@.after_cleanup(session_id@),
            r is Some <==> old(self)@.sessions.contains_key(session_id@),
            r matches Some(c) ==> {
                &&& c.uid == old(self)@.sessions[session_id@].uid
                &&& c.client_id@ == old(self)@.sessions[session_id@].client_id
                &&& c.remaining_sessions == saturate(old(self)@.remaining_after_cleanup(session_id@))
                &&& c.remaining_sessions == saturate(
                    (total_len(devices_of(old(self)@, old(self)@.sessions[session_id@].uid)) - 1) as nat,
                )
                &&& c.unregister_device == old(self)@.clears_device(session_id@)
            },
            final(self).route_cache() == if old(self)@.clears_device(session_id@) {
                old(self).route_cache().without_route(
                    route_field_spec(
                        old(self)@.sessions[session_id@].uid,
                        old(self)@.sessions[session_id@].client_id,
                    ),
                )
            } else {
                old(self).route_cache()
            },
    {
        let ghost v = self@;
        let ghost id = session_id@;
        proof {
            lemma_cleanup_preserves_wf(v, id);
        }
        let removed = sessions_remove(&mut self.sessions, session_id.as_str());
        let session = match removed {
            Some(s) => s,
            None => {
                assert(self@.sessions =~= v.sessions);
                assert(self@ =~= v);
                return None;
            },
        };
        let ghost sv = session@;
        let uid = session.uid;
        let client_id = session.client_id;
        session_users_remove(&mut self.session_user, session_id.as_str());
        session_clients_remove(&mut self.session_client, session_id.as_str());
        let mut remaining: usize = 0;
        let mut cleared = false;
        match users_remove(&mut self.user_device_sessions, uid) {
            None => {},
            Some(device_map) => {
                let mut device_map = device_map;
                let ghost d = v.devices[uid];
                let mut should_remove = false;
                match devices_remove(&mut device_map, client_id.as_str()) {
                    Some(ids) => {
                        if ids.len() == 1 && vec_contains_string(&ids, session_id) {
                            should_remove = true;
                        }
                        let rest = remove_string(&ids, session_id);
                        devices_insert(&mut device_map, client_id.clone(), rest);
                    },
                    None => {},
                }
                let ghost d1 = v.devices_without(uid, sv.client_id, id);
                assert(device_table(device_map) =~= d1);
                assert(should_remove == v.empties_device(uid, sv.client_id, id));
                assert(d1.dom().finite()) by {
                    assert(session_indexed(v, id));
                }
                remaining = Self::count_sessions(&device_map);
                cleared = should_remove;
                if should_remove {
                    let _ = devices_remove(&mut device_map, client_id.as_str());
                    if !devices_is_empty(&device_map) {
                        users_insert(&mut self.user_device_sessions, uid, device_map);
                    }
                } else {
                    users_insert(&mut self.user_device_sessions, uid, device_map);
                }
            },
        }
        proof {
            assert(self@.sessions =~= v.after_cleanup(id).sessions);
            assert(self@.devices =~= v.after_cleanup(id).devices);
            assert(self@ =~= v.after_cleanup(id));
            if v.devices.contains_key(uid) {
                let d1 = v.devices_without(uid, sv.client_id, id);
                assert(session_indexed(v, id));
                lemma_total_len_zero(d1);
            }
            lemma_remaining_is_one_fewer(v, id);
        }
        proof {
            assert(session_indexed(v, id));
            assert(cleared == v.clears_device(id));
        }
        if cleared {
            let field = route_field(uid, client_id.as_str());
            self.router_cache.remove(field.as_str());
        }
        let unregister_device = cleared;
        Some(SessionCleanup { uid, client_id, remaining_sessions: remaining, unregister_device })
    }
}

} // verus!
