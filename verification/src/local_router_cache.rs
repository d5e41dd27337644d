//! The node's local copy of the routing table: for each device field
//! `"{uid}:{client}"`, the node that holds the device, each entry kept for a
//! limited time (30 seconds by default). The whole table is copied in from
//! Redis when a push needs it and the copy is older than that time; while the
//! copy is fresh, pushes are routed from it. Registering a device writes its
//! entry and unregistering removes it, as the node does in Redis. Times are
//! seconds, handed in by the caller.
use vstd::prelude::*;
use dashmap::DashMap;
use crate::push_routing::entries_view;

verus! {

/// Seconds an entry of the local copy stays fresh by default.
pub const DEFAULT_ROUTER_CACHE_TTL_SECS: u64 = 30;

/// An entry of the local copy: the node of a device, and when it goes stale.
#[derive(Clone)]
pub struct CachedRoute {
    /// The node that holds the device.
    pub node_id: String,
    /// The first second at which the entry is stale.
    pub expires_at: u64,
}

/// The view of an entry.
pub struct CachedRouteView {
    pub node_id: Seq<char>,
    pub expires_at: u64,
}

impl View for CachedRoute {
    type V = CachedRouteView;

    open spec fn view(&self) -> CachedRouteView {
        CachedRouteView { node_id: self.node_id@, expires_at: self.expires_at }
    }
}

/// The contents of the map behind the local copy: device field to entry.
pub uninterp spec fn route_cache_table(m: DashMap<String, CachedRoute>) -> Map<Seq<char>, CachedRouteView>;

/// `DashMap::new`: an empty map.
#[verifier::external_body]
fn routes_new() -> (r: DashMap<String, CachedRoute>)
    ensures
        route_cache_table(r).dom().is_empty(),
{
    DashMap::new()
}

/// `DashMap::insert`: the key now maps to the value.
#[verifier::external_body]
fn routes_insert(m: &mut DashMap<String, CachedRoute>, k: String, v: CachedRoute)
    ensures
        route_cache_table(*final(m)) == route_cache_table(*old(m)).insert(k@, v@),
{
    m.insert(k, v);
}

/// `DashMap::remove`: the key no longer maps to anything.
#[verifier::external_body]
fn routes_remove(m: &mut DashMap<String, CachedRoute>, k: &str)
    ensures
        route_cache_table(*final(m)) == route_cache_table(*old(m)).remove(k@),
{
    m.remove(k);
}

/// `DashMap::get`, the entry's value copied out.
#[verifier::external_body]
fn routes_get(m: &DashMap<String, CachedRoute>, k: &str) -> (r: Option<CachedRoute>)
    ensures
        r is Some <==> route_cache_table(*m).contains_key(k@),
        r matches Some(v) ==> v@ == route_cache_table(*m)[k@],
{
    m.get(k).map(|e| e.value().clone())
}

/// `DashMap::iter`, each entry copied out: every entry once, in the map's
/// own order, which is not stated.
#[verifier::external_body]
fn routes_entries(m: &DashMap<String, CachedRoute>) -> (r: Vec<(String, CachedRoute)>)
    ensures
        forall|i: int|
            #![trigger r@[i]]
            0 <= i < r.len() ==> route_cache_table(*m).contains_key(r@[i].0@) && r@[i].1@
                == route_cache_table(*m)[r@[i].0@],
        forall|i: int, j: int|
            #![trigger r@[i], r@[j]]
            0 <= i < r.len() && 0 <= j < r.len() && i != j ==> r@[i].0@ != r@[j].0@,
        forall|k: Seq<char>|
            #[trigger] route_cache_table(*m).contains_key(k) ==> exists|i: int|
                0 <= i < r.len() && r@[i].0@ == k,
{
    m.iter().map(|e| (e.key().clone(), e.value().clone())).collect()
}

/// The second at which an entry written at `now` goes stale: `now + ttl`,
/// or the last second when that does not fit.
pub open spec fn expiry(now: u64, ttl: u64) -> u64 {
    if now + ttl <= u64::MAX {
        (now + ttl) as u64
    } else {
        u64::MAX
    }
}

/// An entry is fresh at `now` before its expiry.
pub open spec fn is_fresh(e: CachedRouteView, now: u64) -> bool {
    now < e.expires_at
}

/// The view of the local copy.
pub struct LocalRouterCacheView {
    /// Device field to entry.
    pub entries: Map<Seq<char>, CachedRouteView>,
    /// How long an entry stays fresh.
    pub ttl_secs: u64,
    /// When the whole table was last copied in, if ever.
    pub refreshed_at: Option<u64>,
}

impl LocalRouterCacheView {
    /// The copy with device `field` routed to `node` from time `now`.
    pub open spec fn with_route(self, field: Seq<char>, node: Seq<char>, now: u64) -> LocalRouterCacheView {
        LocalRouterCacheView {
            entries: self.entries.insert(
                field,
                CachedRouteView { node_id: node, expires_at: expiry(now, self.ttl_secs) },
            ),
            ..self
        }
    }

    /// The copy without an entry for `field`.
    pub open spec fn without_route(self, field: Seq<char>) -> LocalRouterCacheView {
        LocalRouterCacheView { entries: self.entries.remove(field), ..self }
    }

    /// The node of `field` at time `now`, if its entry is there and fresh.
    pub open spec fn route_at(self, field: Seq<char>, now: u64) -> Option<Seq<char>> {
        if self.entries.contains_key(field) && is_fresh(self.entries[field], now) {
            Some(self.entries[field].node_id)
        } else {
            None
        }
    }

    /// The copy with only its entries that are fresh at `now`.
    pub open spec fn purged(self, now: u64) -> LocalRouterCacheView {
        LocalRouterCacheView {
            entries: Map::new(
                |k: Seq<char>| self.entries.contains_key(k) && is_fresh(self.entries[k], now),
                |k: Seq<char>| self.entries[k],
            ),
            ..self
        }
    }

    /// The copy with the table entries `items` (field, node) written at `now`,
    /// in order.
    pub open spec fn filled(self, items: Seq<(Seq<char>, Seq<char>)>, now: u64) -> LocalRouterCacheView
        decreases items.len(),
    {
        if items.len() == 0 {
            self
        } else {
            self.filled(items.drop_last(), now).with_route(items.last().0, items.last().1, now)
        }
    }

    /// The copy of the whole table is fresh at `now`.
    pub open spec fn snapshot_fresh(self, now: u64) -> bool {
        self.refreshed_at matches Some(t) && now < expiry(t, self.ttl_secs)
    }

    /// The copy after the whole table `items` (field, node), read at `now`,
    /// replaced its entries.
    pub open spec fn refreshed(self, items: Seq<(Seq<char>, Seq<char>)>, now: u64) -> LocalRouterCacheView {
        LocalRouterCacheView { entries: Map::empty(), refreshed_at: Some(now), ..self }.filled(items, now)
    }

    /// `items` lists the entries fresh at `now`, as (field, node), each once.
    pub open spec fn lists_fresh(self, items: Seq<(Seq<char>, Seq<char>)>, now: u64) -> bool {
        &&& forall|k: int|
            #![trigger items[k]]
            0 <= k < items.len() ==> self.route_at(items[k].0, now) == Some(items[k].1)
        &&& forall|a: int, b: int|
            #![trigger items[a], items[b]]
            0 <= a < items.len() && 0 <= b < items.len() && a != b ==> items[a].0 != items[b].0
        &&& forall|f: Seq<char>|
            #[trigger] self.entries.contains_key(f) && is_fresh(self.entries[f], now) ==> exists|k: int|
                0 <= k < items.len() && items[k].0 == f
    }
}

/// Writing a route and reading it back before it goes stale gives its node.
pub proof fn lemma_route_read_back(c: LocalRouterCacheView, field: Seq<char>, node: Seq<char>, now: u64, t: u64)
    requires
        now <= t,
        t < expiry(now, c.ttl_secs),
    ensures
        c.with_route(field, node, now).route_at(field, t) == Some(node),
{
}

/// Once a route is removed, reading it gives nothing.
pub proof fn lemma_removed_route_is_gone(c: LocalRouterCacheView, field: Seq<char>, t: u64)
    ensures
        c.without_route(field).route_at(field, t) is None,
{
}

/// After copying in table entries with distinct fields at `now`, each entry
/// reads back with its node until `now + ttl`.
pub proof fn lemma_filled_holds_entries(
    c: LocalRouterCacheView,
    items: Seq<(Seq<char>, Seq<char>)>,
    now: u64,
    t: u64,
    k: int,
)
    requires
        0 <= k < items.len(),
        forall|a: int, b: int|
            #![trigger items[a], items[b]]
            0 <= a < items.len() && 0 <= b < items.len() && a != b ==> items[a].0 != items[b].0,
        now <= t,
        t < expiry(now, c.ttl_secs),
    ensures
        c.filled(items, now).route_at(items[k].0, t) == Some(items[k].1),
    decreases items.len(),
{
    let last = items.len() - 1;
    if k < last {
        let rest = items.drop_last();
        assert forall|a: int, b: int|
            #![trigger rest[a], rest[b]]
            0 <= a < rest.len() && 0 <= b < rest.len() && a != b implies rest[a].0 != rest[b].0 by {
            assert(rest[a] == items[a] && rest[b] == items[b]);
        }
        assert(rest[k] == items[k]);
        lemma_filled_holds_entries(c, rest, now, t, k);
        lemma_filled_keeps_ttl(c, rest, now);
        assert(items[k].0 != items[last].0);
    }
    lemma_filled_keeps_ttl(c, items.drop_last(), now);
}

/// Copying entries in keeps the freshness period.
pub proof fn lemma_filled_keeps_ttl(c: LocalRouterCacheView, items: Seq<(Seq<char>, Seq<char>)>, now: u64)
    ensures
        c.filled(items, now).ttl_secs == c.ttl_secs,
        c.filled(items, now).refreshed_at == c.refreshed_at,
    decreases items.len(),
{
    if items.len() > 0 {
        lemma_filled_keeps_ttl(c, items.drop_last(), now);
    }
}

/// Copying entries in adds no field but theirs.
pub proof fn lemma_filled_only_items(c: LocalRouterCacheView, items: Seq<(Seq<char>, Seq<char>)>, now: u64, f: Seq<char>)
    requires
        c.filled(items, now).entries.contains_key(f),
    ensures
        c.entries.contains_key(f) || exists|j: int| 0 <= j < items.len() && items[j].0 == f,
    decreases items.len(),
{
    if items.len() > 0 {
        let rest = items.drop_last();
        if f != items.last().0 {
            lemma_filled_only_items(c, rest, now, f);
            if !c.entries.contains_key(f) {
                let j = choose|j: int| 0 <= j < rest.len() && rest[j].0 == f;
                assert(items[j] == rest[j]);
            }
        }
    }
}

/// A copy of the table stays exact while it is fresh: right after the whole
/// table `items` (distinct fields) is copied in at `t`, and until `t + ttl`,
/// the copy is fresh and its fresh entries are exactly the table's entries,
/// so a push routed from it reaches the devices that the table lists.
pub proof fn lemma_refresh_is_transparent(
    c: LocalRouterCacheView,
    items: Seq<(Seq<char>, Seq<char>)>,
    t: u64,
    now: u64,
    listed: Seq<(Seq<char>, Seq<char>)>,
)
    requires
        forall|a: int, b: int|
            #![trigger items[a], items[b]]
            0 <= a < items.len() && 0 <= b < items.len() && a != b ==> items[a].0 != items[b].0,
        t <= now,
        now < expiry(t, c.ttl_secs),
        c.refreshed(items, t).lists_fresh(listed, now),
    ensures
        c.refreshed(items, t).snapshot_fresh(now),
        forall|k: int| 0 <= k < listed.len() ==> exists|j: int| 0 <= j < items.len() && #[trigger] listed[k] == items[j],
        forall|j: int| 0 <= j < items.len() ==> exists|k: int| 0 <= k < listed.len() && listed[k] == #[trigger] items[j],
{
    let base = LocalRouterCacheView { entries: Map::empty(), refreshed_at: Some(t), ..c };
    let r = c.refreshed(items, t);
    lemma_filled_keeps_ttl(base, items, t);
    assert forall|k: int| 0 <= k < listed.len() implies exists|j: int| 0 <= j < items.len() && #[trigger] listed[k]
        == items[j] by {
        assert(r.route_at(listed[k].0, now) == Some(listed[k].1));
        lemma_filled_only_items(base, items, t, listed[k].0);
        let j = choose|j: int| 0 <= j < items.len() && items[j].0 == listed[k].0;
        lemma_filled_holds_entries(base, items, t, now, j);
    }
    assert forall|j: int| 0 <= j < items.len() implies exists|k: int| 0 <= k < listed.len() && listed[k]
        == #[trigger] items[j] by {
        lemma_filled_holds_entries(base, items, t, now, j);
        let f = items[j].0;
        assert(r.entries.contains_key(f) && is_fresh(r.entries[f], now));
        let k = choose|k: int| 0 <= k < listed.len() && listed[k].0 == f;
        assert(r.route_at(listed[k].0, now) == Some(listed[k].1));
    }
}

/// The local copy of the routing table.
pub struct LocalRouterCache {
    entries: DashMap<String, CachedRoute>,
    ttl_secs: u64,
    refreshed_at: Option<u64>,
}

impl View for LocalRouterCache {
    type V = LocalRouterCacheView;

    closed spec fn view(&self) -> LocalRouterCacheView {
        LocalRouterCacheView {
            entries: route_cache_table(self.entries),
            ttl_secs: self.ttl_secs,
            refreshed_at: self.refreshed_at,
        }
    }
}

impl LocalRouterCache {
    /// An empty copy whose entries stay fresh for `ttl_secs` seconds.
    pub fn new(ttl_secs: u64) -> (r: Self)
        ensures
            r@.entries.dom().is_empty(),
            r@.ttl_secs == ttl_secs,
            r@.refreshed_at is None,
    {
        LocalRouterCache { entries: routes_new(), ttl_secs, refreshed_at: None }
    }

    /// How long an entry stays fresh.
    pub fn ttl_secs(&self) -> (r: u64)
        ensures
            r == self@.ttl_secs,
    {
        self.ttl_secs
    }

    /// Routes device `field` to `node_id` from time `now`.
    pub fn put(&mut self, field: String, node_id: String, now: u64)
        ensures
            final(self)@ == old(self)@.with_route(field@, node_id@, now),
    {
        let expires_at = now.saturating_add(self.ttl_secs);
        routes_insert(&mut self.entries, field, CachedRoute { node_id, expires_at });
        assert(self@.entries =~= old(self)@.with_route(field@, node_id@, now).entries);
    }

    /// Removes the entry of device `field`.
    pub fn remove(&mut self, field: &str)
        ensures
            final(self)@ == old(self)@.without_route(field@),
    {
        routes_remove(&mut self.entries, field);
    }

    /// The node of device `field` at time `now`, if its entry is fresh.
    pub fn get(&self, field: &str, now: u64) -> (r: Option<String>)
        ensures
            match r {
                Some(n) => self@.route_at(field@, now) == Some(n@),
                None => self@.route_at(field@, now) is None,
            },
    {
        match routes_get(&self.entries, field) {
            Some(e) => if now < e.expires_at {
                Some(e.node_id)
            } else {
                None
            },
            None => None,
        }
    }

    /// Drops the entries that are stale at `now`.
    pub fn purge_expired(&mut self, now: u64)
        ensures
            final(self)@ == old(self)@.purged(now),
    {
        let ghost orig = self@.entries;
        let entries = routes_entries(&self.entries);
        let mut kept = routes_new();
        let mut i: usize = 0;
        while i < entries.len()
            invariant
                i <= entries.len(),
                forall|k: int|
                    #![trigger entries@[k]]
                    0 <= k < entries.len() ==> orig.contains_key(entries@[k].0@) && entries@[k].1@
                        == orig[entries@[k].0@],
                forall|a: int, b: int|
                    #![trigger entries@[a], entries@[b]]
                    0 <= a < entries.len() && 0 <= b < entries.len() && a != b ==> entries@[a].0@
                        != entries@[b].0@,
                forall|f: Seq<char>|
                    #[trigger] route_cache_table(kept).contains_key(f) ==> orig.contains_key(f)
                        && is_fresh(orig[f], now) && route_cache_table(kept)[f] == orig[f],
                forall|k: int|
                    #![trigger entries@[k]]
                    0 <= k < i && is_fresh(entries@[k].1@, now) ==> route_cache_table(kept).contains_key(
                        entries@[k].0@,
                    ),
            decreases entries.len() - i,
        {
            if now < entries[i].1.expires_at {
                let ghost before = route_cache_table(kept);
                let entry = CachedRoute { node_id: entries[i].1.node_id.clone(), expires_at: entries[i].1.expires_at };
                routes_insert(&mut kept, entries[i].0.clone(), entry);
                proof {
                    assert forall|k: int|
                        #![trigger entries@[k]]
                        0 <= k < i + 1 && is_fresh(entries@[k].1@, now) implies route_cache_table(
                            kept,
                        ).contains_key(entries@[k].0@) by {
                        if k < i {
                            assert(before.contains_key(entries@[k].0@));
                        }
                    }
                }
            }
            i = i + 1;
        }
        self.entries = kept;
        proof {
            let p = old(self)@.purged(now).entries;
            assert forall|f: Seq<char>| p.contains_key(f) implies route_cache_table(self.entries).contains_key(
                f,
            ) by {
                let k = choose|k: int| 0 <= k < entries.len() && entries@[k].0@ == f;
                assert(entries@[k].1@ == orig[f]);
            }
            assert(route_cache_table(self.entries) =~= p);
        }
    }

    /// Replaces the copy by the whole table `items` (field, node), read at
    /// time `now`; later entries for a field win.
    pub fn refresh(&mut self, items: &Vec<(String, String)>, now: u64)
        ensures
            final(self)@ == old(self)@.refreshed(entries_view(items@), now),
    {
        let ghost base = LocalRouterCacheView { entries: Map::empty(), refreshed_at: Some(now), ..old(self)@ };
        self.entries = routes_new();
        self.refreshed_at = Some(now);
        assert(self@.entries =~= base.entries);
        assert(self@ == base.filled(entries_view(items@).take(0), now));
        let mut i: usize = 0;
        while i < items.len()
            invariant
                i <= items.len(),
                self@ == base.filled(entries_view(items@).take(i as int), now),
            decreases items.len() - i,
        {
            let ghost before = self@;
            self.put(items[i].0.clone(), items[i].1.clone(), now);
            proof {
                let t = entries_view(items@).take(i + 1);
                assert(t.drop_last() =~= entries_view(items@).take(i as int));
                assert(t.last() == (items@[i as int].0@, items@[i as int].1@));
            }
            i = i + 1;
        }
        assert(entries_view(items@).take(items.len() as int) =~= entries_view(items@));
    }

    /// The fresh entries at `now`, as (field, node), while the copy of the
    /// whole table is fresh; none when the table has to be read again.
    pub fn lookup(&self, now: u64) -> (r: Option<Vec<(String, String)>>)
        ensures
            r is Some <==> self@.snapshot_fresh(now),
            r matches Some(items) ==> self@.lists_fresh(entries_view(items@), now),
    {
        match self.refreshed_at {
            Some(t) => {
                if now >= t.saturating_add(self.ttl_secs) {
                    return None;
                }
            },
            None => {
                return None;
            },
        }
        let ghost c = self@;
        let entries = routes_entries(&self.entries);
        let mut fresh: Vec<(String, String)> = Vec::new();
        let ghost mut src: Seq<int> = seq![];
        let mut i: usize = 0;
        while i < entries.len()
            invariant
                i <= entries.len(),
                c == self@,
                forall|k: int|
                    #![trigger entries@[k]]
                    0 <= k < entries.len() ==> c.entries.contains_key(entries@[k].0@) && entries@[k].1@
                        == c.entries[entries@[k].0@],
                forall|a: int, b: int|
                    #![trigger entries@[a], entries@[b]]
                    0 <= a < entries.len() && 0 <= b < entries.len() && a != b ==> entries@[a].0@
                        != entries@[b].0@,
                src.len() == fresh.len(),
                forall|k: int|
                    #![trigger src[k]]
                    0 <= k < fresh.len() ==> 0 <= src[k] < i && fresh@[k].0@ == entries@[src[k]].0@
                        && fresh@[k].1@ == entries@[src[k]].1.node_id@ && is_fresh(entries@[src[k]].1@, now),
                forall|a: int, b: int|
                    #![trigger src[a], src[b]]
                    0 <= a < b < fresh.len() ==> src[a] < src[b],
                forall|k: int|
                    #![trigger entries@[k]]
                    0 <= k < i && is_fresh(entries@[k].1@, now) ==> exists|j: int|
                        0 <= j < fresh.len() && src[j] == k,
            decreases entries.len() - i,
        {
            if now < entries[i].1.expires_at {
                let ghost before = fresh@;
                let ghost bsrc = src;
                fresh.push((entries[i].0.clone(), entries[i].1.node_id.clone()));
                proof {
                    src = src.push(i as int);
                    assert forall|k: int| #![trigger src[k]] 0 <= k < fresh.len() implies 0 <= src[k] < i + 1
                        && fresh@[k].0@ == entries@[src[k]].0@ && fresh@[k].1@ == entries@[src[k]].1.node_id@
                        && is_fresh(entries@[src[k]].1@, now) by {
                        if k < before.len() {
                            assert(fresh@[k] == before[k]);
                            assert(src[k] == bsrc[k]);
                        }
                    }
                    assert forall|a: int, b: int| #![trigger src[a], src[b]] 0 <= a < b < fresh.len() implies src[a]
                        < src[b] by {
                        assert(src[a] == bsrc[a]);
                        if b < before.len() {
                            assert(src[b] == bsrc[b]);
                        }
                    }
                    assert forall|k: int|
                        #![trigger entries@[k]]
                        0 <= k < i + 1 && is_fresh(entries@[k].1@, now) implies exists|j: int|
                        0 <= j < fresh.len() && src[j] == k by {
                        if k < i {
                            let j = choose|j: int| 0 <= j < before.len() && bsrc[j] == k;
                            assert(src[j] == bsrc[j]);
                        } else {
                            assert(src[before.len() as int] == k);
                        }
                    }
                }
            }
            i = i + 1;
        }
        let ghost fv = entries_view(fresh@);
        proof {
            assert forall|k: int| #![trigger fv[k]] 0 <= k < fv.len() implies c.route_at(fv[k].0, now) == Some(
                fv[k].1,
            ) by {
                let a = src[k];
                assert(fv[k] == (fresh@[k].0@, fresh@[k].1@));
            }
            assert forall|a: int, b: int|
                #![trigger fv[a], fv[b]]
                0 <= a < fv.len() && 0 <= b < fv.len() && a != b implies fv[a].0 != fv[b].0 by {
                assert(fv[a] == (fresh@[a].0@, fresh@[a].1@));
                assert(fv[b] == (fresh@[b].0@, fresh@[b].1@));
                let sa = src[a];
                let sb = src[b];
                if a < b {
                    assert(src[a] < src[b]);
                } else {
                    assert(src[b] < src[a]);
                }
                assert(entries@[sa].0@ != entries@[sb].0@);
            }
            assert forall|f: Seq<char>| #[trigger] c.entries.contains_key(f) && is_fresh(c.entries[f], now) implies exists|k: int|
                0 <= k < fv.len() && fv[k].0 == f by {
                let e = choose|e: int| 0 <= e < entries.len() && entries@[e].0@ == f;
                assert(is_fresh(entries@[e].1@, now));
                let j = choose|j: int| 0 <= j < fresh.len() && src[j] == e;
                assert(fv[j] == (fresh@[j].0@, fresh@[j].1@));
            }
            assert(c.lists_fresh(fv, now));
        }
        Some(fresh)
    }
}

impl Default for LocalRouterCache {
    /// An empty copy whose entries stay fresh for 30 seconds.
    fn default() -> (r: Self)
        ensures
            r@.entries.dom().is_empty(),
            r@.ttl_secs == DEFAULT_ROUTER_CACHE_TTL_SECS,
    {
        Self::new(DEFAULT_ROUTER_CACHE_TTL_SECS)
    }
}

} // verus!
