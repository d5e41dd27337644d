//! The concurrent maps (`dashmap::DashMap`) that hold the node's sessions, and
//! what the session manager calls on them. Each map's contents are named by an
//! uninterpreted function, and every wrapper states its effect over that name.
//! The wrappers that change a map take it by `&mut`, so that every change of
//! a map's contents is stated on the map that changes.
use vstd::prelude::*;
use dashmap::DashMap;
use crate::session::{Session, SessionView};

verus! {

#[verifier::external_type_specification]
#[verifier::external_body]
#[verifier::reject_recursive_types(K)]
#[verifier::reject_recursive_types(V)]
#[verifier::reject_recursive_types(S)]
pub struct ExDashMap<K, V, S>(DashMap<K, V, S>);

/// Session id to session.
pub uninterp spec fn session_table(m: DashMap<String, Session>) -> Map<Seq<char>, SessionView>;

/// Session id to the user that owns it.
pub uninterp spec fn session_user_table(m: DashMap<String, u64>) -> Map<Seq<char>, u64>;

/// Session id to the client device it runs on.
pub uninterp spec fn session_client_table(m: DashMap<String, String>) -> Map<
    Seq<char>,
    Seq<char>,
>;

/// Client device to the ids of its sessions.
pub uninterp spec fn device_table(m: DashMap<String, Vec<String>>) -> Map<
    Seq<char>,
    Seq<Seq<char>>,
>;

/// User to its client devices and their sessions.
pub uninterp spec fn user_device_table(m: DashMap<u64, DashMap<String, Vec<String>>>) -> Map<
    u64,
    Map<Seq<char>, Seq<Seq<char>>>,
>;

// ---- session id -> session

/// `DashMap::new`: an empty map.
#[verifier::external_body]
pub(crate) fn sessions_new() -> (r: DashMap<String, Session>)
    ensures
        session_table(r).dom().is_empty(),
{
    DashMap::new()
}

/// `DashMap::insert`: the key now maps to the value.
#[verifier::external_body]
pub(crate) fn sessions_insert(m: &mut DashMap<String, Session>, k: String, v: Session)
    ensures
        session_table(*final(m)) == session_table(*old(m)).insert(k@, v@),
{
    m.insert(k, v);
}

/// `DashMap::remove`: the key no longer maps to anything; the removed value,
/// if there was one, is handed back.
#[verifier::external_body]
pub(crate) fn sessions_remove(m: &mut DashMap<String, Session>, k: &str) -> (r: Option<Session>)
    ensures
        session_table(*final(m)) == session_table(*old(m)).remove(k@),
        r is Some <==> session_table(*old(m)).contains_key(k@),
        r matches Some(v) ==> v@ == session_table(*old(m))[k@],
{
    m.remove(k).map(|(_, v)| v)
}

/// `DashMap::get`, the entry's value copied out.
#[verifier::external_body]
pub(crate) fn sessions_get(m: &DashMap<String, Session>, k: &str) -> (r: Option<Session>)
    ensures
        r is Some <==> session_table(*m).contains_key(k@),
        r matches Some(v) ==> v@ == session_table(*m)[k@],
{
    m.get(k).map(|e| e.value().clone())
}

/// `DashMap::len`: the number of entries.
#[verifier::external_body]
pub(crate) fn sessions_len(m: &DashMap<String, Session>) -> (r: usize)
    ensures
        r == session_table(*m).len(),
{
    m.len()
}

/// `DashMap::iter`, each entry copied out: every entry once, in the map's
/// own order, which is not stated.
#[verifier::external_body]
pub(crate) fn sessions_entries(m: &DashMap<String, Session>) -> (r: Vec<(String, Session)>)
    ensures
        forall|i: int|
            #![trigger r@[i]]
            0 <= i < r.len() ==> session_table(*m).contains_key(r@[i].0@) && r@[i].1@
                == session_table(*m)[r@[i].0@],
        forall|i: int, j: int|
            #![trigger r@[i], r@[j]]
            0 <= i < r.len() && 0 <= j < r.len() && i != j ==> r@[i].0@ != r@[j].0@,
        forall|k: Seq<char>|
            #[trigger] session_table(*m).contains_key(k) ==> exists|i: int|
                0 <= i < r.len() && r@[i].0@ == k,
{
    m.iter().map(|e| (e.key().clone(), e.value().clone())).collect()
}

// ---- session id -> user

/// `DashMap::new`: an empty map.
#[verifier::external_body]
pub(crate) fn session_users_new() -> (r: DashMap<String, u64>)
    ensures
        session_user_table(r).dom().is_empty(),
{
    DashMap::new()
}

/// `DashMap::insert`: the key now maps to the value.
#[verifier::external_body]
pub(crate) fn session_users_insert(m: &mut DashMap<String, u64>, k: String, v: u64)
    ensures
        session_user_table(*final(m)) == session_user_table(*old(m)).insert(k@, v),
{
    m.insert(k, v);
}

/// `DashMap::remove`: the key no longer maps to anything.
#[verifier::external_body]
pub(crate) fn session_users_remove(m: &mut DashMap<String, u64>, k: &str)
    ensures
        session_user_table(*final(m)) == session_user_table(*old(m)).remove(k@),
{
    m.remove(k);
}

// ---- session id -> client device

/// `DashMap::new`: an empty map.
#[verifier::external_body]
pub(crate) fn session_clients_new() -> (r: DashMap<String, String>)
    ensures
        session_client_table(r).dom().is_empty(),
{
    DashMap::new()
}

/// `DashMap::insert`: the key now maps to the value.
#[verifier::external_body]
pub(crate) fn session_clients_insert(m: &mut DashMap<String, String>, k: String, v: String)
    ensures
        session_client_table(*final(m)) == session_client_table(*old(m)).insert(k@, v@),
{
    m.insert(k, v);
}

/// `DashMap::remove`: the key no longer maps to anything.
#[verifier::external_body]
pub(crate) fn session_clients_remove(m: &mut DashMap<String, String>, k: &str)
    ensures
        session_client_table(*final(m)) == session_client_table(*old(m)).remove(k@),
{
    m.remove(k);
}

// ---- client device -> session ids

/// `DashMap::new`: an empty map.
#[verifier::external_body]
pub(crate) fn devices_new() -> (r: DashMap<String, Vec<String>>)
    ensures
        device_table(r).dom().is_empty(),
{
    DashMap::new()
}

/// `DashMap::insert`: the key now maps to the value.
#[verifier::external_body]
pub(crate) fn devices_insert(m: &mut DashMap<String, Vec<String>>, k: String, v: Vec<String>)
    ensures
        device_table(*final(m)) == device_table(*old(m)).insert(k@, v.deep_view()),
{
    m.insert(k, v);
}

/// `DashMap::remove`: the key no longer maps to anything; the removed value,
/// if there was one, is handed back.
#[verifier::external_body]
pub(crate) fn devices_remove(m: &mut DashMap<String, Vec<String>>, k: &str) -> (r: Option<Vec<String>>)
    ensures
        device_table(*final(m)) == device_table(*old(m)).remove(k@),
        r is Some <==> device_table(*old(m)).contains_key(k@),
        r matches Some(v) ==> v.deep_view() == device_table(*old(m))[k@],
{
    m.remove(k).map(|(_, v)| v)
}

/// `DashMap::get`, the entry's value copied out.
#[verifier::external_body]
pub(crate) fn devices_get(m: &DashMap<String, Vec<String>>, k: &str) -> (r: Option<Vec<String>>)
    ensures
        r is Some <==> device_table(*m).contains_key(k@),
        r matches Some(v) ==> v.deep_view() == device_table(*m)[k@],
{
    m.get(k).map(|e| e.value().clone())
}

/// `DashMap::is_empty`: whether the map has no entry.
#[verifier::external_body]
pub(crate) fn devices_is_empty(m: &DashMap<String, Vec<String>>) -> (r: bool)
    ensures
        r == device_table(*m).dom().is_empty(),
{
    m.is_empty()
}

/// `DashMap::iter`, each entry copied out: every entry once, in the map's
/// own order, which is not stated.
#[verifier::external_body]
pub(crate) fn devices_entries(m: &DashMap<String, Vec<String>>) -> (r: Vec<(String, Vec<String>)>)
    ensures
        forall|i: int|
            #![trigger r@[i]]
            0 <= i < r.len() ==> device_table(*m).contains_key(r@[i].0@) && r@[i].1.deep_view()
                == device_table(*m)[r@[i].0@],
        forall|i: int, j: int|
            #![trigger r@[i], r@[j]]
            0 <= i < r.len() && 0 <= j < r.len() && i != j ==> r@[i].0@ != r@[j].0@,
        forall|k: Seq<char>|
            #[trigger] device_table(*m).contains_key(k) ==> exists|i: int|
                0 <= i < r.len() && r@[i].0@ == k,
{
    m.iter().map(|e| (e.key().clone(), e.value().clone())).collect()
}

// ---- user -> client devices

/// `DashMap::new`: an empty map.
#[verifier::external_body]
pub(crate) fn users_new() -> (r: DashMap<u64, DashMap<String, Vec<String>>>)
    ensures
        user_device_table(r).dom().is_empty(),
{
    DashMap::new()
}

/// `DashMap::insert`: the key now maps to the value.
#[verifier::external_body]
pub(crate) fn users_insert(
    m: &mut DashMap<u64, DashMap<String, Vec<String>>>,
    k: u64,
    v: DashMap<String, Vec<String>>,
)
    ensures
        user_device_table(*final(m)) == user_device_table(*old(m)).insert(k, device_table(v)),
{
    m.insert(k, v);
}

/// `DashMap::remove`: the key no longer maps to anything; the removed value,
/// if there was one, is handed back.
#[verifier::external_body]
pub(crate) fn users_remove(m: &mut DashMap<u64, DashMap<String, Vec<String>>>, k: u64) -> (r: Option<
    DashMap<String, Vec<String>>,
>)
    ensures
        user_device_table(*final(m)) == user_device_table(*old(m)).remove(k),
        r is Some <==> user_device_table(*old(m)).contains_key(k),
        r matches Some(v) ==> device_table(v) == user_device_table(*old(m))[k],
{
    m.remove(&k).map(|(_, v)| v)
}

/// `DashMap::get`, the entry's value copied out.
#[verifier::external_body]
pub(crate) fn users_get(m: &DashMap<u64, DashMap<String, Vec<String>>>, k: u64) -> (r: Option<
    DashMap<String, Vec<String>>,
>)
    ensures
        r is Some <==> user_device_table(*m).contains_key(k),
        r matches Some(v) ==> device_table(v) == user_device_table(*m)[k],
{
    m.get(&k).map(|e| e.value().clone())
}

/// `DashMap::iter`, each entry copied out: every entry once, in the map's
/// own order, which is not stated.
#[verifier::external_body]
pub(crate) fn users_entries(m: &DashMap<u64, DashMap<String, Vec<String>>>) -> (r: Vec<
    (u64, DashMap<String, Vec<String>>),
>)
    ensures
        forall|i: int|
            #![trigger r@[i]]
            0 <= i < r.len() ==> user_device_table(*m).contains_key(r@[i].0) && device_table(
                r@[i].1,
            ) == user_device_table(*m)[r@[i].0],
        forall|i: int, j: int|
            #![trigger r@[i], r@[j]]
            0 <= i < r.len() && 0 <= j < r.len() && i != j ==> r@[i].0 != r@[j].0,
        forall|k: u64|
            #[trigger] user_device_table(*m).contains_key(k) ==> exists|i: int|
                0 <= i < r.len() && r@[i].0 == k,
{
    m.iter().map(|e| (*e.key(), e.value().clone())).collect()
}

} // verus!
