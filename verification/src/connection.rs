//! What a WebSocket connection decides: whether to take it, and what each
//! incoming frame asks for.
use vstd::prelude::*;
use crate::cache_keys::opt_view;
use crate::text::{decimal, lemma_parse_u64_round_trip, parse_u64, parse_u64_spec};
use crate::types::{ClientId, SessionId, UserId};

verus! {

/// Whether a connection is taken, and under which ids.
pub enum Admission {
    /// The connection is closed at once.
    Reject,
    /// The connection is taken.
    Accept { client_id: ClientId, uid: UserId, session_id: SessionId },
}

/// The user id of a `uid` parameter: its value when it parses, else 0.
pub open spec fn uid_param_value(uid_param: Option<Seq<char>>) -> u64 {
    match uid_param {
        Some(p) => match parse_u64_spec(p) {
            Some(u) => u,
            None => 0,
        },
        None => 0,
    }
}

/// The uid parameter written as the decimal text of any 64-bit number gives
/// that number back, all 64 bits of it.
pub proof fn lemma_uid_param_decimal(n: u64)
    ensures
        uid_param_value(Some(decimal(n as nat))) == n,
{
    lemma_parse_u64_round_trip(n);
}

/// Decides on a new connection. It is refused while the node takes no new
/// connection, and when the `uid` parameter is missing, does not parse, or is
/// 0. A taken connection keeps its `clientId` parameter, or gets
/// `fresh_client_id`, and gets `fresh_session_id` as its session id.
pub fn admit_connection(
    accepting: bool,
    client_id_param: Option<String>,
    uid_param: Option<String>,
    fresh_client_id: String,
    fresh_session_id: String,
) -> (r: Admission)
    ensures
        !accepting ==> r is Reject,
        accepting && uid_param_value(opt_view(uid_param)) == 0 ==> r is Reject,
        accepting && uid_param_value(opt_view(uid_param)) != 0 ==> (r matches Admission::Accept {
            client_id,
            uid,
            session_id,
        } && uid == uid_param_value(opt_view(uid_param)) && client_id@ == match opt_view(
            client_id_param,
        ) {
            Some(c) => c,
            None => fresh_client_id@,
        } && session_id@ == fresh_session_id@),
        forall|n: u64|
            #![trigger decimal(n as nat)]
            accepting && n != 0 && opt_view(uid_param) == Some(decimal(n as nat)) ==> (r matches Admission::Accept {
                uid,
                ..
            } && uid == n),
{
    proof {
        assert forall|n: u64|
            #![trigger decimal(n as nat)]
            opt_view(uid_param) == Some(decimal(n as nat)) implies uid_param_value(opt_view(uid_param)) == n by {
            lemma_uid_param_decimal(n);
        }
    }
    if !accepting {
        return Admission::Reject;
    }
    let client_id = match client_id_param {
        Some(c) => c,
        None => fresh_client_id,
    };
    let uid = match &uid_param {
        Some(p) => match parse_u64(p.as_str()) {
            Some(u) => u,
            None => 0,
        },
        None => 0,
    };
    if uid == 0 {
        return Admission::Reject;
    }
    Admission::Accept { client_id, uid, session_id: fresh_session_id }
}

/// The text of a version-4 UUID in its hyphenated lower-case form: 36
/// characters, hyphens at 8, 13, 18 and 23, lower-case hex digits elsewhere.
pub open spec fn is_uuid_text(s: Seq<char>) -> bool {
    &&& s.len() == 36
    &&& forall|i: int|
        0 <= i < 36 ==> if i == 8 || i == 13 || i == 18 || i == 23 {
            #[trigger] s[i] == '-'
        } else {
            ('0' <= s[i] <= '9') || ('a' <= s[i] <= 'f')
        }
}

/// `uuid::Uuid::new_v4()`, written with its `Display` form (hyphenated,
/// lower-case hex). The contract claims only that form; which UUID comes out
/// is chance.
#[verifier::external_body]
fn new_uuid_text() -> (r: String)
    ensures
        is_uuid_text(r@),
{
    uuid::Uuid::new_v4().to_string()
}

/// Admits a connection as `admit_connection` does, drawing a fresh random
/// UUID for the session and for a missing client id.
pub fn admit_connection_with_fresh_ids(
    accepting: bool,
    client_id_param: Option<String>,
    uid_param: Option<String>,
) -> (r: Admission)
    ensures
        !accepting ==> r is Reject,
        accepting && uid_param_value(opt_view(uid_param)) == 0 ==> r is Reject,
        accepting && uid_param_value(opt_view(uid_param)) != 0 ==> (r matches Admission::Accept {
            client_id,
            uid,
            session_id,
        } && uid == uid_param_value(opt_view(uid_param)) && match opt_view(client_id_param) {
            Some(c) => client_id@ == c,
            None => is_uuid_text(client_id@),
        } && is_uuid_text(session_id@)),
        forall|n: u64|
            #![trigger decimal(n as nat)]
            accepting && n != 0 && opt_view(uid_param) == Some(decimal(n as nat)) ==> (r matches Admission::Accept {
                uid,
                ..
            } && uid == n),
{
    let fresh_client_id = new_uuid_text();
    let fresh_session_id = new_uuid_text();
    admit_connection(accepting, client_id_param, uid_param, fresh_client_id, fresh_session_id)
}

/// The kind of an incoming WebSocket frame.
pub enum FrameKind {
    Text,
    Binary,
    Ping,
    Pong,
    Close,
}

/// What to do with an incoming frame.
pub enum FrameAction {
    /// Hand the text to the request processors.
    Dispatch,
    /// Nothing more.
    Ignore,
    /// Answer with a pong carrying the ping's payload.
    ReplyPong,
    /// End the connection.
    Stop,
}

/// What a frame asks for: every frame but a close marks the session as heard
/// from; text goes to the processors, a ping is answered, a close ends the
/// connection.
pub fn on_frame(kind: FrameKind) -> (r: (bool, FrameAction))
    ensures
        r.0 == !(kind is Close),
        kind is Text ==> r.1 is Dispatch,
        kind is Binary ==> r.1 is Ignore,
        kind is Ping ==> r.1 is ReplyPong,
        kind is Pong ==> r.1 is Ignore,
        kind is Close ==> r.1 is Stop,
{
    match kind {
        FrameKind::Text => (true, FrameAction::Dispatch),
        FrameKind::Binary => (true, FrameAction::Ignore),
        FrameKind::Ping => (true, FrameAction::ReplyPong),
        FrameKind::Pong => (true, FrameAction::Ignore),
        FrameKind::Close => (false, FrameAction::Stop),
    }
}

} // verus!
