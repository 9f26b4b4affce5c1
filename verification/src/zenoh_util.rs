//! What the toolkit tells zenoh, and what it tells the user about zenoh.

use vstd::prelude::*;
use vstd::string::*;
use zenoh::bytes::Encoding;

use crate::text::same;

verus! {

/// The endpoint of a local router.
pub const DEFAULT_CONNECT: &'static str = "tcp/127.0.0.1:7447";

/// `zenoh::bytes::Encoding`, made from a text and rendered as a text again.
///
/// The text comes back as it was, but for an empty one, and for one of zenoh's
/// predefined encodings with a schema separator and no schema behind it.
#[verifier::external_body]
pub(crate) fn carried(encoding: &str) -> (r: String)
    requires
        encoding@.len() > 0,
        encoding@.last() != ';',
    ensures
        r@ == encoding@,
{
    Encoding::from(encoding).to_string()
}

/// What to do about a router that cannot be reached.
pub open spec fn hint_text(connect: Seq<char>) -> Seq<char> {
    "hint: make sure a Zenoh router is reachable at `"@ + connect + "`."@ + (if connect
        == DEFAULT_CONNECT@ {
        "\nstart a local router in another terminal with:"@
    } else {
        "\nfor a local router, use:"@
    }) + "\n  zenohd -l "@ + DEFAULT_CONNECT@ + "\nor point csyn at an existing router with:"@
        + "\n  csyn --connect tcp/<host>:7447 topic list"@
        + "\n  CSYN_CONNECT=tcp/<host>:7447 csyn topic list"@
}

/// What to do about a router that cannot be reached.
pub fn connection_hint(connect: &str) -> (r: String)
    ensures
        r@ == hint_text(connect@),
{
    let mut hint = "hint: make sure a Zenoh router is reachable at `".to_owned();
    hint.append(connect);
    hint.append("`.");
    if same(connect, DEFAULT_CONNECT) {
        hint.append("\nstart a local router in another terminal with:");
    } else {
        hint.append("\nfor a local router, use:");
    }
    hint.append("\n  zenohd -l ");
    hint.append(DEFAULT_CONNECT);
    hint.append("\nor point csyn at an existing router with:");
    hint.append("\n  csyn --connect tcp/<host>:7447 topic list");
    hint.append("\n  CSYN_CONNECT=tcp/<host>:7447 csyn topic list");
    hint
}

/// How a session that cannot be opened is reported.
pub open spec fn session_error_text(connect: Seq<char>, error: Seq<char>) -> Seq<char> {
    "failed to open Zenoh session at "@ + connect + ": "@ + error + "\n\n"@ + hint_text(connect)
}

/// How a session that cannot be opened is reported.
pub fn session_error(connect: &str, error: &str) -> (r: String)
    ensures
        r@ == session_error_text(connect@, error@),
{
    let mut m = "failed to open Zenoh session at ".to_owned();
    m.append(connect);
    m.append(": ");
    m.append(error);
    m.append("\n\n");
    m.append(connection_hint(connect).as_str());
    m
}

/// A configuration entry: a path of the configuration and its JSON5 value.
#[derive(Debug)]
pub struct ConfigEntry {
    pub path: String,
    pub value: String,
    /// What the entry sets, as it is named when zenoh refuses it.
    pub subject: String,
}

/// Whether entries configure a client of the router at `connect`.
pub open spec fn configures(entries: Seq<ConfigEntry>, connect: Seq<char>) -> bool {
    &&& entries.len() == 2
    &&& entries[0].path@ == "mode"@ && entries[0].value@ == "\"client\""@
    &&& entries[1].path@ == "connect/endpoints"@ && entries[1].value@ == "[\""@ + connect
        + "\"]"@
}

/// The configuration of a client of the router at `connect`: client mode first, then the
/// endpoint.
pub fn config(connect: &str) -> (r: Vec<ConfigEntry>)
    ensures
        r@.len() == 2,
        r@[0].path@ == "mode"@,
        r@[0].value@ == "\"client\""@,
        r@[0].subject@ == "mode"@,
        r@[1].path@ == "connect/endpoints"@,
        r@[1].value@ == "[\""@ + connect@ + "\"]"@,
        r@[1].subject@ == "endpoint"@,
        configures(r@, connect@),
{
    let mut endpoints = "[\"".to_owned();
    endpoints.append(connect);
    endpoints.append("\"]");
    let mut entries: Vec<ConfigEntry> = Vec::new();
    entries.push(
        ConfigEntry {
            path: "mode".to_owned(),
            value: "\"client\"".to_owned(),
            subject: "mode".to_owned(),
        },
    );
    entries.push(
        ConfigEntry {
            path: "connect/endpoints".to_owned(),
            value: endpoints,
            subject: "endpoint".to_owned(),
        },
    );
    entries
}

/// What to do about a router names it first, and says how to start one exactly if it is
/// the local one.
pub proof fn hint_names_the_router(connect: Seq<char>)
    ensures
        ({
            let start = "hint: make sure a Zenoh router is reachable at `"@ + connect + "`."@;
            let local = "\nstart a local router in another terminal with:"@;
            let other = "\nfor a local router, use:"@;
            let hint = hint_text(connect);
            &&& hint.take(start.len() as int) == start
            &&& connect == "tcp/127.0.0.1:7447"@ ==> hint.skip(start.len() as int).take(
                local.len() as int,
            ) == local
            &&& connect != "tcp/127.0.0.1:7447"@ ==> hint.skip(start.len() as int).take(
                other.len() as int,
            ) == other
        }),
{
    let start = "hint: make sure a Zenoh router is reachable at `"@ + connect + "`."@;
    let local = "\nstart a local router in another terminal with:"@;
    let other = "\nfor a local router, use:"@;
    let hint = hint_text(connect);
    assert(hint.take(start.len() as int) =~= start);
    if connect == "tcp/127.0.0.1:7447"@ {
        assert(hint.skip(start.len() as int).take(local.len() as int) =~= local);
    } else {
        assert(hint.skip(start.len() as int).take(other.len() as int) =~= other);
    }
}

/// How a session that cannot be opened is reported tells where and why, and ends with what
/// to do about it.
pub proof fn session_error_tells_where_and_why(connect: Seq<char>, error: Seq<char>)
    ensures
        ({
            let start = "failed to open Zenoh session at "@ + connect + ": "@ + error + "\n\n"@;
            let text = session_error_text(connect, error);
            &&& text.take(start.len() as int) == start
            &&& text.skip(start.len() as int) == hint_text(connect)
        }),
{
    let start = "failed to open Zenoh session at "@ + connect + ": "@ + error + "\n\n"@;
    let text = session_error_text(connect, error);
    assert(text.take(start.len() as int) =~= start);
    assert(text.skip(start.len() as int) =~= hint_text(connect));
}

/// A client connects in client mode, and to its router alone.
pub proof fn client_connects_to_its_router_alone(entries: Seq<ConfigEntry>, connect: Seq<char>)
    requires
        configures(entries, connect),
    ensures
        entries.len() == 2,
        entries[0].path@ == "mode"@,
        entries[0].value@ == "\"client\""@,
        entries[1].path@ == "connect/endpoints"@,
        entries[1].value@.len() == connect.len() + 4,
        entries[1].value@.subrange(2, connect.len() as int + 2) == connect,
{
    reveal_strlit("[\"");
    reveal_strlit("\"]");
    assert(entries[1].value@.subrange(2, connect.len() as int + 2) =~= connect);
}

} // verus!
