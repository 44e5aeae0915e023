//! The Model Context Protocol client's rules: how servers' tools are named,
//! which JSON-RPC answers belong to a request, and how a `tools/call` result
//! becomes text. Starting servers and exchanging lines with them is the
//! caller's part.

use vstd::prelude::*;
use crate::text::{join, join_strings, views};

verus! {

broadcast use vstd::string::group_string_axioms;

/// The protocol version sent in the handshake.
pub const PROTOCOL_VERSION: &'static str = "2024-11-05";

/// How long a request may wait for its answer, in seconds.
pub const REQUEST_TIMEOUT_SECS: u64 = 30;

/// The name a server's tool gets: the server's name, `_`, the tool's name, so
/// that tools of different servers do not collide.
pub fn exposed_name(server: &str, tool: &str) -> (r: String)
    ensures
        r@ == server@ + "_"@ + tool@,
{
    let mut r = server.to_string();
    r.append("_");
    r.append(tool);
    r
}

/// A tool as a server announced it: the fields that were strings.
pub struct AnnouncedTool {
    pub name: Option<String>,
    pub description: Option<String>,
}

/// A tool to register from a server's announcement.
pub struct PlannedTool {
    /// Position of the announcement.
    pub index: usize,
    /// The name the model sees.
    pub exposed: String,
    /// The name the server knows.
    pub server_name: String,
    pub description: String,
}

/// The view of a planned tool: (index, exposed, server_name, description).
pub open spec fn planned_view(p: PlannedTool) -> (int, Seq<char>, Seq<char>, Seq<char>) {
    (p.index as int, p.exposed@, p.server_name@, p.description@)
}

/// The tools to register from `announced`: those with a name, in order, named
/// after `server`, with an empty description when none was given.
pub open spec fn plan_of(server: Seq<char>, announced: Seq<AnnouncedTool>) -> Seq<
    (int, Seq<char>, Seq<char>, Seq<char>),
>
    decreases announced.len(),
{
    if announced.len() == 0 {
        Seq::empty()
    } else {
        let before = plan_of(server, announced.drop_last());
        let t = announced.last();
        match t.name {
            Some(n) => before.push(
                (
                    announced.len() - 1,
                    server + "_"@ + n@,
                    n@,
                    match t.description {
                        Some(d) => d@,
                        None => Seq::empty(),
                    },
                ),
            ),
            None => before,
        }
    }
}

/// The tools to register from a server's announcements.
pub fn plan_tools(server: &str, announced: &[AnnouncedTool]) -> (r: Vec<PlannedTool>)
    ensures
        r@.map_values(|p: PlannedTool| planned_view(p)) == plan_of(server@, announced@),
{
    let mut r: Vec<PlannedTool> = Vec::new();
    let mut i: usize = 0;
    while i < announced.len()
        invariant
            i <= announced@.len(),
            r@.map_values(|p: PlannedTool| planned_view(p)) == plan_of(
                server@,
                announced@.take(i as int),
            ),
        decreases announced.len() - i,
    {
        assert(announced@.take(i + 1).drop_last() =~= announced@.take(i as int));
        assert(announced@.take(i + 1).last() == announced@[i as int]);
        let ghost before = r@.map_values(|p: PlannedTool| planned_view(p));
        match &announced[i].name {
            Some(n) => {
                let description = match &announced[i].description {
                    Some(d) => d.clone(),
                    None => String::new(),
                };
                let p = PlannedTool {
                    index: i,
                    exposed: exposed_name(server, n.as_str()),
                    server_name: n.clone(),
                    description,
                };
                r.push(p);
                assert(r@.map_values(|p: PlannedTool| planned_view(p)) =~= before.push(
                    planned_view(r@.last()),
                ));
            },
            None => {},
        }
        i += 1;
    }
    assert(announced@.take(announced@.len() as int) =~= announced@);
    r
}

/// What a line from a server is to the request with id `expected`.
pub enum RpcReply {
    /// Another message (a notification, or an answer to something else).
    Ignore,
    /// The request failed.
    Error,
    /// The request's result.
    Result,
}

/// What a message with id `id` (when it had an integer one) and, when
/// `has_error`, an `error` member is to the request `expected`.
pub fn classify_reply(expected: i64, id: Option<i64>, has_error: bool) -> (r: RpcReply)
    ensures
        id != Some(expected) ==> r is Ignore,
        id == Some(expected) && has_error ==> r is Error,
        id == Some(expected) && !has_error ==> r is Result,
{
    match id {
        Some(i) => if i == expected {
            if has_error {
                RpcReply::Error
            } else {
                RpcReply::Result
            }
        } else {
            RpcReply::Ignore
        },
        None => RpcReply::Ignore,
    }
}

/// The id of the request after the one numbered `last`.
pub fn next_request_id(last: i64) -> (r: i64)
    requires
        last < i64::MAX,
    ensures
        r == last + 1,
{
    last + 1
}

/// A `tools/call` result as far as its text goes.
pub struct CallOutcome {
    /// The `content` items' `text` strings (`None` for an item without one),
    /// when `content` is an array.
    pub texts: Option<Vec<Option<String>>>,
    /// Whether `isError` is `true`.
    pub is_error: bool,
    /// The whole result as JSON text.
    pub raw: String,
}

/// The `text` strings of the content items, in order.
pub open spec fn present_texts(items: Seq<Option<String>>) -> Seq<Seq<char>>
    decreases items.len(),
{
    if items.len() == 0 {
        Seq::empty()
    } else {
        let before = present_texts(items.drop_last());
        match items.last() {
            Some(t) => before.push(t@),
            None => before,
        }
    }
}

/// The text of a `tools/call` result: the content items' texts joined by line
/// breaks, or the whole JSON when that is empty or there is no content array;
/// with `erro: ` before it when the result is an error.
pub open spec fn rendered(o: CallOutcome) -> Seq<char> {
    let joined = match o.texts {
        Some(v) => join(present_texts(v@), "\n"@),
        None => Seq::empty(),
    };
    let text = if joined.len() > 0 {
        joined
    } else {
        o.raw@
    };
    if o.is_error {
        "erro: "@ + text
    } else {
        text
    }
}

/// The text of a `tools/call` result.
pub fn render(o: &CallOutcome) -> (r: String)
    ensures
        r@ == rendered(*o),
{
    let joined = match &o.texts {
        Some(v) => {
            let mut parts: Vec<String> = Vec::new();
            let mut i: usize = 0;
            while i < v.len()
                invariant
                    i <= v@.len(),
                    views(parts@) == present_texts(v@.take(i as int)),
                decreases v.len() - i,
            {
                assert(v@.take(i + 1).drop_last() =~= v@.take(i as int));
                assert(v@.take(i + 1).last() == v@[i as int]);
                match &v[i] {
                    Some(t) => {
                        let ghost before = views(parts@);
                        parts.push(t.clone());
                        assert(views(parts@) =~= before.push(t@));
                    },
                    None => {},
                }
                i += 1;
            }
            assert(v@.take(v@.len() as int) =~= v@);
            join_strings(parts.as_slice(), "\n")
        },
        None => String::new(),
    };
    let text = if !joined.as_str().is_empty() {
        joined
    } else {
        o.raw.clone()
    };
    if o.is_error {
        let mut r = "erro: ".to_string();
        r.append(text.as_str());
        r
    } else {
        text
    }
}

/// The error for a request that got no answer in time.
pub fn timeout_message(method: &str) -> (r: String)
    ensures
        r@ == "timeout em '"@ + method@ + "'"@,
{
    let mut r = "timeout em '".to_string();
    r.append(method);
    r.append("'");
    r
}

/// The error for a request answered with `error` (given as JSON text).
pub fn rpc_error_message(error: &str) -> (r: String)
    ensures
        r@ == "erro JSON-RPC: "@ + error@,
{
    let mut r = "erro JSON-RPC: ".to_string();
    r.append(error);
    r
}

} // verus!
