//! The GET request handler: the requested path is taken verbatim as the
//! lookup key; a hit is answered with status 200 and the stored content
//! byte for byte, a miss with status 404 and an empty body.

use vstd::prelude::*;

use crate::table::EndpointTable;

verus! {

/// The part of an HTTP response that the lookup decides: the status code and
/// the body. Headers are fixed policy and stay with the transport layer.
pub struct HttpReply {
    pub status: u16,
    pub body: String,
}

/// What the reply to a GET for `path` against table `m` must look like.
pub open spec fn reply_matches(
    m: Map<Seq<char>, Seq<char>>,
    path: Seq<char>,
    status: int,
    body: Seq<char>,
) -> bool {
    if m.contains_key(path) {
        status == 200 && body == m[path]
    } else {
        status == 404 && body.len() == 0
    }
}

/// Answers one GET request from the table.
pub fn handle_get(table: &EndpointTable, path: &String) -> (r: HttpReply)
    requires
        table.wf(),
    ensures
        reply_matches(table@, path@, r.status as int, r.body@),
        r.status == 200 <==> table@.contains_key(path@),
        r.status == 200 || r.status == 404,
{
    match table.get(path) {
        Some(content) => HttpReply { status: 200, body: content },
        None => HttpReply { status: 404, body: String::new() },
    }
}

} // verus!
