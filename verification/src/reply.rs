//! Replies: what goes back to the caller, whatever came of the request.

use vstd::prelude::*;
use crate::failure::{message_of, status_of, Failure, STATUS_OK};

verus! {

/// What the caller is sent: a status code, the type of the body, and the body.
#[derive(Debug, Clone, PartialEq, Eq)]
pub struct Reply {
    pub status: u16,
    pub content_type: &'static str,
    pub body: String,
}

/// The type of a body of plain text.
pub open spec fn plain_text() -> Seq<char> {
    "text/plain; charset=utf-8"@
}

/// The type of a body of JSON.
pub open spec fn json() -> Seq<char> {
    "application/json"@
}

/// The reply to a request that failed: the status code and the text of the failure.
pub fn failure_reply(failure: &Failure) -> (reply: Reply)
    ensures
        reply.status == status_of(*failure),
        reply.content_type@ == plain_text(),
        reply.body@ == message_of(*failure),
{
    Reply {
        status: failure.status(),
        content_type: "text/plain; charset=utf-8",
        body: failure.message(),
    }
}

/// The reply that carries a report.
pub fn report_reply(text: String) -> (reply: Reply)
    ensures
        reply.status == STATUS_OK,
        reply.content_type@ == plain_text(),
        reply.body == text,
{
    Reply { status: STATUS_OK, content_type: "text/plain; charset=utf-8", body: text }
}

/// The reply to a search: the report if there is one, and else what the failure gets.
pub fn search_reply(outcome: Result<String, Failure>) -> (reply: Reply)
    ensures
        outcome matches Ok(text) ==> {
            &&& reply.status == STATUS_OK
            &&& reply.content_type@ == plain_text()
            &&& reply.body == text
        },
        outcome matches Err(failure) ==> {
            &&& reply.status == status_of(failure)
            &&& reply.content_type@ == plain_text()
            &&& reply.body@ == message_of(failure)
        },
{
    match outcome {
        Ok(text) => report_reply(text),
        Err(failure) => failure_reply(&failure),
    }
}

/// The reply to the liveness check, around a body of JSON.
pub fn health_reply(body: String) -> (reply: Reply)
    ensures
        reply.status == STATUS_OK,
        reply.content_type@ == json(),
        reply.body == body,
{
    Reply { status: STATUS_OK, content_type: "application/json", body }
}

} // verus!
