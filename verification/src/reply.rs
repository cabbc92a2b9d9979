//! What the service answers.

use vstd::prelude::*;

verus! {

/// The outcome of a request, as the status line reports it.
#[derive(Clone, Copy, Debug, PartialEq, Eq, Structural)]
pub enum Status {
    /// The request was carried out.
    Success,
    /// The client's path is not acceptable, or its upload is malformed.
    BadRequest,
    /// The path names nothing.
    NotFound,
    /// The path names something already.
    Conflict,
    /// The disk or the archive writer failed.
    ServerError,
}

impl Status {
    /// The status code on the wire.
    pub open spec fn number(self) -> int {
        match self {
            Status::Success => 200,
            Status::BadRequest => 400,
            Status::NotFound => 404,
            Status::Conflict => 409,
            Status::ServerError => 500,
        }
    }

    /// The status code on the wire.
    pub fn code(self) -> (n: u16)
        ensures
            n == self.number(),
    {
        match self {
            Status::Success => 200,
            Status::BadRequest => 400,
            Status::NotFound => 404,
            Status::Conflict => 409,
            Status::ServerError => 500,
        }
    }
}

/// A reply that is a status and a line of text.
#[derive(Debug, PartialEq, Eq)]
pub struct Reply {
    pub status: Status,
    pub body: String,
}

impl View for Reply {
    type V = (Status, Seq<char>);

    open spec fn view(&self) -> (Status, Seq<char>) {
        (self.status, self.body@)
    }
}

impl Reply {
    /// A reply with the given status and text.
    pub fn new(status: Status, body: String) -> (reply: Reply)
        ensures
            reply@ == (status, body@),
    {
        Reply { status, body }
    }

    /// A reply with the given status and a fixed text.
    pub fn fixed(status: Status, body: &str) -> (reply: Reply)
        ensures
            reply@ == (status, body@),
    {
        Reply { status, body: String::from_str(body) }
    }
}

/// The text that the service answers at its root address.
pub open spec fn banner_text() -> Seq<char> {
    "Disk Manager Backend Running"@
}

/// The text that the service answers at its root address.
pub fn root() -> (banner: &'static str)
    ensures
        banner@ == banner_text(),
{
    "Disk Manager Backend Running"
}

/// The largest request body that the service takes: one gibibyte.
pub const BODY_LIMIT: usize = 0x4000_0000;

/// The reply to a path that was refused: a bad request with the reason.
pub fn rejected(reason: String) -> (reply: Reply)
    ensures
        reply@ == (Status::BadRequest, reason@),
{
    Reply::new(Status::BadRequest, reason)
}

/// The reply when the disk or the archive writer failed: a server error
/// with the failure's own text.
pub fn failed(reason: String) -> (reply: Reply)
    ensures
        reply@ == (Status::ServerError, reason@),
{
    Reply::new(Status::ServerError, reason)
}

/// The text of the reply for a path that names nothing.
pub open spec fn not_found_text() -> Seq<char> {
    "Not found"@
}

/// The reply for a path that names nothing.
pub fn not_found() -> (reply: Reply)
    ensures
        reply@ == (Status::NotFound, not_found_text()),
{
    Reply::fixed(Status::NotFound, "Not found")
}

} // verus!
