//! The failure taxonomy and its mapping to HTTP status codes and JSON error
//! bodies. Every failure in the request path terminates in exactly one of
//! these mapped responses.
use vstd::prelude::*;
use crate::json::spec_quote;
use crate::num::{spec_nat_str, push_u64_str};

verus! {

/// Every failure kind the service can surface.
#[derive(Clone, Copy, Debug, PartialEq, Eq, Structural)]
pub enum Error {
    /// A malformed request body.
    Parse,
    /// An update or delete named an id no stored book has.
    NotFound,
    /// A read or write against the collection failed.
    Storage,
    /// The storage backend could not be reached.
    Connection,
    /// No route matched the request's method and path.
    NotMatched,
}

/// The HTTP status each failure kind maps to.
pub open spec fn spec_status_of(e: Error) -> nat {
    match e {
        Error::Parse => 400,
        Error::NotFound => 404,
        Error::Storage => 500,
        Error::Connection => 500,
        Error::NotMatched => 404,
    }
}

pub fn status_of(e: &Error) -> (s: u16)
    ensures
        s as nat == spec_status_of(*e),
{
    match e {
        Error::Parse => 400,
        Error::NotFound => 404,
        Error::Storage => 500,
        Error::Connection => 500,
        Error::NotMatched => 404,
    }
}

/// The human-readable message of each failure kind.
pub open spec fn spec_message_of(e: Error) -> Seq<char> {
    match e {
        Error::Parse => "invalid request body"@,
        Error::NotFound => "not found"@,
        Error::Storage => "storage error"@,
        Error::Connection => "connection error"@,
        Error::NotMatched => "not found"@,
    }
}

pub fn message_of(e: &Error) -> (m: String)
    ensures
        m@ == spec_message_of(*e),
{
    match e {
        Error::Parse => "invalid request body".to_owned(),
        Error::NotFound => "not found".to_owned(),
        Error::Storage => "storage error".to_owned(),
        Error::Connection => "connection error".to_owned(),
        Error::NotMatched => "not found".to_owned(),
    }
}

/// The JSON error body: an object with the mapped `status` and a message.
pub open spec fn spec_error_body(e: Error) -> Seq<char> {
    "{\"status\":"@ + spec_nat_str(spec_status_of(e)) + ",\"message\":"@ + spec_quote(
        spec_message_of(e),
    ) + "}"@
}

/// Serializes the error body for a failure kind.
pub fn error_body(e: &Error) -> (r: String)
    ensures
        r@ == spec_error_body(*e),
{
    let mut out = String::new();
    out.append("{\"status\":");
    push_u64_str(&mut out, status_of(e) as u64);
    out.append(",\"message\":");
    let msg = message_of(e);
    crate::json::push_quoted(&mut out, msg.as_str());
    out.append("}");
    proof {
        assert(out@ =~= spec_error_body(*e));
    }
    out
}

} // verus!
