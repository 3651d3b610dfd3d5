//! The boundary to the network: plain request/response data types and the
//! exchange interface that the surrounding application implements over a
//! real connection. Everything behind this boundary (sockets, wire-level
//! serialization, clocks) stays outside the library; everything in front of
//! it (which requests to build, how to judge the responses, when to retry)
//! is verified.

use vstd::prelude::*;
use crate::strutil::str_eq;

verus! {

/// A request header: the method, the request target, and the header fields
/// in the order they are sent.
pub struct RequestHead {
    pub method: String,
    pub resource: String,
    pub fields: Vec<(String, String)>,
}

/// A response header: the status code, the reason text beside it, and the
/// header fields in the order they were received.
pub struct ResponseHead {
    pub status: u16,
    pub reason: String,
    pub fields: Vec<(String, String)>,
}

/// The value of the first field called `name`, or `None` when no field
/// carries that name.
pub open spec fn spec_find_field(fields: Seq<(String, String)>, name: Seq<char>) -> Option<
    Seq<char>,
>
    decreases fields.len(),
{
    if fields.len() == 0 {
        None
    } else if fields[0].0@ == name {
        Some(fields[0].1@)
    } else {
        spec_find_field(fields.skip(1), name)
    }
}

/// Looks up the first header field called `name` and returns a copy of its
/// value.
pub fn find_field(fields: &Vec<(String, String)>, name: &str) -> (r: Option<String>)
    ensures
        match r {
            Some(v) => spec_find_field(fields@, name@) == Some(v@),
            None => spec_find_field(fields@, name@) is None,
        },
{
    proof {
        assert(fields@.skip(0) =~= fields@);
    }
    let mut i: usize = 0;
    while i < fields.len()
        invariant
            i <= fields@.len(),
            spec_find_field(fields@, name@) == spec_find_field(fields@.skip(i as int), name@),
        decreases fields@.len() - i,
    {
        proof {
            assert(fields@.skip(i as int)[0] == fields@[i as int]);
        }
        if str_eq(fields[i].0.as_str(), name) {
            return Some(fields[i].1.clone());
        }
        i += 1;
        proof {
            assert(fields@.skip(i - 1).skip(1) =~= fields@.skip(i as int));
        }
    }
    None
}

/// One request/response exchange with the remote server, under a deadline
/// that the implementation manages. The library builds the requests,
/// validates the responses, and decides when to retry; the implementation
/// only moves bytes. Nothing is assumed about the methods' results: the
/// verified callers handle every outcome.
pub trait HttpExchange {
    /// Starts the time budget for one logical operation. The stream calls
    /// this once at the start of every open and every read, so each
    /// operation gets a fresh deadline, however many fetches and
    /// reconnects it needs.
    fn begin(&mut self);

    /// Whether any of the operation's time budget remains. The fetch loops
    /// stop retrying and report a timeout once this returns false.
    fn time_left(&mut self) -> bool;

    /// Sends `request` and receives the next response header, within the
    /// remaining budget. A failure is reported as the transport kind that
    /// caused it.
    fn exchange(&mut self, request: &RequestHead) -> Result<ResponseHead, crate::error::IoKind>;

    /// Reads a response body of exactly `length` bytes, within the
    /// remaining budget.
    fn read_body(&mut self, length: usize) -> Result<Vec<u8>, crate::error::IoKind>;

    /// Tears the connection down and re-establishes it to the same server,
    /// within the remaining budget.
    fn reconnect(&mut self) -> Result<(), crate::error::IoKind>;
}

} // verus!
