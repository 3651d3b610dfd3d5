//! The fetch orchestration: builds size-probe and range requests, judges
//! the responses, and retries transient transport failures over a
//! reconnecting exchange until the deadline budget runs out.

use vstd::prelude::*;
use vstd::string::StringExecFns;
use crate::decimal::{all_digits, dec_value, parse_u64, spec_u64_digits, u64_to_string};
use crate::error::{is_recoverable, Error, ErrorType};
use crate::strutil::{match_at, str_eq, substring_until_pattern};
use crate::transport::{find_field, spec_find_field, HttpExchange, RequestHead, ResponseHead};

verus! {

/// The description text of an error reporting an unexpected HTTP status.
pub open spec fn spec_http_error_text(status: u16, reason: Seq<char>) -> Seq<char> {
    "HTTP-error "@ + spec_u64_digits(status as nat) + ": "@ + reason
}

/// The span a compliant server must announce in its Content-Range field
/// when asked for `length` bytes at `offset`.
pub open spec fn spec_expected_range(offset: u64, length: u64) -> Seq<char> {
    "bytes "@ + spec_u64_digits(offset as nat) + "-"@ + spec_u64_digits(
        (offset + length - 1) as nat,
    )
}

/// The Range header value requesting `length` bytes at `offset`.
pub open spec fn spec_range_header(offset: u64, length: u64) -> Seq<char> {
    "bytes="@ + spec_u64_digits(offset as nat) + "-"@ + spec_u64_digits(
        (offset + length - 1) as nat,
    )
}

/// Whether `v` contains a `/` anywhere.
pub open spec fn spec_has_slash(v: Seq<char>) -> bool {
    exists|p: int| match_at(v, "/"@, p)
}

/// The error kinds a size probe may surface: the exhausted budget, the
/// judged response failures, and the mapped transport kinds — never an
/// invalid parameter.
pub open spec fn spec_probe_error(t: ErrorType) -> bool {
    ||| t is TimedOut
    ||| t is IOAccessError
    ||| t is Unsupported
    ||| t is InvalidData
    ||| t is IOReadWriteError
    ||| t is GenericIOError
}

/// The error kinds a range fetch may surface: those of a probe, and the
/// parameter error of an unreadable Content-Range field.
pub open spec fn spec_fetch_error(t: ErrorType) -> bool {
    spec_probe_error(t) || t is InvalidParameter
}

/// The error that reports an unexpected HTTP status.
fn http_status_error(status: u16, reason: &str) -> (r: Error)
    ensures
        r.error_type is IOAccessError,
        r.description@ == spec_http_error_text(status, reason@),
{
    let mut desc = "HTTP-error ".to_owned();
    let num = u64_to_string(status as u64);
    desc.append(num.as_str());
    desc.append(": ");
    desc.append(reason);
    Error { error_type: ErrorType::IOAccessError, description: desc }
}

/// Renders the requested span as `{prefix}{offset}-{end}`, where `end` is
/// the last byte the request covers.
fn span_string(prefix: &str, offset: u64, length: u64) -> (r: String)
    requires
        length >= 1,
        offset + length <= u64::MAX,
    ensures
        r@ == prefix@ + spec_u64_digits(offset as nat) + "-"@ + spec_u64_digits(
            (offset + length - 1) as nat,
        ),
{
    let mut s = prefix.to_owned();
    let lo = u64_to_string(offset);
    s.append(lo.as_str());
    s.append("-");
    let hi = u64_to_string(offset + (length - 1));
    s.append(hi.as_str());
    s
}

/// The header fields every request carries: the server name, an empty
/// request body, and a kept-alive connection.
fn base_fields(server: &str) -> (r: Vec<(String, String)>)
    ensures
        r@.len() == 3,
        r@[0].0@ == "Host"@ && r@[0].1@ == server@,
        r@[1].0@ == "Content-Length"@ && r@[1].1@ == "0"@,
        r@[2].0@ == "Connection"@ && r@[2].1@ == "keep-alive"@,
{
    let mut fields: Vec<(String, String)> = Vec::new();
    fields.push(("Host".to_owned(), server.to_owned()));
    fields.push(("Content-Length".to_owned(), "0".to_owned()));
    fields.push(("Connection".to_owned(), "keep-alive".to_owned()));
    fields
}

/// The metadata-only request that probes the resource's size.
pub fn build_size_request(server: &str, resource: &str) -> (r: RequestHead)
    ensures
        r.method@ == "HEAD"@,
        r.resource@ == resource@,
        r.fields@.len() == 3,
        r.fields@[0].0@ == "Host"@ && r.fields@[0].1@ == server@,
        r.fields@[1].0@ == "Content-Length"@ && r.fields@[1].1@ == "0"@,
        r.fields@[2].0@ == "Connection"@ && r.fields@[2].1@ == "keep-alive"@,
{
    RequestHead {
        method: "HEAD".to_owned(),
        resource: resource.to_owned(),
        fields: base_fields(server),
    }
}

/// The request for exactly `length` bytes starting at `offset`.
pub fn build_range_request(server: &str, resource: &str, offset: u64, length: u64) -> (r:
    RequestHead)
    requires
        length >= 1,
        offset + length <= u64::MAX,
    ensures
        r.method@ == "GET"@,
        r.resource@ == resource@,
        r.fields@.len() == 4,
        r.fields@[0].0@ == "Host"@ && r.fields@[0].1@ == server@,
        r.fields@[1].0@ == "Content-Length"@ && r.fields@[1].1@ == "0"@,
        r.fields@[2].0@ == "Connection"@ && r.fields@[2].1@ == "keep-alive"@,
        r.fields@[3].0@ == "Range"@ && r.fields@[3].1@ == spec_range_header(offset, length),
{
    let mut fields = base_fields(server);
    fields.push(("Range".to_owned(), span_string("bytes=", offset, length)));
    RequestHead { method: "GET".to_owned(), resource: resource.to_owned(), fields }
}

/// Judges a range response: the status must be 206 Partial Content (any
/// other status is an access error carrying the status and reason), a
/// Content-Range field must be present (else the server is unsupported)
/// and readable up to its `/` (else the parameter error surfaces), and the
/// span before the `/` must be exactly the requested one (else the data is
/// invalid: the server did not honor the range).
pub fn validate_chunk_response(head: &ResponseHead, offset: u64, length: u64) -> (r: Result<
    (),
    Error,
>)
    requires
        length >= 1,
        offset + length <= u64::MAX,
    ensures
        head.status != 206 ==> (r matches Err(e) && e.error_type is IOAccessError
            && e.description@ == spec_http_error_text(head.status, head.reason@)),
        head.status == 206 && spec_find_field(head.fields@, "Content-Range"@) is None ==> (
        r matches Err(e) && e.error_type is Unsupported),
        head.status == 206 ==> (match spec_find_field(head.fields@, "Content-Range"@) {
            Some(v) => {
                &&& (!spec_has_slash(v) ==> (r matches Err(e)
                    && e.error_type is InvalidParameter))
                &&& (forall|p: int|
                    match_at(v, "/"@, p) && (forall|q: int| 0 <= q < p ==> !match_at(v, "/"@, q))
                        ==> {
                        if v.subrange(0, p) == spec_expected_range(offset, length) {
                            r is Ok
                        } else {
                            r matches Err(e) && e.error_type is InvalidData
                        }
                    })
            },
            None => true,
        }),
        r matches Err(e) ==> (e.error_type is IOAccessError || e.error_type is Unsupported
            || e.error_type is InvalidParameter || e.error_type is InvalidData),
{
    proof {
        reveal_strlit("/");
    }
    if head.status != 206 {
        return Err(http_status_error(head.status, head.reason.as_str()));
    }
    let range = match find_field(&head.fields, "Content-Range") {
        Some(v) => v,
        None => {
            return Err(
                Error::with_text(ErrorType::Unsupported, "The server did not respond with a chunk"),
            );
        },
    };
    let mut pos: usize = 0;
    let served = match substring_until_pattern(range.as_str(), &mut pos, "/", true) {
        Ok(sub) => sub,
        Err(e) => {
            return Err(e);
        },
    };
    let expected = span_string("bytes ", offset, length);
    if !str_eq(served.as_str(), expected.as_str()) {
        return Err(
            Error::with_text(
                ErrorType::InvalidData,
                "The server sent a chunk with an unexpected range",
            ),
        );
    }
    Ok(())
}

/// Judges a size-probe response: the status must be 200 (any other status
/// is an access error carrying the status and reason), the server must
/// advertise byte-range support in an Accept-Ranges field (else it is
/// unsupported), and a Content-Length field must be present (else
/// unsupported) and hold a decimal length (else the data is invalid). The
/// result is that length.
pub fn validate_size_response(head: &ResponseHead) -> (r: Result<u64, Error>)
    ensures
        head.status != 200 ==> (r matches Err(e) && e.error_type is IOAccessError
            && e.description@ == spec_http_error_text(head.status, head.reason@)),
        head.status == 200 ==> (match spec_find_field(head.fields@, "Accept-Ranges"@) {
            None => r matches Err(e) && e.error_type is Unsupported,
            Some(ar) => {
                if ar != "bytes"@ {
                    r matches Err(e) && e.error_type is Unsupported
                } else {
                    match spec_find_field(head.fields@, "Content-Length"@) {
                        None => r matches Err(e) && e.error_type is Unsupported,
                        Some(cl) => {
                            if cl.len() >= 1 && all_digits(cl) && dec_value(cl) <= u64::MAX {
                                r matches Ok(v) && v as nat == dec_value(cl)
                            } else {
                                r matches Err(e) && e.error_type is InvalidData
                            }
                        },
                    }
                }
            },
        }),
{
    if head.status != 200 {
        return Err(http_status_error(head.status, head.reason.as_str()));
    }
    let accept_ranges = match find_field(&head.fields, "Accept-Ranges") {
        Some(v) => v,
        None => {
            return Err(
                Error::with_text(
                    ErrorType::Unsupported,
                    "The server does not support partial-content-requests",
                ),
            );
        },
    };
    if !str_eq(accept_ranges.as_str(), "bytes") {
        return Err(
            Error::with_text(
                ErrorType::Unsupported,
                "The server does not support byte-indexed partial-content-requests",
            ),
        );
    }
    let length_field = match find_field(&head.fields, "Content-Length") {
        Some(v) => v,
        None => {
            return Err(
                Error::with_text(
                    ErrorType::Unsupported,
                    "The server did not send a \"Content-Length\"-field",
                ),
            );
        },
    };
    match parse_u64(length_field.as_str()) {
        Some(v) => Ok(v),
        None => Err(
            Error::with_text(
                ErrorType::InvalidData,
                "The server returned an invalid \"Content-Length\"-field",
            ),
        ),
    }
}

/// Probes the remote resource's total size: sends metadata-only requests,
/// reconnecting and retrying on recoverable transport failures while the
/// exchange's budget lasts, and judges the first response that arrives.
/// Exhausting the budget is a timeout error.
pub fn receive_size<T: HttpExchange>(exchange: &mut T, server: &str, resource: &str) -> (r:
    Result<u64, Error>)
    ensures
        r matches Err(e) ==> spec_probe_error(e.error_type),
{
    let request = build_size_request(server, resource);
    let mut attempts_left: u64 = u64::MAX;
    loop
        decreases attempts_left,
    {
        if attempts_left == 0 {
            return Err(Error::bare(ErrorType::TimedOut));
        }
        attempts_left = attempts_left - 1;
        if !exchange.time_left() {
            return Err(Error::bare(ErrorType::TimedOut));
        }
        match exchange.exchange(&request) {
            Ok(head) => {
                return validate_size_response(&head);
            },
            Err(kind) => {
                if is_recoverable(kind) {
                    match exchange.reconnect() {
                        Ok(()) => {},
                        Err(kind2) => {
                            // a transient reconnect failure is retried like
                            // any other transient failure, within the budget
                            if !is_recoverable(kind2) {
                                return Err(Error::of_io(kind2));
                            }
                        },
                    }
                } else {
                    return Err(Error::of_io(kind));
                }
            },
        }
    }
}

/// Fetches exactly `length` bytes starting at `file_offset`: sends range
/// requests, reconnecting and retrying on recoverable transport failures
/// (a short body counts as one) while the exchange's budget lasts, and
/// validates that the server honored the requested span. Exhausting the
/// budget is a timeout error; a non-compliant response aborts at once with
/// the validation error.
pub fn receive_chunk<T: HttpExchange>(
    exchange: &mut T,
    server: &str,
    resource: &str,
    length: usize,
    file_offset: u64,
) -> (r: Result<Vec<u8>, Error>)
    requires
        file_offset + length <= u64::MAX,
    ensures
        r matches Ok(d) ==> d@.len() == length,
        length == 0 ==> r is Ok,
        r matches Err(e) ==> spec_fetch_error(e.error_type),
{
    if length == 0 {
        return Ok(Vec::new());
    }
    let request = build_range_request(server, resource, file_offset, length as u64);
    let mut attempts_left: u64 = u64::MAX;
    loop
        invariant
            length >= 1,
            file_offset + length <= u64::MAX,
        decreases attempts_left,
    {
        if attempts_left == 0 {
            return Err(Error::bare(ErrorType::TimedOut));
        }
        attempts_left = attempts_left - 1;
        if !exchange.time_left() {
            return Err(Error::bare(ErrorType::TimedOut));
        }
        match exchange.exchange(&request) {
            Ok(head) => {
                match validate_chunk_response(&head, file_offset, length as u64) {
                    Ok(()) => {},
                    Err(e) => {
                        return Err(e);
                    },
                }
                match exchange.read_body(length) {
                    Ok(body) => {
                        if body.len() == length {
                            return Ok(body);
                        }
                        // a short (or otherwise wrong-sized) body is a
                        // mid-transfer failure: reconnect and retry
                        match exchange.reconnect() {
                            Ok(()) => {},
                            Err(kind2) => {
                                if !is_recoverable(kind2) {
                                    return Err(Error::of_io(kind2));
                                }
                            },
                        }
                    },
                    Err(kind) => {
                        if is_recoverable(kind) {
                            match exchange.reconnect() {
                                Ok(()) => {},
                                Err(kind2) => {
                                    if !is_recoverable(kind2) {
                                        return Err(Error::of_io(kind2));
                                    }
                                },
                            }
                        } else {
                            return Err(Error::of_io(kind));
                        }
                    },
                }
            },
            Err(kind) => {
                if is_recoverable(kind) {
                    match exchange.reconnect() {
                        Ok(()) => {},
                        Err(kind2) => {
                            if !is_recoverable(kind2) {
                                return Err(Error::of_io(kind2));
                            }
                        },
                    }
                } else {
                    return Err(Error::of_io(kind));
                }
            },
        }
    }
}

} // verus!
