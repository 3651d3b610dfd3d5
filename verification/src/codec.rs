//! The wire form of the exchange's data: rendering a request head as text,
//! and reading a response's status line and header-field lines. The
//! surrounding application only moves these lines over the connection.

use vstd::prelude::*;
use vstd::string::StringExecFns;
use crate::decimal::{all_digits, dec_value, parse_u64};
use crate::error::{Error, ErrorType};
use crate::strutil::{
    is_first_match_from, lemma_first_match_unique, match_at, substring_until_pattern,
    suffix_string,
};
use crate::transport::RequestHead;

verus! {

/// One header field rendered as a wire line.
pub open spec fn spec_field_line(name: Seq<char>, value: Seq<char>) -> Seq<char> {
    name + ": "@ + value + "\r\n"@
}

/// The header fields rendered in order.
pub open spec fn spec_field_lines(fields: Seq<(String, String)>) -> Seq<char>
    decreases fields.len(),
{
    if fields.len() == 0 {
        Seq::empty()
    } else {
        spec_field_line(fields[0].0@, fields[0].1@) + spec_field_lines(fields.skip(1))
    }
}

/// The wire form of a request head: the request line, the header fields in
/// order, and the blank line that ends the head.
pub open spec fn spec_request_text(r: RequestHead) -> Seq<char> {
    r.method@ + " "@ + r.resource@ + " HTTP/1.1\r\n"@ + spec_field_lines(r.fields@) + "\r\n"@
}

/// Renders a request head in its wire form.
pub fn serialize_request(request: &RequestHead) -> (r: String)
    ensures
        r@ == spec_request_text(*request),
{
    let mut text = request.method.clone();
    text.append(" ");
    text.append(request.resource.as_str());
    text.append(" HTTP/1.1\r\n");
    proof {
        assert(request.fields@.skip(0) =~= request.fields@);
    }
    let mut i: usize = 0;
    while i < request.fields.len()
        invariant
            i <= request.fields@.len(),
            spec_request_text(*request) =~= text@ + spec_field_lines(
                request.fields@.skip(i as int),
            ) + "\r\n"@,
        decreases request.fields@.len() - i,
    {
        text.append(request.fields[i].0.as_str());
        text.append(": ");
        text.append(request.fields[i].1.as_str());
        text.append("\r\n");
        i += 1;
        proof {
            assert(request.fields@.skip(i - 1)[0] == request.fields@[i - 1]);
            assert(request.fields@.skip(i - 1).skip(1) =~= request.fields@.skip(i as int));
            assert(spec_request_text(*request) =~= text@ + spec_field_lines(
                request.fields@.skip(i as int),
            ) + "\r\n"@);
        }
    }
    text.append("\r\n");
    proof {
        assert(spec_field_lines(request.fields@.skip(request.fields@.len() as int)).len() == 0);
        assert(text@ =~= spec_request_text(*request));
    }
    text
}

/// The text with its leading spaces removed.
pub open spec fn spec_skip_spaces(s: Seq<char>) -> Seq<char>
    decreases s.len(),
{
    if s.len() > 0 && s[0] == ' ' {
        spec_skip_spaces(s.skip(1))
    } else {
        s
    }
}

/// Whether `s` spells a status code: a non-empty digit string whose value
/// fits the status range.
pub open spec fn spec_valid_code(s: Seq<char>) -> bool {
    s.len() >= 1 && all_digits(s) && dec_value(s) <= 65535
}

/// Whether `line` is a well-formed status line: a first space after the
/// version word, and a valid status code between it and the next space (or
/// the end, when no reason follows).
pub open spec fn spec_status_line_ok(line: Seq<char>) -> bool {
    exists|sp: int|
        {
            &&& #[trigger] is_first_match_from(line, " "@, 0, sp)
            &&& {
                let rest = line.skip(sp + 1);
                ||| (exists|sp2: int|
                    #[trigger] is_first_match_from(rest, " "@, 0, sp2) && spec_valid_code(
                        rest.subrange(0, sp2),
                    ))
                ||| ((forall|q: int| 0 <= q ==> !match_at(rest, " "@, q)) && spec_valid_code(rest))
            }
        }
}

/// Reads a status line `VERSION CODE [REASON]`: the decimal code after the
/// first space (up to the next space, or to the end when no reason
/// follows) and the reason text. A line without a space after the version,
/// or without a status code that fits, is invalid data.
pub fn parse_status_line(line: &str) -> (r: Result<(u16, String), Error>)
    ensures
        r matches Ok(sr) ==> exists|sp: int|
            {
                &&& #[trigger] is_first_match_from(line@, " "@, 0, sp)
                &&& {
                    let rest = line@.skip(sp + 1);
                    ||| (exists|sp2: int|
                        {
                            &&& #[trigger] is_first_match_from(rest, " "@, 0, sp2)
                            &&& rest.subrange(0, sp2).len() >= 1
                            &&& all_digits(rest.subrange(0, sp2))
                            &&& sr.0 as nat == dec_value(rest.subrange(0, sp2))
                            &&& sr.1@ == rest.skip(sp2 + 1)
                        })
                    ||| ((forall|q: int| 0 <= q ==> !match_at(rest, " "@, q)) && rest.len() >= 1
                        && all_digits(rest) && sr.0 as nat == dec_value(rest) && sr.1@.len() == 0)
                }
            },
        r matches Err(e) ==> e.error_type is InvalidData,
        r is Ok <==> spec_status_line_ok(line@),
{
    proof {
        reveal_strlit(" ");
    }
    let mut pos: usize = 0;
    match substring_until_pattern(line, &mut pos, " ", true) {
        Ok(_version) => {},
        Err(_) => {
            proof {
                assert forall|sp: int|
                    !(#[trigger] is_first_match_from(line@, " "@, 0, sp)) by {
                    if match_at(line@, " "@, sp) {
                        assert(sp + 1 <= line@.len());
                    }
                }
            }
            return Err(
                Error::with_text(ErrorType::InvalidData, "The response carries no status code"),
            );
        },
    }
    let ghost p = choose|p: int|
        {
            &&& 0 <= p
            &&& #[trigger] match_at(line@, " "@, p)
            &&& (forall|q: int| 0 <= q < p ==> !match_at(line@, " "@, q))
            &&& pos == p + 1
        };
    proof {
        assert(is_first_match_from(line@, " "@, 0, p));
        assert forall|sp: int| #[trigger] is_first_match_from(line@, " "@, 0, sp) implies sp
            == p by {
            lemma_first_match_unique(line@, " "@, 0, sp, p);
        }
    }
    let rest = suffix_string(line, pos);
    proof {
        assert(rest@ =~= line@.skip(p + 1));
    }
    let mut pos2: usize = 0;
    match substring_until_pattern(rest.as_str(), &mut pos2, " ", true) {
        Ok(code) => {
            let ghost p2 = choose|p2: int|
                {
                    &&& 0 <= p2
                    &&& #[trigger] match_at(rest@, " "@, p2)
                    &&& (forall|q: int| 0 <= q < p2 ==> !match_at(rest@, " "@, q))
                    &&& code@ == rest@.subrange(0, p2)
                    &&& pos2 == p2 + 1
                };
            proof {
                assert(is_first_match_from(rest@, " "@, 0, p2));
                assert(is_first_match_from(line@.skip(p + 1), " "@, 0, p2));
                assert(match_at(line@.skip(p + 1), " "@, p2));
                assert forall|sp2: int|
                    #[trigger] is_first_match_from(line@.skip(p + 1), " "@, 0, sp2) implies sp2
                    == p2 by {
                    assert(is_first_match_from(rest@, " "@, 0, sp2));
                    lemma_first_match_unique(rest@, " "@, 0, sp2, p2);
                }
                assert(line@.skip(p + 1).subrange(0, p2) == code@);
            }
            let reason = suffix_string(rest.as_str(), pos2);
            let value = match parse_u64(code.as_str()) {
                Some(v) => v,
                None => {
                    proof {
                        assert(!spec_valid_code(line@.skip(p + 1).subrange(0, p2)));
                        assert(!spec_status_line_ok(line@));
                    }
                    return Err(
                        Error::with_text(
                            ErrorType::InvalidData,
                            "The response status is not a number",
                        ),
                    );
                },
            };
            if value > 65535 {
                proof {
                    assert(!spec_valid_code(line@.skip(p + 1).subrange(0, p2)));
                    assert(!spec_status_line_ok(line@));
                }
                return Err(
                    Error::with_text(ErrorType::InvalidData, "The response status is out of range"),
                );
            }
            proof {
                assert(reason@ =~= rest@.skip(p2 + 1));
                assert(spec_valid_code(line@.skip(p + 1).subrange(0, p2)));
                assert(spec_status_line_ok(line@));
            }
            Ok((value as u16, reason))
        },
        Err(_) => {
            proof {
                // there is no second space at all in the remainder
                assert forall|q: int| 0 <= q implies !(#[trigger] match_at(
                    line@.skip(p + 1),
                    " "@,
                    q,
                )) by {
                    assert(!match_at(rest@, " "@, q));
                }
            }
            let value = match parse_u64(rest.as_str()) {
                Some(v) => v,
                None => {
                    proof {
                        assert(!spec_valid_code(line@.skip(p + 1)));
                        assert(!spec_status_line_ok(line@));
                    }
                    return Err(
                        Error::with_text(
                            ErrorType::InvalidData,
                            "The response status is not a number",
                        ),
                    );
                },
            };
            if value > 65535 {
                proof {
                    assert(!spec_valid_code(line@.skip(p + 1)));
                    assert(!spec_status_line_ok(line@));
                }
                return Err(
                    Error::with_text(ErrorType::InvalidData, "The response status is out of range"),
                );
            }
            proof {
                assert(rest@.len() >= 1);
                assert(spec_valid_code(line@.skip(p + 1)));
                assert(spec_status_line_ok(line@));
            }
            Ok((value as u16, String::new()))
        },
    }
}

/// Reads a header-field line `Name: value`: the text before the first
/// colon and the text after it with leading spaces removed. A line without
/// a colon is invalid data.
pub fn parse_field_line(line: &str) -> (r: Result<(String, String), Error>)
    ensures
        r matches Ok(nv) ==> exists|c: int|
            {
                &&& #[trigger] is_first_match_from(line@, ":"@, 0, c)
                &&& nv.0@ == line@.subrange(0, c)
                &&& nv.1@ == spec_skip_spaces(line@.skip(c + 1))
            },
        r matches Err(e) ==> e.error_type is InvalidData && (forall|q: int|
            !match_at(line@, ":"@, q)),
{
    proof {
        reveal_strlit(":");
    }
    let mut pos: usize = 0;
    let name = match substring_until_pattern(line, &mut pos, ":", true) {
        Ok(n) => n,
        Err(_) => {
            proof {
                if line@.len() == 0 {
                    assert forall|q: int| !match_at(line@, ":"@, q) by {}
                }
            }
            return Err(
                Error::with_text(ErrorType::InvalidData, "A header line carries no colon"),
            );
        },
    };
    let ghost c = pos - 1;
    proof {
        let p = choose|p: int|
            {
                &&& 0 <= p
                &&& #[trigger] match_at(line@, ":"@, p)
                &&& (forall|q: int| 0 <= q < p ==> !match_at(line@, ":"@, q))
                &&& name@ == line@.subrange(0, p)
                &&& pos == p + 1
            };
        assert(p == c);
        assert(is_first_match_from(line@, ":"@, 0, c));
    }
    let n = line.unicode_len();
    let ghost start = pos as int;
    while pos < n && line.get_char(pos) == ' '
        invariant
            n == line@.len(),
            start <= pos <= n,
            spec_skip_spaces(line@.skip(start)) == spec_skip_spaces(line@.skip(pos as int)),
        decreases n - pos,
    {
        proof {
            assert(line@.skip(pos as int)[0] == ' ');
            assert(line@.skip(pos as int).skip(1) =~= line@.skip(pos as int + 1));
        }
        pos += 1;
    }
    proof {
        assert(spec_skip_spaces(line@.skip(pos as int)) =~= line@.skip(pos as int));
    }
    let value = suffix_string(line, pos);
    proof {
        assert(value@ =~= line@.skip(pos as int));
        assert(line@.skip(start) =~= line@.skip(c + 1));
        assert(value@ == spec_skip_spaces(line@.skip(c + 1)));
    }
    Ok((name, value))
}

} // verus!
