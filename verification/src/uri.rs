//! The address parser: decomposes `scheme://host[:port]/path` into its
//! protocol, server (host with an explicit or scheme-default port), resource
//! path, and percent-decoded display name.

use vstd::prelude::*;
use vstd::string::StringExecFns;
use crate::decimal::is_digit;
use crate::error::{Error, ErrorType};
use crate::strutil::{
    is_first_match_from, lemma_first_match_unique, match_at, push_char, substring_until_pattern,
    suffix_string, str_eq,
};

verus! {

/// A parsed resource address.
#[derive(Debug)]
pub struct URI {
    pub protocol: String,
    pub server: String,
    pub resource: String,
    pub name: String,
}

/// The value of a hexadecimal digit character, or `None` for any other
/// character.
pub open spec fn spec_hex_digit(c: char) -> Option<nat> {
    let u = c as u32;
    if 48 <= u <= 57 {
        Some((u - 48) as nat)
    } else if 97 <= u <= 102 {
        Some((u - 87) as nat)
    } else if 65 <= u <= 70 {
        Some((u - 55) as nat)
    } else {
        None
    }
}

/// Percent-decoding with replacement: a `%` consumes the two following
/// characters and yields the byte they spell in hexadecimal, or the
/// replacement character when they do not spell one; a `%` with fewer than
/// two characters after it yields nothing.
pub open spec fn spec_uri_decode(s: Seq<char>) -> Seq<char>
    decreases s.len(),
{
    if s.len() == 0 {
        Seq::empty()
    } else if s[0] != '%' {
        seq![s[0]] + spec_uri_decode(s.skip(1))
    } else if s.len() >= 3 {
        (match (spec_hex_digit(s[1]), spec_hex_digit(s[2])) {
            (Some(h), Some(l)) => seq![((h * 16 + l) as u8) as char],
            _ => seq!['\u{FFFD}'],
        }) + spec_uri_decode(s.skip(3))
    } else {
        Seq::empty()
    }
}

/// Whether `s` ends in a (possibly empty) run of digits preceded by a
/// colon: the shape of a server string that already names a port.
pub open spec fn spec_has_port(s: Seq<char>) -> bool {
    exists|k: int|
        0 <= k < s.len() && s[k] == ':' && (forall|j: int| k < j < s.len() ==> is_digit(#[trigger] s[j]))
}

/// The display name a parsed address carries: the percent-decoded last
/// path segment, or the placeholder when that segment is empty.
pub open spec fn spec_display_name(raw: Seq<char>) -> Seq<char> {
    if raw.len() == 0 {
        "UNNAMED"@
    } else {
        spec_uri_decode(raw)
    }
}

/// Whether the address has a scheme separator at all.
pub open spec fn spec_has_scheme_sep(s: Seq<char>) -> bool {
    exists|p1: int| #[trigger] is_first_match_from(s, "://"@, 0, p1)
}

/// The position of the first `://`; meaningful only when
/// `spec_has_scheme_sep` holds, and then unique.
pub open spec fn spec_sep_pos(s: Seq<char>) -> int {
    choose|p1: int| is_first_match_from(s, "://"@, 0, p1)
}

/// The scheme text before the first `://`; meaningful only when
/// `spec_has_scheme_sep` holds.
pub open spec fn spec_protocol_of(s: Seq<char>) -> Seq<char> {
    s.subrange(0, spec_sep_pos(s))
}

/// Whether the address has the parseable shape: a scheme before a `://`,
/// the scheme `http` or `https`, and a `/` somewhere after the authority.
pub open spec fn spec_uri_ok(s: Seq<char>) -> bool {
    &&& spec_has_scheme_sep(s)
    &&& (spec_protocol_of(s) == "http"@ || spec_protocol_of(s) == "https"@)
    &&& exists|p2: int| #[trigger] is_first_match_from(s, "/"@, spec_sep_pos(s) + 3, p2)
}

/// Whether `name` is the display name of the text after the last `/` of
/// `address`.
pub open spec fn names_last_segment(address: Seq<char>, name: Seq<char>) -> bool {
    exists|q: int|
        {
            &&& 0 <= q < address.len()
            &&& (#[trigger] address[q]) == '/'
            &&& (forall|j: int| q < j < address.len() ==> address[j] != '/')
            &&& name == spec_display_name(address.subrange(q + 1, address.len() as int))
        }
}

/// The value of a hexadecimal digit character.
fn hex_val(c: char) -> (r: Option<u8>)
    ensures
        match r {
            Some(v) => spec_hex_digit(c) == Some(v as nat),
            None => spec_hex_digit(c) is None,
        },
{
    let u = c as u32;
    if 48 <= u && u <= 57 {
        Some((u - 48) as u8)
    } else if 97 <= u && u <= 102 {
        Some((u - 87) as u8)
    } else if 65 <= u && u <= 70 {
        Some((u - 55) as u8)
    } else {
        None
    }
}


/// Whether `server` already ends in a port: a run of digits (possibly
/// empty) preceded by a colon.
fn server_has_port(server: &str) -> (r: bool)
    ensures
        r == spec_has_port(server@),
{
    let n = server.unicode_len();
    let mut k: usize = n;
    loop
        invariant
            n == server@.len(),
            k <= n,
            forall|j: int| k <= j < n ==> is_digit(#[trigger] server@[j]),
        decreases k,
    {
        if k == 0 {
            proof {
                assert forall|kk: int|
                    0 <= kk < server@.len() && server@[kk] == ':' implies !(forall|j: int|
                    kk < j < server@.len() ==> is_digit(#[trigger] server@[j])) by {
                    assert(is_digit(server@[kk]));
                    assert(false);
                }
            }
            return false;
        }
        k -= 1;
        let c = server.get_char(k);
        if c == ':' {
            proof {
                assert(server@[k as int] == ':');
                assert(spec_has_port(server@));
            }
            return true;
        }
        let cu = c as u32;
        if cu < 48 || cu > 57 {
            proof {
                assert(!is_digit(server@[k as int]));
                assert forall|kk: int|
                    0 <= kk < server@.len() && server@[kk] == ':' implies !(forall|j: int|
                    kk < j < server@.len() ==> is_digit(#[trigger] server@[j])) by {
                    if kk < k {
                        assert(kk < k < server@.len() && !is_digit(server@[k as int]));
                    } else {
                        assert(is_digit(server@[kk]));
                        assert(false);
                    }
                }
            }
            return false;
        }
    }
}

impl URI {
    /// Percent-decodes `to_decode`, replacing malformed escapes with the
    /// replacement character and dropping a truncated escape at the end.
    pub fn uri_decode(to_decode: &str) -> (r: String)
        ensures
            r@ == spec_uri_decode(to_decode@),
    {
        let n = to_decode.unicode_len();
        let mut out = String::new();
        let mut i: usize = 0;
        proof {
            assert(to_decode@.skip(0) =~= to_decode@);
        }
        while i < n
            invariant
                n == to_decode@.len(),
                i <= n,
                spec_uri_decode(to_decode@) == out@ + spec_uri_decode(to_decode@.skip(i as int)),
            decreases n - i,
        {
            let ghost pre = to_decode@.skip(i as int);
            let c = to_decode.get_char(i);
            if c != '%' {
                push_char(&mut out, c);
                i += 1;
                proof {
                    assert(pre[0] == c);
                    assert(pre.skip(1) =~= to_decode@.skip(i as int));
                    assert(spec_uri_decode(pre) == seq![c] + spec_uri_decode(pre.skip(1)));
                }
            } else if n - i >= 3 {
                let h = hex_val(to_decode.get_char(i + 1));
                let l = hex_val(to_decode.get_char(i + 2));
                let decoded: char = match (h, l) {
                    (Some(hv), Some(lv)) => (hv * 16 + lv) as char,
                    _ => '\u{FFFD}',
                };
                push_char(&mut out, decoded);
                i += 3;
                proof {
                    assert(pre[0] == '%');
                    assert(pre[1] == to_decode@[i - 2]);
                    assert(pre[2] == to_decode@[i - 1]);
                    assert(pre.skip(3) =~= to_decode@.skip(i as int));
                    assert(spec_uri_decode(pre) == seq![decoded] + spec_uri_decode(pre.skip(3)));
                }
            } else {
                // a '%' with fewer than two characters after it: dropped
                proof {
                    assert(pre[0] == '%');
                    assert(pre.len() < 3);
                    assert(spec_uri_decode(pre) =~= Seq::<char>::empty());
                    assert(to_decode@.skip(n as int) =~= Seq::<char>::empty());
                    assert(spec_uri_decode(to_decode@.skip(n as int)) =~= Seq::<char>::empty());
                }
                i = n;
            }
        }
        proof {
            assert(to_decode@.skip(n as int) =~= Seq::<char>::empty());
            assert(out@ =~= spec_uri_decode(to_decode@));
        }
        out
    }

    /// Parses `scheme://host[:port]/path`. The protocol is the text before
    /// the first `://` and must be `http` or `https`; the server is the
    /// text from there to the first `/`, given the scheme's default port
    /// when it does not already end in one; the resource is the rest,
    /// leading `/` included; the display name is the percent-decoded text
    /// after the last `/`, or a placeholder when that text is empty. Any
    /// address not of this shape is an invalid-parameter error.
    pub fn parse(uri_string: &str) -> (r: Result<URI, Error>)
        ensures
            match r {
                Ok(u) => exists|p1: int, p2: int, q: int|
                    #![trigger is_first_match_from(uri_string@, "://"@, 0, p1), is_first_match_from(uri_string@, "/"@, p1 + 3, p2), uri_string@[q]]
                    {
                        &&& is_first_match_from(uri_string@, "://"@, 0, p1)
                        &&& u.protocol@ == uri_string@.subrange(0, p1)
                        &&& (u.protocol@ == "http"@ || u.protocol@ == "https"@)
                        &&& is_first_match_from(uri_string@, "/"@, p1 + 3, p2)
                        &&& u.server@ == uri_string@.subrange(p1 + 3, p2) + (
                        if spec_has_port(uri_string@.subrange(p1 + 3, p2)) {
                            Seq::<char>::empty()
                        } else if u.protocol@ == "http"@ {
                            ":80"@
                        } else {
                            ":443"@
                        })
                        &&& u.resource@ == uri_string@.subrange(p2, uri_string@.len() as int)
                        &&& 0 <= q < uri_string@.len()
                        &&& uri_string@[q] == '/'
                        &&& (forall|j: int| q < j < uri_string@.len() ==> uri_string@[j] != '/')
                        &&& u.name@ == spec_display_name(
                            uri_string@.subrange(q + 1, uri_string@.len() as int),
                        )
                    },
                Err(e) => {
                    &&& e.error_type is InvalidParameter
                    &&& !spec_uri_ok(uri_string@)
                    &&& (spec_has_scheme_sep(uri_string@) && !(spec_protocol_of(uri_string@)
                        == "http"@ || spec_protocol_of(uri_string@) == "https"@)
                        ==> e.description@ == "The protocol \""@ + spec_protocol_of(uri_string@)
                        + "\" is not supported"@)
                },
            },
            r is Ok <==> spec_uri_ok(uri_string@),
            r matches Ok(u) ==> names_last_segment(uri_string@, u.name@),
    {
        proof {
            reveal_strlit("://");
            reveal_strlit("/");
        }
        let mut string_offset: usize = 0;

        let protocol = match substring_until_pattern(uri_string, &mut string_offset, "://", true) {
            Ok(p) => p,
            Err(e) => {
                proof {
                    assert forall|p1: int|
                        !(#[trigger] is_first_match_from(uri_string@, "://"@, 0, p1)) by {
                        if match_at(uri_string@, "://"@, p1) {
                            assert(p1 + 3 <= uri_string@.len());
                        }
                    }
                }
                return Err(e);
            },
        };
        let ghost p1 = string_offset - 3;
        proof {
            let pw = choose|p: int|
                {
                    &&& 0 <= p
                    &&& #[trigger] match_at(uri_string@, "://"@, p)
                    &&& (forall|q: int| 0 <= q < p ==> !match_at(uri_string@, "://"@, q))
                    &&& protocol@ == uri_string@.subrange(0, p)
                    &&& string_offset == p + 3
                };
            assert(pw == p1);
            assert(is_first_match_from(uri_string@, "://"@, 0, p1));
            assert(protocol@ == uri_string@.subrange(0, p1));
            assert(spec_has_scheme_sep(uri_string@));
            assert(is_first_match_from(uri_string@, "://"@, 0, spec_sep_pos(uri_string@)));
            lemma_first_match_unique(
                uri_string@,
                "://"@,
                0,
                p1,
                spec_sep_pos(uri_string@),
            );
            assert(spec_protocol_of(uri_string@) == protocol@);
        }

        // validate the protocol
        if !str_eq(protocol.as_str(), "http") && !str_eq(protocol.as_str(), "https") {
            let mut desc = "The protocol \"".to_owned();
            desc.append(protocol.as_str());
            desc.append("\" is not supported");
            return Err(Error { error_type: ErrorType::InvalidParameter, description: desc });
        }

        let ghost after_protocol = string_offset as int;
        let mut server = match substring_until_pattern(uri_string, &mut string_offset, "/", false) {
            Ok(s) => s,
            Err(e) => {
                proof {
                    assert forall|p2: int|
                        !(#[trigger] is_first_match_from(
                            uri_string@,
                            "/"@,
                            spec_sep_pos(uri_string@) + 3,
                            p2,
                        )) by {
                        if match_at(uri_string@, "/"@, p2) && p2 >= p1 + 3 {
                            assert(p2 + 1 <= uri_string@.len());
                        }
                    }
                }
                return Err(e);
            },
        };
        let ghost p2 = string_offset as int;
        proof {
            let pw = choose|p: int|
                {
                    &&& after_protocol <= p
                    &&& #[trigger] match_at(uri_string@, "/"@, p)
                    &&& (forall|q: int| after_protocol <= q < p ==> !match_at(uri_string@, "/"@, q))
                    &&& server@ == uri_string@.subrange(after_protocol, p)
                    &&& string_offset == p
                };
            assert(pw == p2);
            assert(is_first_match_from(uri_string@, "/"@, p1 + 3, p2));
            assert(server@ == uri_string@.subrange(p1 + 3, p2));
            assert(uri_string@.subrange(p2, p2 + 1) == "/"@);
            assert(uri_string@.subrange(p2, p2 + 1)[0] == uri_string@[p2]);
            assert("/"@[0] == '/');
            assert(uri_string@[p2] == '/');
        }
        let resource = suffix_string(uri_string, string_offset);

        // append the scheme's default port if none is present
        let ghost raw_server = server@;
        let has_port = server_has_port(server.as_str());
        if !has_port {
            if str_eq(protocol.as_str(), "http") {
                server.append(":80");
            } else {
                server.append(":443");
            }
        }

        // the display name: the percent-decoded text after the last '/'
        let n = uri_string.unicode_len();
        let mut q: usize = n - 1;
        while uri_string.get_char(q) != '/'
            invariant
                n == uri_string@.len(),
                string_offset < n,
                uri_string@[string_offset as int] == '/',
                string_offset <= q < n,
                forall|j: int| q < j < n ==> uri_string@[j] != '/',
            decreases q,
        {
            proof {
                assert(q != string_offset);
            }
            q -= 1;
        }
        let raw_name = suffix_string(uri_string, q + 1);
        let name = if raw_name.unicode_len() == 0 {
            "UNNAMED".to_owned()
        } else {
            URI::uri_decode(raw_name.as_str())
        };

        let u = URI { protocol, server, resource, name };
        proof {
            assert(is_first_match_from(uri_string@, "/"@, spec_sep_pos(uri_string@) + 3, p2));
            assert(spec_uri_ok(uri_string@));
            if !spec_has_port(raw_server) {
                if u.protocol@ == "http"@ {
                    assert(u.server@ == raw_server + ":80"@);
                } else {
                    assert(u.server@ == raw_server + ":443"@);
                }
            }
        }
        Ok(u)
    }
}

} // verus!
