//! The request parser: a raw buffer, taken as text, becomes a
//! structured request or one of the named parse errors.

use vstd::prelude::*;
use crate::headers::HeaderMap;
use crate::method::{spec_method, RequestMethod};
use crate::strkit::{find_from, find_sub, fold_chars, split_by, split_str, sub_string};

verus! {

/// Carriage return + line feed, the line terminator of the wire format.
pub open spec fn crlf() -> Seq<char> {
    seq!['\r', '\n']
}

/// The blank line that separates the header block from the body.
pub open spec fn crlf_crlf() -> Seq<char> {
    seq!['\r', '\n', '\r', '\n']
}

/// The header-line separator between name and value.
pub open spec fn colon_sp() -> Seq<char> {
    seq![':', ' ']
}

pub open spec fn sp() -> Seq<char> {
    seq![' ']
}

#[derive(Clone, Copy, PartialEq, Eq, Structural, Debug)]
pub enum ParseError {
    /// No start line, no blank line, or a start line without exactly
    /// three tokens.
    MalformedRequest,
    /// A method token outside the closed enumeration.
    UnsupportedMethod,
    /// A header line with zero, or more than one, `": "` separator.
    MalformedHeaderLine,
}

/// A parsed request. The path is kept verbatim; header names are
/// case-folded; the body is the remainder of the buffer, padding and all.
pub struct Request {
    pub method: RequestMethod,
    pub path: String,
    pub headers: HeaderMap,
    pub body: String,
}

/// What a parsed request denotes.
pub ghost struct ReqModel {
    pub method: RequestMethod,
    pub path: Seq<char>,
    pub headers: Map<Seq<char>, Seq<char>>,
    pub body: Seq<char>,
}

/// A header line must split on `": "` into exactly a name and a value.
pub open spec fn valid_header_line(l: Seq<char>) -> bool {
    split_by(l, colon_sp()).len() == 2
}

pub open spec fn line_name(l: Seq<char>) -> Seq<char> {
    split_by(l, colon_sp())[0]
}

pub open spec fn line_value(l: Seq<char>) -> Seq<char> {
    split_by(l, colon_sp())[1]
}

/// An empty header block holds no lines at all.
pub open spec fn header_lines(block: Seq<char>) -> Seq<Seq<char>> {
    if block.len() == 0 {
        Seq::empty()
    } else {
        split_by(block, crlf())
    }
}

/// The header map denoted by the lines: names case-folded, last value
/// winning on a repeated name.
pub open spec fn headers_of(lines: Seq<Seq<char>>) -> Map<Seq<char>, Seq<char>>
    decreases lines.len(),
{
    if lines.len() == 0 {
        Map::empty()
    } else {
        headers_of(lines.drop_last()).insert(
            fold_chars(line_name(lines.last())),
            line_value(lines.last()),
        )
    }
}

/// The parse, in full: split at the first CRLF into start line and
/// remainder; split the remainder at the first blank line into header
/// block and body; split the start line on spaces into exactly three
/// tokens; parse the method; then each header line on `": "`.
pub open spec fn spec_parse_request(s: Seq<char>) -> Result<ReqModel, ParseError> {
    match find_from(s, crlf(), 0) {
        None => Err(ParseError::MalformedRequest),
        Some(i) => {
            let start_line = s.subrange(0, i);
            let rest = s.subrange(i + 2, s.len() as int);
            match find_from(rest, crlf_crlf(), 0) {
                None => Err(ParseError::MalformedRequest),
                Some(j) => {
                    let block = rest.subrange(0, j);
                    let body = rest.subrange(j + 4, rest.len() as int);
                    let toks = split_by(start_line, sp());
                    if toks.len() != 3 {
                        Err(ParseError::MalformedRequest)
                    } else {
                        match spec_method(toks[0]) {
                            None => Err(ParseError::UnsupportedMethod),
                            Some(m) => {
                                let lines = header_lines(block);
                                if exists|t: int|
                                    0 <= t < lines.len() && !valid_header_line(#[trigger] lines[t]) {
                                    Err(ParseError::MalformedHeaderLine)
                                } else {
                                    Ok(ReqModel {
                                        method: m,
                                        path: toks[1],
                                        headers: headers_of(lines),
                                        body: body,
                                    })
                                }
                            },
                        }
                    }
                },
            }
        },
    }
}

/// Parses one raw request buffer, as `spec_parse_request` says.
pub fn parse_request(input: &str) -> (r: Result<Request, ParseError>)
    ensures
        match spec_parse_request(input@) {
            Ok(m) => match r {
                Ok(req) => req.method == m.method && req.path@ == m.path && req.headers@
                    == m.headers && req.headers.wf() && req.body@ == m.body,
                Err(_) => false,
            },
            Err(e) => r == Err::<Request, ParseError>(e),
        },
{
    proof {
        reveal_strlit("\r\n");
        reveal_strlit("\r\n\r\n");
        reveal_strlit(" ");
        reveal_strlit(": ");
        assert("\r\n"@ =~= crlf());
        assert("\r\n\r\n"@ =~= crlf_crlf());
        assert(" "@ =~= sp());
        assert(": "@ =~= colon_sp());
    }
    let n = input.unicode_len();
    let i = match find_sub(input, "\r\n", 0) {
        None => {
            return Err(ParseError::MalformedRequest);
        },
        Some(i) => i,
    };
    proof {
        crate::strkit::lemma_find_from_some(input@, crlf(), 0, i as int);
    }
    let start_line = sub_string(input, 0, i);
    let rest = sub_string(input, i + 2, n);
    let rest_len = n - (i + 2);
    let j = match find_sub(rest.as_str(), "\r\n\r\n", 0) {
        None => {
            return Err(ParseError::MalformedRequest);
        },
        Some(j) => j,
    };
    proof {
        crate::strkit::lemma_find_from_some(rest@, crlf_crlf(), 0, j as int);
    }
    let block = sub_string(rest.as_str(), 0, j);
    let body = sub_string(rest.as_str(), j + 4, rest_len);
    let toks = split_str(start_line.as_str(), " ");
    if toks.len() != 3 {
        return Err(ParseError::MalformedRequest);
    }
    proof {
        assert(toks.deep_view()[0] == toks@[0]@);
        assert(toks.deep_view()[1] == toks@[1]@);
    }
    let method = match RequestMethod::from_str(toks[0].as_str()) {
        Err(_) => {
            return Err(ParseError::UnsupportedMethod);
        },
        Ok(m) => m,
    };
    let ghost lines_spec = header_lines(block@);
    proof {
        assert(toks.deep_view()[2] == toks@[2]@);
    }
    let mut hm = HeaderMap::new();
    if block.unicode_len() > 0 {
        let lines = split_str(block.as_str(), "\r\n");
        let cnt = lines.len();
        let mut k: usize = 0;
        while k < cnt
            invariant
                0 <= k <= cnt,
                cnt == lines@.len(),
                lines.deep_view() == lines_spec,
                hm.wf(),
                hm@ == headers_of(lines_spec.subrange(0, k as int)),
                forall|t: int| 0 <= t < k ==> valid_header_line(#[trigger] lines_spec[t]),
                (exists|t: int|
                    0 <= t < lines_spec.len() && !valid_header_line(#[trigger] lines_spec[t]))
                    ==> spec_parse_request(input@) == Err::<ReqModel, ParseError>(
                    ParseError::MalformedHeaderLine,
                ),
                !(exists|t: int|
                    0 <= t < lines_spec.len() && !valid_header_line(#[trigger] lines_spec[t]))
                    ==> spec_parse_request(input@) == Ok::<ReqModel, ParseError>(
                    (ReqModel {
                        method: method,
                        path: toks@[1]@,
                        headers: headers_of(lines_spec),
                        body: body@,
                    }),
                ),
            decreases cnt - k,
        {
            proof {
                reveal_strlit(": ");
                assert(": "@ =~= colon_sp());
                assert(lines.deep_view()[k as int] == lines@[k as int]@);
            }
            let pieces = split_str(lines[k].as_str(), ": ");
            if pieces.len() != 2 {
                proof {
                    assert(!valid_header_line(lines_spec[k as int]));
                }
                return Err(ParseError::MalformedHeaderLine);
            }
            proof {
                assert(pieces.deep_view()[0] == pieces@[0]@);
                assert(pieces.deep_view()[1] == pieces@[1]@);
            }
            let name = pieces[0].clone();
            let value = pieces[1].clone();
            hm.insert(name, value);
            proof {
                let pre = lines_spec.subrange(0, k + 1);
                assert(pre.drop_last() =~= lines_spec.subrange(0, k as int));
                assert(pre.last() == lines_spec[k as int]);
                assert(hm@ =~= headers_of(pre));
            }
            k = k + 1;
        }
        proof {
            assert(lines_spec.subrange(0, cnt as int) =~= lines_spec);
        }
    } else {
        proof {
            assert(block@.len() == 0);
            assert(lines_spec =~= Seq::<Seq<char>>::empty());
            assert(hm@ =~= headers_of(lines_spec));
        }
    }
    let path = toks[1].clone();
    Ok(Request { method, path, headers: hm, body })
}

} // verus!
