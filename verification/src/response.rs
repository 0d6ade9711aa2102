//! The response and its serializer: status-line resolution, gzip content
//! negotiation, and Content-Length accounting.

use vstd::prelude::*;
use vstd::string::StringExecFns;
use vstd::string::StringSliceAdditionalSpecFns;
use vstd::utf8::encode_utf8;
use crate::gzip::{gzip_compress, gzip_of};
use crate::headers::{spec_header_line, Header, HeaderMap};
use crate::request::{colon_sp, crlf, crlf_crlf};
use crate::strkit::{
    dec_chars, dec_string, digit_char, find_from, fold_chars, has_at, hex_pairs, split_by,
    split_str, str_eq, to_hex_string,
};

verus! {

/// An HTTP response before serialization: a resolved status line, the
/// response headers in order, and the body.
pub struct Response {
    pub status_line: String,
    pub headers: Vec<Header>,
    pub data: String,
}

/// What a response denotes.
pub ghost struct RespModel {
    pub status_line: Seq<char>,
    pub headers: Seq<(Seq<char>, Seq<char>)>,
    pub data: Seq<char>,
}

/// The (name, value) pairs of a header vector.
pub open spec fn pairs_of(hs: Seq<Header>) -> Seq<(Seq<char>, Seq<char>)> {
    Seq::new(hs.len(), |i: int| (hs[i].name@, hs[i].value@))
}

/// The status line of each status code in the closed table; anything
/// unmapped falls back to 400.
pub open spec fn spec_status_line(code: u16) -> Seq<char> {
    if code == 200 { "HTTP/1.1 200 OK"@ }
    else if code == 201 { "HTTP/1.1 201 Created"@ }
    else if code == 404 { "HTTP/1.1 404 Not Found"@ }
    else if code == 405 { "HTTP/1.1 405 Method Not Allowed"@ }
    else if code == 500 { "HTTP/1.1 500 Internal Server Error"@ }
    else { "HTTP/1.1 400 Bad Request"@ }
}

pub fn status_line_for(code: u16) -> (r: &'static str)
    ensures
        r@ == spec_status_line(code),
{
    if code == 200 { "HTTP/1.1 200 OK" }
    else if code == 201 { "HTTP/1.1 201 Created" }
    else if code == 404 { "HTTP/1.1 404 Not Found" }
    else if code == 405 { "HTTP/1.1 405 Method Not Allowed" }
    else if code == 500 { "HTTP/1.1 500 Internal Server Error" }
    else { "HTTP/1.1 400 Bad Request" }
}

pub open spec fn comma_sp() -> Seq<char> {
    seq![',', ' ']
}

/// The client accepts gzip: its Accept-Encoding value, split on `", "`,
/// has a `gzip` token.
pub open spec fn gzip_accepted(h: Map<Seq<char>, Seq<char>>) -> bool {
    h.contains_key("accept-encoding"@) && split_by(h["accept-encoding"@], comma_sp()).contains(
        "gzip"@,
    )
}

fn accepts_gzip(headers: &HeaderMap) -> (r: bool)
    requires
        headers.wf(),
    ensures
        r == gzip_accepted(headers@),
{
    proof {
        reveal_strlit("accept-encoding");
        assert(fold_chars("accept-encoding"@) =~= "accept-encoding"@);
    }
    match headers.get("accept-encoding") {
        None => false,
        Some(v) => {
            proof {
                reveal_strlit(", ");
                assert(", "@ =~= comma_sp());
            }
            let toks = split_str(v.as_str(), ", ");
            let ghost toks_spec = split_by(v@, comma_sp());
            let n = toks.len();
            let mut i: usize = 0;
            while i < n
                invariant
                    0 <= i <= n,
                    n == toks@.len(),
                    toks.deep_view() == toks_spec,
                    headers@.contains_key("accept-encoding"@),
                    toks_spec == split_by(headers@["accept-encoding"@], comma_sp()),
                    forall|j: int| 0 <= j < i ==> toks_spec[j] != "gzip"@,
                decreases n - i,
            {
                proof {
                    assert(toks.deep_view()[i as int] == toks@[i as int]@);
                }
                if str_eq(toks[i].as_str(), "gzip") {
                    proof {
                        assert(toks_spec[i as int] == "gzip"@);
                        assert(toks_spec.contains("gzip"@));
                    }
                    return true;
                }
                i = i + 1;
            }
            proof {
                assert(!toks_spec.contains("gzip"@));
            }
            false
        },
    }
}

/// What `create_response` builds: the default Content-Type header when
/// none is supplied, a Content-Encoding header and a recoded body when
/// gzip is negotiated, and a Content-Length of the byte length of the
/// body as sent (the compressed length when compressed, even though the
/// body is then rendered as hex pairs).
pub open spec fn spec_create_response(
    req_h: Map<Seq<char>, Seq<char>>,
    status_code: u16,
    data: Seq<char>,
    extra: Option<Seq<(Seq<char>, Seq<char>)>>,
) -> RespModel {
    let base = match extra {
        Some(hs) => hs,
        None => seq![("Content-Type"@, "text/plain"@)],
    };
    if gzip_accepted(req_h) {
        let compressed = gzip_of(encode_utf8(data));
        RespModel {
            status_line: spec_status_line(status_code),
            headers: base + seq![("Content-Encoding"@, "gzip"@)] + seq![
                ("Content-Length"@, dec_chars(compressed.len() as int)),
            ],
            data: hex_pairs(compressed),
        }
    } else {
        RespModel {
            status_line: spec_status_line(status_code),
            headers: base + seq![("Content-Length"@, dec_chars(encode_utf8(data).len() as int))],
            data: data,
        }
    }
}

/// When gzip is negotiated, the response's Content-Length header carries
/// exactly the byte length of the compressed body, and the body sent is
/// that compressed stream rendered as hex pairs.
pub proof fn lemma_gzip_content_length(
    req_h: Map<Seq<char>, Seq<char>>,
    status_code: u16,
    data: Seq<char>,
    extra: Option<Seq<(Seq<char>, Seq<char>)>>,
)
    requires
        gzip_accepted(req_h),
    ensures
        ({
            let m = spec_create_response(req_h, status_code, data, extra);
            let compressed = gzip_of(encode_utf8(data));
            m.headers.last() == (("Content-Length"@, dec_chars(compressed.len() as int)))
                && m.data == hex_pairs(compressed)
        }),
{
}

impl Response {
    pub open spec fn model(&self) -> RespModel {
        RespModel {
            status_line: self.status_line@,
            headers: pairs_of(self.headers@),
            data: self.data@,
        }
    }

    /// Serializes as status line, CRLF, the header lines joined by CRLF,
    /// a blank line, then the body.
    pub fn format_to_string(self) -> (r: String)
        ensures
            r@ == spec_format_response(self.model()),
    {
        let ghost m = self.model();
        let Response { status_line, headers, data } = self;
        let mut out = status_line;
        out.append("\r\n");
        proof {
            reveal_strlit("\r\n");
            assert(out@ =~= m.status_line + crlf());
        }
        let n = headers.len();
        let mut i: usize = 0;
        while i < n
            invariant
                0 <= i <= n,
                n == headers@.len(),
                pairs_of(headers@) == m.headers,
                out@ == m.status_line + crlf() + spec_format_headers(
                    m.headers.subrange(0, i as int),
                ),
            decreases n - i,
        {
            proof {
                reveal_strlit("\r\n");
                reveal_strlit(": ");
            }
            if i > 0 {
                out.append("\r\n");
            }
            out.append(headers[i].name.as_str());
            out.append(": ");
            out.append(headers[i].value.as_str());
            proof {
                let pre = m.headers.subrange(0, i + 1);
                assert(pre.drop_last() =~= m.headers.subrange(0, i as int));
                assert(pre.last() == m.headers[i as int]);
                assert(m.headers[i as int] == (headers@[i as int].name@, headers@[i as int].value@));
                assert(out@ =~= m.status_line + crlf() + spec_format_headers(pre));
            }
            i = i + 1;
        }
        proof {
            assert(m.headers.subrange(0, n as int) =~= m.headers);
        }
        out.append("\r\n\r\n");
        out.append(data.as_str());
        proof {
            reveal_strlit("\r\n\r\n");
            assert(out@ =~= spec_format_response(m));
        }
        out
    }
}

/// The header block: the header lines joined by CRLF.
pub open spec fn spec_format_headers(hs: Seq<(Seq<char>, Seq<char>)>) -> Seq<char>
    decreases hs.len(),
{
    if hs.len() == 0 {
        Seq::empty()
    } else if hs.len() == 1 {
        spec_header_line(hs[0].0, hs[0].1)
    } else {
        spec_format_headers(hs.drop_last()) + crlf() + spec_header_line(hs.last().0, hs.last().1)
    }
}

/// The whole serialized response.
pub open spec fn spec_format_response(m: RespModel) -> Seq<char> {
    m.status_line + crlf() + spec_format_headers(m.headers) + crlf_crlf() + m.data
}

/// A header a reference client can parse back: a nonempty name free of
/// CRLF characters and colons, and a value free of CRLF characters and
/// of the `": "` separator.
pub open spec fn wf_header_pair(h: (Seq<char>, Seq<char>)) -> bool {
    &&& h.0.len() > 0
    &&& forall|k: int| 0 <= k < h.0.len() ==> h.0[k] != '\r' && h.0[k] != '\n' && h.0[k] != ':'
    &&& forall|k: int| 0 <= k < h.1.len() ==> h.1[k] != '\r' && h.1[k] != '\n'
    &&& find_from(h.1, colon_sp(), 0) is None
}

/// A response a reference client can parse back: no CRLF characters in
/// the status line, and every header pair well formed.
pub open spec fn wf_response(m: RespModel) -> bool {
    &&& forall|k: int| 0 <= k < m.status_line.len() ==> m.status_line[k] != '\r'
        && m.status_line[k] != '\n'
    &&& forall|i: int| 0 <= i < m.headers.len() ==> wf_header_pair(#[trigger] m.headers[i])
}

pub open spec fn is_digit_char(c: char) -> bool {
    c == '0' || c == '1' || c == '2' || c == '3' || c == '4' || c == '5' || c == '6' || c == '7'
        || c == '8' || c == '9'
}

pub proof fn lemma_dec_chars_digits(n: int)
    ensures
        forall|k: int| 0 <= k < dec_chars(n).len() ==> is_digit_char(#[trigger] dec_chars(n)[k]),
    decreases n,
{
    if n < 10 {
        assert(dec_chars(n)[0] == digit_char(n));
        assert(is_digit_char(digit_char(n)));
    } else {
        lemma_dec_chars_digits(n / 10);
        assert forall|k: int| 0 <= k < dec_chars(n).len() implies is_digit_char(
            #[trigger] dec_chars(n)[k],
        ) by {
            if k < dec_chars(n / 10).len() {
                assert(dec_chars(n)[k] == dec_chars(n / 10)[k]);
            } else {
                assert(dec_chars(n)[k] == digit_char(n % 10));
            }
        }
    }
}

/// A string of digits holds neither a colon, a CR, an LF, nor the
/// header separator.
pub proof fn lemma_digits_wf_value(v: Seq<char>)
    requires
        forall|k: int| 0 <= k < v.len() ==> is_digit_char(#[trigger] v[k]),
    ensures
        forall|k: int| 0 <= k < v.len() ==> v[k] != '\r' && v[k] != '\n',
        find_from(v, colon_sp(), 0) is None,
{
    assert forall|j: int| 0 <= j implies !has_at(v, colon_sp(), j) by {
        if j + 2 <= v.len() {
            assert(v[j] != ':');
        }
    }
    crate::strkit::lemma_find_from_is_none(v, colon_sp(), 0);
}

/// Builds the response for a status code and body: the caller's headers
/// (or the default Content-Type), then content negotiation, then the
/// Content-Length. Well-formed headers in give a well-formed response out.
pub fn create_response(
    request_headers: &HeaderMap,
    status_code: u16,
    data: String,
    headers: Option<Vec<Header>>,
) -> (r: Response)
    requires
        request_headers.wf(),
    ensures
        r.model() == spec_create_response(
            request_headers@,
            status_code,
            data@,
            match headers {
                Some(hs) => Some(pairs_of(hs@)),
                None => None::<Seq<(Seq<char>, Seq<char>)>>,
            },
        ),
        (match headers {
            Some(hs) => forall|i: int|
                0 <= i < hs@.len() ==> wf_header_pair(#[trigger] pairs_of(hs@)[i]),
            None => true,
        }) ==> wf_response(r.model()),
{
    let ghost extra = match &headers {
        Some(hs) => Some(pairs_of(hs@)),
        None => None::<Seq<(Seq<char>, Seq<char>)>>,
    };
    let status_line = status_line_for(status_code);
    let mut new_headers: Vec<Header> = match headers {
        Some(hs) => hs,
        None => {
            let mut v: Vec<Header> = Vec::new();
            v.push(Header::new("Content-Type".to_owned(), "text/plain".to_owned()));
            proof {
                assert(pairs_of(v@) =~= seq![("Content-Type"@, "text/plain"@)]);
            }
            v
        },
    };
    let ghost base = pairs_of(new_headers@);
    proof {
        status_line_wf(status_code);
        reveal_strlit("Content-Type");
        reveal_strlit("text/plain");
        assert(forall|k: int| 0 <= k < "Content-Type"@.len() ==> "Content-Type"@[k] != '\r'
            && "Content-Type"@[k] != '\n' && "Content-Type"@[k] != ':');
        assert(forall|k: int| 0 <= k < "text/plain"@.len() ==> "text/plain"@[k] != '\r'
            && "text/plain"@[k] != '\n' && "text/plain"@[k] != ':');
        no_colon_no_sep("text/plain"@);
        assert(extra is None ==> wf_header_pair(base[0]));
    }
    if accepts_gzip(request_headers) {
        new_headers.push(Header::new("Content-Encoding".to_owned(), "gzip".to_owned()));
        let encoded = gzip_compress(data.as_str());
        let len_str = dec_string(encoded.len());
        let body = to_hex_string(encoded);
        new_headers.push(Header::new("Content-Length".to_owned(), len_str));
        let r = Response { status_line: status_line.to_owned(), headers: new_headers, data: body };
        proof {
            reveal_strlit("Content-Encoding");
            reveal_strlit("gzip");
            reveal_strlit("Content-Length");
            assert(forall|k: int| 0 <= k < "Content-Encoding"@.len() ==> "Content-Encoding"@[k]
                != '\r' && "Content-Encoding"@[k] != '\n' && "Content-Encoding"@[k] != ':');
            assert(forall|k: int| 0 <= k < "gzip"@.len() ==> "gzip"@[k] != '\r' && "gzip"@[k]
                != '\n' && "gzip"@[k] != ':');
            no_colon_no_sep("gzip"@);
            assert(forall|k: int| 0 <= k < "Content-Length"@.len() ==> "Content-Length"@[k] != '\r'
                && "Content-Length"@[k] != '\n' && "Content-Length"@[k] != ':');
            lemma_dec_chars_digits(gzip_of(encode_utf8(data@)).len() as int);
            lemma_digits_wf_value(dec_chars(gzip_of(encode_utf8(data@)).len() as int));
            assert(r.model().headers =~= base + seq![("Content-Encoding"@, "gzip"@)] + seq![
                ("Content-Length"@, dec_chars(gzip_of(encode_utf8(data@)).len() as int)),
            ]);
            assert(r.model() == spec_create_response(request_headers@, status_code, data@, extra));
        }
        r
    } else {
        let byte_count = data.as_str().as_bytes_vec().len();
        let len_str = dec_string(byte_count);
        new_headers.push(Header::new("Content-Length".to_owned(), len_str));
        let r = Response { status_line: status_line.to_owned(), headers: new_headers, data };
        proof {
            reveal_strlit("Content-Length");
            assert(forall|k: int| 0 <= k < "Content-Length"@.len() ==> "Content-Length"@[k] != '\r'
                && "Content-Length"@[k] != '\n' && "Content-Length"@[k] != ':');
            lemma_dec_chars_digits(encode_utf8(r.data@).len() as int);
            lemma_digits_wf_value(dec_chars(encode_utf8(r.data@).len() as int));
            assert(r.model().headers =~= base + seq![
                ("Content-Length"@, dec_chars(encode_utf8(r.data@).len() as int)),
            ]);
            assert(r.model() == spec_create_response(request_headers@, status_code, data@, extra));
        }
        r
    }
}

/// No string free of colons holds the `": "` separator.
pub proof fn no_colon_no_sep(v: Seq<char>)
    requires
        forall|k: int| 0 <= k < v.len() ==> v[k] != ':',
    ensures
        find_from(v, colon_sp(), 0) is None,
{
    assert forall|j: int| 0 <= j implies !has_at(v, colon_sp(), j) by {
        if j + 2 <= v.len() {
            assert(v[j] != ':');
        }
    }
    crate::strkit::lemma_find_from_is_none(v, colon_sp(), 0);
}

/// Every status line in the table is free of CRLF characters.
proof fn status_line_wf(code: u16)
    ensures
        forall|k: int| 0 <= k < spec_status_line(code).len() ==> spec_status_line(code)[k] != '\r'
            && spec_status_line(code)[k] != '\n',
{
    reveal_strlit("HTTP/1.1 200 OK");
    reveal_strlit("HTTP/1.1 201 Created");
    reveal_strlit("HTTP/1.1 404 Not Found");
    reveal_strlit("HTTP/1.1 405 Method Not Allowed");
    reveal_strlit("HTTP/1.1 500 Internal Server Error");
    reveal_strlit("HTTP/1.1 400 Bad Request");
}






} // verus!
