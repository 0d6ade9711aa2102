//! The router: a parsed request resolves against the fixed route table.
//! File-backed routes come back as an action for the caller, who owns the
//! file system; every other request resolves to a finished response, a
//! parse failure to a 400 response.

use vstd::prelude::*;
use crate::headers::{Header, HeaderMap};
use crate::method::RequestMethod;
use crate::request::{parse_request, spec_parse_request, ReqModel};
use crate::response::{
    create_response, no_colon_no_sep, pairs_of, spec_create_response, wf_header_pair, wf_response,
    RespModel, Response,
};
use crate::strkit::{
    find_from, find_sub, fold_chars, has_at, lemma_find_from_shift, str_eq, str_starts_with,
    strip_nuls, strip_trailing_nuls, sub_string,
};

verus! {

/// What a connection needs done after routing: either a finished
/// response, or one file-system action whose outcome decides it.
pub enum RoutePlan {
    Respond(Response),
    ReadFile { name: String, headers: HeaderMap },
    WriteFile { name: String, contents: String, headers: HeaderMap },
}

/// The outcome of reading the named file, handed back by the caller.
pub enum FileReadOutcome {
    Content(String),
    NotFound,
    ReadError(String),
}

/// The outcome of writing the named file.
pub enum FileWriteOutcome {
    Written,
    WriteError(String),
}

/// What a route plan denotes.
pub ghost enum PlanModel {
    Respond(RespModel),
    ReadFile(Seq<char>, Map<Seq<char>, Seq<char>>),
    WriteFile(Seq<char>, Seq<char>, Map<Seq<char>, Seq<char>>),
}

/// The path segment after the first `prefix_len` characters, up to the
/// next `/` or the end.
pub open spec fn seg_after(path: Seq<char>, prefix_len: int) -> Seq<char> {
    let rest = path.subrange(prefix_len, path.len() as int);
    match find_from(rest, seq!['/'], 0) {
        Some(i) => rest.subrange(0, i),
        None => rest,
    }
}

/// The route table, one row per pattern, each gated by its allowed
/// methods; a matched pattern with a disallowed method answers 405, an
/// unmatched path 404.
pub open spec fn spec_route(m: ReqModel) -> PlanModel {
    let h = m.headers;
    if m.path == "/"@ {
        if m.method is GET {
            PlanModel::Respond(spec_create_response(h, 200, "Hello, World!"@, None))
        } else {
            PlanModel::Respond(spec_create_response(h, 405, "Method Not Allowed"@, None))
        }
    } else if m.path == "/user-agent"@ {
        if m.method is GET {
            if h.contains_key("user-agent"@) {
                PlanModel::Respond(spec_create_response(h, 200, h["user-agent"@], None))
            } else {
                PlanModel::Respond(spec_create_response(h, 500, "Internal Server Error"@, None))
            }
        } else {
            PlanModel::Respond(spec_create_response(h, 405, "Method Not Allowed"@, None))
        }
    } else if has_at(m.path, "/echo/"@, 0) {
        if m.method is GET {
            PlanModel::Respond(spec_create_response(h, 200, seg_after(m.path, 6), None))
        } else {
            PlanModel::Respond(spec_create_response(h, 405, "Method Not Allowed"@, None))
        }
    } else if has_at(m.path, "/files/"@, 0) {
        if m.method is GET {
            PlanModel::ReadFile(seg_after(m.path, 7), h)
        } else if m.method is POST {
            PlanModel::WriteFile(seg_after(m.path, 7), strip_nuls(m.body), h)
        } else {
            PlanModel::Respond(spec_create_response(h, 405, "Method Not Allowed"@, None))
        }
    } else {
        PlanModel::Respond(
            spec_create_response(
                h,
                404,
                "Not Found"@,
                Some(seq![("Content-Type"@, "text/plain"@)]),
            ),
        )
    }
}

/// Routing of a raw buffer: a parse failure answers 400, anything else
/// goes through the route table.
pub open spec fn spec_plan(s: Seq<char>) -> PlanModel {
    match spec_parse_request(s) {
        Err(_) => PlanModel::Respond(
            spec_create_response(
                Map::<Seq<char>, Seq<char>>::empty(),
                400,
                "Bad Request"@,
                None,
            ),
        ),
        Ok(m) => spec_route(m),
    }
}

fn segment_after(path: &str, prefix_len: usize) -> (r: String)
    requires
        prefix_len <= path@.len(),
    ensures
        r@ == seg_after(path@, prefix_len as int),
{
    let n = path.unicode_len();
    proof {
        reveal_strlit("/");
        assert("/"@ =~= seq!['/']);
        lemma_find_from_shift(path@, seq!['/'], prefix_len as int);
    }
    match find_sub(path, "/", prefix_len) {
        Some(i) => {
            proof {
                crate::strkit::lemma_find_from_some(path@, seq!['/'], prefix_len as int, i as int);
                let rest = path@.subrange(prefix_len as int, path@.len() as int);
                assert(rest.subrange(0, i - prefix_len) =~= path@.subrange(
                    prefix_len as int,
                    i as int,
                ));
            }
            sub_string(path, prefix_len, i)
        },
        None => sub_string(path, prefix_len, n),
    }
}

/// Resolves one raw request buffer against the route table, as
/// `spec_plan` says; every response handed back is well formed.
pub fn plan_request(input: &str) -> (r: RoutePlan)
    ensures
        match spec_plan(input@) {
            PlanModel::Respond(rm) => match r {
                RoutePlan::Respond(resp) => resp.model() == rm && wf_response(resp.model()),
                _ => false,
            },
            PlanModel::ReadFile(n, h) => match r {
                RoutePlan::ReadFile { name, headers } => name@ == n && headers@ == h
                    && headers.wf(),
                _ => false,
            },
            PlanModel::WriteFile(n, c, h) => match r {
                RoutePlan::WriteFile { name, contents, headers } => name@ == n && contents@ == c
                    && headers@ == h && headers.wf(),
                _ => false,
            },
        },
{
    let req = match parse_request(input) {
        Err(_) => {
            let hm = HeaderMap::new();
            return RoutePlan::Respond(create_response(&hm, 400, "Bad Request".to_owned(), None));
        },
        Ok(req) => req,
    };
    if str_eq(req.path.as_str(), "/") {
        match req.method {
            RequestMethod::GET => RoutePlan::Respond(
                create_response(&req.headers, 200, "Hello, World!".to_owned(), None),
            ),
            _ => RoutePlan::Respond(
                create_response(&req.headers, 405, "Method Not Allowed".to_owned(), None),
            ),
        }
    } else if str_eq(req.path.as_str(), "/user-agent") {
        match req.method {
            RequestMethod::GET => {
                proof {
                    reveal_strlit("user-agent");
                    assert(fold_chars("user-agent"@) =~= "user-agent"@);
                }
                match req.headers.get("user-agent") {
                    Some(v) => RoutePlan::Respond(create_response(&req.headers, 200, v, None)),
                    None => RoutePlan::Respond(
                        create_response(
                            &req.headers,
                            500,
                            "Internal Server Error".to_owned(),
                            None,
                        ),
                    ),
                }
            },
            _ => RoutePlan::Respond(
                create_response(&req.headers, 405, "Method Not Allowed".to_owned(), None),
            ),
        }
    } else if str_starts_with(req.path.as_str(), "/echo/") {
        proof {
            reveal_strlit("/echo/");
        }
        match req.method {
            RequestMethod::GET => {
                let msg = segment_after(req.path.as_str(), 6);
                RoutePlan::Respond(create_response(&req.headers, 200, msg, None))
            },
            _ => RoutePlan::Respond(
                create_response(&req.headers, 405, "Method Not Allowed".to_owned(), None),
            ),
        }
    } else if str_starts_with(req.path.as_str(), "/files/") {
        proof {
            reveal_strlit("/files/");
        }
        match req.method {
            RequestMethod::GET => RoutePlan::ReadFile {
                name: segment_after(req.path.as_str(), 7),
                headers: req.headers,
            },
            RequestMethod::POST => RoutePlan::WriteFile {
                name: segment_after(req.path.as_str(), 7),
                contents: strip_trailing_nuls(req.body.as_str()),
                headers: req.headers,
            },
            _ => RoutePlan::Respond(
                create_response(&req.headers, 405, "Method Not Allowed".to_owned(), None),
            ),
        }
    } else {
        let mut extra: Vec<Header> = Vec::new();
        extra.push(Header::new("Content-Type".to_owned(), "text/plain".to_owned()));
        proof {
            reveal_strlit("Content-Type");
            reveal_strlit("text/plain");
            assert(pairs_of(extra@) =~= seq![("Content-Type"@, "text/plain"@)]);
            assert(forall|k: int| 0 <= k < "Content-Type"@.len() ==> "Content-Type"@[k] != '\r'
                && "Content-Type"@[k] != '\n' && "Content-Type"@[k] != ':');
            assert(forall|k: int| 0 <= k < "text/plain"@.len() ==> "text/plain"@[k] != '\r'
                && "text/plain"@[k] != '\n' && "text/plain"@[k] != ':');
            no_colon_no_sep("text/plain"@);
            assert(wf_header_pair(pairs_of(extra@)[0]));
        }
        RoutePlan::Respond(
            create_response(&req.headers, 404, "Not Found".to_owned(), Some(extra)),
        )
    }
}

/// The response of a file GET: the file's content with the
/// octet-stream Content-Type on success, 404 on any failure.
pub open spec fn spec_file_read_response(
    h: Map<Seq<char>, Seq<char>>,
    o: FileReadOutcome,
) -> RespModel {
    match o {
        FileReadOutcome::Content(data) => spec_create_response(
            h,
            200,
            data@,
            Some(seq![("Content-Type"@, "application/octet-stream"@)]),
        ),
        _ => spec_create_response(h, 404, "Not Found"@, None),
    }
}

pub fn file_read_response(headers: &HeaderMap, outcome: FileReadOutcome) -> (r: Response)
    requires
        headers.wf(),
    ensures
        r.model() == spec_file_read_response(headers@, outcome),
        wf_response(r.model()),
{
    match outcome {
        FileReadOutcome::Content(data) => {
            let mut extra: Vec<Header> = Vec::new();
            extra.push(
                Header::new("Content-Type".to_owned(), "application/octet-stream".to_owned()),
            );
            proof {
                reveal_strlit("Content-Type");
                reveal_strlit("application/octet-stream");
                assert(pairs_of(extra@) =~= seq![
                    ("Content-Type"@, "application/octet-stream"@),
                ]);
                assert(forall|k: int| 0 <= k < "Content-Type"@.len() ==> "Content-Type"@[k] != '\r'
                    && "Content-Type"@[k] != '\n' && "Content-Type"@[k] != ':');
                assert(forall|k: int| 0 <= k < "application/octet-stream"@.len() ==>
                    "application/octet-stream"@[k] != '\r' && "application/octet-stream"@[k] != '\n'
                    && "application/octet-stream"@[k] != ':');
                no_colon_no_sep("application/octet-stream"@);
                assert(wf_header_pair(pairs_of(extra@)[0]));
            }
            create_response(headers, 200, data, Some(extra))
        },
        FileReadOutcome::NotFound => create_response(headers, 404, "Not Found".to_owned(), None),
        FileReadOutcome::ReadError(_) => create_response(
            headers,
            404,
            "Not Found".to_owned(),
            None,
        ),
    }
}

/// The response of a file POST: 201 Created on success, 500 with the
/// error's description on failure.
pub open spec fn spec_file_write_response(
    h: Map<Seq<char>, Seq<char>>,
    o: FileWriteOutcome,
) -> RespModel {
    match o {
        FileWriteOutcome::Written => spec_create_response(h, 201, "Created"@, None),
        FileWriteOutcome::WriteError(e) => spec_create_response(h, 500, e@, None),
    }
}

pub fn file_write_response(headers: &HeaderMap, outcome: FileWriteOutcome) -> (r: Response)
    requires
        headers.wf(),
    ensures
        r.model() == spec_file_write_response(headers@, outcome),
        wf_response(r.model()),
{
    match outcome {
        FileWriteOutcome::Written => create_response(headers, 201, "Created".to_owned(), None),
        FileWriteOutcome::WriteError(e) => create_response(headers, 500, e, None),
    }
}

/// Reading the same file twice with no intervening write observes the
/// same outcome, and then denotes the same response: the response is a
/// function of the request headers and the file's state alone.
pub proof fn lemma_file_read_idempotent(
    h: Map<Seq<char>, Seq<char>>,
    o1: FileReadOutcome,
    o2: FileReadOutcome,
)
    requires
        o1 == o2,
    ensures
        spec_file_read_response(h, o1) == spec_file_read_response(h, o2),
{
}

} // verus!

