use http_server::method::RequestMethod;
use http_server::request::{parse_request, ParseError};
use http_server::response::Response;
use http_server::router::{
    file_read_response, file_write_response, plan_request, FileReadOutcome, FileWriteOutcome,
    RoutePlan,
};

fn status_of(r: &Response) -> &str {
    &r.status_line
}

fn header_value<'a>(r: &'a Response, name: &str) -> Option<&'a str> {
    for h in &r.headers {
        if h.name == name {
            return Some(&h.value);
        }
    }
    None
}

fn respond(plan: RoutePlan, file: Option<&str>) -> Response {
    match plan {
        RoutePlan::Respond(r) => r,
        RoutePlan::ReadFile { name: _, headers } => {
            let outcome = match file {
                Some(data) => FileReadOutcome::Content(data.to_string()),
                None => FileReadOutcome::NotFound,
            };
            file_read_response(&headers, outcome)
        }
        RoutePlan::WriteFile { name: _, contents: _, headers } => {
            file_write_response(&headers, FileWriteOutcome::Written)
        }
    }
}

#[test]
fn from_str_all_methods() {
    assert!(matches!(RequestMethod::from_str("GET"), Ok(RequestMethod::GET)));
    assert!(matches!(RequestMethod::from_str("POST"), Ok(RequestMethod::POST)));
    assert!(matches!(RequestMethod::from_str("PUT"), Ok(RequestMethod::PUT)));
    assert!(matches!(RequestMethod::from_str("DELETE"), Ok(RequestMethod::DELETE)));
    assert!(matches!(RequestMethod::from_str("PATCH"), Ok(RequestMethod::PATCH)));
    assert!(RequestMethod::from_str("BREW").is_err());
    assert!(RequestMethod::from_str("get").is_err());
    assert!(RequestMethod::from_str("").is_err());
}

#[test]
fn parse_minimal_request() {
    let req = parse_request("GET / HTTP/1.1\r\n\r\n\r\n").unwrap();
    assert_eq!(req.method, RequestMethod::GET);
    assert_eq!(req.path, "/");
    assert_eq!(req.body, "");
}

#[test]
fn parse_headers_fold_names_keep_values() {
    let req = parse_request("GET / HTTP/1.1\r\nUser-Agent: Curl/8\r\nFoo: Bar\r\n\r\n").unwrap();
    assert_eq!(req.headers.get("user-agent").as_deref(), Some("Curl/8"));
    assert_eq!(req.headers.get("USER-AGENT").as_deref(), Some("Curl/8"));
    assert_eq!(req.headers.get("foo").as_deref(), Some("Bar"));
    assert_eq!(req.headers.get("absent"), None);
}

#[test]
fn parse_duplicate_header_last_wins() {
    let req = parse_request("GET / HTTP/1.1\r\nX-A: one\r\nx-a: two\r\n\r\n").unwrap();
    assert_eq!(req.headers.get("x-a").as_deref(), Some("two"));
}

#[test]
fn parse_body_is_rest_of_buffer() {
    let req = parse_request("POST /files/a HTTP/1.1\r\nHost: x\r\n\r\nhello\r\n\r\nworld").unwrap();
    assert_eq!(req.body, "hello\r\n\r\nworld");
}

#[test]
fn parse_errors() {
    assert!(matches!(parse_request("no line break at all"), Err(ParseError::MalformedRequest)));
    assert!(matches!(parse_request("GET / HTTP/1.1\r\nHost: x"), Err(ParseError::MalformedRequest)));
    assert!(matches!(parse_request("GET /\r\nHost: x\r\n\r\n"), Err(ParseError::MalformedRequest)));
    assert!(matches!(
        parse_request("GET / HTTP/1.1 extra\r\nHost: x\r\n\r\n"),
        Err(ParseError::MalformedRequest)
    ));
    assert!(matches!(parse_request("BREW / HTTP/1.1\r\nHost: x\r\n\r\n"), Err(ParseError::UnsupportedMethod)));
    assert!(matches!(
        parse_request("GET / HTTP/1.1\r\nNoSeparator\r\n\r\n"),
        Err(ParseError::MalformedHeaderLine)
    ));
    assert!(matches!(
        parse_request("GET / HTTP/1.1\r\na: b: c\r\n\r\n"),
        Err(ParseError::MalformedHeaderLine)
    ));
}

#[test]
fn parse_failure_answers_400() {
    let resp = respond(plan_request("BREW / HTTP/1.1\r\nHost: x\r\n\r\n"), None);
    assert_eq!(status_of(&resp), "HTTP/1.1 400 Bad Request");
    assert_eq!(resp.data, "Bad Request");
}

#[test]
fn root_route() {
    let resp = respond(plan_request("GET / HTTP/1.1\r\nHost: x\r\n\r\n"), None);
    assert_eq!(status_of(&resp), "HTTP/1.1 200 OK");
    assert_eq!(resp.data, "Hello, World!");
    assert_eq!(header_value(&resp, "Content-Type"), Some("text/plain"));
    assert_eq!(header_value(&resp, "Content-Length"), Some("13"));
}

#[test]
fn echo_route() {
    let resp = respond(plan_request("GET /echo/foo HTTP/1.1\r\nHost: x\r\n\r\n"), None);
    assert_eq!(status_of(&resp), "HTTP/1.1 200 OK");
    assert_eq!(resp.data, "foo");
    assert_eq!(header_value(&resp, "Content-Type"), Some("text/plain"));
}

#[test]
fn echo_takes_one_segment() {
    let resp = respond(plan_request("GET /echo/foo/bar HTTP/1.1\r\nHost: x\r\n\r\n"), None);
    assert_eq!(resp.data, "foo");
}

#[test]
fn user_agent_route() {
    let resp = respond(
        plan_request("GET /user-agent HTTP/1.1\r\nUser-Agent: test-client/1.0\r\n\r\n"),
        None,
    );
    assert_eq!(status_of(&resp), "HTTP/1.1 200 OK");
    assert_eq!(resp.data, "test-client/1.0");
}

#[test]
fn user_agent_missing_is_500() {
    let resp = respond(plan_request("GET /user-agent HTTP/1.1\r\nHost: x\r\n\r\n"), None);
    assert_eq!(status_of(&resp), "HTTP/1.1 500 Internal Server Error");
}

#[test]
fn unknown_path_is_404() {
    let resp = respond(plan_request("GET /nope HTTP/1.1\r\nHost: x\r\n\r\n"), None);
    assert_eq!(status_of(&resp), "HTTP/1.1 404 Not Found");
    assert_eq!(resp.data, "Not Found");
    assert_eq!(header_value(&resp, "Content-Type"), Some("text/plain"));
}

#[test]
fn method_not_allowed_is_405() {
    let resp = respond(plan_request("DELETE / HTTP/1.1\r\nHost: x\r\n\r\n"), None);
    assert_eq!(status_of(&resp), "HTTP/1.1 405 Method Not Allowed");
    assert_eq!(resp.data, "Method Not Allowed");
}

#[test]
fn file_get_missing_is_404() {
    let plan = plan_request("GET /files/missing.txt HTTP/1.1\r\nHost: x\r\n\r\n");
    match &plan {
        RoutePlan::ReadFile { name, .. } => assert_eq!(name, "missing.txt"),
        _ => panic!("expected a file read"),
    }
    let resp = respond(plan, None);
    assert_eq!(status_of(&resp), "HTTP/1.1 404 Not Found");
    assert_eq!(resp.data, "Not Found");
}

#[test]
fn file_post_then_get() {
    let store: Option<String>;
    let plan = plan_request("POST /files/note.txt HTTP/1.1\r\nHost: x\r\n\r\nhello");
    match plan {
        RoutePlan::WriteFile { name, contents, headers } => {
            assert_eq!(name, "note.txt");
            store = Some(contents);
            let resp = file_write_response(&headers, FileWriteOutcome::Written);
            assert_eq!(status_of(&resp), "HTTP/1.1 201 Created");
            assert_eq!(resp.data, "Created");
        }
        _ => panic!("expected a file write"),
    }
    let plan = plan_request("GET /files/note.txt HTTP/1.1\r\nHost: x\r\n\r\n");
    let resp = respond(plan, store.as_deref());
    assert_eq!(status_of(&resp), "HTTP/1.1 200 OK");
    assert_eq!(resp.data, "hello");
    assert_eq!(header_value(&resp, "Content-Type"), Some("application/octet-stream"));
    assert_eq!(header_value(&resp, "Content-Length"), Some("5"));
}

#[test]
fn file_post_strips_trailing_nuls() {
    let raw = "POST /files/p.txt HTTP/1.1\r\nHost: x\r\n\r\nhello\0\0\0";
    match plan_request(raw) {
        RoutePlan::WriteFile { contents, .. } => assert_eq!(contents, "hello"),
        _ => panic!("expected a file write"),
    }
}

#[test]
fn file_write_error_is_500() {
    match plan_request("POST /files/p.txt HTTP/1.1\r\nHost: x\r\n\r\nx") {
        RoutePlan::WriteFile { headers, .. } => {
            let resp = file_write_response(
                &headers,
                FileWriteOutcome::WriteError("disk full".to_string()),
            );
            assert_eq!(status_of(&resp), "HTTP/1.1 500 Internal Server Error");
            assert_eq!(resp.data, "disk full");
        }
        _ => panic!("expected a file write"),
    }
}

#[test]
fn file_read_error_is_404() {
    match plan_request("GET /files/p.txt HTTP/1.1\r\nHost: x\r\n\r\n") {
        RoutePlan::ReadFile { headers, .. } => {
            let resp =
                file_read_response(&headers, FileReadOutcome::ReadError("denied".to_string()));
            assert_eq!(status_of(&resp), "HTTP/1.1 404 Not Found");
            assert_eq!(resp.data, "Not Found");
        }
        _ => panic!("expected a file read"),
    }
}

#[test]
fn route_table_statuses() {
    let methods = ["GET", "POST", "PUT", "DELETE", "PATCH"];
    let expect = |raw: &str, file: Option<&str>| -> String {
        status_of(&respond(plan_request(raw), file)).to_string()
    };
    for m in methods {
        let raw = format!("{m} / HTTP/1.1\r\nHost: x\r\n\r\n");
        let want = if m == "GET" { "200 OK" } else { "405 Method Not Allowed" };
        assert!(expect(&raw, None).contains(want), "{raw}");

        let raw = format!("{m} /user-agent HTTP/1.1\r\nUser-Agent: x\r\n\r\n");
        let want = if m == "GET" { "200 OK" } else { "405 Method Not Allowed" };
        assert!(expect(&raw, None).contains(want), "{raw}");

        let raw = format!("{m} /echo/hey HTTP/1.1\r\nHost: x\r\n\r\n");
        let want = if m == "GET" { "200 OK" } else { "405 Method Not Allowed" };
        assert!(expect(&raw, None).contains(want), "{raw}");

        let raw = format!("{m} /files/f HTTP/1.1\r\nHost: x\r\n\r\nbody");
        let want = if m == "GET" {
            "200 OK"
        } else if m == "POST" {
            "201 Created"
        } else {
            "405 Method Not Allowed"
        };
        assert!(expect(&raw, Some("data")).contains(want), "{raw}");

        let raw = format!("{m} /elsewhere HTTP/1.1\r\nHost: x\r\n\r\n");
        assert!(expect(&raw, None).contains("404 Not Found"), "{raw}");
    }
}

#[test]
fn file_reads_are_idempotent() {
    let plan1 = plan_request("GET /files/x HTTP/1.1\r\nHost: x\r\n\r\n");
    let plan2 = plan_request("GET /files/x HTTP/1.1\r\nHost: x\r\n\r\n");
    let r1 = respond(plan1, Some("stable"));
    let r2 = respond(plan2, Some("stable"));
    assert_eq!(r1.format_to_string(), r2.format_to_string());
}
