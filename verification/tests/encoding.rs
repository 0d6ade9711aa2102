use std::io::Read;

use http_server::headers::{Header, HeaderMap};
use http_server::response::{create_response, Response};
use http_server::router::{plan_request, RoutePlan};
use http_server::strkit::to_hex_string;

fn header_value<'a>(r: &'a Response, name: &str) -> Option<&'a str> {
    for h in &r.headers {
        if h.name == name {
            return Some(&h.value);
        }
    }
    None
}

fn plain_response(plan: RoutePlan) -> Response {
    match plan {
        RoutePlan::Respond(r) => r,
        _ => panic!("expected a finished response"),
    }
}

fn hex_to_bytes(s: &str) -> Vec<u8> {
    if s.is_empty() {
        return Vec::new();
    }
    s.split(' ').map(|p| u8::from_str_radix(p, 16).unwrap()).collect()
}

fn gunzip(bytes: &[u8]) -> String {
    let mut out = String::new();
    flate2::read::GzDecoder::new(bytes).read_to_string(&mut out).unwrap();
    out
}

#[test]
fn hex_rendering_is_exact() {
    assert_eq!(to_hex_string(vec![0x00, 0xAB, 0x10, 0xFF]), "00 AB 10 FF");
    assert_eq!(to_hex_string(vec![0x7E]), "7E");
    assert_eq!(to_hex_string(Vec::new()), "");
}

#[test]
fn header_line_format() {
    let h = Header::new("Content-Type".to_string(), "text/plain".to_string());
    assert_eq!(h.format_to_string(), "Content-Type: text/plain");
}

#[test]
fn serialized_response_is_exact() {
    let resp = plain_response(plan_request("GET / HTTP/1.1\r\nHost: x\r\n\r\n"));
    assert_eq!(
        resp.format_to_string(),
        "HTTP/1.1 200 OK\r\nContent-Type: text/plain\r\nContent-Length: 13\r\n\r\nHello, World!"
    );
}

#[test]
fn unknown_status_code_falls_back_to_400() {
    let hm = HeaderMap::new();
    let resp = create_response(&hm, 418, "odd".to_string(), None);
    assert_eq!(resp.status_line, "HTTP/1.1 400 Bad Request");
}

#[test]
fn empty_body_has_zero_content_length() {
    let resp = plain_response(plan_request("GET /echo/ HTTP/1.1\r\nHost: x\r\n\r\n"));
    assert_eq!(resp.data, "");
    assert_eq!(header_value(&resp, "Content-Length"), Some("0"));
}

#[test]
fn gzip_negotiation_compresses_any_route() {
    for raw in [
        "GET / HTTP/1.1\r\nAccept-Encoding: gzip\r\n\r\n",
        "GET /echo/abcabcabc HTTP/1.1\r\nAccept-Encoding: gzip\r\n\r\n",
        "GET /nope HTTP/1.1\r\nAccept-Encoding: gzip\r\n\r\n",
        "DELETE / HTTP/1.1\r\nAccept-Encoding: gzip\r\n\r\n",
    ] {
        let plain = {
            let bare = raw.replace("Accept-Encoding: gzip", "Host: x");
            plain_response(plan_request(&bare)).data
        };
        let resp = plain_response(plan_request(raw));
        assert_eq!(header_value(&resp, "Content-Encoding"), Some("gzip"));
        let compressed = hex_to_bytes(&resp.data);
        let declared: usize = header_value(&resp, "Content-Length").unwrap().parse().unwrap();
        assert_eq!(declared, compressed.len());
        assert_eq!(gunzip(&compressed), plain);
    }
}

#[test]
fn gzip_token_must_be_listed() {
    let resp = plain_response(plan_request("GET / HTTP/1.1\r\nAccept-Encoding: br, gzip\r\n\r\n"));
    assert_eq!(header_value(&resp, "Content-Encoding"), Some("gzip"));

    let resp = plain_response(plan_request("GET / HTTP/1.1\r\nAccept-Encoding: br\r\n\r\n"));
    assert_eq!(header_value(&resp, "Content-Encoding"), None);
    assert_eq!(resp.data, "Hello, World!");
}

#[test]
fn encoded_response_parses_back() {
    let cases = [
        "GET / HTTP/1.1\r\nHost: x\r\n\r\n",
        "GET /user-agent HTTP/1.1\r\nUser-Agent: test-client/1.0\r\n\r\n",
        "GET /nope HTTP/1.1\r\nHost: x\r\n\r\n",
        "GET /echo/roundtrip HTTP/1.1\r\nAccept-Encoding: gzip\r\n\r\n",
    ];
    for raw in cases {
        let resp = plain_response(plan_request(raw));
        let want_status = resp.status_line.clone();
        let want_headers: Vec<(String, String)> = resp
            .headers
            .iter()
            .map(|h| (h.name.to_lowercase(), h.value.clone()))
            .collect();
        let want_body = resp.data.clone();

        // A reference client's read of the wire bytes.
        let wire = resp.format_to_string();
        let (status, rest) = wire.split_once("\r\n").unwrap();
        let (block, body) = rest.split_once("\r\n\r\n").unwrap();
        let got_headers: Vec<(String, String)> = if block.is_empty() {
            Vec::new()
        } else {
            block
                .split("\r\n")
                .map(|l| {
                    let (n, v) = l.split_once(": ").unwrap();
                    (n.to_lowercase(), v.to_string())
                })
                .collect()
        };
        assert_eq!(status, want_status);
        assert_eq!(got_headers, want_headers);
        assert_eq!(body, want_body);
    }
}
