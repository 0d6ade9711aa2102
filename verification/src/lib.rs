//! A minimal HTTP/1.1 protocol engine: a hand-written request parser, a
//! fixed route table, and a response serializer with optional gzip content
//! negotiation. Socket accept/read/write stays outside; the engine maps
//! bytes-as-text in to bytes-as-text out.

pub mod gzip;
pub mod headers;
pub mod method;
pub mod request;
pub mod response;
pub mod roundtrip;
pub mod router;
pub mod strkit;
