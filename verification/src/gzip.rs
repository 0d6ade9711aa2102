//! The one call out of the engine: gzip compression.

use vstd::prelude::*;
use vstd::string::StringSliceAdditionalSpecFns;

verus! {

/// The gzip stream that flate2 writes for these bytes at the default
/// compression level. Named only: no contract says which bytes come out,
/// beyond the stream being a function of the input alone.
pub uninterp spec fn gzip_of(bytes: Seq<u8>) -> Seq<u8>;

/// Relies on flate2::write::GzEncoder at the default compression level
/// with a Vec<u8> sink: writing to memory does not fail, and the stream
/// is a reproducible function of the input bytes alone (flate2 fixes the
/// header's mtime field to 0 and its OS byte to 255).
#[verifier::external_body]
pub fn gzip_compress(data: &str) -> (r: Vec<u8>)
    ensures
        r@ == gzip_of(data.spec_bytes()),
{
    let mut enc = flate2::write::GzEncoder::new(Vec::new(), flate2::Compression::default());
    std::io::Write::write_all(&mut enc, data.as_bytes()).expect("a Vec sink does not fail");
    enc.finish().expect("a Vec sink does not fail")
}

} // verus!
