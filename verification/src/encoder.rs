//! Content encoding: applies a negotiated compression algorithm to a
//! response body. The one supported algorithm is gzip; any other name is an
//! identity pass-through.

use vstd::prelude::*;

verus! {

use crate::bytes::bytes_eq;
use crate::bytes::str_bytes;
use crate::http::spec_gzip_name;

/// The transforms a response body can go through.
#[derive(Clone, Copy, PartialEq, Eq, Structural, Debug)]
pub enum Encoding {
    Gzip,
    Identity,
}

/// The transform named by an encoding token: `gzip` compresses, everything
/// else passes the body through unchanged.
pub open spec fn spec_encoding_of(name: Seq<u8>) -> Encoding {
    if name == spec_gzip_name() {
        Encoding::Gzip
    } else {
        Encoding::Identity
    }
}

/// The gzip compression of a byte sequence, as flate2 computes it at the
/// default compression level with the default stream header.
pub uninterp spec fn gzip_of(data: Seq<u8>) -> Seq<u8>;

/// Relies on flate2's `write::GzEncoder` with `Compression::default()` and
/// the default header (zero modification time, operating-system byte 255,
/// which flate2 fixes for cross-platform reproducibility): its output is a
/// function of the input bytes alone. Writing into a `Vec` sink cannot fail,
/// so the two error paths are unreachable.
#[verifier::external_body]
fn gzip_compress(data: &[u8]) -> (r: Vec<u8>)
    ensures
        r@ == gzip_of(data@),
{
    let mut gz = flate2::write::GzEncoder::new(Vec::new(), flate2::Compression::default());
    std::io::Write::write_all(&mut gz, data).expect("writing to a Vec sink cannot fail");
    gz.finish().expect("writing to a Vec sink cannot fail")
}

/// What encoding a body yields: the gzip stream, or the body unchanged.
pub open spec fn spec_encode(e: Encoding, data: Seq<u8>) -> Seq<u8> {
    match e {
        Encoding::Gzip => gzip_of(data),
        Encoding::Identity => data,
    }
}

impl Encoding {
    /// Maps an encoding token to the transform it names.
    pub fn from_bytes(name: &[u8]) -> (r: Encoding)
        ensures
            r == spec_encoding_of(name@),
    {
        proof {
            reveal_strlit("gzip");
        }
        let gzip = str_bytes("gzip");
        if bytes_eq(name, gzip.as_slice()) {
            Encoding::Gzip
        } else {
            Encoding::Identity
        }
    }
}

/// Applies one named content encoding to response bodies.
#[derive(Clone, Copy, Debug)]
pub struct Encoder {
    pub encoding: Encoding,
}

impl Encoder {
    /// An encoder for the named encoding.
    pub fn new(encoding: &[u8]) -> (r: Encoder)
        ensures
            r.encoding == spec_encoding_of(encoding@),
    {
        Encoder { encoding: Encoding::from_bytes(encoding) }
    }

    /// Runs the body through this encoder's transform.
    pub fn encode(&self, data: &[u8]) -> (r: Vec<u8>)
        ensures
            r@ == spec_encode(self.encoding, data@),
    {
        match self.encoding {
            Encoding::Gzip => gzip_compress(data),
            Encoding::Identity => vstd::slice::slice_to_vec(data),
        }
    }
}

} // verus!
