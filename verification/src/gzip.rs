//! The gzip boundary: compression is delegated to the flate2 crate and
//! trusted only for the round trip stated here.

use vstd::prelude::*;

verus! {

/// What a gzip container holds: the bytes that decompressing it yields,
/// or `None` when it is not a well-formed container. RFC 1952 fixes the
/// decompressed bytes as a function of the container alone, so the
/// result can be named without writing the algorithm down.
pub uninterp spec fn gunzip(data: Seq<u8>) -> Option<Seq<u8>>;

/// Relies on flate2's `write::GzEncoder` at the default compression
/// level: it wraps its input in a well-formed gzip container whose
/// decompression yields exactly that input. Writing into a `Vec` sink
/// cannot fail.
#[verifier::external_body]
pub(crate) fn gzip_compress(data: &[u8]) -> (r: Vec<u8>)
    ensures
        gunzip(r@) == Some(data@),
{
    let mut encoder = flate2::write::GzEncoder::new(Vec::new(), flate2::Compression::default());
    std::io::Write::write_all(&mut encoder, data).expect("a Vec sink accepts all writes");
    encoder.finish().expect("a Vec sink accepts all writes")
}

} // verus!
