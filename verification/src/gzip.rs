//! Decompression of layer blobs, which arrive as gzip streams.

use vstd::prelude::*;

verus! {

#[verifier::external_type_specification]
#[verifier::external_body]
pub struct ExIoError(std::io::Error);

/// What a gzip stream decompresses to, when it is a valid stream; `None`
/// when it is not.
pub uninterp spec fn gunzip_of(gz: Seq<u8>) -> Option<Seq<u8>>;

/// Relies on flate2's `read::GzDecoder` over an in-memory byte slice:
/// whether the stream decodes, and to which bytes, depends on the
/// compressed bytes alone.
#[verifier::external_body]
pub(crate) fn gunzip(gz: &Vec<u8>) -> (r: Result<Vec<u8>, std::io::Error>)
    ensures
        r is Ok <==> gunzip_of(gz@) is Some,
        r is Ok ==> Some(r->Ok_0@) == gunzip_of(gz@),
{
    let mut decoder = flate2::read::GzDecoder::new(gz.as_slice());
    let mut out = Vec::new();
    match std::io::Read::read_to_end(&mut decoder, &mut out) {
        Ok(_) => Ok(out),
        Err(e) => Err(e),
    }
}

} // verus!
