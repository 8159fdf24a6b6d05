//! The compression of capture files.

use vstd::prelude::*;

verus! {

/// An error of an I/O operation of std.
#[verifier::external_type_specification]
#[verifier::external_body]
pub struct ExIoError(std::io::Error);

/// What `zstd::encode_all` makes of some bytes at a level, if it succeeds.
pub uninterp spec fn zstd_frame(data: Seq<u8>, level: i32) -> Option<Seq<u8>>;

/// What `zstd::decode_all` makes of some bytes, if they are a frame.
pub uninterp spec fn zstd_content(frame: Seq<u8>) -> Option<Seq<u8>>;

/// `zstd::encode_all` on bytes in memory. Trusted: the outcome depends on the
/// bytes and the level alone, and what was compressed can be decompressed
/// again to the same bytes.
#[verifier::external_body]
pub(crate) fn zstd_encode(data: &[u8], level: i32) -> (r: Result<Vec<u8>, std::io::Error>)
    ensures
        r matches Ok(c) ==> zstd_frame(data@, level) == Some(c@),
        r is Err ==> zstd_frame(data@, level) is None,
        r matches Ok(c) ==> zstd_content(c@) == Some(data@),
{
    zstd::encode_all(data, level)
}

/// `zstd::decode_all` on bytes in memory. Trusted: the outcome depends on the
/// bytes alone.
#[verifier::external_body]
pub(crate) fn zstd_decode(frame: &[u8]) -> (r: Result<Vec<u8>, std::io::Error>)
    ensures
        r matches Ok(d) ==> zstd_content(frame@) == Some(d@),
        r is Err ==> zstd_content(frame@) is None,
{
    zstd::decode_all(frame)
}

} // verus!
