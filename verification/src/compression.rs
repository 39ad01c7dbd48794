//! zlib compression of packet bodies.

use crate::error::{FatalError, MAX_PACKET_LENGTH};
use flate2::read::{ZlibDecoder, ZlibEncoder};
use flate2::Compression;
use std::io::Read;
use vstd::prelude::*;

verus! {

/// The zlib stream that the encoder makes of `data` at the default level.
pub uninterp spec fn spec_zlib_deflate(data: Seq<u8>) -> Seq<u8>;

/// What the decoder makes of the zlib stream `data` when no more than
/// `limit` bytes are taken from it: the inflated bytes, or the first `limit`
/// of them, or nothing where the decoder reports an error before that.
pub uninterp spec fn spec_zlib_inflate(data: Seq<u8>, limit: nat) -> Option<Seq<u8>>;

/// The body that a compressed envelope stands for: what `data` inflates to,
/// provided that this is exactly `expected_size` bytes and that the size is
/// within the cap.
pub open spec fn spec_decompress(data: Seq<u8>, expected_size: nat) -> Option<Seq<u8>> {
    if expected_size > MAX_PACKET_LENGTH {
        None
    } else {
        match spec_zlib_inflate(data, expected_size + 1) {
            Some(bytes) => if bytes.len() == expected_size {
                Some(bytes)
            } else {
                None
            },
            None => None,
        }
    }
}

/// Reads a `flate2::read::ZlibEncoder` over `data`, at the default level, to
/// its end. The result is the whole zlib stream.
#[verifier::external_body]
fn zlib_deflate(data: &[u8]) -> (out: Vec<u8>)
    ensures
        out@ == spec_zlib_deflate(data@),
{
    let mut out = Vec::new();
    let _ = ZlibEncoder::new(data, Compression::default()).read_to_end(&mut out);
    out
}

/// Reads a `flate2::read::ZlibDecoder` over `data` until it ends or `limit`
/// bytes have come out. An error of the decoder gives `None`.
#[verifier::external_body]
fn zlib_inflate(data: &[u8], limit: usize) -> (out: Option<Vec<u8>>)
    ensures
        match spec_zlib_inflate(data@, limit as nat) {
            Some(bytes) => out matches Some(v) && v@ == bytes,
            None => out is None,
        },
{
    let mut out = Vec::new();
    match ZlibDecoder::new(data).take(limit as u64).read_to_end(&mut out) {
        Ok(_) => Some(out),
        Err(_) => None,
    }
}

/// Appends `src` to `dst`.
pub fn extend(dst: &mut Vec<u8>, src: &[u8])
    ensures
        final(dst)@ == old(dst)@ + src@,
{
    let ghost before = dst@;
    let mut i: usize = 0;
    while i < src.len()
        invariant
            i <= src.len(),
            dst@ == before + src@.take(i as int),
        decreases src.len() - i,
    {
        dst.push(src[i]);
        assert(src@.take(i + 1) =~= src@.take(i as int).push(src@[i as int]));
        i = i + 1;
    }
    assert(src@.take(src.len() as int) =~= src@);
}

/// Whether `a` and `b` hold the same bytes.
pub fn same_bytes(a: &[u8], b: &[u8]) -> (same: bool)
    ensures
        same == (a@ == b@),
{
    if a.len() != b.len() {
        return false;
    }
    let mut i: usize = 0;
    while i < a.len()
        invariant
            i <= a.len(),
            a.len() == b.len(),
            a@.take(i as int) == b@.take(i as int),
        decreases a.len() - i,
    {
        if a[i] != b[i] {
            assert(a@[i as int] != b@[i as int]);
            return false;
        }
        assert(a@.take(i + 1) =~= a@.take(i as int).push(a@[i as int]));
        assert(b@.take(i + 1) =~= b@.take(i as int).push(b@[i as int]));
        i = i + 1;
    }
    assert(a@.take(a.len() as int) =~= a@);
    assert(b@.take(b.len() as int) =~= b@);
    true
}

/// zlib gives `body` back: inflating what deflating made of it yields it.
pub open spec fn spec_lossless(body: Seq<u8>) -> bool {
    spec_zlib_inflate(spec_zlib_deflate(body), body.len() + 1) == Some(body)
}

/// Deflates `body`, inflates the result and says whether that gave `body`
/// back.
pub fn inflates_back(body: &[u8]) -> (r: bool)
    requires
        body.len() < usize::MAX,
    ensures
        r == spec_lossless(body@),
{
    let packed = zlib_deflate(body);
    match zlib_inflate(packed.as_slice(), body.len() + 1) {
        Some(out) => same_bytes(out.as_slice(), body),
        None => false,
    }
}

/// Deflates `src` and appends the zlib stream to `dst`.
pub fn compress(src: &[u8], dst: &mut Vec<u8>)
    ensures
        final(dst)@ == old(dst)@ + spec_zlib_deflate(src@),
{
    let packed = zlib_deflate(src);
    extend(dst, packed.as_slice());
}

/// Inflates `src` and appends the result to `dst`.
///
/// Succeeds when `src` inflates to exactly `expected_size` bytes and that
/// size is within the cap. Otherwise `dst` is left as it was and the frame
/// is malformed.
pub fn decompress(src: &[u8], dst: &mut Vec<u8>, expected_size: usize) -> (r: Result<
    (),
    FatalError,
>)
    ensures
        match spec_decompress(src@, expected_size as nat) {
            Some(bytes) => r == Ok::<(), FatalError>(()) && final(dst)@ == old(dst)@ + bytes,
            None => r == Err::<(), FatalError>(FatalError::MalformedFrame) && final(dst)@ == old(
                dst,
            )@,
        },
{
    if expected_size > MAX_PACKET_LENGTH {
        return Err(FatalError::MalformedFrame);
    }
    match zlib_inflate(src, expected_size + 1) {
        Some(bytes) => {
            if bytes.len() == expected_size {
                extend(dst, bytes.as_slice());
                Ok(())
            } else {
                Err(FatalError::MalformedFrame)
            }
        },
        None => Err(FatalError::MalformedFrame),
    }
}

} // verus!
