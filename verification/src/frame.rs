//! Frames and envelopes: the two layers between a packet body and the wire.
//!
//! A frame is a VarInt length followed by an envelope of that length. With
//! compression off the envelope is the body. With compression on it is a
//! VarInt, the length of the body before deflation, followed by the body:
//! literally where that VarInt is zero, deflated otherwise.

use crate::bytebuf::{ByteBuf, ByteBufView};
use crate::compression::{
    compress, decompress, extend, spec_decompress, spec_lossless, spec_zlib_deflate,
};
use crate::error::{FatalError, MAX_PACKET_LENGTH};
use crate::varint::{
    lemma_read_var_int_bounds, lemma_read_var_int_extend, lemma_read_var_int_round_trip,
    lemma_var_int_len, read_var_int, spec_read_var_int, spec_signed, spec_var_int, to_signed,
    write_var_int, VarIntError,
};
use vstd::prelude::*;

verus! {

/// What the front of the received bytes holds.
pub enum FrameRead {
    /// Less than a whole frame. More bytes may complete it.
    Incomplete,
    /// Something that no frame starts with.
    Malformed,
    /// A whole frame: the body it carries and the number of bytes it took.
    Frame { body: Seq<u8>, consumed: nat },
}

/// The compression setting as one value: the threshold where compression
/// is on, nothing where it is off.
pub open spec fn spec_compression(enabled: bool, threshold: usize) -> Option<nat> {
    if enabled {
        Some(threshold as nat)
    } else {
        None
    }
}

/// The envelope that carries `body`.
pub open spec fn spec_envelope(body: Seq<u8>, compression: Option<nat>) -> Seq<u8> {
    match compression {
        None => body,
        Some(threshold) => if body.len() < threshold {
            spec_var_int(0) + body
        } else {
            spec_var_int(spec_signed(body.len())) + spec_zlib_deflate(body)
        },
    }
}

/// The frame that carries `body`: the length of the envelope, then the
/// envelope.
pub open spec fn spec_frame(body: Seq<u8>, compression: Option<nat>) -> Seq<u8> {
    let envelope = spec_envelope(body, compression);
    spec_var_int(spec_signed(envelope.len())) + envelope
}

/// The body that an envelope carries, where it carries one.
pub open spec fn spec_open_envelope(envelope: Seq<u8>, compression: bool) -> Option<Seq<u8>> {
    if !compression {
        Some(envelope)
    } else {
        match spec_read_var_int(envelope) {
            Err(_) => None,
            Ok((size, m)) => if size < 0 {
                None
            } else if size == 0 {
                Some(envelope.skip(m as int))
            } else {
                spec_decompress(envelope.skip(m as int), size as nat)
            },
        }
    }
}

/// Reads one frame from the front of `raw`.
pub open spec fn spec_read_frame(raw: Seq<u8>, compression: bool) -> FrameRead {
    match spec_read_var_int(raw) {
        Err(VarIntError::Incomplete) => FrameRead::Incomplete,
        Err(VarIntError::Malformed) => FrameRead::Malformed,
        Ok((len, n)) => if len < 0 || len > MAX_PACKET_LENGTH {
            FrameRead::Malformed
        } else if raw.len() - n < len {
            FrameRead::Incomplete
        } else {
            match spec_open_envelope(raw.subrange(n as int, n + len), compression) {
                Some(body) => FrameRead::Frame { body, consumed: (n + len) as nat },
                None => FrameRead::Malformed,
            }
        },
    }
}

/// A frame that was read took at least one byte and no more than there
/// were.
pub proof fn lemma_read_frame_bounds(raw: Seq<u8>, compression: bool)
    ensures
        match spec_read_frame(raw, compression) {
            FrameRead::Frame { consumed, .. } => 1 <= consumed <= raw.len(),
            _ => true,
        },
{
    lemma_read_var_int_bounds(raw);
}

/// What was read from the front of the received bytes, unless it was
/// incomplete, reads the same once more bytes have arrived.
pub proof fn lemma_read_frame_extend(raw: Seq<u8>, more: Seq<u8>, compression: bool)
    requires
        spec_read_frame(raw, compression) != FrameRead::Incomplete,
    ensures
        spec_read_frame(raw + more, compression) == spec_read_frame(raw, compression),
{
    lemma_read_var_int_bounds(raw);
    lemma_read_var_int_extend(raw, more);
    match spec_read_var_int(raw) {
        Ok((len, n)) => {
            if 0 <= len <= MAX_PACKET_LENGTH {
                assert((raw + more).subrange(n as int, n + len) =~= raw.subrange(
                    n as int,
                    n + len,
                ));
            }
        },
        Err(_) => {},
    }
}

/// The compression setting under which zlib gives `body` back: compression
/// is off, or `body` stays below the threshold, or inflating the deflated
/// body yields the body.
pub open spec fn spec_inflates_back(body: Seq<u8>, compression: Option<nat>) -> bool {
    match compression {
        None => true,
        Some(threshold) => body.len() < threshold || spec_lossless(body),
    }
}

/// The envelope of a body that is not empty and within the cap opens to
/// that body, provided that zlib gives the body back where it was deflated.
pub proof fn lemma_envelope_round_trip(body: Seq<u8>, compression: Option<nat>)
    requires
        1 <= body.len() <= MAX_PACKET_LENGTH,
        spec_inflates_back(body, compression),
    ensures
        spec_open_envelope(spec_envelope(body, compression), compression is Some) == Some(body),
{
    match compression {
        None => {},
        Some(threshold) => {
            if body.len() < threshold {
                lemma_read_var_int_round_trip(0, body);
                lemma_var_int_len(0);
                assert((spec_var_int(0) + body).skip(spec_var_int(0).len() as int) =~= body);
            } else {
                let size = spec_signed(body.len());
                let packed = spec_zlib_deflate(body);
                assert(size == body.len());
                lemma_read_var_int_round_trip(size, packed);
                lemma_var_int_len(size);
                assert((spec_var_int(size) + packed).skip(spec_var_int(size).len() as int)
                    =~= packed);
            }
        },
    }
}

/// The frame of a body reads back as that body and takes the whole frame,
/// whatever follows it, provided that the envelope is within the cap and
/// opens to the body.
pub proof fn lemma_frame_round_trip(body: Seq<u8>, compression: Option<nat>, rest: Seq<u8>)
    requires
        spec_envelope(body, compression).len() <= MAX_PACKET_LENGTH,
        spec_open_envelope(spec_envelope(body, compression), compression is Some) == Some(body),
    ensures
        spec_read_frame(spec_frame(body, compression) + rest, compression is Some)
            == (FrameRead::Frame { body, consumed: spec_frame(body, compression).len() }),
{
    let envelope = spec_envelope(body, compression);
    let len = spec_signed(envelope.len());
    let head = spec_var_int(len);
    let all = spec_frame(body, compression) + rest;
    assert(len == envelope.len());
    assert(all =~= head + (envelope + rest));
    lemma_read_var_int_round_trip(len, envelope + rest);
    lemma_var_int_len(len);
    assert(all.subrange(head.len() as int, head.len() + len) =~= envelope);
}

/// The number that announces a length on the wire.
pub fn length_prefix(len: usize) -> (v: i32)
    ensures
        v == spec_signed(len as nat),
{
    to_signed((len as u64 % 0x1_0000_0000u64) as u32)
}

/// Appends the envelope of `body` to `out`.
pub fn seal_envelope(
    body: &[u8],
    compression_enabled: bool,
    compression_threshold: usize,
    out: &mut Vec<u8>,
)
    ensures
        final(out)@ == old(out)@ + spec_envelope(
            body@,
            spec_compression(compression_enabled, compression_threshold),
        ),
{
    let ghost before = out@;
    if compression_enabled {
        if body.len() < compression_threshold {
            write_var_int(0, out);
            extend(out, body);
        } else {
            write_var_int(length_prefix(body.len()), out);
            compress(body, out);
        }
    } else {
        extend(out, body);
    }
    assert(out@ =~= before + spec_envelope(
        body@,
        spec_compression(compression_enabled, compression_threshold),
    ));
}

/// The frame that carries `body`.
pub fn encode_frame(body: &[u8], compression_enabled: bool, compression_threshold: usize) -> (frame:
    Vec<u8>)
    ensures
        frame@ == spec_frame(body@, spec_compression(compression_enabled, compression_threshold)),
{
    let mut envelope: Vec<u8> = Vec::new();
    seal_envelope(body, compression_enabled, compression_threshold, &mut envelope);
    let mut frame: Vec<u8> = Vec::new();
    write_var_int(length_prefix(envelope.len()), &mut frame);
    extend(&mut frame, envelope.as_slice());
    assert(frame@ =~= spec_frame(
        body@,
        spec_compression(compression_enabled, compression_threshold),
    ));
    frame
}

/// Appends the body that `envelope` carries to `out`. Where the envelope
/// carries none, the frame is malformed and `out` is left as it was.
pub fn open_envelope(envelope: &[u8], compression_enabled: bool, out: &mut Vec<u8>) -> (r: Result<
    (),
    FatalError,
>)
    ensures
        match spec_open_envelope(envelope@, compression_enabled) {
            Some(body) => r == Ok::<(), FatalError>(()) && final(out)@ == old(out)@ + body,
            None => r == Err::<(), FatalError>(FatalError::MalformedFrame) && final(out)@ == old(
                out,
            )@,
        },
{
    if !compression_enabled {
        extend(out, envelope);
        return Ok(());
    }
    proof {
        lemma_read_var_int_bounds(envelope@);
    }
    match read_var_int(envelope) {
        Err(_) => Err(FatalError::MalformedFrame),
        Ok((size, m)) => {
            let packed = &envelope[m..envelope.len()];
            if size < 0 {
                Err(FatalError::MalformedFrame)
            } else if size == 0 {
                extend(out, packed);
                Ok(())
            } else {
                decompress(packed, out, size as usize)
            }
        },
    }
}

/// Takes one frame from the unread bytes of `raw` and puts the body that it
/// carries behind the bytes of `plain`.
///
/// The cursor of `raw` is marked at the start of the frame. Where the frame
/// is whole and well formed, `raw` is compacted behind it and the result is
/// `Ok(true)`. Where it is incomplete, the cursor returns to the mark and the
/// result is `Ok(false)`: more bytes may complete the frame. Where it is
/// malformed, the cursor returns to the mark as well.
pub fn take_frame(raw: &mut ByteBuf, plain: &mut ByteBuf, compression_enabled: bool) -> (r: Result<
    bool,
    FatalError,
>)
    requires
        old(raw).wf(),
        old(plain).wf(),
    ensures
        final(raw).wf(),
        final(plain).wf(),
        match spec_read_frame(old(raw)@.unread(), compression_enabled) {
            FrameRead::Frame { body, consumed } => {
                &&& r == Ok::<bool, FatalError>(true)
                &&& final(raw)@ == (ByteBufView {
                    bytes: old(raw)@.unread().skip(consumed as int),
                    read_pos: 0,
                    mark: 0,
                })
                &&& final(plain)@ == (ByteBufView {
                    bytes: old(plain)@.bytes + body,
                    ..old(plain)@
                })
            },
            FrameRead::Incomplete => {
                &&& r == Ok::<bool, FatalError>(false)
                &&& final(raw)@ == (ByteBufView { mark: old(raw)@.read_pos, ..old(raw)@ })
                &&& final(plain)@ == old(plain)@
            },
            FrameRead::Malformed => {
                &&& r == Err::<bool, FatalError>(FatalError::MalformedFrame)
                &&& final(raw)@ == (ByteBufView { mark: old(raw)@.read_pos, ..old(raw)@ })
                &&& final(plain)@ == old(plain)@
            },
        },
{
    let ghost unread = raw@.unread();
    proof {
        lemma_read_var_int_bounds(unread);
    }
    raw.mark_read_position();
    let announced = match raw.read_var_int() {
        Ok(v) => v,
        Err(e) => {
            raw.reset_read_position();
            return match e {
                VarIntError::Incomplete => Ok(false),
                VarIntError::Malformed => Err(FatalError::MalformedFrame),
            };
        },
    };
    if announced < 0 || announced as usize > MAX_PACKET_LENGTH {
        raw.reset_read_position();
        return Err(FatalError::MalformedFrame);
    }
    let packet_length = announced as usize;
    let ghost prefix = raw@.read_pos - old(raw)@.read_pos;
    assert(raw@.unread() =~= unread.skip(prefix));
    if raw.remaining() < packet_length {
        raw.reset_read_position();
        return Ok(false);
    }
    let mut body: Vec<u8> = Vec::new();
    let rest = raw.inner();
    assert(rest@.subrange(0, packet_length as int) =~= unread.subrange(
        prefix,
        prefix + packet_length,
    ));
    match open_envelope(&rest[0..packet_length], compression_enabled, &mut body) {
        Ok(()) => {},
        Err(e) => {
            raw.reset_read_position();
            return Err(e);
        },
    }
    assert(body@ =~= spec_read_frame(unread, compression_enabled)->body);
    plain.put(body.as_slice());
    raw.advance(packet_length);
    raw.remove_prior();
    assert(raw@.bytes =~= unread.skip(prefix + packet_length));
    Ok(true)
}

} // verus!
