//! What holds of the framer as a whole: round trips, tolerance of partial
//! reads, stage transitions and the bookkeeping of the cipher streams.

use crate::cipher::{
    lemma_decrypt_concat, lemma_decrypt_encrypt, lemma_decrypt_len, lemma_encrypt_len,
    lemma_register_concat, spec_cfb8_decrypt, spec_cfb8_register, StreamCipherView,
};
use crate::compression::{spec_lossless, spec_zlib_deflate};
use crate::connection::{spec_ingest, spec_step, ConnectionView, EncryptionView, IngestState};
use crate::error::{FatalError, MAX_PACKET_LENGTH};
use crate::frame::{
    lemma_envelope_round_trip, lemma_frame_round_trip, lemma_read_frame_bounds,
    lemma_read_frame_extend, spec_envelope, spec_frame, spec_inflates_back, spec_read_frame,
    FrameRead,
};
use crate::packet::{
    lemma_body_round_trip, lemma_decoded_kind, spec_body, spec_decode_packet, spec_get_id,
    spec_stage_after_accept, spec_stage_of_state, PacketDirection, PacketStage, PacketView,
};
use crate::varint::{
    lemma_five_continuations_malformed, lemma_incomplete_is_short, lemma_read_var_int_bounds,
    lemma_read_var_int_round_trip, lemma_var_int_len, spec_read_var_int, spec_signed,
    spec_var_int, VarIntError,
};
use vstd::prelude::*;

verus! {

/// A sending and a receiving framer fit together: they agree on
/// compression, and either neither encrypts, or both do with the same key
/// and the sender's encrypting stream stands where the receiver's
/// decrypting stream stands.
pub open spec fn spec_in_sync(sender: ConnectionView, receiver: ConnectionView) -> bool {
    &&& sender.compression == receiver.compression
    &&& match (sender.encryption, receiver.encryption) {
        (None, None) => true,
        (Some(s), Some(r)) => s.encrypter.key == r.decrypter.key && s.encrypter.register()
            == r.decrypter.register(),
        _ => false,
    }
}

/// A packet can go through a connection with the given compression
/// setting: its texts can be written, its body and its envelope are within
/// the cap, and zlib gives the body back where it deflates it.
pub open spec fn spec_deliverable(p: PacketView, compression: Option<nat>) -> bool {
    &&& p.encodable()
    &&& spec_body(p).len() <= MAX_PACKET_LENGTH
    &&& spec_envelope(spec_body(p), compression).len() <= MAX_PACKET_LENGTH
    &&& spec_inflates_back(spec_body(p), compression)
}

/// The receiver is set to decode packets of the kind of `p`.
pub open spec fn spec_expects(receiver: ConnectionView, p: PacketView) -> bool {
    spec_get_id(p.ty()).1 == receiver.direction && spec_get_id(p.ty()).2 == receiver.stage
}

/// The receiver after `p` has come in whole.
pub open spec fn spec_delivered(receiver: ConnectionView, p: PacketView, wire: Seq<u8>)
    -> ConnectionView {
    ConnectionView {
        stage: spec_stage_after_accept(receiver.stage, p),
        inbox: receiver.inbox.push(p),
        in_raw: Seq::empty(),
        encryption: receiver.encryption_after_receiving(wire),
        ..receiver
    }
}

/// What a sender in sync with the receiver puts on the wire, the receiver
/// reads as the plain frame.
pub proof fn lemma_receiver_decrypts(
    sender: ConnectionView,
    receiver: ConnectionView,
    p: PacketView,
)
    requires
        spec_in_sync(sender, receiver),
    ensures
        receiver.decrypted(sender.wire_bytes(p)) == sender.plain_frame(p),
        sender.wire_bytes(p).len() == sender.plain_frame(p).len(),
{
    match sender.encryption {
        None => {},
        Some(s) => {
            lemma_decrypt_encrypt(s.encrypter.key, s.encrypter.register(), sender.plain_frame(p));
            lemma_encrypt_len(s.encrypter.key, s.encrypter.register(), sender.plain_frame(p));
        },
    }
}

/// One whole frame at the front of the raw bytes becomes one packet in the
/// inbox, and receiving goes on behind it in the stage that the packet
/// leaves.
pub proof fn lemma_ingest_frame(
    direction: PacketDirection,
    compression: Option<nat>,
    st: IngestState,
    p: PacketView,
    rest: Seq<u8>,
)
    requires
        spec_deliverable(p, compression),
        spec_get_id(p.ty()).1 == direction,
        spec_get_id(p.ty()).2 == st.stage,
        st.raw == spec_frame(spec_body(p), compression) + rest,
    ensures
        spec_ingest(direction, compression is Some, st) == spec_ingest(
            direction,
            compression is Some,
            IngestState {
                stage: spec_stage_after_accept(st.stage, p),
                inbox: st.inbox.push(p),
                raw: rest,
            },
        ),
{
    let body = spec_body(p);
    let frame = spec_frame(body, compression);
    lemma_var_int_len(spec_signed(spec_get_id(p.ty()).0 as nat));
    lemma_envelope_round_trip(body, compression);
    lemma_frame_round_trip(body, compression, rest);
    lemma_body_round_trip(p, Seq::empty());
    assert(body + Seq::<u8>::empty() =~= body);
    assert(st.raw.skip(frame.len() as int) =~= rest);
}

/// Nothing is read from no bytes.
pub proof fn lemma_ingest_nothing(direction: PacketDirection, compression: bool, st: IngestState)
    requires
        st.raw.len() == 0,
    ensures
        spec_ingest(direction, compression, st) == (st, Ok::<(), FatalError>(())),
{
}

/// A packet that a sender serialises arrives at a receiver that is in sync
/// with it and expects it: the receiver accepts the bytes, holds the packet
/// as the newest in its inbox, keeps no residual bytes, and is in sync with
/// the sender again.
pub proof fn lemma_exchange(sender: ConnectionView, receiver: ConnectionView, p: PacketView)
    requires
        spec_in_sync(sender, receiver),
        spec_deliverable(p, sender.compression),
        spec_expects(receiver, p),
        receiver.in_raw.len() == 0,
    ensures
        receiver.accept(sender.wire_bytes(p)) == (
            spec_delivered(receiver, p, sender.wire_bytes(p)),
            Ok::<(), FatalError>(()),
        ),
        spec_in_sync(sender.after_serialize(p), spec_delivered(receiver, p, sender.wire_bytes(p))),
{
    let wire = sender.wire_bytes(p);
    let frame = sender.plain_frame(p);
    lemma_receiver_decrypts(sender, receiver, p);
    let appended = IngestState { raw: receiver.in_raw + frame, ..receiver.ingest_state() };
    assert(appended.raw =~= frame + Seq::<u8>::empty());
    lemma_ingest_frame(receiver.direction, sender.compression, appended, p, Seq::empty());
    let next = IngestState {
        stage: spec_stage_after_accept(receiver.stage, p),
        inbox: receiver.inbox.push(p),
        raw: Seq::<u8>::empty(),
    };
    lemma_ingest_nothing(receiver.direction, sender.compression is Some, next);
    match (sender.encryption, receiver.encryption) {
        (Some(s), Some(r)) => {
            lemma_register_concat(s.encrypter.key, s.encrypter.fed, wire);
            lemma_register_concat(r.decrypter.key, r.decrypter.fed, wire);
        },
        _ => {},
    }
}

/// Round trip without encryption and without compression: what one framer
/// makes of a packet, another that expects the packet decodes to that
/// packet, and no byte is left over.
pub proof fn lemma_round_trip_plain(
    sender: ConnectionView,
    receiver: ConnectionView,
    p: PacketView,
)
    requires
        sender.compression is None,
        sender.encryption is None,
        receiver.compression is None,
        receiver.encryption is None,
        receiver.in_raw.len() == 0,
        spec_expects(receiver, p),
        p.encodable(),
        spec_body(p).len() <= MAX_PACKET_LENGTH,
    ensures
        sender.wire_bytes(p) == spec_var_int(spec_signed(spec_body(p).len())) + spec_body(p),
        receiver.accept(sender.wire_bytes(p)) == (
            spec_delivered(receiver, p, sender.wire_bytes(p)),
            Ok::<(), FatalError>(()),
        ),
        receiver.accept(sender.wire_bytes(p)).0.in_raw.len() == 0,
{
    lemma_exchange(sender, receiver, p);
}

/// Round trip with compression, below the threshold: the envelope begins
/// with the VarInt zero and carries the body as it is, and the receiver
/// decodes the packet.
pub proof fn lemma_round_trip_below_threshold(
    sender: ConnectionView,
    receiver: ConnectionView,
    p: PacketView,
    threshold: nat,
)
    requires
        sender.compression == Some(threshold),
        receiver.compression == Some(threshold),
        sender.encryption is None,
        receiver.encryption is None,
        receiver.in_raw.len() == 0,
        spec_expects(receiver, p),
        p.encodable(),
        spec_body(p).len() < threshold,
        spec_body(p).len() < MAX_PACKET_LENGTH,
    ensures
        spec_envelope(spec_body(p), sender.compression) == spec_var_int(0) + spec_body(p),
        spec_var_int(0) == seq![0u8],
        receiver.accept(sender.wire_bytes(p)) == (
            spec_delivered(receiver, p, sender.wire_bytes(p)),
            Ok::<(), FatalError>(()),
        ),
{
    assert(spec_var_int(0) =~= seq![0u8]);
    lemma_exchange(sender, receiver, p);
}

/// Round trip with compression, at or above the threshold: the envelope
/// begins with the length that the body had before it was deflated, the
/// rest is the deflated body, and where inflating that yields the body, the
/// receiver decodes the packet.
pub proof fn lemma_round_trip_above_threshold(
    sender: ConnectionView,
    receiver: ConnectionView,
    p: PacketView,
    threshold: nat,
)
    requires
        sender.compression == Some(threshold),
        receiver.compression == Some(threshold),
        sender.encryption is None,
        receiver.encryption is None,
        receiver.in_raw.len() == 0,
        spec_expects(receiver, p),
        p.encodable(),
        threshold <= spec_body(p).len() <= MAX_PACKET_LENGTH,
        spec_envelope(spec_body(p), sender.compression).len() <= MAX_PACKET_LENGTH,
        spec_lossless(spec_body(p)),
    ensures
        spec_read_var_int(spec_envelope(spec_body(p), sender.compression)) matches Ok((size, m))
            && size == spec_body(p).len() && spec_envelope(spec_body(p), sender.compression).skip(
            m as int,
        ) == spec_zlib_deflate(spec_body(p)),
        receiver.accept(sender.wire_bytes(p)) == (
            spec_delivered(receiver, p, sender.wire_bytes(p)),
            Ok::<(), FatalError>(()),
        ),
{
    let body = spec_body(p);
    let size = spec_signed(body.len());
    let packed = spec_zlib_deflate(body);
    lemma_read_var_int_round_trip(size, packed);
    lemma_var_int_len(size);
    assert((spec_var_int(size) + packed).skip(spec_var_int(size).len() as int) =~= packed);
    lemma_exchange(sender, receiver, p);
}

/// Two framers that were given the same key, and have exchanged nothing
/// yet, are in sync in both directions.
pub proof fn lemma_same_key_in_sync(a: ConnectionView, b: ConnectionView, key: Seq<u8>)
    requires
        a.compression == b.compression,
        a.encryption == Some(
            EncryptionView {
                encrypter: StreamCipherView::fresh(key),
                decrypter: StreamCipherView::fresh(key),
            },
        ),
        b.encryption == a.encryption,
    ensures
        spec_in_sync(a, b),
        spec_in_sync(b, a),
{
}

/// Round trip with encryption: a packet that an encrypting framer
/// serialises arrives at a decrypting framer in sync with it, and the two
/// are in sync again afterwards, so that any number of packets can follow.
pub proof fn lemma_round_trip_encrypted(
    sender: ConnectionView,
    receiver: ConnectionView,
    p: PacketView,
)
    requires
        sender.encryption is Some,
        spec_in_sync(sender, receiver),
        spec_deliverable(p, sender.compression),
        spec_expects(receiver, p),
        receiver.in_raw.len() == 0,
    ensures
        receiver.accept(sender.wire_bytes(p)) == (
            spec_delivered(receiver, p, sender.wire_bytes(p)),
            Ok::<(), FatalError>(()),
        ),
        spec_in_sync(sender.after_serialize(p), spec_delivered(receiver, p, sender.wire_bytes(p))),
{
    lemma_exchange(sender, receiver, p);
}

/// Bytes that arrive behind what has been received do not change what was
/// made of the earlier bytes: receiving the rest after the first part gives
/// what receiving both at once gives.
pub proof fn lemma_ingest_extend(
    direction: PacketDirection,
    compression: bool,
    st: IngestState,
    more: Seq<u8>,
)
    requires
        spec_ingest(direction, compression, st).1 is Ok,
    ensures
        spec_ingest(
            direction,
            compression,
            IngestState {
                raw: spec_ingest(direction, compression, st).0.raw + more,
                ..spec_ingest(direction, compression, st).0
            },
        ) == spec_ingest(direction, compression, IngestState { raw: st.raw + more, ..st }),
    decreases st.raw.len(),
{
    lemma_read_frame_bounds(st.raw, compression);
    let extended = IngestState { raw: st.raw + more, ..st };
    match spec_read_frame(st.raw, compression) {
        FrameRead::Incomplete => {},
        FrameRead::Malformed => {},
        FrameRead::Frame { body, consumed } => {
            lemma_read_frame_extend(st.raw, more, compression);
            match spec_decode_packet(st.stage, direction, body) {
                Err(_) => {},
                Ok(p) => {
                    let next = spec_step(direction, compression, st).0;
                    let next_extended = spec_step(direction, compression, extended).0;
                    assert(next_extended.raw =~= next.raw + more);
                    assert(next_extended == (IngestState { raw: next.raw + more, ..next }));
                    lemma_ingest_extend(direction, compression, next, more);
                },
            }
        },
    }
}

/// Partial-read tolerance: where a first piece of the stream was accepted,
/// accepting the next piece gives what accepting both pieces at once gives:
/// the same packets in the same order, the same stage, the same residual
/// bytes, the same state of the decrypting stream, the same result.
pub proof fn lemma_partial_reads(v: ConnectionView, first: Seq<u8>, second: Seq<u8>)
    requires
        v.accept(first).1 is Ok,
    ensures
        v.accept(first).0.accept(second) == v.accept(first + second),
{
    let compression = v.compression is Some;
    let st = IngestState { raw: v.in_raw + v.decrypted(first), ..v.ingest_state() };
    let after_first = v.accept(first).0;
    lemma_ingest_extend(v.direction, compression, st, after_first.decrypted(second));
    match v.encryption {
        None => {
            assert(v.in_raw + (first + second) =~= (v.in_raw + first) + second);
        },
        Some(e) => {
            let d = e.decrypter;
            lemma_register_concat(d.key, d.fed, first);
            lemma_decrypt_concat(d.key, d.register(), first, second);
            assert(v.in_raw + (d.decrypt(first) + d.feed(first).decrypt(second)) =~= (v.in_raw
                + d.decrypt(first)) + d.feed(first).decrypt(second));
            assert((d.fed + first) + second =~= d.fed + (first + second));
            assert(d.feed(first).feed(second) =~= d.feed(first + second));
        },
    }
    assert(v.accept(first).0.accept(second).0 =~= v.accept(first + second).0);
}

/// The framer after a run of pieces has been accepted one by one, and what
/// the caller was told last. A failure ends the run.
pub open spec fn spec_accept_all(v: ConnectionView, pieces: Seq<Seq<u8>>) -> (
    ConnectionView,
    Result<(), FatalError>,
)
    decreases pieces.len(),
{
    if pieces.len() == 0 {
        v.accept(Seq::empty())
    } else {
        let (next, r) = v.accept(pieces[0]);
        if r is Ok {
            spec_accept_all(next, pieces.drop_first())
        } else {
            (next, r)
        }
    }
}

/// The pieces of a stream, put together.
pub open spec fn spec_concat(pieces: Seq<Seq<u8>>) -> Seq<u8>
    decreases pieces.len(),
{
    if pieces.len() == 0 {
        Seq::empty()
    } else {
        pieces[0] + spec_concat(pieces.drop_first())
    }
}

/// Partial-read tolerance for every partition: where a stream is accepted
/// when it arrives at once, it is accepted when it arrives in pieces,
/// however it is cut, and the framer ends up the same.
pub proof fn lemma_partition(v: ConnectionView, pieces: Seq<Seq<u8>>)
    requires
        v.accept(spec_concat(pieces)).1 is Ok,
    ensures
        spec_accept_all(v, pieces) == v.accept(spec_concat(pieces)),
    decreases pieces.len(),
{
    if pieces.len() != 0 {
        let first = pieces[0];
        let rest = spec_concat(pieces.drop_first());
        lemma_prefix_accepted(v, first, rest);
        lemma_partial_reads(v, first, rest);
        lemma_partition(v.accept(first).0, pieces.drop_first());
    }
}

/// Where receiving does not fail on a stream, it does not fail on a prefix
/// of the stream.
pub proof fn lemma_ingest_prefix(
    direction: PacketDirection,
    compression: bool,
    st: IngestState,
    more: Seq<u8>,
)
    requires
        spec_ingest(direction, compression, IngestState { raw: st.raw + more, ..st }).1 is Ok,
    ensures
        spec_ingest(direction, compression, st).1 is Ok,
    decreases st.raw.len(),
{
    lemma_read_frame_bounds(st.raw, compression);
    let extended = IngestState { raw: st.raw + more, ..st };
    match spec_read_frame(st.raw, compression) {
        FrameRead::Incomplete => {},
        FrameRead::Malformed => {
            lemma_read_frame_extend(st.raw, more, compression);
        },
        FrameRead::Frame { body, consumed } => {
            lemma_read_frame_extend(st.raw, more, compression);
            match spec_decode_packet(st.stage, direction, body) {
                Err(_) => {},
                Ok(p) => {
                    let next = spec_step(direction, compression, st).0;
                    let next_extended = spec_step(direction, compression, extended).0;
                    assert(next_extended.raw =~= next.raw + more);
                    assert(next_extended == (IngestState { raw: next.raw + more, ..next }));
                    lemma_ingest_prefix(direction, compression, next, more);
                },
            }
        },
    }
}

/// Where a stream is accepted, its first piece is accepted.
pub proof fn lemma_prefix_accepted(v: ConnectionView, first: Seq<u8>, second: Seq<u8>)
    requires
        v.accept(first + second).1 is Ok,
    ensures
        v.accept(first).1 is Ok,
{
    let st = IngestState { raw: v.in_raw + v.decrypted(first), ..v.ingest_state() };
    match v.encryption {
        None => {
            assert(v.in_raw + (first + second) =~= st.raw + second);
            lemma_ingest_prefix(v.direction, v.compression is Some, st, second);
        },
        Some(e) => {
            let d = e.decrypter;
            lemma_decrypt_concat(d.key, d.register(), first, second);
            let tail = spec_cfb8_decrypt(
                d.key,
                spec_cfb8_register(d.register(), first),
                second,
            );
            assert(v.in_raw + d.decrypt(first + second) =~= st.raw + tail);
            lemma_ingest_prefix(v.direction, v.compression is Some, st, tail);
        },
    }
}

/// The pieces that a sender puts on the wire for a run of packets, one piece
/// for each packet.
pub open spec fn spec_wire_stream(sender: ConnectionView, packets: Seq<PacketView>) -> Seq<
    Seq<u8>,
>
    decreases packets.len(),
{
    if packets.len() == 0 {
        Seq::empty()
    } else {
        seq![sender.wire_bytes(packets[0])] + spec_wire_stream(
            sender.after_serialize(packets[0]),
            packets.drop_first(),
        )
    }
}

/// The sender after a run of packets has been serialised.
pub open spec fn spec_after_serialize_all(sender: ConnectionView, packets: Seq<PacketView>)
    -> ConnectionView
    decreases packets.len(),
{
    if packets.len() == 0 {
        sender
    } else {
        spec_after_serialize_all(sender.after_serialize(packets[0]), packets.drop_first())
    }
}

/// Every packet of the run can go through the connection, and each is of a
/// kind that is registered for the receiver's direction and for the stage
/// in which the packets before it leave the receiver.
pub open spec fn spec_stream_fits(
    stage: PacketStage,
    direction: PacketDirection,
    compression: Option<nat>,
    packets: Seq<PacketView>,
) -> bool
    decreases packets.len(),
{
    packets.len() != 0 ==> {
        &&& spec_deliverable(packets[0], compression)
        &&& spec_get_id(packets[0].ty()).1 == direction
        &&& spec_get_id(packets[0].ty()).2 == stage
        &&& spec_stream_fits(
            spec_stage_after_accept(stage, packets[0]),
            direction,
            compression,
            packets.drop_first(),
        )
    }
}

/// A stream of packets: what a sender serialises one after the other
/// arrives at a receiver in sync with it, packet by packet and in order.
/// Nothing is left over, and the two are in sync again afterwards.
pub proof fn lemma_exchange_stream(
    sender: ConnectionView,
    receiver: ConnectionView,
    packets: Seq<PacketView>,
)
    requires
        spec_in_sync(sender, receiver),
        spec_stream_fits(receiver.stage, receiver.direction, sender.compression, packets),
        receiver.in_raw.len() == 0,
    ensures
        spec_accept_all(receiver, spec_wire_stream(sender, packets)).1 is Ok,
        spec_accept_all(receiver, spec_wire_stream(sender, packets)).0.inbox == receiver.inbox
            + packets,
        spec_accept_all(receiver, spec_wire_stream(sender, packets)).0.in_raw.len() == 0,
        spec_in_sync(
            spec_after_serialize_all(sender, packets),
            spec_accept_all(receiver, spec_wire_stream(sender, packets)).0,
        ),
    decreases packets.len(),
{
    if packets.len() == 0 {
        let st = IngestState {
            raw: receiver.in_raw + receiver.decrypted(Seq::empty()),
            ..receiver.ingest_state()
        };
        match receiver.encryption {
            None => {},
            Some(e) => {
                lemma_decrypt_len(e.decrypter.key, e.decrypter.register(), Seq::empty());
                assert(e.decrypter.fed + Seq::<u8>::empty() =~= e.decrypter.fed);
            },
        }
        lemma_ingest_nothing(receiver.direction, receiver.compression is Some, st);
        assert(receiver.inbox + packets =~= receiver.inbox);
    } else {
        let p = packets[0];
        let wire = sender.wire_bytes(p);
        lemma_exchange(sender, receiver, p);
        let next_sender = sender.after_serialize(p);
        let next_receiver = spec_delivered(receiver, p, wire);
        lemma_exchange_stream(next_sender, next_receiver, packets.drop_first());
        let pieces = spec_wire_stream(sender, packets);
        assert(pieces[0] == wire);
        assert(pieces.drop_first() =~= spec_wire_stream(next_sender, packets.drop_first()));
        assert(receiver.inbox.push(p) + packets.drop_first() =~= receiver.inbox + packets);
    }
}

/// Stage transitions on the way in: behind the frame of a handshake, the
/// bytes are decoded in the stage that the handshake asks for, which is the
/// login stage where its next state is login and the status stage where it
/// is status.
pub proof fn lemma_handshake_switches_stage(
    compression: Option<nat>,
    st: IngestState,
    p: PacketView,
    rest: Seq<u8>,
)
    requires
        p is Handshake,
        st.stage == PacketStage::Handshake,
        spec_deliverable(p, compression),
        st.raw == spec_frame(spec_body(p), compression) + rest,
    ensures
        spec_ingest(PacketDirection::Serverbound, compression is Some, st) == spec_ingest(
            PacketDirection::Serverbound,
            compression is Some,
            IngestState {
                stage: spec_stage_of_state(p->next_state),
                inbox: st.inbox.push(p),
                raw: rest,
            },
        ),
{
    lemma_ingest_frame(PacketDirection::Serverbound, compression, st, p, rest);
}

/// Stage transitions on the way out: once a login success has been
/// serialised, the framer is in the play stage, and the next packet that
/// arrives is decoded with the registry of that stage.
pub proof fn lemma_login_success_switches_stage(
    v: ConnectionView,
    p: PacketView,
    peer: ConnectionView,
    next: PacketView,
)
    requires
        p is LoginSuccess,
        v.in_raw.len() == 0,
        spec_in_sync(peer, v),
        spec_deliverable(next, peer.compression),
        spec_get_id(next.ty()).1 == v.direction,
        spec_get_id(next.ty()).2 == PacketStage::Play,
    ensures
        v.after_serialize(p).stage == PacketStage::Play,
        v.after_serialize(p).accept(peer.wire_bytes(next)) == (
            spec_delivered(v.after_serialize(p), next, peer.wire_bytes(next)),
            Ok::<(), FatalError>(()),
        ),
        v.after_serialize(p).accept(peer.wire_bytes(next)).0.inbox == v.inbox.push(next),
{
    lemma_exchange(peer, v.after_serialize(p), next);
}

/// How far a stage is along the way from handshake to play.
pub open spec fn spec_stage_rank(stage: PacketStage) -> nat {
    match stage {
        PacketStage::Handshake => 0,
        PacketStage::Status => 1,
        PacketStage::Login => 1,
        PacketStage::Play => 2,
    }
}

/// One stage does not lie behind another: it is the same stage or a later
/// one.
pub open spec fn spec_not_before(later: PacketStage, earlier: PacketStage) -> bool {
    later == earlier || spec_stage_rank(later) > spec_stage_rank(earlier)
}

/// Receiving never takes the stage back.
pub proof fn lemma_ingest_stage_advances(
    direction: PacketDirection,
    compression: bool,
    st: IngestState,
)
    ensures
        spec_not_before(spec_ingest(direction, compression, st).0.stage, st.stage),
    decreases st.raw.len(),
{
    lemma_read_frame_bounds(st.raw, compression);
    match spec_read_frame(st.raw, compression) {
        FrameRead::Frame { body, consumed } => {
            match spec_decode_packet(st.stage, direction, body) {
                Ok(p) => {
                    let next = spec_step(direction, compression, st).0;
                    lemma_decoded_kind(st.stage, direction, body);
                    lemma_ingest_stage_advances(direction, compression, next);
                },
                Err(_) => {},
            }
        },
        _ => {},
    }
}

/// The stage never goes back, neither when bytes are accepted nor when a
/// packet is serialised, and what was enabled stays enabled.
pub proof fn lemma_monotonic(v: ConnectionView, data: Seq<u8>, p: PacketView)
    ensures
        spec_not_before(v.accept(data).0.stage, v.stage),
        spec_not_before(v.after_serialize(p).stage, v.stage),
        v.accept(data).0.compression == v.compression,
        v.after_serialize(p).compression == v.compression,
        v.accept(data).0.encryption is Some <==> v.encryption is Some,
        v.after_serialize(p).encryption is Some <==> v.encryption is Some,
        v.accept(data).0.direction == v.direction,
        v.after_serialize(p).direction == v.direction,
{
    let st = IngestState { raw: v.in_raw + v.decrypted(data), ..v.ingest_state() };
    lemma_ingest_stage_advances(v.direction, v.compression is Some, st);
}

/// The cipher framing invariant: the decrypting stream takes in exactly the
/// bytes that are received, as many as there are and in their order, and
/// the encrypting stream exactly the bytes that are handed out for the
/// wire. Neither stream is touched by the other direction.
pub proof fn lemma_cipher_framing(v: ConnectionView, data: Seq<u8>, p: PacketView)
    requires
        v.encryption is Some,
    ensures
        v.accept(data).0.encryption->0.decrypter.fed == v.encryption->0.decrypter.fed + data,
        v.accept(data).0.encryption->0.decrypter.fed.len() == v.encryption->0.decrypter.fed.len()
            + data.len(),
        v.accept(data).0.encryption->0.encrypter == v.encryption->0.encrypter,
        v.after_serialize(p).encryption->0.encrypter.fed == v.encryption->0.encrypter.fed
            + v.wire_bytes(p),
        v.after_serialize(p).encryption->0.encrypter.fed.len()
            == v.encryption->0.encrypter.fed.len() + v.wire_bytes(p).len(),
        v.after_serialize(p).encryption->0.decrypter == v.encryption->0.decrypter,
        v.wire_bytes(p).len() == v.plain_frame(p).len(),
        v.decrypted(data).len() == data.len(),
{
    let e = v.encryption->0;
    lemma_encrypt_len(e.encrypter.key, e.encrypter.register(), v.plain_frame(p));
    lemma_decrypt_len(e.decrypter.key, e.decrypter.register(), data);
}

/// Where receiving ends without a failure, what stays behind is less than
/// one frame: fewer bytes than the longest length prefix and the largest
/// envelope take together.
pub proof fn lemma_ingest_residue_bounded(
    direction: PacketDirection,
    compression: bool,
    st: IngestState,
)
    requires
        spec_ingest(direction, compression, st).1 is Ok,
    ensures
        spec_ingest(direction, compression, st).0.raw.len() < 5 + MAX_PACKET_LENGTH,
        spec_read_frame(spec_ingest(direction, compression, st).0.raw, compression)
            == FrameRead::Incomplete,
    decreases st.raw.len(),
{
    lemma_read_frame_bounds(st.raw, compression);
    lemma_read_var_int_bounds(st.raw);
    match spec_read_frame(st.raw, compression) {
        FrameRead::Frame { body, consumed } => {
            match spec_decode_packet(st.stage, direction, body) {
                Ok(p) => {
                    let next = spec_step(direction, compression, st).0;
                    lemma_ingest_residue_bounded(direction, compression, next);
                },
                Err(_) => {},
            }
        },
        FrameRead::Incomplete => {
            match spec_read_var_int(st.raw) {
                Err(_) => {
                    lemma_incomplete_is_short(st.raw);
                },
                Ok(_) => {},
            }
        },
        FrameRead::Malformed => {},
    }
}

/// The resource bound: after bytes have been accepted, the framer holds
/// less than one frame of raw bytes, however much has arrived.
pub proof fn lemma_residue_bounded(v: ConnectionView, data: Seq<u8>)
    requires
        v.accept(data).1 is Ok,
    ensures
        v.accept(data).0.in_raw.len() < 5 + MAX_PACKET_LENGTH,
{
    let st = IngestState { raw: v.in_raw + v.decrypted(data), ..v.ingest_state() };
    lemma_ingest_residue_bounded(v.direction, v.compression is Some, st);
}

/// A frame whose length has five bytes that all announce a successor is
/// rejected as malformed, whatever follows.
pub proof fn lemma_five_continuations_rejected(v: ConnectionView, data: Seq<u8>)
    requires
        v.encryption is None,
        v.in_raw.len() == 0,
        data.len() >= 5,
        forall|i: int| 0 <= i < 5 ==> data[i] >= 128,
    ensures
        spec_read_var_int(data) == Err::<(i32, usize), VarIntError>(VarIntError::Malformed),
        v.accept(data).1 == Err::<(), FatalError>(FatalError::MalformedFrame),
{
    lemma_five_continuations_malformed(data);
    assert(v.in_raw + data =~= data);
}

} // verus!
