//! The framer of one connection.
//!
//! It turns the bytes that arrive into packets and the packets that leave
//! into bytes. In between lie, in this order on the way in, decryption, the
//! length prefix, decompression and the packet registry; on the way out the
//! same in reverse.

use crate::bytebuf::ByteBuf;
use crate::cipher::{StreamCipher, StreamCipherView};
use crate::compression::extend;
use crate::error::FatalError;
use crate::frame::{
    encode_frame, lemma_read_frame_bounds, spec_compression, spec_frame, spec_read_frame,
    take_frame, FrameRead,
};
use crate::packet::{
    decode_packet, encode_packet, spec_body, spec_decode_packet, spec_stage_after_accept,
    spec_stage_after_send, spec_views, HandshakeState, Packet, PacketDirection, PacketStage,
    PacketView,
};
use vstd::prelude::*;

verus! {

/// The two cipher streams of an encrypted connection.
#[verifier::ext_equal]
pub struct EncryptionView {
    /// The stream that encrypts what is sent.
    pub encrypter: StreamCipherView,
    /// The stream that decrypts what is received.
    pub decrypter: StreamCipherView,
}

/// The part of a framer that receiving works on: the stage, the packets
/// decoded so far and the bytes that are not yet framed.
#[verifier::ext_equal]
pub struct IngestState {
    pub stage: PacketStage,
    pub inbox: Seq<PacketView>,
    pub raw: Seq<u8>,
}

/// A framer as a mathematical value.
#[verifier::ext_equal]
pub struct ConnectionView {
    /// The direction of the packets that this end decodes.
    pub direction: PacketDirection,
    /// The protocol phase.
    pub stage: PacketStage,
    /// The compression threshold, where compression is on.
    pub compression: Option<nat>,
    /// The cipher streams, where encryption is on.
    pub encryption: Option<EncryptionView>,
    /// The bytes received, and decrypted where encryption is on, that no
    /// whole frame has been made of yet.
    pub in_raw: Seq<u8>,
    /// The packets decoded and not yet handed out, oldest first.
    pub inbox: Seq<PacketView>,
}

/// One step of receiving: reads one frame from the front of the raw bytes
/// and decodes its packet.
///
/// Gives `Ok(true)` where a packet went into the inbox, `Ok(false)` where
/// the raw bytes hold no whole frame, and the failure otherwise. A frame
/// that cannot be read stays where it is; a frame whose packet cannot be
/// decoded is taken off the raw bytes.
pub open spec fn spec_step(direction: PacketDirection, compression: bool, st: IngestState) -> (
    IngestState,
    Result<bool, FatalError>,
) {
    match spec_read_frame(st.raw, compression) {
        FrameRead::Incomplete => (st, Ok(false)),
        FrameRead::Malformed => (st, Err(FatalError::MalformedFrame)),
        FrameRead::Frame { body, consumed } => {
            let rest = st.raw.skip(consumed as int);
            match spec_decode_packet(st.stage, direction, body) {
                Err(e) => (IngestState { raw: rest, ..st }, Err(e)),
                Ok(p) => (
                    IngestState {
                        stage: spec_stage_after_accept(st.stage, p),
                        inbox: st.inbox.push(p),
                        raw: rest,
                    },
                    Ok(true),
                ),
            }
        },
    }
}

/// Receiving: step after step until the raw bytes hold no whole frame or a
/// step fails.
pub open spec fn spec_ingest(direction: PacketDirection, compression: bool, st: IngestState) -> (
    IngestState,
    Result<(), FatalError>,
)
    decreases st.raw.len(),
    via spec_ingest_decreases
{
    let (next, r) = spec_step(direction, compression, st);
    match r {
        Ok(more) => if more {
            spec_ingest(direction, compression, next)
        } else {
            (next, Ok(()))
        },
        Err(e) => (next, Err(e)),
    }
}

#[via_fn]
proof fn spec_ingest_decreases(direction: PacketDirection, compression: bool, st: IngestState) {
    lemma_read_frame_bounds(st.raw, compression);
}

impl ConnectionView {
    /// A framer just made: handshake stage, nothing enabled, nothing
    /// received.
    pub open spec fn fresh(direction: PacketDirection) -> ConnectionView {
        ConnectionView {
            direction,
            stage: PacketStage::Handshake,
            compression: None,
            encryption: None,
            in_raw: Seq::empty(),
            inbox: Seq::empty(),
        }
    }

    /// The part of the framer that receiving works on.
    pub open spec fn ingest_state(self) -> IngestState {
        IngestState { stage: self.stage, inbox: self.inbox, raw: self.in_raw }
    }

    /// The framer with the receiving part replaced.
    pub open spec fn with_ingest_state(self, st: IngestState) -> ConnectionView {
        ConnectionView { stage: st.stage, inbox: st.inbox, in_raw: st.raw, ..self }
    }

    /// What the bytes of `data` are once the decrypting stream has gone
    /// over them.
    pub open spec fn decrypted(self, data: Seq<u8>) -> Seq<u8> {
        match self.encryption {
            None => data,
            Some(e) => e.decrypter.decrypt(data),
        }
    }

    /// The cipher streams after `data` has been received.
    pub open spec fn encryption_after_receiving(self, data: Seq<u8>) -> Option<EncryptionView> {
        match self.encryption {
            None => None,
            Some(e) => Some(EncryptionView { decrypter: e.decrypter.feed(data), ..e }),
        }
    }

    /// The framer after `data` has arrived, and what the caller is told.
    ///
    /// The decrypting stream goes over all of `data`, once. The result is
    /// put behind the raw bytes, and frames are taken from their front for
    /// as long as there are whole ones.
    pub open spec fn accept(self, data: Seq<u8>) -> (ConnectionView, Result<(), FatalError>) {
        let appended = IngestState {
            raw: self.in_raw + self.decrypted(data),
            ..self.ingest_state()
        };
        let (st, r) = spec_ingest(self.direction, self.compression is Some, appended);
        (
            ConnectionView {
                encryption: self.encryption_after_receiving(data),
                ..self.with_ingest_state(st)
            },
            r,
        )
    }

    /// The frame of `p` before encryption.
    pub open spec fn plain_frame(self, p: PacketView) -> Seq<u8> {
        spec_frame(spec_body(p), self.compression)
    }

    /// The bytes that go on the wire for `p`.
    pub open spec fn wire_bytes(self, p: PacketView) -> Seq<u8> {
        match self.encryption {
            None => self.plain_frame(p),
            Some(e) => e.encrypter.encrypt(self.plain_frame(p)),
        }
    }

    /// The framer after `p` has been serialised: a login success leads to
    /// the play stage, and the encrypting stream has gone over the bytes
    /// that were handed out, once.
    pub open spec fn after_serialize(self, p: PacketView) -> ConnectionView {
        ConnectionView {
            stage: spec_stage_after_send(self.stage, p),
            encryption: match self.encryption {
                None => None,
                Some(e) => Some(
                    EncryptionView { encrypter: e.encrypter.feed(self.wire_bytes(p)), ..e },
                ),
            },
            ..self
        }
    }
}

/// The per-connection framer.
pub struct ConnectionIOManager {
    encryption_enabled: bool,
    encryption_key: [u8; 16],
    compression_enabled: bool,
    compression_threshold: usize,
    pending_received_packets: Vec<Packet>,
    incoming_compressed: ByteBuf,
    incoming_uncompressed: ByteBuf,
    encrypter: Option<StreamCipher>,
    decrypter: Option<StreamCipher>,
    stage: PacketStage,
    direction: PacketDirection,
}

impl View for ConnectionIOManager {
    type V = ConnectionView;

    closed spec fn view(&self) -> ConnectionView {
        ConnectionView {
            direction: self.direction,
            stage: self.stage,
            compression: spec_compression(self.compression_enabled, self.compression_threshold),
            encryption: if self.encryption_enabled {
                Some(
                    EncryptionView {
                        encrypter: self.encrypter.unwrap()@,
                        decrypter: self.decrypter.unwrap()@,
                    },
                )
            } else {
                None
            },
            in_raw: self.incoming_compressed@.unread(),
            inbox: spec_views(self.pending_received_packets@),
        }
    }
}

impl ConnectionIOManager {
    /// The invariant of a framer between calls: the raw buffer is compacted,
    /// the buffer of decompressed bytes is empty, and the cipher streams
    /// are there exactly when encryption is on, both made with the key.
    pub closed spec fn wf(&self) -> bool {
        &&& self.incoming_compressed.wf()
        &&& self.incoming_compressed@.read_pos == 0
        &&& self.incoming_uncompressed.wf()
        &&& self.incoming_uncompressed@.bytes.len() == 0
        &&& self.encryption_enabled == self.encrypter.is_some()
        &&& self.encryption_enabled == self.decrypter.is_some()
        &&& self.encryption_enabled ==> {
            &&& self.encrypter.unwrap().wf()
            &&& self.decrypter.unwrap().wf()
            &&& self.encrypter.unwrap()@.key == self.encryption_key@
            &&& self.decrypter.unwrap()@.key == self.encryption_key@
        }
    }

    /// The decompressed bytes that are held for decoding.
    pub closed spec fn in_plain(&self) -> Seq<u8> {
        self.incoming_uncompressed@.bytes
    }

    /// Between calls a framer holds no decompressed bytes: a frame that is
    /// not whole leaves nothing behind, and a whole one is decoded at once.
    /// Where it encrypts, both streams were made with the same key.
    pub proof fn lemma_between_calls(&self)
        requires
            self.wf(),
        ensures
            self.in_plain().len() == 0,
            self@.encryption matches Some(e) ==> e.encrypter.key == e.decrypter.key,
    {
    }

    /// A framer for one end of a connection. `direction` is the direction
    /// of the packets that this end decodes.
    pub fn new(direction: PacketDirection) -> (manager: ConnectionIOManager)
        ensures
            manager.wf(),
            manager@ == ConnectionView::fresh(direction),
    {
        let manager = ConnectionIOManager {
            encryption_enabled: false,
            encryption_key: [0u8; 16],
            compression_enabled: false,
            compression_threshold: 0,
            pending_received_packets: Vec::new(),
            incoming_compressed: ByteBuf::with_capacity(128),
            incoming_uncompressed: ByteBuf::with_capacity(128),
            encrypter: None,
            decrypter: None,
            stage: PacketStage::Handshake,
            direction,
        };
        assert(manager@.in_raw =~= Seq::empty());
        assert(manager@.inbox =~= Seq::empty());
        manager
    }

    /// Puts the framer into `stage`.
    pub fn set_stage(&mut self, stage: PacketStage)
        requires
            old(self).wf(),
        ensures
            final(self).wf(),
            final(self)@ == (ConnectionView { stage, ..old(self)@ }),
    {
        self.stage = stage;
    }

    /// The stage that the framer is in.
    pub fn stage(&self) -> (stage: PacketStage)
        ensures
            stage == self@.stage,
    {
        self.stage
    }

    /// The direction of the packets that this end decodes.
    pub fn direction(&self) -> (direction: PacketDirection)
        ensures
            direction == self@.direction,
    {
        self.direction
    }

    /// The number of bytes that were received and are still waiting for the
    /// rest of their frame.
    pub fn pending_bytes(&self) -> (n: usize)
        requires
            self.wf(),
        ensures
            n == self@.in_raw.len(),
    {
        self.incoming_compressed.remaining()
    }

    /// Turns encryption on, with `key` as key and as initialisation vector
    /// in both directions. Both streams start afresh.
    pub fn enable_encryption(&mut self, key: [u8; 16])
        requires
            old(self).wf(),
        ensures
            final(self).wf(),
            final(self)@ == (ConnectionView {
                encryption: Some(
                    EncryptionView {
                        encrypter: StreamCipherView::fresh(key@),
                        decrypter: StreamCipherView::fresh(key@),
                    },
                ),
                ..old(self)@
            }),
    {
        self.encryption_enabled = true;
        self.encryption_key = key;
        self.encrypter = Some(StreamCipher::new(&key));
        self.decrypter = Some(StreamCipher::new(&key));
    }

    /// Turns compression on: bodies of `threshold` bytes or more are
    /// deflated from now on.
    pub fn enable_compression(&mut self, threshold: usize)
        requires
            old(self).wf(),
        ensures
            final(self).wf(),
            final(self)@ == (ConnectionView { compression: Some(threshold as nat), ..old(self)@ }),
    {
        self.compression_enabled = true;
        self.compression_threshold = threshold;
    }

    /// Hands out the packets decoded so far, oldest first, and leaves the
    /// inbox empty.
    pub fn take_pending_packets(&mut self) -> (packets: Vec<Packet>)
        requires
            old(self).wf(),
        ensures
            final(self).wf(),
            spec_views(packets@) == old(self)@.inbox,
            final(self)@ == (ConnectionView { inbox: Seq::empty(), ..old(self)@ }),
    {
        let mut packets: Vec<Packet> = Vec::new();
        core::mem::swap(&mut packets, &mut self.pending_received_packets);
        assert(self@.inbox =~= Seq::empty());
        packets
    }

    fn encrypt_data(&mut self, data: &mut Vec<u8>)
        requires
            old(self).wf(),
            old(self)@.encryption is Some,
        ensures
            final(self).wf(),
            final(data)@ == old(self)@.encryption.unwrap().encrypter.encrypt(old(data)@),
            final(self)@ == (ConnectionView {
                encryption: Some(
                    EncryptionView {
                        encrypter: old(self)@.encryption.unwrap().encrypter.feed(final(data)@),
                        ..old(self)@.encryption.unwrap()
                    },
                ),
                ..old(self)@
            }),
    {
        match &mut self.encrypter {
            Some(crypter) => {
                crypter.encrypt(data);
            },
            None => {},
        }
    }

    fn decrypt_data(&mut self, data: &mut Vec<u8>)
        requires
            old(self).wf(),
            old(self)@.encryption is Some,
        ensures
            final(self).wf(),
            final(data)@ == old(self)@.decrypted(old(data)@),
            final(self)@ == (ConnectionView {
                encryption: old(self)@.encryption_after_receiving(old(data)@),
                ..old(self)@
            }),
    {
        match &mut self.decrypter {
            Some(crypter) => {
                crypter.decrypt(data);
            },
            None => {},
        }
    }

    /// One step of receiving.
    fn accept_frame(&mut self) -> (r: Result<bool, FatalError>)
        requires
            old(self).wf(),
        ensures
            final(self).wf(),
            final(self)@ == old(self)@.with_ingest_state(
                spec_step(
                    old(self)@.direction,
                    old(self)@.compression is Some,
                    old(self)@.ingest_state(),
                ).0,
            ),
            r == spec_step(
                old(self)@.direction,
                old(self)@.compression is Some,
                old(self)@.ingest_state(),
            ).1,
    {
        let ghost before = self@;
        let ghost raw = self.incoming_compressed@.unread();
        match take_frame(
            &mut self.incoming_compressed,
            &mut self.incoming_uncompressed,
            self.compression_enabled,
        ) {
            Ok(more) => {
                if !more {
                    assert(self@.in_raw =~= before.in_raw);
                    return Ok(false);
                }
            },
            Err(e) => {
                assert(self@.in_raw =~= before.in_raw);
                return Err(e);
            },
        }
        let ghost body = spec_read_frame(raw, before.compression is Some)->body;
        let ghost stepped = spec_step(
            before.direction,
            before.compression is Some,
            before.ingest_state(),
        ).0;
        assert(self.incoming_compressed@.unread() =~= self.incoming_compressed@.bytes);
        assert(self.incoming_uncompressed@.unread() =~= body);
        let decoded = decode_packet(self.stage, self.direction, self.incoming_uncompressed.inner());
        let taken = self.incoming_uncompressed.remaining();
        self.incoming_uncompressed.advance(taken);
        self.incoming_uncompressed.remove_prior();
        match decoded {
            Err(e) => {
                assert(self@ =~= before.with_ingest_state(stepped));
                Err(e)
            },
            Ok(packet) => {
                match &packet {
                    Packet::Handshake { next_state, .. } => {
                        self.stage = match next_state {
                            HandshakeState::Status => PacketStage::Status,
                            HandshakeState::Login => PacketStage::Login,
                        };
                    },
                    _ => {},
                }
                let ghost held = self.pending_received_packets@;
                self.pending_received_packets.push(packet);
                assert(spec_views(held.push(packet)) =~= spec_views(held).push(packet@));
                assert(self@ =~= before.with_ingest_state(stepped));
                Ok(true)
            },
        }
    }

    /// Takes in bytes that arrived from the peer.
    ///
    /// Every packet that the bytes complete goes into the inbox, in the
    /// order of arrival. Bytes that do not make up a whole frame yet are
    /// kept for the next call. A failure means that the peer is broken or
    /// hostile: the connection must be dropped.
    pub fn accept_data(&mut self, data: &[u8]) -> (r: Result<(), FatalError>)
        requires
            old(self).wf(),
        ensures
            final(self).wf(),
            final(self)@ == old(self)@.accept(data@).0,
            r == old(self)@.accept(data@).1,
    {
        let ghost before = self@;
        let mut chunk: Vec<u8> = Vec::new();
        extend(&mut chunk, data);
        if self.encryption_enabled {
            self.decrypt_data(&mut chunk);
        }
        self.incoming_compressed.put(chunk.as_slice());
        assert(self@.in_raw =~= before.in_raw + before.decrypted(data@));
        let ghost appended = IngestState {
            raw: before.in_raw + before.decrypted(data@),
            ..before.ingest_state()
        };
        let ghost settled = ConnectionView {
            encryption: before.encryption_after_receiving(data@),
            ..before
        };
        assert(self@ =~= settled.with_ingest_state(appended));
        let mut result: Result<(), FatalError> = Ok(());
        loop
            invariant_except_break
                self.wf(),
                result == Ok::<(), FatalError>(()),
                self@ == settled.with_ingest_state(self@.ingest_state()),
                spec_ingest(settled.direction, settled.compression is Some, self@.ingest_state())
                    == spec_ingest(settled.direction, settled.compression is Some, appended),
            ensures
                self.wf(),
                self@ == settled.with_ingest_state(
                    spec_ingest(settled.direction, settled.compression is Some, appended).0,
                ),
                result == spec_ingest(settled.direction, settled.compression is Some, appended).1,
            decreases self@.in_raw.len(),
        {
            let ghost current = self@.ingest_state();
            proof {
                lemma_read_frame_bounds(current.raw, settled.compression is Some);
            }
            match self.accept_frame() {
                Ok(more) => {
                    if !more {
                        break ;
                    }
                },
                Err(e) => {
                    result = Err(e);
                    break ;
                },
            }
        }
        result
    }

    /// Turns a packet into the bytes that go on the wire.
    ///
    /// A login success puts the framer into the play stage. The bytes must
    /// be written to the peer in the order in which they were handed out.
    pub fn serialize_packet(&mut self, packet: Packet) -> (bytes: ByteBuf)
        requires
            old(self).wf(),
        ensures
            final(self).wf(),
            bytes.wf(),
            bytes@.read_pos == 0,
            bytes@.bytes == old(self)@.wire_bytes(packet@),
            final(self)@ == old(self)@.after_serialize(packet@),
    {
        let ghost before = self@;
        match &packet {
            Packet::LoginSuccess { .. } => {
                self.stage = PacketStage::Play;
            },
            _ => {},
        }
        let mut packet_data: Vec<u8> = Vec::new();
        encode_packet(&packet, &mut packet_data);
        assert(packet_data@ =~= spec_body(packet@));
        let mut frame = encode_frame(
            packet_data.as_slice(),
            self.compression_enabled,
            self.compression_threshold,
        );
        if self.encryption_enabled {
            self.encrypt_data(&mut frame);
        }
        assert(self@ =~= before.after_serialize(packet@));
        ByteBuf::from_vec(frame)
    }
}

} // verus!
