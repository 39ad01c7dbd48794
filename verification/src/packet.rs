//! The packets that the framer knows, and the registry that tells them
//! apart by stage, direction and id.

use crate::codec::{
    lemma_i64_round_trip, lemma_string_round_trip, lemma_u16_round_trip,
    lemma_var_int_field_round_trip, read_i64, read_string, read_u16, read_var_int_field,
    spec_i64, spec_read_i64, spec_read_string, spec_read_u16, spec_read_var_int_field,
    spec_string, spec_u16, write_i64, write_string, write_u16,
};
use crate::error::FatalError;
use crate::varint::{
    lemma_read_var_int_bounds, lemma_read_var_int_round_trip, lemma_var_int_len, read_var_int,
    spec_read_var_int, spec_signed, spec_var_int, to_signed, write_var_int,
};
use vstd::prelude::*;
use vstd::utf8::encode_utf8;

verus! {

/// The phase of the protocol, which decides how packet ids are read.
#[derive(Clone, Copy, Debug, PartialEq, Eq, Hash, Structural)]
pub enum PacketStage {
    Handshake,
    Status,
    Login,
    Play,
}

/// The way a packet travels.
#[derive(Clone, Copy, Debug, PartialEq, Eq, Hash, Structural)]
pub enum PacketDirection {
    /// From the server to the client.
    Clientbound,
    /// From the client to the server.
    Serverbound,
}

/// What identifies a kind of packet on the wire: its number, its direction
/// and the stage in which it occurs.
#[derive(Clone, Copy, Debug, PartialEq, Eq, Hash, Structural)]
pub struct PacketId(pub u32, pub PacketDirection, pub PacketStage);

/// The state that a handshake asks for.
#[derive(Clone, Copy, Debug, PartialEq, Eq, Hash, Structural)]
pub enum HandshakeState {
    Status,
    Login,
}

/// The kinds of packet in the registry.
#[derive(Clone, Copy, Debug, PartialEq, Eq, Hash, Structural)]
pub enum PacketType {
    Handshake,
    Request,
    Ping,
    Response,
    Pong,
    LoginStart,
    DisconnectLogin,
    LoginSuccess,
    SetCompression,
    ChatMessageServerbound,
    KeepAliveServerbound,
    DisconnectPlay,
    KeepAliveClientbound,
}

/// A packet with its fields.
#[derive(Clone, Debug, PartialEq, Eq)]
pub enum Packet {
    Handshake {
        protocol_version: i32,
        server_address: String,
        server_port: u16,
        next_state: HandshakeState,
    },
    Request,
    Ping { payload: i64 },
    Response { json_response: String },
    Pong { payload: i64 },
    LoginStart { username: String },
    DisconnectLogin { reason: String },
    LoginSuccess { uuid: String, username: String },
    SetCompression { threshold: i32 },
    ChatMessageServerbound { message: String },
    KeepAliveServerbound { id: i64 },
    DisconnectPlay { reason: String },
    KeepAliveClientbound { id: i64 },
}

/// A packet as a mathematical value: text is a sequence of characters.
pub enum PacketView {
    Handshake {
        protocol_version: i32,
        server_address: Seq<char>,
        server_port: u16,
        next_state: HandshakeState,
    },
    Request,
    Ping { payload: i64 },
    Response { json_response: Seq<char> },
    Pong { payload: i64 },
    LoginStart { username: Seq<char> },
    DisconnectLogin { reason: Seq<char> },
    LoginSuccess { uuid: Seq<char>, username: Seq<char> },
    SetCompression { threshold: i32 },
    ChatMessageServerbound { message: Seq<char> },
    KeepAliveServerbound { id: i64 },
    DisconnectPlay { reason: Seq<char> },
    KeepAliveClientbound { id: i64 },
}

impl View for Packet {
    type V = PacketView;

    open spec fn view(&self) -> PacketView {
        match *self {
            Packet::Handshake { protocol_version, server_address, server_port, next_state } => {
                PacketView::Handshake {
                    protocol_version,
                    server_address: server_address@,
                    server_port,
                    next_state,
                }
            },
            Packet::Request => PacketView::Request,
            Packet::Ping { payload } => PacketView::Ping { payload },
            Packet::Response { json_response } => PacketView::Response {
                json_response: json_response@,
            },
            Packet::Pong { payload } => PacketView::Pong { payload },
            Packet::LoginStart { username } => PacketView::LoginStart { username: username@ },
            Packet::DisconnectLogin { reason } => PacketView::DisconnectLogin { reason: reason@ },
            Packet::LoginSuccess { uuid, username } => PacketView::LoginSuccess {
                uuid: uuid@,
                username: username@,
            },
            Packet::SetCompression { threshold } => PacketView::SetCompression { threshold },
            Packet::ChatMessageServerbound { message } => PacketView::ChatMessageServerbound {
                message: message@,
            },
            Packet::KeepAliveServerbound { id } => PacketView::KeepAliveServerbound { id },
            Packet::DisconnectPlay { reason } => PacketView::DisconnectPlay { reason: reason@ },
            Packet::KeepAliveClientbound { id } => PacketView::KeepAliveClientbound { id },
        }
    }
}

/// The packets of a vector as mathematical values.
pub open spec fn spec_views(packets: Seq<Packet>) -> Seq<PacketView> {
    Seq::new(packets.len(), |i: int| packets[i]@)
}

/// The id under which a kind of packet is registered.
pub open spec fn spec_get_id(ty: PacketType) -> PacketId {
    match ty {
        PacketType::Handshake => PacketId(
            0x00,
            PacketDirection::Serverbound,
            PacketStage::Handshake,
        ),
        PacketType::Request => PacketId(0x00, PacketDirection::Serverbound, PacketStage::Status),
        PacketType::Ping => PacketId(0x01, PacketDirection::Serverbound, PacketStage::Status),
        PacketType::Response => PacketId(0x00, PacketDirection::Clientbound, PacketStage::Status),
        PacketType::Pong => PacketId(0x01, PacketDirection::Clientbound, PacketStage::Status),
        PacketType::LoginStart => PacketId(0x00, PacketDirection::Serverbound, PacketStage::Login),
        PacketType::DisconnectLogin => PacketId(
            0x00,
            PacketDirection::Clientbound,
            PacketStage::Login,
        ),
        PacketType::LoginSuccess => PacketId(
            0x02,
            PacketDirection::Clientbound,
            PacketStage::Login,
        ),
        PacketType::SetCompression => PacketId(
            0x03,
            PacketDirection::Clientbound,
            PacketStage::Login,
        ),
        PacketType::ChatMessageServerbound => PacketId(
            0x02,
            PacketDirection::Serverbound,
            PacketStage::Play,
        ),
        PacketType::KeepAliveServerbound => PacketId(
            0x0E,
            PacketDirection::Serverbound,
            PacketStage::Play,
        ),
        PacketType::DisconnectPlay => PacketId(
            0x1B,
            PacketDirection::Clientbound,
            PacketStage::Play,
        ),
        PacketType::KeepAliveClientbound => PacketId(
            0x21,
            PacketDirection::Clientbound,
            PacketStage::Play,
        ),
    }
}

/// The kind of packet that is registered under `ty`'s id is `ty`.
pub open spec fn spec_registered(id: PacketId, ty: PacketType) -> bool {
    spec_get_id(ty) == id
}

/// The kind of packet registered under an id, if there is one.
pub open spec fn spec_get_from_id(id: PacketId) -> Option<PacketType> {
    if exists|ty: PacketType| spec_registered(id, ty) {
        Some(choose|ty: PacketType| spec_registered(id, ty))
    } else {
        None
    }
}

/// No two kinds of packet share an id.
pub proof fn lemma_ids_distinct(a: PacketType, b: PacketType)
    requires
        spec_get_id(a) == spec_get_id(b),
    ensures
        a == b,
{
}

/// Looking up the id of a kind of packet finds that kind.
pub proof fn lemma_get_from_id_of_get_id(ty: PacketType)
    ensures
        spec_get_from_id(spec_get_id(ty)) == Some(ty),
{
    let id = spec_get_id(ty);
    assert(spec_registered(id, ty));
    let found = choose|t: PacketType| spec_registered(id, t);
    lemma_ids_distinct(found, ty);
}

/// What a lookup finds is registered under the id that was looked up.
pub proof fn lemma_get_from_id_sound(id: PacketId, ty: PacketType)
    ensures
        spec_get_from_id(id) == Some(ty) <==> spec_get_id(ty) == id,
{
    if spec_get_id(ty) == id {
        lemma_get_from_id_of_get_id(ty);
    }
}

/// The kind of packet that a number read from the wire stands for.
pub open spec fn spec_lookup(stage: PacketStage, direction: PacketDirection, id: i32) -> Option<
    PacketType,
> {
    if id < 0 {
        None
    } else {
        spec_get_from_id(PacketId(id as u32, direction, stage))
    }
}

impl PacketType {
    /// The id under which this kind of packet is registered.
    pub fn get_id(&self) -> (id: PacketId)
        ensures
            id == spec_get_id(*self),
    {
        match self {
            PacketType::Handshake => PacketId(
                0x00,
                PacketDirection::Serverbound,
                PacketStage::Handshake,
            ),
            PacketType::Request => PacketId(
                0x00,
                PacketDirection::Serverbound,
                PacketStage::Status,
            ),
            PacketType::Ping => PacketId(0x01, PacketDirection::Serverbound, PacketStage::Status),
            PacketType::Response => PacketId(
                0x00,
                PacketDirection::Clientbound,
                PacketStage::Status,
            ),
            PacketType::Pong => PacketId(0x01, PacketDirection::Clientbound, PacketStage::Status),
            PacketType::LoginStart => PacketId(
                0x00,
                PacketDirection::Serverbound,
                PacketStage::Login,
            ),
            PacketType::DisconnectLogin => PacketId(
                0x00,
                PacketDirection::Clientbound,
                PacketStage::Login,
            ),
            PacketType::LoginSuccess => PacketId(
                0x02,
                PacketDirection::Clientbound,
                PacketStage::Login,
            ),
            PacketType::SetCompression => PacketId(
                0x03,
                PacketDirection::Clientbound,
                PacketStage::Login,
            ),
            PacketType::ChatMessageServerbound => PacketId(
                0x02,
                PacketDirection::Serverbound,
                PacketStage::Play,
            ),
            PacketType::KeepAliveServerbound => PacketId(
                0x0E,
                PacketDirection::Serverbound,
                PacketStage::Play,
            ),
            PacketType::DisconnectPlay => PacketId(
                0x1B,
                PacketDirection::Clientbound,
                PacketStage::Play,
            ),
            PacketType::KeepAliveClientbound => PacketId(
                0x21,
                PacketDirection::Clientbound,
                PacketStage::Play,
            ),
        }
    }

    /// The kind of packet registered under `id`. Fails where there is none.
    pub fn get_from_id(id: PacketId) -> (r: Result<PacketType, ()>)
        ensures
            match spec_get_from_id(id) {
                Some(ty) => r == Ok::<PacketType, ()>(ty),
                None => r is Err,
            },
    {
        let PacketId(number, direction, stage) = id;
        let found = match stage {
            PacketStage::Handshake => match direction {
                PacketDirection::Serverbound => match number {
                    0x00 => Some(PacketType::Handshake),
                    _ => None,
                },
                PacketDirection::Clientbound => None,
            },
            PacketStage::Status => match direction {
                PacketDirection::Serverbound => match number {
                    0x00 => Some(PacketType::Request),
                    0x01 => Some(PacketType::Ping),
                    _ => None,
                },
                PacketDirection::Clientbound => match number {
                    0x00 => Some(PacketType::Response),
                    0x01 => Some(PacketType::Pong),
                    _ => None,
                },
            },
            PacketStage::Login => match direction {
                PacketDirection::Serverbound => match number {
                    0x00 => Some(PacketType::LoginStart),
                    _ => None,
                },
                PacketDirection::Clientbound => match number {
                    0x00 => Some(PacketType::DisconnectLogin),
                    0x02 => Some(PacketType::LoginSuccess),
                    0x03 => Some(PacketType::SetCompression),
                    _ => None,
                },
            },
            PacketStage::Play => match direction {
                PacketDirection::Serverbound => match number {
                    0x02 => Some(PacketType::ChatMessageServerbound),
                    0x0E => Some(PacketType::KeepAliveServerbound),
                    _ => None,
                },
                PacketDirection::Clientbound => match number {
                    0x1B => Some(PacketType::DisconnectPlay),
                    0x21 => Some(PacketType::KeepAliveClientbound),
                    _ => None,
                },
            },
        };
        match found {
            Some(ty) => {
                proof {
                    lemma_get_from_id_of_get_id(ty);
                }
                Ok(ty)
            },
            None => {
                assert(forall|ty: PacketType| !spec_registered(id, ty));
                Err(())
            },
        }
    }
}

/// The number that stands for a handshake's next state on the wire.
pub open spec fn spec_state_number(state: HandshakeState) -> i32 {
    match state {
        HandshakeState::Status => 1,
        HandshakeState::Login => 2,
    }
}

/// The state that a number on the wire stands for, if any.
pub open spec fn spec_state_of_number(number: i32) -> Option<HandshakeState> {
    if number == 1 {
        Some(HandshakeState::Status)
    } else if number == 2 {
        Some(HandshakeState::Login)
    } else {
        None
    }
}

/// The stage that a handshake's next state leads to.
pub open spec fn spec_stage_of_state(state: HandshakeState) -> PacketStage {
    match state {
        HandshakeState::Status => PacketStage::Status,
        HandshakeState::Login => PacketStage::Login,
    }
}

impl PacketView {
    /// The kind of this packet.
    pub open spec fn ty(self) -> PacketType {
        match self {
            PacketView::Handshake { .. } => PacketType::Handshake,
            PacketView::Request => PacketType::Request,
            PacketView::Ping { .. } => PacketType::Ping,
            PacketView::Response { .. } => PacketType::Response,
            PacketView::Pong { .. } => PacketType::Pong,
            PacketView::LoginStart { .. } => PacketType::LoginStart,
            PacketView::DisconnectLogin { .. } => PacketType::DisconnectLogin,
            PacketView::LoginSuccess { .. } => PacketType::LoginSuccess,
            PacketView::SetCompression { .. } => PacketType::SetCompression,
            PacketView::ChatMessageServerbound { .. } => PacketType::ChatMessageServerbound,
            PacketView::KeepAliveServerbound { .. } => PacketType::KeepAliveServerbound,
            PacketView::DisconnectPlay { .. } => PacketType::DisconnectPlay,
            PacketView::KeepAliveClientbound { .. } => PacketType::KeepAliveClientbound,
        }
    }

    /// Every text in the packet takes fewer than 2^31 bytes as UTF-8, so
    /// that its length can be written and read back.
    pub open spec fn encodable(self) -> bool {
        match self {
            PacketView::Handshake { server_address, .. } => spec_text_fits(server_address),
            PacketView::Response { json_response } => spec_text_fits(json_response),
            PacketView::LoginStart { username } => spec_text_fits(username),
            PacketView::DisconnectLogin { reason } => spec_text_fits(reason),
            PacketView::LoginSuccess { uuid, username } => spec_text_fits(uuid) && spec_text_fits(
                username,
            ),
            PacketView::ChatMessageServerbound { message } => spec_text_fits(message),
            PacketView::DisconnectPlay { reason } => spec_text_fits(reason),
            _ => true,
        }
    }
}

/// The UTF-8 form of `text` is shorter than 2^31 bytes.
pub open spec fn spec_text_fits(text: Seq<char>) -> bool {
    encode_utf8(text).len() < 0x8000_0000
}

/// The payload of a packet: its fields, one after the other.
pub open spec fn spec_payload(p: PacketView) -> Seq<u8> {
    match p {
        PacketView::Handshake { protocol_version, server_address, server_port, next_state } => {
            spec_var_int(protocol_version) + spec_string(server_address) + spec_u16(server_port)
                + spec_var_int(spec_state_number(next_state))
        },
        PacketView::Request => Seq::empty(),
        PacketView::Ping { payload } => spec_i64(payload),
        PacketView::Response { json_response } => spec_string(json_response),
        PacketView::Pong { payload } => spec_i64(payload),
        PacketView::LoginStart { username } => spec_string(username),
        PacketView::DisconnectLogin { reason } => spec_string(reason),
        PacketView::LoginSuccess { uuid, username } => spec_string(uuid) + spec_string(username),
        PacketView::SetCompression { threshold } => spec_var_int(threshold),
        PacketView::ChatMessageServerbound { message } => spec_string(message),
        PacketView::KeepAliveServerbound { id } => spec_i64(id),
        PacketView::DisconnectPlay { reason } => spec_string(reason),
        PacketView::KeepAliveClientbound { id } => spec_i64(id),
    }
}

/// The body of a packet: its id as a VarInt, then its payload.
pub open spec fn spec_body(p: PacketView) -> Seq<u8> {
    spec_var_int(spec_signed(spec_get_id(p.ty()).0 as nat)) + spec_payload(p)
}

/// Reads the fields of a handshake.
pub open spec fn spec_parse_handshake(bytes: Seq<u8>) -> Option<PacketView> {
    match spec_read_var_int_field(bytes) {
        Some((protocol_version, n1)) => match spec_read_string(bytes.skip(n1 as int)) {
            Some((server_address, n2)) => match spec_read_u16(bytes.skip((n1 + n2) as int)) {
                Some((server_port, n3)) => match spec_read_var_int_field(
                    bytes.skip((n1 + n2 + n3) as int),
                ) {
                    Some((number, _)) => match spec_state_of_number(number) {
                        Some(next_state) => Some(
                            PacketView::Handshake {
                                protocol_version,
                                server_address,
                                server_port,
                                next_state,
                            },
                        ),
                        None => None,
                    },
                    None => None,
                },
                None => None,
            },
            None => None,
        },
        None => None,
    }
}

/// Reads the fields of a login success.
pub open spec fn spec_parse_login_success(bytes: Seq<u8>) -> Option<PacketView> {
    match spec_read_string(bytes) {
        Some((uuid, n1)) => match spec_read_string(bytes.skip(n1 as int)) {
            Some((username, _)) => Some(PacketView::LoginSuccess { uuid, username }),
            None => None,
        },
        None => None,
    }
}

/// Reads the payload of a packet of kind `ty` from the front of `bytes`.
/// Bytes behind the last field are not looked at.
pub open spec fn spec_parse_payload(ty: PacketType, bytes: Seq<u8>) -> Option<PacketView> {
    match ty {
        PacketType::Handshake => spec_parse_handshake(bytes),
        PacketType::Request => Some(PacketView::Request),
        PacketType::Ping => match spec_read_i64(bytes) {
            Some((payload, _)) => Some(PacketView::Ping { payload }),
            None => None,
        },
        PacketType::Response => match spec_read_string(bytes) {
            Some((json_response, _)) => Some(PacketView::Response { json_response }),
            None => None,
        },
        PacketType::Pong => match spec_read_i64(bytes) {
            Some((payload, _)) => Some(PacketView::Pong { payload }),
            None => None,
        },
        PacketType::LoginStart => match spec_read_string(bytes) {
            Some((username, _)) => Some(PacketView::LoginStart { username }),
            None => None,
        },
        PacketType::DisconnectLogin => match spec_read_string(bytes) {
            Some((reason, _)) => Some(PacketView::DisconnectLogin { reason }),
            None => None,
        },
        PacketType::LoginSuccess => spec_parse_login_success(bytes),
        PacketType::SetCompression => match spec_read_var_int_field(bytes) {
            Some((threshold, _)) => Some(PacketView::SetCompression { threshold }),
            None => None,
        },
        PacketType::ChatMessageServerbound => match spec_read_string(bytes) {
            Some((message, _)) => Some(PacketView::ChatMessageServerbound { message }),
            None => None,
        },
        PacketType::KeepAliveServerbound => match spec_read_i64(bytes) {
            Some((id, _)) => Some(PacketView::KeepAliveServerbound { id }),
            None => None,
        },
        PacketType::DisconnectPlay => match spec_read_string(bytes) {
            Some((reason, _)) => Some(PacketView::DisconnectPlay { reason }),
            None => None,
        },
        PacketType::KeepAliveClientbound => match spec_read_i64(bytes) {
            Some((id, _)) => Some(PacketView::KeepAliveClientbound { id }),
            None => None,
        },
    }
}

/// Reads a packet from a body: the id, the kind registered under it for the
/// stage and direction, and the payload.
#[verifier::opaque]
pub open spec fn spec_decode_packet(
    stage: PacketStage,
    direction: PacketDirection,
    body: Seq<u8>,
) -> Result<PacketView, FatalError> {
    match spec_read_var_int(body) {
        Err(_) => Err(FatalError::MalformedFrame),
        Ok((id, n)) => match spec_lookup(stage, direction, id) {
            None => Err(FatalError::UnknownPacket),
            Some(ty) => match spec_parse_payload(ty, body.skip(n as int)) {
                None => Err(FatalError::MalformedPayload),
                Some(p) => Ok(p),
            },
        },
    }
}

/// The stage after a packet has been accepted: a handshake leads to the
/// state it asks for, every other packet leaves the stage as it is.
pub open spec fn spec_stage_after_accept(stage: PacketStage, p: PacketView) -> PacketStage {
    match p {
        PacketView::Handshake { next_state, .. } => spec_stage_of_state(next_state),
        _ => stage,
    }
}

/// The stage after a packet has been sent: a login success leads to play,
/// every other packet leaves the stage as it is.
pub open spec fn spec_stage_after_send(stage: PacketStage, p: PacketView) -> PacketStage {
    match p {
        PacketView::LoginSuccess { .. } => PacketStage::Play,
        _ => stage,
    }
}

/// The fields of a handshake that were written read back.
proof fn lemma_handshake_round_trip(
    protocol_version: i32,
    server_address: Seq<char>,
    server_port: u16,
    next_state: HandshakeState,
    rest: Seq<u8>,
)
    requires
        spec_text_fits(server_address),
    ensures
        spec_parse_handshake(
            spec_payload(
                PacketView::Handshake { protocol_version, server_address, server_port, next_state },
            ) + rest,
        ) == Some(
            PacketView::Handshake { protocol_version, server_address, server_port, next_state },
        ),
{
    let f1 = spec_var_int(protocol_version);
    let f2 = spec_string(server_address);
    let f3 = spec_u16(server_port);
    let f4 = spec_var_int(spec_state_number(next_state));
    let all = f1 + f2 + f3 + f4 + rest;
    let n1 = f1.len();
    let n2 = f2.len();
    let n3 = f3.len();
    assert(all =~= f1 + (f2 + f3 + f4 + rest));
    lemma_var_int_field_round_trip(protocol_version, f2 + f3 + f4 + rest);
    assert(all.skip(n1 as int) =~= f2 + (f3 + f4 + rest));
    lemma_string_round_trip(server_address, f3 + f4 + rest);
    assert(all.skip((n1 + n2) as int) =~= f3 + (f4 + rest));
    lemma_u16_round_trip(server_port, f4 + rest);
    assert(all.skip((n1 + n2 + n3) as int) =~= f4 + rest);
    lemma_var_int_field_round_trip(spec_state_number(next_state), rest);
}

/// A payload that was written reads back as the packet it was written
/// from, whatever follows it.
pub proof fn lemma_payload_round_trip(p: PacketView, rest: Seq<u8>)
    requires
        p.encodable(),
    ensures
        spec_parse_payload(p.ty(), spec_payload(p) + rest) == Some(p),
{
    match p {
        PacketView::Handshake { protocol_version, server_address, server_port, next_state } => {
            lemma_handshake_round_trip(
                protocol_version,
                server_address,
                server_port,
                next_state,
                rest,
            );
        },
        PacketView::Request => {},
        PacketView::Ping { payload } => {
            lemma_i64_round_trip(payload, rest);
        },
        PacketView::Response { json_response } => {
            lemma_string_round_trip(json_response, rest);
        },
        PacketView::Pong { payload } => {
            lemma_i64_round_trip(payload, rest);
        },
        PacketView::LoginStart { username } => {
            lemma_string_round_trip(username, rest);
        },
        PacketView::DisconnectLogin { reason } => {
            lemma_string_round_trip(reason, rest);
        },
        PacketView::LoginSuccess { uuid, username } => {
            let f1 = spec_string(uuid);
            let f2 = spec_string(username);
            let all = f1 + f2 + rest;
            assert(all =~= f1 + (f2 + rest));
            lemma_string_round_trip(uuid, f2 + rest);
            assert(all.skip(f1.len() as int) =~= f2 + rest);
            lemma_string_round_trip(username, rest);
        },
        PacketView::SetCompression { threshold } => {
            lemma_var_int_field_round_trip(threshold, rest);
        },
        PacketView::ChatMessageServerbound { message } => {
            lemma_string_round_trip(message, rest);
        },
        PacketView::KeepAliveServerbound { id } => {
            lemma_i64_round_trip(id, rest);
        },
        PacketView::DisconnectPlay { reason } => {
            lemma_string_round_trip(reason, rest);
        },
        PacketView::KeepAliveClientbound { id } => {
            lemma_i64_round_trip(id, rest);
        },
    }
}

/// A body that was written decodes, in the stage and direction of its
/// packet, to that packet, whatever follows it.
pub proof fn lemma_body_round_trip(p: PacketView, rest: Seq<u8>)
    requires
        p.encodable(),
    ensures
        spec_decode_packet(
            spec_get_id(p.ty()).2,
            spec_get_id(p.ty()).1,
            spec_body(p) + rest,
        ) == Ok::<PacketView, FatalError>(p),
{
    reveal(spec_decode_packet);
    let id = spec_get_id(p.ty());
    let number = spec_signed(id.0 as nat);
    let head = spec_var_int(number);
    let all = spec_body(p) + rest;
    assert(number == id.0);
    assert(all =~= head + (spec_payload(p) + rest));
    lemma_read_var_int_round_trip(number, spec_payload(p) + rest);
    lemma_var_int_len(number);
    assert(PacketId(number as u32, id.1, id.2) == id);
    lemma_get_from_id_of_get_id(p.ty());
    assert(all.skip(head.len() as int) =~= spec_payload(p) + rest);
    lemma_payload_round_trip(p, rest);
}

/// A packet that was decoded is of a kind that is registered for the stage
/// and direction in which it was decoded.
pub proof fn lemma_decoded_kind(stage: PacketStage, direction: PacketDirection, body: Seq<u8>)
    ensures
        spec_decode_packet(stage, direction, body) matches Ok(p) ==> spec_get_id(p.ty()).2 == stage
            && spec_get_id(p.ty()).1 == direction,
{
    reveal(spec_decode_packet);
    match spec_read_var_int(body) {
        Ok((id, n)) => {
            if id >= 0 {
                let wanted = PacketId(id as u32, direction, stage);
                match spec_get_from_id(wanted) {
                    Some(ty) => {
                        lemma_get_from_id_sound(wanted, ty);
                    },
                    None => {},
                }
            }
        },
        Err(_) => {},
    }
}

impl Packet {
    /// The kind of this packet.
    pub fn ty(&self) -> (ty: PacketType)
        ensures
            ty == self@.ty(),
    {
        match self {
            Packet::Handshake { .. } => PacketType::Handshake,
            Packet::Request => PacketType::Request,
            Packet::Ping { .. } => PacketType::Ping,
            Packet::Response { .. } => PacketType::Response,
            Packet::Pong { .. } => PacketType::Pong,
            Packet::LoginStart { .. } => PacketType::LoginStart,
            Packet::DisconnectLogin { .. } => PacketType::DisconnectLogin,
            Packet::LoginSuccess { .. } => PacketType::LoginSuccess,
            Packet::SetCompression { .. } => PacketType::SetCompression,
            Packet::ChatMessageServerbound { .. } => PacketType::ChatMessageServerbound,
            Packet::KeepAliveServerbound { .. } => PacketType::KeepAliveServerbound,
            Packet::DisconnectPlay { .. } => PacketType::DisconnectPlay,
            Packet::KeepAliveClientbound { .. } => PacketType::KeepAliveClientbound,
        }
    }

    /// Appends the payload of this packet to `out`.
    pub fn write_to(&self, out: &mut Vec<u8>)
        ensures
            final(out)@ == old(out)@ + spec_payload(self@),
    {
        let ghost before = out@;
        match self {
            Packet::Handshake { protocol_version, server_address, server_port, next_state } => {
                write_var_int(*protocol_version, out);
                write_string(server_address.as_str(), out);
                write_u16(*server_port, out);
                let number: i32 = match next_state {
                    HandshakeState::Status => 1,
                    HandshakeState::Login => 2,
                };
                write_var_int(number, out);
            },
            Packet::Request => {},
            Packet::Ping { payload } => {
                write_i64(*payload, out);
            },
            Packet::Response { json_response } => {
                write_string(json_response.as_str(), out);
            },
            Packet::Pong { payload } => {
                write_i64(*payload, out);
            },
            Packet::LoginStart { username } => {
                write_string(username.as_str(), out);
            },
            Packet::DisconnectLogin { reason } => {
                write_string(reason.as_str(), out);
            },
            Packet::LoginSuccess { uuid, username } => {
                write_string(uuid.as_str(), out);
                write_string(username.as_str(), out);
            },
            Packet::SetCompression { threshold } => {
                write_var_int(*threshold, out);
            },
            Packet::ChatMessageServerbound { message } => {
                write_string(message.as_str(), out);
            },
            Packet::KeepAliveServerbound { id } => {
                write_i64(*id, out);
            },
            Packet::DisconnectPlay { reason } => {
                write_string(reason.as_str(), out);
            },
            Packet::KeepAliveClientbound { id } => {
                write_i64(*id, out);
            },
        }
        assert(out@ =~= before + spec_payload(self@));
    }

    /// Reads the payload of a packet of kind `ty` from the front of
    /// `bytes`.
    pub fn read_from(ty: PacketType, bytes: &[u8]) -> (r: Result<Packet, FatalError>)
        ensures
            match spec_parse_payload(ty, bytes@) {
                Some(p) => r matches Ok(packet) && packet@ == p,
                None => r == Err::<Packet, FatalError>(FatalError::MalformedPayload),
            },
    {
        assert(bytes@.skip(0) =~= bytes@);
        let parsed = match ty {
            PacketType::Handshake => parse_handshake(bytes),
            PacketType::Request => Some(Packet::Request),
            PacketType::Ping => match read_i64(bytes, 0) {
                Some((payload, _)) => Some(Packet::Ping { payload }),
                None => None,
            },
            PacketType::Response => match read_string(bytes, 0) {
                Some((json_response, _)) => Some(Packet::Response { json_response }),
                None => None,
            },
            PacketType::Pong => match read_i64(bytes, 0) {
                Some((payload, _)) => Some(Packet::Pong { payload }),
                None => None,
            },
            PacketType::LoginStart => match read_string(bytes, 0) {
                Some((username, _)) => Some(Packet::LoginStart { username }),
                None => None,
            },
            PacketType::DisconnectLogin => match read_string(bytes, 0) {
                Some((reason, _)) => Some(Packet::DisconnectLogin { reason }),
                None => None,
            },
            PacketType::LoginSuccess => match read_string(bytes, 0) {
                Some((uuid, p1)) => match read_string(bytes, p1) {
                    Some((username, _)) => Some(Packet::LoginSuccess { uuid, username }),
                    None => None,
                },
                None => None,
            },
            PacketType::SetCompression => match read_var_int_field(bytes, 0) {
                Some((threshold, _)) => Some(Packet::SetCompression { threshold }),
                None => None,
            },
            PacketType::ChatMessageServerbound => match read_string(bytes, 0) {
                Some((message, _)) => Some(Packet::ChatMessageServerbound { message }),
                None => None,
            },
            PacketType::KeepAliveServerbound => match read_i64(bytes, 0) {
                Some((id, _)) => Some(Packet::KeepAliveServerbound { id }),
                None => None,
            },
            PacketType::DisconnectPlay => match read_string(bytes, 0) {
                Some((reason, _)) => Some(Packet::DisconnectPlay { reason }),
                None => None,
            },
            PacketType::KeepAliveClientbound => match read_i64(bytes, 0) {
                Some((id, _)) => Some(Packet::KeepAliveClientbound { id }),
                None => None,
            },
        };
        match parsed {
            Some(packet) => Ok(packet),
            None => Err(FatalError::MalformedPayload),
        }
    }
}

fn parse_handshake(bytes: &[u8]) -> (r: Option<Packet>)
    ensures
        match spec_parse_handshake(bytes@) {
            Some(p) => r matches Some(packet) && packet@ == p,
            None => r is None,
        },
{
    assert(bytes@.skip(0) =~= bytes@);
    let (protocol_version, p1) = match read_var_int_field(bytes, 0) {
        Some(v) => v,
        None => {
            return None;
        },
    };
    let (server_address, p2) = match read_string(bytes, p1) {
        Some(v) => v,
        None => {
            return None;
        },
    };
    let (server_port, p3) = match read_u16(bytes, p2) {
        Some(v) => v,
        None => {
            return None;
        },
    };
    let (number, _) = match read_var_int_field(bytes, p3) {
        Some(v) => v,
        None => {
            return None;
        },
    };
    let next_state = if number == 1 {
        HandshakeState::Status
    } else if number == 2 {
        HandshakeState::Login
    } else {
        return None;
    };
    Some(Packet::Handshake { protocol_version, server_address, server_port, next_state })
}

/// Appends the body of `packet` to `out`: its id as a VarInt, then its
/// payload.
pub fn encode_packet(packet: &Packet, out: &mut Vec<u8>)
    ensures
        final(out)@ == old(out)@ + spec_body(packet@),
{
    let ghost before = out@;
    let id = packet.ty().get_id();
    write_var_int(to_signed(id.0), out);
    packet.write_to(out);
    assert(out@ =~= before + spec_body(packet@));
}

/// Reads a packet from `body` as it is understood in `stage` and
/// `direction`.
pub fn decode_packet(stage: PacketStage, direction: PacketDirection, body: &[u8]) -> (r: Result<
    Packet,
    FatalError,
>)
    ensures
        match spec_decode_packet(stage, direction, body@) {
            Ok(p) => r matches Ok(packet) && packet@ == p,
            Err(e) => r == Err::<Packet, FatalError>(e),
        },
{
    proof {
        reveal(spec_decode_packet);
        lemma_read_var_int_bounds(body@);
    }
    let (id, n) = match read_var_int(body) {
        Ok(v) => v,
        Err(_) => {
            return Err(FatalError::MalformedFrame);
        },
    };
    if id < 0 {
        return Err(FatalError::UnknownPacket);
    }
    let ty = match PacketType::get_from_id(PacketId(id as u32, direction, stage)) {
        Ok(ty) => ty,
        Err(_) => {
            return Err(FatalError::UnknownPacket);
        },
    };
    Packet::read_from(ty, &body[n..body.len()])
}

} // verus!
