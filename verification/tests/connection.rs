use packet_framing::connection::ConnectionIOManager;
use packet_framing::error::{FatalError, MAX_PACKET_LENGTH};
use packet_framing::frame::encode_frame;
use packet_framing::packet::{
    encode_packet, HandshakeState, Packet, PacketDirection, PacketStage,
};
use packet_framing::varint::write_var_int;

fn key() -> [u8; 16] {
    [0, 1, 2, 3, 4, 5, 6, 7, 8, 9, 10, 11, 12, 13, 14, 15]
}

fn handshake_and_request() -> Vec<u8> {
    vec![
        0x10, 0x00, 0xF2, 0x05, 0x09, 0x6C, 0x6F, 0x63, 0x61, 0x6C, 0x68, 0x6F, 0x73, 0x74, 0x63,
        0xDD, 0x01, 0x01, 0x00,
    ]
}

fn handshake(next_state: HandshakeState) -> Packet {
    Packet::Handshake {
        protocol_version: 754,
        server_address: "localhost".to_string(),
        server_port: 25565,
        next_state,
    }
}

fn samples() -> Vec<Packet> {
    vec![
        handshake(HandshakeState::Status),
        handshake(HandshakeState::Login),
        Packet::Request,
        Packet::Ping { payload: 1234567890123 },
        Packet::Response { json_response: "{\"description\":\"hi\"}".to_string() },
        Packet::Pong { payload: -5 },
        Packet::LoginStart { username: "Bob".to_string() },
        Packet::DisconnectLogin { reason: "full".to_string() },
        Packet::LoginSuccess {
            uuid: "123e4567-e89b-12d3-a456-426614174000".to_string(),
            username: "Bob".to_string(),
        },
        Packet::SetCompression { threshold: 256 },
        Packet::ChatMessageServerbound { message: "a".repeat(200) },
        Packet::KeepAliveServerbound { id: i64::MIN },
        Packet::DisconnectPlay { reason: "bla".to_string() },
        Packet::KeepAliveClientbound { id: i64::MAX },
    ]
}

fn opposite(direction: PacketDirection) -> PacketDirection {
    match direction {
        PacketDirection::Clientbound => PacketDirection::Serverbound,
        PacketDirection::Serverbound => PacketDirection::Clientbound,
    }
}

/// A sender that encodes `packet` and a receiver that expects it.
fn pair_for(packet: &Packet) -> (ConnectionIOManager, ConnectionIOManager) {
    let id = packet.ty().get_id();
    let mut sender = ConnectionIOManager::new(opposite(id.1));
    sender.set_stage(id.2);
    let mut receiver = ConnectionIOManager::new(id.1);
    receiver.set_stage(id.2);
    (sender, receiver)
}

fn stage_after_accept(packet: &Packet) -> PacketStage {
    match packet {
        Packet::Handshake { next_state: HandshakeState::Status, .. } => PacketStage::Status,
        Packet::Handshake { next_state: HandshakeState::Login, .. } => PacketStage::Login,
        other => other.ty().get_id().2,
    }
}

fn body_of(packet: &Packet) -> Vec<u8> {
    let mut out = Vec::new();
    encode_packet(packet, &mut out);
    out
}

#[test]
fn new_manager_is_in_the_handshake_stage() {
    let mut manager = ConnectionIOManager::new(PacketDirection::Serverbound);
    assert_eq!(manager.stage(), PacketStage::Handshake);
    assert_eq!(manager.direction(), PacketDirection::Serverbound);
    assert_eq!(manager.pending_bytes(), 0);
    assert!(manager.take_pending_packets().is_empty());
    let manager = ConnectionIOManager::new(PacketDirection::Clientbound);
    assert_eq!(manager.direction(), PacketDirection::Clientbound);
}

#[test]
fn set_stage_sets_the_stage() {
    let mut manager = ConnectionIOManager::new(PacketDirection::Serverbound);
    let stages =
        [PacketStage::Play, PacketStage::Login, PacketStage::Status, PacketStage::Handshake];
    for stage in stages {
        manager.set_stage(stage);
        assert_eq!(manager.stage(), stage);
    }
}

#[test]
fn handshake_then_status_request() {
    let mut manager = ConnectionIOManager::new(PacketDirection::Serverbound);
    assert_eq!(manager.accept_data(&handshake_and_request()), Ok(()));
    let packets = manager.take_pending_packets();
    assert_eq!(packets, vec![handshake(HandshakeState::Status), Packet::Request]);
    assert_eq!(manager.stage(), PacketStage::Status);
    assert_eq!(manager.pending_bytes(), 0);
    assert!(manager.take_pending_packets().is_empty());
}

#[test]
fn handshake_then_status_request_split_at_every_offset() {
    let stream = handshake_and_request();
    for cut in 1..stream.len() {
        let mut manager = ConnectionIOManager::new(PacketDirection::Serverbound);
        assert_eq!(manager.accept_data(&stream[..cut]), Ok(()));
        assert_eq!(manager.accept_data(&stream[cut..]), Ok(()));
        assert_eq!(
            manager.take_pending_packets(),
            vec![handshake(HandshakeState::Status), Packet::Request]
        );
        assert_eq!(manager.stage(), PacketStage::Status);
        assert_eq!(manager.pending_bytes(), 0);
    }
}

#[test]
fn handshake_then_status_request_byte_by_byte() {
    let stream = handshake_and_request();
    let mut manager = ConnectionIOManager::new(PacketDirection::Serverbound);
    for (i, byte) in stream.iter().enumerate() {
        assert_eq!(manager.accept_data(&[*byte]), Ok(()));
        if i + 1 < 17 {
            assert_eq!(manager.stage(), PacketStage::Handshake);
            assert_eq!(manager.pending_bytes(), i + 1);
        }
    }
    assert_eq!(
        manager.take_pending_packets(),
        vec![handshake(HandshakeState::Status), Packet::Request]
    );
    assert_eq!(manager.pending_bytes(), 0);
}

#[test]
fn serialized_handshake_is_the_known_frame() {
    let mut client = ConnectionIOManager::new(PacketDirection::Clientbound);
    let bytes = client.serialize_packet(handshake(HandshakeState::Status));
    assert_eq!(bytes.inner(), &handshake_and_request()[..17]);
    assert_eq!(bytes.read_pos(), 0);
    let bytes = client.serialize_packet(Packet::Request);
    assert_eq!(bytes.inner(), &[0x01, 0x00]);
}

#[test]
fn round_trip_plain_for_every_packet() {
    for packet in samples() {
        let (mut sender, mut receiver) = pair_for(&packet);
        let bytes = sender.serialize_packet(packet.clone());
        let mut expected = Vec::new();
        write_var_int(body_of(&packet).len() as i32, &mut expected);
        expected.extend_from_slice(&body_of(&packet));
        assert_eq!(bytes.to_vec(), expected);
        assert_eq!(receiver.accept_data(bytes.inner()), Ok(()));
        assert_eq!(receiver.take_pending_packets(), vec![packet.clone()]);
        assert_eq!(receiver.pending_bytes(), 0);
        assert_eq!(receiver.stage(), stage_after_accept(&packet));
    }
}

#[test]
fn round_trip_compressed_below_the_threshold() {
    for packet in samples() {
        let (mut sender, mut receiver) = pair_for(&packet);
        sender.enable_compression(4096);
        receiver.enable_compression(4096);
        let body = body_of(&packet);
        let bytes = sender.serialize_packet(packet.clone()).to_vec();
        let mut expected = Vec::new();
        write_var_int(body.len() as i32 + 1, &mut expected);
        expected.push(0);
        expected.extend_from_slice(&body);
        assert_eq!(bytes, expected);
        assert_eq!(receiver.accept_data(&bytes), Ok(()));
        assert_eq!(receiver.take_pending_packets(), vec![packet]);
        assert_eq!(receiver.pending_bytes(), 0);
    }
}

#[test]
fn small_packet_with_threshold_256() {
    let mut sender = ConnectionIOManager::new(PacketDirection::Clientbound);
    sender.enable_compression(256);
    let packet = Packet::LoginStart { username: "ab".to_string() };
    assert_eq!(body_of(&packet), vec![0x00, 0x02, b'a', b'b']);
    let bytes = sender.serialize_packet(packet);
    assert_eq!(bytes.inner(), &[0x05, 0x00, 0x00, 0x02, b'a', b'b']);
}

#[test]
fn round_trip_compressed_above_the_threshold() {
    for packet in samples() {
        let (mut sender, mut receiver) = pair_for(&packet);
        sender.enable_compression(0);
        receiver.enable_compression(0);
        let body = body_of(&packet);
        let bytes = sender.serialize_packet(packet.clone()).to_vec();
        assert_eq!(bytes, encode_frame(&body, true, 0));
        // Behind the frame length stands the length of the body before deflation.
        assert_eq!(bytes[0] as usize, bytes.len() - 1);
        let mut size = Vec::new();
        write_var_int(body.len() as i32, &mut size);
        assert_eq!(&bytes[1..1 + size.len()], &size[..]);
        assert_ne!(&bytes[1 + size.len()..], &body[..]);
        assert_eq!(receiver.accept_data(&bytes), Ok(()));
        assert_eq!(receiver.take_pending_packets(), vec![packet]);
        assert_eq!(receiver.pending_bytes(), 0);
    }
}

#[test]
fn large_packet_with_threshold_16() {
    let packet = Packet::ChatMessageServerbound { message: "\0".repeat(98) };
    let body = body_of(&packet);
    assert_eq!(body.len(), 100);
    assert_eq!(body[0], 0x02);
    assert_eq!(body[1], 98);
    assert!(body[2..].iter().all(|b| *b == 0));
    let (mut sender, mut receiver) = pair_for(&packet);
    sender.enable_compression(16);
    receiver.enable_compression(16);
    let bytes = sender.serialize_packet(packet.clone()).to_vec();
    assert_eq!(bytes[0] as usize, bytes.len() - 1);
    assert_eq!(bytes[1], 100);
    assert!(bytes.len() < 100);
    assert_eq!(receiver.accept_data(&bytes), Ok(()));
    assert_eq!(receiver.take_pending_packets(), vec![packet]);
}

#[test]
fn encrypted_login_start() {
    let mut client = ConnectionIOManager::new(PacketDirection::Clientbound);
    let mut server = ConnectionIOManager::new(PacketDirection::Serverbound);
    client.set_stage(PacketStage::Login);
    server.set_stage(PacketStage::Login);
    client.enable_encryption(key());
    server.enable_encryption(key());
    let packet = Packet::LoginStart { username: "Bob".to_string() };
    let bytes = client.serialize_packet(packet.clone()).to_vec();
    assert_eq!(bytes.len(), 6);
    assert_ne!(bytes, vec![0x05, 0x00, 0x03, b'B', b'o', b'b']);
    assert_eq!(server.accept_data(&bytes), Ok(()));
    assert_eq!(server.take_pending_packets(), vec![packet]);
    assert_eq!(server.pending_bytes(), 0);
    assert_eq!(client.pending_bytes(), 0);
}

#[test]
fn encrypted_stream_of_packets_in_both_directions() {
    let mut client = ConnectionIOManager::new(PacketDirection::Clientbound);
    let mut server = ConnectionIOManager::new(PacketDirection::Serverbound);
    client.set_stage(PacketStage::Play);
    server.set_stage(PacketStage::Play);
    client.enable_encryption(key());
    server.enable_encryption(key());
    client.enable_compression(32);
    server.enable_compression(32);
    for round in 0..20i64 {
        let up = vec![
            Packet::KeepAliveServerbound { id: round },
            Packet::ChatMessageServerbound { message: "hello ".repeat(round as usize) },
        ];
        for packet in up {
            let bytes = client.serialize_packet(packet.clone()).to_vec();
            assert_eq!(server.accept_data(&bytes), Ok(()));
            assert_eq!(server.take_pending_packets(), vec![packet]);
        }
        let down = vec![
            Packet::KeepAliveClientbound { id: -round },
            Packet::DisconnectPlay { reason: "x".repeat(3 * round as usize) },
        ];
        for packet in down {
            let bytes = server.serialize_packet(packet.clone()).to_vec();
            assert_eq!(client.accept_data(&bytes), Ok(()));
            assert_eq!(client.take_pending_packets(), vec![packet]);
        }
    }
    assert_eq!(server.pending_bytes(), 0);
    assert_eq!(client.pending_bytes(), 0);
}

#[test]
fn encryption_keeps_the_length_and_changes_the_bytes() {
    let packet = Packet::ChatMessageServerbound { message: "same length".to_string() };
    let mut plain = ConnectionIOManager::new(PacketDirection::Clientbound);
    let mut secret = ConnectionIOManager::new(PacketDirection::Clientbound);
    secret.enable_encryption(key());
    let a = plain.serialize_packet(packet.clone()).to_vec();
    let b = secret.serialize_packet(packet.clone()).to_vec();
    assert_eq!(a.len(), b.len());
    assert_ne!(a, b);
    // The stream goes on: the same packet gives other bytes the second time.
    let c = secret.serialize_packet(packet).to_vec();
    assert_eq!(c.len(), b.len());
    assert_ne!(c, b);
}

#[test]
fn a_wrong_key_does_not_deliver_the_packet() {
    let mut client = ConnectionIOManager::new(PacketDirection::Clientbound);
    let mut server = ConnectionIOManager::new(PacketDirection::Serverbound);
    client.set_stage(PacketStage::Login);
    server.set_stage(PacketStage::Login);
    client.enable_encryption(key());
    server.enable_encryption([9u8; 16]);
    let packet = Packet::LoginStart { username: "Bob".to_string() };
    let bytes = client.serialize_packet(packet.clone()).to_vec();
    let _ = server.accept_data(&bytes);
    assert_ne!(server.take_pending_packets(), vec![packet]);
}

#[test]
fn every_partition_into_three_gives_the_same_packets() {
    let mut sender = ConnectionIOManager::new(PacketDirection::Clientbound);
    let mut stream = Vec::new();
    let packets = vec![
        handshake(HandshakeState::Login),
        Packet::LoginStart { username: "Bob".to_string() },
    ];
    for packet in packets.iter() {
        stream.extend_from_slice(sender.serialize_packet(packet.clone()).inner());
    }
    let mut whole = ConnectionIOManager::new(PacketDirection::Serverbound);
    assert_eq!(whole.accept_data(&stream), Ok(()));
    assert_eq!(whole.take_pending_packets(), packets);
    for first in 0..=stream.len() {
        for second in first..=stream.len() {
            let mut manager = ConnectionIOManager::new(PacketDirection::Serverbound);
            assert_eq!(manager.accept_data(&stream[..first]), Ok(()));
            assert_eq!(manager.accept_data(&stream[first..second]), Ok(()));
            assert_eq!(manager.accept_data(&stream[second..]), Ok(()));
            assert_eq!(manager.take_pending_packets(), packets);
            assert_eq!(manager.stage(), PacketStage::Login);
            assert_eq!(manager.pending_bytes(), 0);
        }
    }
}

#[test]
fn every_split_of_an_encrypted_compressed_stream_gives_the_same_packets() {
    let packets = vec![
        Packet::KeepAliveServerbound { id: 77 },
        Packet::ChatMessageServerbound { message: "hello ".repeat(30) },
        Packet::KeepAliveServerbound { id: -1 },
    ];
    let mut sender = ConnectionIOManager::new(PacketDirection::Clientbound);
    sender.enable_encryption(key());
    sender.enable_compression(64);
    let mut stream = Vec::new();
    for packet in packets.iter() {
        stream.extend_from_slice(sender.serialize_packet(packet.clone()).inner());
    }
    for cut in 0..=stream.len() {
        let mut receiver = ConnectionIOManager::new(PacketDirection::Serverbound);
        receiver.set_stage(PacketStage::Play);
        receiver.enable_encryption(key());
        receiver.enable_compression(64);
        assert_eq!(receiver.accept_data(&stream[..cut]), Ok(()));
        assert_eq!(receiver.accept_data(&stream[cut..]), Ok(()));
        assert_eq!(receiver.take_pending_packets(), packets);
        assert_eq!(receiver.pending_bytes(), 0);
    }
}

#[test]
fn partial_frame_stays_in_the_raw_buffer() {
    let mut manager = ConnectionIOManager::new(PacketDirection::Serverbound);
    manager.set_stage(PacketStage::Login);
    assert_eq!(manager.accept_data(&[0x05, 0x00, 0x03]), Ok(()));
    assert_eq!(manager.pending_bytes(), 3);
    assert!(manager.take_pending_packets().is_empty());
    assert_eq!(manager.accept_data(&[b'B', b'o']), Ok(()));
    assert_eq!(manager.pending_bytes(), 5);
    assert_eq!(manager.accept_data(&[b'b', 0x05]), Ok(()));
    assert_eq!(manager.pending_bytes(), 1);
    assert_eq!(
        manager.take_pending_packets(),
        vec![Packet::LoginStart { username: "Bob".to_string() }]
    );
}

#[test]
fn empty_chunk_changes_nothing() {
    let mut manager = ConnectionIOManager::new(PacketDirection::Serverbound);
    assert_eq!(manager.accept_data(&[]), Ok(()));
    assert_eq!(manager.pending_bytes(), 0);
    assert_eq!(manager.stage(), PacketStage::Handshake);
    assert!(manager.take_pending_packets().is_empty());
}

#[test]
fn handshake_to_login_switches_the_registry_within_one_chunk() {
    let mut client = ConnectionIOManager::new(PacketDirection::Clientbound);
    let mut stream = client.serialize_packet(handshake(HandshakeState::Login)).to_vec();
    // In the login stage id 0 is a login start; in the status stage it would be a request.
    stream.extend_from_slice(&[0x05, 0x00, 0x03, b'B', b'o', b'b']);
    let mut server = ConnectionIOManager::new(PacketDirection::Serverbound);
    assert_eq!(server.accept_data(&stream), Ok(()));
    assert_eq!(server.stage(), PacketStage::Login);
    assert_eq!(
        server.take_pending_packets(),
        vec![handshake(HandshakeState::Login), Packet::LoginStart { username: "Bob".to_string() }]
    );
}

#[test]
fn handshake_to_status_switches_the_registry_within_one_chunk() {
    let mut client = ConnectionIOManager::new(PacketDirection::Clientbound);
    let mut stream = client.serialize_packet(handshake(HandshakeState::Status)).to_vec();
    stream.extend_from_slice(&[0x09, 0x01, 0, 0, 0, 0, 0, 0, 0, 42]);
    let mut server = ConnectionIOManager::new(PacketDirection::Serverbound);
    assert_eq!(server.accept_data(&stream), Ok(()));
    assert_eq!(server.stage(), PacketStage::Status);
    assert_eq!(
        server.take_pending_packets(),
        vec![handshake(HandshakeState::Status), Packet::Ping { payload: 42 }]
    );
}

#[test]
fn login_success_switches_to_play() {
    let mut server = ConnectionIOManager::new(PacketDirection::Serverbound);
    server.set_stage(PacketStage::Login);
    let success =
        Packet::LoginSuccess { uuid: "some-uuid".to_string(), username: "Bob".to_string() };
    let bytes = server.serialize_packet(success.clone()).to_vec();
    assert_eq!(server.stage(), PacketStage::Play);
    // The next packet is read with the play registry: id 0x0e is a keep-alive there.
    assert_eq!(server.accept_data(&[0x09, 0x0e, 0, 0, 0, 0, 0, 0, 0, 7]), Ok(()));
    assert_eq!(server.take_pending_packets(), vec![Packet::KeepAliveServerbound { id: 7 }]);
    // The other end reads the login success in the login stage and stays there.
    let mut client = ConnectionIOManager::new(PacketDirection::Clientbound);
    client.set_stage(PacketStage::Login);
    assert_eq!(client.accept_data(&bytes), Ok(()));
    assert_eq!(client.take_pending_packets(), vec![success]);
    assert_eq!(client.stage(), PacketStage::Login);
}

#[test]
fn other_packets_leave_the_stage() {
    for packet in samples() {
        let (mut sender, _) = pair_for(&packet);
        let before = sender.stage();
        let is_login_success = matches!(packet, Packet::LoginSuccess { .. });
        sender.serialize_packet(packet);
        if is_login_success {
            assert_eq!(sender.stage(), PacketStage::Play);
        } else {
            assert_eq!(sender.stage(), before);
        }
    }
}

#[test]
fn unknown_packet_id_in_play() {
    let mut manager = ConnectionIOManager::new(PacketDirection::Serverbound);
    manager.set_stage(PacketStage::Play);
    // A frame of three bytes whose id is 0xFFFF.
    let frame = vec![0x03, 0xFF, 0xFF, 0x03];
    assert_eq!(manager.accept_data(&frame), Err(FatalError::UnknownPacket));
    assert!(manager.take_pending_packets().is_empty());
}

#[test]
fn packets_before_a_failure_are_kept() {
    let mut manager = ConnectionIOManager::new(PacketDirection::Serverbound);
    let mut stream = handshake_and_request();
    stream.extend_from_slice(&[0x01, 0x05]);
    assert_eq!(manager.accept_data(&stream), Err(FatalError::UnknownPacket));
    assert_eq!(
        manager.take_pending_packets(),
        vec![handshake(HandshakeState::Status), Packet::Request]
    );
}

#[test]
fn malformed_payload() {
    let mut manager = ConnectionIOManager::new(PacketDirection::Serverbound);
    // A handshake that asks for state 3.
    let mut stream = handshake_and_request();
    stream[16] = 0x03;
    assert_eq!(manager.accept_data(&stream[..17]), Err(FatalError::MalformedPayload));
    assert_eq!(manager.stage(), PacketStage::Handshake);
    // A ping that is too short.
    let mut manager = ConnectionIOManager::new(PacketDirection::Serverbound);
    manager.set_stage(PacketStage::Status);
    assert_eq!(manager.accept_data(&[0x02, 0x01, 0x00]), Err(FatalError::MalformedPayload));
}

#[test]
fn malformed_frame() {
    // Five continuation bytes in the length.
    let mut manager = ConnectionIOManager::new(PacketDirection::Serverbound);
    assert_eq!(
        manager.accept_data(&[0x80, 0x80, 0x80, 0x80, 0x80]),
        Err(FatalError::MalformedFrame)
    );
    // A negative length.
    let mut manager = ConnectionIOManager::new(PacketDirection::Serverbound);
    assert_eq!(
        manager.accept_data(&[0xff, 0xff, 0xff, 0xff, 0x0f]),
        Err(FatalError::MalformedFrame)
    );
    // A length over the cap.
    let mut manager = ConnectionIOManager::new(PacketDirection::Serverbound);
    let mut over = Vec::new();
    write_var_int((MAX_PACKET_LENGTH + 1) as i32, &mut over);
    assert_eq!(manager.accept_data(&over), Err(FatalError::MalformedFrame));
    // A frame without an id.
    let mut manager = ConnectionIOManager::new(PacketDirection::Serverbound);
    assert_eq!(manager.accept_data(&[0x00]), Err(FatalError::MalformedFrame));
    // Compressed data that does not inflate to the announced size.
    let mut manager = ConnectionIOManager::new(PacketDirection::Serverbound);
    manager.enable_compression(0);
    assert_eq!(manager.accept_data(&[0x04, 0x09, 1, 2, 3]), Err(FatalError::MalformedFrame));
}

#[test]
fn four_continuation_bytes_are_only_incomplete() {
    let mut manager = ConnectionIOManager::new(PacketDirection::Serverbound);
    assert_eq!(manager.accept_data(&[0x80, 0x80, 0x80, 0x80]), Ok(()));
    assert_eq!(manager.pending_bytes(), 4);
    assert_eq!(manager.accept_data(&[0x80]), Err(FatalError::MalformedFrame));
}

#[test]
fn take_pending_packets_keeps_the_order_and_empties_the_inbox() {
    let mut manager = ConnectionIOManager::new(PacketDirection::Serverbound);
    manager.set_stage(PacketStage::Play);
    let mut client = ConnectionIOManager::new(PacketDirection::Clientbound);
    let mut expected = Vec::new();
    for id in 0..10i64 {
        let packet = Packet::KeepAliveServerbound { id };
        let bytes = client.serialize_packet(packet.clone()).to_vec();
        assert_eq!(manager.accept_data(&bytes), Ok(()));
        expected.push(packet);
    }
    assert_eq!(manager.take_pending_packets(), expected);
    assert!(manager.take_pending_packets().is_empty());
}

#[test]
fn compression_can_be_enabled_in_the_middle_of_a_connection() {
    let mut client = ConnectionIOManager::new(PacketDirection::Clientbound);
    let mut server = ConnectionIOManager::new(PacketDirection::Serverbound);
    server.set_stage(PacketStage::Play);
    let first = Packet::KeepAliveServerbound { id: 1 };
    let bytes = client.serialize_packet(first.clone()).to_vec();
    assert_eq!(bytes.len(), 10);
    assert_eq!(server.accept_data(&bytes), Ok(()));
    client.enable_compression(1);
    server.enable_compression(1);
    let second = Packet::KeepAliveServerbound { id: 2 };
    let bytes = client.serialize_packet(second.clone()).to_vec();
    assert_eq!(bytes[1], 9);
    assert_eq!(server.accept_data(&bytes), Ok(()));
    assert_eq!(server.take_pending_packets(), vec![first, second]);
}

#[test]
fn a_large_packet_within_the_cap_goes_through() {
    let packet = Packet::ChatMessageServerbound { message: "abcdefgh".repeat(128 * 1024) };
    for threshold in [None, Some(256)] {
        let (mut sender, mut receiver) = pair_for(&packet);
        if let Some(threshold) = threshold {
            sender.enable_compression(threshold);
            receiver.enable_compression(threshold);
        }
        let bytes = sender.serialize_packet(packet.clone()).to_vec();
        let (first, second) = bytes.split_at(bytes.len() / 2);
        assert_eq!(receiver.accept_data(first), Ok(()));
        assert!(receiver.pending_bytes() < 5 + MAX_PACKET_LENGTH);
        assert_eq!(receiver.accept_data(second), Ok(()));
        assert_eq!(receiver.take_pending_packets(), vec![packet.clone()]);
        assert_eq!(receiver.pending_bytes(), 0);
    }
}

#[test]
fn a_packet_over_the_cap_is_rejected_by_the_receiver() {
    let packet = Packet::ChatMessageServerbound { message: "x".repeat(3 * 1024 * 1024) };
    let (mut sender, mut receiver) = pair_for(&packet);
    let bytes = sender.serialize_packet(packet).to_vec();
    assert!(bytes.len() > MAX_PACKET_LENGTH);
    assert_eq!(receiver.accept_data(&bytes), Err(FatalError::MalformedFrame));
    assert!(receiver.take_pending_packets().is_empty());
}
