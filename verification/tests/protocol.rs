use magma::bridge::{
    disconnect_packet, read_frame, BridgeClient, BridgeServer, BridgeState, ClientState, ForwardMode,
    Reply, ServerState,
};
use magma::address::SocketAddress;
use magma::cryptor::Cryptor;
use magma::error::{CryptoError, Error, FramingError, ProtocolError};
use magma::io::ProtocolWriteExt;
use magma::packet::{CompressedPacket, Packet, UncompressedPacket};
use magma::protocol::{HandshakeResult, ProtocolState};

fn handshake_bytes(version: i32, host: &str, port: u16, next: i32) -> Vec<u8> {
    let mut data: Vec<u8> = Vec::new();
    data.write_var_int(version);
    assert_eq!(data.write_string(host.to_string()), Ok(()));
    data.write_u16(port);
    data.write_var_int(next);
    data
}

fn handshake_packet(version: i32, host: &str, port: u16, next: i32) -> UncompressedPacket {
    UncompressedPacket { id: 0, data: handshake_bytes(version, host, port, next) }
}

#[test]
fn state_numbers() {
    assert_eq!(ProtocolState::try_from(0), Ok(ProtocolState::Handshaking));
    assert_eq!(ProtocolState::try_from(1), Ok(ProtocolState::Status));
    assert_eq!(ProtocolState::try_from(2), Ok(ProtocolState::Login));
    assert_eq!(ProtocolState::try_from(3), Ok(ProtocolState::Play));
    assert_eq!(ProtocolState::try_from(4), Err(ProtocolError::InvalidNextState(4)));
    assert_eq!(ProtocolState::try_from(-1), Err(ProtocolError::InvalidNextState(-1)));
    assert_eq!(i32::from(ProtocolState::Handshaking), 0);
    assert_eq!(i32::from(ProtocolState::Status), 1);
    assert_eq!(i32::from(&ProtocolState::Login), 2);
    assert_eq!(i32::from(&ProtocolState::Play), 3);
    assert_eq!(ProtocolState::default(), ProtocolState::Handshaking);
    for state in [ProtocolState::Handshaking, ProtocolState::Status, ProtocolState::Login, ProtocolState::Play] {
        assert_eq!(ProtocolState::try_from(i32::from(state)), Ok(state));
    }
}

#[test]
fn handshake_is_parsed() {
    let packet = handshake_packet(761, "a.example.com", 25565, 1);
    assert_eq!(
        packet.data,
        vec![
            0xf9, 0x05, 13, b'a', b'.', b'e', b'x', b'a', b'm', b'p', b'l', b'e', b'.', b'c', b'o', b'm',
            0x63, 0xdd, 0x01
        ]
    );
    assert_eq!(
        HandshakeResult::parse(&packet),
        Ok(HandshakeResult {
            next_state: ProtocolState::Status,
            server_address: "a.example.com".to_string(),
            server_port: 25565,
            protocol_version: 761,
        })
    );
    let packet = handshake_packet(0, "", 0, 2);
    assert_eq!(
        HandshakeResult::parse(&packet),
        Ok(HandshakeResult {
            next_state: ProtocolState::Login,
            server_address: String::new(),
            server_port: 0,
            protocol_version: 0,
        })
    );
}

#[test]
fn handshake_ignores_what_follows_the_next_state() {
    let mut packet = handshake_packet(47, "h", 1, 2);
    packet.data.extend_from_slice(&[1, 2, 3]);
    assert_eq!(HandshakeResult::parse(&packet).unwrap().next_state, ProtocolState::Login);
}

#[test]
fn handshake_round_trip() {
    let handshake = HandshakeResult {
        next_state: ProtocolState::Login,
        server_address: "play.example.org".to_string(),
        server_port: 25577,
        protocol_version: 65535,
    };
    let packet = handshake.to_packet().unwrap();
    assert_eq!(packet.id, 0);
    assert_eq!(packet.data, handshake_bytes(65535, "play.example.org", 25577, 2));
    assert_eq!(HandshakeResult::parse(&packet), Ok(handshake));
}

#[test]
fn handshake_with_wrong_id() {
    let mut packet = handshake_packet(761, "a", 1, 1);
    packet.id = 1;
    assert_eq!(HandshakeResult::parse(&packet), Err(ProtocolError::InvalidPacketId(1)));
}

#[test]
fn handshake_with_invalid_next_state() {
    for next in [0, 3, 4, -1, 100] {
        let packet = handshake_packet(761, "a", 1, next);
        assert_eq!(HandshakeResult::parse(&packet), Err(ProtocolError::InvalidNextState(next)));
    }
}

#[test]
fn handshake_with_illegal_protocol_version() {
    let packet = handshake_packet(65536, "a", 1, 1);
    assert_eq!(HandshakeResult::parse(&packet), Err(ProtocolError::IllegalProtocolVersion(65536)));
    let packet = handshake_packet(-1, "a", 1, 2);
    assert_eq!(HandshakeResult::parse(&packet), Err(ProtocolError::IllegalProtocolVersion(-1)));
    // the next state is looked at first
    let packet = handshake_packet(-1, "a", 1, 7);
    assert_eq!(HandshakeResult::parse(&packet), Err(ProtocolError::InvalidNextState(7)));
}

#[test]
fn handshake_cut_short() {
    let whole = handshake_bytes(761, "a.example.com", 25565, 1);
    for cut in 0..whole.len() {
        let packet = UncompressedPacket { id: 0, data: whole[..cut].to_vec() };
        assert_eq!(
            HandshakeResult::parse(&packet),
            Err(ProtocolError::HandshakeFailed(FramingError::UnexpectedEof))
        );
    }
}

#[test]
fn handshake_with_bad_address() {
    let packet = UncompressedPacket { id: 0, data: vec![0x01, 0x02, 0xff, 0xfe, 0x00, 0x01, 0x01] };
    assert_eq!(
        HandshakeResult::parse(&packet),
        Err(ProtocolError::HandshakeFailed(FramingError::InvalidUtf8))
    );
    let packet = UncompressedPacket { id: 0, data: vec![0xff, 0xff, 0xff, 0xff, 0xff, 0xff] };
    assert_eq!(
        HandshakeResult::parse(&packet),
        Err(ProtocolError::HandshakeFailed(FramingError::VarIntTooLong))
    );
}

#[test]
fn server_moves_to_the_state_asked_for() {
    let mut server = BridgeServer::new();
    assert_eq!(server.state, ProtocolState::Handshaking);
    assert_eq!(server.cryptor, Cryptor::Uninitialized);
    let asked = server.handshake(&handshake_packet(761, "a.example.com", 25565, 1)).unwrap();
    assert_eq!(asked.next_state, ProtocolState::Status);
    assert_eq!(asked.server_address, "a.example.com");
    assert_eq!(server.state, ProtocolState::Status);
    let mut server = BridgeServer::new();
    server.handshake(&handshake_packet(761, "a.example.com", 25565, 2)).unwrap();
    assert_eq!(server.state, ProtocolState::Login);
}

#[test]
fn server_takes_one_handshake_only() {
    let mut server = BridgeServer::new();
    let packet = handshake_packet(761, "a.example.com", 25565, 1);
    assert!(server.handshake(&packet).is_ok());
    assert_eq!(server.handshake(&packet), Err(ProtocolError::InvalidPacketId(0)));
    assert_eq!(server.state, ProtocolState::Status);
}

#[test]
fn server_stays_handshaking_on_a_bad_handshake() {
    let mut server = BridgeServer::new();
    assert_eq!(
        server.handshake(&handshake_packet(761, "a", 1, 3)),
        Err(ProtocolError::InvalidNextState(3))
    );
    assert_eq!(server.state, ProtocolState::Handshaking);
    assert_eq!(
        server.handshake(&UncompressedPacket { id: 5, data: vec![] }),
        Err(ProtocolError::InvalidPacketId(5))
    );
    assert_eq!(server.state, ProtocolState::Handshaking);
}

#[test]
fn status_request_is_answered_with_the_document() {
    let server = BridgeServer { state: ProtocolState::Status, cryptor: Cryptor::Uninitialized };
    let reply = server
        .status(&UncompressedPacket { id: 0, data: vec![] }, "{\"description\":\"hi\"}".to_string())
        .unwrap();
    let mut expected: Vec<u8> = vec![20];
    expected.extend_from_slice(b"{\"description\":\"hi\"}");
    assert_eq!(reply, Reply { packet: UncompressedPacket { id: 0, data: expected }, close: false });
}

#[test]
fn ping_is_echoed_and_closes() {
    let server = BridgeServer { state: ProtocolState::Status, cryptor: Cryptor::Uninitialized };
    let nonce = vec![0xde, 0xad, 0xbe, 0xef, 0x00, 0x01, 0x02, 0x03];
    let reply = server.status(&UncompressedPacket { id: 1, data: nonce.clone() }, String::new()).unwrap();
    assert_eq!(reply, Reply { packet: UncompressedPacket { id: 1, data: nonce }, close: true });
    let long = vec![1, 2, 3, 4, 5, 6, 7, 8, 9, 10];
    let reply = server.status(&UncompressedPacket { id: 1, data: long }, String::new()).unwrap();
    assert_eq!(reply.packet.data, vec![1, 2, 3, 4, 5, 6, 7, 8]);
}

#[test]
fn status_errors() {
    let server = BridgeServer { state: ProtocolState::Status, cryptor: Cryptor::Uninitialized };
    assert_eq!(
        server.status(&UncompressedPacket { id: 1, data: vec![1, 2, 3] }, String::new()),
        Err(Error::Framing(FramingError::UnexpectedEof))
    );
    assert_eq!(
        server.status(&UncompressedPacket { id: 2, data: vec![] }, String::new()),
        Err(Error::Protocol(ProtocolError::InvalidPacketId(2)))
    );
    let server = BridgeServer { state: ProtocolState::Login, cryptor: Cryptor::Uninitialized };
    assert_eq!(
        server.status(&UncompressedPacket { id: 0, data: vec![] }, String::new()),
        Err(Error::Protocol(ProtocolError::InvalidPacketId(0)))
    );
}

#[test]
fn login_is_refused_with_a_reason() {
    let server = BridgeServer { state: ProtocolState::Login, cryptor: Cryptor::Uninitialized };
    let packet = server.login_disconnect("{\"text\":\"no\"}".to_string()).unwrap();
    let mut expected: Vec<u8> = vec![13];
    expected.extend_from_slice(b"{\"text\":\"no\"}");
    assert_eq!(packet, UncompressedPacket { id: 0, data: expected.clone() });
    assert_eq!(disconnect_packet("{\"text\":\"no\"}".to_string()), Ok(UncompressedPacket { id: 0, data: expected }));
}

#[test]
fn proxy_client_opens_a_login() {
    let client = BridgeClient::new(SocketAddress::new("192.168.1.20".to_string(), 25566));
    assert_eq!(client.cryptor, Cryptor::Uninitialized);
    let packet = client.handshake().unwrap();
    assert_eq!(packet.id, 0);
    assert_eq!(packet.data, handshake_bytes(761, "192.168.1.20", 25566, 2));
}

#[test]
fn bridge_state_starts_plain() {
    let state = BridgeState::from(ProtocolState::Login);
    assert_eq!(state.client.protocol_state, ProtocolState::Login);
    assert_eq!(state.server.protocol_state, ProtocolState::Login);
    assert!(!state.client.compressed);
    assert!(!state.server.compressed);
    assert_eq!(state.client.cryptor, Cryptor::Uninitialized);
}

#[test]
fn forwarding_by_state() {
    let mut server = ServerState { protocol_state: ProtocolState::Handshaking, compressed: false };
    assert_eq!(server.forward_mode(), None);
    server.protocol_state = ProtocolState::Status;
    assert_eq!(server.forward_mode(), Some(ForwardMode::Packets { compressed: false }));
    server.protocol_state = ProtocolState::Login;
    server.compressed = true;
    assert_eq!(server.forward_mode(), Some(ForwardMode::Packets { compressed: true }));
    server.protocol_state = ProtocolState::Play;
    assert_eq!(server.forward_mode(), Some(ForwardMode::Raw { encrypted: false }));

    let mut client = ClientState {
        protocol_state: ProtocolState::Handshaking,
        compressed: false,
        cryptor: Cryptor::Uninitialized,
    };
    assert_eq!(client.forward_mode(), None);
    client.protocol_state = ProtocolState::Status;
    assert_eq!(client.forward_mode(), Some(ForwardMode::Packets { compressed: false }));
    client.protocol_state = ProtocolState::Play;
    assert_eq!(client.forward_mode(), Some(ForwardMode::Raw { encrypted: false }));
    client.cryptor = Cryptor::new(&[7u8; 16]);
    assert_eq!(client.forward_mode(), Some(ForwardMode::Raw { encrypted: true }));
}

#[test]
fn play_without_encryption_passes_bytes_on() {
    let mut client = ClientState {
        protocol_state: ProtocolState::Play,
        compressed: false,
        cryptor: Cryptor::Uninitialized,
    };
    let mut data = [1u8, 2, 3, 4];
    assert_eq!(client.play(&mut data), Ok(Some(vec![1, 2, 3, 4])));
    assert_eq!(data, [1, 2, 3, 4]);
    assert_eq!(client.protocol_state, ProtocolState::Play);
}

#[test]
fn play_with_encryption_gathers_packets() {
    let key = [5u8; 16];
    let mut sender = Cryptor::new(&key);
    let cipher = sender.encrypt_packet(&[3, 0x10, 0x20, 0x30]).unwrap();
    let mut client = ClientState {
        protocol_state: ProtocolState::Play,
        compressed: false,
        cryptor: Cryptor::new(&key),
    };
    assert_eq!(client.play(&mut cipher[..2].to_vec()), Ok(None));
    assert_eq!(client.play(&mut cipher[2..].to_vec()), Ok(Some(vec![0x10, 0x20, 0x30])));
    let mut garbage = sender.encrypt_packet(&[0xff; 6]).unwrap();
    assert_eq!(client.play(&mut garbage), Err(CryptoError::DecryptFailed));
}

#[test]
fn frames_come_off_the_head_of_the_input() {
    let input = [2u8, 0x00, 0x07, 2, 0x01];
    assert_eq!(
        read_frame(&input, false),
        Ok(Some((Packet::Uncompressed(UncompressedPacket { id: 0, data: vec![7] }), 3)))
    );
    assert_eq!(read_frame(&input[3..], false), Ok(None));
    assert_eq!(read_frame(&[], false), Ok(None));
    assert_eq!(read_frame(&[0], false), Err(FramingError::EmptyPacket));
    assert_eq!(
        read_frame(&[3, 0, 5, 6, 9], true),
        Ok(Some((
            Packet::Compressed(CompressedPacket { packet_length: 3, data_length: 0, compressed_data: vec![5, 6] }),
            4
        )))
    );
    assert_eq!(read_frame(&[3, 0, 5], true), Ok(None));
    assert_eq!(read_frame(&[0xff; 6], true), Err(FramingError::VarIntTooLong));
}
