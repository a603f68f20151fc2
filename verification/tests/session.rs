use minecraft_protocol::arrays::CountedArray;
use minecraft_protocol::basic::UUID;
use minecraft_protocol::fixed::{Float, Int, UnsignedByte, UnsignedShort};
use minecraft_protocol::framing::FrameError;
use minecraft_protocol::ids::{Phase, IDS};
use minecraft_protocol::minecraft_server::{MinecraftServer, Packet, SessionError};
use minecraft_protocol::packets::login::{EncryptionRequest, Handshake, LoginStart};
use minecraft_protocol::packets::serverbound::{ChatMessageServerbound, KeepAliveServerbound, Spectate, UseEntity};
use minecraft_protocol::packets::world::{BlockChangeRecord, MultiBlockChange};
use minecraft_protocol::packets::{ClientboundPacket, ServerboundPacket};
use minecraft_protocol::session::{MinecraftSever, Reaction, Received};
use minecraft_protocol::text::VarString;
use minecraft_protocol::varint::VarInt;
use minecraft_protocol::wire::Wire;

fn handshake() -> Handshake {
    Handshake::new(VarInt(47), VarString("localhost".to_string()), UnsignedShort(25565), VarInt(2))
}

const HANDSHAKE_BODY: [u8; 15] = [
    0x00, 0x2F, 0x09, 0x6C, 0x6F, 0x63, 0x61, 0x6C, 0x68, 0x6F, 0x73, 0x74, 0x63, 0xDD, 0x02,
];

fn in_login() -> MinecraftSever {
    let mut session = MinecraftSever::connect();
    session.set_state(Phase::Login).unwrap();
    session
}

fn in_play() -> MinecraftSever {
    let mut session = MinecraftSever::connect();
    session.set_state(Phase::Play).unwrap();
    session
}

#[test]
fn handshake_then_login_start() {
    let mut session = MinecraftSever::connect();
    assert_eq!(session.state(), Phase::Handshaking);
    assert_eq!(session.compression_threshold(), -1);
    assert!(!session.is_encrypted());
    let first = session.send_packet(handshake()).unwrap();
    let mut expected = vec![0x0F];
    expected.extend(HANDSHAKE_BODY);
    assert_eq!(first, expected);
    session.set_state(Phase::Login).unwrap();
    let second = session.send_packet(LoginStart::new(VarString("Player".to_string()))).unwrap();
    assert_eq!(second, vec![0x08, 0x00, 0x06, 0x50, 0x6C, 0x61, 0x79, 0x65, 0x72]);
}

#[test]
fn set_compression_received_then_small_packet_is_escaped() {
    let mut session = in_login();
    let (received, n) = session.read_and_parse_packet(&[0x03, 0x03, 0x80, 0x02]).unwrap();
    assert_eq!(n, 4);
    assert_eq!(received, Received::Known { id: IDS::SetCompressionLogin, payload: vec![0x80, 0x02] });
    assert_eq!(session.react(&received), Ok(Reaction::Nothing));
    assert_eq!(session.compression_threshold(), 256);

    // a packet below the threshold goes out behind a zero data length
    let bytes = session.send_packet(LoginStart::new(VarString("Player".to_string()))).unwrap();
    assert_eq!(bytes, vec![0x09, 0x00, 0x00, 0x06, 0x50, 0x6C, 0x61, 0x79, 0x65, 0x72]);

    // and so does the body of a handshake, on the transport
    let mut transport = MinecraftServer::new();
    transport.set_compression(256).unwrap();
    let raw = Packet { id: 0x00, data: HANDSHAKE_BODY[1..].to_vec() };
    let bytes = transport.send_packet(&raw).unwrap();
    let mut expected = vec![16, 0x00];
    expected.extend(HANDSHAKE_BODY);
    assert_eq!(bytes, expected);
}

#[test]
fn keep_alive_is_echoed() {
    let mut session = in_play();
    let (received, n) = session.read_and_parse_packet(&[0x04, 0x00, 0xAD, 0xBD, 0x03, 0x55]).unwrap();
    assert_eq!(n, 5);
    assert_eq!(received, Received::Known { id: IDS::KeepAliveClientbound, payload: vec![0xAD, 0xBD, 0x03] });
    let reaction = session.react(&received).unwrap();
    assert_eq!(reaction, Reaction::Reply(vec![0x04, 0x00, 0xAD, 0xBD, 0x03]));
    assert_eq!(
        session.send_packet(KeepAliveServerbound::new(VarInt(0xDEAD))),
        Ok(vec![0x04, 0x00, 0xAD, 0xBD, 0x03])
    );
}

#[test]
fn disconnect_during_login_ends_the_session() {
    let mut session = in_login();
    let reason = "{\"text\":\"bye\"}";
    let mut frame = vec![(2 + reason.len()) as u8, 0x00, reason.len() as u8];
    frame.extend(reason.bytes());
    let (received, _) = session.read_and_parse_packet(&frame).unwrap();
    assert!(matches!(received, Received::Known { id: IDS::DisconnectLogin, .. }));
    assert!(!session.is_closed());
    assert_eq!(session.react(&received), Ok(Reaction::Disconnected(reason.to_string())));
    assert!(session.is_closed());
    assert_eq!(
        session.send_packet(LoginStart::new(VarString("Player".to_string()))),
        Err(SessionError::Closed)
    );
    // the phase is not gone back through either
    assert_eq!(session.state(), Phase::Login);
}

#[test]
fn disconnect_during_play_ends_the_session() {
    let mut session = in_play();
    let received = Received::Known { id: IDS::DisconnectPlayClientbound, payload: vec![2, b'{', b'}'] };
    assert_eq!(session.react(&received), Ok(Reaction::Disconnected("{}".to_string())));
    assert!(session.is_closed());
    assert_eq!(
        session.send_packet(ChatMessageServerbound::new(VarString("hi".to_string()))),
        Err(SessionError::Closed)
    );
}

fn multi_block_change() -> MultiBlockChange {
    let records = (0..40u8)
        .map(|i| BlockChangeRecord {
            horizontal_position: UnsignedByte(i),
            y_coordinate: UnsignedByte(64),
            block_id: VarInt(16 * i as i32 + 1),
        })
        .collect();
    MultiBlockChange { chunk_x: Int(-3), chunk_z: Int(7), records: CountedArray { elements: records } }
}

#[test]
fn encrypted_multi_block_change() {
    let secret: Vec<u8> = (100u8..116).collect();
    for threshold in [-1, 16, 4096] {
        let packet = multi_block_change();
        let mut fields = Vec::new();
        packet.encode(&mut fields);

        let mut server = MinecraftServer::new();
        server.set_compression(threshold).unwrap();
        server.install_cipher(&secret).unwrap();
        let wire = server.send_packet(&Packet { id: 0x22, data: fields.clone() }).unwrap();

        let mut session = in_play();
        session.set_compression(threshold).unwrap();
        session.install_cipher(&secret).unwrap();
        assert!(session.is_encrypted());

        // the bytes on the wire are no frame as they are
        let mut clear = wire.clone();
        assert_ne!(session.read_and_parse_packet(&clear).map(|(r, _)| r), Ok(Received::Known { id: IDS::MultiBlockChange, payload: fields.clone() }));
        session.decrypt(&mut clear);
        let (received, n) = session.read_and_parse_packet(&clear).unwrap();
        assert_eq!(n, clear.len());
        match received {
            Received::Known { id, payload } => {
                assert_eq!(id, IDS::MultiBlockChange);
                assert_eq!(MultiBlockChange::parse(&payload), Ok(multi_block_change()));
            }
            other => panic!("unexpected {:?}", other),
        }
    }
}

#[test]
fn encrypted_stream_in_pieces() {
    let secret = [9u8; 16];
    let mut server = MinecraftServer::new();
    server.install_cipher(&secret).unwrap();
    let mut wire = server.send_packet(&Packet { id: 0x00, data: vec![0x05] }).unwrap();
    wire.extend(server.send_packet(&Packet { id: 0x00, data: vec![0x06] }).unwrap());

    let mut session = in_play();
    session.install_cipher(&secret).unwrap();
    let mut clear = Vec::new();
    for byte in wire {
        let mut piece = vec![byte];
        session.decrypt(&mut piece);
        clear.extend(piece);
    }
    assert_eq!(clear, vec![2, 0, 5, 2, 0, 6]);
}

#[test]
fn use_entity_conditional_fields() {
    let zero = Float(0);
    let plain = UseEntity::new(VarInt(300), VarInt(0), zero, zero, zero);
    assert_eq!(plain.to_bytes(), Ok(vec![0xAC, 0x02, 0x00]));
    let attack = UseEntity::new(VarInt(1), VarInt(1), Float(7), Float(8), Float(9));
    assert_eq!(attack.to_bytes(), Ok(vec![0x01, 0x01]));
    let at = UseEntity::new(
        VarInt(300),
        VarInt(2),
        Float(1.0f32.to_bits()),
        Float(2.0f32.to_bits()),
        Float(3.0f32.to_bits()),
    );
    let mut expected = vec![0xAC, 0x02, 0x02];
    expected.extend(1.0f32.to_be_bytes());
    expected.extend(2.0f32.to_be_bytes());
    expected.extend(3.0f32.to_be_bytes());
    assert_eq!(at.to_bytes(), Ok(expected.clone()));
    assert_eq!(at.id(), IDS::UseEntity);

    // the reader of type 0 leaves what follows to the next packet
    let mut two = vec![0xAC, 0x02, 0x00];
    two.extend(&expected);
    let (first, n) = <UseEntity as Wire>::decode(&two).unwrap();
    assert_eq!(n, 3);
    assert_eq!(first, plain);
    let (second, m) = <UseEntity as Wire>::decode(&two[n..]).unwrap();
    assert_eq!(m, 15);
    assert_eq!(second, at);
    // and type 2 needs its coordinates
    assert_eq!(<UseEntity as Wire>::decode(&[0x01, 0x02, 0, 0, 0, 0]), None);
}

#[test]
fn packet_of_another_phase_is_refused() {
    let mut session = MinecraftSever::connect();
    assert_eq!(
        session.send_packet(LoginStart::new(VarString("Player".to_string()))),
        Err(SessionError::PhaseMismatch)
    );
    let mut session = in_login();
    assert_eq!(session.send_packet(handshake()), Err(SessionError::PhaseMismatch));
    assert_eq!(session.send_packet(KeepAliveServerbound::new(VarInt(1))), Err(SessionError::PhaseMismatch));
    let mut session = in_play();
    assert_eq!(session.send_packet(handshake()), Err(SessionError::PhaseMismatch));
    assert!(session.send_packet(Spectate::new(UUID([1; 16]))).is_ok());
}

#[test]
fn packet_that_cannot_be_written_is_refused() {
    let mut session = in_play();
    let long = ChatMessageServerbound::new(VarString("a".repeat(32768)));
    assert!(long.to_bytes().is_err());
    assert_eq!(session.send_packet(long), Err(SessionError::Unsendable));
    let longest = ChatMessageServerbound::new(VarString("a".repeat(32767)));
    assert_eq!(session.send_packet(longest).map(|b| b.len()), Ok(3 + 1 + 3 + 32767));
}

#[test]
fn phases_do_not_go_back() {
    let mut session = MinecraftSever::connect();
    assert_eq!(session.set_state(Phase::Handshaking), Ok(()));
    assert_eq!(session.set_state(Phase::Login), Ok(()));
    assert_eq!(session.set_state(Phase::Handshaking), Err(SessionError::PhaseRegression));
    assert_eq!(session.state(), Phase::Login);
    assert_eq!(session.set_state(Phase::Play), Ok(()));
    assert_eq!(session.set_state(Phase::Login), Err(SessionError::PhaseRegression));
    assert_eq!(session.state(), Phase::Play);
}

#[test]
fn login_success_takes_the_session_to_play() {
    let mut session = in_login();
    let mut frame = vec![0x02, 1, b'u', 1, b'n'];
    frame.insert(0, frame.len() as u8);
    let (received, _) = session.read_and_parse_packet(&frame).unwrap();
    assert_eq!(session.react(&received), Ok(Reaction::Nothing));
    assert_eq!(session.state(), Phase::Play);
    // in play the same number names another packet
    let (received, _) = session.read_and_parse_packet(&[2, 0x02, 0x00]).unwrap();
    assert!(matches!(received, Received::Known { id: IDS::ChatMessageClientbound, .. }));
}

#[test]
fn compression_stays_as_it_is_once_on() {
    let mut session = in_login();
    assert_eq!(session.set_compression(-1), Ok(()));
    assert_eq!(session.compression_threshold(), -1);
    assert_eq!(session.set_compression(256), Ok(()));
    assert_eq!(session.set_compression(256), Ok(()));
    assert_eq!(session.set_compression(512), Err(SessionError::CompressionAlreadySet));
    assert_eq!(session.set_compression(-1), Err(SessionError::CompressionAlreadySet));
    assert_eq!(session.compression_threshold(), 256);
    let again = Received::Known { id: IDS::SetCompressionLogin, payload: vec![0x80, 0x04] };
    assert_eq!(session.react(&again), Err(SessionError::CompressionAlreadySet));
    assert_eq!(session.compression_threshold(), 256);
}

#[test]
fn cipher_is_installed_once() {
    let mut session = in_login();
    assert_eq!(session.install_cipher(&[1; 15]), Err(SessionError::BadSecretLength));
    assert!(!session.is_encrypted());
    assert_eq!(session.install_cipher(&[1; 16]), Ok(()));
    assert!(session.is_encrypted());
    assert_eq!(session.install_cipher(&[2; 16]), Err(SessionError::CipherAlreadyInstalled));
    assert_eq!(session.install_cipher(&[2; 3]), Err(SessionError::CipherAlreadyInstalled));
}

#[test]
fn unknown_number_is_handed_out_and_the_session_goes_on() {
    let mut session = in_play();
    let (received, n) = session.read_and_parse_packet(&[0x03, 0x7E, 1, 2, 9]).unwrap();
    assert_eq!(n, 4);
    assert_eq!(received, Received::Unknown { number: 0x7E, phase: Phase::Play, payload: vec![1, 2] });
    assert_eq!(session.react(&received), Ok(Reaction::Nothing));
    let login = in_login();
    let (received, _) = login.read_and_parse_packet(&[0x01, 0x04]).unwrap();
    assert_eq!(received, Received::Unknown { number: 4, phase: Phase::Login, payload: vec![] });
    let fresh = MinecraftSever::connect();
    let (received, _) = fresh.read_and_parse_packet(&[0x01, 0x00]).unwrap();
    assert_eq!(received, Received::Unknown { number: 0, phase: Phase::Handshaking, payload: vec![] });
}

#[test]
fn frame_errors_come_through() {
    let session = in_play();
    assert_eq!(session.read_and_parse_packet(&[]), Err(SessionError::Frame(FrameError::Incomplete)));
    assert_eq!(session.read_and_parse_packet(&[5, 0]), Err(SessionError::Frame(FrameError::Incomplete)));
    assert_eq!(session.read_and_parse_packet(&[0]), Err(SessionError::Frame(FrameError::MissingPacketId)));
    assert_eq!(
        session.read_and_parse_packet(&[0x80; 5]),
        Err(SessionError::Frame(FrameError::MalformedLength))
    );
}

#[test]
fn reaction_to_malformed_or_misplaced_packets() {
    let mut session = in_login();
    let broken = Received::Known { id: IDS::SetCompressionLogin, payload: vec![0x80] };
    assert_eq!(session.react(&broken), Err(SessionError::Malformed));
    assert_eq!(session.compression_threshold(), -1);
    let misplaced = Received::Known { id: IDS::KeepAliveClientbound, payload: vec![1] };
    assert_eq!(session.react(&misplaced), Err(SessionError::PhaseMismatch));
    let other = Received::Known { id: IDS::LoginSuccess, payload: vec![] };
    assert_eq!(session.react(&other), Err(SessionError::Malformed));
    assert_eq!(session.state(), Phase::Login);
    let mut play = in_play();
    let plain = Received::Known { id: IDS::TimeUpdate, payload: vec![0; 16] };
    assert_eq!(play.react(&plain), Ok(Reaction::Nothing));
    let set = Received::Known { id: IDS::SetCompressionPlay, payload: vec![0x40] };
    assert_eq!(play.react(&set), Ok(Reaction::Nothing));
    assert_eq!(play.compression_threshold(), 64);
}

#[test]
fn encryption_request_is_handed_out_and_answered() {
    let mut session = in_login();
    let payload = vec![0, 2, 0xAA, 0xBB, 1, 0xCC];
    let received = Received::Known { id: IDS::EncryptionRequest, payload: payload.clone() };
    let request = match session.react(&received).unwrap() {
        Reaction::EncryptionRequested(r) => r,
        other => panic!("unexpected {:?}", other),
    };
    assert_eq!(Ok(request.clone()), EncryptionRequest::parse(&payload));
    assert_eq!(request.server_id.0, "");
    assert_eq!(request.public_key.bytes, vec![0xAA, 0xBB]);
    assert_eq!(request.verify_token.bytes, vec![0xCC]);
    assert!(!session.is_encrypted());

    let secret = [7u8; 16];
    assert_eq!(
        session.answer_encryption(&secret[..15], vec![1], vec![2]),
        Err(SessionError::BadSecretLength)
    );
    let bytes = session.answer_encryption(&secret, vec![1, 2, 3], vec![4, 5]).unwrap();
    // the response itself goes out in the clear
    assert_eq!(bytes, vec![8, 0x01, 3, 1, 2, 3, 2, 4, 5]);
    assert!(session.is_encrypted());
    // what follows does not
    let next = session.send_packet(LoginStart::new(VarString("P".to_string()))).unwrap();
    assert_eq!(next.len(), 4);
    assert_ne!(next, vec![3, 0, 1, b'P']);
    let mut server = MinecraftServer::new();
    server.install_cipher(&secret).unwrap();
    let mut clear = next.clone();
    server.decrypt(&mut clear);
    assert_eq!(clear, vec![3, 0, 1, b'P']);
    assert_eq!(
        session.answer_encryption(&secret, vec![], vec![]),
        Err(SessionError::CipherAlreadyInstalled)
    );
}

#[test]
fn answer_is_refused_outside_login() {
    let mut session = in_play();
    assert_eq!(session.answer_encryption(&[1; 16], vec![], vec![]), Err(SessionError::PhaseMismatch));
    assert!(!session.is_encrypted());
}

#[test]
fn transport_sends_and_receives_raw_packets() {
    let mut a = MinecraftServer::new();
    let b = MinecraftServer::new();
    assert_eq!(a.compress_threshold(), -1);
    assert!(!a.is_encrypted());
    let packet = Packet { id: 300, data: vec![1, 2, 3] };
    let wire = a.send_packet(&packet).unwrap();
    assert_eq!(wire, vec![5, 0xAC, 0x02, 1, 2, 3]);
    assert_eq!(b.receive_packet(&wire), Ok((packet, 6)));
    assert_eq!(b.receive_packet(&wire[..3]), Err(FrameError::Incomplete));
    assert_eq!(b.receive_packet(&[0]), Err(FrameError::MissingPacketId));
    // without a cipher the bytes stay as they are
    let mut data = vec![1, 2, 3];
    a.encrypt(&mut data);
    assert_eq!(data, vec![1, 2, 3]);
    a.decrypt(&mut data);
    assert_eq!(data, vec![1, 2, 3]);
}

#[test]
fn transport_compresses_at_the_threshold() {
    let mut a = MinecraftServer::new();
    a.set_compression(8).unwrap();
    let mut b = MinecraftServer::new();
    b.set_compression(8).unwrap();
    let small = Packet { id: 1, data: vec![7; 6] };
    let wire = a.send_packet(&small).unwrap();
    assert_eq!(wire, vec![8, 0, 1, 7, 7, 7, 7, 7, 7]);
    assert_eq!(b.receive_packet(&wire), Ok((small, 9)));
    let large = Packet { id: 1, data: vec![7; 7] };
    let wire = a.send_packet(&large).unwrap();
    assert_eq!(wire[1], 8);
    assert_eq!(wire[2], 0x78);
    let n = wire.len();
    assert_eq!(b.receive_packet(&wire), Ok((large, n)));
}

#[test]
fn handshake_of_version_47() {
    let login = Handshake::for_login(VarString("localhost".to_string()), UnsignedShort(25565));
    assert_eq!(login, handshake());
    let status = Handshake::for_status(VarString("localhost".to_string()), UnsignedShort(25565));
    assert_eq!(status.next_state, VarInt(1));
    assert_eq!(status.protocol_version, VarInt(47));
    assert_eq!(MinecraftSever::connect().version(), minecraft_protocol::version::ProtocolVersion::V47);
}

#[test]
fn compressed_packet_reads_back() {
    let mut session = in_play();
    session.set_compression(4).unwrap();
    let mut server = MinecraftServer::new();
    server.set_compression(4).unwrap();
    let message = ChatMessageServerbound::new(VarString("hello, hello, hello, hello".to_string()));
    let payload = message.to_bytes().unwrap();
    let wire = session.send_packet(message).unwrap();
    // the data length says how long the body is, and a zlib stream follows
    assert_eq!(wire[1], 1 + payload.len() as u8);
    assert_eq!(wire[2], 0x78);
    let n = wire.len();
    assert_eq!(server.receive_packet(&wire), Ok((Packet { id: 0x01, data: payload }, n)));
}

#[test]
fn keep_alive_answer_reads_back_when_compressed() {
    let mut session = in_play();
    session.set_compression(1).unwrap();
    let mut server = MinecraftServer::new();
    server.set_compression(1).unwrap();
    let received = Received::Known { id: IDS::KeepAliveClientbound, payload: vec![0xAD, 0xBD, 0x03] };
    let bytes = match session.react(&received).unwrap() {
        Reaction::Reply(bytes) => bytes,
        other => panic!("unexpected {:?}", other),
    };
    assert_eq!(bytes[1], 4);
    assert_eq!(bytes[2], 0x78);
    let n = bytes.len();
    assert_eq!(server.receive_packet(&bytes), Ok((Packet { id: 0x00, data: vec![0xAD, 0xBD, 0x03] }, n)));
}

#[test]
fn encryption_response_reads_back_when_compressed() {
    let mut session = in_login();
    session.set_compression(0).unwrap();
    let mut server = MinecraftServer::new();
    server.set_compression(0).unwrap();
    let secret = [9u8; 16];
    let bytes = session.answer_encryption(&secret, vec![1; 128], vec![2; 128]).unwrap();
    let mut data = vec![0x80, 0x01];
    data.extend([1; 128]);
    data.extend([0x80, 0x01]);
    data.extend([2; 128]);
    let n = bytes.len();
    assert_eq!(server.receive_packet(&bytes), Ok((Packet { id: 0x01, data }, n)));
    assert!(session.is_encrypted());
    // a session that is ended answers nothing, and stays as it is
    let mut ended = in_login();
    let gone = Received::Known { id: IDS::DisconnectLogin, payload: vec![2, b'{', b'}'] };
    assert_eq!(ended.react(&gone), Ok(Reaction::Disconnected("{}".to_string())));
    assert_eq!(ended.answer_encryption(&secret, vec![1], vec![2]), Err(SessionError::Closed));
    assert!(!ended.is_encrypted());
}
