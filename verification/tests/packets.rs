use hypernovae::data::datapack::DatapackVersion;
use hypernovae::data::Identifier;
use hypernovae::error::Error;
use hypernovae::game::{Hand, ParticleOptions, Profile, ProfileProperty};
use hypernovae::net::data::{generate_array, generate_string, generate_varint, Encode, Needed, ParseFail};
use hypernovae::net::packet::stream::{frame_packet, ReadStep, StreamState};
use hypernovae::net::packet::{
    ClientboundPacket, HandshakeIntent, LoginSuccessPacket, PluginMessagePacket, ServerboundPacket,
    ServerboundPacketType, StatusResponsePacket,
};
use hypernovae::net::proto::ProtocolState;

fn handshake_body(intent: i32) -> Vec<u8> {
    let mut b = Vec::new();
    generate_varint(0, &mut b);
    generate_varint(774, &mut b);
    generate_string("localhost", &mut b);
    b.extend_from_slice(&25565u16.to_be_bytes());
    generate_varint(intent, &mut b);
    b
}

fn frame(body: &[u8]) -> Vec<u8> {
    let mut out = Vec::new();
    hypernovae::net::data::length_prefixed(body, &mut out);
    out
}

#[test]
fn handshake_parses() {
    let body = handshake_body(2);
    let (rest, p) = ServerboundPacket::parse(ProtocolState::Handshaking, &body).unwrap();
    assert!(rest.is_empty());
    match p {
        ServerboundPacket::Handshake(h) => {
            assert_eq!(h.proto_ver(), 774);
            assert_eq!(h.intent(), HandshakeIntent::Login);
            assert_eq!(ProtocolState::from(h.intent()), ProtocolState::Login);
        }
        other => panic!("unexpected {:?}", other),
    }
    let body = handshake_body(3);
    let (_, p) = ServerboundPacket::parse(ProtocolState::Handshaking, &body).unwrap();
    assert_eq!(p.packet_type(), ServerboundPacketType::Handshake);
}

#[test]
fn handshake_unknown_intent_fails() {
    let body = handshake_body(9);
    assert!(matches!(
        ServerboundPacket::parse(ProtocolState::Handshaking, &body),
        Err(ParseFail::Failure(Error::UnknownIntent(9)))
    ));
}

#[test]
fn unknown_packet_ids_fail() {
    assert!(matches!(
        ServerboundPacket::parse(ProtocolState::Status, &[0x05]),
        Err(ParseFail::Failure(Error::UnknownPacket(ProtocolState::Status, 5)))
    ));
    assert!(matches!(
        ServerboundPacket::parse(ProtocolState::Login, &[0x01]),
        Err(ParseFail::Failure(Error::UnknownPacket(ProtocolState::Login, 1)))
    ));
    assert!(matches!(
        ServerboundPacket::parse(ProtocolState::Configuration, &[0x04]),
        Err(ParseFail::Failure(Error::UnknownPacket(ProtocolState::Configuration, 4)))
    ));
    assert!(matches!(
        ServerboundPacket::parse(ProtocolState::Handshaking, &[0x01]),
        Err(ParseFail::Failure(Error::UnknownPacket(ProtocolState::Handshaking, 1)))
    ));
    assert!(matches!(
        ServerboundPacket::parse(ProtocolState::Status, &[]),
        Err(ParseFail::Incomplete(Needed::Unknown))
    ));
}

#[test]
fn status_packets() {
    let (_, p) = ServerboundPacket::parse(ProtocolState::Status, &[0x00]).unwrap();
    assert_eq!(p.packet_type(), ServerboundPacketType::StatusRequest);
    let (rest, p) =
        ServerboundPacket::parse(ProtocolState::Status, &[0x01, 0, 0, 0, 0, 0, 0, 1, 2, 9]).unwrap();
    assert!(matches!(p, ServerboundPacket::StatusPing(0x102)));
    assert_eq!(rest, &[9]);
    assert!(matches!(
        ServerboundPacket::parse(ProtocolState::Status, &[0x01, 0, 0]),
        Err(ParseFail::Incomplete(Needed::Size(6)))
    ));
}

#[test]
fn login_packets_parse() {
    let mut body = vec![0x00];
    generate_string("Steve", &mut body);
    body.extend_from_slice(&7u128.to_be_bytes());
    let (_, p) = ServerboundPacket::parse(ProtocolState::Login, &body).unwrap();
    match p {
        ServerboundPacket::LoginStart(l) => {
            assert_eq!(l.name(), "Steve");
            assert_eq!(l.uuid(), 7);
        }
        other => panic!("unexpected {:?}", other),
    }
    let (_, p) = ServerboundPacket::parse(ProtocolState::Login, &[0x03]).unwrap();
    assert_eq!(p.packet_type(), ServerboundPacketType::LoginAcknowledged);
}

fn client_info(chat_mode: i32, skin: u8, hand: i32, particles: i32) -> Vec<u8> {
    let mut b = vec![0x00];
    generate_string("en_GB", &mut b);
    b.push(12);
    generate_varint(chat_mode, &mut b);
    b.push(1);
    b.push(skin);
    generate_varint(hand, &mut b);
    b.push(1);
    b.push(0);
    generate_varint(particles, &mut b);
    b
}

#[test]
fn client_information_parses_and_checks() {
    let body = client_info(1, 0x7F, 0, 2);
    let (rest, p) = ServerboundPacket::parse(ProtocolState::Configuration, &body).unwrap();
    assert!(rest.is_empty());
    assert_eq!(p.packet_type(), ServerboundPacketType::ClientInformation);
    assert!(matches!(
        ServerboundPacket::parse(ProtocolState::Configuration, &client_info(3, 0, 0, 0)),
        Err(ParseFail::Failure(Error::ChatMode(3)))
    ));
    assert!(matches!(
        ServerboundPacket::parse(ProtocolState::Configuration, &client_info(0, 0x80, 0, 0)),
        Err(ParseFail::Failure(Error::SkinOptions))
    ));
    assert!(matches!(
        ServerboundPacket::parse(ProtocolState::Configuration, &client_info(0, 0, 2, 0)),
        Err(ParseFail::Failure(Error::UnknownHand(2)))
    ));
    assert!(matches!(
        ServerboundPacket::parse(ProtocolState::Configuration, &client_info(0, 0, 0, 3)),
        Err(ParseFail::Failure(Error::ParticleOptions(3)))
    ));
    // the chat mode is checked before the particles
    assert!(matches!(
        ServerboundPacket::parse(ProtocolState::Configuration, &client_info(7, 0x80, 5, 9)),
        Err(ParseFail::Failure(Error::ChatMode(7)))
    ));
    let _ = (Hand::Left, ParticleOptions::Minimal);
}

#[test]
fn plugin_message_takes_the_rest() {
    let mut body = vec![0x02];
    generate_string("minecraft:brand", &mut body);
    body.extend_from_slice(&[7, b'v', b'a', b'n', b'i', b'l', b'l', b'a']);
    let (rest, p) = ServerboundPacket::parse(ProtocolState::Configuration, &body).unwrap();
    assert!(rest.is_empty());
    match p {
        ServerboundPacket::PluginMessage(m) => {
            assert_eq!(m.channel, Identifier::new("minecraft", "brand"));
            assert_eq!(m.data, vec![7, b'v', b'a', b'n', b'i', b'l', b'l', b'a']);
        }
        other => panic!("unexpected {:?}", other),
    }
}

#[test]
fn known_packs_and_finish() {
    let packs = vec![DatapackVersion::new(Identifier::new("minecraft", "core"), "1.21.11")];
    let mut body = vec![0x07];
    generate_array(&packs, &mut body);
    let (_, p) = ServerboundPacket::parse(ProtocolState::Configuration, &body).unwrap();
    match p {
        ServerboundPacket::KnownPacks(v) => assert_eq!(v, packs),
        other => panic!("unexpected {:?}", other),
    }
    let (_, p) = ServerboundPacket::parse(ProtocolState::Configuration, &[0x03]).unwrap();
    assert_eq!(p.packet_type(), ServerboundPacketType::FinishConfig);
}

#[test]
fn clientbound_packets_generate() {
    let mut out = Vec::new();
    ClientboundPacket::SetCompression(256).generate(&mut out);
    assert_eq!(out, vec![3, 0, 0, 1, 0]);
    let mut out = Vec::new();
    ClientboundPacket::StatusPong(5).generate(&mut out);
    assert_eq!(out, vec![1, 0, 0, 0, 0, 0, 0, 0, 5]);
    let mut out = Vec::new();
    ClientboundPacket::ConfigPing(0x01020304).generate(&mut out);
    assert_eq!(out, vec![5, 1, 2, 3, 4]);
    let mut out = Vec::new();
    ClientboundPacket::FinishConfig.generate(&mut out);
    assert_eq!(out, vec![3]);
    let mut out = Vec::new();
    ClientboundPacket::StatusResponse(StatusResponsePacket::new(String::from("{}"))).generate(&mut out);
    assert_eq!(out, vec![0, 2, b'{', b'}']);
    let mut out = Vec::new();
    ClientboundPacket::ConfigPluginMessage(PluginMessagePacket {
        channel: Identifier::new("a", "b"),
        data: vec![1, 2],
    })
    .generate(&mut out);
    assert_eq!(out, vec![1, 3, b'a', b':', b'b', 1, 2]);
    let mut out = Vec::new();
    ClientboundPacket::KnownPacks(vec![]).generate(&mut out);
    assert_eq!(out, vec![14, 0]);
}

#[test]
fn login_success_writes_profile() {
    let profile = Profile::new(
        1,
        String::from("Alex"),
        vec![ProfileProperty { name: String::from("t"), value: String::from("v"), signature: None }],
    );
    let mut out = Vec::new();
    ClientboundPacket::LoginSuccess(LoginSuccessPacket::new(profile)).generate(&mut out);
    let mut expected = vec![2];
    expected.extend_from_slice(&1u128.to_be_bytes());
    expected.extend_from_slice(&[4, b'A', b'l', b'e', b'x', 1, 1, b't', 1, b'v', 0]);
    assert_eq!(out, expected);
}

#[test]
fn frame_packet_prefixes_length() {
    let f = frame_packet(&ClientboundPacket::StatusPong(1));
    assert_eq!(f[0], 9);
    assert_eq!(f.len(), 10);
    assert_eq!(f[1], 1);
}

#[test]
fn stream_decodes_handshake_and_moves_state() {
    let mut s = StreamState::new();
    assert_eq!(s.state(), ProtocolState::Handshaking);
    let f = frame(&handshake_body(1));
    s.start_next();
    let (a, b) = f.split_at(1);
    // the length alone asks for that many more bytes
    assert!(matches!(s.on_read(a), ReadStep::ReadMore));
    match s.on_read(b) {
        ReadStep::Packet(ServerboundPacket::Handshake(h)) => assert_eq!(h.intent(), HandshakeIntent::Status),
        other => panic!("unexpected {:?}", other),
    }
    assert_eq!(s.state(), ProtocolState::Status);
    assert!(s.buffer().is_empty());
    s.start_next();
    let mut two = frame(&[0x00]);
    two.extend(frame(&[0x01, 0, 0, 0, 0, 0, 0, 0, 3]));
    match s.on_read(&two) {
        ReadStep::Packet(p) => assert_eq!(p.packet_type(), ServerboundPacketType::StatusRequest),
        other => panic!("unexpected {:?}", other),
    }
    // the second frame stays buffered
    assert_eq!(s.buffer().len(), 10);
}

#[test]
fn stream_counts_only_new_bytes_against_the_wait() {
    let mut s = StreamState::new();
    let f = frame(&handshake_body(1));
    s.start_next();
    let (a, b) = f.split_at(3);
    assert!(matches!(s.on_read(a), ReadStep::ReadMore));
    // the rest of the frame is fewer new bytes than the announced length
    assert!(matches!(s.on_read(b), ReadStep::ReadMore));
    assert!(matches!(s.on_read(&[0x00; 3]), ReadStep::Packet(ServerboundPacket::Handshake(_))));
    assert_eq!(s.buffer(), &[0x00; 3]);
}

#[test]
fn stream_waits_for_the_announced_length() {
    let mut s = StreamState::new();
    s.start_next();
    assert!(matches!(s.on_read(&[20, 0]), ReadStep::ReadMore));
    // twenty bytes are awaited: ten more do not trigger a decode
    assert!(matches!(s.on_read(&[0; 10]), ReadStep::ReadMore));
    assert_eq!(s.buffer().len(), 12);
}

#[test]
fn stream_reports_protocol_errors_and_aborts() {
    let mut s = StreamState::new();
    s.start_next();
    match s.on_read(&frame(&[0x01])) {
        ReadStep::Failed(Error::UnknownPacket(ProtocolState::Handshaking, 1)) => {}
        other => panic!("unexpected {:?}", other),
    }
    let mut s = StreamState::new();
    s.start_next();
    assert!(matches!(s.on_read(&[0x80, 0x80, 0x80, 0x80, 0x80, 0x01]), ReadStep::Abort));
    let mut s = StreamState::new();
    s.start_next();
    assert!(matches!(s.on_read(&frame(&[0xFE, 0x01])), ReadStep::Abort));
}

#[test]
fn stream_login_acknowledged_moves_to_configuration() {
    let mut s = StreamState::new();
    s.start_next();
    assert!(matches!(s.on_read(&frame(&handshake_body(2))), ReadStep::Packet(_)));
    assert_eq!(s.state(), ProtocolState::Login);
    s.start_next();
    assert!(matches!(s.on_read(&frame(&[0x03])), ReadStep::Packet(ServerboundPacket::LoginAcknowledged)));
    assert_eq!(s.state(), ProtocolState::Configuration);
    s.set_compression(64);
}

#[test]
fn plugin_message_payload_reads_back() {
    let sent = PluginMessagePacket { channel: Identifier::new("hypernovae", "debug"), data: vec![9, 8, 7] };
    let mut out = Vec::new();
    ClientboundPacket::ConfigPluginMessage(sent.clone()).generate(&mut out);
    let mut body = vec![0x02];
    body.extend_from_slice(&out[1..]);
    match ServerboundPacket::parse(ProtocolState::Configuration, &body).unwrap() {
        (rest, ServerboundPacket::PluginMessage(m)) => {
            assert!(rest.is_empty());
            assert_eq!(m.channel, sent.channel);
            assert_eq!(m.data, sent.data);
        }
        other => panic!("unexpected {:?}", other),
    }
}

#[test]
fn framed_packet_decodes_and_leaves_the_rest() {
    let mut bytes = frame(&[0x00]);
    bytes.extend_from_slice(&[0x09, 0x01]);
    let mut s = StreamState::new();
    let mut hs = frame(&handshake_body(1));
    hs.extend_from_slice(&bytes);
    match s.on_read(&hs) {
        ReadStep::Packet(ServerboundPacket::Handshake(_)) => {}
        other => panic!("unexpected {:?}", other),
    }
    assert_eq!(s.state(), ProtocolState::Status);
    assert_eq!(s.buffer(), &bytes[..]);
    s.start_next();
    assert!(matches!(s.on_read(&[]), ReadStep::Packet(ServerboundPacket::StatusRequest)));
    assert_eq!(s.buffer(), &[0x09, 0x01]);
}
