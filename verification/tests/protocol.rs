use hypernovae::data::datapack::DatapackVersion;
use hypernovae::data::Identifier;
use hypernovae::error::{asciify, error_to_owned, map_nom_err, Error, ProtocolError};
use hypernovae::game::Profile;
use hypernovae::net::data::{generate_varint, ParseFail};
use hypernovae::net::packet::{
    ClientboundPacket, PluginMessagePacket, ServerboundPacket, ServerboundPacketType,
};
use hypernovae::net::proto::{
    brand_payload, brand_reply, check_pong, configuration_events, ensure_response_immediate,
    expect_state, is_brand_channel, login_packets, missing_packs, next_step, ping_packet,
    status_response_packet, ConfigurationEvent, NextStage, NextStep, ProtocolEvent, ProtocolState,
};

fn status_ping(n: u64) -> ServerboundPacket {
    let mut body = vec![0x01];
    body.extend_from_slice(&n.to_be_bytes());
    ServerboundPacket::parse(ProtocolState::Status, &body).unwrap().1
}

fn handshake(intent: i32) -> ServerboundPacket {
    let mut b = vec![0x00];
    generate_varint(774, &mut b);
    hypernovae::net::data::generate_string("host", &mut b);
    b.extend_from_slice(&[0, 1]);
    generate_varint(intent, &mut b);
    ServerboundPacket::parse(ProtocolState::Handshaking, &b).unwrap().1
}

#[test]
fn next_step_follows_handshake_intent() {
    assert!(matches!(next_step(NextStage::Start, Some(handshake(1))), NextStep::Read(NextStage::AwaitStatus)));
    assert!(matches!(next_step(NextStage::Start, Some(handshake(2))), NextStep::Read(NextStage::AwaitLogin)));
    assert!(matches!(
        next_step(NextStage::Start, Some(handshake(3))),
        NextStep::Finish(None, Ok(ProtocolEvent::Transfer))
    ));
    assert!(matches!(
        next_step(NextStage::Start, None),
        NextStep::Finish(None, Ok(ProtocolEvent::ConnectionClosed))
    ));
}

#[test]
fn next_step_answers_pings_and_requests() {
    assert!(matches!(
        next_step(NextStage::AwaitStatus, Some(status_ping(42))),
        NextStep::Finish(Some(ClientboundPacket::StatusPong(42)), Ok(ProtocolEvent::ConnectionClosed))
    ));
    let req = ServerboundPacket::parse(ProtocolState::Status, &[0]).unwrap().1;
    assert!(matches!(
        next_step(NextStage::AwaitStatus, Some(req)),
        NextStep::Finish(None, Ok(ProtocolEvent::StatusRequest))
    ));
    match next_step(NextStage::AwaitStatus, Some(handshake(1))) {
        NextStep::Finish(None, Err(Error::Protocol(ProtocolError::NotReply(t, v)))) => {
            assert_eq!(t, ServerboundPacketType::Handshake);
            assert_eq!(v, vec![ServerboundPacketType::StatusRequest, ServerboundPacketType::StatusPing]);
        }
        other => panic!("unexpected {:?}", other),
    }
    let ack = ServerboundPacket::parse(ProtocolState::Login, &[3]).unwrap().1;
    assert!(matches!(
        next_step(NextStage::Start, Some(ack)),
        NextStep::Finish(None, Err(Error::Protocol(ProtocolError::OnlyReply(ServerboundPacketType::LoginAcknowledged))))
    ));
}

#[test]
fn next_step_reports_login() {
    let mut body = vec![0x00];
    hypernovae::net::data::generate_string("Steve", &mut body);
    body.extend_from_slice(&99u128.to_be_bytes());
    let p = ServerboundPacket::parse(ProtocolState::Login, &body).unwrap().1;
    match next_step(NextStage::AwaitLogin, Some(p)) {
        NextStep::Finish(None, Ok(ProtocolEvent::Login(name, uuid))) => {
            assert_eq!(name, "Steve");
            assert_eq!(uuid, 99);
        }
        other => panic!("unexpected {:?}", other),
    }
    match next_step(NextStage::AwaitLogin, Some(status_ping(1))) {
        NextStep::Finish(None, Err(Error::Protocol(ProtocolError::NotReply(t, v)))) => {
            assert_eq!(t, ServerboundPacketType::StatusPing);
            assert_eq!(v, vec![ServerboundPacketType::LoginStart]);
        }
        other => panic!("unexpected {:?}", other),
    }
}

#[test]
fn replies_are_checked() {
    assert!(matches!(
        ensure_response_immediate(None, ServerboundPacketType::FinishConfig),
        Err(Error::Protocol(ProtocolError::Disconnected))
    ));
    let fin = ServerboundPacket::parse(ProtocolState::Configuration, &[3]).unwrap().1;
    assert!(ensure_response_immediate(Some(fin), ServerboundPacketType::FinishConfig).is_ok());
    match ensure_response_immediate(Some(status_ping(1)), ServerboundPacketType::ConfigPong) {
        Err(Error::Protocol(ProtocolError::NotReply(t, v))) => {
            assert_eq!(t, ServerboundPacketType::StatusPing);
            assert_eq!(v, vec![ServerboundPacketType::ConfigPong]);
        }
        other => panic!("unexpected {:?}", other),
    }
}

#[test]
fn login_and_state_checks() {
    let profile = Profile::new(5, String::from("A"), vec![]);
    match login_packets(ProtocolState::Login, Some(64), profile.clone()) {
        Ok(v) => {
            assert_eq!(v.len(), 2);
            assert!(matches!(v[0], ClientboundPacket::SetCompression(64)));
            assert!(matches!(v[1], ClientboundPacket::LoginSuccess(_)));
        }
        Err(e) => panic!("{:?}", e),
    }
    assert_eq!(login_packets(ProtocolState::Login, None, profile.clone()).unwrap().len(), 1);
    assert!(matches!(
        login_packets(ProtocolState::Status, None, profile),
        Err(Error::Protocol(ProtocolError::InvalidState(ProtocolState::Status, ProtocolState::Login)))
    ));
    assert!(expect_state(ProtocolState::Play, ProtocolState::Play).is_ok());
    assert!(matches!(
        expect_state(ProtocolState::Login, ProtocolState::Configuration),
        Err(Error::Protocol(ProtocolError::InvalidState(ProtocolState::Login, ProtocolState::Configuration)))
    ));
    assert!(matches!(
        status_response_packet(ProtocolState::Status, String::from("{}")),
        Ok(ClientboundPacket::StatusResponse(_))
    ));
    assert!(status_response_packet(ProtocolState::Login, String::new()).is_err());
}

#[test]
fn ping_steps() {
    assert!(matches!(ping_packet(ProtocolState::Configuration, 7), Ok(Some(ClientboundPacket::ConfigPing(7)))));
    assert!(matches!(ping_packet(ProtocolState::Play, 7), Ok(None)));
    assert!(matches!(
        ping_packet(ProtocolState::Status, 7),
        Err(Error::Protocol(ProtocolError::InvalidState(ProtocolState::Status, ProtocolState::Configuration)))
    ));
    assert!(check_pong(7, &ServerboundPacket::ConfigPong(7)).is_ok());
    assert!(matches!(
        check_pong(7, &ServerboundPacket::ConfigPong(8)),
        Err(Error::Protocol(ProtocolError::InvalidPingResponse(7, 8)))
    ));
}

#[test]
fn missing_packs_keeps_order_and_duplicates() {
    let a = DatapackVersion::new(Identifier::new("minecraft", "core"), "1");
    let b = DatapackVersion::new(Identifier::new("x", "y"), "2");
    let c = DatapackVersion::new(Identifier::new("minecraft", "core"), "2");
    let r = missing_packs(vec![a.clone(), b.clone(), c.clone(), b.clone()], &[a.clone()]);
    assert_eq!(r, vec![b.clone(), c.clone(), b.clone()]);
    assert!(missing_packs(vec![a.clone()], &[a.clone(), b.clone()]).is_empty());
    assert_eq!(missing_packs(vec![a.clone()], &[]), vec![a]);
}

#[test]
fn brand_handling() {
    assert!(is_brand_channel(&Identifier::new("minecraft", "brand")));
    assert!(!is_brand_channel(&Identifier::new("minecraft", "brandy")));
    assert_eq!(brand_payload(&[7, b'v', b'a', b'n', b'i', b'l', b'l', b'a']), "vanilla");
    assert_eq!(brand_payload(&[2, b'o', 0xFF]), "o\u{FFFD}");
    match brand_reply("hypernovae") {
        ClientboundPacket::ConfigPluginMessage(m) => {
            assert_eq!(m.channel, Identifier::new("minecraft", "brand"));
            assert_eq!(m.data[0], 10);
            assert_eq!(&m.data[1..], b"hypernovae");
        }
        other => panic!("unexpected {:?}", other),
    }
}

#[test]
fn error_utilities() {
    let e = error_to_owned(Error::String(&[1, 2][..]));
    assert!(matches!(e, Error::String(v) if v == vec![1, 2]));
    assert!(matches!(error_to_owned(Error::ChatMode(4)), Error::ChatMode(4)));
    let f: ParseFail<i32> = map_nom_err(ParseFail::Failure(3u8), |x: u8| x as i32 + 1);
    assert!(matches!(f, ParseFail::Failure(4)));
    assert_eq!(asciify(b"Hi\x00\x7f~ "), "Hi..~ ");
}

#[test]
fn configuration_events_per_packet() {
    let core = DatapackVersion::new(Identifier::new("minecraft", "core"), "1.21");
    let extra = DatapackVersion::new(Identifier::new("x", "extra"), "1");

    assert!(matches!(
        configuration_events(None, vec![core.clone()]),
        Err(Error::Protocol(ProtocolError::Disconnected))
    ));

    let body = [0x00, 5, b'e', b'n', b'_', b'u', b's', 8, 0, 1, 0x7F, 1, 0, 1, 0];
    let info = ServerboundPacket::parse(ProtocolState::Configuration, &body).unwrap().1;
    let (events, done) = configuration_events(Some(info), vec![core.clone()]).unwrap();
    assert!(!done);
    assert_eq!(events.len(), 1);
    assert!(matches!(events[0], ConfigurationEvent::ClientInformation(_)));

    let brand = PluginMessagePacket {
        channel: Identifier::new("minecraft", "brand"),
        data: vec![7, b'v', b'a', b'n', b'i', b'l', b'l', b'a'],
    };
    let (events, done) =
        configuration_events(Some(ServerboundPacket::PluginMessage(brand)), vec![]).unwrap();
    assert!(!done);
    assert_eq!(events.len(), 2);
    assert!(matches!(&events[0], ConfigurationEvent::Brand(b) if b == "vanilla"));
    assert!(matches!(&events[1], ConfigurationEvent::PluginMessage(m) if m.data[0] == 7));

    let other = PluginMessagePacket { channel: Identifier::new("x", "y"), data: vec![] };
    let (events, done) =
        configuration_events(Some(ServerboundPacket::PluginMessage(other)), vec![]).unwrap();
    assert!(!done);
    assert_eq!(events.len(), 1);
    assert!(matches!(&events[0], ConfigurationEvent::PluginMessage(m) if m.data.is_empty()));

    let (events, done) = configuration_events(
        Some(ServerboundPacket::KnownPacks(vec![core.clone()])),
        vec![core.clone(), extra.clone()],
    )
    .unwrap();
    assert!(done);
    assert_eq!(events.len(), 1);
    assert!(matches!(&events[0], ConfigurationEvent::MissingPacks(v) if *v == vec![extra.clone()]));

    let (events, done) = configuration_events(
        Some(ServerboundPacket::KnownPacks(vec![core.clone(), extra.clone()])),
        vec![core],
    )
    .unwrap();
    assert!(done);
    assert!(events.is_empty());
}
