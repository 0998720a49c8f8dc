use crate::data::datapack::{DatapackVersion, DatapackVersionView};
use crate::data::{Identifier, IdentifierView, identifier_text};
use crate::error::Error;
use crate::game::{
    ChatOptions, Hand, ParticleOptions, Profile, ProfileView, SkinOptions, profile_bytes,
};
use crate::net::data::wire::{array_bytes, views};
use crate::net::data::{
    Encode, IResult, Needed, ParseFail, SpecResult, Wire, agrees, agrees_by, bind, checked,
    be_bytes, extend_bytes, generate_array, generate_be, generate_string, generate_varint,
    parse_array_checked, parse_be, parse_bool, parse_string_checked, parse_varint,
    spec_parse_array, spec_parse_be, spec_parse_bool, spec_parse_string, spec_parse_varint, spec_varint, string_bytes,
};
use crate::net::data::lemma_after_after;
use crate::net::proto::ProtocolState;
use vstd::prelude::*;

/// Turning serverbound bytes into packets, and packets into frames
pub mod stream;

verus! {

/// A packet from the client to the server.
#[derive(Debug)]
pub enum ServerboundPacket {
    Handshake(HandshakePacket),
    StatusRequest,
    StatusPing(u64),
    LoginStart(LoginStartPacket),
    LoginAcknowledged,
    ConfigPong(u32),
    PluginMessage(PluginMessagePacket),
    ClientInformation(ClientInformationPacket),
    KnownPacks(Vec<DatapackVersion>),
    FinishConfig,
}

/// A packet from the server to the client.
#[derive(Debug)]
pub enum ClientboundPacket {
    SetCompression(u32),
    LoginSuccess(LoginSuccessPacket),
    StatusResponse(StatusResponsePacket),
    StatusPong(u64),
    ConfigPing(u32),
    KnownPacks(Vec<DatapackVersion>),
    ConfigPluginMessage(PluginMessagePacket),
    FinishConfig,
}

/// The kind of a serverbound packet, without its payload.
#[derive(Debug, Clone, Copy, PartialEq, Eq, Structural)]
pub enum ServerboundPacketType {
    Handshake,
    StatusRequest,
    StatusPing,
    LoginStart,
    LoginAcknowledged,
    PluginMessage,
    ClientInformation,
    ConfigPong,
    KnownPacks,
    FinishConfig,
}

/// The first packet of a connection: which server the client wants and why.
#[derive(Debug)]
pub struct HandshakePacket {
    proto_ver: i32,
    address: String,
    port: u16,
    intent: HandshakeIntent,
}

/// What a client wants after the handshake.
#[derive(Debug, Clone, Copy, PartialEq, Eq, Structural)]
pub enum HandshakeIntent {
    Status,
    Login,
    Transfer,
}

/// A client's request to log in.
#[derive(Debug)]
pub struct LoginStartPacket {
    name: String,
    uuid: u128,
}

/// The server's answer that a login succeeded.
#[derive(Debug)]
pub struct LoginSuccessPacket {
    profile: Profile,
}

/// A message on a named plugin channel.
#[derive(Debug, Clone)]
pub struct PluginMessagePacket {
    pub channel: Identifier,
    pub data: Vec<u8>,
}

/// A client's settings, sent while configuring.
#[derive(Debug, Clone)]
pub struct ClientInformationPacket {
    locale: String,
    view_distance: u8,
    chat_options: ChatOptions,
    displayed_skin: SkinOptions,
    main_hand: Hand,
    allow_listings: bool,
    particle_options: ParticleOptions,
}

/// The server's status, as the JSON text of a status response.
#[derive(Debug)]
pub struct StatusResponsePacket {
    response: String,
}

// ---------------------------------------------------------------------------
// Mathematical values of the packets

pub struct HandshakePacketView {
    pub proto_ver: i32,
    pub address: Seq<char>,
    pub port: u16,
    pub intent: HandshakeIntent,
}

pub struct LoginStartPacketView {
    pub name: Seq<char>,
    pub uuid: u128,
}

pub struct PluginMessagePacketView {
    pub channel: IdentifierView,
    pub data: Seq<u8>,
}

pub struct ClientInformationPacketView {
    pub locale: Seq<char>,
    pub view_distance: u8,
    pub chat_options: u8,
    pub displayed_skin: u8,
    pub main_hand: Hand,
    pub allow_listings: bool,
    pub particle_options: ParticleOptions,
}

pub enum ServerboundPacketView {
    Handshake(HandshakePacketView),
    StatusRequest,
    StatusPing(u64),
    LoginStart(LoginStartPacketView),
    LoginAcknowledged,
    ConfigPong(u32),
    PluginMessage(PluginMessagePacketView),
    ClientInformation(ClientInformationPacketView),
    KnownPacks(Seq<DatapackVersionView>),
    FinishConfig,
}

impl View for HandshakePacket {
    type V = HandshakePacketView;

    closed spec fn view(&self) -> HandshakePacketView {
        HandshakePacketView {
            proto_ver: self.proto_ver,
            address: self.address@,
            port: self.port,
            intent: self.intent,
        }
    }
}

impl View for LoginStartPacket {
    type V = LoginStartPacketView;

    closed spec fn view(&self) -> LoginStartPacketView {
        LoginStartPacketView { name: self.name@, uuid: self.uuid }
    }
}

impl View for PluginMessagePacket {
    type V = PluginMessagePacketView;

    open spec fn view(&self) -> PluginMessagePacketView {
        PluginMessagePacketView { channel: self.channel@, data: self.data@ }
    }
}

impl View for ClientInformationPacket {
    type V = ClientInformationPacketView;

    closed spec fn view(&self) -> ClientInformationPacketView {
        ClientInformationPacketView {
            locale: self.locale@,
            view_distance: self.view_distance,
            chat_options: self.chat_options@,
            displayed_skin: self.displayed_skin@,
            main_hand: self.main_hand,
            allow_listings: self.allow_listings,
            particle_options: self.particle_options,
        }
    }
}

impl View for LoginSuccessPacket {
    type V = ProfileView;

    closed spec fn view(&self) -> ProfileView {
        self.profile@
    }
}

impl View for StatusResponsePacket {
    type V = Seq<char>;

    closed spec fn view(&self) -> Seq<char> {
        self.response@
    }
}

impl View for ServerboundPacket {
    type V = ServerboundPacketView;

    open spec fn view(&self) -> ServerboundPacketView {
        match self {
            ServerboundPacket::Handshake(p) => ServerboundPacketView::Handshake(p@),
            ServerboundPacket::StatusRequest => ServerboundPacketView::StatusRequest,
            ServerboundPacket::StatusPing(n) => ServerboundPacketView::StatusPing(*n),
            ServerboundPacket::LoginStart(p) => ServerboundPacketView::LoginStart(p@),
            ServerboundPacket::LoginAcknowledged => ServerboundPacketView::LoginAcknowledged,
            ServerboundPacket::ConfigPong(n) => ServerboundPacketView::ConfigPong(*n),
            ServerboundPacket::PluginMessage(p) => ServerboundPacketView::PluginMessage(p@),
            ServerboundPacket::ClientInformation(p) => ServerboundPacketView::ClientInformation(p@),
            ServerboundPacket::KnownPacks(v) => ServerboundPacketView::KnownPacks(views(*v)),
            ServerboundPacket::FinishConfig => ServerboundPacketView::FinishConfig,
        }
    }
}

/// The kind of a packet value.
pub open spec fn view_type(p: ServerboundPacketView) -> ServerboundPacketType {
    match p {
        ServerboundPacketView::Handshake(_) => ServerboundPacketType::Handshake,
        ServerboundPacketView::StatusRequest => ServerboundPacketType::StatusRequest,
        ServerboundPacketView::StatusPing(_) => ServerboundPacketType::StatusPing,
        ServerboundPacketView::LoginStart(_) => ServerboundPacketType::LoginStart,
        ServerboundPacketView::LoginAcknowledged => ServerboundPacketType::LoginAcknowledged,
        ServerboundPacketView::ConfigPong(_) => ServerboundPacketType::ConfigPong,
        ServerboundPacketView::PluginMessage(_) => ServerboundPacketType::PluginMessage,
        ServerboundPacketView::ClientInformation(_) => ServerboundPacketType::ClientInformation,
        ServerboundPacketView::KnownPacks(_) => ServerboundPacketType::KnownPacks,
        ServerboundPacketView::FinishConfig => ServerboundPacketType::FinishConfig,
    }
}

impl ServerboundPacket {
    /// The kind of this packet.
    pub fn packet_type(&self) -> (r: ServerboundPacketType)
        ensures
            r == view_type(self@),
    {
        match self {
            Self::Handshake(_) => ServerboundPacketType::Handshake,
            Self::StatusRequest => ServerboundPacketType::StatusRequest,
            Self::StatusPing(_) => ServerboundPacketType::StatusPing,
            Self::LoginStart(_) => ServerboundPacketType::LoginStart,
            Self::LoginAcknowledged => ServerboundPacketType::LoginAcknowledged,
            Self::PluginMessage(_) => ServerboundPacketType::PluginMessage,
            Self::ClientInformation(_) => ServerboundPacketType::ClientInformation,
            Self::ConfigPong(_) => ServerboundPacketType::ConfigPong,
            Self::KnownPacks(_) => ServerboundPacketType::KnownPacks,
            Self::FinishConfig => ServerboundPacketType::FinishConfig,
        }
    }
}

/// The state a handshake's intent leads to: a transfer logs in.
pub open spec fn intent_state(i: HandshakeIntent) -> ProtocolState {
    match i {
        HandshakeIntent::Status => ProtocolState::Status,
        HandshakeIntent::Login => ProtocolState::Login,
        HandshakeIntent::Transfer => ProtocolState::Login,
    }
}

impl From<HandshakeIntent> for ProtocolState {
    fn from(intent: HandshakeIntent) -> (r: ProtocolState) {
        match intent {
            HandshakeIntent::Status => ProtocolState::Status,
            HandshakeIntent::Login => ProtocolState::Login,
            HandshakeIntent::Transfer => ProtocolState::Login,
        }
    }
}

impl vstd::std_specs::convert::FromSpecImpl<HandshakeIntent> for ProtocolState {
    open spec fn obeys_from_spec() -> bool {
        true
    }

    open spec fn from_spec(intent: HandshakeIntent) -> ProtocolState {
        intent_state(intent)
    }
}

impl HandshakePacket {
    /// What the client wants next.
    pub fn intent(&self) -> (r: HandshakeIntent)
        ensures
            r == self@.intent,
    {
        self.intent
    }

    /// The protocol version the client speaks.
    pub fn proto_ver(&self) -> (r: i32)
        ensures
            r == self@.proto_ver,
    {
        self.proto_ver
    }
}

impl LoginStartPacket {
    /// The name the client logs in with.
    pub fn name(&self) -> (r: &str)
        ensures
            r@ == self@.name,
    {
        self.name.as_str()
    }

    /// The uuid the client logs in with.
    pub fn uuid(&self) -> (r: u128)
        ensures
            r == self@.uuid,
    {
        self.uuid
    }
}

impl LoginSuccessPacket {
    /// The login success answer for a profile.
    pub fn new(profile: Profile) -> (r: Self)
        ensures
            r@ == profile@,
    {
        LoginSuccessPacket { profile }
    }
}

impl StatusResponsePacket {
    /// A status response with the given JSON text.
    pub fn new(data: String) -> (r: Self)
        ensures
            r@ == data@,
    {
        Self { response: data }
    }
}

// ---------------------------------------------------------------------------
// Reading serverbound packets

/// The meaning of a login start: the name, then the uuid as 16 big-endian bytes.
pub open spec fn spec_parse_login_start(s: Seq<u8>) -> SpecResult<LoginStartPacketView> {
    bind(
        spec_parse_string(s),
        s,
        |name: Seq<char>, s1: Seq<u8>|
            spec_parse_be(s1, 16).map(|u: nat| LoginStartPacketView { name, uuid: u as u128 }),
    )
}

/// The intent a handshake's number names.
pub open spec fn intent_of(n: i32) -> Option<HandshakeIntent> {
    if n == 1 {
        Some(HandshakeIntent::Status)
    } else if n == 2 {
        Some(HandshakeIntent::Login)
    } else if n == 3 {
        Some(HandshakeIntent::Transfer)
    } else {
        None
    }
}

/// The meaning of a handshake: protocol version, address, port (two
/// big-endian bytes) and intent; an unknown intent fails.
pub open spec fn spec_parse_handshake(s: Seq<u8>) -> SpecResult<HandshakePacketView> {
    bind(
        spec_parse_varint(s),
        s,
        |proto_ver: i32, s1: Seq<u8>|
            bind(
                spec_parse_string(s1),
                s1,
                |address: Seq<char>, s2: Seq<u8>|
                    bind(
                        spec_parse_be(s2, 2),
                        s2,
                        |port: nat, s3: Seq<u8>|
                            bind(
                                spec_parse_varint(s3),
                                s3,
                                |intent: i32, s4: Seq<u8>|
                                    match intent_of(intent) {
                                        Some(i) => SpecResult::Done(
                                            0,
                                            HandshakePacketView {
                                                proto_ver,
                                                address,
                                                port: port as u16,
                                                intent: i,
                                            },
                                        ),
                                        None => SpecResult::Failure(Error::UnknownIntent(intent)),
                                    },
                            ),
                    ),
            ),
    )
}

impl LoginStartPacket {
    /// Reads a login start; `None` where the name's length runs past the input.
    pub(crate) fn parse(data: &[u8]) -> (r: Option<IResult<&[u8], Self, Error<&[u8]>>>)
        ensures
            checked(r, data@, spec_parse_login_start(data@)),
    {
        let (rest, name) = match parse_string_checked(data) {
            None => return None,
            Some(Err(e)) => return Some(Err(e)),
            Some(Ok(x)) => x,
        };
        let ghost a = data@.len() - rest@.len();
        let (rest2, uuid) = match parse_be(rest, 16) {
            Err(e) => return Some(Err(e)),
            Ok(x) => x,
        };
        proof {
            crate::net::data::lemma_skip_skip(data@, a, rest@.len() - rest2@.len());
            crate::net::data::lemma_pow256_16();
            crate::net::data::lemma_be_value_bound(rest@.take(16));
        }
        Some(Ok((rest2, LoginStartPacket { name: name.to_owned(), uuid })))
    }
}

impl HandshakePacket {
    /// Reads a handshake; `None` where the address's length runs past the input.
    pub(crate) fn parse(input: &[u8]) -> (r: Option<IResult<&[u8], Self, Error<&[u8]>>>)
        ensures
            checked(r, input@, spec_parse_handshake(input@)),
    {
        let ghost s = input@;
        let (data, proto_ver) = match parse_varint(input) {
            Err(e) => return Some(Err(e)),
            Ok(x) => x,
        };
        let ghost a = s.len() - data@.len();
        let (data1, address) = match parse_string_checked(data) {
            None => return None,
            Some(Err(e)) => return Some(Err(e)),
            Some(Ok(x)) => x,
        };
        let ghost b = data@.len() - data1@.len();
        proof {
            crate::net::data::lemma_skip_skip(s, a, b);
        }
        let (data2, port) = match parse_be(data1, 2) {
            Err(e) => return Some(Err(e)),
            Ok(x) => x,
        };
        let ghost c = data1@.len() - data2@.len();
        proof {
            crate::net::data::lemma_skip_skip(s, a + b, c);
            crate::net::data::lemma_pow256_16();
            crate::net::data::lemma_be_value_bound(data1@.take(2));
        }
        let (data3, intent) = match parse_varint(data2) {
            Err(e) => return Some(Err(e)),
            Ok(x) => x,
        };
        let ghost d = data2@.len() - data3@.len();
        proof {
            crate::net::data::lemma_skip_skip(s, a + b + c, d);
        }
        let intent = match intent {
            1 => HandshakeIntent::Status,
            2 => HandshakeIntent::Login,
            3 => HandshakeIntent::Transfer,
            intent => return Some(Err(ParseFail::Failure(Error::UnknownIntent(intent)))),
        };
        Some(
            Ok(
                (
                    data3,
                    HandshakePacket { address: address.to_owned(), intent, port: port as u16, proto_ver },
                ),
            ),
        )
    }
}

/// The meaning of a plugin message: the channel identifier, then every
/// remaining byte as the payload.
pub open spec fn spec_parse_plugin_message(s: Seq<u8>) -> SpecResult<PluginMessagePacketView> {
    bind(
        crate::data::spec_parse_identifier(s),
        s,
        |channel: IdentifierView, s1: Seq<u8>|
            SpecResult::Done(s1.len(), PluginMessagePacketView { channel, data: s1 }),
    )
}

impl PluginMessagePacket {
    /// Reads a plugin message; `None` where the channel's length runs past the input.
    pub(crate) fn parse(data: &[u8]) -> (r: Option<IResult<&[u8], Self, Error<&[u8]>>>)
        ensures
            checked(r, data@, spec_parse_plugin_message(data@)),
    {
        let (payload, channel) = match Identifier::parse(data) {
            None => return None,
            Some(Err(e)) => return Some(Err(e)),
            Some(Ok(x)) => x,
        };
        let ghost a = data@.len() - payload@.len();
        proof {
            crate::net::data::lemma_skip_skip(data@, a, payload@.len() as int);
        }
        let owned = vstd::slice::slice_to_vec(payload);
        Some(Ok((&data[data.len()..data.len()], PluginMessagePacket { channel, data: owned })))
    }
}

/// The chat flags of a chat mode (0 enabled, 1 commands only, 2 hidden)
/// with the colors and filtering flags.
pub open spec fn chat_bits(mode: i32, colors: bool, filtering: bool) -> u8 {
    ((if mode == 0 {
        1int
    } else if mode == 1 {
        3int
    } else {
        0int
    }) + (if colors {
        4int
    } else {
        0int
    }) + (if filtering {
        8int
    } else {
        0int
    })) as u8
}

/// The particle setting a number names.
pub open spec fn particle_of(n: i32) -> ParticleOptions {
    if n == 0 {
        ParticleOptions::All
    } else if n == 1 {
        ParticleOptions::Decreased
    } else {
        ParticleOptions::Minimal
    }
}

/// The client information that the read fields describe, checked in the
/// order chat mode, particles, skin, hand.
pub open spec fn client_information(
    locale: Seq<char>,
    view_distance: u8,
    chat_mode: i32,
    chat_colors: bool,
    displayed_skin: u8,
    main_hand: i32,
    text_filtering: bool,
    allow_listings: bool,
    particle_options: i32,
) -> SpecResult<ClientInformationPacketView> {
    if !(0 <= chat_mode <= 2) {
        SpecResult::Failure(Error::ChatMode(chat_mode))
    } else if !(0 <= particle_options <= 2) {
        SpecResult::Failure(Error::ParticleOptions(particle_options))
    } else if displayed_skin >= 0x80 {
        SpecResult::Failure(Error::SkinOptions)
    } else if !(0 <= main_hand <= 1) {
        SpecResult::Failure(Error::UnknownHand(main_hand))
    } else {
        SpecResult::Done(
            0,
            ClientInformationPacketView {
                locale,
                view_distance,
                chat_options: chat_bits(chat_mode, chat_colors, text_filtering),
                displayed_skin,
                main_hand: if main_hand == 0 {
                    Hand::Left
                } else {
                    Hand::Right
                },
                allow_listings,
                particle_options: particle_of(particle_options),
            },
        )
    }
}

/// The meaning of client information: locale, view distance (one byte),
/// chat mode, chat colors, skin parts (one byte), main hand, text
/// filtering, server listing and particles.
#[verifier::opaque]
pub open spec fn spec_parse_client_information(s: Seq<u8>) -> SpecResult<ClientInformationPacketView> {
    bind(spec_parse_string(s), s, |locale: Seq<char>, s1: Seq<u8>| ci_view_distance(locale, s1))
}

#[verifier::opaque]
pub open spec fn ci_view_distance(locale: Seq<char>, s: Seq<u8>) -> SpecResult<
    ClientInformationPacketView,
> {
    bind(spec_parse_be(s, 1), s, |vd: nat, s1: Seq<u8>| ci_chat_mode(locale, vd as u8, s1))
}

#[verifier::opaque]
pub open spec fn ci_chat_mode(locale: Seq<char>, vd: u8, s: Seq<u8>) -> SpecResult<
    ClientInformationPacketView,
> {
    bind(spec_parse_varint(s), s, |cm: i32, s1: Seq<u8>| ci_chat_colors(locale, vd, cm, s1))
}

#[verifier::opaque]
pub open spec fn ci_chat_colors(locale: Seq<char>, vd: u8, cm: i32, s: Seq<u8>) -> SpecResult<
    ClientInformationPacketView,
> {
    bind(spec_parse_bool(s), s, |cc: bool, s1: Seq<u8>| ci_skin(locale, vd, cm, cc, s1))
}

#[verifier::opaque]
pub open spec fn ci_skin(locale: Seq<char>, vd: u8, cm: i32, cc: bool, s: Seq<u8>) -> SpecResult<
    ClientInformationPacketView,
> {
    bind(
        spec_parse_be(s, 1),
        s,
        |sk: nat, s1: Seq<u8>| ci_main_hand(locale, vd, cm, cc, sk as u8, s1),
    )
}

#[verifier::opaque]
pub open spec fn ci_main_hand(
    locale: Seq<char>,
    vd: u8,
    cm: i32,
    cc: bool,
    sk: u8,
    s: Seq<u8>,
) -> SpecResult<ClientInformationPacketView> {
    bind(
        spec_parse_varint(s),
        s,
        |mh: i32, s1: Seq<u8>| ci_filtering(locale, vd, cm, cc, sk, mh, s1),
    )
}

#[verifier::opaque]
pub open spec fn ci_filtering(
    locale: Seq<char>,
    vd: u8,
    cm: i32,
    cc: bool,
    sk: u8,
    mh: i32,
    s: Seq<u8>,
) -> SpecResult<ClientInformationPacketView> {
    bind(
        spec_parse_bool(s),
        s,
        |tf: bool, s1: Seq<u8>| ci_listings(locale, vd, cm, cc, sk, mh, tf, s1),
    )
}

#[verifier::opaque]
pub open spec fn ci_listings(
    locale: Seq<char>,
    vd: u8,
    cm: i32,
    cc: bool,
    sk: u8,
    mh: i32,
    tf: bool,
    s: Seq<u8>,
) -> SpecResult<ClientInformationPacketView> {
    bind(
        spec_parse_bool(s),
        s,
        |al: bool, s1: Seq<u8>| ci_particles(locale, vd, cm, cc, sk, mh, tf, al, s1),
    )
}

#[verifier::opaque]
pub open spec fn ci_particles(
    locale: Seq<char>,
    vd: u8,
    cm: i32,
    cc: bool,
    sk: u8,
    mh: i32,
    tf: bool,
    al: bool,
    s: Seq<u8>,
) -> SpecResult<ClientInformationPacketView> {
    bind(
        spec_parse_varint(s),
        s,
        |po: i32, s1: Seq<u8>| client_information(locale, vd, cm, cc, sk, mh, tf, al, po),
    )
}

impl ClientInformationPacket {
    /// Reads client information; `None` where the locale's length runs past the input.
    pub(crate) fn parse(data: &[u8]) -> (r: Option<IResult<&[u8], Self, Error<&[u8]>>>)
        ensures
            checked(r, data@, spec_parse_client_information(data@)),
    {
        let ghost s = data@;
        proof {
            crate::net::data::lemma_pow256_16();
        }
        let d0 = data;
        let ghost c0: nat = 0;
        let (d1, locale) = match parse_string_checked(d0) {
            None => {
                assert(spec_parse_client_information(s) == spec_parse_string(s).stopped::<ClientInformationPacketView>()) by {
                    reveal(spec_parse_client_information);
                }
                return None;
            },
            Some(Err(e)) => {
                assert(spec_parse_client_information(s) == spec_parse_string(s).stopped::<ClientInformationPacketView>()) by {
                    reveal(spec_parse_client_information);
                }
                return Some(Err(e));
            },
            Some(Ok(x)) => x,
        };
        let ghost c1 = (s.len() - d1@.len()) as nat;
        assert(spec_parse_client_information(s) == ci_view_distance(locale@, d1@).after(c1)) by {
            reveal(spec_parse_client_information);
        }
        let (d2, view_distance) = match parse_be(d1, 1) {
            Err(e) => {
                assert(ci_view_distance(locale@, d1@) == spec_parse_be(d1@, 1).stopped::<ClientInformationPacketView>()) by {
                    reveal(ci_view_distance);
                }
                assert(spec_parse_client_information(s) == spec_parse_be(d1@, 1).stopped::<ClientInformationPacketView>());
                return Some(Err(e));
            },
            Ok(x) => x,
        };
        let ghost c2 = (s.len() - d2@.len()) as nat;
        proof {
            crate::net::data::lemma_skip_skip(s, c1 as int, (d1@.len() - d2@.len()) as int);
            crate::net::data::lemma_be_value_bound(d1@.take(1));
            assert(ci_view_distance(locale@, d1@) == ci_chat_mode(locale@, view_distance as u8, d2@).after((c2 - c1) as nat)) by {
                reveal(ci_view_distance);
            }
            lemma_after_after(ci_chat_mode(locale@, view_distance as u8, d2@), (c2 - c1) as nat, c1);
            assert(spec_parse_client_information(s) == ci_chat_mode(locale@, view_distance as u8, d2@).after(c2));
        }
        let (d3, chat_mode) = match parse_varint(d2) {
            Err(e) => {
                assert(ci_chat_mode(locale@, view_distance as u8, d2@) == spec_parse_varint(d2@).stopped::<ClientInformationPacketView>()) by {
                    reveal(ci_chat_mode);
                }
                assert(spec_parse_client_information(s) == spec_parse_varint(d2@).stopped::<ClientInformationPacketView>());
                return Some(Err(e));
            },
            Ok(x) => x,
        };
        let ghost c3 = (s.len() - d3@.len()) as nat;
        proof {
            crate::net::data::lemma_skip_skip(s, c2 as int, (d2@.len() - d3@.len()) as int);
            assert(ci_chat_mode(locale@, view_distance as u8, d2@) == ci_chat_colors(locale@, view_distance as u8, chat_mode, d3@).after((c3 - c2) as nat)) by {
                reveal(ci_chat_mode);
            }
            lemma_after_after(ci_chat_colors(locale@, view_distance as u8, chat_mode, d3@), (c3 - c2) as nat, c2);
            assert(spec_parse_client_information(s) == ci_chat_colors(locale@, view_distance as u8, chat_mode, d3@).after(c3));
        }
        let (d4, chat_colors) = match parse_bool(d3) {
            Err(e) => {
                assert(ci_chat_colors(locale@, view_distance as u8, chat_mode, d3@) == spec_parse_bool(d3@).stopped::<ClientInformationPacketView>()) by {
                    reveal(ci_chat_colors);
                }
                assert(spec_parse_client_information(s) == spec_parse_bool(d3@).stopped::<ClientInformationPacketView>());
                return Some(Err(e));
            },
            Ok(x) => x,
        };
        let ghost c4 = (s.len() - d4@.len()) as nat;
        proof {
            crate::net::data::lemma_skip_skip(s, c3 as int, (d3@.len() - d4@.len()) as int);
            assert(ci_chat_colors(locale@, view_distance as u8, chat_mode, d3@) == ci_skin(locale@, view_distance as u8, chat_mode, chat_colors, d4@).after((c4 - c3) as nat)) by {
                reveal(ci_chat_colors);
            }
            lemma_after_after(ci_skin(locale@, view_distance as u8, chat_mode, chat_colors, d4@), (c4 - c3) as nat, c3);
            assert(spec_parse_client_information(s) == ci_skin(locale@, view_distance as u8, chat_mode, chat_colors, d4@).after(c4));
        }
        let r = Self::parse_tail(d4, locale, view_distance as u8, chat_mode, chat_colors);
        proof {
            crate::net::data::lemma_agrees_after(
                r->0,
                s,
                c4,
                ci_skin(locale@, view_distance as u8, chat_mode, chat_colors, d4@),
                |p: Self| p@,
            );
        }
        r
    }

    /// Reads the fields after the chat colors and checks them all.
    fn parse_tail<'a>(
        d4: &'a [u8],
        locale: &str,
        view_distance: u8,
        chat_mode: i32,
        chat_colors: bool,
    ) -> (r: Option<IResult<&'a [u8], Self, Error<&'a [u8]>>>)
        ensures
            r matches Some(x) && agrees_by(
                x,
                d4@,
                ci_skin(locale@, view_distance, chat_mode, chat_colors, d4@),
                |p: Self| p@,
            ),
    {
        let ghost s = d4@;
        let ghost c4: nat = 0;
        proof {
            crate::net::data::lemma_pow256_16();
        }
        let (d5, displayed_skin) = match parse_be(d4, 1) {
            Err(e) => {
                assert(ci_skin(locale@, view_distance, chat_mode, chat_colors, d4@) == spec_parse_be(d4@, 1).stopped::<ClientInformationPacketView>()) by {
                    reveal(ci_skin);
                }
                assert(ci_skin(locale@, view_distance, chat_mode, chat_colors, s) == spec_parse_be(d4@, 1).stopped::<ClientInformationPacketView>());
                return Some(Err(e));
            },
            Ok(x) => x,
        };
        let ghost c5 = (s.len() - d5@.len()) as nat;
        proof {
            crate::net::data::lemma_skip_skip(s, c4 as int, (d4@.len() - d5@.len()) as int);
            crate::net::data::lemma_be_value_bound(d4@.take(1));
            assert(ci_skin(locale@, view_distance, chat_mode, chat_colors, d4@) == ci_main_hand(locale@, view_distance, chat_mode, chat_colors, displayed_skin as u8, d5@).after((c5 - c4) as nat)) by {
                reveal(ci_skin);
            }
            lemma_after_after(ci_main_hand(locale@, view_distance, chat_mode, chat_colors, displayed_skin as u8, d5@), (c5 - c4) as nat, c4);
            assert(ci_skin(locale@, view_distance, chat_mode, chat_colors, s) == ci_main_hand(locale@, view_distance, chat_mode, chat_colors, displayed_skin as u8, d5@).after(c5));
        }
        let (d6, main_hand) = match parse_varint(d5) {
            Err(e) => {
                assert(ci_main_hand(locale@, view_distance, chat_mode, chat_colors, displayed_skin as u8, d5@) == spec_parse_varint(d5@).stopped::<ClientInformationPacketView>()) by {
                    reveal(ci_main_hand);
                }
                assert(ci_skin(locale@, view_distance, chat_mode, chat_colors, s) == spec_parse_varint(d5@).stopped::<ClientInformationPacketView>());
                return Some(Err(e));
            },
            Ok(x) => x,
        };
        let ghost c6 = (s.len() - d6@.len()) as nat;
        proof {
            crate::net::data::lemma_skip_skip(s, c5 as int, (d5@.len() - d6@.len()) as int);
            assert(ci_main_hand(locale@, view_distance, chat_mode, chat_colors, displayed_skin as u8, d5@) == ci_filtering(locale@, view_distance, chat_mode, chat_colors, displayed_skin as u8, main_hand, d6@).after((c6 - c5) as nat)) by {
                reveal(ci_main_hand);
            }
            lemma_after_after(ci_filtering(locale@, view_distance, chat_mode, chat_colors, displayed_skin as u8, main_hand, d6@), (c6 - c5) as nat, c5);
            assert(ci_skin(locale@, view_distance, chat_mode, chat_colors, s) == ci_filtering(locale@, view_distance, chat_mode, chat_colors, displayed_skin as u8, main_hand, d6@).after(c6));
        }
        let (d7, text_filtering) = match parse_bool(d6) {
            Err(e) => {
                assert(ci_filtering(locale@, view_distance, chat_mode, chat_colors, displayed_skin as u8, main_hand, d6@) == spec_parse_bool(d6@).stopped::<ClientInformationPacketView>()) by {
                    reveal(ci_filtering);
                }
                assert(ci_skin(locale@, view_distance, chat_mode, chat_colors, s) == spec_parse_bool(d6@).stopped::<ClientInformationPacketView>());
                return Some(Err(e));
            },
            Ok(x) => x,
        };
        let ghost c7 = (s.len() - d7@.len()) as nat;
        proof {
            crate::net::data::lemma_skip_skip(s, c6 as int, (d6@.len() - d7@.len()) as int);
            assert(ci_filtering(locale@, view_distance, chat_mode, chat_colors, displayed_skin as u8, main_hand, d6@) == ci_listings(locale@, view_distance, chat_mode, chat_colors, displayed_skin as u8, main_hand, text_filtering, d7@).after((c7 - c6) as nat)) by {
                reveal(ci_filtering);
            }
            lemma_after_after(ci_listings(locale@, view_distance, chat_mode, chat_colors, displayed_skin as u8, main_hand, text_filtering, d7@), (c7 - c6) as nat, c6);
            assert(ci_skin(locale@, view_distance, chat_mode, chat_colors, s) == ci_listings(locale@, view_distance, chat_mode, chat_colors, displayed_skin as u8, main_hand, text_filtering, d7@).after(c7));
        }
        let (d8, allow_listings) = match parse_bool(d7) {
            Err(e) => {
                assert(ci_listings(locale@, view_distance, chat_mode, chat_colors, displayed_skin as u8, main_hand, text_filtering, d7@) == spec_parse_bool(d7@).stopped::<ClientInformationPacketView>()) by {
                    reveal(ci_listings);
                }
                assert(ci_skin(locale@, view_distance, chat_mode, chat_colors, s) == spec_parse_bool(d7@).stopped::<ClientInformationPacketView>());
                return Some(Err(e));
            },
            Ok(x) => x,
        };
        let ghost c8 = (s.len() - d8@.len()) as nat;
        proof {
            crate::net::data::lemma_skip_skip(s, c7 as int, (d7@.len() - d8@.len()) as int);
            assert(ci_listings(locale@, view_distance, chat_mode, chat_colors, displayed_skin as u8, main_hand, text_filtering, d7@) == ci_particles(locale@, view_distance, chat_mode, chat_colors, displayed_skin as u8, main_hand, text_filtering, allow_listings, d8@).after((c8 - c7) as nat)) by {
                reveal(ci_listings);
            }
            lemma_after_after(ci_particles(locale@, view_distance, chat_mode, chat_colors, displayed_skin as u8, main_hand, text_filtering, allow_listings, d8@), (c8 - c7) as nat, c7);
            assert(ci_skin(locale@, view_distance, chat_mode, chat_colors, s) == ci_particles(locale@, view_distance, chat_mode, chat_colors, displayed_skin as u8, main_hand, text_filtering, allow_listings, d8@).after(c8));
        }
        let (d9, particle_options) = match parse_varint(d8) {
            Err(e) => {
                assert(ci_particles(locale@, view_distance, chat_mode, chat_colors, displayed_skin as u8, main_hand, text_filtering, allow_listings, d8@) == spec_parse_varint(d8@).stopped::<ClientInformationPacketView>()) by {
                    reveal(ci_particles);
                }
                assert(ci_skin(locale@, view_distance, chat_mode, chat_colors, s) == spec_parse_varint(d8@).stopped::<ClientInformationPacketView>());
                return Some(Err(e));
            },
            Ok(x) => x,
        };
        let ghost c9 = (s.len() - d9@.len()) as nat;
        proof {
            crate::net::data::lemma_skip_skip(s, c8 as int, (d8@.len() - d9@.len()) as int);
            assert(ci_particles(locale@, view_distance, chat_mode, chat_colors, displayed_skin as u8, main_hand, text_filtering, allow_listings, d8@) == client_information(locale@, view_distance, chat_mode, chat_colors, displayed_skin as u8, main_hand, text_filtering, allow_listings, particle_options).after((c9 - c8) as nat)) by {
                reveal(ci_particles);
            }
            lemma_after_after(client_information(locale@, view_distance, chat_mode, chat_colors, displayed_skin as u8, main_hand, text_filtering, allow_listings, particle_options), (c9 - c8) as nat, c8);
            assert(ci_skin(locale@, view_distance, chat_mode, chat_colors, s) == client_information(locale@, view_distance, chat_mode, chat_colors, displayed_skin as u8, main_hand, text_filtering, allow_listings, particle_options).after(c9));
        }
        assert(ci_skin(locale@, view_distance, chat_mode, chat_colors, s) == client_information(locale@, view_distance, chat_mode, chat_colors, displayed_skin as u8, main_hand, text_filtering, allow_listings, particle_options).after(c9));
        let r = Self::validate(d9, locale, view_distance, chat_mode, chat_colors, displayed_skin as u8, main_hand, text_filtering, allow_listings, particle_options);
        proof {
            crate::net::data::lemma_agrees_after(
                r->0,
                s,
                c9,
                client_information(locale@, view_distance, chat_mode, chat_colors, displayed_skin as u8, main_hand, text_filtering, allow_listings, particle_options),
                |p: Self| p@,
            );
        }
        r
    }

    /// Checks the read fields and builds the client information.
    fn validate<'a>(
        rest: &'a [u8],
        locale: &str,
        view_distance: u8,
        chat_mode: i32,
        chat_colors: bool,
        displayed_skin: u8,
        main_hand: i32,
        text_filtering: bool,
        allow_listings: bool,
        particle_options: i32,
    ) -> (r: Option<IResult<&'a [u8], Self, Error<&'a [u8]>>>)
        ensures
            r matches Some(x) && agrees_by(
                x,
                rest@,
                client_information(locale@, view_distance, chat_mode, chat_colors, displayed_skin, main_hand, text_filtering, allow_listings, particle_options),
                |p: Self| p@,
            ),
    {
        let mut chat_options = ChatOptions::empty();
        match chat_mode {
            0 => chat_options = chat_options.union(ChatOptions::from_bits_truncate(ChatOptions::ENABLED)),
            1 => chat_options = chat_options.union(
                ChatOptions::from_bits_truncate(ChatOptions::ENABLED).union(
                    ChatOptions::from_bits_truncate(ChatOptions::COMMANDS_ONLY),
                ),
            ),
            2 => {},
            chat_mode => return Some(Err(ParseFail::Failure(Error::ChatMode(chat_mode)))),
        }
        let ghost base = chat_options@;
        assert(base == (if chat_mode == 0 { 1u8 } else if chat_mode == 1 { 3u8 } else { 0u8 })) by {
            assert((0u8 | (1u8 & 0x0fu8)) == 1u8) by (bit_vector);
            assert((0u8 | ((1u8 & 0x0fu8) | (2u8 & 0x0fu8))) == 3u8) by (bit_vector);
        }
        if chat_colors {
            chat_options = chat_options.union(ChatOptions::from_bits_truncate(ChatOptions::COLORS_ENABLED));
        }
        let ghost with_colors = chat_options@;
        assert(with_colors == base + if chat_colors { 4u8 } else { 0u8 }) by {
            assert(forall|b: u8| (b == 1 || b == 3 || b == 0) ==> #[trigger] (b | (4u8 & 0x0fu8)) == b + 4) by (bit_vector);
        }
        if text_filtering {
            chat_options = chat_options.union(ChatOptions::from_bits_truncate(ChatOptions::FILTERING_ENABLED));
        }
        assert(chat_options@ == with_colors + if text_filtering { 8u8 } else { 0u8 }) by {
            assert(forall|b: u8| b < 8 ==> #[trigger] (b | (8u8 & 0x0fu8)) == b + 8) by (bit_vector);
        }
        let particle_options = match particle_options {
            0 => ParticleOptions::All,
            1 => ParticleOptions::Decreased,
            2 => ParticleOptions::Minimal,
            _ => return Some(Err(ParseFail::Failure(Error::ParticleOptions(particle_options)))),
        };
        let displayed_skin = match SkinOptions::from_bits(displayed_skin) {
            Some(o) => o,
            None => return Some(Err(ParseFail::Failure(Error::SkinOptions))),
        };
        let main_hand = match main_hand {
            0 => Hand::Left,
            1 => Hand::Right,
            _ => return Some(Err(ParseFail::Failure(Error::UnknownHand(main_hand)))),
        };
        assert(rest@.skip(0) =~= rest@);
        Some(
            Ok(
                (
                    rest,
                    Self {
                        locale: locale.to_owned(),
                        view_distance,
                        allow_listings,
                        chat_options,
                        displayed_skin,
                        main_hand,
                        particle_options,
                    },
                ),
            ),
        )
    }
}

/// The meaning of a packet in the handshaking state: only the handshake
/// (id 0) is known; the legacy ping (id 0xFE) stops the server.
pub open spec fn spec_parse_handshaking(s: Seq<u8>) -> SpecResult<ServerboundPacketView> {
    bind(
        spec_parse_varint(s),
        s,
        |id: i32, s1: Seq<u8>|
            if id == 0 {
                spec_parse_handshake(s1).map(|p: HandshakePacketView| ServerboundPacketView::Handshake(p))
            } else if id == 0xFE {
                SpecResult::Abort
            } else {
                SpecResult::Failure(Error::UnknownPacket(ProtocolState::Handshaking, id))
            },
    )
}

/// The meaning of a packet in the status state: a request (id 0) or a
/// ping with eight big-endian bytes (id 1).
pub open spec fn spec_parse_status(s: Seq<u8>) -> SpecResult<ServerboundPacketView> {
    bind(
        spec_parse_varint(s),
        s,
        |id: i32, s1: Seq<u8>|
            if id == 0 {
                SpecResult::Done(0, ServerboundPacketView::StatusRequest)
            } else if id == 1 {
                spec_parse_be(s1, 8).map(|n: nat| ServerboundPacketView::StatusPing(n as u64))
            } else {
                SpecResult::Failure(Error::UnknownPacket(ProtocolState::Status, id))
            },
    )
}

/// The meaning of a packet in the login state: a login start (id 0) or an
/// acknowledgement (id 3).
pub open spec fn spec_parse_login(s: Seq<u8>) -> SpecResult<ServerboundPacketView> {
    bind(
        spec_parse_varint(s),
        s,
        |id: i32, s1: Seq<u8>|
            if id == 0 {
                spec_parse_login_start(s1).map(|p: LoginStartPacketView| ServerboundPacketView::LoginStart(p))
            } else if id == 3 {
                SpecResult::Done(0, ServerboundPacketView::LoginAcknowledged)
            } else {
                SpecResult::Failure(Error::UnknownPacket(ProtocolState::Login, id))
            },
    )
}

/// The meaning of a packet in the configuration state: client information
/// (id 0), a plugin message (id 2), the end of configuration (id 3) or the
/// known datapacks as an array (id 7).
pub open spec fn spec_parse_configuration(s: Seq<u8>) -> SpecResult<ServerboundPacketView> {
    bind(
        spec_parse_varint(s),
        s,
        |id: i32, s1: Seq<u8>|
            if id == 0 {
                spec_parse_client_information(s1).map(
                    |p: ClientInformationPacketView| ServerboundPacketView::ClientInformation(p),
                )
            } else if id == 2 {
                spec_parse_plugin_message(s1).map(
                    |p: PluginMessagePacketView| ServerboundPacketView::PluginMessage(p),
                )
            } else if id == 3 {
                SpecResult::Done(0, ServerboundPacketView::FinishConfig)
            } else if id == 7 {
                spec_parse_array::<DatapackVersion>(s1).map(
                    |v: Seq<DatapackVersionView>| ServerboundPacketView::KnownPacks(v),
                )
            } else {
                SpecResult::Failure(Error::UnknownPacket(ProtocolState::Configuration, id))
            },
    )
}

/// The meaning of a serverbound packet (its id and payload) in a state. An
/// empty input asks for more; the play state stops the server.
pub open spec fn spec_parse_serverbound(state: ProtocolState, s: Seq<u8>) -> SpecResult<
    ServerboundPacketView,
> {
    if s.len() == 0 {
        SpecResult::Incomplete(Needed::Unknown)
    } else {
        match state {
            ProtocolState::Handshaking => spec_parse_handshaking(s),
            ProtocolState::Login => spec_parse_login(s),
            ProtocolState::Configuration => spec_parse_configuration(s),
            ProtocolState::Status => spec_parse_status(s),
            ProtocolState::Play => SpecResult::Abort,
        }
    }
}

/// A read packet value of `data` after `c` bytes, as the answer of the
/// whole input.
proof fn lemma_done_after(
    x: IResult<&[u8], ServerboundPacket, Error<&[u8]>>,
    s: Seq<u8>,
    c: nat,
    inner: SpecResult<ServerboundPacketView>,
)
    requires
        c <= s.len(),
        agrees_by(x, s.skip(c as int), inner, |p: ServerboundPacket| p@),
    ensures
        agrees_by(x, s, inner.after(c), |p: ServerboundPacket| p@),
{
    crate::net::data::lemma_agrees_after(x, s, c, inner, |p: ServerboundPacket| p@);
}

impl ServerboundPacket {
    fn parse_handshaking(data: &[u8]) -> (r: Option<IResult<&[u8], ServerboundPacket, Error<&[u8]>>>)
        ensures
            checked(r, data@, spec_parse_handshaking(data@)),
    {
        let (d, packet_type) = match parse_varint(data) {
            Err(e) => return Some(Err(e)),
            Ok(x) => x,
        };
        let ghost c = (data@.len() - d@.len()) as nat;
        let ghost s1 = d@;
        let r = match packet_type {
            0x00 => match HandshakePacket::parse(d) {
                None => return None,
                Some(Err(e)) => Err(e),
                Some(Ok((d2, packet))) => Ok((d2, Self::Handshake(packet))),
            },
            0xFE => return None,
            ptype => Err(ParseFail::Failure(Error::UnknownPacket(ProtocolState::Handshaking, ptype))),
        };
        proof {
            if packet_type == 0 {
                assert(agrees_by(r, s1, spec_parse_handshake(s1).map(|p: HandshakePacketView| ServerboundPacketView::Handshake(p)), |p: ServerboundPacket| p@));
            }
            lemma_done_after(r, data@, c, if packet_type == 0 {
                spec_parse_handshake(s1).map(|p: HandshakePacketView| ServerboundPacketView::Handshake(p))
            } else {
                SpecResult::Failure(Error::UnknownPacket(ProtocolState::Handshaking, packet_type))
            });
        }
        Some(r)
    }

    fn parse_status(data: &[u8]) -> (r: Option<IResult<&[u8], ServerboundPacket, Error<&[u8]>>>)
        ensures
            checked(r, data@, spec_parse_status(data@)),
    {
        let (d, packet_type) = match parse_varint(data) {
            Err(e) => return Some(Err(e)),
            Ok(x) => x,
        };
        let ghost c = (data@.len() - d@.len()) as nat;
        let ghost s1 = d@;
        let ghost inner = if packet_type == 0 {
            SpecResult::Done(0, ServerboundPacketView::StatusRequest)
        } else if packet_type == 1 {
            spec_parse_be(s1, 8).map(|n: nat| ServerboundPacketView::StatusPing(n as u64))
        } else {
            SpecResult::Failure(Error::UnknownPacket(ProtocolState::Status, packet_type))
        };
        proof {
            crate::net::data::lemma_pow256_16();
        }
        let r = match packet_type {
            0x00 => {
                assert(s1.skip(0) =~= s1);
                Ok((d, Self::StatusRequest))
            },
            0x01 => match parse_be(d, 8) {
                Err(e) => Err(e),
                Ok((d2, n)) => {
                    proof {
                        crate::net::data::lemma_be_value_bound(s1.take(8));
                    }
                    Ok((d2, Self::StatusPing(n as u64)))
                },
            },
            ptype => Err(ParseFail::Failure(Error::UnknownPacket(ProtocolState::Status, ptype))),
        };
        proof {
            lemma_done_after(r, data@, c, inner);
        }
        Some(r)
    }

    fn parse_login(data: &[u8]) -> (r: Option<IResult<&[u8], ServerboundPacket, Error<&[u8]>>>)
        ensures
            checked(r, data@, spec_parse_login(data@)),
    {
        let (d, packet_type) = match parse_varint(data) {
            Err(e) => return Some(Err(e)),
            Ok(x) => x,
        };
        let ghost c = (data@.len() - d@.len()) as nat;
        let ghost s1 = d@;
        let ghost inner = if packet_type == 0 {
            spec_parse_login_start(s1).map(|p: LoginStartPacketView| ServerboundPacketView::LoginStart(p))
        } else if packet_type == 3 {
            SpecResult::Done(0, ServerboundPacketView::LoginAcknowledged)
        } else {
            SpecResult::Failure(Error::UnknownPacket(ProtocolState::Login, packet_type))
        };
        let r = match packet_type {
            0x00 => match LoginStartPacket::parse(d) {
                None => return None,
                Some(Err(e)) => Err(e),
                Some(Ok((d2, packet))) => Ok((d2, Self::LoginStart(packet))),
            },
            0x03 => {
                assert(s1.skip(0) =~= s1);
                Ok((d, Self::LoginAcknowledged))
            },
            ptype => Err(ParseFail::Failure(Error::UnknownPacket(ProtocolState::Login, ptype))),
        };
        proof {
            lemma_done_after(r, data@, c, inner);
        }
        Some(r)
    }

    fn parse_configuration(data: &[u8]) -> (r: Option<IResult<&[u8], ServerboundPacket, Error<&[u8]>>>)
        ensures
            checked(r, data@, spec_parse_configuration(data@)),
    {
        let (d, packet_type) = match parse_varint(data) {
            Err(e) => return Some(Err(e)),
            Ok(x) => x,
        };
        let ghost c = (data@.len() - d@.len()) as nat;
        let ghost s1 = d@;
        let ghost inner = if packet_type == 0 {
            spec_parse_client_information(s1).map(
                |p: ClientInformationPacketView| ServerboundPacketView::ClientInformation(p),
            )
        } else if packet_type == 2 {
            spec_parse_plugin_message(s1).map(
                |p: PluginMessagePacketView| ServerboundPacketView::PluginMessage(p),
            )
        } else if packet_type == 3 {
            SpecResult::Done(0, ServerboundPacketView::FinishConfig)
        } else if packet_type == 7 {
            spec_parse_array::<DatapackVersion>(s1).map(
                |v: Seq<DatapackVersionView>| ServerboundPacketView::KnownPacks(v),
            )
        } else {
            SpecResult::Failure(Error::UnknownPacket(ProtocolState::Configuration, packet_type))
        };
        let r = match packet_type {
            0x00 => match ClientInformationPacket::parse(d) {
                None => return None,
                Some(Err(e)) => Err(e),
                Some(Ok((d2, packet))) => Ok((d2, Self::ClientInformation(packet))),
            },
            0x02 => match PluginMessagePacket::parse(d) {
                None => return None,
                Some(Err(e)) => Err(e),
                Some(Ok((d2, packet))) => Ok((d2, Self::PluginMessage(packet))),
            },
            0x03 => {
                assert(s1.skip(0) =~= s1);
                Ok((d, Self::FinishConfig))
            },
            0x07 => match parse_array_checked::<DatapackVersion>(d) {
                None => return None,
                Some(Err(e)) => Err(e),
                Some(Ok((d2, datapacks))) => Ok((d2, Self::KnownPacks(datapacks))),
            },
            ptype => Err(ParseFail::Failure(Error::UnknownPacket(ProtocolState::Configuration, ptype))),
        };
        proof {
            lemma_done_after(r, data@, c, inner);
        }
        Some(r)
    }

    /// Reads a serverbound packet in the given state; `None` exactly where
    /// the input reaches a case that stops the server.
    pub fn parse_checked(state: ProtocolState, input: &[u8]) -> (r: Option<
        IResult<&[u8], ServerboundPacket, Error<&[u8]>>,
    >)
        ensures
            checked(r, input@, spec_parse_serverbound(state, input@)),
    {
        if input.len() == 0 {
            return Some(Err(ParseFail::Incomplete(Needed::Unknown)));
        }
        match state {
            ProtocolState::Handshaking => Self::parse_handshaking(input),
            ProtocolState::Login => Self::parse_login(input),
            ProtocolState::Configuration => Self::parse_configuration(input),
            ProtocolState::Status => Self::parse_status(input),
            ProtocolState::Play => None,
        }
    }

    /// Reads a serverbound packet (id and payload) in the given state.
    pub fn parse(state: ProtocolState, input: &[u8]) -> (r: IResult<&[u8], ServerboundPacket, Error<&[u8]>>)
        requires
            !(spec_parse_serverbound(state, input@) is Abort),
        ensures
            agrees(r, input@, spec_parse_serverbound(state, input@)),
    {
        match Self::parse_checked(state, input) {
            Some(r) => r,
            None => {
                assert(false);
                Err(ParseFail::Incomplete(Needed::Unknown))
            },
        }
    }
}

// ---------------------------------------------------------------------------
// Writing clientbound packets

/// The mathematical value of a clientbound packet.
pub enum ClientboundPacketView {
    SetCompression(u32),
    LoginSuccess(ProfileView),
    StatusResponse(Seq<char>),
    StatusPong(u64),
    ConfigPing(u32),
    KnownPacks(Seq<DatapackVersionView>),
    ConfigPluginMessage(PluginMessagePacketView),
    FinishConfig,
}

impl View for ClientboundPacket {
    type V = ClientboundPacketView;

    open spec fn view(&self) -> ClientboundPacketView {
        match self {
            ClientboundPacket::SetCompression(n) => ClientboundPacketView::SetCompression(*n),
            ClientboundPacket::LoginSuccess(p) => ClientboundPacketView::LoginSuccess(p@),
            ClientboundPacket::StatusResponse(p) => ClientboundPacketView::StatusResponse(p@),
            ClientboundPacket::StatusPong(n) => ClientboundPacketView::StatusPong(*n),
            ClientboundPacket::ConfigPing(n) => ClientboundPacketView::ConfigPing(*n),
            ClientboundPacket::KnownPacks(v) => ClientboundPacketView::KnownPacks(views(*v)),
            ClientboundPacket::ConfigPluginMessage(p) => ClientboundPacketView::ConfigPluginMessage(p@),
            ClientboundPacket::FinishConfig => ClientboundPacketView::FinishConfig,
        }
    }
}

/// The bytes of a plugin message: the channel as `namespace:value`, then
/// the payload as it is.
pub open spec fn plugin_message_bytes(p: PluginMessagePacketView) -> Seq<u8> {
    string_bytes(identifier_text(p.channel)) + p.data
}

/// The bytes of a clientbound packet: its id as a VarInt, then its payload.
pub open spec fn clientbound_bytes(p: ClientboundPacketView) -> Seq<u8> {
    match p {
        ClientboundPacketView::SetCompression(n) => spec_varint(3) + be_bytes(n as nat, 4),
        ClientboundPacketView::LoginSuccess(profile) => spec_varint(2) + profile_bytes(profile),
        ClientboundPacketView::StatusResponse(text) => spec_varint(0) + string_bytes(text),
        ClientboundPacketView::StatusPong(n) => spec_varint(1) + be_bytes(n as nat, 8),
        ClientboundPacketView::ConfigPing(n) => spec_varint(5) + be_bytes(n as nat, 4),
        ClientboundPacketView::KnownPacks(packs) => spec_varint(14) + array_bytes::<DatapackVersion>(
            packs,
        ),
        ClientboundPacketView::ConfigPluginMessage(m) => spec_varint(1) + plugin_message_bytes(m),
        ClientboundPacketView::FinishConfig => spec_varint(3),
    }
}

impl PluginMessagePacket {
    /// Writes the channel as a string, then the payload.
    pub(crate) fn generate(&self, out: &mut Vec<u8>)
        ensures
            final(out)@ == old(out)@ + plugin_message_bytes(self@),
    {
        let channel = self.channel.to_string();
        generate_string(channel.as_str(), out);
        extend_bytes(out, self.data.as_slice());
        assert(out@ =~= old(out)@ + plugin_message_bytes(self@));
    }
}

impl LoginSuccessPacket {
    /// Writes the profile.
    pub fn generate(&self, out: &mut Vec<u8>)
        ensures
            final(out)@ == old(out)@ + profile_bytes(self@),
    {
        self.profile.generate(out);
    }
}

impl StatusResponsePacket {
    /// Writes the JSON text as a string.
    pub(crate) fn generate(&self, out: &mut Vec<u8>)
        ensures
            final(out)@ == old(out)@ + string_bytes(self@),
    {
        generate_string(self.response.as_str(), out);
    }
}

impl ClientboundPacket {
    /// Writes the packet: its id as a VarInt, then its payload.
    pub fn generate(&self, out: &mut Vec<u8>)
        ensures
            final(out)@ == old(out)@ + clientbound_bytes(self@),
    {
        match self {
            Self::SetCompression(n) => {
                generate_varint(3, out);
                generate_be(*n as u128, 4, out);
            },
            Self::LoginSuccess(packet) => {
                generate_varint(2, out);
                packet.generate(out);
            },
            Self::StatusResponse(packet) => {
                generate_varint(0, out);
                packet.generate(out);
            },
            Self::StatusPong(n) => {
                generate_varint(1, out);
                generate_be(*n as u128, 8, out);
            },
            Self::ConfigPing(n) => {
                generate_varint(5, out);
                generate_be(*n as u128, 4, out);
            },
            Self::KnownPacks(packs) => {
                generate_varint(14, out);
                generate_array(packs.as_slice(), out);
            },
            Self::ConfigPluginMessage(packet) => {
                generate_varint(1, out);
                packet.generate(out);
            },
            Self::FinishConfig => {
                generate_varint(3, out);
            },
        }
        assert(out@ =~= old(out)@ + clientbound_bytes(self@));
    }
}

/// Law: the payload of a plugin message written by the server reads back
/// as the same message, for a channel whose namespace has no `:` and whose
/// text fits a VarInt length.
pub proof fn lemma_plugin_message_roundtrip(m: PluginMessagePacketView)
    requires
        Identifier::encodable(m.channel),
    ensures
        spec_parse_plugin_message(plugin_message_bytes(m)) == SpecResult::Done(
            plugin_message_bytes(m).len(),
            m,
        ),
{
    let head = string_bytes(identifier_text(m.channel));
    Identifier::lemma_roundtrip(m.channel, m.data);
    let s = plugin_message_bytes(m);
    assert(s.skip(head.len() as int) =~= m.data);
}

/// The one byte of a VarInt below 128.
proof fn lemma_small_varint(n: i32)
    requires
        0 <= n < 128,
    ensures
        spec_varint(n) == seq![n as u8],
{
    assert((n as u32) as nat == n as nat);
}

/// Law: a handshake's intent number names the intent (1 status, 2 login,
/// 3 transfer), and the intent decides the state that follows: a status
/// handshake leads to the status state, a login or a transfer to the login
/// state.
pub proof fn lemma_intent_states()
    ensures
        intent_of(1) == Some(HandshakeIntent::Status),
        intent_of(2) == Some(HandshakeIntent::Login),
        intent_of(3) == Some(HandshakeIntent::Transfer),
        forall|n: i32| !(1 <= n <= 3) ==> #[trigger] intent_of(n) is None,
        intent_state(HandshakeIntent::Status) == ProtocolState::Status,
        intent_state(HandshakeIntent::Login) == ProtocolState::Login,
        intent_state(HandshakeIntent::Transfer) == ProtocolState::Login,
{
}

/// Law: a login start carries the whole name and the whole 128-bit uuid
/// written big-endian after it, whatever follows, for names whose UTF-8
/// fits a VarInt length.
pub proof fn lemma_login_start_reads_back(name: Seq<char>, uuid: u128, rest: Seq<u8>)
    requires
        vstd::utf8::encode_utf8(name).len() <= i32::MAX,
    ensures
        spec_parse_login_start(string_bytes(name) + be_bytes(uuid as nat, 16) + rest)
            == SpecResult::Done(
            string_bytes(name).len() + 16,
            LoginStartPacketView { name, uuid },
        ),
{
    let sb = string_bytes(name);
    let ub = be_bytes(uuid as nat, 16);
    let s = sb + ub + rest;
    crate::net::data::lemma_pow256_16();
    crate::net::data::lemma_string_roundtrip(name, ub + rest);
    assert(s =~= sb + (ub + rest));
    assert(s.skip(sb.len() as int) =~= ub + rest);
    crate::net::data::lemma_parse_be_roundtrip(uuid as nat, 16, rest);
    assert(spec_parse_be(s.skip(sb.len() as int), 16) == SpecResult::Done(16, uuid as nat));
}

/// Law: in the login state, the id 0 followed by a name and a 128-bit uuid
/// reads as a login start with that name and that whole uuid.
pub proof fn lemma_login_packet_reads_back(name: Seq<char>, uuid: u128, rest: Seq<u8>)
    requires
        vstd::utf8::encode_utf8(name).len() <= i32::MAX,
    ensures
        spec_parse_serverbound(
            ProtocolState::Login,
            seq![0u8] + string_bytes(name) + be_bytes(uuid as nat, 16) + rest,
        ) == SpecResult::Done(
            1 + string_bytes(name).len() + 16,
            ServerboundPacketView::LoginStart(LoginStartPacketView { name, uuid }),
        ),
{
    let s = string_bytes(name) + be_bytes(uuid as nat, 16) + rest;
    lemma_login_start_reads_back(name, uuid, rest);
    let t = seq![0u8] + s;
    lemma_small_varint(0);
    crate::net::data::lemma_varint_roundtrip(0, s);
    assert(t =~= spec_varint(0) + s);
    assert(t.skip(1) =~= s);
    assert(seq![0u8] + string_bytes(name) + be_bytes(uuid as nat, 16) + rest =~= t);
}

/// Law: a status request is the id 0 alone, and a status ping carries the
/// whole 64-bit payload written big-endian after its id 1, whatever follows.
pub proof fn lemma_status_reads_back(n: u64, rest: Seq<u8>)
    ensures
        spec_parse_serverbound(ProtocolState::Status, seq![0u8] + rest) == SpecResult::Done(
            1,
            ServerboundPacketView::StatusRequest,
        ),
        spec_parse_serverbound(ProtocolState::Status, seq![1u8] + be_bytes(n as nat, 8) + rest)
            == SpecResult::Done(9, ServerboundPacketView::StatusPing(n)),
{
    crate::net::data::lemma_pow256_16();
    lemma_small_varint(0);
    lemma_small_varint(1);
    crate::net::data::lemma_varint_roundtrip(0, rest);
    let r0 = seq![0u8] + rest;
    assert(r0 =~= spec_varint(0) + rest);
    assert(r0.skip(1) =~= rest);
    let pb = be_bytes(n as nat, 8);
    let t = seq![1u8] + pb + rest;
    crate::net::data::lemma_varint_roundtrip(1, pb + rest);
    assert(t =~= spec_varint(1) + (pb + rest));
    assert(t.skip(1) =~= pb + rest);
    crate::net::data::lemma_parse_be_roundtrip(n as nat, 8, rest);
}

/// Law: the payloads of the numeric clientbound packets read back as the
/// numbers they were built from: a status pong's eight bytes, a
/// configuration ping's and a compression threshold's four, each after a
/// one-byte id (1, 5 and 3).
pub proof fn lemma_clientbound_numbers(pong: u64, ping: u32, threshold: u32)
    ensures
        clientbound_bytes(ClientboundPacketView::StatusPong(pong)).len() == 9,
        clientbound_bytes(ClientboundPacketView::StatusPong(pong))[0] == 1,
        crate::net::data::be_value(clientbound_bytes(ClientboundPacketView::StatusPong(pong)).skip(1))
            == pong,
        clientbound_bytes(ClientboundPacketView::ConfigPing(ping)).len() == 5,
        clientbound_bytes(ClientboundPacketView::ConfigPing(ping))[0] == 5,
        crate::net::data::be_value(clientbound_bytes(ClientboundPacketView::ConfigPing(ping)).skip(1))
            == ping,
        clientbound_bytes(ClientboundPacketView::SetCompression(threshold)).len() == 5,
        clientbound_bytes(ClientboundPacketView::SetCompression(threshold))[0] == 3,
        crate::net::data::be_value(
            clientbound_bytes(ClientboundPacketView::SetCompression(threshold)).skip(1),
        ) == threshold,
{
    crate::net::data::lemma_pow256_16();
    lemma_small_varint(1);
    lemma_small_varint(5);
    lemma_small_varint(3);
    crate::net::data::lemma_be_roundtrip(pong as nat, 8);
    crate::net::data::lemma_be_roundtrip(ping as nat, 4);
    crate::net::data::lemma_be_roundtrip(threshold as nat, 4);
    let a = clientbound_bytes(ClientboundPacketView::StatusPong(pong));
    assert(a.skip(1) =~= be_bytes(pong as nat, 8));
    let b = clientbound_bytes(ClientboundPacketView::ConfigPing(ping));
    assert(b.skip(1) =~= be_bytes(ping as nat, 4));
    let c = clientbound_bytes(ClientboundPacketView::SetCompression(threshold));
    assert(c.skip(1) =~= be_bytes(threshold as nat, 4));
}

} // verus!
