use crate::data::Identifier;
use crate::data::datapack::{DatapackVersion, DatapackVersionView};
use crate::error::{Error, ProtocolError};
use crate::game::Profile;
use crate::net::data::generate_string;
use crate::net::packet::{
    ClientInformationPacket, ClientboundPacket, LoginSuccessPacket, PluginMessagePacket,
    ServerboundPacket, ServerboundPacketType, ServerboundPacketView, StatusResponsePacket,
    view_type,
};
use vstd::prelude::*;
use vstd::string::StringExecFns;
use vstd::utf8::{decode_utf8, valid_utf8};

verus! {

/// The protocol state of a connection; it decides how packet ids are read.
#[derive(Debug, Clone, Copy, PartialEq, Eq, Structural)]
pub enum ProtocolState {
    Handshaking,
    Status,
    Login,
    Configuration,
    Play,
}

/// What a connection reports to the server after the first packets.
#[derive(Debug)]
pub enum ProtocolEvent {
    StatusRequest,
    ConnectionClosed,
    Transfer,
    Login(String, u128),
}

/// What can happen while a connection is configured.
pub enum ConfigurationEvent {
    PluginMessage(PluginMessagePacket),
    Brand(String),
    ClientInformation(ClientInformationPacket),
    MissingPacks(Vec<DatapackVersion>),
}

/// Where a connection is while it waits for its first event.
#[derive(Debug, Clone, Copy, PartialEq, Eq, Structural)]
pub enum NextStage {
    /// Nothing read yet.
    Start,
    /// A handshake asked for the status; its request or ping comes next.
    AwaitStatus,
    /// A handshake asked to log in; the login start comes next.
    AwaitLogin,
}

/// What a connection does next while it waits for its first event.
#[derive(Debug)]
pub enum NextStep {
    /// Read another packet and decide again in this stage.
    Read(NextStage),
    /// Send the packet, if there is one, then report the result.
    Finish(Option<ClientboundPacket>, Result<ProtocolEvent, Error<Vec<u8>>>),
}

/// Packets that a connection cannot handle before a handshake.
pub open spec fn unhandled_at_start(p: ServerboundPacketView) -> bool {
    match p {
        ServerboundPacketView::LoginStart(_) => true,
        ServerboundPacketView::PluginMessage(_) => true,
        ServerboundPacketView::ClientInformation(_) => true,
        ServerboundPacketView::ConfigPong(_) => true,
        ServerboundPacketView::KnownPacks(_) => true,
        _ => false,
    }
}

/// `r` is a `NotReply` error for a packet of kind `got` where one of
/// `expected` was awaited.
pub open spec fn is_not_reply(
    r: Result<ProtocolEvent, Error<Vec<u8>>>,
    got: ServerboundPacketType,
    expected: Seq<ServerboundPacketType>,
) -> bool {
    r matches Err(Error::Protocol(ProtocolError::NotReply(t, v))) && t == got && v@ == expected
}

/// Decides, in a stage, what a connection does with the packet it just
/// read (`None` when the peer closed the connection).
///
/// A handshake for the status waits for the status request or ping, a
/// handshake to log in waits for the login start, a transfer is reported;
/// a ping is answered with a pong and closes the connection.
pub fn next_step(stage: NextStage, packet: Option<ServerboundPacket>) -> (r: NextStep)
    requires
        stage == NextStage::Start && packet is Some ==> !unhandled_at_start(packet->0@),
    ensures
        match packet {
            None => r matches NextStep::Finish(None, Ok(ProtocolEvent::ConnectionClosed)),
            Some(p) => match (stage, p@) {
                (NextStage::Start, ServerboundPacketView::Handshake(h)) => match h.intent {
                    crate::net::packet::HandshakeIntent::Status => r == NextStep::Read(
                        NextStage::AwaitStatus,
                    ),
                    crate::net::packet::HandshakeIntent::Login => r == NextStep::Read(
                        NextStage::AwaitLogin,
                    ),
                    crate::net::packet::HandshakeIntent::Transfer => r matches NextStep::Finish(
                        None,
                        Ok(ProtocolEvent::Transfer),
                    ),
                },
                (NextStage::Start, ServerboundPacketView::StatusPing(n)) => r matches NextStep::Finish(
                    Some(ClientboundPacket::StatusPong(m)),
                    Ok(ProtocolEvent::ConnectionClosed),
                ) && m == n,
                (NextStage::Start, ServerboundPacketView::StatusRequest) => r matches NextStep::Finish(
                    None,
                    Ok(ProtocolEvent::StatusRequest),
                ),
                (NextStage::Start, ServerboundPacketView::LoginAcknowledged) => r matches NextStep::Finish(
                    None,
                    Err(Error::Protocol(ProtocolError::OnlyReply(t))),
                ) && t == ServerboundPacketType::LoginAcknowledged,
                (NextStage::Start, ServerboundPacketView::FinishConfig) => r matches NextStep::Finish(
                    None,
                    Err(Error::Protocol(ProtocolError::OnlyReply(t))),
                ) && t == ServerboundPacketType::FinishConfig,
                (NextStage::Start, _) => false,
                (NextStage::AwaitStatus, ServerboundPacketView::StatusRequest) => r matches NextStep::Finish(
                    None,
                    Ok(ProtocolEvent::StatusRequest),
                ),
                (NextStage::AwaitStatus, ServerboundPacketView::StatusPing(n)) => r matches NextStep::Finish(
                    Some(ClientboundPacket::StatusPong(m)),
                    Ok(ProtocolEvent::ConnectionClosed),
                ) && m == n,
                (NextStage::AwaitStatus, other) => r matches NextStep::Finish(None, e) && is_not_reply(
                    e,
                    view_type(other),
                    seq![ServerboundPacketType::StatusRequest, ServerboundPacketType::StatusPing],
                ),
                (NextStage::AwaitLogin, ServerboundPacketView::LoginStart(l)) => r matches NextStep::Finish(
                    None,
                    Ok(ProtocolEvent::Login(name, uuid)),
                ) && name@ == l.name && uuid == l.uuid,
                (NextStage::AwaitLogin, other) => r matches NextStep::Finish(None, e) && is_not_reply(
                    e,
                    view_type(other),
                    seq![ServerboundPacketType::LoginStart],
                ),
            },
        },
{
    let packet = match packet {
        None => return NextStep::Finish(None, Ok(ProtocolEvent::ConnectionClosed)),
        Some(p) => p,
    };
    match stage {
        NextStage::Start => match packet {
            ServerboundPacket::Handshake(packet) => match packet.intent() {
                crate::net::packet::HandshakeIntent::Status => NextStep::Read(NextStage::AwaitStatus),
                crate::net::packet::HandshakeIntent::Transfer => NextStep::Finish(
                    None,
                    Ok(ProtocolEvent::Transfer),
                ),
                crate::net::packet::HandshakeIntent::Login => NextStep::Read(NextStage::AwaitLogin),
            },
            ServerboundPacket::StatusPing(n) => NextStep::Finish(
                Some(ClientboundPacket::StatusPong(n)),
                Ok(ProtocolEvent::ConnectionClosed),
            ),
            ServerboundPacket::LoginAcknowledged => NextStep::Finish(
                None,
                Err(
                    Error::Protocol(
                        ProtocolError::OnlyReply(ServerboundPacketType::LoginAcknowledged),
                    ),
                ),
            ),
            ServerboundPacket::StatusRequest => NextStep::Finish(
                None,
                Ok(ProtocolEvent::StatusRequest),
            ),
            ServerboundPacket::FinishConfig => NextStep::Finish(
                None,
                Err(Error::Protocol(ProtocolError::OnlyReply(ServerboundPacketType::FinishConfig))),
            ),
            _ => {
                assert(false);
                NextStep::Finish(None, Ok(ProtocolEvent::ConnectionClosed))
            },
        },
        NextStage::AwaitStatus => match packet {
            ServerboundPacket::StatusRequest => NextStep::Finish(
                None,
                Ok(ProtocolEvent::StatusRequest),
            ),
            ServerboundPacket::StatusPing(n) => NextStep::Finish(
                Some(ClientboundPacket::StatusPong(n)),
                Ok(ProtocolEvent::ConnectionClosed),
            ),
            any => {
                let expected = vec![
                    ServerboundPacketType::StatusRequest,
                    ServerboundPacketType::StatusPing,
                ];
                assert(expected@ =~= seq![
                    ServerboundPacketType::StatusRequest,
                    ServerboundPacketType::StatusPing,
                ]);
                NextStep::Finish(
                    None,
                    Err(Error::Protocol(ProtocolError::NotReply(any.packet_type(), expected))),
                )
            },
        },
        NextStage::AwaitLogin => match packet {
            ServerboundPacket::LoginStart(packet) => NextStep::Finish(
                None,
                Ok(ProtocolEvent::Login(packet.name().to_owned(), packet.uuid())),
            ),
            any => {
                let expected = vec![ServerboundPacketType::LoginStart];
                assert(expected@ =~= seq![ServerboundPacketType::LoginStart]);
                NextStep::Finish(
                    None,
                    Err(Error::Protocol(ProtocolError::NotReply(any.packet_type(), expected))),
                )
            },
        },
    }
}

/// Checks the packet that was read as an immediate reply: there must be
/// one, of the expected kind.
pub fn ensure_response_immediate(
    packet: Option<ServerboundPacket>,
    packet_type: ServerboundPacketType,
) -> (r: Result<ServerboundPacket, Error<Vec<u8>>>)
    ensures
        match packet {
            None => r matches Err(Error::Protocol(ProtocolError::Disconnected)),
            Some(p) => if view_type(p@) == packet_type {
                r matches Ok(q) && q@ == p@
            } else {
                r matches Err(Error::Protocol(ProtocolError::NotReply(t, v))) && t == view_type(p@)
                    && v@ == seq![packet_type]
            },
        },
{
    let packet = match packet {
        None => return Err(Error::Protocol(ProtocolError::Disconnected)),
        Some(p) => p,
    };
    if packet.packet_type() != packet_type {
        let expected = vec![packet_type];
        assert(expected@ =~= seq![packet_type]);
        Err(Error::Protocol(ProtocolError::NotReply(packet.packet_type(), expected)))
    } else {
        Ok(packet)
    }
}

/// `r` reports that the connection is in `actual` where `expected` was needed.
pub open spec fn is_invalid_state<T>(
    r: Result<T, Error<Vec<u8>>>,
    actual: ProtocolState,
    expected: ProtocolState,
) -> bool {
    r matches Err(Error::Protocol(ProtocolError::InvalidState(a, e))) && a == actual && e == expected
}

/// The packets that log a client in: the compression threshold, if one is
/// given, then the login success for the profile. Only in the login state.
pub fn login_packets(state: ProtocolState, compression: Option<u32>, profile: Profile) -> (r: Result<
    Vec<ClientboundPacket>,
    Error<Vec<u8>>,
>)
    ensures
        state != ProtocolState::Login ==> is_invalid_state(r, state, ProtocolState::Login),
        state == ProtocolState::Login ==> (r matches Ok(v) && match compression {
            Some(n) => v.len() == 2 && (v[0] matches ClientboundPacket::SetCompression(m) && m == n)
                && (v[1] matches ClientboundPacket::LoginSuccess(l) && l@ == profile@),
            None => v.len() == 1 && (v[0] matches ClientboundPacket::LoginSuccess(l) && l@
                == profile@),
        }),
{
    if state != ProtocolState::Login {
        return Err(Error::Protocol(ProtocolError::InvalidState(state, ProtocolState::Login)));
    }
    let mut packets: Vec<ClientboundPacket> = Vec::new();
    if let Some(n) = compression {
        packets.push(ClientboundPacket::SetCompression(n));
    }
    packets.push(ClientboundPacket::LoginSuccess(LoginSuccessPacket::new(profile)));
    Ok(packets)
}

/// The packet that starts a ping: a configuration ping in the configuration
/// state, nothing in the play state (the client pings there by itself);
/// other states are refused.
pub fn ping_packet(state: ProtocolState, value: u32) -> (r: Result<
    Option<ClientboundPacket>,
    Error<Vec<u8>>,
>)
    ensures
        state == ProtocolState::Configuration ==> (r matches Ok(
            Some(ClientboundPacket::ConfigPing(n)),
        ) && n == value),
        state == ProtocolState::Play ==> (r matches Ok(None)),
        state != ProtocolState::Configuration && state != ProtocolState::Play ==> is_invalid_state(
            r,
            state,
            ProtocolState::Configuration,
        ),
{
    if !((state == ProtocolState::Configuration) || (state == ProtocolState::Play)) {
        return Err(
            Error::Protocol(ProtocolError::InvalidState(state, ProtocolState::Configuration)),
        );
    }
    if state == ProtocolState::Configuration {
        Ok(Some(ClientboundPacket::ConfigPing(value)))
    } else {
        Ok(None)
    }
}

/// Checks the pong that answered a ping of `value`.
pub fn check_pong(value: u32, packet: &ServerboundPacket) -> (r: Result<(), Error<Vec<u8>>>)
    requires
        packet is ConfigPong,
    ensures
        packet->ConfigPong_0 == value ==> r is Ok,
        packet->ConfigPong_0 != value ==> (r matches Err(
            Error::Protocol(ProtocolError::InvalidPingResponse(a, b)),
        ) && a == value && b == packet->ConfigPong_0),
{
    match packet {
        ServerboundPacket::ConfigPong(n) => {
            if *n == value {
                Ok(())
            } else {
                Err(Error::Protocol(ProtocolError::InvalidPingResponse(value, *n)))
            }
        },
        _ => {
            assert(false);
            Ok(())
        },
    }
}

/// The status response with the given JSON text. Only in the status state.
pub fn status_response_packet(state: ProtocolState, status: String) -> (r: Result<
    ClientboundPacket,
    Error<Vec<u8>>,
>)
    ensures
        state != ProtocolState::Status ==> is_invalid_state(r, state, ProtocolState::Status),
        state == ProtocolState::Status ==> (r matches Ok(ClientboundPacket::StatusResponse(p))
            && p@ == status@),
{
    if state != ProtocolState::Status {
        return Err(Error::Protocol(ProtocolError::InvalidState(state, ProtocolState::Status)));
    }
    Ok(ClientboundPacket::StatusResponse(StatusResponsePacket::new(status)))
}

/// Checks that the connection is in the state a step needs.
pub fn expect_state(actual: ProtocolState, expected: ProtocolState) -> (r: Result<
    (),
    Error<Vec<u8>>,
>)
    ensures
        actual == expected ==> r is Ok,
        actual != expected ==> is_invalid_state(r, actual, expected),
{
    if actual != expected {
        Err(Error::Protocol(ProtocolError::InvalidState(actual, expected)))
    } else {
        Ok(())
    }
}

/// Whether a plugin channel is `minecraft:brand`.
pub fn is_brand_channel(channel: &Identifier) -> (r: bool)
    ensures
        r == (channel.namespace@ == "minecraft"@ && channel.value@ == "brand"@),
{
    let brand = Identifier::new("minecraft", "brand");
    channel.namespace == brand.namespace && channel.value == brand.value
}

/// What `String::from_utf8_lossy` makes of a byte sequence.
pub uninterp spec fn utf8_lossy(bytes: Seq<u8>) -> Seq<char>;

/// `String::from_utf8_lossy`, as an owned string.
///
/// Claims that the result depends on the bytes alone (it is named
/// `utf8_lossy`) and that valid UTF-8 is decoded as it is; what replaces
/// invalid sequences is left unsaid.
#[verifier::external_body]
fn string_from_utf8_lossy(bytes: &[u8]) -> (r: String)
    ensures
        r@ == utf8_lossy(bytes@),
        valid_utf8(bytes@) ==> r@ == decode_utf8(bytes@),
{
    String::from_utf8_lossy(bytes).into_owned()
}

/// The brand a client announced on `minecraft:brand`: the payload after
/// its first byte (the one-byte length of the brand string), as text.
pub fn brand_payload(data: &[u8]) -> (r: String)
    requires
        data@.len() >= 1,
    ensures
        r@ == utf8_lossy(data@.skip(1)),
        valid_utf8(data@.skip(1)) ==> r@ == decode_utf8(data@.skip(1)),
{
    string_from_utf8_lossy(&data[1..data.len()])
}

/// The server's answer on `minecraft:brand`: its own brand as a string.
pub fn brand_reply(brand: &str) -> (r: ClientboundPacket)
    ensures
        r matches ClientboundPacket::ConfigPluginMessage(m) && m.channel.namespace@ == "minecraft"@
            && m.channel.value@ == "brand"@ && m.data@ == crate::net::data::string_bytes(brand@),
{
    let mut data: Vec<u8> = Vec::new();
    generate_string(brand, &mut data);
    ClientboundPacket::ConfigPluginMessage(
        PluginMessagePacket { channel: Identifier::new("minecraft", "brand"), data },
    )
}

/// Whether a channel is `minecraft:brand`.
pub open spec fn is_brand(channel: crate::data::IdentifierView) -> bool {
    channel.namespace == "minecraft"@ && channel.value == "brand"@
}

/// The packets a client may send while it is configured: client
/// information, plugin messages (a brand message with at least its length
/// byte) and the datapacks it knows.
pub open spec fn handled_while_configuring(p: ServerboundPacketView) -> bool {
    match p {
        ServerboundPacketView::ClientInformation(_) => true,
        ServerboundPacketView::PluginMessage(m) => is_brand(m.channel) ==> m.data.len() >= 1,
        ServerboundPacketView::KnownPacks(_) => true,
        _ => false,
    }
}

/// Decides what a packet read while configuring means: the events to hand
/// to the server's handlers, in order, and whether the configuration phase
/// ends after them (it ends once the client returned its known datapacks).
///
/// A brand message yields the brand first, then the message itself; the
/// known datapacks yield the announced ones that the client did not
/// return, if there are any. A closed connection is an error.
pub fn configuration_events(packet: Option<ServerboundPacket>, announced: Vec<DatapackVersion>) -> (r:
    Result<(Vec<ConfigurationEvent>, bool), Error<Vec<u8>>>)
    requires
        packet matches Some(p) ==> handled_while_configuring(p@),
    ensures
        match packet {
            None => r matches Err(Error::Protocol(ProtocolError::Disconnected)),
            Some(p) => r matches Ok((events, done)) && match p@ {
                ServerboundPacketView::ClientInformation(c) => {
                    &&& !done
                    &&& events@.len() == 1
                    &&& events@[0] matches ConfigurationEvent::ClientInformation(q) && q@ == c
                },
                ServerboundPacketView::PluginMessage(m) => {
                    &&& !done
                    &&& if is_brand(m.channel) {
                        &&& events@.len() == 2
                        &&& events@[0] matches ConfigurationEvent::Brand(b) && b@ == utf8_lossy(
                            m.data.skip(1),
                        ) && (valid_utf8(m.data.skip(1)) ==> b@ == decode_utf8(m.data.skip(1)))
                        &&& events@[1] matches ConfigurationEvent::PluginMessage(q) && q@ == m
                    } else {
                        &&& events@.len() == 1
                        &&& events@[0] matches ConfigurationEvent::PluginMessage(q) && q@ == m
                    }
                },
                ServerboundPacketView::KnownPacks(returned) => {
                    let gone = missing(pack_views(announced@), returned);
                    &&& done
                    &&& gone.len() == 0 ==> events@.len() == 0
                    &&& gone.len() > 0 ==> events@.len() == 1 && (events@[0] matches ConfigurationEvent::MissingPacks(v)
                        && pack_views(v@) == gone)
                },
                _ => false,
            },
        },
{
    let packet = match packet {
        None => return Err(Error::Protocol(ProtocolError::Disconnected)),
        Some(p) => p,
    };
    let mut events: Vec<ConfigurationEvent> = Vec::new();
    match packet {
        ServerboundPacket::ClientInformation(c) => {
            events.push(ConfigurationEvent::ClientInformation(c));
            Ok((events, false))
        },
        ServerboundPacket::PluginMessage(m) => {
            if is_brand_channel(&m.channel) {
                let brand = brand_payload(m.data.as_slice());
                events.push(ConfigurationEvent::Brand(brand));
            }
            events.push(ConfigurationEvent::PluginMessage(m));
            Ok((events, false))
        },
        ServerboundPacket::KnownPacks(returned) => {
            proof {
                assert(pack_views(returned@) =~= crate::net::data::wire::views(returned));
            }
            let gone = missing_packs(announced, returned.as_slice());
            if gone.len() > 0 {
                events.push(ConfigurationEvent::MissingPacks(gone));
            }
            Ok((events, true))
        },
        _ => {
            assert(false);
            Ok((events, true))
        },
    }
}

/// The views of a list of datapack versions.
pub open spec fn pack_views(packs: Seq<DatapackVersion>) -> Seq<DatapackVersionView> {
    packs.map_values(|d: DatapackVersion| d@)
}

/// The announced datapacks that the client did not return, in order.
pub open spec fn missing(announced: Seq<DatapackVersionView>, returned: Seq<DatapackVersionView>) -> Seq<
    DatapackVersionView,
>
    decreases announced.len(),
{
    if announced.len() == 0 {
        seq![]
    } else {
        missing(announced.drop_last(), returned) + if returned.contains(announced.last()) {
            Seq::<DatapackVersionView>::empty()
        } else {
            seq![announced.last()]
        }
    }
}

/// Whether `pack` is among `packs`.
fn contains_pack(packs: &[DatapackVersion], pack: &DatapackVersion) -> (r: bool)
    ensures
        r == pack_views(packs@).contains(pack@),
{
    let mut i: usize = 0;
    while i < packs.len()
        invariant
            i <= packs@.len(),
            forall|j: int| 0 <= j < i ==> packs@[j]@ != pack@,
        decreases packs@.len() - i,
    {
        if packs[i].same_as(pack) {
            assert(pack_views(packs@)[i as int] == pack@);
            return true;
        }
        i = i + 1;
    }
    assert forall|j: int| 0 <= j < pack_views(packs@).len() implies pack_views(packs@)[j]
        != pack@ by {
        assert(pack_views(packs@)[j] == packs@[j]@);
    }
    false
}

/// The datapacks the server announced that the client did not return, in
/// the order they were announced.
pub fn missing_packs(datapacks: Vec<DatapackVersion>, returned: &[DatapackVersion]) -> (r: Vec<
    DatapackVersion,
>)
    ensures
        pack_views(r@) == missing(pack_views(datapacks@), pack_views(returned@)),
{
    let ghost announced = pack_views(datapacks@);
    let ghost rs = pack_views(returned@);
    let count = datapacks.len();
    assert(announced.len() == count);
    let mut rest = datapacks;
    let mut vec: Vec<DatapackVersion> = Vec::new();
    let mut i: usize = 0;
    proof {
        assert(announced.take(0) =~= Seq::<DatapackVersionView>::empty());
        assert(pack_views(rest@) =~= announced.skip(0));
    }
    while rest.len() > 0
        invariant
            i <= announced.len(),
            announced.len() <= usize::MAX,
            pack_views(rest@) == announced.skip(i as int),
            pack_views(vec@) == missing(announced.take(i as int), rs),
            rs == pack_views(returned@),
        decreases rest@.len(),
    {
        let ghost before = rest@;
        let val = rest.remove(0);
        proof {
            assert(pack_views(before)[0] == val@);
            assert(pack_views(before).len() == before.len());
            assert(announced.skip(i as int).len() > 0);
            assert(announced.skip(i as int)[0] == announced[i as int]);
            assert(announced[i as int] == val@);
            assert forall|j: int| 0 <= j < rest@.len() implies pack_views(rest@)[j]
                == announced.skip(i + 1)[j] by {
                assert(rest@[j] == before[j + 1]);
                assert(pack_views(before)[j + 1] == announced.skip(i as int)[j + 1]);
            }
            assert(pack_views(rest@) =~= announced.skip(i + 1));
            assert(announced.take(i + 1).drop_last() =~= announced.take(i as int));
            assert(announced.take(i + 1).last() == val@);
        }
        let ghost old_views = pack_views(vec@);
        if !contains_pack(returned, &val) {
            vec.push(val);
            assert(pack_views(vec@) =~= old_views + seq![val@]);
        } else {
            assert(old_views + Seq::<DatapackVersionView>::empty() =~= old_views);
        }
        i = i + 1;
    }
    proof {
        assert(announced.skip(i as int).len() == 0);
        assert(announced.take(i as int) =~= announced);
    }
    vec
}

/// Law: a datapack is reported missing exactly when it was announced and
/// the client did not return it.
pub proof fn lemma_missing_members(
    announced: Seq<DatapackVersionView>,
    returned: Seq<DatapackVersionView>,
    d: DatapackVersionView,
)
    ensures
        missing(announced, returned).contains(d) <==> announced.contains(d) && !returned.contains(d),
    decreases announced.len(),
{
    if announced.len() > 0 {
        let init = announced.drop_last();
        lemma_missing_members(init, returned, d);
        let m = missing(init, returned);
        let tail = if returned.contains(announced.last()) {
            Seq::<DatapackVersionView>::empty()
        } else {
            seq![announced.last()]
        };
        assert(missing(announced, returned) == m + tail);
        if (m + tail).contains(d) {
            let k = choose|k: int| 0 <= k < (m + tail).len() && (m + tail)[k] == d;
            if k < m.len() {
                assert(m[k] == d);
            } else {
                assert(tail[k - m.len()] == d);
            }
        }
        if announced.contains(d) && !returned.contains(d) {
            let k = choose|k: int| 0 <= k < announced.len() && announced[k] == d;
            if k < init.len() {
                assert(init[k] == d);
                let j = choose|j: int| 0 <= j < m.len() && m[j] == d;
                assert((m + tail)[j] == d);
            } else {
                assert((m + tail)[m.len() as int] == d);
            }
        }
        if announced.contains(d) == false {
            if init.contains(d) {
                let k = choose|k: int| 0 <= k < init.len() && init[k] == d;
                assert(announced[k] == d);
            }
        }
    }
}

} // verus!
