use super::{
    ClientboundPacket, ServerboundPacket, ServerboundPacketView, clientbound_bytes, intent_state,
    spec_parse_serverbound,
};
use crate::error::{Error, error_to_owned};
use crate::net::data::wire::{framed, length_prefixed};
use crate::net::data::{Needed, ParseFail, SpecResult, extend_bytes, parse_varint, spec_parse_varint};
use crate::net::proto::ProtocolState;
use vstd::prelude::*;

verus! {

/// The decoding side of a connection: its protocol state, the compression
/// threshold, the bytes received but not yet decoded, and how many bytes the
/// decoder waits for before it tries again.
pub struct StreamState {
    state: ProtocolState,
    compression: Option<u32>,
    buffer: Vec<u8>,
    atleast: usize,
    accum_len: usize,
}

/// The mathematical value of the decoding side.
pub struct StreamStateView {
    pub state: ProtocolState,
    pub compression: Option<u32>,
    pub buffer: Seq<u8>,
    pub atleast: nat,
    pub accum_len: nat,
}

impl View for StreamState {
    type V = StreamStateView;

    closed spec fn view(&self) -> StreamStateView {
        StreamStateView {
            state: self.state,
            compression: self.compression,
            buffer: self.buffer@,
            atleast: self.atleast as nat,
            accum_len: self.accum_len as nat,
        }
    }
}

/// What the reader does after some bytes arrived.
#[derive(Debug)]
pub enum ReadStep {
    /// Read more bytes before decoding again.
    ReadMore,
    /// A packet was decoded and taken off the buffer.
    Packet(ServerboundPacket),
    /// The buffer holds a packet that breaks the protocol.
    Failed(Error<Vec<u8>>),
    /// The buffer holds a packet that this server does not handle (an
    /// unimplemented packet, a length that runs past the buffer, or a syntax
    /// error): the connection cannot go on.
    Abort,
}

/// The decision on a whole buffer.
pub enum Decode {
    /// Wait until at least this many new bytes arrived.
    NeedMore(nat),
    /// The first `nat` bytes hold this packet.
    Packet(nat, ServerboundPacketView),
    /// The packet breaks the protocol.
    Fail(Error<Seq<u8>>),
    /// The packet cannot be handled.
    Abort,
}

/// How many bytes an incomplete parse asked for; zero when it did not say.
pub open spec fn needed_size(n: Needed) -> nat {
    match n {
        Needed::Unknown => 0,
        Needed::Size(k) => k as nat,
    }
}

/// How the decoder treats a parse that stopped without a packet.
pub open spec fn stopped_decode<V>(r: SpecResult<V>) -> Decode {
    match r {
        SpecResult::Incomplete(n) => Decode::NeedMore(needed_size(n)),
        SpecResult::Error(e) => if e is Syntax {
            Decode::Abort
        } else {
            Decode::Fail(e)
        },
        SpecResult::Failure(e) => if e is Syntax {
            Decode::Abort
        } else {
            Decode::Fail(e)
        },
        _ => Decode::Abort,
    }
}

/// The decoder's decision on a buffer in a state: the VarInt packet length
/// first; if fewer bytes follow than it says, wait for that many; else the
/// packet is read from the bytes after the length.
pub open spec fn spec_decode(state: ProtocolState, b: Seq<u8>) -> Decode {
    match spec_parse_varint(b) {
        SpecResult::Done(k, len) => {
            let data = b.skip(k as int);
            if (len as usize) as int > data.len() {
                Decode::NeedMore((len as usize) as nat)
            } else {
                match spec_parse_serverbound(state, data) {
                    SpecResult::Done(m, p) => Decode::Packet(k + m, p),
                    other => stopped_decode(other),
                }
            }
        },
        other => stopped_decode(other),
    }
}

/// The state after a packet: a handshake moves to the state its intent
/// names, a login acknowledgement moves to configuration.
pub open spec fn next_state(state: ProtocolState, p: ServerboundPacketView) -> ProtocolState {
    match p {
        ServerboundPacketView::Handshake(h) => intent_state(h.intent),
        ServerboundPacketView::LoginAcknowledged => ProtocolState::Configuration,
        _ => state,
    }
}

impl StreamState {
    /// A fresh connection: handshaking, no compression, nothing buffered.
    pub fn new() -> (r: Self)
        ensures
            r@ == (StreamStateView {
                state: ProtocolState::Handshaking,
                compression: None,
                buffer: Seq::empty(),
                atleast: 0,
                accum_len: 0,
            }),
    {
        StreamState {
            state: ProtocolState::Handshaking,
            compression: None,
            buffer: Vec::new(),
            atleast: 0,
            accum_len: 0,
        }
    }

    /// The protocol state.
    pub fn state(&self) -> (r: ProtocolState)
        ensures
            r == self@.state,
    {
        self.state
    }

    /// The bytes received but not yet decoded.
    pub fn buffer(&self) -> (r: &[u8])
        ensures
            r@ == self@.buffer,
    {
        self.buffer.as_slice()
    }

    /// Turns on compression above the given threshold.
    pub fn set_compression(&mut self, threshold: u32)
        ensures
            final(self)@ == (StreamStateView { compression: Some(threshold), ..old(self)@ }),
    {
        self.compression = Some(threshold);
    }

    /// Starts waiting for the next packet: no byte count is awaited yet.
    pub fn start_next(&mut self)
        ensures
            final(self)@ == (StreamStateView { atleast: 0, accum_len: 0, ..old(self)@ }),
    {
        self.atleast = 0;
        self.accum_len = 0;
    }

    /// Moves to the state that a decoded packet leads to.
    fn do_state_transition(&mut self, packet: &ServerboundPacket)
        ensures
            final(self)@ == (StreamStateView { state: next_state(old(self)@.state, packet@), ..old(self)@ }),
    {
        match packet {
            ServerboundPacket::Handshake(handshake) => self.state = ProtocolState::from(handshake.intent()),
            ServerboundPacket::LoginAcknowledged => self.state = ProtocolState::Configuration,
            _ => {},
        }
    }

    /// Takes in bytes that were just read and decides what the reader does:
    /// wait for more while fewer bytes arrived than awaited, else decode the
    /// buffer as `spec_decode` says. A count of arrived bytes that overflows
    /// a `usize` stops the connection.
    pub fn on_read(&mut self, bytes: &[u8]) -> (r: ReadStep)
        ensures
            ({
                let s = old(self)@;
                let buf = s.buffer + bytes@;
                let accum = s.accum_len + bytes@.len();
                if accum > usize::MAX {
                    r is Abort
                } else if accum < s.atleast {
                    &&& r is ReadMore
                    &&& final(self)@ == (StreamStateView { buffer: buf, accum_len: accum, ..s })
                } else {
                    match spec_decode(s.state, buf) {
                        Decode::NeedMore(n) => {
                            &&& r is ReadMore
                            &&& final(self)@ == (StreamStateView {
                                buffer: buf,
                                atleast: n,
                                accum_len: 0,
                                ..s
                            })
                        },
                        Decode::Packet(c, p) => {
                            &&& r matches ReadStep::Packet(x) && x@ == p
                            &&& final(self)@ == (StreamStateView {
                                state: next_state(s.state, p),
                                buffer: buf.skip(c as int),
                                atleast: 0,
                                accum_len: 0,
                                ..s
                            })
                        },
                        Decode::Fail(e) => {
                            &&& r matches ReadStep::Failed(x) && x@ == e
                            &&& final(self)@ == (StreamStateView {
                                buffer: buf,
                                atleast: 0,
                                accum_len: 0,
                                ..s
                            })
                        },
                        Decode::Abort => r is Abort,
                    }
                }
            }),
    {
        if bytes.len() > usize::MAX - self.accum_len {
            return ReadStep::Abort;
        }
        self.accum_len = self.accum_len + bytes.len();
        extend_bytes(&mut self.buffer, bytes);
        if self.accum_len < self.atleast {
            return ReadStep::ReadMore;
        }
        self.accum_len = 0;
        let ghost buf = self.buffer@;
        let state = self.state;
        let step = Self::decode(state, self.buffer.as_slice());
        match step {
            Decoded::NeedMore(n) => {
                self.atleast = n;
                ReadStep::ReadMore
            },
            Decoded::Failed(e) => {
                self.atleast = 0;
                ReadStep::Failed(e)
            },
            Decoded::Abort => ReadStep::Abort,
            Decoded::Packet(consumed, packet) => {
                let rest = self.buffer.split_off(consumed);
                self.buffer = rest;
                self.atleast = 0;
                self.do_state_transition(&packet);
                ReadStep::Packet(packet)
            },
        }
    }

    /// The decision on a whole buffer, as `spec_decode` says.
    fn decode(state: ProtocolState, buffer: &[u8]) -> (r: Decoded)
        ensures
            match spec_decode(state, buffer@) {
                Decode::NeedMore(n) => r == Decoded::NeedMore(n as usize) && n <= usize::MAX,
                Decode::Packet(c, p) => r matches Decoded::Packet(x, q) && x == c && q@ == p && c
                    <= buffer@.len(),
                Decode::Fail(e) => r matches Decoded::Failed(x) && x@ == e,
                Decode::Abort => r is Abort,
            },
    {
        let (data, packet_length) = match parse_varint(buffer) {
            Ok(x) => x,
            Err(e) => return Self::stopped(e),
        };
        let length = packet_length as usize;
        if length > data.len() {
            return Decoded::NeedMore(length);
        }
        match ServerboundPacket::parse_checked(state, data) {
            None => Decoded::Abort,
            Some(Ok((rest, packet))) => {
                let consumed = buffer.len() - rest.len();
                Decoded::Packet(consumed, packet)
            },
            Some(Err(e)) => Self::stopped(e),
        }
    }

    /// The decision on a parse that stopped without a packet.
    fn stopped(e: ParseFail<Error<&[u8]>>) -> (r: Decoded)
        ensures
            match e {
                ParseFail::Incomplete(n) => r == Decoded::NeedMore(needed_size(n) as usize),
                ParseFail::Error(x) => if x is Syntax {
                    r is Abort
                } else {
                    r matches Decoded::Failed(y) && y@ == x@
                },
                ParseFail::Failure(x) => if x is Syntax {
                    r is Abort
                } else {
                    r matches Decoded::Failed(y) && y@ == x@
                },
            },
    {
        match e {
            ParseFail::Incomplete(Needed::Unknown) => Decoded::NeedMore(0),
            ParseFail::Incomplete(Needed::Size(n)) => Decoded::NeedMore(n),
            ParseFail::Error(x) | ParseFail::Failure(x) => {
                if let Error::Syntax(_, _) = x {
                    Decoded::Abort
                } else {
                    Decoded::Failed(error_to_owned(x))
                }
            },
        }
    }
}

/// The decision on a buffer, with the values the reader acts on.
pub enum Decoded {
    NeedMore(usize),
    Packet(usize, ServerboundPacket),
    Failed(Error<Vec<u8>>),
    Abort,
}

/// The bytes sent for a packet: the packet in a length-prefixed frame.
pub fn frame_packet(packet: &ClientboundPacket) -> (r: Vec<u8>)
    ensures
        r@ == framed(clientbound_bytes(packet@)),
{
    let mut body: Vec<u8> = Vec::new();
    packet.generate(&mut body);
    assert(body@ =~= clientbound_bytes(packet@));
    let mut frame: Vec<u8> = Vec::new();
    length_prefixed(body.as_slice(), &mut frame);
    assert(frame@ =~= framed(clientbound_bytes(packet@)));
    frame
}

/// Law: a buffer that starts with a frame (of at most `i32::MAX` bytes)
/// whose body reads as a packet, there ending, decodes to that packet and
/// consumes exactly the frame.
pub proof fn lemma_decode_frame(
    state: ProtocolState,
    body: Seq<u8>,
    rest: Seq<u8>,
    p: ServerboundPacketView,
)
    requires
        body.len() <= i32::MAX,
        spec_parse_serverbound(state, body + rest) == SpecResult::Done(body.len(), p),
    ensures
        spec_decode(state, framed(body) + rest) == Decode::Packet(framed(body).len(), p),
{
    crate::net::data::wire::lemma_frame_length(body, rest);
}

/// Law: what a decoded packet does to the protocol state. A status
/// handshake leads to the status state, a login or transfer handshake to
/// the login state, a login acknowledgement to configuration; every other
/// packet keeps the state.
pub proof fn lemma_next_state(state: ProtocolState, p: ServerboundPacketView)
    ensures
        p matches ServerboundPacketView::Handshake(h) ==> next_state(state, p) == (if h.intent
            == super::HandshakeIntent::Status {
            ProtocolState::Status
        } else {
            ProtocolState::Login
        }),
        p is LoginAcknowledged ==> next_state(state, p) == ProtocolState::Configuration,
        !(p is Handshake) && !(p is LoginAcknowledged) ==> next_state(state, p) == state,
{
}

} // verus!
