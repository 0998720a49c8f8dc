use crate::net::data::ParseFail;
use crate::net::packet::ServerboundPacketType;
use crate::net::proto::ProtocolState;
use vstd::prelude::*;

verus! {

/// What kind of syntax a parser did not find.
#[derive(Debug, Clone, Copy, PartialEq, Eq, Structural)]
pub enum SyntaxKind {
    /// A fixed byte pattern (such as a boolean's 0 or 1) was expected.
    Tag,
    /// A variable-length integer ran past its maximum length.
    TooLarge,
}

/// Everything that can go wrong while decoding input or running the protocol.
///
/// `I` is the input that a parse error points at: a byte slice while
/// parsing, an owned byte vector once the error outlives its buffer.
#[derive(Debug)]
pub enum Error<I> {
    /// The input at this position did not have the expected syntax.
    Syntax(I, SyntaxKind),
    /// The peer broke the protocol.
    Protocol(ProtocolError),
    /// A length-prefixed string (starting at this input) was not valid UTF-8.
    String(I),
    /// A handshake asked for an intent other than 1, 2 or 3.
    UnknownIntent(i32),
    /// A packet id that the given state does not know.
    UnknownPacket(ProtocolState, i32),
    /// A chat mode other than 0, 1 or 2.
    ChatMode(i32),
    /// The reserved bit of the skin options was set.
    SkinOptions,
    /// A hand id other than 0 or 1.
    UnknownHand(i32),
    /// A particle option other than 0, 1 or 2.
    ParticleOptions(i32),
    /// The peer did not answer in time.
    Timeout,
}

/// Ways in which the peer can break the protocol.
#[derive(Debug)]
pub enum ProtocolError {
    /// The packet may only be sent as a reply.
    OnlyReply(ServerboundPacketType),
    /// The packet (first) is not one of the expected replies (second).
    NotReply(ServerboundPacketType, Vec<ServerboundPacketType>),
    /// The connection is in the first state but the step needs the second.
    InvalidState(ProtocolState, ProtocolState),
    /// The peer did not answer in time.
    Timeout,
    /// A ping was answered with another value: (expected, received).
    InvalidPingResponse(u32, u32),
    /// The configuration phase failed.
    InvalidConfig,
    /// The peer closed the connection.
    Disconnected,
}

impl<I: View> View for Error<I> {
    type V = Error<I::V>;

    open spec fn view(&self) -> Error<I::V> {
        match self {
            Error::Syntax(i, k) => Error::Syntax(i@, *k),
            Error::Protocol(p) => Error::Protocol(*p),
            Error::String(i) => Error::String(i@),
            Error::UnknownIntent(n) => Error::UnknownIntent(*n),
            Error::UnknownPacket(s, n) => Error::UnknownPacket(*s, *n),
            Error::ChatMode(n) => Error::ChatMode(*n),
            Error::SkinOptions => Error::SkinOptions,
            Error::UnknownHand(n) => Error::UnknownHand(*n),
            Error::ParticleOptions(n) => Error::ParticleOptions(*n),
            Error::Timeout => Error::Timeout,
        }
    }
}

/// The same error with its input copied out of the parsed buffer.
///
/// Syntax errors are left out: they are not carried past the buffer.
pub fn error_to_owned(error: Error<&[u8]>) -> (r: Error<Vec<u8>>)
    requires
        !(error is Syntax),
    ensures
        r@ == error@,
{
    match error {
        Error::Syntax(_, _) => {
            assert(false);
            Error::Timeout
        },
        Error::String(bytes) => Error::String(vstd::slice::slice_to_vec(bytes)),
        Error::UnknownPacket(state, id) => Error::UnknownPacket(state, id),
        Error::UnknownIntent(id) => Error::UnknownIntent(id),
        Error::ChatMode(e) => Error::ChatMode(e),
        Error::SkinOptions => Error::SkinOptions,
        Error::UnknownHand(e) => Error::UnknownHand(e),
        Error::ParticleOptions(e) => Error::ParticleOptions(e),
        Error::Protocol(e) => Error::Protocol(e),
        Error::Timeout => Error::Timeout,
    }
}

/// Applies `f` to the error a parser stopped with, keeping how it stopped.
pub fn map_nom_err<F, A, B>(error: ParseFail<A>, f: F) -> (r: ParseFail<B>) where
    F: Fn(A) -> B,

    requires
        forall|a: A| #[trigger] f.requires((a,)),
    ensures
        match error {
            ParseFail::Incomplete(n) => r == ParseFail::<B>::Incomplete(n),
            ParseFail::Error(a) => r matches ParseFail::Error(b) && f.ensures((a,), b),
            ParseFail::Failure(a) => r matches ParseFail::Failure(b) && f.ensures((a,), b),
        },
{
    match error {
        ParseFail::Incomplete(needed) => ParseFail::Incomplete(needed),
        ParseFail::Error(err) => ParseFail::Error(f(err)),
        ParseFail::Failure(err) => ParseFail::Failure(f(err)),
    }
}

/// Whether a byte is a printable ASCII character (not a control character).
pub open spec fn is_printable(b: u8) -> bool {
    0x20 <= b <= 0x7e
}

/// The character that shows a byte in a dump: itself if printable, else `.`.
pub open spec fn shown_char(b: u8) -> char {
    if is_printable(b) {
        b as char
    } else {
        '.'
    }
}

/// `String::push`: appends a character.
///
/// Claims that the string afterwards is the old one with `c` at its end.
#[verifier::external_body]
fn push_char(s: &mut String, c: char)
    ensures
        final(s)@ == old(s)@.push(c),
{
    s.push(c);
}

/// The bytes as text for a log line: printable ASCII as it is, every other
/// byte as `.`.
pub fn asciify(bytes: &[u8]) -> (r: String)
    ensures
        r@ == bytes@.map_values(|b: u8| shown_char(b)),
{
    let mut ret = String::new();
    let mut i: usize = 0;
    while i < bytes.len()
        invariant
            i <= bytes@.len(),
            ret@ == bytes@.take(i as int).map_values(|b: u8| shown_char(b)),
        decreases bytes@.len() - i,
    {
        let b = bytes[i];
        let c = if 0x20 <= b && b <= 0x7e {
            b as char
        } else {
            '.'
        };
        push_char(&mut ret, c);
        proof {
            assert(bytes@.take(i + 1).map_values(|b: u8| shown_char(b)) =~= bytes@.take(
                i as int,
            ).map_values(|b: u8| shown_char(b)).push(c));
        }
        i = i + 1;
    }
    assert(bytes@.take(i as int) =~= bytes@);
    ret
}

} // verus!
