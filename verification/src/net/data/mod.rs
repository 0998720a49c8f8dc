use crate::error::{Error, SyntaxKind};
use vstd::prelude::*;
use vstd::string::StringSliceAdditionalSpecFns;
use vstd::utf8::{decode_utf8, encode_utf8, valid_utf8};

/// The VarInt / VarLong encoding and its laws
pub mod varint;

/// Values with a wire encoding, and arrays and options of them
pub mod wire;

pub use wire::{
    Encode, Wire, generate_array, generate_optional, length_prefixed, parse_array,
    parse_array_checked, parse_optional, spec_parse_array,
};
pub use varint::{
    generate_varint, lemma_varint_roundtrip, parse_varint, parse_varlong, spec_parse_varint,
    spec_parse_varlong, spec_varint, varint_bytes,
};

verus! {

/// How many more bytes a streaming parser wants before it can go on.
#[derive(Debug, Clone, Copy, PartialEq, Eq, Structural)]
pub enum Needed {
    /// More input is needed, but not how much.
    Unknown,
    /// At least this many more bytes are needed (never zero).
    Size(usize),
}

/// Why a parser stopped without a value.
#[derive(Debug)]
pub enum ParseFail<E> {
    /// The input ended too early; more bytes may complete it.
    Incomplete(Needed),
    /// The input does not match; another alternative may be tried.
    Error(E),
    /// The input does not match and no alternative should be tried.
    Failure(E),
}

/// The result of a parser: the rest of the input and the value read.
pub type IResult<I, O, E> = Result<(I, O), ParseFail<E>>;

/// The meaning of a parser on an input, as a mathematical value.
pub enum SpecResult<V> {
    /// The first `nat` bytes hold the value.
    Done(nat, V),
    /// More input is needed.
    Incomplete(Needed),
    /// The input does not match.
    Error(Error<Seq<u8>>),
    /// The input does not match, without backtracking.
    Failure(Error<Seq<u8>>),
    /// The input reaches a case that stops the server (an unimplemented
    /// packet, or a length prefix that runs past the available bytes).
    Abort,
}

impl<V> SpecResult<V> {
    /// The same outcome with the consumed length raised by `n`, for a value
    /// read after `n` bytes of other values.
    pub open spec fn after(self, n: nat) -> SpecResult<V> {
        match self {
            SpecResult::Done(k, v) => SpecResult::Done(k + n, v),
            SpecResult::Incomplete(x) => SpecResult::Incomplete(x),
            SpecResult::Error(e) => SpecResult::Error(e),
            SpecResult::Failure(e) => SpecResult::Failure(e),
            SpecResult::Abort => SpecResult::Abort,
        }
    }

    /// The same outcome with the value passed through `f`.
    pub open spec fn map<W>(self, f: spec_fn(V) -> W) -> SpecResult<W> {
        match self {
            SpecResult::Done(k, v) => SpecResult::Done(k, f(v)),
            SpecResult::Incomplete(x) => SpecResult::Incomplete(x),
            SpecResult::Error(e) => SpecResult::Error(e),
            SpecResult::Failure(e) => SpecResult::Failure(e),
            SpecResult::Abort => SpecResult::Abort,
        }
    }

    /// The same outcome with another value type, for outcomes that are not `Done`.
    pub open spec fn stopped<W>(self) -> SpecResult<W>
        recommends
            !(self is Done),
    {
        match self {
            SpecResult::Done(_, _) => SpecResult::Abort,
            SpecResult::Incomplete(x) => SpecResult::Incomplete(x),
            SpecResult::Error(e) => SpecResult::Error(e),
            SpecResult::Failure(e) => SpecResult::Failure(e),
            SpecResult::Abort => SpecResult::Abort,
        }
    }
}

/// Reading one value and then the rest: `first` is the meaning of the
/// first value on `s`, and `rest` gives the meaning of what follows from the
/// first value and the bytes after it.
pub open spec fn bind<V, W>(
    first: SpecResult<V>,
    s: Seq<u8>,
    rest: spec_fn(V, Seq<u8>) -> SpecResult<W>,
) -> SpecResult<W> {
    match first {
        SpecResult::Done(n, v) => rest(v, s.skip(n as int)).after(n),
        other => other.stopped(),
    }
}

/// `r` is what a parser returned on `input`; `s` is its meaning, and `view`
/// maps the returned value to the mathematical value that `s` names.
pub open spec fn agrees_by<T, V>(
    r: IResult<&[u8], T, Error<&[u8]>>,
    input: Seq<u8>,
    s: SpecResult<V>,
    view: spec_fn(T) -> V,
) -> bool {
    match s {
        SpecResult::Done(n, v) => match r {
            Ok((rest, x)) => n <= input.len() && rest@ == input.skip(n as int) && view(x) == v,
            Err(_) => false,
        },
        SpecResult::Incomplete(nd) => match r {
            Err(ParseFail::Incomplete(m)) => m == nd,
            _ => false,
        },
        SpecResult::Error(e) => match r {
            Err(ParseFail::Error(x)) => x@ == e,
            _ => false,
        },
        SpecResult::Failure(e) => match r {
            Err(ParseFail::Failure(x)) => x@ == e,
            _ => false,
        },
        SpecResult::Abort => false,
    }
}

/// `agrees_by` with the value's own view.
pub open spec fn agrees<T: View>(
    r: IResult<&[u8], T, Error<&[u8]>>,
    input: Seq<u8>,
    s: SpecResult<T::V>,
) -> bool {
    agrees_by(r, input, s, |x: T| x@)
}

/// Like `agrees_by`, for a parser that answers `None` exactly where the
/// meaning is `Abort`.
pub open spec fn checked_by<T, V>(
    r: Option<IResult<&[u8], T, Error<&[u8]>>>,
    input: Seq<u8>,
    s: SpecResult<V>,
    view: spec_fn(T) -> V,
) -> bool {
    match r {
        None => s is Abort,
        Some(x) => agrees_by(x, input, s, view),
    }
}

/// `checked_by` with the value's own view.
pub open spec fn checked<T: View>(
    r: Option<IResult<&[u8], T, Error<&[u8]>>>,
    input: Seq<u8>,
    s: SpecResult<T::V>,
) -> bool {
    checked_by(r, input, s, |x: T| x@)
}

/// `Needed::new` of the streaming parsers: `Unknown` for zero.
pub open spec fn needed(n: nat) -> Needed {
    if n == 0 {
        Needed::Unknown
    } else {
        Needed::Size(n as usize)
    }
}


/// Appends `bytes` to `out`.
pub fn extend_bytes(out: &mut Vec<u8>, bytes: &[u8])
    ensures
        final(out)@ == old(out)@ + bytes@,
{
    let mut i: usize = 0;
    while i < bytes.len()
        invariant
            i <= bytes@.len(),
            out@ == old(out)@ + bytes@.take(i as int),
        decreases bytes@.len() - i,
    {
        proof {
            assert(bytes@.take(i + 1) =~= bytes@.take(i as int).push(bytes@[i as int]));
        }
        out.push(bytes[i]);
        i = i + 1;
    }
    assert(bytes@.take(i as int) =~= bytes@);
}

// ---------------------------------------------------------------------------
// Booleans

/// The meaning of a boolean: one byte, 0 for false and 1 for true.
pub open spec fn spec_parse_bool(s: Seq<u8>) -> SpecResult<bool> {
    if s.len() == 0 {
        SpecResult::Incomplete(Needed::Size(1))
    } else if s[0] == 0 {
        SpecResult::Done(1, false)
    } else if s[0] == 1 {
        SpecResult::Done(1, true)
    } else {
        SpecResult::Error(Error::Syntax(s, SyntaxKind::Tag))
    }
}

/// Reads a boolean: the byte 0 is false, the byte 1 is true.
pub fn parse_bool(input: &[u8]) -> (r: IResult<&[u8], bool, Error<&[u8]>>)
    ensures
        agrees(r, input@, spec_parse_bool(input@)),
{
    if input.len() == 0 {
        Err(ParseFail::Incomplete(Needed::Size(1)))
    } else if input[0] == 0 {
        Ok((&input[1..input.len()], false))
    } else if input[0] == 1 {
        Ok((&input[1..input.len()], true))
    } else {
        Err(ParseFail::Error(Error::Syntax(input, SyntaxKind::Tag)))
    }
}

// ---------------------------------------------------------------------------
// Big-endian unsigned integers

/// 256 to the power `n`.
pub open spec fn pow256(n: nat) -> nat
    decreases n,
{
    if n == 0 {
        1
    } else {
        256 * pow256((n - 1) as nat)
    }
}

/// The number whose base-256 digits, most significant first, are `s`.
pub open spec fn be_value(s: Seq<u8>) -> nat
    decreases s.len(),
{
    if s.len() == 0 {
        0
    } else {
        be_value(s.drop_last()) * 256 + s.last() as nat
    }
}

/// The `n` bytes, most significant first, of `v` modulo `256^n`.
pub open spec fn be_bytes(v: nat, n: nat) -> Seq<u8>
    decreases n,
{
    if n == 0 {
        seq![]
    } else {
        be_bytes(v / 256, (n - 1) as nat).push((v % 256) as u8)
    }
}

/// The meaning of an `n`-byte big-endian unsigned integer.
pub open spec fn spec_parse_be(s: Seq<u8>, n: nat) -> SpecResult<nat> {
    if s.len() < n {
        SpecResult::Incomplete(needed((n - s.len()) as nat))
    } else {
        SpecResult::Done(n, be_value(s.take(n as int)))
    }
}

pub proof fn lemma_be_value_bound(s: Seq<u8>)
    ensures
        be_value(s) < pow256(s.len()),
    decreases s.len(),
{
    if s.len() > 0 {
        lemma_be_value_bound(s.drop_last());
    }
}

pub proof fn lemma_pow256_16()
    ensures
        pow256(16) == 0x1_0000_0000_0000_0000_0000_0000_0000_0000,
        pow256(8) == 0x1_0000_0000_0000_0000,
        pow256(4) == 0x1_0000_0000,
        pow256(2) == 0x1_0000,
        pow256(1) == 0x100,
{
    reveal_with_fuel(pow256, 17);
}

/// Reads an `n`-byte big-endian unsigned integer, as the streaming number
/// parsers do: too few bytes ask for the missing ones.
pub fn parse_be(input: &[u8], n: usize) -> (r: IResult<&[u8], u128, Error<&[u8]>>)
    requires
        1 <= n <= 16,
    ensures
        agrees_by(r, input@, spec_parse_be(input@, n as nat), |x: u128| x as nat),
{
    if input.len() < n {
        return Err(ParseFail::Incomplete(Needed::Size(n - input.len())));
    }
    let mut value: u128 = 0;
    let mut i: usize = 0;
    proof {
        lemma_pow256_16();
        assert(input@.take(0) =~= Seq::<u8>::empty());
    }
    while i < n
        invariant
            i <= n <= 16,
            n <= input@.len(),
            value == be_value(input@.take(i as int)),
            pow256(16) == 0x1_0000_0000_0000_0000_0000_0000_0000_0000,
        decreases n - i,
    {
        proof {
            lemma_be_value_bound(input@.take(i as int));
            lemma_pow256_monotone(i as nat, 15);
            assert(input@.take(i + 1).drop_last() =~= input@.take(i as int));
        }
        value = value * 256 + input[i] as u128;
        i = i + 1;
    }
    Ok((&input[n..input.len()], value))
}

pub proof fn lemma_pow256_monotone(i: nat, j: nat)
    requires
        i <= j,
    ensures
        pow256(i) <= pow256(j),
    decreases j,
{
    if i < j {
        lemma_pow256_monotone(i, (j - 1) as nat);
    }
}

/// `be_bytes` gives exactly `n` bytes.
pub proof fn lemma_be_bytes_len(v: nat, n: nat)
    ensures
        be_bytes(v, n).len() == n,
    decreases n,
{
    if n > 0 {
        lemma_be_bytes_len(v / 256, (n - 1) as nat);
    }
}

/// Law: the `n` big-endian bytes of a number below `256^n` read back as
/// that number.
pub proof fn lemma_be_roundtrip(v: nat, n: nat)
    requires
        v < pow256(n),
    ensures
        be_bytes(v, n).len() == n,
        be_value(be_bytes(v, n)) == v,
    decreases n,
{
    lemma_be_bytes_len(v, n);
    if n > 0 {
        let p = pow256((n - 1) as nat);
        assert(v / 256 < p) by (nonlinear_arith)
            requires
                v < 256 * p,
        ;
        lemma_be_roundtrip(v / 256, (n - 1) as nat);
        let b = be_bytes(v, n);
        assert(b.drop_last() =~= be_bytes(v / 256, (n - 1) as nat));
        assert(v == (v / 256) * 256 + v % 256) by (nonlinear_arith);
    } else {
        assert(v == 0);
    }
}

/// Law: reading `n` big-endian bytes written from a number below `256^n`
/// gives that number back, whatever follows.
pub proof fn lemma_parse_be_roundtrip(v: nat, n: nat, rest: Seq<u8>)
    requires
        v < pow256(n),
    ensures
        spec_parse_be(be_bytes(v, n) + rest, n) == SpecResult::Done(n, v),
{
    lemma_be_roundtrip(v, n);
    assert((be_bytes(v, n) + rest).take(n as int) =~= be_bytes(v, n));
}

/// Appends the `n` low bytes of `v`, most significant first.
pub fn generate_be(v: u128, n: usize, out: &mut Vec<u8>)
    ensures
        final(out)@ == old(out)@ + be_bytes(v as nat, n as nat),
    decreases n,
{
    if n > 0 {
        generate_be(v / 256, n - 1, out);
        out.push((v % 256) as u8);
    }
}

// ---------------------------------------------------------------------------
// Strings

/// `std::str::from_utf8`: the slice as a string slice, if it is valid UTF-8.
///
/// Claims that the conversion succeeds exactly on valid UTF-8 and that the
/// string slice then has the given bytes.
#[verifier::external_body]
fn str_from_utf8(bytes: &[u8]) -> (r: Option<&str>)
    ensures
        r is Some <==> valid_utf8(bytes@),
        r matches Some(s) ==> s.spec_bytes() == bytes@,
{
    std::str::from_utf8(bytes).ok()
}

/// The bytes of a protocol string: a VarInt with the length of its UTF-8
/// encoding, then that encoding.
pub open spec fn string_bytes(chars: Seq<char>) -> Seq<u8> {
    spec_varint((encode_utf8(chars).len() as usize) as i32) + encode_utf8(chars)
}

/// The meaning of a protocol string. A length that runs past the input
/// stops the server.
pub open spec fn spec_parse_string(s: Seq<u8>) -> SpecResult<Seq<char>> {
    match spec_parse_varint(s) {
        SpecResult::Done(n, len) => {
            let data = s.skip(n as int);
            let l = (len as usize) as int;
            if l > data.len() {
                SpecResult::Abort
            } else if valid_utf8(data.take(l)) {
                SpecResult::Done(n + l as nat, decode_utf8(data.take(l)))
            } else {
                SpecResult::Error(Error::String(s))
            }
        },
        other => other.stopped(),
    }
}

/// Reads a protocol string; `None` where the length runs past the input.
pub fn parse_string_checked(input: &[u8]) -> (r: Option<IResult<&[u8], &str, Error<&[u8]>>>)
    ensures
        checked(r, input@, spec_parse_string(input@)),
{
    let (data, length) = match parse_varint(input) {
        Ok(x) => x,
        Err(e) => return Some(Err(e)),
    };
    let length = length as usize;
    if length > data.len() {
        return None;
    }
    let bytes = &data[0..length];
    assert(bytes@ == data@.take(length as int));
    match str_from_utf8(bytes) {
        None => Some(Err(ParseFail::Error(Error::String(input)))),
        Some(val) => {
            proof {
                vstd::utf8::encode_utf8_decode_utf8(val@);
                assert(data@.skip(length as int) =~= input@.skip(input@.len() - data@.len() + length));
            }
            Some(Ok((&data[length..data.len()], val)))
        },
    }
}

/// Reads a protocol string: a VarInt length, then that many bytes of UTF-8.
pub fn parse_string(input: &[u8]) -> (r: IResult<&[u8], &str, Error<&[u8]>>)
    requires
        !(spec_parse_string(input@) is Abort),
    ensures
        agrees(r, input@, spec_parse_string(input@)),
{
    match parse_string_checked(input) {
        Some(r) => r,
        None => {
            assert(false);
            Err(ParseFail::Incomplete(Needed::Unknown))
        },
    }
}

/// Writes a protocol string: the VarInt length of its UTF-8 bytes, then the bytes.
pub fn generate_string(string: &str, out: &mut Vec<u8>)
    ensures
        final(out)@ == old(out)@ + string_bytes(string@),
{
    generate_varint(string.len() as i32, out);
    extend_bytes(out, string.as_bytes());
}


/// Law: reading back what `generate_string` writes gives the same
/// characters and stops at their end, for strings whose UTF-8 encoding
/// fits the VarInt length (at most `i32::MAX` bytes).
pub proof fn lemma_string_roundtrip(chars: Seq<char>, rest: Seq<u8>)
    requires
        encode_utf8(chars).len() <= i32::MAX,
    ensures
        spec_parse_string(string_bytes(chars) + rest) == SpecResult::Done(
            string_bytes(chars).len(),
            chars,
        ),
{
    let e = encode_utf8(chars);
    let l = e.len();
    let n = (l as usize) as i32;
    assert(n == l);
    let prefix = spec_varint(n);
    let s = string_bytes(chars) + rest;
    assert(s =~= prefix + (e + rest));
    lemma_varint_roundtrip(n, e + rest);
    assert(s.skip(prefix.len() as int) =~= e + rest);
    assert((e + rest).take(l as int) =~= e);
    vstd::utf8::encode_utf8_valid_utf8(chars);
    vstd::utf8::encode_utf8_decode_utf8(chars);
}

/// Skipping `a` bytes and then `b` bytes skips `a + b` bytes.
pub proof fn lemma_skip_skip<T>(s: Seq<T>, a: int, b: int)
    requires
        0 <= a <= s.len(),
        0 <= b <= s.len() - a,
    ensures
        s.skip(a).skip(b) == s.skip(a + b),
{
    assert(s.skip(a).skip(b) =~= s.skip(a + b));
}

/// Raising the consumed length twice raises it by the sum.
pub proof fn lemma_after_after<V>(r: SpecResult<V>, a: nat, b: nat)
    ensures
        r.after(a).after(b) == r.after(a + b),
{
}

/// A parser's answer on the bytes after the first `c` agrees, on the
/// whole input, with its meaning after `c` bytes.
pub proof fn lemma_agrees_after<T, V>(
    x: IResult<&[u8], T, Error<&[u8]>>,
    s: Seq<u8>,
    c: nat,
    r: SpecResult<V>,
    view: spec_fn(T) -> V,
)
    requires
        c <= s.len(),
        agrees_by(x, s.skip(c as int), r, view),
    ensures
        agrees_by(x, s, r.after(c), view),
{
    if let SpecResult::Done(n, v) = r {
        lemma_skip_skip(s, c as int, n as int);
    }
}

} // verus!
