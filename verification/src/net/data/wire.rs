use super::{
    IResult, ParseFail, SpecResult, agrees_by, checked, checked_by, extend_bytes,
    generate_string, generate_varint, lemma_string_roundtrip, parse_bool, parse_string_checked,
    parse_varint, spec_parse_bool, spec_parse_string, spec_parse_varint, spec_varint,
    string_bytes,
};
use super::varint::lemma_varint_roundtrip;
use crate::error::Error;
use vstd::prelude::*;
use vstd::utf8::encode_utf8;

verus! {

/// A value with a wire encoding that can be written.
pub trait Encode: Sized + View {
    /// The bytes that encode the value `v`.
    spec fn spec_encode(v: Self::V) -> Seq<u8>;

    /// Appends the value's encoding to `out`.
    fn generate(&self, out: &mut Vec<u8>)
        ensures
            final(out)@ == old(out)@ + Self::spec_encode(self@),
    ;
}

/// A value with a wire encoding that can be written and read back.
pub trait Wire: Encode {
    /// The meaning of reading a value of this type from `data`.
    spec fn spec_parse(data: Seq<u8>) -> SpecResult<Self::V>;

    /// The values that read back as themselves after being written.
    spec fn encodable(v: Self::V) -> bool;

    /// Law: an encodable value reads back from its encoding, whatever follows it.
    proof fn lemma_roundtrip(v: Self::V, rest: Seq<u8>)
        requires
            Self::encodable(v),
        ensures
            Self::spec_parse(Self::spec_encode(v) + rest) == SpecResult::Done(
                Self::spec_encode(v).len(),
                v,
            ),
    ;

    /// Reads a value; `None` exactly where the meaning is `Abort`.
    fn parse(data: &[u8]) -> (r: Option<IResult<&[u8], Self, Error<&[u8]>>>)
        ensures
            checked(r, data@, Self::spec_parse(data@)),
    ;
}

impl Encode for String {
    open spec fn spec_encode(v: Seq<char>) -> Seq<u8> {
        string_bytes(v)
    }

    fn generate(&self, out: &mut Vec<u8>) {
        generate_string(self.as_str(), out);
    }
}

impl Wire for String {
    open spec fn spec_parse(data: Seq<u8>) -> SpecResult<Seq<char>> {
        spec_parse_string(data)
    }

    open spec fn encodable(v: Seq<char>) -> bool {
        encode_utf8(v).len() <= i32::MAX
    }

    proof fn lemma_roundtrip(v: Seq<char>, rest: Seq<u8>) {
        lemma_string_roundtrip(v, rest);
    }

    fn parse(data: &[u8]) -> (r: Option<IResult<&[u8], String, Error<&[u8]>>>) {
        match parse_string_checked(data) {
            None => None,
            Some(Err(e)) => Some(Err(e)),
            Some(Ok((rest, s))) => Some(Ok((rest, s.to_owned()))),
        }
    }
}

/// The views of the values of a vector.
pub open spec fn views<T: View>(v: Vec<T>) -> Seq<T::V> {
    v@.map_values(|x: T| x@)
}

/// The outcome `r` after `n` bytes that held the values `vs`.
pub open spec fn join<V>(n: nat, vs: Seq<V>, r: SpecResult<Seq<V>>) -> SpecResult<Seq<V>> {
    match r {
        SpecResult::Done(m, ws) => SpecResult::Done(n + m, vs + ws),
        other => other.stopped(),
    }
}

/// The meaning of `count` values of type `T`, one after the other.
pub open spec fn spec_parse_many<T: Wire>(data: Seq<u8>, count: nat) -> SpecResult<Seq<T::V>>
    decreases count,
{
    if count == 0 {
        SpecResult::Done(0, seq![])
    } else {
        match T::spec_parse(data) {
            SpecResult::Done(k, v) => join(
                k,
                seq![v],
                spec_parse_many::<T>(data.skip(k as int), (count - 1) as nat),
            ),
            other => other.stopped(),
        }
    }
}

/// The meaning of an array: a VarInt count (a negative one taken as the
/// `usize` it converts to), then that many values.
pub open spec fn spec_parse_array<T: Wire>(s: Seq<u8>) -> SpecResult<Seq<T::V>> {
    match spec_parse_varint(s) {
        SpecResult::Done(n, len) => spec_parse_many::<T>(s.skip(n as int), (len as usize) as nat).after(
            n,
        ),
        other => other.stopped(),
    }
}

/// The encodings of the values `vs`, one after the other.
pub open spec fn concat_encode<T: Encode>(vs: Seq<T::V>) -> Seq<u8>
    decreases vs.len(),
{
    if vs.len() == 0 {
        seq![]
    } else {
        concat_encode::<T>(vs.drop_last()) + T::spec_encode(vs.last())
    }
}

/// The bytes of an array: its VarInt length, then its values.
pub open spec fn array_bytes<T: Encode>(vs: Seq<T::V>) -> Seq<u8> {
    spec_varint((vs.len() as usize) as i32) + concat_encode::<T>(vs)
}

proof fn lemma_join_join<V>(a: nat, vs: Seq<V>, b: nat, ws: Seq<V>, r: SpecResult<Seq<V>>)
    ensures
        join(a, vs, join(b, ws, r)) == join(a + b, vs + ws, r),
{
    match r {
        SpecResult::Done(m, xs) => {
            assert(vs + (ws + xs) =~= (vs + ws) + xs);
        },
        _ => {},
    }
}

/// Reads an array of values; `None` exactly where the meaning is `Abort`.
pub fn parse_array_checked<T: Wire>(input: &[u8]) -> (r: Option<
    IResult<&[u8], Vec<T>, Error<&[u8]>>,
>)
    ensures
        checked_by(r, input@, spec_parse_array::<T>(input@), |v: Vec<T>| views(v)),
{
    let (remaining, length) = match parse_varint(input) {
        Ok(x) => x,
        Err(e) => {
            assert(!(spec_parse_varint(input@) is Done));
            return Some(Err(e));
        },
    };
    let ghost n: nat = (input@.len() - remaining@.len()) as nat;
    let ghost data = input@.skip(n as int);
    let count = length as usize;
    let mut vec: Vec<T> = Vec::new();
    let mut remaining = remaining;
    let mut i: usize = 0;
    let ghost mut consumed: nat = 0;
    proof {
        assert(data.skip(0) =~= data);
        assert(views(vec) =~= Seq::<T::V>::empty());
        assert(seq![] + seq![] =~= Seq::<T::V>::empty());
        match spec_parse_many::<T>(data, count as nat) {
            SpecResult::Done(m, ws) => {
                assert(Seq::<T::V>::empty() + ws =~= ws);
            },
            _ => {},
        }
    }
    while i < count
        invariant
            i <= count,
            consumed <= data.len(),
            remaining@ == data.skip(consumed as int),
            data == input@.skip(n as int),
            n <= input@.len(),
            spec_parse_array::<T>(input@) == spec_parse_many::<T>(data, count as nat).after(n),
            spec_parse_many::<T>(data, count as nat) == join(
                consumed,
                views(vec),
                spec_parse_many::<T>(remaining@, (count - i) as nat),
            ),
        decreases count - i,
    {
        let ghost before = remaining@;
        match T::parse(remaining) {
            None => {
                return None;
            },
            Some(Err(e)) => {
                return Some(Err(e));
            },
            Some(Ok((data2, value))) => {
                let ghost k: nat = (before.len() - data2@.len()) as nat;
                let ghost old_views = views(vec);
                proof {
                    assert(spec_parse_many::<T>(before, (count - i) as nat) == join(
                        k,
                        seq![value@],
                        spec_parse_many::<T>(before.skip(k as int), (count - i - 1) as nat),
                    ));
                    assert(before.skip(k as int) == data2@);
                    lemma_join_join(
                        consumed,
                        old_views,
                        k,
                        seq![value@],
                        spec_parse_many::<T>(data2@, (count - i - 1) as nat),
                    );
                    assert(data.skip(consumed as int).skip(k as int) =~= data.skip((consumed + k) as int));
                }
                vec.push(value);
                proof {
                    assert(views(vec) =~= old_views + seq![value@]);
                }
                remaining = data2;
                proof {
                    consumed = consumed + k;
                }
                i = i + 1;
            },
        }
    }
    proof {
        assert(spec_parse_many::<T>(remaining@, 0) == SpecResult::Done(0, Seq::<T::V>::empty()));
        assert(views(vec) + Seq::<T::V>::empty() =~= views(vec));
        assert(input@.skip(n as int).skip(consumed as int) =~= input@.skip((consumed + n) as int));
    }
    Some(Ok((remaining, vec)))
}


/// Reads an array: a VarInt count, then that many values.
pub fn parse_array<T: Wire>(input: &[u8]) -> (r: IResult<&[u8], Vec<T>, Error<&[u8]>>)
    requires
        !(spec_parse_array::<T>(input@) is Abort),
    ensures
        agrees_by(r, input@, spec_parse_array::<T>(input@), |v: Vec<T>| views(v)),
{
    match parse_array_checked::<T>(input) {
        Some(r) => r,
        None => {
            assert(false);
            Err(ParseFail::Incomplete(super::Needed::Unknown))
        },
    }
}

/// Writes an array: its length as a VarInt, then each value.
pub fn generate_array<T: Encode>(values: &[T], out: &mut Vec<u8>)
    ensures
        final(out)@ == old(out)@ + array_bytes::<T>(values@.map_values(|x: T| x@)),
{
    let ghost vs = values@.map_values(|x: T| x@);
    generate_varint(values.len() as i32, out);
    let ghost start = out@;
    let mut i: usize = 0;
    proof {
        assert(vs.take(0) =~= Seq::<T::V>::empty());
        assert(start + concat_encode::<T>(vs.take(0)) =~= start);
    }
    while i < values.len()
        invariant
            i <= values@.len(),
            vs == values@.map_values(|x: T| x@),
            out@ == start + concat_encode::<T>(vs.take(i as int)),
        decreases values@.len() - i,
    {
        proof {
            assert(vs.take(i + 1).drop_last() =~= vs.take(i as int));
            assert(vs.take(i + 1).last() == values@[i as int]@);
        }
        values[i].generate(out);
        proof {
            assert(out@ =~= start + concat_encode::<T>(vs.take(i + 1)));
        }
        i = i + 1;
    }
    proof {
        assert(vs.take(i as int) =~= vs);
        assert(old(out)@ + array_bytes::<T>(vs) =~= out@);
    }
}

/// The encodings of `vs` split after the first value.
pub proof fn lemma_concat_front<T: Encode>(vs: Seq<T::V>)
    requires
        vs.len() > 0,
    ensures
        concat_encode::<T>(vs) == T::spec_encode(vs[0]) + concat_encode::<T>(vs.drop_first()),
    decreases vs.len(),
{
    if vs.len() == 1 {
        assert(vs.drop_last() =~= Seq::<T::V>::empty());
        assert(vs.drop_first() =~= Seq::<T::V>::empty());
        assert(T::spec_encode(vs[0]) + Seq::<u8>::empty() =~= T::spec_encode(vs[0]));
    } else {
        lemma_concat_front::<T>(vs.drop_last());
        assert(vs.drop_last().drop_first() =~= vs.drop_first().drop_last());
        assert(vs.drop_first().last() == vs.last());
        let a = T::spec_encode(vs[0]);
        let b = concat_encode::<T>(vs.drop_first().drop_last());
        let c = T::spec_encode(vs.last());
        assert((a + b) + c =~= a + (b + c));
    }
}

/// Values that each read back from their encodings read back in sequence.
pub proof fn lemma_many_roundtrip<T: Wire>(vs: Seq<T::V>, rest: Seq<u8>)
    requires
        forall|i: int| 0 <= i < vs.len() ==> T::encodable(#[trigger] vs[i]),
    ensures
        spec_parse_many::<T>(concat_encode::<T>(vs) + rest, vs.len()) == SpecResult::Done(
            concat_encode::<T>(vs).len(),
            vs,
        ),
    decreases vs.len(),
{
    if vs.len() == 0 {
        assert(concat_encode::<T>(vs) == Seq::<u8>::empty());
        assert(vs =~= Seq::<T::V>::empty());
    } else {
        lemma_concat_front::<T>(vs);
        let e0 = T::spec_encode(vs[0]);
        let tail = vs.drop_first();
        let data = concat_encode::<T>(vs) + rest;
        assert(data =~= e0 + (concat_encode::<T>(tail) + rest));
        assert(T::encodable(vs[0]));
        T::lemma_roundtrip(vs[0], concat_encode::<T>(tail) + rest);
        assert(data.skip(e0.len() as int) =~= concat_encode::<T>(tail) + rest);
        assert forall|i: int| 0 <= i < tail.len() implies T::encodable(#[trigger] tail[i]) by {
            assert(tail[i] == vs[i + 1]);
        }
        lemma_many_roundtrip::<T>(tail, rest);
        assert(seq![vs[0]] + tail =~= vs);
    }
}

/// Law: an array of at most `i32::MAX` encodable values reads back from
/// what `generate_array` writes, whatever follows it.
pub proof fn lemma_array_roundtrip<T: Wire>(vs: Seq<T::V>, rest: Seq<u8>)
    requires
        vs.len() <= i32::MAX,
        forall|i: int| 0 <= i < vs.len() ==> T::encodable(#[trigger] vs[i]),
    ensures
        spec_parse_array::<T>(array_bytes::<T>(vs) + rest) == SpecResult::Done(
            array_bytes::<T>(vs).len(),
            vs,
        ),
{
    let n = (vs.len() as usize) as i32;
    assert(n == vs.len());
    let body = concat_encode::<T>(vs) + rest;
    lemma_varint_roundtrip(n, body);
    let s = array_bytes::<T>(vs) + rest;
    assert(s =~= spec_varint(n) + body);
    assert(s.skip(spec_varint(n).len() as int) =~= body);
    lemma_many_roundtrip::<T>(vs, rest);
}

/// The meaning of an optional value: a boolean, then the value if it is true.
pub open spec fn spec_parse_optional<T: Wire>(s: Seq<u8>) -> SpecResult<Option<T::V>> {
    match spec_parse_bool(s) {
        SpecResult::Done(k, present) => if present {
            match T::spec_parse(s.skip(k as int)) {
                SpecResult::Done(m, v) => SpecResult::Done(m + k, Some(v)),
                other => other.stopped(),
            }
        } else {
            SpecResult::Done(k, None)
        },
        other => other.stopped(),
    }
}

/// The view of an optional value.
pub open spec fn option_view<T: View>(o: Option<T>) -> Option<T::V> {
    match o {
        Some(x) => Some(x@),
        None => None,
    }
}

/// Reads an optional value: a boolean telling whether the value follows.
pub fn parse_optional<T: Wire>(input: &[u8]) -> (r: IResult<&[u8], Option<T>, Error<&[u8]>>)
    requires
        !(spec_parse_optional::<T>(input@) is Abort),
    ensures
        agrees_by(r, input@, spec_parse_optional::<T>(input@), |o: Option<T>| option_view(o)),
{
    let (remaining, present) = match parse_bool(input) {
        Ok(x) => x,
        Err(ParseFail::Failure(e)) => return Err(ParseFail::Error(e)),
        Err(e) => return Err(e),
    };
    if !present {
        return Ok((remaining, None));
    }
    match T::parse(remaining) {
        Some(Ok((rest, value))) => {
            proof {
                assert(input@.skip(1).skip((remaining@.len() - rest@.len()) as int) =~= input@.skip(
                    (input@.len() - rest@.len()) as int,
                ));
            }
            Ok((rest, Some(value)))
        },
        Some(Err(e)) => Err(e),
        None => {
            assert(false);
            Err(ParseFail::Incomplete(super::Needed::Unknown))
        },
    }
}

/// The bytes of an optional value: 0, or 1 followed by the value.
pub open spec fn optional_bytes<T: Encode>(o: Option<T::V>) -> Seq<u8> {
    match o {
        None => seq![0u8],
        Some(v) => seq![1u8] + T::spec_encode(v),
    }
}

/// Writes an optional value: the byte 0 for none, else 1 and the value.
pub fn generate_optional<T: Encode>(value: &Option<T>, out: &mut Vec<u8>)
    ensures
        final(out)@ == old(out)@ + optional_bytes::<T>(option_view(*value)),
{
    match value {
        None => {
            out.push(0);
        },
        Some(v) => {
            out.push(1);
            let ghost mid = out@;
            v.generate(out);
            assert(out@ =~= old(out)@ + (seq![1u8] + T::spec_encode(v@)));
        },
    }
}

/// Law: an encodable optional value reads back from its encoding.
pub proof fn lemma_optional_roundtrip<T: Wire>(o: Option<T::V>, rest: Seq<u8>)
    requires
        o matches Some(v) ==> T::encodable(v),
    ensures
        spec_parse_optional::<T>(optional_bytes::<T>(o) + rest) == SpecResult::Done(
            optional_bytes::<T>(o).len(),
            o,
        ),
{
    let s = optional_bytes::<T>(o) + rest;
    match o {
        None => {},
        Some(v) => {
            T::lemma_roundtrip(v, rest);
            assert(s.skip(1) =~= T::spec_encode(v) + rest);
        },
    }
}

/// The bytes of a frame: the VarInt length of `body`, then `body`.
pub open spec fn framed(body: Seq<u8>) -> Seq<u8> {
    spec_varint((body.len() as usize) as i32) + body
}

/// Writes a frame: the length of the already encoded `wrapped` bytes as a
/// VarInt, then those bytes.
pub fn length_prefixed(wrapped: &[u8], out: &mut Vec<u8>)
    ensures
        final(out)@ == old(out)@ + framed(wrapped@),
{
    generate_varint(wrapped.len() as i32, out);
    extend_bytes(out, wrapped);
    assert(out@ =~= old(out)@ + framed(wrapped@));
}

/// Law: the VarInt at the start of a frame reads back as the length of its
/// body (of at most `i32::MAX` bytes), and the body follows it.
pub proof fn lemma_frame_length(body: Seq<u8>, rest: Seq<u8>)
    requires
        body.len() <= i32::MAX,
    ensures
        spec_parse_varint(framed(body) + rest) == SpecResult::Done(
            (framed(body).len() - body.len()) as nat,
            body.len() as i32,
        ),
        (framed(body) + rest).skip(framed(body).len() - body.len()) == body + rest,
{
    let n = (body.len() as usize) as i32;
    lemma_varint_roundtrip(n, body + rest);
    assert(framed(body) + rest =~= spec_varint(n) + (body + rest));
    assert((spec_varint(n) + (body + rest)).skip(spec_varint(n).len() as int) =~= body + rest);
}

} // verus!
