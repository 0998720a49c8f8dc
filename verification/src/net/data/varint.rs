use super::{IResult, Needed, ParseFail, SpecResult, agrees};
use crate::error::{Error, SyntaxKind};
use vstd::prelude::*;

verus! {

/// 128 to the power `i`: the weight of the `i`-th seven-bit group.
pub open spec fn pow128(i: nat) -> nat
    decreases i,
{
    if i == 0 {
        1
    } else {
        128 * pow128((i - 1) as nat)
    }
}

/// Where a variable-length integer of at most `max` bytes ends in `s`.
pub enum VarScan {
    /// The integer takes the first `nat` bytes.
    Ends(nat),
    /// The input ends while every byte so far has its continuation bit set.
    Short,
    /// All `max` bytes have their continuation bit set.
    Long,
}

/// Scans `s` for the first byte below 128 among its first `max` bytes.
pub open spec fn var_scan(s: Seq<u8>, max: nat) -> VarScan
    decreases max,
{
    if max == 0 {
        VarScan::Long
    } else if s.len() == 0 {
        VarScan::Short
    } else if s[0] < 128 {
        VarScan::Ends(1)
    } else {
        match var_scan(s.drop_first(), (max - 1) as nat) {
            VarScan::Ends(k) => VarScan::Ends(k + 1),
            other => other,
        }
    }
}

/// The number whose base-128 digits, least significant first, are the low
/// seven bits of the first `n` bytes of `s`.
pub open spec fn var_value(s: Seq<u8>, n: nat) -> nat
    decreases n,
{
    if n == 0 || s.len() == 0 {
        0
    } else {
        (s[0] % 128) as nat + 128 * var_value(s.drop_first(), (n - 1) as nat)
    }
}

/// The meaning of a VarInt: at most five bytes; the value is the base-128
/// number they hold, taken modulo 2^32 as a two's complement `i32`.
pub open spec fn spec_parse_varint(s: Seq<u8>) -> SpecResult<i32> {
    match var_scan(s, 5) {
        VarScan::Ends(n) => SpecResult::Done(n, var_value(s, n) as i32),
        VarScan::Short => SpecResult::Incomplete(Needed::Unknown),
        VarScan::Long => SpecResult::Error(Error::Syntax(s, SyntaxKind::TooLarge)),
    }
}

/// The meaning of a VarLong: as a VarInt, with at most ten bytes and a
/// two's complement `i64`.
pub open spec fn spec_parse_varlong(s: Seq<u8>) -> SpecResult<i64> {
    match var_scan(s, 10) {
        VarScan::Ends(n) => SpecResult::Done(n, var_value(s, n) as i64),
        VarScan::Short => SpecResult::Incomplete(Needed::Unknown),
        VarScan::Long => SpecResult::Error(Error::Syntax(s, SyntaxKind::TooLarge)),
    }
}

/// The base-128 encoding of `u`, least significant group first, with the
/// continuation bit set on every byte but the last.
pub open spec fn varint_bytes(u: nat) -> Seq<u8>
    decreases u,
{
    if u < 128 {
        seq![u as u8]
    } else {
        seq![(u % 128 + 128) as u8] + varint_bytes(u / 128)
    }
}

/// The bytes `generate_varint(n)` writes: the encoding of `n`'s 32 bits.
pub open spec fn spec_varint(n: i32) -> Seq<u8> {
    varint_bytes((n as u32) as nat)
}

pub open spec fn shift_scan(v: VarScan, i: nat) -> VarScan {
    match v {
        VarScan::Ends(k) => VarScan::Ends(k + i),
        other => other,
    }
}

/// After `i` bytes that all carry the continuation bit, the scan goes on
/// at byte `i` with `i` fewer bytes allowed.
pub proof fn lemma_scan_skip(s: Seq<u8>, i: nat, max: nat)
    requires
        i <= max,
        i <= s.len(),
        forall|j: int| 0 <= j < i ==> s[j] >= 128,
    ensures
        var_scan(s, max) == shift_scan(var_scan(s.skip(i as int), (max - i) as nat), i),
    decreases i,
{
    if i == 0 {
        assert(s.skip(0) =~= s);
        match var_scan(s, max) {
            VarScan::Ends(k) => {},
            _ => {},
        }
    } else {
        let t = s.drop_first();
        assert forall|j: int| 0 <= j < i - 1 implies t[j] >= 128 by {
            assert(t[j] == s[j + 1]);
        }
        lemma_scan_skip(t, (i - 1) as nat, (max - 1) as nat);
        assert(t.skip(i - 1) =~= s.skip(i as int));
    }
}

/// Adding the `i`-th byte's digit to the value of the first `i` bytes.
pub proof fn lemma_value_extend(s: Seq<u8>, i: nat)
    requires
        i < s.len(),
    ensures
        var_value(s, i + 1) == var_value(s, i) + (s[i as int] % 128) as nat * pow128(i),
    decreases i,
{
    if i > 0 {
        let t = s.drop_first();
        lemma_value_extend(t, (i - 1) as nat);
        assert(t[i - 1] == s[i as int]);
        let d = (s[i as int] % 128) as nat;
        let p = pow128((i - 1) as nat);
        assert(128 * (d * p) == d * (128 * p)) by (nonlinear_arith);
        assert(var_value(s, i + 1) == (s[0] % 128) as nat + 128 * var_value(t, i));
        assert(var_value(s, i) == (s[0] % 128) as nat + 128 * var_value(t, (i - 1) as nat));
        assert(pow128(i) == 128 * p);
        assert(var_value(t, i) == var_value(t, (i - 1) as nat) + d * p);
        assert(var_value(s, i + 1) == var_value(s, i) + 128 * (d * p));
        assert(var_value(s, i + 1) == var_value(s, i) + d * pow128(i));
    } else {
        assert(var_value(s.drop_first(), 0) == 0);
        assert(var_value(s, 1) == (s[0] % 128) as nat + 128 * var_value(s.drop_first(), 0));
        assert(pow128(0) == 1);
        let d = (s[0] % 128) as nat;
        assert(d * pow128(0) == d);
        assert(var_value(s, 1) == var_value(s, 0) + d * pow128(0));
    }
}

/// The value of `n` bytes is below `128^n`.
pub proof fn lemma_value_bound(s: Seq<u8>, n: nat)
    ensures
        var_value(s, n) < pow128(n),
    decreases n,
{
    if n > 0 && s.len() > 0 {
        lemma_value_bound(s.drop_first(), (n - 1) as nat);
    } else if n > 0 {
        lemma_pow128_positive(n);
    }
}

pub proof fn lemma_pow128_positive(n: nat)
    ensures
        pow128(n) >= 1,
    decreases n,
{
    if n > 0 {
        lemma_pow128_positive((n - 1) as nat);
    }
}

pub proof fn lemma_pow128_values()
    ensures
        pow128(4) == 0x1000_0000,
        pow128(5) == 0x8_0000_0000,
        pow128(9) == 0x8000_0000_0000_0000,
        pow128(10) == 0x40_0000_0000_0000_0000,
{
    reveal_with_fuel(pow128, 11);
}

/// Reads a VarInt: the protocol's variable-length 32-bit integer.
pub fn parse_varint(input: &[u8]) -> (r: IResult<&[u8], i32, Error<&[u8]>>)
    ensures
        agrees(r, input@, spec_parse_varint(input@)),
{
    let mut value: u64 = 0;
    let mut weight: u64 = 1;
    let mut index: usize = 0;
    proof {
        lemma_pow128_values();
        lemma_scan_skip(input@, 0, 5);
    }
    while index < 5
        invariant
            index <= 5,
            index <= input@.len(),
            forall|j: int| 0 <= j < index ==> input@[j] >= 128,
            value == var_value(input@, index as nat),
            weight == pow128(index as nat),
            pow128(5) == 0x8_0000_0000,
            pow128(4) == 0x1000_0000,
            var_scan(input@, 5) == shift_scan(
                var_scan(input@.skip(index as int), (5 - index) as nat),
                index as nat,
            ),
        decreases 5 - index,
    {
        if input.len() <= index {
            assert(input@.skip(index as int).len() == 0);
            return Err(ParseFail::Incomplete(Needed::Unknown));
        }
        let byte = input[index];
        proof {
            lemma_value_extend(input@, index as nat);
            lemma_value_bound(input@, index as nat);
            lemma_pow_monotone(index as nat, 4);
            let d = (byte % 128) as nat;
            assert(d * pow128(index as nat) <= 127 * pow128(index as nat)) by (nonlinear_arith)
                requires
                    d <= 127,
            ;
        }
        value = value + ((byte % 128) as u64) * weight;
        if byte < 128 {
            assert(input@.skip(index as int)[0] == byte);
            return Ok((&input[index + 1..input.len()], value as i32));
        }
        proof {
            let t = input@.skip(index as int);
            assert(t[0] == byte);
            assert(t.drop_first() =~= input@.skip(index + 1));
        }
        weight = weight * 128;
        index = index + 1;
    }
    Err(ParseFail::Error(Error::Syntax(input, SyntaxKind::TooLarge)))
}

pub proof fn lemma_pow_monotone(i: nat, j: nat)
    requires
        i <= j,
    ensures
        pow128(i) <= pow128(j),
    decreases j,
{
    if i < j {
        lemma_pow_monotone(i, (j - 1) as nat);
        lemma_pow128_positive((j - 1) as nat);
    }
}


/// Reads a VarLong: the protocol's variable-length 64-bit integer.
pub fn parse_varlong(input: &[u8]) -> (r: IResult<&[u8], i64, Error<&[u8]>>)
    ensures
        agrees(r, input@, spec_parse_varlong(input@)),
{
    let mut value: u128 = 0;
    let mut weight: u128 = 1;
    let mut index: usize = 0;
    proof {
        lemma_pow128_values();
        lemma_scan_skip(input@, 0, 10);
    }
    while index < 10
        invariant
            index <= 10,
            index <= input@.len(),
            forall|j: int| 0 <= j < index ==> input@[j] >= 128,
            value == var_value(input@, index as nat),
            weight == pow128(index as nat),
            pow128(10) == 0x40_0000_0000_0000_0000,
            pow128(9) == 0x8000_0000_0000_0000,
            var_scan(input@, 10) == shift_scan(
                var_scan(input@.skip(index as int), (10 - index) as nat),
                index as nat,
            ),
        decreases 10 - index,
    {
        if input.len() <= index {
            assert(input@.skip(index as int).len() == 0);
            return Err(ParseFail::Incomplete(Needed::Unknown));
        }
        let byte = input[index];
        proof {
            lemma_value_extend(input@, index as nat);
            lemma_value_bound(input@, index as nat);
            lemma_pow_monotone(index as nat, 9);
            let d = (byte % 128) as nat;
            assert(d * pow128(index as nat) <= 127 * pow128(index as nat)) by (nonlinear_arith)
                requires
                    d <= 127,
            ;
        }
        value = value + ((byte % 128) as u128) * weight;
        if byte < 128 {
            assert(input@.skip(index as int)[0] == byte);
            return Ok((&input[index + 1..input.len()], value as i64));
        }
        proof {
            let t = input@.skip(index as int);
            assert(t[0] == byte);
            assert(t.drop_first() =~= input@.skip(index + 1));
        }
        weight = weight * 128;
        index = index + 1;
    }
    Err(ParseFail::Error(Error::Syntax(input, SyntaxKind::TooLarge)))
}

/// Writes `n` as a VarInt: its 32 bits in seven-bit groups, least
/// significant first, each but the last with the continuation bit set.
pub fn generate_varint(n: i32, out: &mut Vec<u8>)
    ensures
        final(out)@ == old(out)@ + spec_varint(n),
{
    let mut value: u32 = n as u32;
    while value >= 128
        invariant
            old(out)@ + spec_varint(n) == out@ + varint_bytes(value as nat),
        decreases value,
    {
        let byte: u8 = (value % 128 + 128) as u8;
        proof {
            let rest = varint_bytes((value / 128) as nat);
            assert(varint_bytes(value as nat) == seq![byte] + rest);
            assert(out@ + (seq![byte] + rest) =~= out@.push(byte) + rest);
        }
        out.push(byte);
        value = value / 128;
    }
    out.push(value as u8);
    proof {
        assert(varint_bytes(value as nat) == seq![value as u8]);
    }
}

/// A VarInt of `max` or fewer bytes read from the encoding of `u`, with any
/// bytes after it, ends where the encoding ends and holds `u`.
pub proof fn lemma_varint_bytes_scan(u: nat, rest: Seq<u8>, max: nat)
    requires
        max >= 1,
        u < pow128(max),
    ensures
        var_scan(varint_bytes(u) + rest, max) == VarScan::Ends(varint_bytes(u).len()),
        var_value(varint_bytes(u) + rest, varint_bytes(u).len()) == u,
        varint_bytes(u).len() <= max,
    decreases u,
{
    let s = varint_bytes(u) + rest;
    if u < 128 {
        assert(s[0] == u as u8);
        assert(var_value(s.drop_first(), 0) == 0);
    } else {
        let inner = varint_bytes(u / 128);
        assert(pow128(max) == 128 * pow128((max - 1) as nat));
        lemma_pow128_positive((max - 1) as nat);
        assert(max >= 2) by {
            if max == 1 {
                assert(pow128(0) == 1);
            }
        }
        lemma_varint_bytes_scan(u / 128, rest, (max - 1) as nat);
        assert(s.drop_first() =~= inner + rest);
        assert(s[0] == (u % 128 + 128) as u8);
        assert(var_value(s, varint_bytes(u).len()) == (s[0] % 128) as nat + 128 * var_value(
            s.drop_first(),
            inner.len(),
        ));
    }
}

/// Law: reading back what `generate_varint(n)` writes gives `n` again and
/// stops at the end of those bytes, whatever follows them.
pub proof fn lemma_varint_roundtrip(n: i32, rest: Seq<u8>)
    ensures
        spec_parse_varint(spec_varint(n) + rest) == SpecResult::Done(spec_varint(n).len(), n),
        1 <= spec_varint(n).len() <= 5,
{
    let u = (n as u32) as nat;
    lemma_pow128_values();
    lemma_varint_bytes_scan(u, rest, 5);
    assert((n as u32) as i32 == n) by (bit_vector);
    assert(varint_bytes(u).len() >= 1) by {
        reveal_with_fuel(varint_bytes, 2);
    }
}

/// Law: a VarInt reads the same when more bytes follow it.
pub proof fn lemma_varint_prefix(s: Seq<u8>, rest: Seq<u8>)
    requires
        spec_parse_varint(s) is Done,
    ensures
        spec_parse_varint(s + rest) == spec_parse_varint(s),
{
    lemma_scan_prefix(s, rest, 5);
    if let VarScan::Ends(n) = var_scan(s, 5) {
        lemma_value_prefix(s, rest, n);
    }
}

/// Law: a VarLong reads the same when more bytes follow it.
pub proof fn lemma_varlong_prefix(s: Seq<u8>, rest: Seq<u8>)
    requires
        spec_parse_varlong(s) is Done,
    ensures
        spec_parse_varlong(s + rest) == spec_parse_varlong(s),
{
    lemma_scan_prefix(s, rest, 10);
    if let VarScan::Ends(n) = var_scan(s, 10) {
        lemma_value_prefix(s, rest, n);
    }
}

proof fn lemma_scan_prefix(s: Seq<u8>, rest: Seq<u8>, max: nat)
    requires
        var_scan(s, max) is Ends,
    ensures
        var_scan(s + rest, max) == var_scan(s, max),
        var_scan(s, max)->Ends_0 <= s.len(),
    decreases max,
{
    if max > 0 && s.len() > 0 && s[0] >= 128 {
        lemma_scan_prefix(s.drop_first(), rest, (max - 1) as nat);
        assert((s + rest).drop_first() =~= s.drop_first() + rest);
    }
}

proof fn lemma_value_prefix(s: Seq<u8>, rest: Seq<u8>, n: nat)
    requires
        n <= s.len(),
    ensures
        var_value(s + rest, n) == var_value(s, n),
    decreases n,
{
    if n > 0 {
        lemma_value_prefix(s.drop_first(), rest, (n - 1) as nat);
        assert((s + rest).drop_first() =~= s.drop_first() + rest);
    }
}

} // verus!
