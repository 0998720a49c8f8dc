use cookie_factory::{combinator::slice, gen_simple, sequence::tuple};
use hypernovae::data::datapack::DatapackVersion;
use nom::branch::alt;
use nom::bytes::streaming::tag;
use nom::combinator::value;
use nom::Parser;
use hypernovae::data::Identifier;
use hypernovae::error::{Error, SyntaxKind};
use hypernovae::net::data::{
    generate_array, generate_be, generate_optional, generate_string, length_prefixed, parse_array,
    parse_be, parse_bool, parse_optional, parse_string, parse_varint, Encode, Needed, ParseFail,
    Wire,
};

fn string_bytes(s: &str) -> Vec<u8> {
    let mut out = Vec::new();
    generate_string(s, &mut out);
    out
}

#[test]
fn bool_reads_zero_and_one() {
    assert_eq!(parse_bool(&[0, 9]).unwrap(), (&[9u8][..], false));
    assert_eq!(parse_bool(&[1]).unwrap(), (&[][..], true));
    assert!(matches!(parse_bool(&[]), Err(ParseFail::Incomplete(Needed::Size(1)))));
    match parse_bool(&[2, 0]) {
        Err(ParseFail::Error(Error::Syntax(input, SyntaxKind::Tag))) => assert_eq!(input, &[2, 0]),
        other => panic!("unexpected {:?}", other),
    }
}

#[test]
fn bool_matches_nom_alternatives() {
    for input in [&[][..], &[0][..], &[1, 2][..], &[5][..]] {
        let theirs: nom::IResult<&[u8], bool> =
            alt((value(false, tag(&[0][..])), value(true, tag(&[1][..])))).parse(input);
        let ours = parse_bool(input);
        match (theirs, ours) {
            (Ok(a), Ok(b)) => assert_eq!(a, b),
            (Err(nom::Err::Incomplete(nom::Needed::Size(n))), Err(ParseFail::Incomplete(Needed::Size(m)))) => {
                assert_eq!(n.get(), m)
            }
            (Err(nom::Err::Error(e)), Err(ParseFail::Error(Error::Syntax(i, SyntaxKind::Tag)))) => {
                assert_eq!(e.input, i);
                assert_eq!(e.code, nom::error::ErrorKind::Tag);
            }
            (a, b) => panic!("differ: {:?} {:?}", a, b),
        }
    }
}

#[test]
fn big_endian_numbers() {
    let (rest, v) = parse_be(&[0x12, 0x34, 0x56], 2).unwrap();
    assert_eq!(v, 0x1234);
    assert_eq!(rest, &[0x56]);
    assert!(matches!(parse_be(&[0x01], 2), Err(ParseFail::Incomplete(Needed::Size(1)))));
    assert!(matches!(parse_be(&[], 16), Err(ParseFail::Incomplete(Needed::Size(16)))));
    let mut out = Vec::new();
    generate_be(0x0102_0304, 4, &mut out);
    assert_eq!(out, vec![1, 2, 3, 4]);
    let mut out = Vec::new();
    generate_be(u128::MAX, 16, &mut out);
    assert_eq!(parse_be(&out, 16).unwrap().1, u128::MAX);
}

#[test]
fn big_endian_matches_nom() {
    let input = [0xDE, 0xAD, 0xBE, 0xEF, 0x01, 0x02, 0x03, 0x04, 0x05];
    let (r1, a) = nom::number::streaming::be_u64::<_, nom::error::Error<&[u8]>>(&input[..]).unwrap();
    let (r2, b) = parse_be(&input, 8).unwrap();
    assert_eq!(a as u128, b);
    assert_eq!(r1, r2);
    match nom::number::streaming::be_u16::<_, nom::error::Error<&[u8]>>(&input[..1]) {
        Err(nom::Err::Incomplete(nom::Needed::Size(n))) => {
            assert!(matches!(parse_be(&input[..1], 2), Err(ParseFail::Incomplete(Needed::Size(m))) if m == n.get()))
        }
        _ => panic!(),
    }
}

#[test]
fn string_roundtrip_and_errors() {
    let bytes = string_bytes("héllo");
    assert_eq!(bytes[0], 6);
    let mut input = bytes.clone();
    input.push(0x42);
    let (rest, s) = parse_string(&input).unwrap();
    assert_eq!(s, "héllo");
    assert_eq!(rest, &[0x42]);
    match parse_string(&[2, 0xC3, 0x28]) {
        Err(ParseFail::Error(Error::String(i))) => assert_eq!(i, &[2, 0xC3, 0x28]),
        other => panic!("unexpected {:?}", other),
    }
    assert!(matches!(parse_string(&[]), Err(ParseFail::Incomplete(_))));
    assert_eq!(parse_string(&[0]).unwrap(), (&[][..], ""));
}

#[test]
fn string_matches_cookie_factory_layout() {
    let text = "minecraft:brand";
    let theirs = gen_simple(tuple((cookie_factory::bytes::be_u8(text.len() as u8), slice(text.as_bytes()))), Vec::new()).unwrap();
    assert_eq!(string_bytes(text), theirs);
}

#[test]
fn identifier_parse_splits_at_first_colon() {
    let bytes = string_bytes("a:b:c");
    let (rest, id) = Identifier::parse(&bytes).unwrap().unwrap();
    assert!(rest.is_empty());
    assert_eq!(id.namespace, "a");
    assert_eq!(id.value, "b:c");
    let bytes = string_bytes("stone");
    let (_, id) = Identifier::parse(&bytes).unwrap().unwrap();
    assert_eq!(id.namespace, "minecraft");
    assert_eq!(id.value, "stone");
}

#[test]
fn identifier_generate_and_text() {
    let id = Identifier::new("minecraft", "brand");
    assert_eq!(id.to_string(), "minecraft:brand");
    let mut out = Vec::new();
    id.generate(&mut out);
    assert_eq!(out, string_bytes("minecraft:brand"));
    let (_, back) = Identifier::parse(&out).unwrap().unwrap();
    assert_eq!(back, id);
}

#[test]
fn identifier_parse_aborts_on_overlong_length() {
    assert!(Identifier::parse(&[5, b'a']).is_none());
}

#[test]
fn datapack_version_roundtrip() {
    let pack = DatapackVersion::new(Identifier::new("minecraft", "core"), "1.21.11");
    let mut out = Vec::new();
    pack.generate(&mut out);
    let mut expected = string_bytes("minecraft");
    expected.extend(string_bytes("core"));
    expected.extend(string_bytes("1.21.11"));
    assert_eq!(out, expected);
    let (rest, back) = DatapackVersion::parse(&out).unwrap().unwrap();
    assert!(rest.is_empty());
    assert_eq!(back, pack);
    assert!(back.same_as(&pack));
}

#[test]
fn array_roundtrip_of_datapacks() {
    let packs = vec![
        DatapackVersion::new(Identifier::new("minecraft", "core"), "1"),
        DatapackVersion::new(Identifier::new("extra", "pack"), "2"),
    ];
    let mut out = Vec::new();
    generate_array(&packs, &mut out);
    assert_eq!(out[0], 2);
    out.push(0x77);
    let (rest, back): (&[u8], Vec<DatapackVersion>) = parse_array(&out).unwrap();
    assert_eq!(back, packs);
    assert_eq!(rest, &[0x77]);
    let (rest, empty): (&[u8], Vec<DatapackVersion>) = parse_array(&[0, 1]).unwrap();
    assert!(empty.is_empty());
    assert_eq!(rest, &[1]);
}

#[test]
fn array_stops_with_the_element_error() {
    let mut out = vec![2];
    out.extend(string_bytes("a"));
    let r: Result<_, _> = parse_array::<DatapackVersion>(&out);
    assert!(matches!(r, Err(ParseFail::Incomplete(_))));
}

#[test]
fn optional_roundtrip() {
    let mut out = Vec::new();
    generate_optional::<String>(&None, &mut out);
    assert_eq!(out, vec![0]);
    let (rest, v): (&[u8], Option<String>) = parse_optional(&out).unwrap();
    assert!(v.is_none() && rest.is_empty());
    let mut out = Vec::new();
    generate_optional(&Some(String::from("sig")), &mut out);
    assert_eq!(out, vec![1, 3, b's', b'i', b'g']);
    let (_, v): (&[u8], Option<String>) = parse_optional(&out).unwrap();
    assert_eq!(v.as_deref(), Some("sig"));
    assert!(matches!(parse_optional::<String>(&[7]), Err(ParseFail::Error(_))));
}

#[test]
fn frame_length_prefix() {
    let mut out = Vec::new();
    length_prefixed(&[9; 200], &mut out);
    assert_eq!(&out[..2], &[0xC8, 0x01]);
    assert_eq!(out.len(), 202);
    let (rest, len) = parse_varint(&out).unwrap();
    assert_eq!(len, 200);
    assert_eq!(rest, &[9; 200][..]);
}
