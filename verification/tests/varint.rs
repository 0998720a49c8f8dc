use hypernovae::net::data::{generate_varint, parse_varint, parse_varlong, Needed, ParseFail};

#[test]
fn test_varint_parse() {
    assert!(parse_varint(&[0x00]).unwrap().1 == 0);
    assert!(parse_varint(&[0x01]).unwrap().1 == 1);
    assert!(parse_varint(&[0x02]).unwrap().1 == 2);
    assert!(parse_varint(&[0x7F]).unwrap().1 == 127);
    assert!(parse_varint(&[0x80, 0x01]).unwrap().1 == 128);
    assert!(parse_varint(&[0xFF, 0x01]).unwrap().1 == 255);
    assert!(parse_varint(&[0xDD, 0xC7, 0x01]).unwrap().1 == 25565);
    assert!(parse_varint(&[0xFF, 0xFF, 0x7F]).unwrap().1 == 2097151);
    assert!(parse_varint(&[0xFF, 0xFF, 0xFF, 0xFF, 0x07]).unwrap().1 == 2147483647);
    assert!(parse_varint(&[0xFF, 0xFF, 0xFF, 0xFF, 0x0F]).unwrap().1 == -1);
    assert!(parse_varint(&[0x80, 0x80, 0x80, 0x80, 0x08]).unwrap().1 == -2147483648);
    assert!(parse_varint(&[]).is_err());
    assert!(parse_varint(&[0xFF, 0xFF, 0xFF, 0xFF, 0xFF, 0x01]).is_err());
    assert!(parse_varint(&[0x80, 0x01, 0xAE]).unwrap().1 == 128);
    let temp = parse_varint(&[0x01; 6]).unwrap();
    assert!(temp.0.len() == 5);
    assert!((temp.0)[0] == 0x01);
}

#[test]
fn test_varlong_parse() {
    assert!(parse_varlong(&[0x00]).unwrap().1 == 0);
    assert!(parse_varlong(&[0x01]).unwrap().1 == 1);
    assert!(parse_varlong(&[0x02]).unwrap().1 == 2);
    assert!(parse_varlong(&[0x7F]).unwrap().1 == 127);
    assert!(parse_varlong(&[0x80, 0x01]).unwrap().1 == 128);
    assert!(parse_varlong(&[0xFF, 0x01]).unwrap().1 == 255);
    assert!(parse_varlong(&[0xFF, 0xFF, 0xFF, 0xFF, 0x07]).unwrap().1 == 2147483647);
    assert!(
        parse_varlong(&[0xFF, 0xFF, 0xFF, 0xFF, 0xFF, 0xFF, 0xFF, 0xFF, 0x7F])
            .unwrap()
            .1
            == 9223372036854775807
    );
    assert!(
        parse_varlong(&[0xFF, 0xFF, 0xFF, 0xFF, 0xFF, 0xFF, 0xFF, 0xFF, 0xFF, 0x0F])
            .unwrap()
            .1
            == -1
    );
    assert!(
        parse_varlong(&[0x80, 0x80, 0x80, 0x80, 0xF8, 0xFF, 0xFF, 0xFF, 0xFF, 0x01])
            .unwrap()
            .1
            == -2147483648
    );
    assert!(
        parse_varlong(&[0x80, 0x80, 0x80, 0x80, 0x80, 0x80, 0x80, 0x80, 0x80, 0x01])
            .unwrap()
            .1
            == -9223372036854775808
    );
    assert!(parse_varlong(&[]).is_err());
    assert!(
        parse_varlong(&[
            0xFF, 0xFF, 0xFF, 0xFF, 0xFF, 0xFF, 0xFF, 0xFF, 0xFF, 0xFF, 0xFF, 0x01
        ])
        .is_err()
    );
    assert!(parse_varlong(&[0x80, 0x01, 0xAE]).unwrap().1 == 128);
    let temp = parse_varlong(&[0x01; 11]).unwrap();
    assert!(temp.0.len() == 10);
    assert!((temp.0)[0] == 0x01);
}

#[test]
fn varint_short_input_is_incomplete() {
    assert!(matches!(parse_varint(&[]), Err(ParseFail::Incomplete(Needed::Unknown))));
    assert!(matches!(parse_varint(&[0x80, 0x80]), Err(ParseFail::Incomplete(Needed::Unknown))));
    assert!(matches!(parse_varlong(&[0xFF; 9]), Err(ParseFail::Incomplete(Needed::Unknown))));
}

#[test]
fn varint_too_long_is_syntax_error() {
    match parse_varint(&[0x80, 0x80, 0x80, 0x80, 0x80, 0x00]) {
        Err(ParseFail::Error(hypernovae::error::Error::Syntax(input, kind))) => {
            assert_eq!(input.len(), 6);
            assert_eq!(kind, hypernovae::error::SyntaxKind::TooLarge);
        }
        other => panic!("unexpected {:?}", other),
    }
    assert!(matches!(parse_varlong(&[0x80; 10]), Err(ParseFail::Error(_))));
}

#[test]
fn varint_generate_known_values() {
    let cases: Vec<(i32, Vec<u8>)> = vec![
        (0, vec![0x00]),
        (1, vec![0x01]),
        (127, vec![0x7F]),
        (128, vec![0x80, 0x01]),
        (255, vec![0xFF, 0x01]),
        (25565, vec![0xDD, 0xC7, 0x01]),
        (2097151, vec![0xFF, 0xFF, 0x7F]),
        (2147483647, vec![0xFF, 0xFF, 0xFF, 0xFF, 0x07]),
        (-1, vec![0xFF, 0xFF, 0xFF, 0xFF, 0x0F]),
        (-2147483648, vec![0x80, 0x80, 0x80, 0x80, 0x08]),
    ];
    for (n, bytes) in cases {
        let mut out = vec![0xAA];
        generate_varint(n, &mut out);
        assert_eq!(&out[1..], &bytes[..]);
        assert_eq!(out[0], 0xAA);
    }
}

#[test]
fn varint_roundtrip_with_trailing_bytes() {
    for n in [0i32, 1, -1, 300, -300, 1 << 20, i32::MAX, i32::MIN, 12345678] {
        let mut out = Vec::new();
        generate_varint(n, &mut out);
        let len = out.len();
        out.extend_from_slice(&[0x05, 0x06]);
        let (rest, value) = parse_varint(&out).unwrap();
        assert_eq!(value, n);
        assert_eq!(rest, &[0x05, 0x06]);
        assert_eq!(out.len() - rest.len(), len);
        assert!(len >= 1 && len <= 5);
    }
}
