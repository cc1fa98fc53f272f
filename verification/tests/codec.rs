use redis_lite::resp_response::{parse_array, parse_bulk_string, parse_message, ParseError, RespResponse};

fn bulk(s: &[u8]) -> RespResponse {
    RespResponse::BulkString(s.to_vec())
}

fn simple(s: &[u8]) -> RespResponse {
    RespResponse::SimpleString(s.to_vec())
}

fn frames_equal(a: &RespResponse, b: &RespResponse) -> bool {
    match (a, b) {
        (RespResponse::SimpleString(x), RespResponse::SimpleString(y)) => x == y,
        (RespResponse::BulkString(x), RespResponse::BulkString(y)) => x == y,
        (RespResponse::NullBulkString, RespResponse::NullBulkString) => true,
        (RespResponse::RespArray(xs), RespResponse::RespArray(ys)) => {
            xs.len() == ys.len() && xs.iter().zip(ys.iter()).all(|(x, y)| frames_equal(x, y))
        },
        _ => false,
    }
}

#[test]
fn serialize_simple_string() {
    assert_eq!(simple(b"OK").serialize(), b"+OK\r\n".to_vec());
}

#[test]
fn serialize_bulk_string() {
    assert_eq!(bulk(b"foobar").serialize(), b"$6\r\nfoobar\r\n".to_vec());
}

#[test]
fn serialize_empty_bulk_string() {
    assert_eq!(bulk(b"").serialize(), b"$0\r\n\r\n".to_vec());
}

#[test]
fn serialize_null_bulk_string() {
    assert_eq!(RespResponse::NullBulkString.serialize(), b"$-1\r\n".to_vec());
}

#[test]
fn serialize_array() {
    let arr = RespResponse::RespArray(vec![bulk(b"ECHO"), bulk(b"hello")]);
    assert_eq!(arr.serialize(), b"*2\r\n$4\r\nECHO\r\n$5\r\nhello\r\n".to_vec());
}

#[test]
fn serialize_empty_array() {
    let arr = RespResponse::RespArray(vec![]);
    assert_eq!(arr.serialize(), b"*0\r\n".to_vec());
}

#[test]
fn parse_simple_string_frame() {
    let (f, n) = parse_message(b"+PONG\r\n").unwrap();
    assert!(frames_equal(&f, &simple(b"PONG")));
    assert_eq!(n, 7);
}

#[test]
fn parse_bulk_string_frame() {
    let (f, n) = parse_message(b"$5\r\nhello\r\n").unwrap();
    assert!(frames_equal(&f, &bulk(b"hello")));
    assert_eq!(n, 11);
}

#[test]
fn parse_null_bulk_frame() {
    let (f, n) = parse_message(b"$-1\r\n").unwrap();
    assert!(frames_equal(&f, &RespResponse::NullBulkString));
    assert_eq!(n, 5);
}

#[test]
fn parse_array_frame() {
    let (f, n) = parse_message(b"*2\r\n$4\r\nECHO\r\n$5\r\nhello\r\n").unwrap();
    let expected = RespResponse::RespArray(vec![bulk(b"ECHO"), bulk(b"hello")]);
    assert!(frames_equal(&f, &expected));
    assert_eq!(n, 25);
}

#[test]
fn parse_nested_array_frame() {
    let wire = b"*2\r\n*1\r\n+a\r\n$1\r\nb\r\n";
    let (f, n) = parse_message(wire).unwrap();
    let expected = RespResponse::RespArray(vec![
        RespResponse::RespArray(vec![simple(b"a")]),
        bulk(b"b"),
    ]);
    assert!(frames_equal(&f, &expected));
    assert_eq!(n, wire.len());
}

#[test]
fn parse_consumes_only_one_frame() {
    let (f, n) = parse_message(b"+OK\r\n+second\r\n").unwrap();
    assert!(frames_equal(&f, &simple(b"OK")));
    assert_eq!(n, 5);
}

#[test]
fn round_trip_of_every_shape() {
    let frames = vec![
        simple(b"PONG"),
        bulk(b"hello"),
        bulk(b""),
        RespResponse::NullBulkString,
        RespResponse::RespArray(vec![]),
        RespResponse::RespArray(vec![
            bulk(b"SET"),
            bulk(b"key"),
            RespResponse::RespArray(vec![simple(b"x"), RespResponse::NullBulkString]),
        ]),
    ];
    for frame in frames {
        let wire = frame.serialize();
        let (parsed, n) = parse_message(&wire).unwrap();
        assert_eq!(n, wire.len());
        assert!(frames_equal(&parsed, &frame));
    }
}

#[test]
fn every_proper_prefix_is_incomplete() {
    let frame = RespResponse::RespArray(vec![
        bulk(b"ECHO"),
        bulk(b"hel\r\nlo"),
        simple(b"tail"),
    ]);
    let wire = frame.serialize();
    for cut in 0..wire.len() {
        let r = parse_message(&wire[..cut]);
        assert!(matches!(r, Err(ParseError::Incomplete)), "prefix of length {cut}");
    }
}

#[test]
fn bulk_strings_are_byte_transparent() {
    let payloads: Vec<&[u8]> = vec![b"", b"\r\n", b"\0", b"a\rb\nc\0d", b"\xff\xfe"];
    for p in payloads {
        let wire = bulk(p).serialize();
        let (parsed, n) = parse_message(&wire).unwrap();
        assert_eq!(n, wire.len());
        assert!(frames_equal(&parsed, &bulk(p)));
    }
}

#[test]
fn unknown_leading_byte_is_malformed() {
    assert!(matches!(parse_message(b"PING\r\n"), Err(ParseError::Malformed)));
}

#[test]
fn bare_lf_in_simple_string_is_malformed() {
    assert!(matches!(parse_message(b"+ab\ncd\r\n"), Err(ParseError::Malformed)));
}

#[test]
fn cr_without_lf_is_malformed() {
    assert!(matches!(parse_message(b"+ab\rcd\r\n"), Err(ParseError::Malformed)));
}

#[test]
fn non_numeric_bulk_length_is_malformed() {
    assert!(matches!(parse_message(b"$x\r\nabc\r\n"), Err(ParseError::Malformed)));
}

#[test]
fn negative_bulk_length_other_than_null_is_malformed() {
    assert!(matches!(parse_message(b"$-2\r\nab\r\n"), Err(ParseError::Malformed)));
}

#[test]
fn negative_array_count_is_malformed() {
    assert!(matches!(parse_message(b"*-1\r\n"), Err(ParseError::Malformed)));
}

#[test]
fn bulk_payload_not_closed_by_crlf_is_malformed() {
    assert!(matches!(parse_message(b"$3\r\nabcXY"), Err(ParseError::Malformed)));
}

#[test]
fn huge_length_is_malformed() {
    assert!(matches!(parse_message(b"$99999999999999999999999999\r\n"), Err(ParseError::Malformed)));
}

#[test]
fn leading_zeros_in_length_are_accepted() {
    let (f, n) = parse_message(b"$003\r\nabc\r\n").unwrap();
    assert!(frames_equal(&f, &bulk(b"abc")));
    assert_eq!(n, 11);
}

#[test]
fn truncated_bulk_is_incomplete() {
    assert!(matches!(parse_message(b"$5\r\nhel"), Err(ParseError::Incomplete)));
}

#[test]
fn empty_input_is_incomplete() {
    assert!(matches!(parse_message(b""), Err(ParseError::Incomplete)));
}

#[test]
fn array_with_malformed_element_is_malformed() {
    assert!(matches!(parse_message(b"*1\r\nxyz\r\n"), Err(ParseError::Malformed)));
}

#[test]
fn parse_bulk_string_entry_point() {
    let (f, n) = parse_bulk_string(b"$2\r\nok\r\n").unwrap();
    assert!(frames_equal(&f, &bulk(b"ok")));
    assert_eq!(n, 8);
}

#[test]
fn parse_array_entry_point() {
    let (f, n) = parse_array(b"*1\r\n+x\r\n").unwrap();
    assert!(frames_equal(&f, &RespResponse::RespArray(vec![simple(b"x")])));
    assert_eq!(n, 8);
}

#[test]
fn get_command_and_args_from_array() {
    let frame = RespResponse::RespArray(vec![bulk(b"GET"), bulk(b"foo")]);
    let (cmd, args) = frame.get_command_and_args().unwrap();
    assert_eq!(cmd, b"GET".to_vec());
    assert_eq!(args.len(), 2);
}

#[test]
fn get_command_and_args_rejects_simple_string() {
    // only an array names a command; a bare simple string is a protocol error
    assert!(simple(b"PING").get_command_and_args().is_err());
}

#[test]
fn get_command_and_args_rejects_non_commands() {
    assert!(bulk(b"GET").get_command_and_args().is_err());
    assert!(RespResponse::NullBulkString.get_command_and_args().is_err());
    assert!(RespResponse::RespArray(vec![]).get_command_and_args().is_err());
    assert!(RespResponse::RespArray(vec![simple(b"GET")]).get_command_and_args().is_err());
}

#[test]
fn get_value_reads_string_payloads() {
    assert_eq!(simple(b"abc").get_value(), b"abc".to_vec());
    assert_eq!(bulk(b"xyz").get_value(), b"xyz".to_vec());
}
