use trng_client_core::protocol::{
    parse_response, request_line, serialize_response, ParseError, RemoteCommand,
};

#[test]
fn parse_valid_response() {
    let r = parse_response("LEN:12,COMPLEX:3,KEY:abcdef0123").unwrap();
    assert_eq!(r.0, 12);
    assert_eq!(r.1, 3);
    assert_eq!(r.2, "abcdef0123");
}

#[test]
fn parse_trims_surrounding_whitespace() {
    let r = parse_response("  LEN:5,COMPLEX:0,KEY:ab \r\n").unwrap();
    assert_eq!(r, (5, 0, "ab".to_string()));
}

#[test]
fn parse_serialize_round_trip() {
    let text = "LEN:16,COMPLEX:4,KEY:00112233445566778899aabbccddeeff";
    let (n, c, k) = parse_response(text).unwrap();
    let again = serialize_response(n, c, &k);
    assert_eq!(again, text);
    assert_eq!(parse_response(&again).unwrap(), (n, c, k));
}

#[test]
fn serialize_smallest_fields() {
    assert_eq!(serialize_response(0, 255, ""), "LEN:0,COMPLEX:255,KEY:");
}

#[test]
fn parse_two_fields_names_the_count() {
    let e = parse_response("LEN:5,COMPLEX:2").unwrap_err();
    assert_eq!(e, ParseError::WrongFieldCount { count: 2 });
    assert_eq!(e.message(), "invalid response format (2 parts)");
}

#[test]
fn parse_four_fields_names_the_count() {
    let e = parse_response("LEN:5,COMPLEX:2,KEY:ab,EXTRA:1").unwrap_err();
    assert_eq!(e, ParseError::WrongFieldCount { count: 4 });
}

#[test]
fn parse_missing_len_prefix() {
    let e = parse_response("LENGTH:5,COMPLEX:2,KEY:ab").unwrap_err();
    assert_eq!(e, ParseError::MissingLenPrefix);
    assert_eq!(e.message(), "missing LEN");
}

#[test]
fn parse_bad_len_value() {
    assert_eq!(
        parse_response("LEN:abc,COMPLEX:2,KEY:ab").unwrap_err(),
        ParseError::BadLenValue
    );
    assert_eq!(
        parse_response("LEN:,COMPLEX:2,KEY:ab").unwrap_err(),
        ParseError::BadLenValue
    );
    assert_eq!(
        parse_response("LEN:99999999999999999999999999,COMPLEX:2,KEY:ab").unwrap_err(),
        ParseError::BadLenValue
    );
}

#[test]
fn parse_accepts_leading_plus_like_std() {
    let r = parse_response("LEN:+7,COMPLEX:+1,KEY:ab").unwrap();
    assert_eq!(r, (7, 1, "ab".to_string()));
    assert_eq!("+7".parse::<usize>().unwrap(), 7);
}

#[test]
fn parse_missing_complex_prefix() {
    assert_eq!(
        parse_response("LEN:5,COMPLEXITY:2,KEY:ab").unwrap_err(),
        ParseError::MissingComplexPrefix
    );
}

#[test]
fn parse_bad_complex_value() {
    assert_eq!(
        parse_response("LEN:5,COMPLEX:x,KEY:ab").unwrap_err(),
        ParseError::BadComplexValue
    );
    assert_eq!(
        parse_response("LEN:5,COMPLEX:256,KEY:ab").unwrap_err(),
        ParseError::BadComplexValue
    );
}

#[test]
fn parse_missing_key_prefix() {
    assert_eq!(
        parse_response("LEN:5,COMPLEX:2,KEI:ab").unwrap_err(),
        ParseError::MissingKeyPrefix
    );
}

#[test]
fn parse_key_returned_verbatim() {
    let r = parse_response("LEN:5,COMPLEX:2,KEY:zz-not-checked-here").unwrap();
    assert_eq!(r.2, "zz-not-checked-here");
}

#[test]
fn command_lines_are_fixed() {
    assert_eq!(
        RemoteCommand::Select.wire_line().as_bytes(),
        b"CMD_SELECT\n"
    );
    assert_eq!(RemoteCommand::Up.wire_line().as_bytes(), b"CMD_UP\n");
    assert_eq!(RemoteCommand::Down.wire_line().as_bytes(), b"CMD_DOWN\n");
}

#[test]
fn request_line_is_fixed() {
    assert_eq!(request_line().as_bytes(), b"GET_DATA\n");
}

#[test]
fn parse_plus_alone_is_no_number() {
    assert_eq!(
        parse_response("LEN:+,COMPLEX:2,KEY:ab").unwrap_err(),
        ParseError::BadLenValue
    );
}

#[test]
fn parse_bare_commas_have_three_empty_fields() {
    assert_eq!(parse_response(",,").unwrap_err(), ParseError::MissingLenPrefix);
}

#[test]
fn parse_blank_response_is_one_field() {
    assert_eq!(
        parse_response("   \r\n").unwrap_err(),
        ParseError::WrongFieldCount { count: 1 }
    );
}
