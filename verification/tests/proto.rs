use tailsrv::proto::{parse_header, resolve_index, HeaderError, Req};

#[test]
fn header_zero() {
    assert_eq!(parse_header(b"0\n"), Ok(0));
}

#[test]
fn header_negative() {
    assert_eq!(parse_header(b"-5\n"), Ok(-5));
}

#[test]
fn header_positive_sign() {
    assert_eq!(parse_header(b"+7"), Ok(7));
}

#[test]
fn header_surrounded_by_whitespace() {
    assert_eq!(parse_header(b" \t 42 \r\n"), Ok(42));
}

#[test]
fn header_max_in_range() {
    assert_eq!(parse_header(b"9223372036854775807"), Ok(i64::MAX));
}

#[test]
fn header_min_in_range() {
    assert_eq!(parse_header(b"-9223372036854775808"), Ok(i64::MIN));
}

#[test]
fn header_overflow_rejected() {
    assert_eq!(parse_header(b"9223372036854775808"), Err(HeaderError::Int));
    assert_eq!(parse_header(b"-9223372036854775809"), Err(HeaderError::Int));
}

#[test]
fn header_leading_zeroes() {
    assert_eq!(parse_header(b"007"), Ok(7));
}

#[test]
fn header_garbage_rejected() {
    assert_eq!(parse_header(b"abc\n"), Err(HeaderError::Int));
    assert_eq!(parse_header(b"12a"), Err(HeaderError::Int));
    assert_eq!(parse_header(b"1 2"), Err(HeaderError::Int));
}

#[test]
fn header_empty_rejected() {
    assert_eq!(parse_header(b""), Err(HeaderError::Int));
    assert_eq!(parse_header(b"  \n"), Err(HeaderError::Int));
}

#[test]
fn header_bare_sign_rejected() {
    assert_eq!(parse_header(b"+"), Err(HeaderError::Int));
    assert_eq!(parse_header(b"-\n"), Err(HeaderError::Int));
}

#[test]
fn req_plain_integer() {
    assert_eq!(Req::from_str(b"-3"), Ok(Req::Byte(-3)));
    assert_eq!(Req::from_str(b"7 \n"), Ok(Req::Byte(7)));
}

#[test]
fn req_leading_space_makes_the_first_word_empty() {
    // Words are split on single spaces, so a leading space yields an
    // empty first word, which reads as a request for the end.
    assert_eq!(Req::from_str(b" 7 \n"), Ok(Req::End));
}

#[test]
fn req_end_word() {
    assert_eq!(Req::from_str(b"end\n"), Ok(Req::End));
}

#[test]
fn req_empty_line_means_end() {
    assert_eq!(Req::from_str(b""), Ok(Req::End));
    assert_eq!(Req::from_str(b"\n"), Ok(Req::End));
}

#[test]
fn req_byte_form() {
    assert_eq!(Req::from_str(b"byte 5\n"), Ok(Req::Byte(5)));
    assert_eq!(Req::from_str(b"byte -12"), Ok(Req::Byte(-12)));
}

#[test]
fn req_byte_missing_argument() {
    assert_eq!(Req::from_str(b"byte"), Err(HeaderError::NotEnoughTokens));
}

#[test]
fn req_byte_bad_argument() {
    assert_eq!(Req::from_str(b"byte x"), Err(HeaderError::Int));
    // A doubled space makes the second word empty, which is not a number.
    assert_eq!(Req::from_str(b"byte  5"), Err(HeaderError::Int));
}

#[test]
fn req_unknown_word() {
    assert_eq!(Req::from_str(b"seqnum 3"), Err(HeaderError::UnknownIndex));
    assert_eq!(Req::from_str(b"foo"), Err(HeaderError::UnknownIndex));
}

#[test]
fn resolve_end_is_current_length() {
    assert_eq!(resolve_index(Req::End, 11), 11);
    assert_eq!(resolve_index(Req::End, 0), 0);
}

#[test]
fn resolve_byte_absolute() {
    assert_eq!(resolve_index(Req::Byte(5), 3), 5);
    assert_eq!(resolve_index(Req::Byte(0), 3), 0);
}

#[test]
fn resolve_byte_from_end_saturates() {
    assert_eq!(resolve_index(Req::Byte(-5), 11), 6);
    assert_eq!(resolve_index(Req::Byte(-1000000), 4), 0);
}
