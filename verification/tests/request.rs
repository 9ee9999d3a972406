use lib::decimal::parse_usize_decimal;
use lib::head::{accept_body, parse_field_line, FieldResult, HttpRequest, ParsedHead, RequestHead};
use lib::http_error::HttpErrorType;
use lib::request::{HeadStep, ReadEvent, RequestHeadReader};

/// Feeds `input` byte by byte; gives the last step and the reader.
fn feed(input: &[u8]) -> (Option<HeadStep>, RequestHeadReader) {
    let mut reader = RequestHeadReader::new();
    let mut last = None;
    for &b in input {
        let step = reader.step(ReadEvent::Byte(b));
        let done = !matches!(step, HeadStep::NeedByte);
        last = Some(step);
        if done {
            break;
        }
    }
    (last, reader)
}

fn parse(input: &[u8]) -> ParsedHead {
    let (step, reader) = feed(input);
    assert!(matches!(step, Some(HeadStep::HeadComplete)));
    RequestHead::parse(reader.lines())
}

fn parsed(input: &[u8]) -> RequestHead {
    match parse(input) {
        ParsedHead::Parsed(head) => head,
        _ => panic!("head not parsed"),
    }
}

fn rejected(input: &[u8]) -> HttpErrorType {
    match parse(input) {
        ParsedHead::Rejected(error) => error.error_type(),
        _ => panic!("head not rejected"),
    }
}

#[test]
fn reader_completes_at_first_blank_line() {
    let (step, reader) = feed(b"GET / HTTP/1.1\r\nHost: a\r\n\r\nrest");
    assert!(matches!(step, Some(HeadStep::HeadComplete)));
    assert_eq!(reader.lines().len(), 2);
    assert_eq!(reader.lines()[0], b"GET / HTTP/1.1\r\n".to_vec());
    assert_eq!(reader.lines()[1], b"Host: a\r\n".to_vec());
}

#[test]
fn reader_skips_blank_lines_before_the_start_line() {
    let (step, reader) = feed(b"\r\n\r\nGET / HTTP/1.1\r\n\r\n");
    assert!(matches!(step, Some(HeadStep::HeadComplete)));
    assert_eq!(reader.lines().len(), 1);
}

#[test]
fn reader_takes_any_two_byte_line_as_blank() {
    let (step, reader) = feed(b"GET / HTTP/1.1\r\nx\n");
    assert!(matches!(step, Some(HeadStep::HeadComplete)));
    assert_eq!(reader.lines().len(), 1);
}

#[test]
fn reader_keeps_one_byte_lines() {
    let (step, reader) = feed(b"\nGET / HTTP/1.1\r\n\r\n");
    assert!(matches!(step, Some(HeadStep::HeadComplete)));
    assert_eq!(reader.lines().len(), 2);
    assert_eq!(reader.lines()[0], b"\n".to_vec());
}

#[test]
fn reader_waits_for_more() {
    let (step, reader) = feed(b"GET / HTTP/1.1\r\nHost");
    assert!(matches!(step, Some(HeadStep::NeedByte)));
    assert_eq!(reader.lines().len(), 1);
}

#[test]
fn reader_failures() {
    let mut reader = RequestHeadReader::new();
    match reader.step(ReadEvent::ReadError) {
        HeadStep::Failed(error) => assert_eq!(error.error_type(), HttpErrorType::IncompleteHttpRequest),
        _ => panic!("no failure"),
    }
    match reader.step(ReadEvent::EndOfStream) {
        HeadStep::Failed(error) => assert_eq!(error.error_type(), HttpErrorType::ClientTimeout),
        _ => panic!("no failure"),
    }
}

#[test]
fn parses_start_line_and_fields() {
    let head = parsed(b"POST /submit HTTP/1.1\r\nHost: example.org\r\nX-Thing: a: b\r\n\r\n");
    assert_eq!(head.method(), "POST");
    assert_eq!(head.path(), "/submit");
    assert_eq!(head.protocol(), "HTTP/1.1");
    assert_eq!(head.fields().len(), 2);
    assert_eq!(head.fields()[0].name, "Host");
    assert_eq!(head.fields()[0].value, "example.org");
    assert_eq!(head.fields()[1].name, "X-Thing");
    assert_eq!(head.fields()[1].value, "a: b");
    assert_eq!(head.header_value("Host").unwrap(), "example.org");
    assert!(head.header_value("host").is_none());
}

#[test]
fn start_line_words_split_on_any_white_space() {
    let head = parsed("  GET\t/a\u{a0}HTTP/1.0  extra\r\n\r\n".as_bytes());
    assert_eq!(head.method(), "GET");
    assert_eq!(head.path(), "/a");
    assert_eq!(head.protocol(), "HTTP/1.0");
}

#[test]
fn fewer_than_three_words_is_a_bad_request_line() {
    assert_eq!(rejected(b"GET /\r\n\r\n"), HttpErrorType::BadRequestLine);
    assert_eq!(rejected(b"GET\r\n\r\n"), HttpErrorType::BadRequestLine);
    assert_eq!(rejected(b"\n\r\n"), HttpErrorType::BadRequestLine);
}

#[test]
fn field_without_separator_is_refused() {
    assert_eq!(rejected(b"GET / HTTP/1.1\r\nHost:example\r\n\r\n"), HttpErrorType::IncorrectHeaderFormat);
}

#[test]
fn bad_request_line_comes_before_bad_fields() {
    assert_eq!(rejected(b"GET /\r\nbroken\r\n\r\n"), HttpErrorType::BadRequestLine);
}

#[test]
fn value_without_room_for_a_line_end_cannot_be_read() {
    assert!(matches!(parse(b"GET / HTTP/1.1\r\nKey: \n\r\n"), ParsedHead::Unparsable));
    assert!(matches!(parse("GET / HTTP/1.1\r\nKey: \u{e9}\n\r\n".as_bytes()), ParsedHead::Unparsable));
}

#[test]
fn earlier_bad_field_wins_over_later_unreadable_value() {
    assert_eq!(rejected(b"GET / HTTP/1.1\r\nbroken\r\nKey: \n\r\n"), HttpErrorType::IncorrectHeaderFormat);
}

#[test]
fn value_ending_in_a_bare_newline_loses_its_last_character() {
    let head = parsed(b"GET / HTTP/1.1\r\nKey: abc\n\r\n");
    assert_eq!(head.fields()[0].value, "ab");
}

#[test]
fn invalid_utf8_is_replaced() {
    let head = parsed(b"GET /\xff HTTP/1.1\r\n\r\n");
    assert_eq!(head.path(), "/\u{fffd}");
}

#[test]
fn content_length_absent() {
    let head = parsed(b"GET / HTTP/1.1\r\nHost: a\r\n\r\n");
    assert_eq!(head.content_length().ok(), Some(None));
}

#[test]
fn content_length_values() {
    let head = parsed(b"POST / HTTP/1.1\r\nContent-Length: 12\r\n\r\n");
    assert_eq!(head.content_length().ok(), Some(Some(12)));
    let head = parsed(b"POST / HTTP/1.1\r\nContent-Length: +7\r\n\r\n");
    assert_eq!(head.content_length().ok(), Some(Some(7)));
    let head = parsed(b"POST / HTTP/1.1\r\nContent-Length: 1\r\nContent-Length: 3\r\n\r\n");
    assert_eq!(head.content_length().ok(), Some(Some(3)));
}

#[test]
fn content_length_errors() {
    for value in ["-1", "abc", "", "+", " 5", "99999999999999999999999"] {
        let input = format!("POST / HTTP/1.1\r\nContent-Length: {}\r\n\r\n", value);
        let head = parsed(input.as_bytes());
        match head.content_length() {
            Err(error) => assert_eq!(error.error_type(), HttpErrorType::IncorrectContentLength),
            Ok(_) => panic!("length accepted: {:?}", value),
        }
    }
}

#[test]
fn decimal_reader_agrees_with_std() {
    for text in ["0", "+0", "42", "+42", "-0", "+", "", "4a", "18446744073709551615", "18446744073709551616", "007"] {
        let chars: Vec<char> = text.chars().collect();
        assert_eq!(parse_usize_decimal(&chars), usize::from_str_radix(text, 10).ok(), "{:?}", text);
    }
}

#[test]
fn body_is_accepted_only_when_read_whole() {
    assert_eq!(accept_body(3, vec![1, 2, 3], Some(3)).ok(), Some(vec![1, 2, 3]));
    match accept_body(3, vec![1, 2, 3], Some(2)) {
        Err(error) => assert_eq!(error.error_type(), HttpErrorType::IncompleteHttpBody),
        Ok(_) => panic!("short body accepted"),
    }
    match accept_body(3, vec![1, 2, 3], None) {
        Err(error) => assert_eq!(error.error_type(), HttpErrorType::IncompleteHttpBody),
        Ok(_) => panic!("failed read accepted"),
    }
}

#[test]
fn request_getters() {
    let head = parsed(b"PUT /x HTTP/1.1\r\n\r\n");
    let request = HttpRequest::new(head, vec![7, 8]);
    assert_eq!(request.get_request_method(), "PUT");
    assert_eq!(request.get_request_path(), "/x");
    assert_eq!(request.get_request_protocol(), "HTTP/1.1");
    assert_eq!(request.get_request_body(), vec![7, 8]);
}

#[test]
fn blank_lines_before_a_request_change_nothing() {
    let request = b"POST /p HTTP/1.1\r\nContent-Length: 2\r\n\r\nhi";
    let (plain_step, plain) = feed(request);
    let mut padded_input = b"\r\n\r\n\r\n".to_vec();
    padded_input.extend_from_slice(request);
    let (padded_step, padded) = feed(&padded_input);
    assert!(matches!(plain_step, Some(HeadStep::HeadComplete)));
    assert!(matches!(padded_step, Some(HeadStep::HeadComplete)));
    assert_eq!(plain.lines(), padded.lines());
}

#[test]
fn head_parses_from_line_texts() {
    let texts = vec!["A B C".to_string(), "Key: value\r\n".to_string()];
    match RequestHead::parse_texts(&texts) {
        ParsedHead::Parsed(head) => {
            assert_eq!(head.method(), "A");
            assert_eq!(head.path(), "B");
            assert_eq!(head.protocol(), "C");
            assert_eq!(head.fields()[0].name, "Key");
            assert_eq!(head.fields()[0].value, "value");
        }
        _ => panic!("head not parsed"),
    }
    let texts = vec!["A B".to_string()];
    assert!(matches!(RequestHead::parse_texts(&texts), ParsedHead::Rejected(_)));
}

#[test]
fn header_lines_parse_alone() {
    match parse_field_line(&"Host: example.org\r\n".to_string()) {
        FieldResult::Field(field) => {
            assert_eq!(field.name, "Host");
            assert_eq!(field.value, "example.org");
        }
        _ => panic!("field not read"),
    }
    assert!(matches!(parse_field_line(&"Host:x\r\n".to_string()), FieldResult::NoSeparator));
    assert!(matches!(parse_field_line(&"Host: \n".to_string()), FieldResult::CannotTrim));
}
