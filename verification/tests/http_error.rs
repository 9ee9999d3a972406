use lib::http_constants::{HTTP_BAD_REQUEST, HTTP_CLIENT_TIMEOUT, HTTP_NOT_FOUND};
use lib::http_error::{
    bad_request_line, client_timeout, endpoint_not_found, incomplete_body, incomplete_request,
    incorrect_content_length, incorrect_header_format, HttpErrorType,
};

#[test]
fn errors_carry_kind_code_and_message() {
    let cases = vec![
        (bad_request_line(), HttpErrorType::BadRequestLine, HTTP_BAD_REQUEST, "Bad Request Line"),
        (incomplete_request(), HttpErrorType::IncompleteHttpRequest, HTTP_BAD_REQUEST, "Incomplete Request"),
        (incomplete_body(), HttpErrorType::IncompleteHttpBody, HTTP_BAD_REQUEST, "Incomplete Body"),
        (incorrect_content_length(), HttpErrorType::IncorrectContentLength, HTTP_BAD_REQUEST, "Incorrect Content Length"),
        (incorrect_header_format(), HttpErrorType::IncorrectHeaderFormat, HTTP_BAD_REQUEST, "Incorrect Header Format"),
        (endpoint_not_found(), HttpErrorType::EndpointNotFound, HTTP_NOT_FOUND, "Endpoint Not Found"),
        (client_timeout(), HttpErrorType::ClientTimeout, HTTP_CLIENT_TIMEOUT, "Client Timeout"),
    ];
    for (error, kind, code, message) in cases {
        assert_eq!(error.error_type(), kind);
        assert_eq!(error.code(), code);
        assert_eq!(error.message(), message);
    }
}

#[test]
fn wrapping_gives_the_error_back() {
    let wrapper = incorrect_header_format().to_wrapped();
    let error = wrapper.get_http_error().unwrap();
    assert_eq!(error.error_type(), HttpErrorType::IncorrectHeaderFormat);
    assert_eq!(error.code(), HTTP_BAD_REQUEST);
}

#[test]
fn bad_request_line_response() {
    let bytes = bad_request_line().response_bytes();
    assert_eq!(
        String::from_utf8(bytes).unwrap(),
        "HTTP/1.1 400 Bad Request\r\nContent-Length: 40\r\nContent-Type: text/html\r\nConnection: close\r\n\r\n<h1>400 Bad Request</h1>Bad Request Line"
    );
}

#[test]
fn not_found_response() {
    let bytes = endpoint_not_found().response_bytes();
    assert_eq!(
        String::from_utf8(bytes).unwrap(),
        "HTTP/1.1 404 Not Found\r\nContent-Length: 40\r\nContent-Type: text/html\r\nConnection: close\r\n\r\n<h1>404 Not Found</h1>Endpoint Not Found"
    );
}

#[test]
fn error_response_announces_its_body_length() {
    for error in [client_timeout(), incomplete_body(), incorrect_content_length()] {
        let text = String::from_utf8(error.response_bytes()).unwrap();
        let (head, body) = text.split_once("\r\n\r\n").unwrap();
        let announced = head
            .lines()
            .find_map(|line| line.strip_prefix("Content-Length: "))
            .unwrap();
        assert_eq!(announced.parse::<usize>().unwrap(), body.len());
    }
}

#[test]
fn client_timeout_response() {
    let text = String::from_utf8(client_timeout().response_bytes()).unwrap();
    assert!(text.starts_with("HTTP/1.1 408 Request Time-Out\r\n"));
    assert!(text.ends_with("<h1>408 Request Time-Out</h1>Client Timeout"));
}
