use vstd::prelude::*;
use vstd::string::StringExecFns;
use vstd::utf8::encode_utf8;

use crate::decimal::{decimal, push_decimal_usize, push_signed_decimal, signed_decimal};
use crate::http_constants::{
    code_text, HttpConstants, HTTP_BAD_REQUEST, HTTP_CLIENT_TIMEOUT, HTTP_NOT_FOUND,
};

verus! {

/// What went wrong with a request.
#[derive(Clone, Copy, Debug, Eq, Hash, Ord, PartialEq, PartialOrd, Structural)]
#[allow(deprecated)]
#[non_exhaustive]
pub enum HttpErrorType {
    BadRequestLine,
    IncompleteHttpRequest,
    IncompleteHttpBody,
    IncorrectContentLength,
    IncorrectHeaderFormat,
    EndpointNotFound,
    ClientTimeout,
}

/// An error answered to the client: its kind, the status code of the answer
/// and a message for its body.
#[derive(Debug)]
pub struct HttpError {
    error_type: HttpErrorType,
    code: i32,
    message: &'static str,
}

/// An error that may have been answered already.
#[derive(Debug)]
pub struct HttpErrorWrapper {
    possible_http_error: Option<HttpError>,
}

impl HttpErrorWrapper {
    /// The error carried by the wrapper.
    pub closed spec fn spec_http_error(self) -> Option<HttpError> {
        self.possible_http_error
    }

    /// Takes the error out of the wrapper.
    pub fn get_http_error(self) -> (res: Option<HttpError>)
        ensures
            res == self.spec_http_error(),
    {
        self.possible_http_error
    }
}

/// The status line text of an error: code and reason phrase, as in `"400 Bad Request"`.
pub open spec fn error_line(code: i32) -> Seq<char> {
    signed_decimal(code as int) + code_text(code)
}

/// The HTML body answered for an error.
pub open spec fn error_body(code: i32, message: Seq<char>) -> Seq<char> {
    "<h1>"@ + error_line(code) + "</h1>"@ + message
}

/// The status line and headers of the answer to an error: the body's length
/// in bytes, its type, and that the connection closes.
pub open spec fn error_response_head(code: i32, message: Seq<char>) -> Seq<char> {
    "HTTP/1.1 "@ + error_line(code) + "\r\n"@ + "Content-Length: "@ + decimal(
        encode_utf8(error_body(code, message)).len(),
    ) + "\r\n"@ + "Content-Type: text/html\r\n"@ + "Connection: close\r\n"@ + "\r\n"@
}

/// The whole answer to an error: its head, then its body.
pub open spec fn error_response_text(code: i32, message: Seq<char>) -> Seq<char> {
    error_response_head(code, message) + error_body(code, message)
}

/// The UTF-8 encoding of joined texts joins their encodings.
pub proof fn lemma_encode_utf8_concat(a: Seq<char>, b: Seq<char>)
    ensures
        encode_utf8(a + b) == encode_utf8(a) + encode_utf8(b),
    decreases a.len(),
{
    if a.len() > 0 {
        lemma_encode_utf8_concat(a.drop_first(), b);
        assert((a + b).drop_first() =~= a.drop_first() + b);
        assert((a + b)[0] == a[0]);
        assert(encode_utf8(a + b) =~= encode_utf8(a) + encode_utf8(b));
    } else {
        assert(a + b =~= b);
        assert(encode_utf8(a) + encode_utf8(b) =~= encode_utf8(b));
    }
}

/// The bytes answered for an error are its head, which announces a body
/// length of `n` bytes, followed by exactly `n` bytes of body.
pub proof fn lemma_error_response_length(code: i32, message: Seq<char>)
    ensures
        encode_utf8(error_response_text(code, message)) == encode_utf8(
            error_response_head(code, message),
        ) + encode_utf8(error_body(code, message)),
        error_response_head(code, message) == "HTTP/1.1 "@ + error_line(code) + "\r\n"@
            + "Content-Length: "@ + decimal(encode_utf8(error_body(code, message)).len())
            + "\r\n"@ + "Content-Type: text/html\r\n"@ + "Connection: close\r\n"@ + "\r\n"@,
{
    lemma_encode_utf8_concat(error_response_head(code, message), error_body(code, message));
}

/// Status code answered for an error of kind `kind`.
pub open spec fn kind_code(kind: HttpErrorType) -> i32 {
    match kind {
        HttpErrorType::EndpointNotFound => HTTP_NOT_FOUND,
        HttpErrorType::ClientTimeout => HTTP_CLIENT_TIMEOUT,
        _ => HTTP_BAD_REQUEST,
    }
}

/// Message of an error of kind `kind`.
pub open spec fn kind_message(kind: HttpErrorType) -> Seq<char> {
    match kind {
        HttpErrorType::BadRequestLine => "Bad Request Line"@,
        HttpErrorType::IncompleteHttpRequest => "Incomplete Request"@,
        HttpErrorType::IncompleteHttpBody => "Incomplete Body"@,
        HttpErrorType::IncorrectContentLength => "Incorrect Content Length"@,
        HttpErrorType::IncorrectHeaderFormat => "Incorrect Header Format"@,
        HttpErrorType::EndpointNotFound => "Endpoint Not Found"@,
        HttpErrorType::ClientTimeout => "Client Timeout"@,
    }
}

/// `e` is the error of kind `kind`, with that kind's code and message.
pub open spec fn is_error_of_kind(e: HttpError, kind: HttpErrorType) -> bool {
    &&& e.spec_error_type() == kind
    &&& e.spec_code() == kind_code(kind)
    &&& e.spec_message() == kind_message(kind)
}

impl HttpError {
    /// The kind of the error.
    pub closed spec fn spec_error_type(self) -> HttpErrorType {
        self.error_type
    }

    /// The status code answered for the error.
    pub closed spec fn spec_code(self) -> i32 {
        self.code
    }

    /// The message of the error.
    pub closed spec fn spec_message(self) -> Seq<char> {
        self.message@
    }

    fn new(error_type: HttpErrorType, code: i32, message: &'static str) -> (res: HttpError)
        ensures
            res.spec_error_type() == error_type,
            res.spec_code() == code,
            res.spec_message() == message@,
    {
        HttpError { error_type, code, message }
    }

    /// The kind of the error.
    pub fn error_type(&self) -> (res: HttpErrorType)
        ensures
            res == self.spec_error_type(),
    {
        self.error_type
    }

    /// The status code answered for the error.
    pub fn code(&self) -> (res: i32)
        ensures
            res == self.spec_code(),
    {
        self.code
    }

    /// The message of the error.
    pub fn message(&self) -> (res: &'static str)
        ensures
            res@ == self.spec_message(),
    {
        self.message
    }

    /// Wraps the error.
    pub fn to_wrapped(self) -> (res: HttpErrorWrapper)
        ensures
            res.spec_http_error() == Some(self),
    {
        HttpErrorWrapper { possible_http_error: Option::Some(self) }
    }

    /// The bytes answered to the client for this error.
    pub fn response_bytes(&self) -> (res: Vec<u8>)
        ensures
            res@ == encode_utf8(error_response_text(self.spec_code(), self.spec_message())),
    {
        let mut line = String::new();
        push_signed_decimal(&mut line, self.code);
        line.append(HttpConstants::get_code_text(self.code));
        let mut error_msg = String::from_str("<h1>");
        error_msg.append(line.as_str());
        error_msg.append("</h1>");
        error_msg.append(self.message);

        let mut text = String::from_str("HTTP/1.1 ");
        text.append(line.as_str());
        text.append("\r\n");
        text.append("Content-Length: ");
        let body_length = error_msg.as_str().as_bytes().len();
        push_decimal_usize(&mut text, body_length);
        text.append("\r\n");
        text.append("Content-Type: text/html\r\n");
        text.append("Connection: close\r\n");
        text.append("\r\n");
        text.append(error_msg.as_str());
        vstd::slice::slice_to_vec(text.as_str().as_bytes())
    }
}

/// The start line named no method, path and protocol.
pub fn bad_request_line() -> (res: HttpError)
    ensures
        is_error_of_kind(res, HttpErrorType::BadRequestLine),
{
    HttpError::new(HttpErrorType::BadRequestLine, HTTP_BAD_REQUEST, "Bad Request Line")
}

/// Reading the request failed.
pub fn incomplete_request() -> (res: HttpError)
    ensures
        is_error_of_kind(res, HttpErrorType::IncompleteHttpRequest),
{
    HttpError::new(HttpErrorType::IncompleteHttpRequest, HTTP_BAD_REQUEST, "Incomplete Request")
}

/// The body was shorter than its announced length.
pub fn incomplete_body() -> (res: HttpError)
    ensures
        is_error_of_kind(res, HttpErrorType::IncompleteHttpBody),
{
    HttpError::new(HttpErrorType::IncompleteHttpBody, HTTP_BAD_REQUEST, "Incomplete Body")
}

/// The `Content-Length` header held no length.
pub fn incorrect_content_length() -> (res: HttpError)
    ensures
        is_error_of_kind(res, HttpErrorType::IncorrectContentLength),
{
    HttpError::new(
        HttpErrorType::IncorrectContentLength,
        HTTP_BAD_REQUEST,
        "Incorrect Content Length",
    )
}

/// A header line held no `": "`.
pub fn incorrect_header_format() -> (res: HttpError)
    ensures
        is_error_of_kind(res, HttpErrorType::IncorrectHeaderFormat),
{
    HttpError::new(
        HttpErrorType::IncorrectHeaderFormat,
        HTTP_BAD_REQUEST,
        "Incorrect Header Format",
    )
}

/// No endpoint answers the requested path.
pub fn endpoint_not_found() -> (res: HttpError)
    ensures
        is_error_of_kind(res, HttpErrorType::EndpointNotFound),
{
    HttpError::new(HttpErrorType::EndpointNotFound, HTTP_NOT_FOUND, "Endpoint Not Found")
}

/// The client sent nothing more before the request was complete.
pub fn client_timeout() -> (res: HttpError)
    ensures
        is_error_of_kind(res, HttpErrorType::ClientTimeout),
{
    HttpError::new(HttpErrorType::ClientTimeout, HTTP_CLIENT_TIMEOUT, "Client Timeout")
}

} // verus!
