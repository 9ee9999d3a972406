//! A small HTTP/1.1 server library with verified parsing and formatting.
//!
//! The request head is read byte by byte by a state machine
//! (`request`), parsed into method, path, protocol and header fields
//! (`head`), and answered with responses whose heads (`response`, `headers`)
//! and error pages (`http_error`) are built by verified code. Dates are
//! formatted from a count of seconds since 1970 against a model of the
//! Gregorian calendar (`calendar`, `http_constants`). Endpoints are chosen by
//! path (`routing`). Sockets, threads and the handlers themselves live in the
//! program around the library.

use vstd::prelude::*;

pub mod calendar;
pub mod decimal;
pub mod executor;
pub mod head;
pub mod headers;
pub mod http_constants;
pub mod http_error;
pub mod request;
pub mod response;
pub mod routing;
pub mod text;

verus! {
} // verus!
