# lib — a verified HTTP/1.1 server core

`src/` is verified with Verus:

- `calendar.rs` — the Gregorian calendar from 1 January 1970: month and year
  lengths, the date of a day count, and proofs that every day count has
  exactly one date.
- `http_constants.rs` — HTTP date lines (`"Thu, 01 Jan 2015 00:00:00 UTC"`),
  status codes and their reason phrases.
- `decimal.rs` — writing and reading decimal numbers.
- `text.rs` — white space, words, the `": "` separator and the order of texts.
- `request.rs` — the state machine that collects the lines of a request head.
- `head.rs` — parsing a head into method, path, protocol and fields, the
  announced body length, and the request itself.
- `headers.rs` — header fields kept sorted by name.
- `response.rs` — the head of a response, sent at most once.
- `http_error.rs` — the errors answered to clients and their pages.
- `routing.rs` — choosing the endpoint for a path.
- `executor.rs` — the trait of what runs connection jobs.

`app/` is the program around it: sockets, the thread pool and the server loop.
`tests/` runs the library on concrete inputs.

Header fields and endpoints are kept in `Vec`s with invariants (names sorted
and unique; paths unique) rather than in `BTreeMap<String, _>`. vstd gives
`BTreeMap` a specification, but with `String` keys it is known to prove little
(not even the length after one insertion), so that form was not attempted
here. The sorted `Vec` of `headers.rs` states the key order as its type
invariant, which the response head's field order needs, and proves insertion,
removal and lookup against a map view.
