use vstd::prelude::*;
use vstd::string::StringExecFns;
use vstd::utf8::encode_utf8;

use crate::decimal::{
    decimal, lemma_parse_decimal, parse_usize, push_decimal_usize, push_signed_decimal,
    signed_decimal,
};
use crate::head::HeaderField;
use crate::headers::{sorted_names, HeaderMap};
use crate::http_constants::{code_text, http_date, HttpConstants, FIRST_FORMATTED_SECOND};

verus! {

/// One `"name: value\r\n"` line per entry, in order.
pub open spec fn header_lines(entries: Seq<(Seq<char>, Seq<char>)>) -> Seq<char>
    decreases entries.len(),
{
    if entries.len() == 0 {
        seq![]
    } else {
        header_lines(entries.drop_last()) + entries.last().0 + ": "@ + entries.last().1 + "\r\n"@
    }
}

/// The status line and header lines of a response, ended by a blank line.
pub open spec fn response_head_text(code: i32, entries: Seq<(Seq<char>, Seq<char>)>) -> Seq<
    char,
> {
    "HTTP/1.1 "@ + signed_decimal(code as int) + code_text(code) + "\r\n"@ + header_lines(entries)
        + "\r\n"@
}

/// The headers of a response with the body length and date filled in.
pub open spec fn final_headers(
    headers: Map<Seq<char>, Seq<char>>,
    body_length: nat,
    date: Seq<char>,
) -> Map<Seq<char>, Seq<char>> {
    headers.insert("Content-Length"@, decimal(body_length)).insert("Date"@, date)
}

/// The `Content-Length` field filled in for a body of `body_length` bytes
/// reads back, as `usize::from_str_radix` reads it, as `body_length`.
pub proof fn lemma_announced_length_reads_back(
    headers: Map<Seq<char>, Seq<char>>,
    body_length: nat,
    date: Seq<char>,
)
    requires
        body_length <= usize::MAX,
    ensures
        final_headers(headers, body_length, date).contains_key("Content-Length"@),
        parse_usize(final_headers(headers, body_length, date)["Content-Length"@]) == Some(
            body_length,
        ),
{
    reveal_strlit("Content-Length");
    reveal_strlit("Date");
    assert("Content-Length"@.len() != "Date"@.len());
    lemma_parse_decimal(body_length);
}

/// What writing the head of a response asks for.
pub enum HeadWrite {
    /// The head was sent already: write nothing.
    AlreadySent,
    /// Write these bytes.
    Head(Vec<u8>),
    /// The system clock reads before 31 January 1970: no date can be given.
    ClockUnusable,
}

/// The head of a response being answered: its header fields, and whether it
/// was sent.
pub struct ResponseHead {
    headers: HeaderMap,
    sent_headers: bool,
}

impl ResponseHead {
    /// The header fields.
    pub closed spec fn spec_headers(&self) -> HeaderMap {
        self.headers
    }

    /// Whether the head was sent.
    pub closed spec fn spec_sent(&self) -> bool {
        self.sent_headers
    }

    /// A head with no header fields, not sent.
    pub fn new() -> (res: ResponseHead)
        ensures
            res.spec_headers().spec_map() == Map::<Seq<char>, Seq<char>>::empty(),
            !res.spec_sent(),
    {
        ResponseHead { headers: HeaderMap::new(), sent_headers: false }
    }

    /// Whether the head was sent.
    pub fn sent_headers(&self) -> (res: bool)
        ensures
            res == self.spec_sent(),
    {
        self.sent_headers
    }

    /// The header fields of the response.
    pub fn headers(&self) -> (res: &HeaderMap)
        ensures
            *res == self.spec_headers(),
    {
        &self.headers
    }

    /// The header fields of the response, to change.
    pub fn get_response_headers(&mut self) -> (res: &mut HeaderMap)
        ensures
            *res == old(self).spec_headers(),
            final(self).spec_headers() == *final(res),
            final(self).spec_sent() == old(self).spec_sent(),
    {
        &mut self.headers
    }

    /// Adds the header fields that let pages of any origin use the response.
    pub fn add_cross_origin_resource_sharing_headers(&mut self)
        ensures
            final(self).spec_headers().spec_map() == old(self).spec_headers().spec_map().insert(
                "Access-Control-Allow-Origin"@,
                "*"@,
            ).insert(
                "Access-Control-Allow-Headers"@,
                "Origin, X-Requested-With, Content-Type, Accept, Authorization"@,
            ).insert("Access-Control-Allow-Methods"@, "GET, OPTIONS, HEAD, PUT, POST"@).insert(
                "Access-Control-Allow-Credentials"@,
                "true"@,
            ),
            final(self).spec_sent() == old(self).spec_sent(),
    {
        let response = &mut self.headers;
        response.insert(
            String::from_str("Access-Control-Allow-Origin"),
            String::from_str("*"),
        );
        response.insert(
            String::from_str("Access-Control-Allow-Headers"),
            String::from_str("Origin, X-Requested-With, Content-Type, Accept, Authorization"),
        );
        response.insert(
            String::from_str("Access-Control-Allow-Methods"),
            String::from_str("GET, OPTIONS, HEAD, PUT, POST"),
        );
        response.insert(
            String::from_str("Access-Control-Allow-Credentials"),
            String::from_str("true"),
        );
    }

    /// The bytes of the head: status line, the header fields in ascending order
    /// of names, and a blank line.
    pub fn render(&self, response_code: i32) -> (res: Vec<u8>)
        ensures
            res@ == encode_utf8(
                response_head_text(response_code, self.spec_headers().spec_entries()),
            ),
            sorted_names(self.spec_headers().spec_entries()),
    {
        let mut text = String::from_str("HTTP/1.1 ");
        push_signed_decimal(&mut text, response_code);
        text.append(HttpConstants::get_code_text(response_code));
        text.append("\r\n");
        let entries = self.headers.entries();
        let ghost e = self.spec_headers().spec_entries();
        let ghost start = text@;
        let mut i: usize = 0;
        assert(e.take(0) =~= Seq::<(Seq<char>, Seq<char>)>::empty());
        assert(start + header_lines(e.take(0)) =~= start);
        while i < entries.len()
            invariant
                i <= entries.len(),
                crate::head::field_pairs(entries@) == e,
                text@ == start + header_lines(e.take(i as int)),
            decreases entries.len() - i,
        {
            let field: &HeaderField = &entries[i];
            text.append(field.name.as_str());
            text.append(": ");
            text.append(field.value.as_str());
            text.append("\r\n");
            assert(e.take(i + 1).drop_last() =~= e.take(i as int));
            assert(e.take(i + 1).last() == (field.name@, field.value@));
            i += 1;
        }
        assert(e.take(i as int) =~= e);
        text.append("\r\n");
        vstd::slice::slice_to_vec(text.as_str().as_bytes())
    }

    /// Fills in the body length and the given date and gives the bytes of the
    /// head, once: after the head was sent, nothing.
    pub fn prepare_head_at(&mut self, response_code: i32, body_length: usize, date: String) -> (res:
        Option<Vec<u8>>)
        ensures
            old(self).spec_sent() ==> res is None && *final(self) == *old(self),
            !old(self).spec_sent() ==> {
                &&& final(self).spec_sent()
                &&& final(self).spec_headers().spec_map() == final_headers(
                    old(self).spec_headers().spec_map(),
                    body_length as nat,
                    date@,
                )
                &&& res matches Some(bytes) && bytes@ == encode_utf8(
                    response_head_text(response_code, final(self).spec_headers().spec_entries()),
                )
                &&& sorted_names(final(self).spec_headers().spec_entries())
            },
    {
        if self.sent_headers {
            return None;
        }
        let mut length_text = String::new();
        push_decimal_usize(&mut length_text, body_length);
        proof {
            reveal_strlit("Content-Length");
            reveal_strlit("Date");
        }
        self.headers.insert(String::from_str("Content-Length"), length_text);
        self.headers.insert(String::from_str("Date"), date);
        let bytes = self.render(response_code);
        self.sent_headers = true;
        Some(bytes)
    }

    /// Fills in the body length and the current date, read from the system
    /// clock, and gives the bytes of the head, once: after the head was sent,
    /// nothing; where the clock reads before 31 January 1970, nothing changes.
    pub fn prepare_head(&mut self, response_code: i32, body_length: usize) -> (res: HeadWrite)
        ensures
            old(self).spec_sent() ==> res is AlreadySent && *final(self) == *old(self),
            !old(self).spec_sent() ==> match res {
                HeadWrite::Head(bytes) => exists|t: nat|
                    {
                        &&& t >= FIRST_FORMATTED_SECOND
                        &&& final(self).spec_sent()
                        &&& final(self).spec_headers().spec_map() == final_headers(
                            old(self).spec_headers().spec_map(),
                            body_length as nat,
                            #[trigger] http_date(t),
                        )
                        &&& bytes@ == encode_utf8(
                            response_head_text(
                                response_code,
                                final(self).spec_headers().spec_entries(),
                            ),
                        )
                    },
                HeadWrite::ClockUnusable => *final(self) == *old(self),
                HeadWrite::AlreadySent => false,
            },
    {
        if self.sent_headers {
            return HeadWrite::AlreadySent;
        }
        match HttpConstants::get_current_formatted_date() {
            Some(date) => match self.prepare_head_at(response_code, body_length, date) {
                Some(bytes) => HeadWrite::Head(bytes),
                None => HeadWrite::AlreadySent,
            },
            None => HeadWrite::ClockUnusable,
        }
    }
}

} // verus!
