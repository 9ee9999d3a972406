use vstd::prelude::*;
use vstd::string::{StrSliceExecFns, StringExecFns};
use vstd::utf8::{decode_utf8, encode_utf8, is_char_boundary, valid_utf8};

use crate::decimal::{
    decimal, lemma_decimal_digits, lemma_parse_decimal, parse_usize, parse_usize_decimal,
    unsigned_digits,
};
use crate::http_error::{
    bad_request_line, incomplete_body, incorrect_content_length, incorrect_header_format,
    is_error_of_kind, HttpError, HttpErrorType,
};
use crate::request::byte_lines;
use crate::text::{chars_of, find_separator, next_word, separator_from, words_from};

verus! {

/// The text that `String::from_utf8_lossy` makes of `bytes`.
pub uninterp spec fn utf8_lossy(bytes: Seq<u8>) -> Seq<char>;

/// Calls `String::from_utf8_lossy`. Claimed: the result is `utf8_lossy` of the
/// bytes, and for valid UTF-8 it is the text that the bytes encode (the
/// function replaces only invalid sequences). What replaces an invalid sequence
/// is left unsaid.
#[verifier::external_body]
fn decode_lossy(bytes: &[u8]) -> (text: String)
    ensures
        text@ == utf8_lossy(bytes@),
        valid_utf8(bytes@) ==> text@ == decode_utf8(bytes@),
{
    String::from_utf8_lossy(bytes).into_owned()
}

/// What one header line says.
pub enum FieldLine {
    /// The name before the first `": "`, and the value after it without its
    /// last two bytes (the line end).
    Field(Seq<char>, Seq<char>),
    /// The line holds no `": "`.
    NoSeparator,
    /// The value after `": "` is shorter than two bytes, or its last two bytes
    /// do not end on a character boundary: the line end cannot be cut off.
    CannotTrim,
}

/// What the header line `text` says.
pub open spec fn header_field(text: Seq<char>) -> FieldLine {
    match separator_from(text, 0) {
        None => FieldLine::NoSeparator,
        Some(k) => {
            let rest = encode_utf8(text.subrange(k + 2, text.len() as int));
            if rest.len() >= 2 && is_char_boundary(rest, rest.len() - 2) {
                FieldLine::Field(
                    text.subrange(0, k),
                    decode_utf8(rest.subrange(0, rest.len() - 2)),
                )
            } else {
                FieldLine::CannotTrim
            }
        },
    }
}

/// What a run of header lines says: the fields in order, or the first line
/// that cannot be read.
pub enum FieldLines {
    Fields(Seq<(Seq<char>, Seq<char>)>),
    NoSeparator,
    CannotTrim,
}

/// What the header lines `texts` say, read in order.
pub open spec fn header_fields(texts: Seq<Seq<char>>) -> FieldLines
    decreases texts.len(),
{
    if texts.len() == 0 {
        FieldLines::Fields(seq![])
    } else {
        match header_fields(texts.drop_last()) {
            FieldLines::Fields(fields) => match header_field(texts.last()) {
                FieldLine::Field(name, value) => FieldLines::Fields(fields.push((name, value))),
                FieldLine::NoSeparator => FieldLines::NoSeparator,
                FieldLine::CannotTrim => FieldLines::CannotTrim,
            },
            other => other,
        }
    }
}

/// The parts of a request head.
pub struct HeadView {
    pub method: Seq<char>,
    pub path: Seq<char>,
    pub protocol: Seq<char>,
    pub fields: Seq<(Seq<char>, Seq<char>)>,
}

/// What a request head turns out to be.
pub enum HeadOutcome {
    /// A head with its parts.
    Parsed(HeadView),
    /// A head refused with an error of this kind.
    Rejected(HttpErrorType),
    /// A header value whose line end cannot be cut off.
    Unparsable,
}

/// The text of each line.
pub open spec fn line_texts(lines: Seq<Seq<u8>>) -> Seq<Seq<char>> {
    lines.map_values(|line: Seq<u8>| utf8_lossy(line))
}

/// The text of each string.
pub open spec fn string_texts(texts: Seq<String>) -> Seq<Seq<char>> {
    texts.map_values(|text: String| text@)
}

/// What the head made of `lines` is: what the head with the text of each line
/// is.
pub open spec fn head_outcome(lines: Seq<Seq<u8>>) -> HeadOutcome {
    texts_outcome(line_texts(lines))
}

/// What the head with the line texts `texts` is: the first three words of the
/// first line are method, path and protocol (fewer words: a bad request line);
/// each following line is a header field.
pub open spec fn texts_outcome(texts: Seq<Seq<char>>) -> HeadOutcome {
    let words = words_from(texts[0], 0);
    if words.len() < 3 {
        HeadOutcome::Rejected(HttpErrorType::BadRequestLine)
    } else {
        match header_fields(texts.subrange(1, texts.len() as int)) {
            FieldLines::Fields(fields) => HeadOutcome::Parsed(
                HeadView { method: words[0], path: words[1], protocol: words[2], fields },
            ),
            FieldLines::NoSeparator => HeadOutcome::Rejected(HttpErrorType::IncorrectHeaderFormat),
            FieldLines::CannotTrim => HeadOutcome::Unparsable,
        }
    }
}

/// A header field: a name and its value.
pub struct HeaderField {
    pub name: String,
    pub value: String,
}

/// Names and values of header fields.
pub open spec fn field_pairs(fields: Seq<HeaderField>) -> Seq<(Seq<char>, Seq<char>)> {
    fields.map_values(|f: HeaderField| (f.name@, f.value@))
}

/// The head of a request: method, path, protocol and header fields in the
/// order of their lines.
pub struct RequestHead {
    method: String,
    path: String,
    protocol: String,
    fields: Vec<HeaderField>,
}

impl View for RequestHead {
    type V = HeadView;

    closed spec fn view(&self) -> HeadView {
        HeadView {
            method: self.method@,
            path: self.path@,
            protocol: self.protocol@,
            fields: field_pairs(self.fields@),
        }
    }
}

/// The outcome of parsing a request head.
pub enum ParsedHead {
    Parsed(RequestHead),
    Rejected(HttpError),
    /// A header value whose line end cannot be cut off; such a head cannot be
    /// read.
    Unparsable,
}

/// The outcome of parsing one header line.
pub enum FieldResult {
    /// The field that the line holds.
    Field(HeaderField),
    /// The line holds no `": "`.
    NoSeparator,
    /// The line end cannot be cut off the value.
    CannotTrim,
}

/// Reads one header line, as `header_field` says: the name before the first
/// `": "`, and the value after it without its last two bytes.
pub fn parse_field_line(text: &String) -> (res: FieldResult)
    ensures
        match header_field(text@) {
            FieldLine::Field(name, value) => res matches FieldResult::Field(f) && f.name@ == name
                && f.value@ == value,
            FieldLine::NoSeparator => res is NoSeparator,
            FieldLine::CannotTrim => res is CannotTrim,
        },
{
    let line = text.as_str();
    let chars = chars_of(line);
    match find_separator(&chars) {
        None => FieldResult::NoSeparator,
        Some(k) => {
            proof {
                crate::text::lemma_separator_from(chars@, 0);
            }
            let name = line.substring_char(0, k).to_owned();
            let rest = line.substring_char(k + 2, chars.len());
            let rest_len = rest.as_bytes().len();
            if rest_len < 2 || !rest.is_char_boundary(rest_len - 2) {
                FieldResult::CannotTrim
            } else {
                let (value, _) = rest.split_at(rest_len - 2);
                proof {
                    vstd::utf8::encode_utf8_decode_utf8(value@);
                }
                FieldResult::Field(HeaderField { name, value: value.to_owned() })
            }
        },
    }
}

impl RequestHead {
    /// Reads the head of a request from its lines (at least the start line), as
    /// `head_outcome` says: each line is decoded as `String::from_utf8_lossy`
    /// decodes it, and the texts are parsed by `parse_texts`.
    pub fn parse(lines: &Vec<Vec<u8>>) -> (res: ParsedHead)
        requires
            lines.len() >= 1,
        ensures
            match head_outcome(byte_lines(lines@)) {
                HeadOutcome::Parsed(v) => res matches ParsedHead::Parsed(h) && h@ == v,
                HeadOutcome::Rejected(kind) => res matches ParsedHead::Rejected(e)
                    && is_error_of_kind(e, kind),
                HeadOutcome::Unparsable => res is Unparsable,
            },
    {
        let ghost wanted = line_texts(byte_lines(lines@));
        let mut texts: Vec<String> = Vec::new();
        let mut i: usize = 0;
        while i < lines.len()
            invariant
                i <= lines.len(),
                texts@.len() == i,
                wanted == line_texts(byte_lines(lines@)),
                forall|k: int| 0 <= k < i ==> #[trigger] texts@[k]@ == wanted[k],
            decreases lines.len() - i,
        {
            let text = decode_lossy(lines[i].as_slice());
            texts.push(text);
            i += 1;
        }
        assert(string_texts(texts@) =~= wanted);
        Self::parse_texts(&texts)
    }

    /// Reads the head of a request from the texts of its lines (at least the
    /// start line), as `texts_outcome` says.
    pub fn parse_texts(texts: &Vec<String>) -> (res: ParsedHead)
        requires
            texts.len() >= 1,
        ensures
            match texts_outcome(string_texts(texts@)) {
                HeadOutcome::Parsed(v) => res matches ParsedHead::Parsed(h) && h@ == v,
                HeadOutcome::Rejected(kind) => res matches ParsedHead::Rejected(e)
                    && is_error_of_kind(e, kind),
                HeadOutcome::Unparsable => res is Unparsable,
            },
    {
        let ghost tv = string_texts(texts@);
        let first = &texts[0];
        let chars = chars_of(first.as_str());
        assert(chars@ == tv[0]);
        let (a0, b0) = match next_word(&chars, 0) {
            Some(w) => w,
            None => {
                return ParsedHead::Rejected(bad_request_line());
            },
        };
        let (a1, b1) = match next_word(&chars, b0) {
            Some(w) => w,
            None => {
                return ParsedHead::Rejected(bad_request_line());
            },
        };
        let (a2, b2) = match next_word(&chars, b1) {
            Some(w) => w,
            None => {
                return ParsedHead::Rejected(bad_request_line());
            },
        };
        let line = first.as_str();
        let method = line.substring_char(a0, b0).to_owned();
        let path = line.substring_char(a1, b1).to_owned();
        let protocol = line.substring_char(a2, b2).to_owned();

        let mut fields: Vec<HeaderField> = Vec::new();
        let len = texts.len();
        let mut i: usize = 1;
        assert(tv.subrange(1, 1) =~= Seq::<Seq<char>>::empty());
        assert(field_pairs(fields@) =~= Seq::<(Seq<char>, Seq<char>)>::empty());
        while i < len
            invariant
                1 <= i <= len,
                len == texts.len(),
                tv == string_texts(texts@),
                words_from(tv[0], 0).len() >= 3,
                header_fields(tv.subrange(1, i as int)) == FieldLines::Fields(
                    field_pairs(fields@),
                ),
            decreases len - i,
        {
            let text = &texts[i];
            assert(text@ == tv[i as int]);
            assert(tv.subrange(1, i + 1).drop_last() =~= tv.subrange(1, i as int));
            match parse_field_line(text) {
                FieldResult::Field(field) => {
                    let ghost before = fields@;
                    assert(tv.subrange(1, i + 1).last() == tv[i as int]);
                    fields.push(field);
                    assert(field_pairs(fields@) =~= field_pairs(before).push(
                        (field.name@, field.value@),
                    ));
                },
                FieldResult::NoSeparator => {
                    proof {
                        assert(tv.subrange(1, len as int).take(i as int) =~= tv.subrange(1, i + 1));
                        lemma_fields_stay_failed(tv.subrange(1, i + 1), tv.subrange(1, len as int));
                    }
                    return ParsedHead::Rejected(incorrect_header_format());
                },
                FieldResult::CannotTrim => {
                    proof {
                        assert(tv.subrange(1, len as int).take(i as int) =~= tv.subrange(1, i + 1));
                        lemma_fields_stay_failed(tv.subrange(1, i + 1), tv.subrange(1, len as int));
                    }
                    return ParsedHead::Unparsable;
                },
            }
            i += 1;
        }
        assert(tv.subrange(1, len as int) == tv.subrange(1, i as int));
        ParsedHead::Parsed(RequestHead { method, path, protocol, fields })
    }
}

/// The value of the last field named `name`, as a map filled with the fields
/// in order holds it.
pub open spec fn last_value(fields: Seq<(Seq<char>, Seq<char>)>, name: Seq<char>) -> Option<
    Seq<char>,
>
    decreases fields.len(),
{
    if fields.len() == 0 {
        None
    } else if fields.last().0 == name {
        Some(fields.last().1)
    } else {
        last_value(fields.drop_last(), name)
    }
}

/// The length that a `Content-Length` value announces: `Ok(None)` without such
/// a field, `Ok(Some(n))` for a value that reads as a `usize`, and the error of
/// an incorrect content length otherwise.
pub open spec fn announced_length(head: HeadView) -> Option<Option<nat>> {
    match last_value(head.fields, "Content-Length"@) {
        None => Some(None),
        Some(v) => match parse_usize(v) {
            Some(n) => Some(Some(n)),
            None => None,
        },
    }
}

impl RequestHead {
    /// The request method, such as `GET`.
    pub fn method(&self) -> (res: &String)
        ensures
            res@ == self@.method,
    {
        &self.method
    }

    /// The requested path.
    pub fn path(&self) -> (res: &String)
        ensures
            res@ == self@.path,
    {
        &self.path
    }

    /// The protocol named in the start line, such as `HTTP/1.1`.
    pub fn protocol(&self) -> (res: &String)
        ensures
            res@ == self@.protocol,
    {
        &self.protocol
    }

    /// The header fields, in the order of their lines.
    pub fn fields(&self) -> (res: &Vec<HeaderField>)
        ensures
            field_pairs(res@) == self@.fields,
    {
        &self.fields
    }

    /// The value of the last field named `name`.
    pub fn header_value(&self, name: &str) -> (res: Option<&String>)
        ensures
            match last_value(self@.fields, name@) {
                Some(v) => res matches Some(r) && r@ == v,
                None => res is None,
            },
    {
        let wanted = String::from_str(name);
        let mut i = self.fields.len();
        assert(field_pairs(self.fields@).take(i as int) =~= self@.fields);
        while i > 0
            invariant
                i <= self.fields.len(),
                wanted@ == name@,
                last_value(self@.fields, name@) == last_value(
                    field_pairs(self.fields@).take(i as int),
                    name@,
                ),
            decreases i,
        {
            let field = &self.fields[i - 1];
            assert(field_pairs(self.fields@).take(i as int).drop_last() =~= field_pairs(
                self.fields@,
            ).take(i - 1));
            if field.name == wanted {
                return Some(&field.value);
            }
            i -= 1;
        }
        None
    }

    /// The body length that the `Content-Length` field announces: `Ok(None)`
    /// without that field, the error of an incorrect content length where its
    /// value is no `usize` (as `usize::from_str_radix` reads it).
    pub fn content_length(&self) -> (res: Result<Option<usize>, HttpError>)
        ensures
            match announced_length(self@) {
                Some(None) => res == Ok::<Option<usize>, HttpError>(None),
                Some(Some(n)) => res == Ok::<Option<usize>, HttpError>(Some(n as usize)),
                None => res matches Err(e) && is_error_of_kind(
                    e,
                    HttpErrorType::IncorrectContentLength,
                ),
            },
    {
        proof {
            reveal_strlit("Content-Length");
        }
        match self.header_value("Content-Length") {
            None => Ok(None),
            Some(value) => {
                let chars = chars_of(value.as_str());
                match parse_usize_decimal(&chars) {
                    Some(n) => Ok(Some(n)),
                    None => Err(incorrect_content_length()),
                }
            },
        }
    }
}

/// Checks the read of a body of `expected` bytes into `buffer`: the body when
/// the read gave exactly `expected` bytes, the error of an incomplete body
/// when it failed (`None`) or gave another count.
pub fn accept_body(expected: usize, buffer: Vec<u8>, read: Option<usize>) -> (res: Result<
    Vec<u8>,
    HttpError,
>)
    ensures
        read == Some(expected) ==> (res matches Ok(body) && body@ == buffer@),
        read != Some(expected) ==> (res matches Err(e) && is_error_of_kind(
            e,
            HttpErrorType::IncompleteHttpBody,
        )),
{
    match read {
        Some(count) => if count == expected {
            Ok(buffer)
        } else {
            Err(incomplete_body())
        },
        None => Err(incomplete_body()),
    }
}

/// A request that was read: its head and its body.
pub struct HttpRequest {
    head: RequestHead,
    body: Vec<u8>,
}

impl HttpRequest {
    /// The head of the request.
    pub closed spec fn spec_head(&self) -> HeadView {
        self.head@
    }

    /// The body of the request.
    pub closed spec fn spec_body(&self) -> Seq<u8> {
        self.body@
    }

    /// The request with this head and body.
    pub fn new(head: RequestHead, body: Vec<u8>) -> (res: HttpRequest)
        ensures
            res.spec_head() == head@,
            res.spec_body() == body@,
    {
        HttpRequest { head, body }
    }

    /// The head of the request.
    pub fn head(&self) -> (res: &RequestHead)
        ensures
            res@ == self.spec_head(),
    {
        &self.head
    }

    /// The request method, such as `GET`.
    pub fn get_request_method(&self) -> (res: String)
        ensures
            res@ == self.spec_head().method,
    {
        self.head.method.clone()
    }

    /// The requested path.
    pub fn get_request_path(&self) -> (res: String)
        ensures
            res@ == self.spec_head().path,
    {
        self.head.path.clone()
    }

    /// The protocol named in the start line.
    pub fn get_request_protocol(&self) -> (res: String)
        ensures
            res@ == self.spec_head().protocol,
    {
        self.head.protocol.clone()
    }

    /// The body of the request.
    pub fn get_request_body(&self) -> (res: Vec<u8>)
        ensures
            res@ == self.spec_body(),
    {
        self.body.clone()
    }
}

/// `text` holds `": "` at position `k`.
pub open spec fn separator_at(text: Seq<char>, k: int) -> bool {
    0 <= k && k + 1 < text.len() && text[k] == ':' && text[k + 1] == ' '
}

/// The separator search from `j` finds the first `": "` at or after `j`, and
/// finds none exactly when there is none.
proof fn lemma_separator_first(text: Seq<char>, j: int)
    requires
        0 <= j,
    ensures
        separator_from(text, j) is None <==> forall|k: int| j <= k ==> !#[trigger] separator_at(text, k),
        separator_from(text, j) matches Some(k) ==> {
            &&& j <= k
            &&& separator_at(text, k)
            &&& forall|m: int| j <= m < k ==> !#[trigger] separator_at(text, m)
        },
    decreases text.len() - j,
{
    if j + 1 < text.len() && !(text[j] == ':' && text[j + 1] == ' ') {
        lemma_separator_first(text, j + 1);
        assert(!separator_at(text, j));
        if separator_from(text, j + 1) is None {
            assert forall|k: int| j <= k implies !#[trigger] separator_at(text, k) by {
                if k > j {
                    assert(j + 1 <= k);
                }
            }
        }
    } else if j + 1 >= text.len() {
        assert forall|k: int| j <= k implies !#[trigger] separator_at(text, k) by {}
    } else {
        assert(separator_at(text, j));
    }
}

/// A header line without `": "` is refused for that; a line that reads as a
/// field is its name, the first `": "`, and its value followed by a line end
/// of two bytes; the name holds no `": "`.
pub proof fn lemma_header_field_law(text: Seq<char>)
    ensures
        (header_field(text) is NoSeparator) <==> forall|k: int| !#[trigger] separator_at(text, k),
        header_field(text) matches FieldLine::Field(name, value) ==> exists|k: int, tail: Seq<char>|
            {
                &&& #[trigger] separator_at(text, k)
                &&& forall|m: int| 0 <= m < k ==> !#[trigger] separator_at(text, m)
                &&& name == text.take(k)
                &&& text.skip(k + 2) == value + tail
                &&& #[trigger] encode_utf8(tail).len() == 2
            },
{
    lemma_separator_first(text, 0);
    if separator_from(text, 0) is None {
        assert forall|k: int| !#[trigger] separator_at(text, k) by {
            if k >= 0 {
                assert(!separator_at(text, k));
            }
        }
    } else {
        let k = separator_from(text, 0)->Some_0;
        let rest = text.subrange(k + 2, text.len() as int);
        let bytes = encode_utf8(rest);
        if bytes.len() >= 2 && is_char_boundary(bytes, bytes.len() - 2) {
            let cut = bytes.len() - 2;
            vstd::utf8::encode_utf8_valid_utf8(rest);
            vstd::utf8::encode_utf8_decode_utf8(rest);
            vstd::utf8::decode_utf8_split(bytes, cut);
            vstd::utf8::valid_utf8_split(bytes, cut);
            let tail_bytes = bytes.subrange(cut, bytes.len() as int);
            vstd::utf8::decode_utf8_encode_utf8(tail_bytes);
            let value = decode_utf8(bytes.subrange(0, cut));
            let tail = decode_utf8(tail_bytes);
            assert(text.skip(k + 2) =~= rest);
            assert(text.skip(k + 2) == value + tail);
            assert(encode_utf8(tail).len() == 2);
            assert(text.take(k) =~= text.subrange(0, k));
        }
    }
}

/// A run of header lines reads as fields exactly when every line reads as a
/// field, and then it gives each line's field, in order: a line is refused
/// only for itself. Where some line does not read as a field, the first such
/// line decides which failure the run gives.
pub proof fn lemma_header_fields_per_line(texts: Seq<Seq<char>>)
    ensures
        (header_fields(texts) is Fields) <==> (forall|i: int|
            0 <= i < texts.len() ==> #[trigger] header_field(texts[i]) is Field),
        header_fields(texts) matches FieldLines::Fields(fields) ==> {
            &&& fields.len() == texts.len()
            &&& forall|i: int|
                0 <= i < texts.len() ==> #[trigger] header_field(texts[i]) == FieldLine::Field(
                    fields[i].0,
                    fields[i].1,
                )
        },
        !(header_fields(texts) is Fields) ==> exists|i: int|
            {
                &&& 0 <= i < texts.len()
                &&& forall|j: int| 0 <= j < i ==> #[trigger] header_field(texts[j]) is Field
                &&& !(#[trigger] header_field(texts[i]) is Field)
                &&& (header_fields(texts) is NoSeparator) == (header_field(texts[i]) is NoSeparator)
                &&& (header_fields(texts) is CannotTrim) == (header_field(texts[i]) is CannotTrim)
            },
    decreases texts.len(),
{
    if texts.len() > 0 {
        let prefix = texts.drop_last();
        let n = texts.len() - 1;
        lemma_header_fields_per_line(prefix);
        assert forall|i: int| 0 <= i < prefix.len() implies prefix[i] == texts[i] by {}
        if header_fields(prefix) is Fields {
            let fields = header_fields(prefix)->Fields_0;
            if header_field(texts[n]) is Field {
                let all = header_fields(texts)->Fields_0;
                assert forall|i: int| 0 <= i < texts.len() implies #[trigger] header_field(texts[i])
                    == FieldLine::Field(all[i].0, all[i].1) by {
                    if i < n {
                        assert(prefix[i] == texts[i]);
                        assert(header_field(prefix[i]) == FieldLine::Field(fields[i].0, fields[i].1));
                    }
                }
            } else {
                assert(forall|j: int| 0 <= j < n ==> #[trigger] header_field(texts[j]) is Field) by {
                    assert forall|j: int| 0 <= j < n implies #[trigger] header_field(texts[j]) is Field by {
                        assert(prefix[j] == texts[j]);
                        assert(header_field(prefix[j]) is Field);
                    }
                }
                assert(!(header_field(texts[n]) is Field));
            }
        } else {
            let i = choose|i: int|
                {
                    &&& 0 <= i < prefix.len()
                    &&& forall|j: int| 0 <= j < i ==> #[trigger] header_field(prefix[j]) is Field
                    &&& !(#[trigger] header_field(prefix[i]) is Field)
                    &&& (header_fields(prefix) is NoSeparator) == (header_field(prefix[i]) is NoSeparator)
                    &&& (header_fields(prefix) is CannotTrim) == (header_field(prefix[i]) is CannotTrim)
                };
            assert(prefix[i] == texts[i]);
            assert forall|j: int| 0 <= j < i implies #[trigger] header_field(texts[j]) is Field by {
                assert(prefix[j] == texts[j]);
                assert(header_field(prefix[j]) is Field);
            }
            assert(!(header_field(texts[i]) is Field));
        }
    }
}

/// A head reads as method, path, protocol and fields exactly when its start
/// line holds at least three words and every other line reads as a field; it
/// then holds one field per header line, in order. A start line of fewer than
/// three words makes a bad request line, whatever follows.
pub proof fn lemma_texts_outcome_law(texts: Seq<Seq<char>>)
    requires
        texts.len() >= 1,
    ensures
        (texts_outcome(texts) is Parsed) <==> (words_from(texts[0], 0).len() >= 3 && forall|i: int|
            1 <= i < texts.len() ==> #[trigger] header_field(texts[i]) is Field),
        texts_outcome(texts) matches HeadOutcome::Parsed(v) ==> {
            &&& v.method == words_from(texts[0], 0)[0]
            &&& v.path == words_from(texts[0], 0)[1]
            &&& v.protocol == words_from(texts[0], 0)[2]
            &&& v.fields.len() == texts.len() - 1
            &&& forall|i: int|
                1 <= i < texts.len() ==> #[trigger] header_field(texts[i]) == FieldLine::Field(
                    v.fields[i - 1].0,
                    v.fields[i - 1].1,
                )
        },
        words_from(texts[0], 0).len() < 3 ==> texts_outcome(texts) == HeadOutcome::Rejected(
            HttpErrorType::BadRequestLine,
        ),
{
    let rest = texts.subrange(1, texts.len() as int);
    lemma_header_fields_per_line(rest);
    assert forall|i: int| 1 <= i < texts.len() implies rest[i - 1] == texts[i] by {}
    if words_from(texts[0], 0).len() >= 3 {
        if forall|i: int| 1 <= i < texts.len() ==> #[trigger] header_field(texts[i]) is Field {
            assert forall|i: int| 0 <= i < rest.len() implies #[trigger] header_field(rest[i]) is Field by {
                assert(rest[i] == texts[i + 1]);
            }
        } else {
            let i = choose|i: int| 1 <= i < texts.len() && !(#[trigger] header_field(texts[i]) is Field);
            assert(rest[i - 1] == texts[i]);
        }
        if let FieldLines::Fields(fields) = header_fields(rest) {
            assert forall|i: int| 1 <= i < texts.len() implies #[trigger] header_field(texts[i])
                == FieldLine::Field(fields[i - 1].0, fields[i - 1].1) by {
                assert(rest[i - 1] == texts[i]);
                assert(header_field(rest[i - 1]) == FieldLine::Field(fields[i - 1].0, fields[i - 1].1));
            }
        }
    }
}

/// The last field of a name gives its value; a field of another name leaves
/// the value of a name as it was.
pub proof fn lemma_last_value_law(
    fields: Seq<(Seq<char>, Seq<char>)>,
    name: Seq<char>,
    value: Seq<char>,
    other: Seq<char>,
)
    ensures
        last_value(fields.push((name, value)), name) == Some(value),
        other != name ==> last_value(fields.push((name, value)), other) == last_value(fields, other),
{
    assert(fields.push((name, value)).drop_last() =~= fields);
}

/// The body length a head announces: none without a `Content-Length` field;
/// otherwise its last value is refused exactly when it does not read as a
/// `usize`, and a value written in decimal, with or without a leading `'+'`,
/// announces the number it writes, whatever its size.
pub proof fn lemma_announced_length_law(head: HeadView, n: nat)
    ensures
        last_value(head.fields, "Content-Length"@) is None ==> announced_length(head) == Some(
            None::<nat>,
        ),
        last_value(head.fields, "Content-Length"@) matches Some(v) ==> ((announced_length(head) is None)
            <==> (parse_usize(v) is None)),
        n <= usize::MAX && last_value(head.fields, "Content-Length"@) == Some(decimal(n))
            ==> announced_length(head) == Some(Some(n)),
        n <= usize::MAX && last_value(head.fields, "Content-Length"@) == Some(seq!['+'] + decimal(n))
            ==> announced_length(head) == Some(Some(n)),
{
    if n <= usize::MAX {
        lemma_parse_decimal(n);
    }
    lemma_decimal_digits(n);
    let plus = seq!['+'] + decimal(n);
    assert(unsigned_digits(plus) =~= decimal(n));
}

/// Once a line cannot be read, no later lines change that.
proof fn lemma_fields_stay_failed(prefix: Seq<Seq<char>>, all: Seq<Seq<char>>)
    requires
        prefix.len() <= all.len(),
        prefix == all.take(prefix.len() as int),
        !(header_fields(prefix) is Fields),
    ensures
        header_fields(all) == header_fields(prefix),
    decreases all.len() - prefix.len(),
{
    if prefix.len() < all.len() {
        assert(all.drop_last().take(prefix.len() as int) =~= prefix);
        lemma_fields_stay_failed(prefix, all.drop_last());
    } else {
        assert(all =~= prefix);
    }
}

} // verus!
