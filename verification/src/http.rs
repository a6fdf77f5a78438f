//! HTTP/1.1 requests and responses as bytes.

use vstd::prelude::*;
use vstd::slice::{slice_subrange, slice_to_vec};
use vstd::string::*;
use vstd::utf8::{
    decode_utf8, encode_utf8, encode_utf8_decode_utf8, encode_utf8_valid_utf8, is_ascii_chars,
    is_ascii_chars_encode_utf8, valid_utf8,
};

use crate::chunked::{
    chunked_wire_len, decode_chunked_body, decoded, in_chunks, law_decoded_at_wire_len,
    law_wire_len_stable, law_written_chunks_are_read, lemma_wire_len_bounds, wire_len,
};
use crate::encoding::{
    lemma_encode_concat, lemma_encode_without_return, lossy_text, utf8_error_text, utf8_lossy,
    utf8_str,
};
use crate::error::{Error, ErrorView};
use crate::number::{
    decimal, decimal_text, law_decimal_reads_back, lemma_decimal_digits, parse_u16, parse_usize,
    u16_error_text, unsigned_value,
};
use crate::text::{
    blank, chars_of, eq_ignore_case, find, find_in, interlaced, is_trimmed, is_whitespace, join2,
    join3, law_lines_split, law_occurrence, law_split_once, law_trim, law_words, lemma_find_cut,
    lemma_find_extends, lemma_find_from, lemma_find_from_unique, lower, lower_chars, next_word,
    occurs_at, same_ignoring_case, split, split_once, split_once_chars, string_of, trim, trim_chars,
    words,
};

verus! {

/// An HTTP response: what is read of its head, and its body.
#[derive(Debug, Clone, PartialEq, Eq)]
pub struct HttpResponse {
    /// The status code.
    pub status_code: u16,
    /// The body, with a transfer coding undone.
    pub body: Vec<u8>,
    /// The `ETag` header.
    pub etag: Option<String>,
    /// The `Last-Modified` header.
    pub last_modified: Option<String>,
}

/// What an [`HttpResponse`] holds.
pub struct HttpResponseView {
    /// The status code.
    pub status_code: u16,
    /// The body.
    pub body: Seq<u8>,
    /// The `ETag` header.
    pub etag: Option<Seq<char>>,
    /// The `Last-Modified` header.
    pub last_modified: Option<Seq<char>>,
}

/// The text in an optional string.
pub open spec fn opt_text(s: Option<String>) -> Option<Seq<char>> {
    match s {
        Some(s) => Some(s@),
        None => None,
    }
}

impl View for HttpResponse {
    type V = HttpResponseView;

    open spec fn view(&self) -> HttpResponseView {
        HttpResponseView {
            status_code: self.status_code,
            body: self.body@,
            etag: opt_text(self.etag),
            last_modified: opt_text(self.last_modified),
        }
    }
}

/// What is read of the header lines of a response.
pub struct Fields {
    /// The number that the last `Content-Length` line gives.
    pub content_length: Option<usize>,
    /// Whether some `Transfer-Encoding` line speaks of chunks.
    pub chunked: bool,
    /// The value of the last `ETag` line.
    pub etag: Option<String>,
    /// The value of the last `Last-Modified` line.
    pub last_modified: Option<String>,
}

/// What [`Fields`] hold.
pub struct FieldsView {
    /// See [`Fields::content_length`].
    pub content_length: Option<nat>,
    /// See [`Fields::chunked`].
    pub chunked: bool,
    /// See [`Fields::etag`].
    pub etag: Option<Seq<char>>,
    /// See [`Fields::last_modified`].
    pub last_modified: Option<Seq<char>>,
}

impl View for Fields {
    type V = FieldsView;

    open spec fn view(&self) -> FieldsView {
        FieldsView {
            content_length: match self.content_length {
                Some(n) => Some(n as nat),
                None => None,
            },
            chunked: self.chunked,
            etag: opt_text(self.etag),
            last_modified: opt_text(self.last_modified),
        }
    }
}

/// The head of a response: where it ends, and what is read of it.
pub struct ResponseMetadata {
    /// The index of the empty line that ends the head.
    pub header_end: usize,
    /// The status code.
    pub status_code: u16,
    /// What is read of the header lines.
    pub fields: Fields,
}

/// What a [`ResponseMetadata`] holds.
pub struct MetadataView {
    /// See [`ResponseMetadata::header_end`].
    pub header_end: int,
    /// See [`ResponseMetadata::status_code`].
    pub status_code: u16,
    /// See [`ResponseMetadata::fields`].
    pub fields: FieldsView,
}

impl View for ResponseMetadata {
    type V = MetadataView;

    open spec fn view(&self) -> MetadataView {
        MetadataView {
            header_end: self.header_end as int,
            status_code: self.status_code,
            fields: self.fields@,
        }
    }
}

/// The bytes that end the head of a response: a line break and an empty line.
pub open spec fn head_end() -> Seq<u8> {
    seq![13u8, 10u8, 13u8, 10u8]
}

/// The line break of HTTP, in characters.
pub open spec fn line_break() -> Seq<char> {
    seq!['\r', '\n']
}

/// The name and the value of a header line.
pub open spec fn header_field(line: Seq<char>) -> Option<(Seq<char>, Seq<char>)> {
    match split_once(line, ':') {
        Some((name, value)) => Some((trim(name), trim(value))),
        None => None,
    }
}

/// The value of the last of the header lines `lines` that is named `name`.
pub open spec fn last_value(lines: Seq<Seq<char>>, name: Seq<char>) -> Option<Seq<char>>
    decreases lines.len(),
{
    if lines.len() == 0 {
        None
    } else {
        match header_field(lines.last()) {
            Some((n, value)) => if eq_ignore_case(n, name) {
                Some(value)
            } else {
                last_value(lines.drop_last(), name)
            },
            None => last_value(lines.drop_last(), name),
        }
    }
}

/// Whether the header line `line` declares the chunked transfer coding.
pub open spec fn declares_chunked(line: Seq<char>) -> bool {
    match header_field(line) {
        Some((name, value)) => eq_ignore_case(name, "transfer-encoding"@) && find(
            lower(value),
            "chunked"@,
        ) is Some,
        None => false,
    }
}

/// What is read of the header lines `lines`.
pub open spec fn fields_of(lines: Seq<Seq<char>>) -> FieldsView {
    FieldsView {
        content_length: match last_value(lines, "content-length"@) {
            Some(value) => unsigned_value(value, 10, usize::MAX as nat),
            None => None,
        },
        chunked: exists|i: int| 0 <= i < lines.len() && declares_chunked(#[trigger] lines[i]),
        etag: last_value(lines, "etag"@),
        last_modified: last_value(lines, "last-modified"@),
    }
}

/// The status code in a status line: its second word.
pub open spec fn status_code_of(line: Seq<char>) -> Result<u16, ErrorView> {
    if words(line).len() < 2 {
        Err(ErrorView::Io("HTTP status line missing code"@))
    } else {
        match unsigned_value(words(line)[1], 10, u16::MAX as nat) {
            Some(code) => Ok(code as u16),
            None => Err(
                ErrorView::Io("invalid HTTP status code: "@ + u16_error_text(words(line)[1])),
            ),
        }
    }
}

/// What is read of the head of `response`: `None` while the head is incomplete.
pub open spec fn metadata(response: Seq<u8>) -> Result<Option<MetadataView>, ErrorView> {
    match find(response, head_end()) {
        None => Ok(None),
        Some(header_end) => {
            let head = response.take(header_end);
            if valid_utf8(head) {
                let lines = split(decode_utf8(head), line_break());
                match status_code_of(lines[0]) {
                    Ok(status_code) => Ok(
                        Some(
                            MetadataView {
                                header_end,
                                status_code,
                                fields: fields_of(lines.skip(1)),
                            },
                        ),
                    ),
                    Err(error) => Err(error),
                }
            } else {
                Err(ErrorView::Io("HTTP headers were not valid UTF-8: "@ + utf8_error_text(head)))
            }
        },
    }
}

/// The body of a response whose header lines are `fields` and whose bytes after the head are `rest`.
pub open spec fn body_of(fields: FieldsView, rest: Seq<u8>) -> Result<Seq<u8>, ErrorView> {
    if fields.chunked {
        decoded(rest, 0)
    } else {
        match fields.content_length {
            Some(len) => if len <= rest.len() {
                Ok(rest.take(len as int))
            } else {
                Err(
                    ErrorView::Io(
                        "HTTP body shorter than declared Content-Length ("@ + decimal(len) + ")"@,
                    ),
                )
            },
            None => Ok(rest),
        }
    }
}

/// The response that `response` spells.
pub open spec fn parsed(response: Seq<u8>) -> Result<HttpResponseView, ErrorView> {
    match metadata(response) {
        Err(error) => Err(error),
        Ok(None) => Err(ErrorView::Io("HTTP response missing header terminator"@)),
        Ok(Some(m)) => match body_of(m.fields, response.skip(m.header_end + 4)) {
            Err(error) => Err(error),
            Ok(body) => Ok(
                HttpResponseView {
                    status_code: m.status_code,
                    body,
                    etag: m.fields.etag,
                    last_modified: m.fields.last_modified,
                },
            ),
        },
    }
}

/// How many bytes of `response` the response takes up: `None` while it is incomplete, or where only
/// the end of the stream ends it.
pub open spec fn complete_len(response: Seq<u8>) -> Result<Option<int>, ErrorView> {
    match metadata(response) {
        Err(error) => Err(error),
        Ok(None) => Ok(None),
        Ok(Some(m)) => {
            let start = m.header_end + 4;
            let rest = response.skip(start);
            if m.fields.chunked {
                match wire_len(rest, 0) {
                    Ok(Some(len)) => Ok(Some(start + len)),
                    Ok(None) => Ok(None),
                    Err(error) => Err(error),
                }
            } else {
                match m.fields.content_length {
                    Some(len) => if len <= rest.len() {
                        Ok(Some(start + len))
                    } else {
                        Ok(None)
                    },
                    None => Ok(None),
                }
            }
        },
    }
}

/// The status codes of success.
pub open spec fn is_success(status_code: u16) -> bool {
    200 <= status_code < 300
}

/// The body of `response` where its status is one of success, and an error with the status and the
/// body where it is not.
pub open spec fn success_body(response: HttpResponseView) -> Result<Seq<u8>, ErrorView> {
    if is_success(response.status_code) {
        Ok(response.body)
    } else {
        Err(ErrorView::Http { status: response.status_code, body: lossy_text(response.body) })
    }
}

/// The body of what a request came to, where that is a response of success.
pub open spec fn fetched_body(out: Result<HttpResponseView, ErrorView>) -> Result<
    Seq<u8>,
    ErrorView,
> {
    match out {
        Err(error) => Err(error),
        Ok(response) => success_body(response),
    }
}

/// Header names and values as text.
pub open spec fn pairs_text(headers: Seq<(String, String)>) -> Seq<(Seq<char>, Seq<char>)> {
    headers.map_values(|h: (String, String)| (h.0@, h.1@))
}

/// The header lines that write `headers`.
pub open spec fn header_lines(headers: Seq<(Seq<char>, Seq<char>)>) -> Seq<char>
    decreases headers.len(),
{
    if headers.len() == 0 {
        seq![]
    } else {
        header_lines(headers.drop_last()) + headers.last().0 + ": "@ + headers.last().1 + "\r\n"@
    }
}

/// The `GET` request for `path` at `host` with the further headers `headers`.
pub open spec fn request_text(
    host: Seq<char>,
    path: Seq<char>,
    headers: Seq<(Seq<char>, Seq<char>)>,
) -> Seq<char> {
    "GET "@ + path + " HTTP/1.1\r\nHost: "@ + host
        + "\r\nAccept: */*\r\nConnection: close\r\nUser-Agent: vzglyd_sidecar/0.1\r\n"@
        + header_lines(headers) + "\r\n"@
}

/// The body of `response` where its status is one of success.
///
/// # Errors
///
/// Any other status is an [`Error::Http`] with the status and the body as text.
pub fn successful_body(response: HttpResponse) -> (r: Result<Vec<u8>, Error>)
    ensures
        match r {
            Ok(body) => success_body(response@) == Ok::<Seq<u8>, ErrorView>(body@),
            Err(error) => success_body(response@) == Err::<Seq<u8>, ErrorView>(error@),
        },
{
    if 200 <= response.status_code && response.status_code < 300 {
        Ok(response.body)
    } else {
        Err(
            Error::Http {
                status: response.status_code,
                body: body_text_for_error(response.body.as_slice()),
            },
        )
    }
}

/// `body` as text, for an error message.
pub fn body_text_for_error(body: &[u8]) -> (r: String)
    ensures
        r@ == lossy_text(body@),
        valid_utf8(body@) ==> r@ == decode_utf8(body@),
{
    utf8_lossy(body)
}

/// The `GET` request for `path` at `host` with the further headers `headers`.
pub fn build_request(host: &str, path: &str, headers: &[(String, String)]) -> (r: String)
    ensures
        r@ == request_text(host@, path@, pairs_text(headers@)),
{
    let mut request: String = "GET ".to_owned();
    request.append(path);
    request.append(" HTTP/1.1\r\nHost: ");
    request.append(host);
    request.append(
        "\r\nAccept: */*\r\nConnection: close\r\nUser-Agent: vzglyd_sidecar/0.1\r\n",
    );
    let ghost head = request@;
    let ghost pairs = pairs_text(headers@);
    assert(request@ =~= head + header_lines(pairs.take(0)));
    for i in 0..headers.len()
        invariant
            pairs == pairs_text(headers@),
            request@ == head + header_lines(pairs.take(i as int)),
    {
        request.append(headers[i].0.as_str());
        request.append(": ");
        request.append(headers[i].1.as_str());
        request.append("\r\n");
        proof {
            assert(pairs.take(i + 1).drop_last() =~= pairs.take(i as int));
            assert(pairs.take(i + 1).last() == pairs[i as int]);
            assert(request@ =~= head + header_lines(pairs.take(i + 1)));
        }
    }
    assert(pairs.take(headers@.len() as int) =~= pairs);
    request.append("\r\n");
    request
}

/// The status code in the status line `line`.
fn status_code(line: &[char]) -> (r: Result<u16, Error>)
    ensures
        match r {
            Ok(code) => status_code_of(line@) == Ok::<u16, ErrorView>(code),
            Err(error) => status_code_of(line@) == Err::<u16, ErrorView>(error@),
        },
{
    match next_word(line) {
        None => Err(Error::Io("HTTP status line missing code".to_owned())),
        Some((_, rest)) => match next_word(rest) {
            None => Err(Error::Io("HTTP status line missing code".to_owned())),
            Some((word, _)) => {
                let word = string_of(word);
                assert(words(line@)[1] == word@);
                match parse_u16(word.as_str()) {
                    Ok(code) => Ok(code),
                    Err(error) => Err(
                        Error::Io(join2("invalid HTTP status code: ", error.as_str())),
                    ),
                }
            },
        },
    }
}

/// Whether the header name `name` is `wanted`.
fn named(name: &[char], wanted: &str) -> (r: bool)
    ensures
        r == eq_ignore_case(name@, wanted@),
{
    same_ignoring_case(name, chars_of(wanted).as_slice())
}

/// Whether the header value `value` speaks of chunks.
fn speaks_of_chunks(value: &[char]) -> (r: bool)
    ensures
        r == (find(lower(value@), "chunked"@) is Some),
{
    find_in(lower_chars(value).as_slice(), chars_of("chunked").as_slice(), 0).is_some()
}

/// The names of the header fields that are read differ in length, so no line is two of them.
proof fn lemma_field_names(name: Seq<char>)
    ensures
        eq_ignore_case(name, "content-length"@) ==> name.len() == 14,
        eq_ignore_case(name, "transfer-encoding"@) ==> name.len() == 17,
        eq_ignore_case(name, "etag"@) ==> name.len() == 4,
        eq_ignore_case(name, "last-modified"@) ==> name.len() == 13,
{
    reveal_strlit("content-length");
    reveal_strlit("transfer-encoding");
    reveal_strlit("etag");
    reveal_strlit("last-modified");
    assert(lower(name).len() == name.len());
    assert(lower("content-length"@).len() == 14);
    assert(lower("transfer-encoding"@).len() == 17);
    assert(lower("etag"@).len() == 4);
    assert(lower("last-modified"@).len() == 13);
}

/// Takes the header line `line` into account, after the lines `done`.
fn note_line(fields: Fields, line: &[char], Ghost(done): Ghost<Seq<Seq<char>>>) -> (r: Fields)
    requires
        fields@ == fields_of(done),
    ensures
        r@ == fields_of(done.push(line@)),
{
    let mut fields = fields;
    let ghost lines = done.push(line@);
    proof {
        assert(lines.drop_last() =~= done);
        assert(lines.last() == line@);
        assert(fields_of(lines).chunked == (fields_of(done).chunked || declares_chunked(line@)))
            by {
            if fields_of(done).chunked {
                let i = choose|i: int|
                    0 <= i < done.len() && declares_chunked(#[trigger] done[i]);
                assert(declares_chunked(lines[i]));
            }
            if declares_chunked(line@) {
                assert(declares_chunked(lines[done.len() as int]));
            }
            if fields_of(lines).chunked {
                let i = choose|i: int|
                    0 <= i < lines.len() && declares_chunked(#[trigger] lines[i]);
                if i < done.len() {
                    assert(declares_chunked(done[i]));
                }
            }
        }
    }
    match split_once_chars(line, ':') {
        None => {},
        Some((name, value)) => {
            let name = trim_chars(name);
            let value = trim_chars(value);
            proof {
                lemma_field_names(name@);
            }
            if named(name, "content-length") {
                fields.content_length = parse_usize(string_of(value).as_str());
            } else if named(name, "transfer-encoding") && speaks_of_chunks(value) {
                fields.chunked = true;
            } else if named(name, "etag") {
                fields.etag = Some(string_of(value));
            } else if named(name, "last-modified") {
                fields.last_modified = Some(string_of(value));
            }
        },
    }
    fields
}

/// The first line of `text`, and what follows its line break where it has one.
fn next_line(text: &[char]) -> (r: (&[char], Option<&[char]>))
    ensures
        match r.1 {
            Some(rest) => split(text@, line_break()) == seq![r.0@] + split(rest@, line_break())
                && rest@.len() < text@.len(),
            None => split(text@, line_break()) == seq![r.0@],
        },
{
    let pattern: [char; 2] = ['\r', '\n'];
    assert(pattern@ =~= line_break());
    match find_in(text, &pattern, 0) {
        Some(i) => {
            proof {
                lemma_find_from(text@, line_break(), 0);
                assert(text@.len() == text.len());
            }
            let line = slice_subrange(text, 0, i);
            let rest = slice_subrange(text, i + 2, text.len());
            assert(line@ =~= text@.take(i as int));
            assert(rest@ =~= text@.skip(i + 2));
            (line, Some(rest))
        },
        None => (text, None),
    }
}

/// What the header lines in `text` say.
fn header_fields(text: Option<&[char]>) -> (r: Fields)
    ensures
        r@ == fields_of(
            match text {
                Some(text) => split(text@, line_break()),
                None => seq![],
            },
        ),
{
    let ghost lines: Seq<Seq<char>> = match text {
        Some(text) => split(text@, line_break()),
        None => seq![],
    };
    let mut rest: Option<&[char]> = text;
    let mut fields = Fields {
        content_length: None,
        chunked: false,
        etag: None,
        last_modified: None,
    };
    let ghost mut done: Seq<Seq<char>> = seq![];
    assert(fields@ =~= fields_of(done));
    assert(match rest {
        Some(rest) => lines =~= done + split(rest@, line_break()),
        None => lines =~= done,
    });
    loop
        invariant
            lines == (match text {
                Some(text) => split(text@, line_break()),
                None => seq![],
            }),
            fields@ == fields_of(done),
            match rest {
                Some(rest) => lines == done + split(rest@, line_break()),
                None => lines == done,
            },
        decreases
                match rest {
                    Some(rest) => rest@.len() + 1,
                    None => 0,
                },
    {
        let chars = match rest {
            None => {
                return fields;
            },
            Some(chars) => chars,
        };
        let (line, next) = next_line(chars);
        fields = note_line(fields, line, Ghost(done));
        proof {
            let before = done;
            done = done.push(line@);
            match next {
                Some(next) => {
                    assert(before + (seq![line@] + split(next@, line_break())) =~= done + split(
                        next@,
                        line_break(),
                    ));
                },
                None => {
                    assert(before + seq![line@] =~= done);
                },
            }
        }
        rest = next;
    }
}

/// What is read of the head of `response`: `None` while the head is incomplete.
///
/// # Errors
///
/// Returns [`Error::Io`] if the head is not UTF-8 or has no status code.
pub fn http_response_metadata(response: &[u8]) -> (r: Result<Option<ResponseMetadata>, Error>)
    ensures
        match r {
            Ok(Some(m)) => metadata(response@) == Ok::<Option<MetadataView>, ErrorView>(Some(m@)),
            Ok(None) => metadata(response@) == Ok::<Option<MetadataView>, ErrorView>(None),
            Err(error) => metadata(response@) == Err::<Option<MetadataView>, ErrorView>(error@),
        },
{
    let pattern: [u8; 4] = [13, 10, 13, 10];
    assert(pattern@ =~= head_end());
    let header_end: usize = match find_in(response, &pattern, 0) {
        None => {
            return Ok(None);
        },
        Some(header_end) => header_end,
    };
    proof {
        lemma_find_from(response@, head_end(), 0);
    }
    let head = slice_subrange(response, 0, header_end);
    assert(head@ =~= response@.take(header_end as int));
    let text = match utf8_str(head) {
        Err(error) => {
            return Err(Error::Io(join2("HTTP headers were not valid UTF-8: ", error.as_str())));
        },
        Ok(text) => text,
    };
    let chars = chars_of(text);
    let (status_line, rest) = next_line(chars.as_slice());
    let ghost lines = split(chars@, line_break());
    let status_code = match status_code(status_line) {
        Err(error) => {
            return Err(error);
        },
        Ok(code) => code,
    };
    proof {
        match rest {
            Some(rest) => {
                assert(lines.skip(1) =~= split(rest@, line_break()));
            },
            None => {
                assert(lines.skip(1) =~= seq![]);
            },
        }
    }
    Ok(Some(ResponseMetadata { header_end, status_code, fields: header_fields(rest) }))
}

/// Where a head was read, its four bytes of end lie within the response.
proof fn lemma_header_end(response: Seq<u8>)
    ensures
        metadata(response) matches Ok(Some(m)) ==> 0 <= m.header_end && m.header_end + 4
            <= response.len(),
{
    lemma_find_from(response, head_end(), 0);
}

/// The response that the bytes `response` spell.
///
/// # Errors
///
/// Returns [`Error::Io`] if the head is incomplete or malformed, or the body does not fit what the
/// head declares.
pub fn parse_http_response(response: &[u8]) -> (r: Result<HttpResponse, Error>)
    ensures
        match r {
            Ok(value) => parsed(response@) == Ok::<HttpResponseView, ErrorView>(value@),
            Err(error) => parsed(response@) == Err::<HttpResponseView, ErrorView>(error@),
        },
{
    let metadata = match http_response_metadata(response) {
        Err(error) => {
            return Err(error);
        },
        Ok(None) => {
            return Err(Error::Io("HTTP response missing header terminator".to_owned()));
        },
        Ok(Some(metadata)) => metadata,
    };
    proof {
        lemma_header_end(response@);
        assert(response@.len() == response.len());
    }
    let rest = slice_subrange(response, metadata.header_end + 4, response.len());
    assert(rest@ =~= response@.skip(metadata.header_end + 4));
    let body: Vec<u8> = if metadata.fields.chunked {
        match decode_chunked_body(rest) {
            Err(error) => {
                return Err(error);
            },
            Ok(body) => body,
        }
    } else {
        match metadata.fields.content_length {
            Some(len) => {
                if len > rest.len() {
                    return Err(
                        Error::Io(
                            join3(
                                "HTTP body shorter than declared Content-Length (",
                                decimal_text(len as u64).as_str(),
                                ")",
                            ),
                        ),
                    );
                }
                let body = slice_to_vec(slice_subrange(rest, 0, len));
                assert(body@ =~= rest@.take(len as int));
                body
            },
            None => slice_to_vec(rest),
        }
    };
    Ok(
        HttpResponse {
            status_code: metadata.status_code,
            body,
            etag: metadata.fields.etag,
            last_modified: metadata.fields.last_modified,
        },
    )
}

/// How many of the bytes `response` the response takes up: `None` while it is incomplete, or where
/// only the end of the stream ends it.
///
/// # Errors
///
/// Returns [`Error::Io`] if the head or a chunk is malformed.
pub fn http_response_complete_len(response: &[u8]) -> (r: Result<Option<usize>, Error>)
    ensures
        match r {
            Ok(Some(len)) => complete_len(response@) == Ok::<Option<int>, ErrorView>(
                Some(len as int),
            ),
            Ok(None) => complete_len(response@) == Ok::<Option<int>, ErrorView>(None),
            Err(error) => complete_len(response@) == Err::<Option<int>, ErrorView>(error@),
        },
{
    let metadata = match http_response_metadata(response) {
        Err(error) => {
            return Err(error);
        },
        Ok(None) => {
            return Ok(None);
        },
        Ok(Some(metadata)) => metadata,
    };
    proof {
        lemma_header_end(response@);
        assert(response@.len() == response.len());
    }
    let start: usize = metadata.header_end + 4;
    let rest = slice_subrange(response, start, response.len());
    assert(rest@ =~= response@.skip(start as int));
    if metadata.fields.chunked {
        proof {
            lemma_wire_len_bounds(rest@, 0);
        }
        match chunked_wire_len(rest) {
            Err(error) => Err(error),
            Ok(None) => Ok(None),
            Ok(Some(len)) => Ok(Some(start + len)),
        }
    } else {
        match metadata.fields.content_length {
            Some(len) => if len <= rest.len() {
                Ok(Some(start + len))
            } else {
                Ok(None)
            },
            None => Ok(None),
        }
    }
}

/// What was read of a head stays when more bytes arrive.
pub proof fn law_metadata_stable(response: Seq<u8>, more: Seq<u8>)
    ensures
        metadata(response) != Ok::<Option<MetadataView>, ErrorView>(None) ==> metadata(
            response + more,
        ) == metadata(response),
{
    lemma_find_from(response, head_end(), 0);
    lemma_find_extends(response, more, head_end(), 0);
    if let Some(header_end) = find(response, head_end()) {
        assert((response + more).take(header_end) =~= response.take(header_end));
    }
}

/// What was read of a head stays when something after it is cut off.
proof fn lemma_metadata_cut(response: Seq<u8>, len: int)
    requires
        len <= response.len(),
    ensures
        metadata(response) matches Ok(Some(m)) ==> m.header_end + 4 <= len ==> metadata(
            response.take(len),
        ) == metadata(response),
{
    lemma_find_from(response, head_end(), 0);
    lemma_find_cut(response, head_end(), 0, len);
    if let Some(header_end) = find(response, head_end()) {
        if header_end + 4 <= len {
            assert(response.take(len).take(header_end) =~= response.take(header_end));
        }
    }
}

/// A complete response lies within the bytes at hand.
pub proof fn lemma_complete_len_bounds(response: Seq<u8>)
    ensures
        complete_len(response) matches Ok(Some(len)) ==> 0 <= len <= response.len(),
{
    lemma_header_end(response);
    if let Ok(Some(m)) = metadata(response) {
        lemma_wire_len_bounds(response.skip(m.header_end + 4), 0);
    }
}

/// Bytes that arrive later change neither the length of a complete response nor the error of a
/// malformed one.
pub proof fn law_complete_len_stable(response: Seq<u8>, more: Seq<u8>)
    ensures
        complete_len(response) != Ok::<Option<int>, ErrorView>(None) ==> complete_len(
            response + more,
        ) == complete_len(response),
{
    law_metadata_stable(response, more);
    lemma_header_end(response);
    if let Ok(Some(m)) = metadata(response) {
        let start = m.header_end + 4;
        assert((response + more).skip(start) =~= response.skip(start) + more);
        law_wire_len_stable(response.skip(start), more, 0);
    }
}

/// A complete response parses, and the bytes after it make no difference.
#[verifier::spinoff_prover]
pub proof fn law_complete_response_parses(response: Seq<u8>)
    ensures
        complete_len(response) matches Ok(Some(len)) ==> parsed(response.take(len)) is Ok && parsed(
            response.take(len),
        ) == parsed(response),
{
    lemma_complete_len_bounds(response);
    lemma_header_end(response);
    if let Ok(Some(len)) = complete_len(response) {
        if let Ok(Some(m)) = metadata(response) {
            let start = m.header_end + 4;
            let rest = response.skip(start);
            lemma_wire_len_bounds(rest, 0);
            lemma_metadata_cut(response, len);
            assert(response.take(len).skip(start) =~= rest.take(len - start));
            assert(rest.take(len - start).take(len - start) =~= rest.take(len - start));
            lemma_body_cut(m.fields, rest, len - start);
        }
    }
}

/// Cut off where it ends, a body is what it is with what follows.
proof fn lemma_body_cut(fields: FieldsView, rest: Seq<u8>, len: int)
    requires
        0 <= len <= rest.len(),
        fields.chunked ==> wire_len(rest, 0) == Ok::<Option<int>, ErrorView>(Some(len)),
        !fields.chunked ==> fields.content_length == Some(len as nat),
    ensures
        body_of(fields, rest.take(len)) is Ok,
        body_of(fields, rest.take(len)) == body_of(fields, rest),
{
    if fields.chunked {
        law_decoded_at_wire_len(rest);
    } else {
        assert(rest.take(len).take(len) =~= rest.take(len));
    }
}

/// What a head decides of the bytes after it.
#[verifier::spinoff_prover]
proof fn lemma_head_decides(response: Seq<u8>, m: MetadataView, rest: Seq<u8>)
    requires
        metadata(response) == Ok::<Option<MetadataView>, ErrorView>(Some(m)),
        response.skip(m.header_end + 4) == rest,
        !m.fields.chunked,
    ensures
        match m.fields.content_length {
            Some(len) => if len <= rest.len() {
                &&& parsed(response) matches Ok(r)
                &&& r.body == rest.take(len as int)
                &&& r.status_code == m.status_code
                &&& complete_len(response) == Ok::<Option<int>, ErrorView>(
                    Some(m.header_end + 4 + len),
                )
            } else {
                parsed(response) == Err::<HttpResponseView, ErrorView>(
                    ErrorView::Io(
                        "HTTP body shorter than declared Content-Length ("@ + decimal(len) + ")"@,
                    ),
                )
            },
            None => {
                &&& parsed(response) matches Ok(r)
                &&& r.body == rest
                &&& r.status_code == m.status_code
                &&& complete_len(response) == Ok::<Option<int>, ErrorView>(None)
            },
        },
{
}

/// A response that takes up all the bytes at hand is not complete with fewer.
proof fn lemma_incomplete(whole: Seq<u8>, k: int)
    requires
        complete_len(whole) == Ok::<Option<int>, ErrorView>(Some(whole.len() as int)),
        0 <= k < whole.len(),
    ensures
        complete_len(whole.take(k)) == Ok::<Option<int>, ErrorView>(None),
{
    let part = whole.take(k);
    assert(part + whole.skip(k) =~= whole);
    law_complete_len_stable(part, whole.skip(k));
    lemma_complete_len_bounds(part);
}

/// A header line is its name and its value, with a colon between them and whitespace around each, which
/// makes no difference. A line without a colon is none.
pub proof fn law_header_line(
    lead: Seq<char>,
    name: Seq<char>,
    gap: Seq<char>,
    indent: Seq<char>,
    value: Seq<char>,
    trail: Seq<char>,
)
    requires
        blank(lead),
        blank(gap),
        blank(indent),
        blank(trail),
        is_trimmed(name),
        is_trimmed(value),
        !name.contains(':'),
    ensures
        header_field(lead + name + gap + seq![':'] + (indent + value + trail)) == Some(
            (name, value),
        ),
        header_field(lead + name + gap) is None,
{
    let before = lead + name + gap;
    assert forall|i: int| 0 <= i < before.len() implies before[i] != ':' by {
        if i < lead.len() {
            assert(is_whitespace(lead[i]));
        } else if i < lead.len() + name.len() {
            assert(name.contains(name[i - lead.len()]));
        } else {
            assert(is_whitespace(gap[i - lead.len() - name.len()]));
        }
    }
    law_split_once(before, ':', indent + value + trail);
    law_trim(lead, name, gap);
    law_trim(indent, value, trail);
}

/// Of several header lines with the same name, in whatever case, the last one counts. Where there is
/// none, there is no value.
pub proof fn law_last_header_counts(lines: Seq<Seq<char>>, name: Seq<char>, i: int)
    ensures
        (forall|j: int|
            0 <= j < lines.len() ==> match header_field(#[trigger] lines[j]) {
                Some((n, _)) => !eq_ignore_case(n, name),
                None => true,
            }) ==> last_value(lines, name) is None,
        0 <= i < lines.len() && (forall|j: int|
            i < j < lines.len() ==> match header_field(#[trigger] lines[j]) {
                Some((n, _)) => !eq_ignore_case(n, name),
                None => true,
            }) ==> match header_field(lines[i]) {
            Some((n, value)) => eq_ignore_case(n, name) ==> last_value(lines, name) == Some(value),
            None => true,
        },
    decreases lines.len(),
{
    if lines.len() > 0 {
        let last = lines.len() - 1;
        assert(lines.last() == lines[last]);
        let init = lines.drop_last();
        law_last_header_counts(init, name, i);
        assert(forall|j: int| 0 <= j < init.len() ==> init[j] == lines[j]);
    }
}

/// The status code is the second word of the status line. Where it is no number that fits, or where
/// there is no second word, there is an error.
pub proof fn law_status_line(
    lead: Seq<char>,
    version: Seq<char>,
    gap: Seq<char>,
    code: Seq<char>,
    rest: Seq<char>,
)
    requires
        blank(lead),
        blank(gap),
        gap.len() > 0,
        version.len() > 0,
        code.len() > 0,
        forall|i: int| 0 <= i < version.len() ==> !is_whitespace(#[trigger] version[i]),
        forall|i: int| 0 <= i < code.len() ==> !is_whitespace(#[trigger] code[i]),
        rest.len() > 0 ==> is_whitespace(rest[0]),
    ensures
        status_code_of(lead + version + (gap + code + rest)) == match unsigned_value(
            code,
            10,
            65535,
        ) {
            Some(number) => Ok::<u16, ErrorView>(number as u16),
            None => Err(ErrorView::Io("invalid HTTP status code: "@ + u16_error_text(code))),
        },
        status_code_of(lead + version + gap) == Err::<u16, ErrorView>(
            ErrorView::Io("HTTP status line missing code"@),
        ),
        status_code_of(lead) == Err::<u16, ErrorView>(
            ErrorView::Io("HTTP status line missing code"@),
        ),
{
    let after = gap + code + rest;
    assert(after[0] == gap[0]);
    assert(is_whitespace(gap[0]));
    law_words(lead, version, after);
    law_words(gap, code, rest);
    law_words(lead, version, gap);
    assert((seq![version] + (seq![code] + words(rest)))[1] == code);
    assert((seq![version] + words(gap)).len() == 1);
}

/// The lines of a head: the status line, and a line for each of `headers`.
pub open spec fn head_lines(status_line: Seq<char>, headers: Seq<(Seq<char>, Seq<char>)>) -> Seq<
    Seq<char>,
> {
    seq![status_line] + headers.map_values(
        |h: (Seq<char>, Seq<char>)| h.0 + seq![':', ' '] + h.1,
    )
}

/// The bytes of a response: the lines of its head with a line break between them, two line breaks, and
/// the bytes `rest`.
pub open spec fn response_bytes(
    status_line: Seq<char>,
    headers: Seq<(Seq<char>, Seq<char>)>,
    rest: Seq<u8>,
) -> Seq<u8> {
    encode_utf8(interlaced(head_lines(status_line, headers), seq!['\r', '\n'])) + seq![
        13u8,
        10u8,
        13u8,
        10u8,
    ] + rest
}

/// A status line with the version `version`, the code `code` and the reason `reason`.
pub open spec fn status_line(version: Seq<char>, code: u16, reason: Seq<char>) -> Seq<char> {
    version + seq![' '] + decimal(code as nat) + seq![' '] + reason
}

/// Whether a response can be written with these: the version is a word, no name has a colon, and no
/// name and no value has a carriage return or whitespace at an end.
pub open spec fn writable(
    version: Seq<char>,
    reason: Seq<char>,
    headers: Seq<(Seq<char>, Seq<char>)>,
) -> bool {
    &&& version.len() > 0
    &&& forall|i: int| 0 <= i < version.len() ==> !is_whitespace(#[trigger] version[i])
    &&& !reason.contains('\r')
    &&& forall|i: int|
        0 <= i < headers.len() ==> {
            &&& !(#[trigger] headers[i]).0.contains(':')
            &&& !headers[i].0.contains('\r')
            &&& !headers[i].1.contains('\r')
            &&& is_trimmed(headers[i].0)
            &&& is_trimmed(headers[i].1)
        }
}

/// Whether no header from the index `from` on is named `name`, in whatever case.
pub open spec fn none_named(
    headers: Seq<(Seq<char>, Seq<char>)>,
    from: int,
    name: Seq<char>,
) -> bool {
    forall|j: int|
        from <= j < headers.len() ==> !eq_ignore_case((#[trigger] headers[j]).0, name)
}

/// Whether none of `headers` declares the chunked transfer coding.
pub open spec fn unchunked(headers: Seq<(Seq<char>, Seq<char>)>) -> bool {
    forall|j: int|
        0 <= j < headers.len() && eq_ignore_case(
            (#[trigger] headers[j]).0,
            "transfer-encoding"@,
        ) ==> find(lower(headers[j].1), "chunked"@) is None
}

/// Whether the header line `line` is named `name`, in whatever case.
pub open spec fn line_named(line: Seq<char>, name: Seq<char>) -> bool {
    header_field(line) is Some && eq_ignore_case((header_field(line)->0).0, name)
}

/// Whether none of the header lines `lines`, from the index `from` on, is named `name`.
pub open spec fn no_line_named(lines: Seq<Seq<char>>, from: int, name: Seq<char>) -> bool {
    forall|j: int| from <= j < lines.len() ==> !line_named(#[trigger] lines[j], name)
}

/// Lines that are not empty and have no carriage return hold no empty line, nor the start of one.
#[verifier::rlimit(40)]
#[verifier::spinoff_prover]
proof fn lemma_no_early_end(lines: Seq<Seq<char>>, rest: Seq<u8>)
    requires
        lines.len() > 0,
        forall|i: int|
            0 <= i < lines.len() ==> (#[trigger] lines[i]).len() > 0 && !lines[i].contains('\r'),
    ensures
        ({
            let head = encode_utf8(interlaced(lines, seq!['\r', '\n']));
            &&& head.len() > 0
            &&& head[0] != 13
            &&& forall|j: int|
                0 <= j < head.len() ==> !occurs_at(head + head_end() + rest, head_end(), j)
        }),
    decreases lines.len(),
{
    let br = seq!['\r', '\n'];
    let first = encode_utf8(lines[0]);
    let head = encode_utf8(interlaced(lines, br));
    let all = head + head_end() + rest;
    assert(lines[0].len() > 0);
    lemma_encode_without_return(lines[0]);
    assert(head_end()[0] == 13 && head_end()[2] == 13);
    assert forall|j: int| 0 <= j < first.len() implies first[j] != 13 by {
        assert(first.contains(first[j]));
    }
    if lines.len() == 1 {
        assert forall|j: int| 0 <= j < head.len() implies !occurs_at(all, head_end(), j) by {
            law_occurrence(all, head_end(), j);
            if occurs_at(all, head_end(), j) {
                assert(all[j + 0] == head_end()[0]);
                assert(all[j] == first[j]);
            }
        }
    } else {
        let others = lines.skip(1);
        assert forall|i: int| 0 <= i < others.len() implies (#[trigger] others[i]).len() > 0
            && !others[i].contains('\r') by {
            assert(others[i] == lines[i + 1]);
        }
        lemma_no_early_end(others, rest);
        let tail = encode_utf8(interlaced(others, br));
        let after = tail + head_end() + rest;
        assert(is_ascii_chars(br));
        is_ascii_chars_encode_utf8(br);
        assert(br[0] as u8 == 13 && br[1] as u8 == 10);
        assert(encode_utf8(br) =~= seq![13u8, 10u8]);
        assert(interlaced(lines, br) =~= lines[0] + (br + interlaced(others, br)));
        lemma_encode_concat(lines[0], br + interlaced(others, br));
        lemma_encode_concat(br, interlaced(others, br));
        assert(head =~= first + seq![13u8, 10u8] + tail);
        assert(all =~= first + seq![13u8, 10u8] + after);
        let n = first.len() as int;
        assert forall|j: int| 0 <= j < head.len() implies !occurs_at(all, head_end(), j) by {
            law_occurrence(all, head_end(), j);
            if occurs_at(all, head_end(), j) {
                assert(all[j + 0] == head_end()[0]);
                assert(all[j + 2] == head_end()[2]);
                if j < n {
                    assert(all[j] == first[j]);
                } else if j == n {
                    assert(all[j + 2] == tail[0]);
                } else if j == n + 1 {
                    assert(all[j] == 10);
                } else {
                    let k = j - n - 2;
                    assert(all.subrange(j, j + 4) =~= after.subrange(k, k + 4));
                    assert(occurs_at(after, head_end(), k));
                }
            }
        }
    }
}

/// What is read of a head, line by line: where it ends, the status code that its first line gives, and
/// the value of the last line with a name that counts, in whatever case it is written. Lines with other
/// names, and lines without a name, make no difference.
#[verifier::spinoff_prover]
pub proof fn law_head_is_read(
    status_line: Seq<char>,
    lines: Seq<Seq<char>>,
    rest: Seq<u8>,
    i: int,
)
    requires
        status_line.len() > 0,
        !status_line.contains('\r'),
        forall|j: int|
            0 <= j < lines.len() ==> (#[trigger] lines[j]).len() > 0 && !lines[j].contains('\r'),
    ensures
        ({
            let head = encode_utf8(interlaced(seq![status_line] + lines, seq!['\r', '\n']));
            let response = head + seq![13u8, 10u8, 13u8, 10u8] + rest;
            let last = |name: Seq<char>| 0 <= i < lines.len() && line_named(lines[i], name)
                && no_line_named(lines, i + 1, name);
            match status_code_of(status_line) {
                Err(error) => metadata(response) == Err::<Option<MetadataView>, ErrorView>(error),
                Ok(code) => {
                    &&& metadata(response) matches Ok(Some(m))
                    &&& m.header_end == head.len()
                    &&& m.status_code == code
                    &&& last("etag"@) ==> m.fields.etag == Some((header_field(lines[i])->0).1)
                    &&& no_line_named(lines, 0, "etag"@) ==> m.fields.etag is None
                    &&& last("last-modified"@) ==> m.fields.last_modified == Some(
                        (header_field(lines[i])->0).1,
                    )
                    &&& no_line_named(lines, 0, "last-modified"@) ==> m.fields.last_modified is None
                    &&& last("content-length"@) ==> m.fields.content_length == unsigned_value(
                        (header_field(lines[i])->0).1,
                        10,
                        usize::MAX as nat,
                    )
                    &&& no_line_named(lines, 0, "content-length"@) ==> m.fields.content_length is None
                    &&& 0 <= i < lines.len() && line_named(lines[i], "transfer-encoding"@) && find(
                        lower((header_field(lines[i])->0).1),
                        "chunked"@,
                    ) is Some ==> m.fields.chunked
                    &&& (forall|j: int|
                        0 <= j < lines.len() && line_named(
                            #[trigger] lines[j],
                            "transfer-encoding"@,
                        ) ==> find(lower((header_field(lines[j])->0).1), "chunked"@) is None)
                        ==> !m.fields.chunked
                },
            }
        }),
{
    let br = seq!['\r', '\n'];
    let all = seq![status_line] + lines;
    let text = interlaced(all, br);
    let head = encode_utf8(text);
    let response = head + seq![13u8, 10u8, 13u8, 10u8] + rest;
    assert forall|j: int| 0 <= j < all.len() implies (#[trigger] all[j]).len() > 0
        && !all[j].contains('\r') by {
        if j > 0 {
            assert(all[j] == lines[j - 1]);
        }
    }
    lemma_no_early_end(all, rest);
    let at = head.len() as int;
    assert(response =~= head + head_end() + rest);
    assert(response.subrange(at, at + 4) =~= head_end());
    lemma_find_from_unique(response, head_end(), 0, at);
    assert(response.take(at) =~= head);
    encode_utf8_valid_utf8(text);
    encode_utf8_decode_utf8(text);
    law_lines_split(all);
    assert(line_break() =~= br);
    assert(split(text, line_break()) == all);
    assert(all[0] == status_line);
    assert(all.skip(1) =~= lines);
    law_last_header_counts(lines, "etag"@, i);
    law_last_header_counts(lines, "last-modified"@, i);
    law_last_header_counts(lines, "content-length"@, i);
    if 0 <= i < lines.len() && line_named(lines[i], "transfer-encoding"@) && find(
        lower((header_field(lines[i])->0).1),
        "chunked"@,
    ) is Some {
        assert(declares_chunked(lines[i]));
    }
}

/// What is read of a head that was written: where it ends, its status code, and the values of the
/// headers, by their names and in whatever case these are written.
#[verifier::spinoff_prover]
pub proof fn law_written_head_is_read(
    version: Seq<char>,
    code: u16,
    reason: Seq<char>,
    headers: Seq<(Seq<char>, Seq<char>)>,
    rest: Seq<u8>,
    i: int,
)
    requires
        writable(version, reason, headers),
    ensures
        ({
            let response = response_bytes(status_line(version, code, reason), headers, rest);
            let last = |name: Seq<char>| 0 <= i < headers.len() && eq_ignore_case(
                headers[i].0,
                name,
            ) && none_named(headers, i + 1, name);
            &&& metadata(response) matches Ok(Some(m))
            &&& 0 <= m.header_end
            &&& m.header_end + 4 + rest.len() == response.len()
            &&& response.skip(m.header_end + 4) == rest
            &&& m.status_code == code
            &&& last("etag"@) ==> m.fields.etag == Some(headers[i].1)
            &&& none_named(headers, 0, "etag"@) ==> m.fields.etag is None
            &&& last("last-modified"@) ==> m.fields.last_modified == Some(headers[i].1)
            &&& none_named(headers, 0, "last-modified"@) ==> m.fields.last_modified is None
            &&& last("content-length"@) ==> m.fields.content_length == unsigned_value(
                headers[i].1,
                10,
                usize::MAX as nat,
            )
            &&& none_named(headers, 0, "content-length"@) ==> m.fields.content_length is None
            &&& unchunked(headers) ==> !m.fields.chunked
            &&& 0 <= i < headers.len() && eq_ignore_case(headers[i].0, "transfer-encoding"@)
                && find(lower(headers[i].1), "chunked"@) is Some ==> m.fields.chunked
        }),
{
    let line = status_line(version, code, reason);
    let lines = head_lines(line, headers);
    let fields = lines.skip(1);
    let response = response_bytes(line, headers, rest);
    let digits = decimal(code as nat);
    let none = Seq::<char>::empty();
    let space = seq![' '];
    lemma_decimal_digits(code as nat);
    assert forall|j: int| 0 <= j < digits.len() implies !is_whitespace(#[trigger] digits[j]) by {}
    assert forall|k: int| 0 <= k < line.len() implies line[k] != '\r' by {
        let v = version.len() as int;
        let d = digits.len() as int;
        if k < v {
            assert(!is_whitespace(version[k]));
        } else if k == v {
        } else if k < v + 1 + d {
            assert(line[k] == digits[k - v - 1]);
        } else if k == v + 1 + d {
        } else {
            assert(line[k] == reason[k - v - d - 2]);
            assert(reason.contains(reason[k - v - d - 2]));
        }
    }
    assert forall|j: int| 0 <= j < fields.len() implies (#[trigger] fields[j]).len() > 0
        && !fields[j].contains('\r') && header_field(fields[j]) == Some(headers[j]) by {
        let h = headers[j];
        let l = h.0 + seq![':', ' '] + h.1;
        assert(fields[j] == lines[j + 1]);
        assert(fields[j] == l);
        assert forall|k: int| 0 <= k < l.len() implies l[k] != '\r' by {
            if k < h.0.len() {
                assert(h.0.contains(h.0[k]));
            } else if k >= h.0.len() + 2 {
                assert(h.1.contains(h.1[k - h.0.len() - 2]));
            }
        }
        law_header_line(none, h.0, none, space, h.1, none);
        assert(none + h.0 + none + seq![':'] + (space + h.1 + none) =~= l);
        assert(h == (h.0, h.1));
    }
    assert(fields.len() == headers.len());
    law_status_line(none, version, space, digits, space + reason);
    assert(none + version + (space + digits + (space + reason)) =~= line);
    law_decimal_reads_back(code as nat, 65535);
    assert(seq![line] + fields =~= lines);
    law_head_is_read(line, fields, rest, i);
    let at = encode_utf8(interlaced(lines, seq!['\r', '\n'])).len() as int;
    assert(response.skip(at + 4) =~= rest);
    let names = seq!["etag"@, "last-modified"@, "content-length"@];
    assert forall|from: int, k: int|
        0 <= from && 0 <= k < 3 && none_named(headers, from, names[k]) implies #[trigger] no_line_named(
        fields,
        from,
        names[k],
    ) by {
        assert forall|j: int| from <= j < fields.len() implies !line_named(
            #[trigger] fields[j],
            names[k],
        ) by {
            assert(header_field(fields[j]) == Some(headers[j]));
        }
    }
    assert(names[0] == "etag"@ && names[1] == "last-modified"@ && names[2] == "content-length"@);
    assert(none_named(headers, 0, names[0]) ==> no_line_named(fields, 0, names[0]));
    assert(none_named(headers, 0, names[1]) ==> no_line_named(fields, 0, names[1]));
    assert(none_named(headers, 0, names[2]) ==> no_line_named(fields, 0, names[2]));
    if 0 <= i < headers.len() {
        assert(header_field(fields[i]) == Some(headers[i]));
        assert(none_named(headers, i + 1, names[0]) ==> no_line_named(fields, i + 1, names[0]));
        assert(none_named(headers, i + 1, names[1]) ==> no_line_named(fields, i + 1, names[1]));
        assert(none_named(headers, i + 1, names[2]) ==> no_line_named(fields, i + 1, names[2]));
    }
    if unchunked(headers) {
        assert forall|j: int|
            0 <= j < fields.len() && line_named(#[trigger] fields[j], "transfer-encoding"@) implies find(
            lower((header_field(fields[j])->0).1),
            "chunked"@,
        ) is None by {
            assert(header_field(fields[j]) == Some(headers[j]));
        }
    }
}

/// The body of a response whose only length line gives the length of a payload in decimal notation is
/// that payload, byte for byte, whatever the payload is and whatever follows it. The response is
/// complete with the last byte of the payload and not before, and cut off earlier it is an error.
#[verifier::spinoff_prover]
pub proof fn law_body_by_length(
    version: Seq<char>,
    code: u16,
    reason: Seq<char>,
    headers: Seq<(Seq<char>, Seq<char>)>,
    i: int,
    payload: Seq<u8>,
    more: Seq<u8>,
    k: int,
)
    requires
        writable(version, reason, headers),
        0 <= i < headers.len(),
        eq_ignore_case(headers[i].0, "content-length"@),
        headers[i].1 == decimal(payload.len()),
        none_named(headers, i + 1, "content-length"@),
        unchunked(headers),
        payload.len() <= usize::MAX,
    ensures
        ({
            let line = status_line(version, code, reason);
            let whole = response_bytes(line, headers, payload);
            &&& parsed(response_bytes(line, headers, payload + more)) matches Ok(response)
            &&& response.body == payload
            &&& response.status_code == code
            &&& complete_len(response_bytes(line, headers, payload + more)) == Ok::<
                Option<int>,
                ErrorView,
            >(Some(whole.len() as int))
            &&& 0 <= k < whole.len() ==> complete_len(whole.take(k)) == Ok::<
                Option<int>,
                ErrorView,
            >(None)
            &&& 0 <= k < payload.len() ==> parsed(response_bytes(line, headers, payload.take(k)))
                == Err::<HttpResponseView, ErrorView>(
                ErrorView::Io(
                    "HTTP body shorter than declared Content-Length ("@ + decimal(payload.len())
                        + ")"@,
                ),
            )
        }),
{
    let line = status_line(version, code, reason);
    let whole = response_bytes(line, headers, payload);
    let none = Seq::<u8>::empty();
    lemma_length_decides(version, code, reason, headers, i, payload.len(), payload + more);
    lemma_length_decides(version, code, reason, headers, i, payload.len(), payload + none);
    assert((payload + more).take(payload.len() as int) =~= payload);
    assert(payload + none =~= payload);
    assert(whole.len() + more.len() == response_bytes(line, headers, payload + more).len());
    if 0 <= k < payload.len() {
        lemma_length_decides(version, code, reason, headers, i, payload.len(), payload.take(k));
    }
    if 0 <= k < whole.len() {
        lemma_incomplete(whole, k);
    }
}

/// What the length that a response declares decides of the bytes after its head.
#[verifier::spinoff_prover]
proof fn lemma_length_decides(
    version: Seq<char>,
    code: u16,
    reason: Seq<char>,
    headers: Seq<(Seq<char>, Seq<char>)>,
    i: int,
    len: nat,
    rest: Seq<u8>,
)
    requires
        writable(version, reason, headers),
        0 <= i < headers.len(),
        eq_ignore_case(headers[i].0, "content-length"@),
        headers[i].1 == decimal(len),
        none_named(headers, i + 1, "content-length"@),
        unchunked(headers),
        len <= usize::MAX,
    ensures
        ({
            let response = response_bytes(status_line(version, code, reason), headers, rest);
            if len <= rest.len() {
                &&& parsed(response) matches Ok(r)
                &&& r.body == rest.take(len as int)
                &&& r.status_code == code
                &&& complete_len(response) == Ok::<Option<int>, ErrorView>(
                    Some(response.len() - rest.len() + len),
                )
            } else {
                parsed(response) == Err::<HttpResponseView, ErrorView>(
                    ErrorView::Io(
                        "HTTP body shorter than declared Content-Length ("@ + decimal(len) + ")"@,
                    ),
                )
            }
        }),
{
    let response = response_bytes(status_line(version, code, reason), headers, rest);
    law_written_head_is_read(version, code, reason, headers, rest, i);
    law_decimal_reads_back(len, usize::MAX as nat);
    let m = metadata(response)->Ok_0->Some_0;
    lemma_head_decides(response, m, rest);
}

/// The body of a response that declares the chunked coding, in whatever case, is what was written in
/// chunks, piece after piece and byte for byte, whatever follows it and whatever length is declared.
/// The response is complete with its last chunk and not before.
#[verifier::spinoff_prover]
pub proof fn law_body_in_chunks(
    version: Seq<char>,
    code: u16,
    reason: Seq<char>,
    headers: Seq<(Seq<char>, Seq<char>)>,
    i: int,
    pieces: Seq<Seq<u8>>,
    more: Seq<u8>,
    k: int,
)
    requires
        writable(version, reason, headers),
        0 <= i < headers.len(),
        eq_ignore_case(headers[i].0, "transfer-encoding"@),
        find(lower(headers[i].1), "chunked"@) is Some,
        forall|j: int| 0 <= j < pieces.len() ==> (#[trigger] pieces[j]).len() > 0,
        in_chunks(pieces).len() <= usize::MAX,
    ensures
        ({
            let line = status_line(version, code, reason);
            let whole = response_bytes(line, headers, in_chunks(pieces));
            &&& parsed(response_bytes(line, headers, in_chunks(pieces) + more)) matches Ok(response)
            &&& response.body == pieces.flatten()
            &&& response.status_code == code
            &&& complete_len(response_bytes(line, headers, in_chunks(pieces) + more)) == Ok::<
                Option<int>,
                ErrorView,
            >(Some(whole.len() as int))
            &&& 0 <= k < whole.len() ==> complete_len(whole.take(k)) == Ok::<
                Option<int>,
                ErrorView,
            >(None)
        }),
{
    let line = status_line(version, code, reason);
    let whole = response_bytes(line, headers, in_chunks(pieces));
    let none = Seq::<u8>::empty();
    law_chunks_decide(version, code, reason, headers, i, in_chunks(pieces) + more);
    law_chunks_decide(version, code, reason, headers, i, in_chunks(pieces));
    if pieces.len() > 0 {
        assert(in_chunks(pieces).len() > 0);
    }
    law_written_chunks_are_read(pieces, more, 0);
    law_written_chunks_are_read(pieces, none, 0);
    assert(in_chunks(pieces) + none =~= in_chunks(pieces));
    assert(whole.len() + more.len() == response_bytes(
        line,
        headers,
        in_chunks(pieces) + more,
    ).len());
    if 0 <= k < whole.len() {
        lemma_incomplete(whole, k);
    }
}

/// The body of a response that declares neither a length nor chunks is all that follows the head, byte
/// for byte, and only the end of the stream ends it. A length that is no number declares nothing.
#[verifier::spinoff_prover]
pub proof fn law_body_to_the_end(
    version: Seq<char>,
    code: u16,
    reason: Seq<char>,
    headers: Seq<(Seq<char>, Seq<char>)>,
    i: int,
    payload: Seq<u8>,
)
    requires
        writable(version, reason, headers),
        none_named(headers, 0, "content-length"@) || (0 <= i < headers.len() && eq_ignore_case(
            headers[i].0,
            "content-length"@,
        ) && none_named(headers, i + 1, "content-length"@) && unsigned_value(
            headers[i].1,
            10,
            usize::MAX as nat,
        ) is None),
        unchunked(headers),
    ensures
        ({
            let whole = response_bytes(status_line(version, code, reason), headers, payload);
            &&& parsed(whole) matches Ok(response)
            &&& response.body == payload
            &&& response.status_code == code
            &&& complete_len(whole) == Ok::<Option<int>, ErrorView>(None)
        }),
{
    let whole = response_bytes(status_line(version, code, reason), headers, payload);
    law_written_head_is_read(version, code, reason, headers, payload, i);
    lemma_head_decides(whole, metadata(whole)->Ok_0->Some_0, payload);
}

/// The validators of a response are the values of its last `ETag` and its last `Last-Modified` line, as
/// they were written, and are missing where there is no such line.
#[verifier::spinoff_prover]
pub proof fn law_validators_are_read(
    version: Seq<char>,
    code: u16,
    reason: Seq<char>,
    headers: Seq<(Seq<char>, Seq<char>)>,
    rest: Seq<u8>,
    i: int,
)
    requires
        writable(version, reason, headers),
    ensures
        parsed(response_bytes(status_line(version, code, reason), headers, rest)) matches Ok(
            response,
        ) ==> {
            &&& 0 <= i < headers.len() && eq_ignore_case(headers[i].0, "etag"@) && none_named(
                headers,
                i + 1,
                "etag"@,
            ) ==> response.etag == Some(headers[i].1)
            &&& none_named(headers, 0, "etag"@) ==> response.etag is None
            &&& 0 <= i < headers.len() && eq_ignore_case(headers[i].0, "last-modified"@)
                && none_named(headers, i + 1, "last-modified"@) ==> response.last_modified == Some(
                headers[i].1,
            )
            &&& none_named(headers, 0, "last-modified"@) ==> response.last_modified is None
        },
{
    law_written_head_is_read(version, code, reason, headers, rest, i);
}

/// Bytes without an empty line hold no head, a head that is not UTF-8 is an error, and so is one without
/// a status code, whatever follows it.
#[verifier::spinoff_prover]
pub proof fn law_no_response(head: Seq<u8>, rest: Seq<u8>, error: ErrorView)
    requires
        forall|j: int|
            0 <= j < head.len() ==> !occurs_at(
                head + seq![13u8, 10u8, 13u8, 10u8] + rest,
                seq![13u8, 10u8, 13u8, 10u8],
                j,
            ),
    ensures
        ({
            let whole = head + seq![13u8, 10u8, 13u8, 10u8] + rest;
            &&& metadata(head) == Ok::<Option<MetadataView>, ErrorView>(None)
            &&& complete_len(head) == Ok::<Option<int>, ErrorView>(None)
            &&& parsed(head) == Err::<HttpResponseView, ErrorView>(
                ErrorView::Io("HTTP response missing header terminator"@),
            )
            &&& (if valid_utf8(head) {
                status_code_of(split(decode_utf8(head), seq!['\r', '\n'])[0]) == Err::<
                    u16,
                    ErrorView,
                >(error)
            } else {
                error == ErrorView::Io(
                    "HTTP headers were not valid UTF-8: "@ + utf8_error_text(head),
                )
            }) ==> {
                &&& metadata(whole) == Err::<Option<MetadataView>, ErrorView>(error)
                &&& complete_len(whole) == Err::<Option<int>, ErrorView>(error)
                &&& parsed(whole) == Err::<HttpResponseView, ErrorView>(error)
            }
        }),
{
    let end = seq![13u8, 10u8, 13u8, 10u8];
    let whole = head + end + rest;
    let at = head.len() as int;
    assert(end =~= head_end());
    assert(whole.subrange(at, at + 4) =~= head_end());
    lemma_find_from_unique(whole, head_end(), 0, at);
    assert(whole.take(at) =~= head);
    lemma_find_from(head, head_end(), 0);
    if let Some(j) = find(head, head_end()) {
        assert(whole.subrange(j, j + 4) =~= head.subrange(j, j + 4));
        assert(occurs_at(whole, end, j));
    }
    assert(line_break() =~= seq!['\r', '\n']);
}

/// A body is one of success exactly for the status codes from 200 to 299. For any other it is an error
/// with that status and the body as text, and an error stays what it is.
pub proof fn law_only_success_has_a_body(response: HttpResponseView, error: ErrorView)
    ensures
        200 <= response.status_code <= 299 ==> fetched_body(Ok(response)) == Ok::<
            Seq<u8>,
            ErrorView,
        >(response.body),
        !(200 <= response.status_code <= 299) ==> fetched_body(Ok(response)) == Err::<
            Seq<u8>,
            ErrorView,
        >(ErrorView::Http { status: response.status_code, body: lossy_text(response.body) }),
        fetched_body(Err(error)) == Err::<Seq<u8>, ErrorView>(error),
        success_body(response) == fetched_body(Ok(response)),
{
}

/// A request without further headers asks for the path, as it is, at the host, as it is. Each further
/// header is a line of its own, its name, a colon and its value, before the empty line at the end.
pub proof fn law_request_is_written(
    host: Seq<char>,
    path: Seq<char>,
    headers: Seq<(Seq<char>, Seq<char>)>,
    name: Seq<char>,
    value: Seq<char>,
)
    ensures
        request_text(host, path, seq![]) == "GET "@ + path + " HTTP/1.1\r\nHost: "@ + host
            + "\r\nAccept: */*\r\nConnection: close\r\nUser-Agent: vzglyd_sidecar/0.1\r\n\r\n"@,
        request_text(host, path, headers).len() >= 2,
        request_text(host, path, headers.push((name, value))) == request_text(
            host,
            path,
            headers,
        ).take(request_text(host, path, headers).len() - 2) + name + ": "@ + value + "\r\n\r\n"@,
{
    reveal_strlit("\r\n");
    reveal_strlit("\r\n\r\n");
    reveal_strlit("\r\nAccept: */*\r\nConnection: close\r\nUser-Agent: vzglyd_sidecar/0.1\r\n");
    reveal_strlit("\r\nAccept: */*\r\nConnection: close\r\nUser-Agent: vzglyd_sidecar/0.1\r\n\r\n");
    let more = headers.push((name, value));
    assert(more.drop_last() =~= headers);
    assert("\r\n\r\n"@ =~= "\r\n"@ + "\r\n"@);
    assert("\r\nAccept: */*\r\nConnection: close\r\nUser-Agent: vzglyd_sidecar/0.1\r\n\r\n"@
        =~= "\r\nAccept: */*\r\nConnection: close\r\nUser-Agent: vzglyd_sidecar/0.1\r\n"@
        + "\r\n"@);
    assert(request_text(host, path, seq![]) =~= "GET "@ + path + " HTTP/1.1\r\nHost: "@ + host
        + "\r\nAccept: */*\r\nConnection: close\r\nUser-Agent: vzglyd_sidecar/0.1\r\n\r\n"@);
    let all = request_text(host, path, headers);
    let open = "GET "@ + path + " HTTP/1.1\r\nHost: "@ + host
        + "\r\nAccept: */*\r\nConnection: close\r\nUser-Agent: vzglyd_sidecar/0.1\r\n"@
        + header_lines(headers);
    assert(all =~= open + "\r\n"@);
    assert(all.take(all.len() - 2) =~= open);
    assert(request_text(host, path, more) =~= open + name + ": "@ + value + "\r\n\r\n"@);
}

/// A response and its headers are seen whole.
pub proof fn law_response_is_seen_whole(response: HttpResponse, headers: Seq<(String, String)>, i: int)
    ensures
        response@.status_code == response.status_code,
        response@.body == response.body@,
        response@.etag == (match response.etag {
            Some(value) => Some(value@),
            None => None,
        }),
        response@.last_modified == (match response.last_modified {
            Some(value) => Some(value@),
            None => None,
        }),
        pairs_text(headers).len() == headers.len(),
        0 <= i < headers.len() ==> pairs_text(headers)[i] == (headers[i].0@, headers[i].1@),
{
}

/// The body of a response that declares the chunked coding is what its chunks decode to, and the response
/// ends where they end. Where they are broken, their error is that of the response.
#[verifier::spinoff_prover]
pub proof fn law_chunks_decide(
    version: Seq<char>,
    code: u16,
    reason: Seq<char>,
    headers: Seq<(Seq<char>, Seq<char>)>,
    i: int,
    rest: Seq<u8>,
)
    requires
        writable(version, reason, headers),
        0 <= i < headers.len(),
        eq_ignore_case(headers[i].0, "transfer-encoding"@),
        find(lower(headers[i].1), "chunked"@) is Some,
    ensures
        ({
            let whole = response_bytes(status_line(version, code, reason), headers, rest);
            &&& match decoded(rest, 0) {
                Ok(body) => parsed(whole) matches Ok(response) && response.body == body
                    && response.status_code == code,
                Err(error) => parsed(whole) == Err::<HttpResponseView, ErrorView>(error),
            }
            &&& match wire_len(rest, 0) {
                Ok(Some(len)) => complete_len(whole) == Ok::<Option<int>, ErrorView>(
                    Some(whole.len() - rest.len() + len),
                ),
                Ok(None) => complete_len(whole) == Ok::<Option<int>, ErrorView>(None),
                Err(error) => complete_len(whole) == Err::<Option<int>, ErrorView>(error),
            }
        }),
{
    law_written_head_is_read(version, code, reason, headers, rest, i);
}

/// The header value that declares chunks is one in which the word stands, in whatever case and whatever
/// stands around it.
pub proof fn law_chunked_is_declared(lead: Seq<char>, word: Seq<char>, tail: Seq<char>)
    requires
        eq_ignore_case(word, "chunked"@),
    ensures
        find(lower(lead + word + tail), "chunked"@) is Some,
{
    let value = lower(lead + word + tail);
    let pattern = "chunked"@;
    reveal_strlit("chunked");
    assert(lower(pattern) =~= pattern);
    let at = lead.len() as int;
    assert(lower(word).len() == word.len());
    assert(value.subrange(at, at + pattern.len()) =~= lower(word));
    lemma_find_from(value, pattern, 0);
    assert(occurs_at(value, pattern, at));
}

} // verus!
