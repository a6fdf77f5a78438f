//! The chunked transfer coding of HTTP/1.1 bodies.

use vstd::prelude::*;
use vstd::slice::slice_subrange;
use vstd::string::*;
use vstd::utf8::{
    decode_utf8, encode_utf8, encode_utf8_decode_utf8, encode_utf8_valid_utf8, is_ascii_chars,
    is_ascii_chars_encode_utf8, valid_utf8,
};

use crate::encoding::{utf8_error_text, utf8_str};
use crate::error::{Error, ErrorView};
use crate::number::{
    digit_value, digits_value, hex_error_text, parse_hex, unsigned_value, writes_digit,
};
use crate::text::{
    before, before_chars, blank, chars_of, find_from, find_in, is_trimmed, is_whitespace, join2,
    join3, law_occurrence, law_split_once, law_trim, lemma_find_cut, lemma_find_extends,
    lemma_find_from, lemma_find_from_unique, occurs_at, string_of, trim, trim_chars,
};

verus! {

/// The line break of HTTP, in bytes.
pub open spec fn crlf() -> Seq<u8> {
    seq![13u8, 10u8]
}

/// The size that a chunk's size line declares: a hexadecimal number, with whitespace around it and
/// an extension after a semicolon left aside.
pub open spec fn chunk_size(line: Seq<u8>) -> Result<nat, ErrorView> {
    if valid_utf8(line) {
        let digits = trim(before(decode_utf8(line), ';'));
        match unsigned_value(digits, 16, usize::MAX as nat) {
            Some(size) => Ok(size),
            None => Err(
                ErrorView::Io("invalid chunk size '"@ + digits + "': "@ + hex_error_text(digits)),
            ),
        }
    } else {
        Err(ErrorView::Io("chunk size line was not valid UTF-8: "@ + utf8_error_text(line)))
    }
}

/// The error for a chunk size that takes the position in the body past `usize::MAX`.
pub open spec fn size_overflow() -> ErrorView {
    ErrorView::Io("chunk size overflowed response body"@)
}

/// The error for a chunk without a line break after its payload.
pub open spec fn payload_unterminated() -> ErrorView {
    ErrorView::Io("chunked body missing CRLF after chunk payload"@)
}

/// How many bytes of `body` the chunks from `cursor` on take up, counted from the start of `body`:
/// `None` while the last chunk, or the line break after it, has not arrived in full.
pub open spec fn wire_len(body: Seq<u8>, cursor: int) -> Result<Option<int>, ErrorView>
    decreases body.len() - cursor,
{
    match find_from(body, crlf(), cursor) {
        None => Ok(None),
        Some(line_end) => match chunk_size(body.subrange(cursor, line_end)) {
            Err(error) => Err(error),
            Ok(size) => {
                let start = line_end + 2;
                let end = start + size;
                if size == 0 {
                    if occurs_at(body, crlf(), start) {
                        Ok(Some(start + 2))
                    } else {
                        Ok(None)
                    }
                } else if end > usize::MAX {
                    Err(size_overflow())
                } else if end + 2 > body.len() {
                    Ok(None)
                } else if !occurs_at(body, crlf(), end) {
                    Err(payload_unterminated())
                } else {
                    proof {
                        lemma_find_from(body, crlf(), cursor);
                    }
                    wire_len(body, end + 2)
                }
            },
        },
    }
}

/// The payloads of the chunks of `body` from `cursor` on, one after the other.
pub open spec fn decoded(body: Seq<u8>, cursor: int) -> Result<Seq<u8>, ErrorView>
    decreases body.len() - cursor,
{
    match find_from(body, crlf(), cursor) {
        None => Err(ErrorView::Io("chunked body missing size delimiter"@)),
        Some(line_end) => match chunk_size(body.subrange(cursor, line_end)) {
            Err(error) => Err(error),
            Ok(size) => {
                let start = line_end + 2;
                let end = start + size;
                if size == 0 {
                    Ok(seq![])
                } else if end > usize::MAX {
                    Err(size_overflow())
                } else if end > body.len() {
                    Err(ErrorView::Io("chunked body ended before chunk payload completed"@))
                } else if !occurs_at(body, crlf(), end) {
                    Err(payload_unterminated())
                } else {
                    proof {
                        lemma_find_from(body, crlf(), cursor);
                    }
                    match decoded(body, end + 2) {
                        Ok(rest) => Ok(body.subrange(start, end) + rest),
                        Err(error) => Err(error),
                    }
                }
            },
        },
    }
}

/// The size that the chunk size line `line` declares.
fn chunk_line_size(line: &[u8]) -> (r: Result<usize, Error>)
    ensures
        match r {
            Ok(size) => chunk_size(line@) == Ok::<nat, ErrorView>(size as nat),
            Err(error) => chunk_size(line@) == Err::<nat, ErrorView>(error@),
        },
{
    match utf8_str(line) {
        Err(error) => Err(
            Error::Io(join2("chunk size line was not valid UTF-8: ", error.as_str())),
        ),
        Ok(text) => {
            let chars = chars_of(text);
            let digits = string_of(trim_chars(before_chars(chars.as_slice(), ';')));
            match parse_hex(digits.as_str()) {
                Ok(size) => Ok(size),
                Err(error) => {
                    let head = join3("invalid chunk size '", digits.as_str(), "': ");
                    Err(Error::Io(join2(head.as_str(), error.as_str())))
                },
            }
        },
    }
}

/// Whether a line break stands in `body` at index `i`.
fn crlf_at(body: &[u8], i: usize) -> (r: bool)
    ensures
        r == occurs_at(body@, crlf(), i as int),
{
    if i < body.len() && body.len() - i >= 2 {
        let r = body[i] == 13 && body[i + 1] == 10;
        let ghost pair = body@.subrange(i as int, i + 2);
        assert(pair[0] == body@[i as int] && pair[1] == body@[i + 1]);
        assert(r ==> pair =~= crlf());
        assert(pair =~= crlf() ==> pair[0] == 13 && pair[1] == 10);
        r
    } else {
        false
    }
}

/// The length of a chunked body in bytes, from its first size line to the line break after the last
/// chunk: `None` while it is incomplete.
pub fn chunked_wire_len(body: &[u8]) -> (r: Result<Option<usize>, Error>)
    ensures
        match r {
            Ok(Some(len)) => wire_len(body@, 0) == Ok::<Option<int>, ErrorView>(Some(len as int)),
            Ok(None) => wire_len(body@, 0) == Ok::<Option<int>, ErrorView>(None),
            Err(error) => wire_len(body@, 0) == Err::<Option<int>, ErrorView>(error@),
        },
{
    let pattern: [u8; 2] = [13, 10];
    assert(pattern@ =~= crlf());
    assert(body@.len() == body.len());
    let mut cursor: usize = 0;
    loop
        invariant
            cursor <= body@.len(),
            body@.len() <= usize::MAX,
            pattern@ == crlf(),
            wire_len(body@, 0) == wire_len(body@, cursor as int),
        decreases body@.len() - cursor,
    {
        let line_end: usize = match find_in(body, &pattern, cursor) {
            None => {
                return Ok(None);
            },
            Some(line_end) => line_end,
        };
        proof {
            lemma_find_from(body@, crlf(), cursor as int);
        }
        let size: usize = match chunk_line_size(slice_subrange(body, cursor, line_end)) {
            Err(error) => {
                return Err(error);
            },
            Ok(size) => size,
        };
        let start: usize = line_end + 2;
        if size == 0 {
            if crlf_at(body, start) {
                return Ok(Some(start + 2));
            }
            return Ok(None);
        }
        let end: usize = match start.checked_add(size) {
            None => {
                return Err(Error::Io("chunk size overflowed response body".to_owned()));
            },
            Some(end) => end,
        };
        if end > body.len() || body.len() - end < 2 {
            return Ok(None);
        }
        if !crlf_at(body, end) {
            return Err(Error::Io("chunked body missing CRLF after chunk payload".to_owned()));
        }
        cursor = end + 2;
    }
}

/// The payload of a chunked body.
pub fn decode_chunked_body(body: &[u8]) -> (r: Result<Vec<u8>, Error>)
    ensures
        match r {
            Ok(payload) => decoded(body@, 0) == Ok::<Seq<u8>, ErrorView>(payload@),
            Err(error) => decoded(body@, 0) == Err::<Seq<u8>, ErrorView>(error@),
        },
{
    let pattern: [u8; 2] = [13, 10];
    assert(pattern@ =~= crlf());
    assert(body@.len() == body.len());
    let mut cursor: usize = 0;
    let mut payload: Vec<u8> = Vec::new();
    assert(decoded(body@, 0) matches Ok(rest) ==> payload@ + rest =~= rest);
    loop
        invariant
            cursor <= body@.len(),
            body@.len() <= usize::MAX,
            pattern@ == crlf(),
            match decoded(body@, cursor as int) {
                Ok(rest) => decoded(body@, 0) == Ok::<Seq<u8>, ErrorView>(payload@ + rest),
                Err(error) => decoded(body@, 0) == Err::<Seq<u8>, ErrorView>(error),
            },
        decreases body@.len() - cursor,
    {
        let line_end: usize = match find_in(body, &pattern, cursor) {
            None => {
                return Err(Error::Io("chunked body missing size delimiter".to_owned()));
            },
            Some(line_end) => line_end,
        };
        proof {
            lemma_find_from(body@, crlf(), cursor as int);
        }
        let size: usize = match chunk_line_size(slice_subrange(body, cursor, line_end)) {
            Err(error) => {
                return Err(error);
            },
            Ok(size) => size,
        };
        let start: usize = line_end + 2;
        if size == 0 {
            assert(payload@ + Seq::<u8>::empty() =~= payload@);
            return Ok(payload);
        }
        let end: usize = match start.checked_add(size) {
            None => {
                return Err(Error::Io("chunk size overflowed response body".to_owned()));
            },
            Some(end) => end,
        };
        if end > body.len() {
            return Err(Error::Io("chunked body ended before chunk payload completed".to_owned()));
        }
        if !crlf_at(body, end) {
            return Err(Error::Io("chunked body missing CRLF after chunk payload".to_owned()));
        }
        let ghost before_chunk = payload@;
        let chunk = slice_subrange(body, start, end);
        payload.extend_from_slice(chunk);
        proof {
            assert(payload@ =~= before_chunk + chunk@);
            if let Ok(rest) = decoded(body@, end + 2) {
                assert(before_chunk + (chunk@ + rest) =~= payload@ + rest);
            }
        }
        cursor = end + 2;
    }
}

/// A complete chunked body lies within the bytes at hand.
pub proof fn lemma_wire_len_bounds(body: Seq<u8>, cursor: int)
    requires
        0 <= cursor,
    ensures
        wire_len(body, cursor) matches Ok(Some(len)) ==> cursor < len <= body.len(),
    decreases body.len() - cursor,
{
    lemma_find_from(body, crlf(), cursor);
    if let Some(line_end) = find_from(body, crlf(), cursor) {
        if let Ok(size) = chunk_size(body.subrange(cursor, line_end)) {
            let end = line_end + 2 + size;
            if size != 0 && end <= usize::MAX && occurs_at(body, crlf(), end) {
                lemma_wire_len_bounds(body, end + 2);
            }
        }
    }
}

/// Bytes that arrive later change neither the length of a complete chunked body nor the error of a
/// broken one.
pub proof fn law_wire_len_stable(body: Seq<u8>, more: Seq<u8>, cursor: int)
    requires
        0 <= cursor,
    ensures
        wire_len(body, cursor) != Ok::<Option<int>, ErrorView>(None) ==> wire_len(
            body + more,
            cursor,
        ) == wire_len(body, cursor),
    decreases body.len() - cursor,
{
    let all = body + more;
    lemma_find_from(body, crlf(), cursor);
    lemma_find_extends(body, more, crlf(), cursor);
    if let Some(line_end) = find_from(body, crlf(), cursor) {
        assert(all.subrange(cursor, line_end) =~= body.subrange(cursor, line_end));
        if let Ok(size) = chunk_size(body.subrange(cursor, line_end)) {
            let start = line_end + 2;
            let end = start + size;
            if size == 0 {
                if occurs_at(body, crlf(), start) {
                    assert(all.subrange(start, start + 2) =~= body.subrange(start, start + 2));
                }
            } else if end <= usize::MAX && end + 2 <= body.len() {
                assert(all.subrange(end, end + 2) =~= body.subrange(end, end + 2));
                if occurs_at(body, crlf(), end) {
                    law_wire_len_stable(body, more, end + 2);
                }
            }
        }
    }
}

/// Bytes after the last chunk do not change the payload.
pub proof fn law_decoded_stable(body: Seq<u8>, more: Seq<u8>, cursor: int)
    requires
        0 <= cursor,
    ensures
        decoded(body, cursor) is Ok ==> decoded(body + more, cursor) == decoded(body, cursor),
    decreases body.len() - cursor,
{
    let all = body + more;
    lemma_find_from(body, crlf(), cursor);
    lemma_find_extends(body, more, crlf(), cursor);
    if let Some(line_end) = find_from(body, crlf(), cursor) {
        assert(all.subrange(cursor, line_end) =~= body.subrange(cursor, line_end));
        if let Ok(size) = chunk_size(body.subrange(cursor, line_end)) {
            let start = line_end + 2;
            let end = start + size;
            if size != 0 && end <= usize::MAX && occurs_at(body, crlf(), end) {
                assert(all.subrange(start, end) =~= body.subrange(start, end));
                assert(all.subrange(end, end + 2) =~= body.subrange(end, end + 2));
                law_decoded_stable(body, more, end + 2);
            }
        }
    }
}

/// A chunked body that is complete decodes, and one that is broken decodes to the same error.
pub proof fn law_complete_body_decodes(body: Seq<u8>, cursor: int)
    requires
        0 <= cursor,
    ensures
        wire_len(body, cursor) matches Ok(Some(_)) ==> decoded(body, cursor) is Ok,
        wire_len(body, cursor) matches Err(error) ==> decoded(body, cursor) == Err::<
            Seq<u8>,
            ErrorView,
        >(error),
    decreases body.len() - cursor,
{
    lemma_find_from(body, crlf(), cursor);
    if let Some(line_end) = find_from(body, crlf(), cursor) {
        if let Ok(size) = chunk_size(body.subrange(cursor, line_end)) {
            let end = line_end + 2 + size;
            if size != 0 && end <= usize::MAX && occurs_at(body, crlf(), end) {
                law_complete_body_decodes(body, end + 2);
            }
        }
    }
}

/// Cut at its own length, a complete chunked body is still complete.
pub proof fn lemma_wire_len_of_prefix(body: Seq<u8>, cursor: int)
    requires
        0 <= cursor,
    ensures
        wire_len(body, cursor) matches Ok(Some(len)) ==> wire_len(body.take(len), cursor) == wire_len(
            body,
            cursor,
        ),
    decreases body.len() - cursor,
{
    lemma_wire_len_bounds(body, cursor);
    lemma_find_from(body, crlf(), cursor);
    if let Ok(Some(len)) = wire_len(body, cursor) {
        let cut = body.take(len);
        if let Some(line_end) = find_from(body, crlf(), cursor) {
            if let Ok(size) = chunk_size(body.subrange(cursor, line_end)) {
                let start = line_end + 2;
                let end = start + size;
                if size != 0 {
                    lemma_wire_len_bounds(body, end + 2);
                    lemma_wire_len_of_prefix(body, end + 2);
                    assert(cut.subrange(end, end + 2) =~= body.subrange(end, end + 2));
                } else {
                    assert(cut.subrange(start, start + 2) =~= body.subrange(start, start + 2));
                }
                lemma_find_cut(body, crlf(), cursor, len);
                assert(cut.subrange(cursor, line_end) =~= body.subrange(cursor, line_end));
            }
        }
    }
}

/// Cut at its own length, a complete chunked body has the payload that it has with what follows.
pub proof fn law_decoded_at_wire_len(body: Seq<u8>)
    ensures
        wire_len(body, 0) matches Ok(Some(len)) ==> decoded(body.take(len), 0) is Ok && decoded(
            body.take(len),
            0,
        ) == decoded(body, 0),
{
    lemma_wire_len_bounds(body, 0);
    if let Ok(Some(len)) = wire_len(body, 0) {
        lemma_wire_len_of_prefix(body, 0);
        law_complete_body_decodes(body.take(len), 0);
        law_decoded_stable(body.take(len), body.skip(len), 0);
        assert(body.take(len) + body.skip(len) =~= body);
    }
}

/// A chunk: its size line and its payload.
pub struct Chunk {
    /// The size line.
    pub line: Seq<u8>,
    /// The payload.
    pub payload: Seq<u8>,
}

impl Chunk {
    /// The payload is not empty, the size line declares its length, and no carriage return stands in
    /// that line.
    pub open spec fn wf(self) -> bool {
        &&& self.payload.len() > 0
        &&& chunk_size(self.line) == Ok::<nat, ErrorView>(self.payload.len())
        &&& !self.line.contains(13)
    }

    /// The chunk in bytes.
    pub open spec fn bytes(self) -> Seq<u8> {
        self.line + crlf() + self.payload + crlf()
    }
}

/// The body of the chunks `chunks` and a last chunk with the size line `last`.
pub open spec fn chunked_body(chunks: Seq<Chunk>, last: Seq<u8>) -> Seq<u8>
    decreases chunks.len(),
{
    if chunks.len() == 0 {
        last + crlf() + crlf()
    } else {
        chunks[0].bytes() + chunked_body(chunks.skip(1), last)
    }
}

/// The payloads of `chunks`, one after the other.
pub open spec fn payloads(chunks: Seq<Chunk>) -> Seq<u8>
    decreases chunks.len(),
{
    if chunks.len() == 0 {
        seq![]
    } else {
        chunks[0].payload + payloads(chunks.skip(1))
    }
}

/// A size line without a carriage return ends at the line break after it.
proof fn lemma_line_end(before: Seq<u8>, line: Seq<u8>, after: Seq<u8>)
    requires
        !line.contains(13),
    ensures
        find_from(before + line + crlf() + after, crlf(), before.len() as int) == Some(
            before.len() as int + line.len(),
        ),
        (before + line + crlf() + after).subrange(
            before.len() as int,
            before.len() as int + line.len(),
        ) == line,
{
    let body = before + line + crlf() + after;
    let start = before.len() as int;
    let k = start + line.len();
    assert(body.subrange(k, k + 2) =~= crlf());
    assert forall|j: int| start <= j < k implies !occurs_at(body, crlf(), j) by {
        assert(line.contains(line[j - start]));
        assert(body.subrange(j, j + 2)[0] == line[j - start]);
    }
    lemma_find_from_unique(body, crlf(), start, k);
    assert(body.subrange(start, k) =~= line);
}

/// What a chunked body that stands after `before` decodes to, and how long it is.
proof fn lemma_chunked_body(before: Seq<u8>, chunks: Seq<Chunk>, last: Seq<u8>)
    requires
        forall|i: int| 0 <= i < chunks.len() ==> (#[trigger] chunks[i]).wf(),
        chunk_size(last) == Ok::<nat, ErrorView>(0),
        !last.contains(13),
        (before + chunked_body(chunks, last)).len() <= usize::MAX,
    ensures
        decoded(before + chunked_body(chunks, last), before.len() as int) == Ok::<
            Seq<u8>,
            ErrorView,
        >(payloads(chunks)),
        wire_len(before + chunked_body(chunks, last), before.len() as int) == Ok::<
            Option<int>,
            ErrorView,
        >(Some((before + chunked_body(chunks, last)).len() as int)),
    decreases chunks.len(),
{
    let body = before + chunked_body(chunks, last);
    let start = before.len() as int;
    if chunks.len() == 0 {
        lemma_line_end(before, last, crlf());
        assert(body =~= before + last + crlf() + crlf());
        let end = start + last.len() + 2;
        assert(body.subrange(end, end + 2) =~= crlf());
    } else {
        let chunk = chunks[0];
        let rest = chunked_body(chunks.skip(1), last);
        let next = before + chunk.bytes();
        assert(chunk.wf());
        assert(body =~= before + chunk.line + crlf() + (chunk.payload + crlf() + rest));
        lemma_line_end(before, chunk.line, chunk.payload + crlf() + rest);
        let payload_start = start + chunk.line.len() + 2;
        let payload_end = payload_start + chunk.payload.len();
        assert(body.subrange(payload_start, payload_end) =~= chunk.payload);
        assert(body.subrange(payload_end, payload_end + 2) =~= crlf());
        assert(body =~= next + rest);
        assert forall|i: int| 0 <= i < chunks.skip(1).len() implies (#[trigger] chunks.skip(
            1,
        )[i]).wf() by {
            assert(chunks.skip(1)[i] == chunks[i + 1]);
        }
        lemma_chunked_body(next, chunks.skip(1), last);
        assert(next.len() == payload_end + 2);
    }
}

/// A body that is written in chunks decodes to their payloads, one after the other, and its length
/// on the wire is its own.
pub proof fn law_chunks_decode(chunks: Seq<Chunk>, last: Seq<u8>)
    requires
        forall|i: int| 0 <= i < chunks.len() ==> (#[trigger] chunks[i]).wf(),
        chunk_size(last) == Ok::<nat, ErrorView>(0),
        !last.contains(13),
        chunked_body(chunks, last).len() <= usize::MAX,
    ensures
        decoded(chunked_body(chunks, last), 0) == Ok::<Seq<u8>, ErrorView>(payloads(chunks)),
        wire_len(chunked_body(chunks, last), 0) == Ok::<Option<int>, ErrorView>(
            Some(chunked_body(chunks, last).len() as int),
        ),
{
    let before = Seq::<u8>::empty();
    assert(before + chunked_body(chunks, last) =~= chunked_body(chunks, last));
    lemma_chunked_body(before, chunks, last);
}

/// The hexadecimal digit that stands for `d`.
pub open spec fn hex_digit(d: nat) -> char {
    if d < 10 {
        (48 + d) as char
    } else {
        (87 + d) as char
    }
}

/// `n` in hexadecimal notation, without leading zeros.
pub open spec fn hexadecimal(n: nat) -> Seq<char>
    decreases n,
{
    if n < 16 {
        seq![hex_digit(n)]
    } else {
        hexadecimal(n / 16).push(hex_digit(n % 16))
    }
}

/// Whether `c` is one of the digits `0` to `9` and `a` to `f`.
spec fn is_hex_digit(c: char) -> bool {
    '0' <= c <= '9' || 'a' <= c <= 'f'
}

/// The hexadecimal notation of a number has digits only, and they write the number.
proof fn lemma_hexadecimal(n: nat)
    ensures
        hexadecimal(n).len() > 0,
        forall|i: int| 0 <= i < hexadecimal(n).len() ==> is_hex_digit(#[trigger] hexadecimal(n)[i]),
        digits_value(hexadecimal(n), 16) == n,
    decreases n,
{
    reveal_with_fuel(digits_value, 2);
    if n < 16 {
        assert(hexadecimal(n).drop_last() =~= seq![]);
    } else {
        lemma_hexadecimal(n / 16);
        assert(hexadecimal(n).drop_last() =~= hexadecimal(n / 16));
    }
}

/// A number in hexadecimal notation is a size line that declares the number.
pub proof fn law_hexadecimal_declares_size(n: nat)
    requires
        n <= usize::MAX,
    ensures
        chunk_size(encode_utf8(hexadecimal(n))) == Ok::<nat, ErrorView>(n),
        !encode_utf8(hexadecimal(n)).contains(13),
{
    let digits = hexadecimal(n);
    let line = encode_utf8(digits);
    lemma_hexadecimal(n);
    encode_utf8_valid_utf8(digits);
    encode_utf8_decode_utf8(digits);
    lemma_find_from(digits, seq![';'], 0);
    if let Some(k) = find_from(digits, seq![';'], 0) {
        assert(digits.subrange(k, k + 1)[0] == digits[k]);
        assert(is_hex_digit(digits[k]));
        assert(seq![';'][0] == ';');
    }
    assert(before(digits, ';') == digits);
    assert(is_hex_digit(digits[0]));
    assert(is_hex_digit(digits[digits.len() - 1]));
    assert(trim(digits) == digits);
    assert forall|i: int| 0 <= i < digits.len() implies digit_value(#[trigger] digits[i]) < 16 by {
        assert(is_hex_digit(digits[i]));
    }
    assert forall|i: int| 0 <= i < digits.len() implies (digits[i] as nat) < 128 by {
        assert(is_hex_digit(digits[i]));
    }
    assert(is_ascii_chars(digits));
    is_ascii_chars_encode_utf8(digits);
    assert forall|i: int| 0 <= i < line.len() implies line[i] != 13 by {
        assert(is_hex_digit(digits[i]));
        assert(line[i] == digits[i] as u8);
    }
}

/// The hexadecimal notation of a number below sixteen is its digit, and that of a greater number is
/// that of its sixteens with the digit of the remainder after it.
pub proof fn law_hexadecimal(sixteens: nat, rest: nat)
    requires
        rest < 16,
    ensures
        writes_digit(hexadecimal(rest)[0], rest),
        hexadecimal(rest).len() == 1,
        sixteens > 0 ==> hexadecimal(16 * sixteens + rest) == hexadecimal(sixteens)
            + hexadecimal(rest),
{
    if sixteens > 0 {
        assert((16 * sixteens + rest) / 16 == sixteens);
        assert((16 * sixteens + rest) % 16 == rest);
        assert(hexadecimal(16 * sixteens + rest) =~= hexadecimal(sixteens) + hexadecimal(rest));
    }
}

/// A size line is read for the number in it: whitespace around the number and an extension, from a
/// semicolon on, make no difference. What is no number is an error that names it, and so is a line
/// that is not UTF-8.
pub proof fn law_size_line(
    line: Seq<u8>,
    lead: Seq<char>,
    digits: Seq<char>,
    trail: Seq<char>,
    extension: Seq<char>,
)
    requires
        valid_utf8(line) ==> decode_utf8(line) == lead + digits + trail + extension,
        blank(lead),
        blank(trail),
        is_trimmed(digits),
        !digits.contains(';'),
        extension.len() > 0 ==> extension[0] == ';',
    ensures
        !valid_utf8(line) ==> chunk_size(line) == Err::<nat, ErrorView>(
            ErrorView::Io("chunk size line was not valid UTF-8: "@ + utf8_error_text(line)),
        ),
        valid_utf8(line) ==> chunk_size(line) == match unsigned_value(
            digits,
            16,
            usize::MAX as nat,
        ) {
            Some(size) => Ok::<nat, ErrorView>(size),
            None => Err(
                ErrorView::Io("invalid chunk size '"@ + digits + "': "@ + hex_error_text(digits)),
            ),
        },
{
    let padded = lead + digits + trail;
    assert forall|i: int| 0 <= i < padded.len() implies padded[i] != ';' by {
        if i < lead.len() {
            assert(is_whitespace(lead[i]));
        } else if i < lead.len() + digits.len() {
            assert(digits.contains(digits[i - lead.len()]));
        } else {
            assert(is_whitespace(trail[i - lead.len() - digits.len()]));
        }
    }
    if extension.len() > 0 {
        let after = extension.skip(1);
        assert(padded + extension =~= padded + seq![';'] + after);
        law_split_once(padded, ';', after);
    } else {
        assert(padded + extension =~= padded);
        law_split_once(padded, ';', extension);
    }
    law_trim(lead, digits, trail);
}

/// `pieces` in chunks, one for each, in bytes: the size in hexadecimal notation, a line break, the
/// piece and another line break, and at the end a chunk of size zero and a line break.
pub open spec fn in_chunks(pieces: Seq<Seq<u8>>) -> Seq<u8>
    decreases pieces.len(),
{
    if pieces.len() == 0 {
        seq![48u8, 13u8, 10u8, 13u8, 10u8]
    } else {
        encode_utf8(hexadecimal(pieces[0].len())) + seq![13u8, 10u8] + pieces[0] + seq![
            13u8,
            10u8,
        ] + in_chunks(pieces.drop_first())
    }
}

/// The chunks of `pieces`.
spec fn chunks_of(pieces: Seq<Seq<u8>>) -> Seq<Chunk> {
    pieces.map_values(
        |piece: Seq<u8>| Chunk { line: encode_utf8(hexadecimal(piece.len())), payload: piece },
    )
}

/// Pieces in chunks are the chunks of the pieces in bytes.
proof fn lemma_in_chunks(pieces: Seq<Seq<u8>>)
    ensures
        in_chunks(pieces) == chunked_body(chunks_of(pieces), seq![48u8]),
        pieces.flatten() == payloads(chunks_of(pieces)),
    decreases pieces.len(),
{
    let chunks = chunks_of(pieces);
    if pieces.len() == 0 {
        assert(in_chunks(pieces) =~= chunked_body(chunks, seq![48u8]));
    } else {
        lemma_in_chunks(pieces.drop_first());
        assert(chunks.skip(1) =~= chunks_of(pieces.drop_first()));
        assert(in_chunks(pieces) =~= chunked_body(chunks, seq![48u8]));
    }
}

/// The length of pieces in chunks bounds that of each piece.
proof fn lemma_in_chunks_len(pieces: Seq<Seq<u8>>, i: int)
    requires
        0 <= i < pieces.len(),
    ensures
        pieces[i].len() <= in_chunks(pieces).len(),
    decreases pieces.len(),
{
    if i > 0 {
        lemma_in_chunks_len(pieces.drop_first(), i - 1);
        assert(pieces.drop_first()[i - 1] == pieces[i]);
    }
}

/// What is written in chunks is read whole: the payload is the pieces one after the other, byte for
/// byte, and the body ends where it was written to end, whatever follows. Before its last byte has
/// come, the body is not complete.
pub proof fn law_written_chunks_are_read(pieces: Seq<Seq<u8>>, more: Seq<u8>, k: int)
    requires
        forall|i: int| 0 <= i < pieces.len() ==> (#[trigger] pieces[i]).len() > 0,
        in_chunks(pieces).len() <= usize::MAX,
        0 <= k < in_chunks(pieces).len(),
    ensures
        decoded(in_chunks(pieces) + more, 0) == Ok::<Seq<u8>, ErrorView>(pieces.flatten()),
        wire_len(in_chunks(pieces) + more, 0) == Ok::<Option<int>, ErrorView>(
            Some(in_chunks(pieces).len() as int),
        ),
        wire_len(in_chunks(pieces).take(k), 0) == Ok::<Option<int>, ErrorView>(None),
{
    let body = in_chunks(pieces);
    let chunks = chunks_of(pieces);
    let last = seq![48u8];
    lemma_in_chunks(pieces);
    assert forall|i: int| 0 <= i < chunks.len() implies (#[trigger] chunks[i]).wf() by {
        lemma_in_chunks_len(pieces, i);
        law_hexadecimal_declares_size(pieces[i].len());
    }
    law_hexadecimal_declares_size(0);
    let zero = hexadecimal(0);
    assert(zero =~= seq!['0']);
    assert(is_ascii_chars(zero));
    is_ascii_chars_encode_utf8(zero);
    assert(zero[0] as u8 == 48);
    assert(encode_utf8(zero) =~= last);
    law_chunks_decode(chunks, last);
    law_decoded_stable(body, more, 0);
    law_wire_len_stable(body, more, 0);
    let part = body.take(k);
    assert(part + body.skip(k) =~= body);
    law_wire_len_stable(part, body.skip(k), 0);
    lemma_wire_len_bounds(part, 0);
}

/// A chunk with anything but a line break after its payload is broken, one whose payload has not come
/// in full is not complete, and without a line break there is no size.
#[verifier::rlimit(40)]
#[verifier::spinoff_prover]
pub proof fn law_broken_chunks(line: Seq<u8>, payload: Seq<u8>, more: Seq<u8>)
    requires
        !line.contains(13),
        chunk_size(line) is Ok,
        0 < chunk_size(line)->Ok_0,
        line.len() + 2 + chunk_size(line)->Ok_0 <= usize::MAX,
    ensures
        ({
            let size = chunk_size(line)->Ok_0;
            let start = line + seq![13u8, 10u8] + payload;
            &&& payload.len() == size && more.len() >= 2 && !(more[0] == 13 && more[1] == 10) ==> {
                &&& decoded(start + more, 0) == Err::<Seq<u8>, ErrorView>(
                    ErrorView::Io("chunked body missing CRLF after chunk payload"@),
                )
                &&& wire_len(start + more, 0) == Err::<Option<int>, ErrorView>(
                    ErrorView::Io("chunked body missing CRLF after chunk payload"@),
                )
            }
            &&& payload.len() < size ==> {
                &&& decoded(start, 0) == Err::<Seq<u8>, ErrorView>(
                    ErrorView::Io("chunked body ended before chunk payload completed"@),
                )
                &&& wire_len(start, 0) == Ok::<Option<int>, ErrorView>(None)
            }
        }),
        decoded(line, 0) == Err::<Seq<u8>, ErrorView>(
            ErrorView::Io("chunked body missing size delimiter"@),
        ),
        wire_len(line, 0) == Ok::<Option<int>, ErrorView>(None),
{
    let size = chunk_size(line)->Ok_0;
    let none = Seq::<u8>::empty();
    let start = line + seq![13u8, 10u8] + payload;
    let end: int = line.len() as int + 2 + size;
    lemma_line_end(none, line, payload);
    assert(none + line + crlf() + payload =~= start);
    lemma_line_end(none, line, payload + more);
    assert(none + line + crlf() + (payload + more) =~= start + more);
    if payload.len() == size && more.len() >= 2 && !(more[0] == 13 && more[1] == 10) {
        law_occurrence(start + more, crlf(), end);
        assert((start + more)[end] == more[0]);
        assert((start + more)[end + 1] == more[1]);
        assert(crlf()[0] == 13 && crlf()[1] == 10);
        if occurs_at(start + more, crlf(), end) {
            assert((start + more)[end + 0] == crlf()[0]);
            assert((start + more)[end + 1] == crlf()[1]);
        }
    }
    lemma_find_from(line, crlf(), 0);
    if let Some(j) = find_from(line, crlf(), 0) {
        law_occurrence(line, crlf(), j);
        assert(line[j + 0] == crlf()[0]);
        assert(line.contains(line[j]));
    }
}

/// A chunk of size zero is the last: the payload ends there, and the body with the line break after it.
/// Until that line break has come, the body is not complete.
pub proof fn law_last_chunk(line: Seq<u8>, more: Seq<u8>)
    requires
        !line.contains(13),
        chunk_size(line) == Ok::<nat, ErrorView>(0),
    ensures
        decoded(line + seq![13u8, 10u8] + more, 0) == Ok::<Seq<u8>, ErrorView>(seq![]),
        wire_len(line + seq![13u8, 10u8] + more, 0) == Ok::<Option<int>, ErrorView>(
            if more.len() >= 2 && more[0] == 13 && more[1] == 10 {
                Some(line.len() as int + 4)
            } else {
                None
            },
        ),
{
    let none = Seq::<u8>::empty();
    let body = line + seq![13u8, 10u8] + more;
    let start: int = line.len() as int + 2;
    lemma_line_end(none, line, more);
    assert(none + line + crlf() + more =~= body);
    law_occurrence(body, crlf(), start);
    assert(crlf()[0] == 13 && crlf()[1] == 10);
    if more.len() >= 2 {
        assert(body[start] == more[0] && body[start + 1] == more[1]);
        if occurs_at(body, crlf(), start) {
            assert(body[start + 0] == crlf()[0] && body[start + 1] == crlf()[1]);
        }
    }
}

/// What is found after some bytes is where it is without them, so many bytes further on.
proof fn lemma_find_after(first: Seq<u8>, rest: Seq<u8>, cursor: int)
    requires
        0 <= cursor,
    ensures
        find_from(first + rest, crlf(), first.len() + cursor) == match find_from(
            rest,
            crlf(),
            cursor,
        ) {
            Some(k) => Some(first.len() + k),
            None => None,
        },
{
    let all = first + rest;
    let n = first.len() as int;
    lemma_find_from(rest, crlf(), cursor);
    lemma_find_from(all, crlf(), n + cursor);
    assert forall|j: int| 0 <= j implies occurs_at(all, crlf(), n + j) == occurs_at(
        rest,
        crlf(),
        j,
    ) by {
        lemma_occurs_after(first, rest, j);
    }
    match find_from(rest, crlf(), cursor) {
        Some(k) => {
            assert(occurs_at(all, crlf(), n + k));
            assert forall|j: int| n + cursor <= j < n + k implies !occurs_at(all, crlf(), j) by {
                assert(occurs_at(all, crlf(), n + (j - n)) == occurs_at(rest, crlf(), j - n));
            }
            lemma_find_from_unique(all, crlf(), n + cursor, n + k);
        },
        None => {
            if let Some(k) = find_from(all, crlf(), n + cursor) {
                assert(occurs_at(all, crlf(), n + (k - n)) == occurs_at(rest, crlf(), k - n));
            }
        },
    }
}

/// A line break stands after some bytes where it stands without them.
proof fn lemma_occurs_after(first: Seq<u8>, rest: Seq<u8>, j: int)
    requires
        0 <= j,
    ensures
        occurs_at(first + rest, crlf(), first.len() + j) == occurs_at(rest, crlf(), j),
{
    let all = first + rest;
    let n = first.len() as int;
    if j + 2 <= rest.len() {
        assert(all.subrange(n + j, n + j + 2) =~= rest.subrange(j, j + 2));
    }
}

/// Chunks that stand after some bytes decode as they do without them.
proof fn lemma_decoded_after(first: Seq<u8>, rest: Seq<u8>, cursor: int)
    requires
        0 <= cursor,
        first.len() + rest.len() <= usize::MAX,
    ensures
        match decoded(rest, cursor) {
            Ok(payload) => decoded(first + rest, first.len() + cursor) == Ok::<Seq<u8>, ErrorView>(
                payload,
            ),
            Err(_) => decoded(first + rest, first.len() + cursor) is Err,
        },
        match wire_len(rest, cursor) {
            Ok(Some(len)) => wire_len(first + rest, first.len() + cursor) == Ok::<
                Option<int>,
                ErrorView,
            >(Some(first.len() + len)),
            Ok(None) => !(wire_len(first + rest, first.len() + cursor) matches Ok(Some(_))),
            Err(_) => wire_len(first + rest, first.len() + cursor) is Err,
        },
    decreases rest.len() - cursor,
{
    let all = first + rest;
    let n = first.len() as int;
    lemma_find_after(first, rest, cursor);
    lemma_find_from(rest, crlf(), cursor);
    if let Some(line_end) = find_from(rest, crlf(), cursor) {
        assert(all.subrange(n + cursor, n + line_end) =~= rest.subrange(cursor, line_end));
        if let Ok(size) = chunk_size(rest.subrange(cursor, line_end)) {
            let start = line_end + 2;
            let end = start + size;
            lemma_occurs_after(first, rest, start);
            lemma_occurs_after(first, rest, end);
            if size != 0 && end <= usize::MAX && occurs_at(rest, crlf(), end) {
                assert(all.subrange(n + start, n + end) =~= rest.subrange(start, end));
                lemma_decoded_after(first, rest, end + 2);
            }
        }
    }
}

/// A chunk adds its payload, byte for byte, to what the chunks after it decode to, and its bytes to their
/// length. Where those are broken, so is the whole, and where they are not complete, neither is it.
pub proof fn law_chunk_by_chunk(line: Seq<u8>, payload: Seq<u8>, rest: Seq<u8>)
    requires
        !line.contains(13),
        payload.len() > 0,
        chunk_size(line) == Ok::<nat, ErrorView>(payload.len()),
        line.len() + payload.len() + rest.len() + 4 <= usize::MAX,
    ensures
        ({
            let chunk = line + seq![13u8, 10u8] + payload + seq![13u8, 10u8];
            &&& match decoded(rest, 0) {
                Ok(others) => decoded(chunk + rest, 0) == Ok::<Seq<u8>, ErrorView>(
                    payload + others,
                ),
                Err(_) => decoded(chunk + rest, 0) is Err,
            }
            &&& match wire_len(rest, 0) {
                Ok(Some(len)) => wire_len(chunk + rest, 0) == Ok::<Option<int>, ErrorView>(
                    Some(chunk.len() + len),
                ),
                Ok(None) => !(wire_len(chunk + rest, 0) matches Ok(Some(_))),
                Err(_) => wire_len(chunk + rest, 0) is Err,
            }
        }),
{
    let none = Seq::<u8>::empty();
    let chunk = line + seq![13u8, 10u8] + payload + seq![13u8, 10u8];
    let all = chunk + rest;
    let start = line.len() as int + 2;
    let end = start + payload.len();
    lemma_line_end(none, line, payload + crlf() + rest);
    assert(none + line + crlf() + (payload + crlf() + rest) =~= all);
    assert(all.subrange(start, end) =~= payload);
    assert(all.subrange(end, end + 2) =~= crlf());
    lemma_decoded_after(chunk, rest, 0);
    assert(chunk.len() == end + 2);
}

/// A chunk whose size would end past what can be counted is refused.
pub proof fn law_oversized_chunk(line: Seq<u8>, rest: Seq<u8>)
    requires
        !line.contains(13),
        chunk_size(line) is Ok,
        line.len() + 2 + chunk_size(line)->Ok_0 > usize::MAX,
        chunk_size(line)->Ok_0 > 0,
    ensures
        decoded(line + seq![13u8, 10u8] + rest, 0) == Err::<Seq<u8>, ErrorView>(
            ErrorView::Io("chunk size overflowed response body"@),
        ),
        wire_len(line + seq![13u8, 10u8] + rest, 0) == Err::<Option<int>, ErrorView>(
            ErrorView::Io("chunk size overflowed response body"@),
        ),
{
    let none = Seq::<u8>::empty();
    lemma_line_end(none, line, rest);
    assert(none + line + crlf() + rest =~= line + seq![13u8, 10u8] + rest);
}

/// A size line that is refused is the error of the body.
pub proof fn law_bad_size_line(line: Seq<u8>, rest: Seq<u8>, error: ErrorView)
    requires
        !line.contains(13),
        chunk_size(line) == Err::<nat, ErrorView>(error),
    ensures
        decoded(line + seq![13u8, 10u8] + rest, 0) == Err::<Seq<u8>, ErrorView>(error),
        wire_len(line + seq![13u8, 10u8] + rest, 0) == Err::<Option<int>, ErrorView>(error),
{
    let none = Seq::<u8>::empty();
    lemma_line_end(none, line, rest);
    assert(none + line + crlf() + rest =~= line + seq![13u8, 10u8] + rest);
}

} // verus!
