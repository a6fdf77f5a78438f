use vzglyd_sidecar::chunked::{chunked_wire_len, decode_chunked_body};
use vzglyd_sidecar::error::{IoFailure, IoKind};
use vzglyd_sidecar::exchange::{https_get_via_ip, GetAction, GetEvent};
use vzglyd_sidecar::http::{
    body_text_for_error, build_request, http_response_complete_len, http_response_metadata,
    parse_http_response, successful_body, HttpResponse,
};
use vzglyd_sidecar::response_reader::{ReadEvent, ResponseReader};
use vzglyd_sidecar::Error;

fn io(message: &str) -> Error {
    Error::Io(message.to_string())
}

#[test]
fn parse_http_response_extracts_content_length_body() {
    let response = b"HTTP/1.1 200 OK\r\nContent-Length: 11\r\nConnection: close\r\n\r\nhello world";
    let body = successful_body(parse_http_response(response).expect("parse HTTP response"))
        .expect("extract body");
    assert_eq!(body, b"hello world");
}

#[test]
fn parse_http_response_decodes_chunked_body() {
    let response = b"HTTP/1.1 200 OK\r\nTransfer-Encoding: chunked\r\n\r\n5\r\nhello\r\n6\r\n world\r\n0\r\n\r\n";
    let body = successful_body(parse_http_response(response).expect("parse chunked response"))
        .expect("extract body");
    assert_eq!(body, b"hello world");
}

#[test]
fn parse_http_response_extracts_conditional_headers() {
    let response = b"HTTP/1.1 304 Not Modified\r\nETag: \"etag-1\"\r\nLast-Modified: Sun, 01 Jan 2023 00:00:00 GMT\r\nContent-Length: 0\r\n\r\n";
    let response = parse_http_response(response).expect("parse conditional response");
    assert_eq!(response.status_code, 304);
    assert_eq!(response.etag.as_deref(), Some("\"etag-1\""));
    assert_eq!(
        response.last_modified.as_deref(),
        Some("Sun, 01 Jan 2023 00:00:00 GMT")
    );
    assert!(response.body.is_empty());
}

#[test]
fn malformed_heads_are_refused() {
    assert_eq!(
        parse_http_response(b"HTTP/1.1 200 OK\r\n"),
        Err(io("HTTP response missing header terminator"))
    );
    assert_eq!(
        parse_http_response(b"HTTP/1.1\r\n\r\n"),
        Err(io("HTTP status line missing code"))
    );
    assert_eq!(
        parse_http_response(b"\r\n\r\n"),
        Err(io("HTTP status line missing code"))
    );
    assert_eq!(
        parse_http_response(b"HTTP/1.1 abc\r\n\r\n"),
        Err(io("invalid HTTP status code: invalid digit found in string"))
    );
    assert_eq!(
        parse_http_response(b"HTTP/1.1 65536 X\r\n\r\n"),
        Err(io("invalid HTTP status code: number too large to fit in target type"))
    );
    let refused = parse_http_response(b"HTTP/1.1 200 \xff\r\n\r\n").unwrap_err();
    assert_eq!(
        refused,
        io("HTTP headers were not valid UTF-8: invalid utf-8 sequence of 1 bytes from index 13")
    );
    assert_eq!(
        parse_http_response(b"HTTP/1.1 200 OK\r\nContent-Length: 5\r\n\r\nabc"),
        Err(io("HTTP body shorter than declared Content-Length (5)"))
    );
}

#[test]
fn status_codes_may_have_a_plus_sign_and_any_whitespace() {
    let parsed = parse_http_response("HTTP/1.1\u{2003}\t+204 \r\n\r\n".as_bytes()).unwrap();
    assert_eq!(parsed.status_code, 204);
}

#[test]
fn the_last_of_repeated_headers_counts() {
    let response = b"HTTP/1.1 200 OK\r\netag: a\r\nETAG :  b \r\nno colon\r\nContent-Length: 1\r\ncontent-length: x\r\n\r\nrest";
    let parsed = parse_http_response(response).unwrap();
    assert_eq!(parsed.etag.as_deref(), Some("b"));
    assert_eq!(parsed.body, b"rest");
    let metadata = http_response_metadata(response).unwrap().unwrap();
    assert_eq!(metadata.status_code, 200);
    assert_eq!(metadata.fields.content_length, None);
    assert!(!metadata.fields.chunked);
}

#[test]
fn chunked_coding_is_recognised_in_any_case_and_wins_over_length() {
    let response = b"HTTP/1.1 200 OK\r\nContent-Length: 1\r\nTRANSFER-ENCODING: gzip, Chunked\r\n\r\n2\r\nok\r\n0\r\n\r\n";
    assert_eq!(parse_http_response(response).unwrap().body, b"ok");
}

#[test]
fn a_body_without_length_runs_to_the_end() {
    let response = b"HTTP/1.0 200 OK\r\n\r\neverything";
    assert_eq!(parse_http_response(response).unwrap().body, b"everything");
    assert_eq!(http_response_complete_len(response), Ok(None));
}

#[test]
fn unsuccessful_statuses_are_errors_with_the_body() {
    let answer = |status_code: u16, body: &[u8]| HttpResponse {
        status_code,
        body: body.to_vec(),
        etag: None,
        last_modified: None,
    };
    assert_eq!(successful_body(answer(200, b"x")), Ok(b"x".to_vec()));
    assert_eq!(successful_body(answer(299, b"x")), Ok(b"x".to_vec()));
    assert_eq!(
        successful_body(answer(199, b"x")),
        Err(Error::Http { status: 199, body: "x".to_string() })
    );
    assert_eq!(
        successful_body(answer(300, b"a\xffb")),
        Err(Error::Http { status: 300, body: "a\u{fffd}b".to_string() })
    );
    assert_eq!(body_text_for_error("h\u{e9}".as_bytes()), "h\u{e9}");
}

#[test]
fn requests_are_written_out() {
    assert_eq!(
        build_request("example.com", "/x?y", &[]),
        "GET /x?y HTTP/1.1\r\nHost: example.com\r\nAccept: */*\r\nConnection: close\r\nUser-Agent: vzglyd_sidecar/0.1\r\n\r\n"
    );
    let headers = [
        ("If-None-Match".to_string(), "\"a\"".to_string()),
        ("X".to_string(), String::new()),
    ];
    assert_eq!(
        build_request("h", "/", &headers),
        "GET / HTTP/1.1\r\nHost: h\r\nAccept: */*\r\nConnection: close\r\nUser-Agent: vzglyd_sidecar/0.1\r\nIf-None-Match: \"a\"\r\nX: \r\n\r\n"
    );
}

#[test]
fn complete_length_stops_at_the_end_of_the_response() {
    let with_length = b"HTTP/1.1 200 OK\r\nContent-Length: 2\r\n\r\nokrest";
    assert_eq!(http_response_complete_len(with_length), Ok(Some(40)));
    assert_eq!(http_response_complete_len(&with_length[..39]), Ok(None));
    assert_eq!(http_response_complete_len(&with_length[..10]), Ok(None));
    let chunked = b"HTTP/1.1 200 OK\r\nTransfer-Encoding: chunked\r\n\r\n2\r\nok\r\n0\r\n\r\nrest";
    assert_eq!(
        http_response_complete_len(chunked),
        Ok(Some(chunked.len() - 4))
    );
    for cut in 0..chunked.len() - 4 {
        assert_eq!(http_response_complete_len(&chunked[..cut]), Ok(None));
    }
}

#[test]
fn chunks_give_their_payloads() {
    assert_eq!(decode_chunked_body(b"0\r\n\r\n"), Ok(vec![]));
    assert_eq!(
        decode_chunked_body(b" 3 ;ext=1\r\nabc\r\nA\r\n0123456789\r\n0\r\n\r\n"),
        Ok(b"abc0123456789".to_vec())
    );
    // Without the line break after the last chunk the payload is there, but the body is not
    // complete.
    assert_eq!(decode_chunked_body(b"1\r\na\r\n0\r\n"), Ok(b"a".to_vec()));
    assert_eq!(chunked_wire_len(b"1\r\na\r\n0\r\n"), Ok(None));
    assert_eq!(chunked_wire_len(b"1\r\na\r\n0\r\n\r\nmore"), Ok(Some(11)));
}

#[test]
fn broken_chunks_are_refused() {
    assert_eq!(
        decode_chunked_body(b"5"),
        Err(io("chunked body missing size delimiter"))
    );
    assert_eq!(chunked_wire_len(b"5"), Ok(None));
    assert_eq!(
        decode_chunked_body(b"zz\r\n"),
        Err(io("invalid chunk size 'zz': invalid digit found in string"))
    );
    assert_eq!(
        chunked_wire_len(b"zz\r\n"),
        Err(io("invalid chunk size 'zz': invalid digit found in string"))
    );
    assert_eq!(
        decode_chunked_body(b"\r\n"),
        Err(io("invalid chunk size '': cannot parse integer from empty string"))
    );
    assert_eq!(
        decode_chunked_body(b"\xff\r\n"),
        Err(io("chunk size line was not valid UTF-8: invalid utf-8 sequence of 1 bytes from index 0"))
    );
    assert_eq!(
        decode_chunked_body(b"5\r\nab"),
        Err(io("chunked body ended before chunk payload completed"))
    );
    assert_eq!(chunked_wire_len(b"5\r\nab"), Ok(None));
    assert_eq!(
        decode_chunked_body(b"2\r\nabcd"),
        Err(io("chunked body missing CRLF after chunk payload"))
    );
    assert_eq!(
        chunked_wire_len(b"2\r\nabcd"),
        Err(io("chunked body missing CRLF after chunk payload"))
    );
    assert_eq!(
        decode_chunked_body(b"ffffffffffffffff\r\n"),
        Err(io("chunk size overflowed response body"))
    );
    assert_eq!(
        chunked_wire_len(b"ffffffffffffffff\r\n"),
        Err(io("chunk size overflowed response body"))
    );
}

fn read_all(pieces: &[&[u8]]) -> Result<HttpResponse, Error> {
    let mut reader = ResponseReader::new();
    for piece in pieces {
        if let Some(result) = reader.receive(ReadEvent::Read(piece.to_vec())) {
            return result;
        }
    }
    reader.receive(ReadEvent::Read(Vec::new())).expect("the end of the stream decides")
}

#[test]
fn the_reads_make_no_difference() {
    let streams: [&[u8]; 4] = [
        b"HTTP/1.1 200 OK\r\nContent-Length: 4\r\n\r\nbodyrest",
        b"HTTP/1.1 200 OK\r\nTransfer-Encoding: chunked\r\n\r\n3\r\nabc\r\n0\r\n\r\nrest",
        b"HTTP/1.1 200 OK\r\n\r\nto the end",
        b"HTTP/1.1 200 OK\r\nTransfer-Encoding: chunked\r\n\r\n3\r\nabcd",
    ];
    for stream in streams {
        let whole = parse_http_response(stream);
        for size in 1..stream.len() {
            let pieces: Vec<&[u8]> = stream.chunks(size).collect();
            assert_eq!(read_all(&pieces), whole);
        }
    }
}

#[test]
fn failures_of_the_stream_end_the_reading() {
    let failures = [
        (IoKind::TimedOut, Error::Timeout),
        (IoKind::UnexpectedEof, io("cut off")),
        (IoKind::Other, io("cut off")),
    ];
    for (kind, expected) in failures {
        let mut reader = ResponseReader::new();
        assert!(reader
            .receive(ReadEvent::Read(b"HTTP/1.1 200 OK\r\n\r\npart".to_vec()))
            .is_none());
        let failure = IoFailure { kind, message: "cut off".to_string() };
        assert_eq!(reader.receive(ReadEvent::Failed(failure)), Some(Err(expected)));
    }
}

#[test]
fn an_exchange_connects_writes_flushes_and_reads() {
    let mut exchange = https_get_via_ip("example.com", "/", &[]);
    assert!(matches!(exchange.action(), GetAction::Connect(443)));
    // An event that answers nothing changes nothing.
    assert!(exchange.step(GetEvent::Flushed(Ok(()))).is_none());
    assert!(matches!(exchange.action(), GetAction::Connect(443)));
    assert!(exchange.step(GetEvent::Connected(Ok(()))).is_none());
    match exchange.action() {
        GetAction::Write(bytes) => {
            assert_eq!(bytes, build_request("example.com", "/", &[]).as_bytes())
        }
        _ => panic!("the request is to be written"),
    }
    assert!(exchange.step(GetEvent::Written(Ok(()))).is_none());
    assert!(matches!(exchange.action(), GetAction::Flush));
    assert!(exchange.step(GetEvent::Flushed(Ok(()))).is_none());
    assert!(matches!(exchange.action(), GetAction::Read));
    let head = b"HTTP/1.1 200 OK\r\nContent-Length: 2\r\n\r\n".to_vec();
    assert!(exchange.step(GetEvent::Received(ReadEvent::Read(head))).is_none());
    assert!(matches!(exchange.action(), GetAction::Read));
    let result = exchange.step(GetEvent::Received(ReadEvent::Read(b"ok".to_vec())));
    assert_eq!(result.expect("the response is complete").unwrap().body, b"ok");
    assert!(matches!(exchange.action(), GetAction::Nothing));
}

#[test]
fn a_failed_step_ends_the_exchange() {
    let failure = || IoFailure { kind: IoKind::Other, message: "no".to_string() };
    let mut refused = https_get_via_ip("h", "/", &[]);
    assert_eq!(
        refused.step(GetEvent::Connected(Err(Error::Tls("bad".to_string())))),
        Some(Err(Error::Tls("bad".to_string())))
    );
    assert!(matches!(refused.action(), GetAction::Nothing));
    let mut unwritten = https_get_via_ip("h", "/", &[]);
    unwritten.step(GetEvent::Connected(Ok(())));
    assert_eq!(unwritten.step(GetEvent::Written(Err(failure()))), Some(Err(io("no"))));
    let mut unflushed = https_get_via_ip("h", "/", &[]);
    unflushed.step(GetEvent::Connected(Ok(())));
    unflushed.step(GetEvent::Written(Ok(())));
    assert_eq!(unflushed.step(GetEvent::Flushed(Err(failure()))), Some(Err(io("no"))));
}
