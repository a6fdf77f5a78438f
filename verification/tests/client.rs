use std::cell::RefCell;

use vzglyd_sidecar::channel::{channel_active, network_roundtrip, read_answer};
use vzglyd_sidecar::client::{
    body_text, conditional_result, execute_host_request, execute_https_get, header_value,
    https_response, tcp_response,
};
use vzglyd_sidecar::host_request::{ErrorKind, Header, VersionedResponse};
use vzglyd_sidecar::http::HttpResponse;
use vzglyd_sidecar::{
    https_get, https_get_conditional, https_get_text, split_https_url, tcp_connect, Error,
    HostRequest, HostResponse,
};

fn header(name: &str, value: &str) -> Header {
    Header { name: name.to_string(), value: value.to_string() }
}

fn http(status_code: u16, headers: Vec<Header>, body: &[u8]) -> Result<HostResponse, Error> {
    Ok(HostResponse::Http { status_code, headers, body: body.to_vec() })
}

#[test]
fn split_https_url_handles_plain_and_query_urls() {
    assert_eq!(
        split_https_url("https://calendar.google.com/calendar/ical/test/basic.ics").unwrap(),
        (
            "calendar.google.com".to_string(),
            "/calendar/ical/test/basic.ics".to_string()
        )
    );
    assert_eq!(
        split_https_url("https://example.com?foo=bar").unwrap(),
        ("example.com".to_string(), "/?foo=bar".to_string())
    );
}

#[test]
fn urls_split_at_the_first_slash_or_question_mark() {
    let split = |url: &str| split_https_url(url).unwrap();
    let parts = |host: &str, path: &str| (host.to_string(), path.to_string());
    assert_eq!(split("https://example.com"), parts("example.com", "/"));
    assert_eq!(split("https://example.com/"), parts("example.com", "/"));
    assert_eq!(split("https://example.com?next=/home"), parts("example.com", "/?next=/home"));
    assert_eq!(split("https://h?a/b?c"), parts("h", "/?a/b?c"));
    assert_eq!(split("https://h/a?b/c"), parts("h", "/a?b/c"));
    assert_eq!(split("https://h?a?b"), parts("h", "/?a?b"));
}

#[test]
fn urls_without_scheme_or_host_are_refused() {
    let io = |message: &str| Err(Error::Io(message.to_string()));
    assert_eq!(split_https_url("http://a/"), io("unsupported URL scheme in 'http://a/'"));
    assert_eq!(split_https_url(""), io("unsupported URL scheme in ''"));
    assert_eq!(split_https_url("HTTPS://a"), io("unsupported URL scheme in 'HTTPS://a'"));
    assert_eq!(split_https_url("https://"), io("HTTPS URL is missing a host"));
    assert_eq!(split_https_url("https:///x"), io("HTTPS URL is missing a host in 'https:///x'"));
    assert_eq!(split_https_url("https://?/x"), io("HTTPS URL is missing a host in 'https://?/x'"));
    assert_eq!(split_https_url("https://?x"), io("HTTPS URL is missing a host in 'https://?x'"));
}

#[test]
fn the_first_header_of_a_name_counts() {
    let headers = [header("ETag", "a"), header("etag", "b")];
    assert_eq!(header_value(&headers, "etag"), Some("a"));
    assert_eq!(header_value(&headers, "ETAG"), Some("a"));
    assert_eq!(header_value(&headers, "last-modified"), None);
}

#[test]
fn replies_to_https_requests_are_told_apart() {
    let response = https_response(http(
        200,
        vec![header("Last-Modified", "l"), header("ETAG", "e")],
        b"x",
    ));
    assert_eq!(
        response,
        Ok(HttpResponse {
            status_code: 200,
            body: b"x".to_vec(),
            etag: Some("e".to_string()),
            last_modified: Some("l".to_string()),
        })
    );
    assert_eq!(
        https_response(Ok(HostResponse::TcpConnect { elapsed_ms: 1 })),
        Err(Error::Io("host returned a tcp_connect response for an HTTPS request".to_string()))
    );
    let error = HostResponse::Error { error_kind: ErrorKind::Dns, message: "m".to_string() };
    assert_eq!(https_response(Ok(error)), Err(Error::Dns("m".to_string())));
    assert_eq!(https_response(Err(Error::Timeout)), Err(Error::Timeout));
}

#[test]
fn replies_to_tcp_connections_are_told_apart() {
    assert_eq!(tcp_response(Ok(HostResponse::TcpConnect { elapsed_ms: 12 })), Ok(12));
    assert_eq!(
        tcp_response(http(200, vec![], b"")),
        Err(Error::Io("host returned an HTTP response for tcp_connect".to_string()))
    );
    let error = HostResponse::Error { error_kind: ErrorKind::Timeout, message: "m".to_string() };
    assert_eq!(tcp_response(Ok(error)), Err(Error::Timeout));
    assert_eq!(tcp_response(Err(Error::Timeout)), Err(Error::Timeout));
}

#[test]
fn requests_reach_the_host() {
    let seen = RefCell::new(None);
    let body = https_get("h", "/p", |request| {
        *seen.borrow_mut() = Some(request);
        http(200, vec![], b"body")
    });
    assert_eq!(body, Ok(b"body".to_vec()));
    assert_eq!(
        seen.take(),
        Some(HostRequest::HttpsGet {
            host: "h".to_string(),
            path: "/p".to_string(),
            headers: vec![],
        })
    );
    let pairs = [("a".to_string(), "b".to_string())];
    let response = execute_https_get("h", "/p", &pairs, |request| {
        *seen.borrow_mut() = Some(request);
        http(500, vec![], b"")
    });
    assert_eq!(response.unwrap().status_code, 500);
    assert_eq!(
        seen.take(),
        Some(HostRequest::HttpsGet {
            host: "h".to_string(),
            path: "/p".to_string(),
            headers: vec![header("a", "b")],
        })
    );
    let elapsed = tcp_connect("h", 80, 250, |request| {
        *seen.borrow_mut() = Some(request);
        Ok(HostResponse::TcpConnect { elapsed_ms: 4 })
    });
    assert_eq!(elapsed, Ok(4));
    assert_eq!(
        seen.take(),
        Some(HostRequest::TcpConnect { host: "h".to_string(), port: 80, timeout_ms: 250 })
    );
}

#[test]
fn bodies_are_text_where_they_are_utf8() {
    assert_eq!(
        https_get_text("h", "/", |_| http(200, vec![], "h\u{e9}".as_bytes())),
        Ok("h\u{e9}".to_string())
    );
    assert_eq!(
        https_get_text("h", "/", |_| http(200, vec![], b"ab\xff")),
        Err(Error::Io(
            "HTTP body was not valid UTF-8: invalid utf-8 sequence of 1 bytes from index 2"
                .to_string()
        ))
    );
    assert_eq!(
        https_get_text("h", "/", |_| http(404, vec![], b"gone")),
        Err(Error::Http { status: 404, body: "gone".to_string() })
    );
    assert_eq!(body_text(Err(Error::Timeout)), Err(Error::Timeout));
}

#[test]
fn conditional_requests_send_the_validators() {
    let sent = |etag: Option<&str>, last_modified: Option<&str>| {
        let seen = RefCell::new(vec![]);
        let r = https_get_conditional("h", "/", etag, last_modified, |request| {
            if let HostRequest::HttpsGet { headers, .. } = request {
                *seen.borrow_mut() = headers;
            }
            http(200, vec![header("etag", "new")], b"fresh")
        });
        assert_eq!(r, Ok((b"fresh".to_vec(), Some("new".to_string()), None)));
        seen.into_inner()
    };
    assert_eq!(sent(None, None), vec![]);
    assert_eq!(sent(Some("e"), None), vec![header("If-None-Match", "e")]);
    assert_eq!(
        sent(Some("e"), Some("l")),
        vec![header("If-None-Match", "e"), header("If-Modified-Since", "l")]
    );
}

#[test]
fn unchanged_responses_keep_the_validators() {
    let unchanged = |headers: Vec<Header>| {
        https_get_conditional("h", "/", Some("e"), Some("l"), |_| http(304, headers, b"ignored"))
    };
    assert_eq!(
        unchanged(vec![]),
        Ok((vec![], Some("e".to_string()), Some("l".to_string())))
    );
    assert_eq!(
        unchanged(vec![header("etag", "f")]),
        Ok((vec![], Some("f".to_string()), Some("l".to_string())))
    );
    assert_eq!(
        conditional_result(Err(Error::Timeout), Some("e"), None),
        Err(Error::Timeout)
    );
    assert_eq!(
        https_get_conditional("h", "/", None, None, |_| http(500, vec![], b"x")),
        Err(Error::Http { status: 500, body: "x".to_string() })
    );
}

#[test]
fn requests_go_over_the_wire() {
    let request = || HostRequest::TcpConnect { host: "h".to_string(), port: 1, timeout_ms: 2 };
    let answer = |v: u8| move |_: &[u8]| {
        Ok(VersionedResponse {
            wire_version: v,
            payload: HostResponse::TcpConnect { elapsed_ms: 9 },
        })
    };
    let r = execute_host_request(
        request(),
        |v| Ok(vec![v.wire_version, 7]),
        |sent: &[u8]| {
            assert_eq!(sent, [1, 7]);
            Ok(vec![8])
        },
        answer(1),
    );
    assert_eq!(r, Ok(HostResponse::TcpConnect { elapsed_ms: 9 }));
    let r = execute_host_request(
        request(),
        |_| Ok(vec![]),
        |_: &[u8]| Err(Error::Timeout),
        answer(1),
    );
    assert_eq!(r, Err(Error::Timeout));
    let r = execute_host_request(
        request(),
        |_| Err("full".to_string()),
        |_: &[u8]| panic!("nothing is sent"),
        answer(1),
    );
    assert_eq!(r, Err(Error::Io("failed to encode host request: full".to_string())));
    let r = execute_host_request(request(), |_| Ok(vec![]), |_: &[u8]| Ok(vec![]), answer(3));
    assert_eq!(r, Err(Error::Io("unsupported host response wire version 3".to_string())));
}

#[test]
fn the_channel_answers_or_fails_with_a_status() {
    let io = |message: &str| Err(Error::Io(message.to_string()));
    let call = |submitted: i32, len: i32, read: i32| {
        network_roundtrip(
            b"ask",
            |request: &[u8]| {
                assert_eq!(request, b"ask");
                submitted
            },
            || len,
            |buffer: Vec<u8>| {
                assert_eq!(buffer, vec![0; len as usize]);
                (read, b"answer"[..buffer.len()].to_vec())
            },
        )
    };
    assert_eq!(call(0, 6, 6), Ok(b"answer".to_vec()));
    assert_eq!(call(0, 6, 3), Ok(b"ans".to_vec()));
    assert_eq!(call(0, 3, 9), Ok(b"ans".to_vec()));
    assert_eq!(call(0, 0, 0), Ok(vec![]));
    assert_eq!(call(-1, 6, 6), io("host network_request failed with status -1"));
    assert_eq!(call(5, 6, 6), io("host network_request failed with status 5"));
    assert_eq!(call(0, -2, 6), io("host network_response_len failed with status -2"));
    assert_eq!(call(0, 6, -3), io("host network_response_read failed with status -3"));
    assert_eq!(
        read_answer(i32::MIN, vec![]),
        io("host network_response_read failed with status -2147483648")
    );
    assert!(channel_active(1));
    assert!(!channel_active(0));
}
