use std::cell::RefCell;

use vzglyd_sidecar::candidates::https_get_with_candidates;
use vzglyd_sidecar::error::{IoFailure, IoKind};
use vzglyd_sidecar::http::HttpResponse;
use vzglyd_sidecar::ip::Ipv4Addr;
use vzglyd_sidecar::number::{decimal_text, signed_decimal_text};
use vzglyd_sidecar::socket::{
    bytes_moved, connect_any, connect_wasi, errno, wasi_address_bytes,
};
use vzglyd_sidecar::text::{trim_chars, whitespace};
use vzglyd_sidecar::tls::{tls_connect, TlsSessions};
use vzglyd_sidecar::Error;

const HERE: Ipv4Addr = Ipv4Addr { a: 127, b: 0, c: 0, d: 1 };
const THERE: Ipv4Addr = Ipv4Addr { a: 10, b: 0, c: 0, d: 2 };

#[test]
fn the_first_address_that_answers_counts() {
    let get = |mut tried: Vec<Ipv4Addr>,
               _: &str,
               _: &str,
               _: &[(String, String)],
               ip: Ipv4Addr| {
        tried.push(ip);
        if ip == HERE {
            (tried, Err(Error::Io("here".to_string())))
        } else {
            let answer =
                HttpResponse { status_code: 204, body: vec![], etag: None, last_modified: None };
            (tried, Ok(answer))
        }
    };
    let try_at =
        |ips: &[Ipv4Addr]| https_get_with_candidates(vec![], "h", "/", &[], ips, &get);
    let (tried, got) = try_at(&[HERE, THERE, HERE]);
    assert_eq!(got.unwrap().status_code, 204);
    assert_eq!(tried, vec![HERE, THERE]);
    assert_eq!(
        try_at(&[HERE, HERE]),
        (vec![HERE, HERE], Err(Error::Io("here".to_string())))
    );
    assert_eq!(
        try_at(&[]),
        (vec![], Err(Error::Dns("no IPv4 addresses available for 'h'".to_string())))
    );
}

#[test]
fn connections_try_one_address_after_the_other() {
    let connect = |mut tried: Vec<Ipv4Addr>, ip: Ipv4Addr, _: u16, _: u32| {
        tried.push(ip);
        if ip == HERE {
            (tried, Err(Error::Timeout))
        } else {
            (tried, Ok(17))
        }
    };
    let try_at = |ips: &[Ipv4Addr]| connect_any(vec![], ips, 80, 1, &connect);
    assert_eq!(try_at(&[HERE, THERE, THERE]), (vec![HERE, THERE], Ok(17)));
    assert_eq!(try_at(&[HERE]), (vec![HERE], Err(Error::Timeout)));
    let nowhere = "no IPv4 addresses available for TCP connect on port 80".to_string();
    assert_eq!(try_at(&[]), (vec![], Err(Error::Dns(nowhere))));
}

#[test]
fn sandbox_addresses_have_eight_bytes() {
    assert_eq!(wasi_address_bytes(THERE, 443), [0, 0, 1, 187, 10, 0, 0, 2]);
    assert_eq!(wasi_address_bytes(HERE, 65_534), [0, 0, 255, 254, 127, 0, 0, 1]);
}

#[test]
fn sandbox_calls_fail_with_an_errno() {
    assert_eq!(
        errno("sock_send", 6),
        IoFailure { kind: IoKind::Other, message: "sock_send failed with errno 6".to_string() }
    );
    assert_eq!(bytes_moved("sock_recv", 0, 12), Ok(12));
    assert_eq!(bytes_moved("sock_recv", -8, 12), Err(errno("sock_recv", -8)));
}

#[test]
fn sandbox_sockets_connect_or_are_shut_down() {
    let io = |message: &str| Err(Error::Io(message.to_string()));
    let shut = RefCell::new(vec![]);
    let connect = |opened: i32, connected: i32| {
        connect_wasi(
            THERE,
            443,
            || (opened, 3),
            |fd, address| {
                assert_eq!((fd, address), (3, [0, 0, 1, 187, 10, 0, 0, 2]));
                connected
            },
            |fd| shut.borrow_mut().push(fd),
        )
    };
    assert_eq!(connect(0, 0), Ok(3));
    assert_eq!(connect(24, 0), io("sock_open failed with errno 24"));
    assert!(shut.borrow().is_empty());
    assert_eq!(connect(0, 111), io("sock_connect failed with errno 111"));
    assert_eq!(shut.take(), vec![3]);
}

#[test]
fn sessions_start_over_a_connection() {
    let io = |message: &str| Error::Io(message.to_string());
    let connected = tls_connect(
        "example.com",
        443,
        HERE,
        |ip, port| {
            assert_eq!((ip, port), (HERE, 443));
            Ok("socket")
        },
        |host: &str| Ok(host.len()),
    );
    assert_eq!(connected, Ok((11, "socket")));
    let unreached: Result<(usize, &str), Error> = tls_connect(
        "not a name",
        443,
        HERE,
        |_, _| Err(io("down")),
        |_: &str| panic!("no session is tried"),
    );
    assert_eq!(unreached, Err(io("down")));
    let unnamed: Result<(usize, &str), Error> =
        tls_connect("not a name", 443, HERE, |_, _| Ok("socket"), |_: &str| {
            panic!("no session is tried")
        });
    assert_eq!(
        unnamed,
        Err(Error::Tls("invalid TLS server name 'not a name': invalid dns name".to_string()))
    );
    let failed: Result<(usize, &str), Error> =
        tls_connect("example.com", 443, HERE, |_, _| Ok("socket"), |_: &str| {
            Err("no entropy".to_string())
        });
    assert_eq!(
        failed,
        Err(Error::Tls("failed to create TLS session: no entropy".to_string()))
    );
}

#[test]
fn sessions_are_for_named_servers() {
    let sessions = TlsSessions::new();
    let session = sessions.session("example.com").expect("a session");
    let mut hello = Vec::new();
    session.into_connection().write_tls(&mut hello).expect("a greeting");
    // The greeting names the server, and offers the versions 3.4 and 3.3 of the protocol.
    assert!(hello.windows(11).any(|window| window == b"example.com"));
    assert!(hello.windows(5).any(|window| window == [4, 3, 4, 3, 3]));
    assert!(sessions.session("192.0.2.1").is_ok());
    assert_eq!(sessions.session("").err(), Some("invalid dns name".to_string()));
    assert_eq!(sessions.session("a b").err(), Some("invalid dns name".to_string()));
}

#[test]
fn sessions_connect_to_their_server() {
    let sessions = TlsSessions::new();
    let (session, socket) = sessions
        .connect("example.com", 443, HERE, |ip, port| Ok((ip, port)))
        .expect("a session over a socket");
    assert_eq!(socket, (HERE, 443));
    let mut hello = Vec::new();
    session.into_connection().write_tls(&mut hello).expect("a greeting");
    assert!(hello.windows(11).any(|window| window == b"example.com"));
    assert_eq!(
        sessions.connect("a b", 443, HERE, |_, _| Ok(())).err(),
        Some(Error::Tls("invalid TLS server name 'a b': invalid dns name".to_string()))
    );
    assert_eq!(
        sessions.connect("a b", 443, HERE, |_, _| Err::<(), Error>(Error::Timeout)).err(),
        Some(Error::Timeout)
    );
}

#[test]
fn io_failures_become_errors() {
    let failure = |kind: IoKind| IoFailure { kind, message: "m".to_string() };
    assert_eq!(Error::from(failure(IoKind::TimedOut)), Error::Timeout);
    assert_eq!(Error::from(failure(IoKind::UnexpectedEof)), Error::Io("m".to_string()));
    assert_eq!(Error::from(failure(IoKind::Other)), Error::Io("m".to_string()));
}

#[test]
fn whitespace_is_that_of_unicode() {
    for c in '\0'..=char::MAX {
        assert_eq!(whitespace(c), c.is_whitespace());
    }
    let chars: Vec<char> = "\u{3000} a b\t\u{85}".chars().collect();
    assert_eq!(trim_chars(&chars), ['a', ' ', 'b']);
}

#[test]
fn numbers_are_written_in_decimal() {
    assert_eq!(decimal_text(0), "0");
    assert_eq!(decimal_text(u64::MAX), "18446744073709551615");
    assert_eq!(signed_decimal_text(-10), "-10");
    assert_eq!(signed_decimal_text(i32::MIN), "-2147483648");
    assert_eq!(signed_decimal_text(i32::MAX), "2147483647");
}
