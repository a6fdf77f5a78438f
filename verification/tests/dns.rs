use serde_json::Value;

use vzglyd_sidecar::dns::{
    next_lookup_step, normalize_dns_name, parse_dns_answers, ttl_from_answers, DnsAnswer,
    DnsJsonResponse, DnsResolver, LookupStep,
};
use vzglyd_sidecar::host_request::{
    execute_request, execute_request_bytes, HostRequest, HostResponse, VersionedRequest,
};
use vzglyd_sidecar::http::HttpResponse;
use vzglyd_sidecar::ip::{parse_ipv4, Ipv4Addr};
use vzglyd_sidecar::network::{connect_duration, perform_get, Network};
use vzglyd_sidecar::Error;

fn decode(json: &[u8]) -> Result<DnsJsonResponse, String> {
    let value: Value = serde_json::from_slice(json).map_err(|error| error.to_string())?;
    let records = value.get("Answer").and_then(Value::as_array).cloned().unwrap_or_default();
    let record = |record: &Value| DnsAnswer {
        record_type: record["type"].as_u64().expect("type") as u32,
        ttl: record["TTL"].as_u64().map(|ttl| ttl as u32),
        data: record["data"].as_str().expect("data").to_string(),
    };
    Ok(DnsJsonResponse {
        status: value["Status"].as_u64().expect("Status") as u32,
        answers: records.iter().map(record).collect(),
    })
}

fn answer(record_type: u32, ttl: Option<u32>, data: &str) -> DnsAnswer {
    DnsAnswer { record_type, ttl, data: data.to_string() }
}

fn ok(body: &str) -> Result<HttpResponse, Error> {
    Ok(HttpResponse {
        status_code: 200,
        body: body.as_bytes().to_vec(),
        etag: None,
        last_modified: None,
    })
}

const FOUND: &str = r#"{"Status":0,"Answer":[{"type":1,"TTL":60,"data":"1.2.3.4"}]}"#;

#[test]
fn parse_dns_answers_extracts_ipv4_records_and_ttl() {
    let response = decode(
        br#"{
            "Status": 0,
            "Answer": [
                { "name": "api.coinbase.com.", "type": 5, "TTL": 300, "data": "edge.coinbase.com." },
                { "name": "edge.coinbase.com.", "type": 1, "TTL": 120, "data": "104.16.1.10" },
                { "name": "edge.coinbase.com.", "type": 1, "TTL": 60, "data": "104.16.2.10" }
            ]
        }"#,
    )
    .expect("decode DNS payload");

    let (addrs, cname, ttl) = parse_dns_answers(&response);
    assert_eq!(
        addrs,
        vec![Ipv4Addr::new(104, 16, 1, 10), Ipv4Addr::new(104, 16, 2, 10)]
    );
    assert_eq!(cname.as_deref(), Some("edge.coinbase.com"));
    assert_eq!(ttl, 60);
}

#[test]
fn the_first_other_name_counts_and_bad_addresses_are_passed_over() {
    let response = DnsJsonResponse {
        status: 0,
        answers: vec![
            answer(1, None, "not an address"),
            answer(28, None, "1.1.1.1"),
            answer(5, None, "first.."),
            answer(5, None, "second"),
        ],
    };
    let (addrs, cname, ttl) = parse_dns_answers(&response);
    assert!(addrs.is_empty());
    assert_eq!(cname.as_deref(), Some("first"));
    assert_eq!(ttl, 30);
    assert_eq!(normalize_dns_name("a.b.."), "a.b");
    assert_eq!(normalize_dns_name("..."), "");
}

#[test]
fn the_least_time_to_live_is_kept_within_bounds() {
    let kept = |ttls: &[Option<u32>]| {
        let answers: Vec<DnsAnswer> = ttls.iter().map(|ttl| answer(1, *ttl, "")).collect();
        ttl_from_answers(&answers)
    };
    assert_eq!(kept(&[]), 30);
    assert_eq!(kept(&[None]), 30);
    assert_eq!(kept(&[Some(0)]), 30);
    assert_eq!(kept(&[Some(31), None, Some(45)]), 31);
    assert_eq!(kept(&[Some(301), Some(u32::MAX)]), 300);
}

#[test]
fn addresses_are_read_in_dotted_decimal() {
    let read = |s: &str| parse_ipv4(&s.chars().collect::<Vec<char>>());
    assert_eq!(read("0.10.200.255"), Some(Ipv4Addr::new(0, 10, 200, 255)));
    for refused in ["", "1.2.3", "1.2.3.4.5", "1.2.3.256", "01.2.3.4", "1.2.3.+4", "1..3.4", " 1.2.3.4"] {
        assert_eq!(read(refused), None);
    }
    assert_eq!(Ipv4Addr::new(1, 2, 3, 4).octets(), [1, 2, 3, 4]);
}

#[test]
fn lookups_find_follow_or_fail() {
    let response = |status: u32, answers: Vec<DnsAnswer>| Ok(DnsJsonResponse { status, answers });
    match next_lookup_step("h", response(0, vec![answer(1, Some(99), "9.8.7.6")])) {
        LookupStep::Found(addrs, ttl) => {
            assert_eq!(addrs, vec![Ipv4Addr::new(9, 8, 7, 6)]);
            assert_eq!(ttl, 99);
        }
        _ => panic!("an address was found"),
    }
    match next_lookup_step("h", response(0, vec![answer(5, None, "other.")])) {
        LookupStep::Follow(name) => assert_eq!(name, "other"),
        _ => panic!("another name is to be followed"),
    }
    let failures = [
        (
            Err("eof".to_string()),
            "failed to decode DNS response for 'h': eof",
        ),
        (response(3, vec![]), "DNS resolver returned status 3 for 'h'"),
        (response(0, vec![]), "DNS lookup for 'h' returned no IPv4 addresses"),
    ];
    for (seen, message) in failures {
        match next_lookup_step("h", seen) {
            LookupStep::Failed(error) => assert_eq!(error, Error::Dns(message.to_string())),
            _ => panic!("the lookup failed"),
        }
    }
}

/// The world of these tests: the time, the seconds that a request takes, and what was done.
#[derive(Debug, Clone, PartialEq, Eq)]
struct World {
    now: u64,
    request_secs: u64,
    done: Vec<String>,
}

const SECOND: u64 = 1_000_000_000;

fn at(now: u64) -> World {
    World { now, request_secs: 0, done: vec![] }
}

fn clock(mut world: World) -> (World, u64) {
    world.done.push("clock".to_string());
    let now = world.now;
    (world, now)
}

/// An operation that answers requests by their path, and takes its time.
fn answering<F>(
    answer: F,
) -> impl Fn(World, &str, &str, &[(String, String)], Ipv4Addr) -> (World, Result<HttpResponse, Error>)
where
    F: Fn(&str) -> Result<HttpResponse, Error>,
{
    move |mut world, host, path, headers, ip| {
        let [a, b, c, d] = ip.octets();
        let headers: Vec<String> = headers.iter().map(|(n, v)| format!("{n}={v}")).collect();
        world.done.push(format!("{host} {path} {} {a}.{b}.{c}.{d}", headers.join(",")));
        world.now += world.request_secs * SECOND;
        (world, answer(path))
    }
}

fn parse(body: Vec<u8>) -> Result<DnsJsonResponse, String> {
    decode(&body)
}

#[test]
fn the_name_server_is_asked_at_both_addresses() {
    let get = answering(|_| Err(Error::Timeout));
    let mut resolver = DnsResolver::new();
    let (world, r) = resolver.resolve(at(0), "example.com", &clock, &get, &parse);
    assert_eq!(r, Err(Error::Timeout));
    let question = "dns.google /resolve?name=example.com&type=A Accept=application/json";
    assert_eq!(
        world.done,
        vec![
            "clock".to_string(),
            format!("{question} 8.8.8.8"),
            format!("{question} 8.8.4.4"),
        ]
    );
}

#[test]
fn answers_are_kept_until_they_expire() {
    let get = answering(|_| ok(FOUND));
    let mut resolver = DnsResolver::new();
    let found = Ok(vec![Ipv4Addr::new(1, 2, 3, 4)]);
    // The time to live counts from the answer, which takes seven seconds to come.
    let world = World { now: 1_000, request_secs: 7, done: vec![] };
    let (world, r) = resolver.resolve(world, "h", &clock, &get, &parse);
    assert_eq!(r, found);
    assert_eq!(world.done.len(), 3);
    assert_eq!(world.done[2], "clock");
    let expires_at = 1_000 + 67 * SECOND;
    let (world, r) = resolver.resolve(at(expires_at - 1), "h", &clock, &get, &parse);
    assert_eq!((world.done, r), (vec!["clock".to_string()], found.clone()));
    let (world, r) = resolver.resolve(at(expires_at - 1), "g", &clock, &get, &parse);
    assert_eq!((world.done.len(), r), (3, found.clone()));
    let (world, r) = resolver.resolve(at(expires_at), "h", &clock, &get, &parse);
    assert_eq!((world.done.len(), r), (3, found));
}

#[test]
fn what_was_found_is_kept_from_the_answer_on() {
    let never = answering(|_| panic!("no name server is asked"));
    let addrs = vec![Ipv4Addr::new(9, 9, 9, 9)];
    let mut resolver = DnsResolver::new();
    assert_eq!(resolver.keep("h", Ok((addrs.clone(), 45)), 10), Ok(addrs.clone()));
    let (_, r) = resolver.resolve(at(10 + 45 * SECOND - 1), "h", &clock, &never, &parse);
    assert_eq!(r, Ok(addrs.clone()));
    let failing = answering(|_| Err(Error::Timeout));
    let (_, r) = resolver.resolve(at(10 + 45 * SECOND), "h", &clock, &failing, &parse);
    assert_eq!(r, Err(Error::Timeout));
    // What the clock cannot reach expires at once.
    assert_eq!(resolver.keep("h", Ok((addrs.clone(), 30)), u64::MAX), Ok(addrs));
    let (_, r) = resolver.resolve(at(u64::MAX), "h", &clock, &failing, &parse);
    assert_eq!(r, Err(Error::Timeout));
    assert_eq!(resolver.keep("h", Err(Error::Timeout), 0), Err(Error::Timeout));
}

#[test]
fn a_failed_lookup_keeps_nothing() {
    let works = answering(|_| ok(FOUND));
    let fails = answering(|_| Err(Error::Timeout));
    let mut resolver = DnsResolver::new();
    assert!(resolver.resolve(at(0), "h", &clock, &works, &parse).1.is_ok());
    let (world, r) = resolver.resolve(at(61 * SECOND), "h", &clock, &fails, &parse);
    assert_eq!(r, Err(Error::Timeout));
    // The clock is not read again: there is nothing to keep.
    assert_eq!(world.done.iter().filter(|done| *done == "clock").count(), 1);
    let (_, r) = resolver.resolve(at(0), "h", &clock, &fails, &parse);
    assert_eq!(r, Err(Error::Timeout));
}

#[test]
fn other_names_are_followed_four_deep() {
    let chain = |length: usize| {
        answering(move |path| {
            let name = path.trim_start_matches("/resolve?name=").trim_end_matches("&type=A");
            let depth: usize = name.trim_start_matches('n').parse().expect("a number");
            if depth == length {
                ok(FOUND)
            } else {
                let next = depth + 1;
                ok(&format!(r#"{{"Status":0,"Answer":[{{"type":5,"data":"n{next}."}}]}}"#))
            }
        })
    };
    let resolve = |length: usize| {
        let (world, r) =
            DnsResolver::new().resolve(at(0), "n0", &clock, &chain(length), &parse);
        (world.done.iter().filter(|done| *done != "clock").count(), r)
    };
    assert_eq!(resolve(3), (4, Ok(vec![Ipv4Addr::new(1, 2, 3, 4)])));
    // At the limit the name server is not asked.
    assert_eq!(
        resolve(4),
        (4, Err(Error::Dns("DNS lookup for 'n4' exceeded CNAME depth limit".to_string())))
    );
}

#[test]
fn an_answer_without_success_is_an_error() {
    let get = answering(|_| {
        Ok(HttpResponse {
            status_code: 503,
            body: b"busy".to_vec(),
            etag: None,
            last_modified: None,
        })
    });
    assert_eq!(
        DnsResolver::new().resolve(at(0), "h", &clock, &get, &parse).1,
        Err(Error::Http { status: 503, body: "busy".to_string() })
    );
}

fn serve(
    mut world: World,
    _: &str,
    path: &str,
    _: &[(String, String)],
    ip: Ipv4Addr,
) -> (World, Result<HttpResponse, Error>) {
    world.done.push(path.to_string());
    if path.starts_with("/resolve") {
        let answer =
            r#"{"Status":0,"Answer":[{"type":1,"data":"1.1.1.1"},{"type":1,"data":"2.2.2.2"}]}"#;
        return (world, ok(answer));
    }
    if ip == Ipv4Addr::new(1, 1, 1, 1) {
        return (world, Err(Error::Timeout));
    }
    let answer = HttpResponse {
        status_code: 200,
        body: path.as_bytes().to_vec(),
        etag: Some("e".to_string()),
        last_modified: None,
    };
    (world, Ok(answer))
}

fn reach(
    mut world: World,
    ip: Ipv4Addr,
    port: u16,
    timeout_ms: u32,
) -> (World, Result<u128, Error>) {
    world.done.push("connect".to_string());
    if ip == Ipv4Addr::new(1, 1, 1, 1) {
        (world, Err(Error::Timeout))
    } else {
        (world, Ok(u128::from(port) + u128::from(timeout_ms)))
    }
}

#[test]
fn requests_try_one_address_after_the_other() {
    let network = Network { clock, get: serve, parse, connect: reach };
    let mut resolver = DnsResolver::new();
    let (world, got) = perform_get(at(0), &mut resolver, &network, "h", "/x", &[]);
    assert_eq!(got.unwrap().body, b"/x");
    assert_eq!(
        world.done,
        vec!["clock", "/resolve?name=h&type=A", "clock", "/x", "/x"]
    );
    let (world, took) = connect_duration(at(0), &mut resolver, &network, "h", 7, 100);
    assert_eq!(took, Ok(107));
    assert_eq!(world.done, vec!["clock", "connect", "connect"]);
}

#[test]
fn requests_are_executed_into_responses() {
    let network = Network {
        clock,
        get: serve,
        parse,
        connect: |world: World, _: Ipv4Addr, port: u16, _: u32| {
            if port == 1 {
                (world, Ok(u128::MAX))
            } else {
                (world, Err(Error::Io("refused".to_string())))
            }
        },
    };
    let mut resolver = DnsResolver::new();
    let get = HostRequest::HttpsGet {
        host: "h".to_string(),
        path: "/y".to_string(),
        headers: vec![],
    };
    match execute_request(at(0), get, &mut resolver, &network).1 {
        HostResponse::Http { status_code, headers, body } => {
            assert_eq!(status_code, 200);
            assert_eq!(headers.len(), 1);
            assert_eq!(headers[0].name, "etag");
            assert_eq!(body, b"/y");
        }
        _ => panic!("an HTTP response"),
    }
    let connect = |port: u16| HostRequest::TcpConnect {
        host: "h".to_string(),
        port,
        timeout_ms: 5,
    };
    assert_eq!(
        execute_request(at(0), connect(1), &mut resolver, &network).1,
        HostResponse::TcpConnect { elapsed_ms: u64::MAX }
    );
    match execute_request(at(0), connect(2), &mut resolver, &network).1 {
        HostResponse::Error { message, .. } => assert_eq!(message, "I/O error: refused"),
        _ => panic!("an error"),
    }
    let (_, served) = execute_request_bytes(
        at(0),
        b"?",
        &mut resolver,
        &network,
        |_: &[u8]| Ok(VersionedRequest { wire_version: 1, payload: connect(1) }),
        |v| Ok(vec![v.wire_version]),
    );
    assert_eq!(served, Ok(vec![1]));
}

#[test]
fn nothing_is_executed_for_bytes_that_are_no_request() {
    let network = Network { clock, get: serve, parse, connect: reach };
    let (world, refused) = execute_request_bytes(
        at(3),
        b"?",
        &mut DnsResolver::new(),
        &network,
        |_: &[u8]| Err("no".to_string()),
        |_| panic!("nothing is encoded"),
    );
    assert_eq!(world, at(3));
    assert_eq!(refused, Err(Error::Io("failed to decode host request: no".to_string())));
}
