use serde_json::Value;

use vzglyd_sidecar::client::execute_host_request;
use vzglyd_sidecar::dns::{DnsAnswer, DnsJsonResponse, DnsResolver};
use vzglyd_sidecar::host_request::{
    accept_request, accept_response, decode_error, decode_request, decode_response, encode_request,
    encode_response, error_response, execute_request_bytes, headers_as_pairs, headers_from_response, ErrorKind, Header,
    HostRequest, HostResponse, VersionedRequest, VersionedResponse,
};
use vzglyd_sidecar::http::HttpResponse;
use vzglyd_sidecar::ip::Ipv4Addr;
use vzglyd_sidecar::network::Network;
use vzglyd_sidecar::{https_get_conditional, tcp_connect, Error};

fn text(s: &str) -> Value {
    Value::String(s.to_string())
}

fn headers_value(headers: &[Header]) -> Value {
    let item = |header: &Header| {
        let mut map = serde_json::Map::new();
        map.insert("name".to_string(), text(&header.name));
        map.insert("value".to_string(), text(&header.value));
        Value::Object(map)
    };
    Value::Array(headers.iter().map(item).collect())
}

fn headers_back(value: &Value) -> Option<Vec<Header>> {
    let item = |value: &Value| {
        Some(Header {
            name: value.get("name")?.as_str()?.to_string(),
            value: value.get("value")?.as_str()?.to_string(),
        })
    };
    value.as_array()?.iter().map(item).collect()
}

fn write_request(v: VersionedRequest) -> Result<Vec<u8>, String> {
    let mut map = serde_json::Map::new();
    map.insert("wire_version".to_string(), Value::from(v.wire_version));
    match v.payload {
        HostRequest::HttpsGet { host, path, headers } => {
            map.insert("kind".to_string(), text("https_get"));
            map.insert("host".to_string(), text(&host));
            map.insert("path".to_string(), text(&path));
            map.insert("headers".to_string(), headers_value(&headers));
        }
        HostRequest::TcpConnect { host, port, timeout_ms } => {
            map.insert("kind".to_string(), text("tcp_connect"));
            map.insert("host".to_string(), text(&host));
            map.insert("port".to_string(), Value::from(port));
            map.insert("timeout_ms".to_string(), Value::from(timeout_ms));
        }
    }
    serde_json::to_vec(&Value::Object(map)).map_err(|error| error.to_string())
}

fn request_back(value: &Value) -> Option<VersionedRequest> {
    let host = value.get("host")?.as_str()?.to_string();
    let payload = match value.get("kind")?.as_str()? {
        "https_get" => HostRequest::HttpsGet {
            host,
            path: value.get("path")?.as_str()?.to_string(),
            headers: headers_back(value.get("headers")?)?,
        },
        _ => HostRequest::TcpConnect {
            host,
            port: value.get("port")?.as_u64()? as u16,
            timeout_ms: value.get("timeout_ms")?.as_u64()? as u32,
        },
    };
    Some(VersionedRequest { wire_version: value.get("wire_version")?.as_u64()? as u8, payload })
}

fn read_request(bytes: &[u8]) -> Result<VersionedRequest, String> {
    let value: Value = serde_json::from_slice(bytes).map_err(|error| error.to_string())?;
    request_back(&value).ok_or("no request".to_string())
}

fn write_response(v: VersionedResponse) -> Result<Vec<u8>, String> {
    let mut map = serde_json::Map::new();
    map.insert("wire_version".to_string(), Value::from(v.wire_version));
    match v.payload {
        HostResponse::Http { status_code, headers, body } => {
            map.insert("kind".to_string(), text("http"));
            map.insert("status_code".to_string(), Value::from(status_code));
            map.insert("headers".to_string(), headers_value(&headers));
            map.insert("body".to_string(), Value::from(body));
        }
        HostResponse::TcpConnect { elapsed_ms } => {
            map.insert("kind".to_string(), text("tcp_connect"));
            map.insert("elapsed_ms".to_string(), Value::from(elapsed_ms));
        }
        HostResponse::Error { error_kind, message } => {
            map.insert("kind".to_string(), text("error"));
            map.insert("error_kind".to_string(), Value::from(error_kind as u8));
            map.insert("message".to_string(), text(&message));
        }
    }
    serde_json::to_vec(&Value::Object(map)).map_err(|error| error.to_string())
}

fn response_back(value: &Value) -> Option<VersionedResponse> {
    let payload = match value.get("kind")?.as_str()? {
        "http" => HostResponse::Http {
            status_code: value.get("status_code")?.as_u64()? as u16,
            headers: headers_back(value.get("headers")?)?,
            body: value
                .get("body")?
                .as_array()?
                .iter()
                .map(|byte| byte.as_u64().map(|byte| byte as u8))
                .collect::<Option<Vec<u8>>>()?,
        },
        "tcp_connect" => {
            HostResponse::TcpConnect { elapsed_ms: value.get("elapsed_ms")?.as_u64()? }
        }
        _ => HostResponse::Error {
            error_kind: match value.get("error_kind")?.as_u64()? {
                0 => ErrorKind::Dns,
                1 => ErrorKind::Tls,
                2 => ErrorKind::Io,
                _ => ErrorKind::Timeout,
            },
            message: value.get("message")?.as_str()?.to_string(),
        },
    };
    Some(VersionedResponse { wire_version: value.get("wire_version")?.as_u64()? as u8, payload })
}

fn read_response(bytes: &[u8]) -> Result<VersionedResponse, String> {
    let value: Value = serde_json::from_slice(bytes).map_err(|error| error.to_string())?;
    response_back(&value).ok_or("no response".to_string())
}

#[test]
fn request_wire_roundtrips() {
    let request = HostRequest::HttpsGet {
        host: "air-quality-api.open-meteo.com".to_string(),
        path: "/v1/air-quality".to_string(),
        headers: vec![Header {
            name: "accept".to_string(),
            value: "application/json".to_string(),
        }],
    };

    let encoded = encode_request(&request, write_request).expect("encode request");
    let decoded = decode_request(&encoded, read_request).expect("decode request");
    assert_eq!(decoded, request);
}

#[test]
fn response_wire_roundtrips() {
    let response = HostResponse::Http {
        status_code: 200,
        headers: vec![Header {
            name: "etag".to_string(),
            value: "\"abc\"".to_string(),
        }],
        body: b"payload".to_vec(),
    };

    let encoded = encode_response(&response, write_response).expect("encode response");
    let decoded = decode_response(&encoded, read_response).expect("decode response");
    assert_eq!(decoded, response);
}

#[test]
fn the_other_messages_roundtrip() {
    let request =
        HostRequest::TcpConnect { host: "h".to_string(), port: 443, timeout_ms: 1500 };
    let encoded = encode_request(&request, write_request).unwrap();
    assert_eq!(decode_request(&encoded, read_request), Ok(request));
    let responses = [
        HostResponse::TcpConnect { elapsed_ms: u64::MAX },
        HostResponse::Error { error_kind: ErrorKind::Tls, message: "no".to_string() },
    ];
    for response in responses {
        let encoded = encode_response(&response, write_response).unwrap();
        assert_eq!(decode_response(&encoded, read_response), Ok(response));
    }
}

#[test]
fn the_wire_has_version_one() {
    let request = HostRequest::TcpConnect { host: String::new(), port: 1, timeout_ms: 2 };
    let seen = encode_request(&request, |v| Ok(vec![v.wire_version])).unwrap();
    assert_eq!(seen, vec![1]);
    let response = HostResponse::TcpConnect { elapsed_ms: 3 };
    let seen = encode_response(&response, |v| Ok(vec![v.wire_version])).unwrap();
    assert_eq!(seen, vec![1]);
}

#[test]
fn other_versions_and_unreadable_messages_are_refused() {
    let request = HostRequest::TcpConnect { host: String::new(), port: 1, timeout_ms: 2 };
    assert_eq!(
        accept_request(Ok(VersionedRequest { wire_version: 2, payload: request.copied() })),
        Err(Error::Io("unsupported host request wire version 2".to_string()))
    );
    assert_eq!(
        accept_request(Err("eof".to_string())),
        Err(Error::Io("failed to decode host request: eof".to_string()))
    );
    let response = HostResponse::TcpConnect { elapsed_ms: 3 };
    assert_eq!(
        accept_response(Ok(VersionedResponse { wire_version: 255, payload: response.copied() })),
        Err(Error::Io("unsupported host response wire version 255".to_string()))
    );
    assert_eq!(
        accept_response(Err("eof".to_string())),
        Err(Error::Io("failed to decode host response: eof".to_string()))
    );
    assert_eq!(
        encode_request(&request, |_| Err("full".to_string())),
        Err(Error::Io("failed to encode host request: full".to_string()))
    );
    assert_eq!(
        encode_response(&response, |_| Err("full".to_string())),
        Err(Error::Io("failed to encode host response: full".to_string()))
    );
}

#[test]
fn errors_cross_the_wire() {
    let sent = [
        (
            Error::Dns("a".to_string()),
            ErrorKind::Dns,
            "DNS error: a",
            Error::Dns("DNS error: a".to_string()),
        ),
        (
            Error::Tls("b".to_string()),
            ErrorKind::Tls,
            "TLS error: b",
            Error::Tls("TLS error: b".to_string()),
        ),
        (
            Error::Io("c".to_string()),
            ErrorKind::Io,
            "I/O error: c",
            Error::Io("I/O error: c".to_string()),
        ),
        (
            Error::Http { status: 404, body: "d".to_string() },
            ErrorKind::Io,
            "HTTP 404: d",
            Error::Io("HTTP 404: d".to_string()),
        ),
        (Error::Timeout, ErrorKind::Timeout, "operation timed out", Error::Timeout),
    ];
    for (error, kind, message, arrived) in sent {
        assert_eq!(error.to_string(), message);
        assert_eq!(
            error_response(error),
            HostResponse::Error { error_kind: kind, message: message.to_string() }
        );
        assert_eq!(decode_error(kind, message.to_string()), arrived);
    }
}

#[test]
fn headers_are_carried() {
    let pairs = headers_as_pairs(&[Header { name: "n".to_string(), value: "v".to_string() }]);
    assert_eq!(pairs, vec![("n".to_string(), "v".to_string())]);
    let response = HttpResponse {
        status_code: 200,
        body: vec![],
        etag: Some("e".to_string()),
        last_modified: Some("l".to_string()),
    };
    assert_eq!(
        headers_from_response(&response),
        vec![
            Header { name: "etag".to_string(), value: "e".to_string() },
            Header { name: "last-modified".to_string(), value: "l".to_string() },
        ]
    );
}

#[test]
fn a_sidecar_gets_what_its_host_fetched() {
    let network = Network {
        clock: |world: ()| (world, 0),
        get: |world: (), host: &str, path: &str, headers: &[(String, String)], _: Ipv4Addr| {
            let answer = HttpResponse {
                status_code: 200,
                body: format!("{host}{path}{}", headers.len()).into_bytes(),
                etag: Some("e".to_string()),
                last_modified: Some("l".to_string()),
            };
            (world, Ok(answer))
        },
        parse: |_: Vec<u8>| {
            let answer =
                DnsAnswer { record_type: 1, ttl: None, data: "192.0.2.7".to_string() };
            Ok(DnsJsonResponse { status: 0, answers: vec![answer] })
        },
        connect: |world: (), ip: Ipv4Addr, _: u16, _: u32| match ip.octets() {
            [192, 0, 2, 7] => (world, Err(Error::Timeout)),
            _ => (world, Ok(0)),
        },
    };
    let host = |bytes: &[u8]| {
        let mut resolver = DnsResolver::new();
        execute_request_bytes((), bytes, &mut resolver, &network, read_request, write_response).1
    };
    let exchange =
        |request: HostRequest| execute_host_request(request, write_request, host, read_response);
    assert_eq!(
        https_get_conditional("h", "/p", Some("old"), None, exchange),
        Ok((b"h/p1".to_vec(), Some("e".to_string()), Some("l".to_string())))
    );
    assert_eq!(tcp_connect("h", 443, 10, exchange), Err(Error::Timeout));
}
