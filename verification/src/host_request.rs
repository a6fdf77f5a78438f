//! Host-mediated request wire used by sidecars and native hosts.
//!
//! The wire format is JSON. The JSON itself is written and read by the functions that callers
//! hand in; what is put on the wire, and what is accepted from it, is decided here.

use vstd::prelude::*;
use vstd::string::*;

use crate::candidates::{calls, comes_to};
use crate::dns::{resolved, CacheView, DnsJsonResponse, DnsResolver, Resolution};
use crate::error::{result_view, Error, ErrorView};
use crate::http::{pairs_text, HttpResponse, HttpResponseView};
use crate::ip::Ipv4Addr;
use crate::network::{
    connect_duration, law_connection_keeps_to_the_request, law_get_keeps_to_the_request, perform_get,
    Network,
};
use crate::number::{decimal, decimal_text};
use crate::response_reader::{outcome, ResponseOutcome};
use crate::socket::{connections, ConnectOutcome};
use crate::text::join2;

verus! {

/// The version of the wire format.
pub const WIRE_VERSION: u8 = 1;

/// A single HTTP header in host-mediated requests or responses.
#[derive(Debug, Clone, PartialEq, Eq)]
pub struct Header {
    /// Header name.
    pub name: String,
    /// Header value.
    pub value: String,
}

/// Request payload sent from the sidecar guest to the host.
#[derive(Debug, Clone, PartialEq, Eq)]
pub enum HostRequest {
    /// Perform an HTTPS `GET`.
    HttpsGet {
        /// Remote host name.
        host: String,
        /// Absolute request path, including query string.
        path: String,
        /// Optional request headers.
        headers: Vec<Header>,
    },
    /// Measure TCP reachability and connection latency.
    TcpConnect {
        /// Remote host name.
        host: String,
        /// TCP port to connect to.
        port: u16,
        /// Timeout budget in milliseconds.
        timeout_ms: u32,
    },
}

/// Structured error class carried across the host request wire.
#[derive(Debug, Clone, Copy, PartialEq, Eq, Structural)]
pub enum ErrorKind {
    /// DNS resolution failed.
    Dns,
    /// TLS setup or handshake failed.
    Tls,
    /// General I/O failed.
    Io,
    /// The request timed out.
    Timeout,
}

/// Response payload returned by the host.
#[derive(Debug, Clone, PartialEq, Eq)]
pub enum HostResponse {
    /// HTTP response metadata and body.
    Http {
        /// HTTP status code.
        status_code: u16,
        /// Selected response headers.
        headers: Vec<Header>,
        /// Response body bytes.
        body: Vec<u8>,
    },
    /// Successful TCP reachability result.
    TcpConnect {
        /// Milliseconds spent establishing the socket.
        elapsed_ms: u64,
    },
    /// Host-side transport failure.
    Error {
        /// Error classification.
        error_kind: ErrorKind,
        /// Human-readable error text.
        message: String,
    },
}

/// A request with the version of the wire format that it is written in.
#[derive(Debug, Clone, PartialEq, Eq)]
pub struct VersionedRequest {
    /// The version of the wire format.
    pub wire_version: u8,
    /// The request.
    pub payload: HostRequest,
}

/// A response with the version of the wire format that it is written in.
#[derive(Debug, Clone, PartialEq, Eq)]
pub struct VersionedResponse {
    /// The version of the wire format.
    pub wire_version: u8,
    /// The response.
    pub payload: HostResponse,
}

/// What a [`HostRequest`] holds. A header is its name and its value.
pub enum HostRequestView {
    /// See [`HostRequest::HttpsGet`].
    HttpsGet {
        /// Remote host name.
        host: Seq<char>,
        /// Absolute request path, including query string.
        path: Seq<char>,
        /// Optional request headers.
        headers: Seq<(Seq<char>, Seq<char>)>,
    },
    /// See [`HostRequest::TcpConnect`].
    TcpConnect {
        /// Remote host name.
        host: Seq<char>,
        /// TCP port to connect to.
        port: u16,
        /// Timeout budget in milliseconds.
        timeout_ms: u32,
    },
}

/// What a [`HostResponse`] holds. A header is its name and its value.
pub enum HostResponseView {
    /// See [`HostResponse::Http`].
    Http {
        /// HTTP status code.
        status_code: u16,
        /// Selected response headers.
        headers: Seq<(Seq<char>, Seq<char>)>,
        /// Response body bytes.
        body: Seq<u8>,
    },
    /// See [`HostResponse::TcpConnect`].
    TcpConnect {
        /// Milliseconds spent establishing the socket.
        elapsed_ms: u64,
    },
    /// See [`HostResponse::Error`].
    Error {
        /// Error classification.
        error_kind: ErrorKind,
        /// Human-readable error text.
        message: Seq<char>,
    },
}

/// Headers as text.
pub open spec fn headers_text(headers: Seq<Header>) -> Seq<(Seq<char>, Seq<char>)> {
    headers.map_values(|h: Header| (h.name@, h.value@))
}

impl View for HostRequest {
    type V = HostRequestView;

    open spec fn view(&self) -> HostRequestView {
        match *self {
            HostRequest::HttpsGet { host, path, headers } => HostRequestView::HttpsGet {
                host: host@,
                path: path@,
                headers: headers_text(headers@),
            },
            HostRequest::TcpConnect { host, port, timeout_ms } => HostRequestView::TcpConnect {
                host: host@,
                port,
                timeout_ms,
            },
        }
    }
}

impl View for HostResponse {
    type V = HostResponseView;

    open spec fn view(&self) -> HostResponseView {
        match *self {
            HostResponse::Http { status_code, headers, body } => HostResponseView::Http {
                status_code,
                headers: headers_text(headers@),
                body: body@,
            },
            HostResponse::TcpConnect { elapsed_ms } => HostResponseView::TcpConnect { elapsed_ms },
            HostResponse::Error { error_kind, message } => HostResponseView::Error {
                error_kind,
                message: message@,
            },
        }
    }
}

/// `headers` once more.
fn copied_headers(headers: &Vec<Header>) -> (r: Vec<Header>)
    ensures
        headers_text(r@) == headers_text(headers@),
{
    let mut r: Vec<Header> = Vec::new();
    for i in 0..headers.len()
        invariant
            headers_text(r@) == headers_text(headers@).take(i as int),
    {
        let ghost before = r@;
        r.push(Header { name: headers[i].name.clone(), value: headers[i].value.clone() });
        assert(headers_text(r@) =~= headers_text(before).push(headers_text(headers@)[i as int]));
        assert(headers_text(r@) =~= headers_text(headers@).take(i + 1));
    }
    assert(headers_text(r@) =~= headers_text(headers@));
    r
}

/// `bytes` once more.
fn copied_bytes(bytes: &Vec<u8>) -> (r: Vec<u8>)
    ensures
        r@ == bytes@,
{
    vstd::slice::slice_to_vec(bytes.as_slice())
}

impl HostRequest {
    /// The same request once more.
    pub fn copied(&self) -> (r: HostRequest)
        ensures
            r@ == self@,
    {
        match self {
            HostRequest::HttpsGet { host, path, headers } => HostRequest::HttpsGet {
                host: host.clone(),
                path: path.clone(),
                headers: copied_headers(headers),
            },
            HostRequest::TcpConnect { host, port, timeout_ms } => HostRequest::TcpConnect {
                host: host.clone(),
                port: *port,
                timeout_ms: *timeout_ms,
            },
        }
    }
}

impl HostResponse {
    /// The same response once more.
    pub fn copied(&self) -> (r: HostResponse)
        ensures
            r@ == self@,
    {
        match self {
            HostResponse::Http { status_code, headers, body } => HostResponse::Http {
                status_code: *status_code,
                headers: copied_headers(headers),
                body: copied_bytes(body),
            },
            HostResponse::TcpConnect { elapsed_ms } => HostResponse::TcpConnect {
                elapsed_ms: *elapsed_ms,
            },
            HostResponse::Error { error_kind, message } => HostResponse::Error {
                error_kind: *error_kind,
                message: message.clone(),
            },
        }
    }
}

/// Bytes for the wire, or an error.
pub type Encoded = Result<Seq<u8>, ErrorView>;

/// An encoding result as its view.
pub open spec fn encoded_view(r: Result<Vec<u8>, Error>) -> Encoded {
    match r {
        Ok(bytes) => Ok(bytes@),
        Err(error) => Err(error@),
    }
}

/// Whether encoding `request` can come to `out`, where `serialize` writes JSON.
pub open spec fn request_encoded<S: FnOnce(VersionedRequest) -> Result<Vec<u8>, String>>(
    serialize: S,
    request: HostRequestView,
    out: Encoded,
) -> bool {
    exists|v: VersionedRequest, r: Result<Vec<u8>, String>|
        v.wire_version == WIRE_VERSION && v.payload@ == request && #[trigger] call_ensures(
            serialize,
            (v,),
            r,
        ) && out == match r {
            Ok(bytes) => Ok::<Seq<u8>, ErrorView>(bytes@),
            Err(message) => Err(ErrorView::Io("failed to encode host request: "@ + message@)),
        }
}

/// Whether encoding `response` can come to `out`, where `serialize` writes JSON.
pub open spec fn response_encoded<S: FnOnce(VersionedResponse) -> Result<Vec<u8>, String>>(
    serialize: S,
    response: HostResponseView,
    out: Encoded,
) -> bool {
    exists|v: VersionedResponse, r: Result<Vec<u8>, String>|
        v.wire_version == WIRE_VERSION && v.payload@ == response && #[trigger] call_ensures(
            serialize,
            (v,),
            r,
        ) && out == match r {
            Ok(bytes) => Ok::<Seq<u8>, ErrorView>(bytes@),
            Err(message) => Err(ErrorView::Io("failed to encode host response: "@ + message@)),
        }
}

/// A request off the wire, or an error.
pub type DecodedRequest = Result<HostRequestView, ErrorView>;

/// A response off the wire, or an error.
pub type DecodedResponse = Result<HostResponseView, ErrorView>;

/// A decoded request as its view.
pub open spec fn request_view(r: Result<HostRequest, Error>) -> DecodedRequest {
    match r {
        Ok(request) => Ok(request@),
        Err(error) => Err(error@),
    }
}

/// A decoded response as its view.
pub open spec fn response_view(r: Result<HostResponse, Error>) -> DecodedResponse {
    match r {
        Ok(response) => Ok(response@),
        Err(error) => Err(error@),
    }
}

/// What is accepted of a request as it was read off the wire: its version must be the one that is
/// spoken here.
pub open spec fn accepted_request(parsed: Result<VersionedRequest, String>) -> DecodedRequest {
    match parsed {
        Err(message) => Err(ErrorView::Io("failed to decode host request: "@ + message@)),
        Ok(v) => if v.wire_version != WIRE_VERSION {
            Err(
                ErrorView::Io(
                    "unsupported host request wire version "@ + decimal(v.wire_version as nat),
                ),
            )
        } else {
            Ok(v.payload@)
        },
    }
}

/// What is accepted of a response as it was read off the wire: its version must be the one that is
/// spoken here.
pub open spec fn accepted_response(parsed: Result<VersionedResponse, String>) -> DecodedResponse {
    match parsed {
        Err(message) => Err(ErrorView::Io("failed to decode host response: "@ + message@)),
        Ok(v) => if v.wire_version != WIRE_VERSION {
            Err(
                ErrorView::Io(
                    "unsupported host response wire version "@ + decimal(v.wire_version as nat),
                ),
            )
        } else {
            Ok(v.payload@)
        },
    }
}

/// Whether decoding `bytes` as a request can come to `out`, where `parse` reads JSON.
pub open spec fn request_decoded<P: FnOnce(&[u8]) -> Result<VersionedRequest, String>>(
    parse: P,
    bytes: Seq<u8>,
    out: DecodedRequest,
) -> bool {
    exists|b: &[u8], r: Result<VersionedRequest, String>|
        b@ == bytes && #[trigger] call_ensures(parse, (b,), r) && out == accepted_request(r)
}

/// Whether decoding `bytes` as a response can come to `out`, where `parse` reads JSON.
pub open spec fn response_decoded<P: FnOnce(&[u8]) -> Result<VersionedResponse, String>>(
    parse: P,
    bytes: Seq<u8>,
    out: DecodedResponse,
) -> bool {
    exists|b: &[u8], r: Result<VersionedResponse, String>|
        b@ == bytes && #[trigger] call_ensures(parse, (b,), r) && out == accepted_response(r)
}

/// Encode a request into the JSON wire format, as `serialize` writes it.
///
/// # Errors
///
/// Returns [`Error::Io`] with the words in which `serialize` refused.
pub fn encode_request<S: FnOnce(VersionedRequest) -> Result<Vec<u8>, String>>(
    request: &HostRequest,
    serialize: S,
) -> (r: Result<Vec<u8>, Error>)
    requires
        forall|v: VersionedRequest| call_requires(serialize, (v,)),
    ensures
        request_encoded(serialize, request@, encoded_view(r)),
{
    let v = VersionedRequest { wire_version: WIRE_VERSION, payload: request.copied() };
    match serialize(v) {
        Ok(bytes) => Ok(bytes),
        Err(message) => Err(Error::Io(join2("failed to encode host request: ", message.as_str()))),
    }
}

/// What is accepted of a request as it was read off the wire.
///
/// # Errors
///
/// Returns [`Error::Io`] if it could not be read or has another wire version.
pub fn accept_request(parsed: Result<VersionedRequest, String>) -> (r: Result<HostRequest, Error>)
    ensures
        request_view(r) == accepted_request(parsed),
{
    match parsed {
        Err(message) => Err(Error::Io(join2("failed to decode host request: ", message.as_str()))),
        Ok(v) => if v.wire_version != WIRE_VERSION {
            Err(
                Error::Io(
                    join2(
                        "unsupported host request wire version ",
                        decimal_text(v.wire_version as u64).as_str(),
                    ),
                ),
            )
        } else {
            Ok(v.payload)
        },
    }
}

/// Decode a request from the JSON wire format, as `parse` reads it.
///
/// # Errors
///
/// Returns [`Error::Io`] if `parse` refuses the bytes, or the request has another wire version.
pub fn decode_request<P: FnOnce(&[u8]) -> Result<VersionedRequest, String>>(
    bytes: &[u8],
    parse: P,
) -> (r: Result<HostRequest, Error>)
    requires
        forall|b: &[u8]| b@ == bytes@ ==> #[trigger] call_requires(parse, (b,)),
    ensures
        request_decoded(parse, bytes@, request_view(r)),
{
    accept_request(parse(bytes))
}

/// Encode a response into the JSON wire format, as `serialize` writes it.
///
/// # Errors
///
/// Returns [`Error::Io`] with the words in which `serialize` refused.
pub fn encode_response<S: FnOnce(VersionedResponse) -> Result<Vec<u8>, String>>(
    response: &HostResponse,
    serialize: S,
) -> (r: Result<Vec<u8>, Error>)
    requires
        forall|v: VersionedResponse| call_requires(serialize, (v,)),
    ensures
        response_encoded(serialize, response@, encoded_view(r)),
{
    let v = VersionedResponse { wire_version: WIRE_VERSION, payload: response.copied() };
    match serialize(v) {
        Ok(bytes) => Ok(bytes),
        Err(message) => Err(Error::Io(join2("failed to encode host response: ", message.as_str()))),
    }
}

/// What is accepted of a response as it was read off the wire.
///
/// # Errors
///
/// Returns [`Error::Io`] if it could not be read or has another wire version.
pub fn accept_response(parsed: Result<VersionedResponse, String>) -> (r: Result<
    HostResponse,
    Error,
>)
    ensures
        response_view(r) == accepted_response(parsed),
{
    match parsed {
        Err(message) => Err(Error::Io(join2("failed to decode host response: ", message.as_str()))),
        Ok(v) => if v.wire_version != WIRE_VERSION {
            Err(
                Error::Io(
                    join2(
                        "unsupported host response wire version ",
                        decimal_text(v.wire_version as u64).as_str(),
                    ),
                ),
            )
        } else {
            Ok(v.payload)
        },
    }
}

/// Decode a response from the JSON wire format, as `parse` reads it.
///
/// # Errors
///
/// Returns [`Error::Io`] if `parse` refuses the bytes, or the response has another wire version.
pub fn decode_response<P: FnOnce(&[u8]) -> Result<VersionedResponse, String>>(
    bytes: &[u8],
    parse: P,
) -> (r: Result<HostResponse, Error>)
    requires
        forall|b: &[u8]| b@ == bytes@ ==> #[trigger] call_requires(parse, (b,)),
    ensures
        response_decoded(parse, bytes@, response_view(r)),
{
    accept_response(parse(bytes))
}

/// What a transport error carried across the wire is to the sidecar.
pub open spec fn transport_error(kind: ErrorKind, message: Seq<char>) -> ErrorView {
    match kind {
        ErrorKind::Dns => ErrorView::Dns(message),
        ErrorKind::Tls => ErrorView::Tls(message),
        ErrorKind::Io => ErrorView::Io(message),
        ErrorKind::Timeout => ErrorView::Timeout,
    }
}

/// Convert a host transport error into the public sidecar error type.
pub fn decode_error(kind: ErrorKind, message: String) -> (r: Error)
    ensures
        r@ == transport_error(kind, message@),
{
    match kind {
        ErrorKind::Dns => Error::Dns(message),
        ErrorKind::Tls => Error::Tls(message),
        ErrorKind::Io => Error::Io(message),
        ErrorKind::Timeout => Error::Timeout,
    }
}

/// The class in which an error is carried across the wire.
pub open spec fn error_kind(error: ErrorView) -> ErrorKind {
    match error {
        ErrorView::Dns(_) => ErrorKind::Dns,
        ErrorView::Tls(_) => ErrorKind::Tls,
        ErrorView::Io(_) => ErrorKind::Io,
        ErrorView::Http { .. } => ErrorKind::Io,
        ErrorView::Timeout => ErrorKind::Timeout,
    }
}

/// The response that reports `error`.
pub open spec fn error_reply(error: ErrorView) -> HostResponseView {
    HostResponseView::Error { error_kind: error_kind(error), message: error.text() }
}

/// The response that reports `error`.
pub fn error_response(error: Error) -> (r: HostResponse)
    ensures
        r@ == error_reply(error@),
{
    let message = error.to_string();
    HostResponse::Error {
        error_kind: match error {
            Error::Dns(_) => ErrorKind::Dns,
            Error::Tls(_) => ErrorKind::Tls,
            Error::Io(_) => ErrorKind::Io,
            Error::Http { .. } => ErrorKind::Io,
            Error::Timeout => ErrorKind::Timeout,
        },
        message,
    }
}

/// `headers` as pairs of name and value.
pub fn headers_as_pairs(headers: &[Header]) -> (r: Vec<(String, String)>)
    ensures
        pairs_text(r@) == headers_text(headers@),
{
    let mut r: Vec<(String, String)> = Vec::new();
    for i in 0..headers.len()
        invariant
            pairs_text(r@) == headers_text(headers@).take(i as int),
    {
        let ghost before = r@;
        r.push((headers[i].name.clone(), headers[i].value.clone()));
        assert(pairs_text(r@) =~= pairs_text(before).push(headers_text(headers@)[i as int]));
        assert(pairs_text(r@) =~= headers_text(headers@).take(i + 1));
    }
    assert(pairs_text(r@) =~= headers_text(headers@));
    r
}

/// The headers of a response that are carried across the wire.
pub open spec fn reply_headers(response: HttpResponseView) -> Seq<(Seq<char>, Seq<char>)> {
    let etag: Seq<(Seq<char>, Seq<char>)> = match response.etag {
        Some(value) => seq![("etag"@, value)],
        None => seq![],
    };
    let last_modified: Seq<(Seq<char>, Seq<char>)> = match response.last_modified {
        Some(value) => seq![("last-modified"@, value)],
        None => seq![],
    };
    etag + last_modified
}

/// The headers of `response` that are carried across the wire.
pub fn headers_from_response(response: &HttpResponse) -> (r: Vec<Header>)
    ensures
        headers_text(r@) == reply_headers(response@),
{
    let mut headers: Vec<Header> = Vec::new();
    if let Some(etag) = &response.etag {
        headers.push(Header { name: "etag".to_owned(), value: etag.clone() });
    }
    if let Some(last_modified) = &response.last_modified {
        headers.push(Header { name: "last-modified".to_owned(), value: last_modified.clone() });
    }
    assert(headers_text(headers@) =~= reply_headers(response@));
    headers
}

/// The response that reports what an HTTPS `GET` came to.
pub open spec fn get_reply(out: ResponseOutcome) -> HostResponseView {
    match out {
        Ok(response) => HostResponseView::Http {
            status_code: response.status_code,
            headers: reply_headers(response),
            body: response.body,
        },
        Err(error) => error_reply(error),
    }
}

/// The response that reports what a TCP connection came to. A time too long to be written is the
/// longest that can.
pub open spec fn connect_reply(out: ConnectOutcome) -> HostResponseView {
    match out {
        Ok(elapsed) => HostResponseView::TcpConnect {
            elapsed_ms: if elapsed <= u64::MAX {
                elapsed as u64
            } else {
                u64::MAX
            },
        },
        Err(error) => error_reply(error),
    }
}

/// The response that reports what an HTTPS `GET` came to.
pub fn get_response(result: Result<HttpResponse, Error>) -> (r: HostResponse)
    ensures
        r@ == get_reply(outcome(result)),
{
    match result {
        Ok(response) => {
            let headers = headers_from_response(&response);
            HostResponse::Http { status_code: response.status_code, headers, body: response.body }
        },
        Err(error) => error_response(error),
    }
}

/// The response that reports what a TCP connection came to.
pub fn connect_response(result: Result<u128, Error>) -> (r: HostResponse)
    ensures
        r@ == connect_reply(result_view(result)),
{
    match result {
        Ok(elapsed) => HostResponse::TcpConnect {
            elapsed_ms: if elapsed <= u64::MAX as u128 {
                elapsed as u64
            } else {
                u64::MAX
            },
        },
        Err(error) => error_response(error),
    }
}

impl<C, G, P, T> Network<C, G, P, T> {
    /// Whether `response` can report on an HTTPS `GET` that turns the world `before` into `after` and
    /// leaves the resolver with the answers `left` where it had `cache`.
    pub open spec fn get_executed<W>(
        self,
        cache: CacheView,
        host: Seq<char>,
        path: Seq<char>,
        headers: Seq<(Seq<char>, Seq<char>)>,
        before: W,
        left: CacheView,
        after: W,
        response: HostResponseView,
    ) -> bool where
        C: Fn(W) -> (W, u64),
        G: Fn(W, &str, &str, &[(String, String)], Ipv4Addr) -> (W, Result<HttpResponse, Error>),
        P: Fn(Vec<u8>) -> Result<DnsJsonResponse, String>,
        T: Fn(W, Ipv4Addr, u16, u32) -> (W, Result<u128, Error>),
     {
        exists|out: ResponseOutcome|
            #[trigger] self.got(cache, host, path, headers, before, left, after, out) && response
                == get_reply(out)
    }

    /// Whether `response` can report on a TCP connection that turns the world `before` into `after`
    /// and leaves the resolver with the answers `left` where it had `cache`.
    pub open spec fn connect_executed<W>(
        self,
        cache: CacheView,
        host: Seq<char>,
        port: u16,
        timeout_ms: u32,
        before: W,
        left: CacheView,
        after: W,
        response: HostResponseView,
    ) -> bool where
        C: Fn(W) -> (W, u64),
        G: Fn(W, &str, &str, &[(String, String)], Ipv4Addr) -> (W, Result<HttpResponse, Error>),
        P: Fn(Vec<u8>) -> Result<DnsJsonResponse, String>,
        T: Fn(W, Ipv4Addr, u16, u32) -> (W, Result<u128, Error>),
     {
        exists|out: ConnectOutcome|
            #[trigger] self.connected(cache, host, port, timeout_ms, before, left, after, out)
                && response == connect_reply(out)
    }

    /// Whether `request` can be answered with `response`, turn the world `before` into `after`, and
    /// leave the resolver with the answers `left` where it had `cache`.
    pub open spec fn executed<W>(
        self,
        cache: CacheView,
        request: HostRequestView,
        before: W,
        left: CacheView,
        after: W,
        response: HostResponseView,
    ) -> bool where
        C: Fn(W) -> (W, u64),
        G: Fn(W, &str, &str, &[(String, String)], Ipv4Addr) -> (W, Result<HttpResponse, Error>),
        P: Fn(Vec<u8>) -> Result<DnsJsonResponse, String>,
        T: Fn(W, Ipv4Addr, u16, u32) -> (W, Result<u128, Error>),
     {
        match request {
            HostRequestView::HttpsGet { host, path, headers } => self.get_executed(
                cache,
                host,
                path,
                headers,
                before,
                left,
                after,
                response,
            ),
            HostRequestView::TcpConnect { host, port, timeout_ms } => self.connect_executed(
                cache,
                host,
                port,
                timeout_ms,
                before,
                left,
                after,
                response,
            ),
        }
    }

    /// Whether a decoded request can be answered with `reply`, turn the world `before` into `after`,
    /// and leave the resolver with the answers `left` where it had `cache`. One that could not be
    /// decoded is answered with its error, and nothing is done for it.
    pub open spec fn replied<W, E: FnOnce(VersionedResponse) -> Result<Vec<u8>, String>>(
        self,
        cache: CacheView,
        request: DecodedRequest,
        serialize: E,
        before: W,
        left: CacheView,
        after: W,
        reply: Encoded,
    ) -> bool where
        C: Fn(W) -> (W, u64),
        G: Fn(W, &str, &str, &[(String, String)], Ipv4Addr) -> (W, Result<HttpResponse, Error>),
        P: Fn(Vec<u8>) -> Result<DnsJsonResponse, String>,
        T: Fn(W, Ipv4Addr, u16, u32) -> (W, Result<u128, Error>),
     {
        match request {
            Err(error) => reply == Err::<Seq<u8>, ErrorView>(error) && left == cache && after
                == before,
            Ok(request) => exists|response: HostResponseView|
                #[trigger] self.executed(cache, request, before, left, after, response)
                    && response_encoded(serialize, response, reply),
        }
    }

    /// Whether the bytes of a request can be answered with `reply`, where `parse` reads JSON and
    /// `serialize` writes it, turn the world `before` into `after`, and leave the resolver with the
    /// answers `left` where it had `cache`.
    pub open spec fn served<
        W,
        D: FnOnce(&[u8]) -> Result<VersionedRequest, String>,
        E: FnOnce(VersionedResponse) -> Result<Vec<u8>, String>,
    >(
        self,
        cache: CacheView,
        bytes: Seq<u8>,
        parse: D,
        serialize: E,
        before: W,
        left: CacheView,
        after: W,
        reply: Encoded,
    ) -> bool where
        C: Fn(W) -> (W, u64),
        G: Fn(W, &str, &str, &[(String, String)], Ipv4Addr) -> (W, Result<HttpResponse, Error>),
        P: Fn(Vec<u8>) -> Result<DnsJsonResponse, String>,
        T: Fn(W, Ipv4Addr, u16, u32) -> (W, Result<u128, Error>),
     {
        exists|request: DecodedRequest|
            #[trigger] request_decoded(parse, bytes, request) && self.replied(
                cache,
                request,
                serialize,
                before,
                left,
                after,
                reply,
            )
    }
}

/// Execute a request on the host and return the structured response.
pub fn execute_request<
    W,
    C: Fn(W) -> (W, u64),
    G: Fn(W, &str, &str, &[(String, String)], Ipv4Addr) -> (W, Result<HttpResponse, Error>),
    P: Fn(Vec<u8>) -> Result<DnsJsonResponse, String>,
    T: Fn(W, Ipv4Addr, u16, u32) -> (W, Result<u128, Error>),
>(
    world: W,
    request: HostRequest,
    resolver: &mut DnsResolver,
    network: &Network<C, G, P, T>,
) -> (r: (W, HostResponse))
    requires
        network.total::<W>(),
    ensures
        network.executed(old(resolver)@, request@, world, final(resolver)@, r.0, r.1@),
{
    match request {
        HostRequest::HttpsGet { host, path, headers } => {
            let pairs = headers_as_pairs(headers.as_slice());
            let (after, got) = perform_get(
                world,
                resolver,
                network,
                host.as_str(),
                path.as_str(),
                pairs.as_slice(),
            );
            (after, get_response(got))
        },
        HostRequest::TcpConnect { host, port, timeout_ms } => {
            let (after, connected) = connect_duration(
                world,
                resolver,
                network,
                host.as_str(),
                port,
                timeout_ms,
            );
            (after, connect_response(connected))
        },
    }
}

/// Decode request bytes, execute them, and encode the response. `parse` reads JSON and `serialize`
/// writes it. For bytes that are no request nothing is executed.
///
/// # Errors
///
/// Returns [`Error::Io`] if the bytes are no request, or the response cannot be written. A request
/// that fails is a response.
pub fn execute_request_bytes<
    W,
    C: Fn(W) -> (W, u64),
    G: Fn(W, &str, &str, &[(String, String)], Ipv4Addr) -> (W, Result<HttpResponse, Error>),
    P: Fn(Vec<u8>) -> Result<DnsJsonResponse, String>,
    T: Fn(W, Ipv4Addr, u16, u32) -> (W, Result<u128, Error>),
    D: FnOnce(&[u8]) -> Result<VersionedRequest, String>,
    E: FnOnce(VersionedResponse) -> Result<Vec<u8>, String>,
>(
    world: W,
    bytes: &[u8],
    resolver: &mut DnsResolver,
    network: &Network<C, G, P, T>,
    parse: D,
    serialize: E,
) -> (r: (W, Result<Vec<u8>, Error>))
    requires
        network.total::<W>(),
        forall|b: &[u8]| b@ == bytes@ ==> #[trigger] call_requires(parse, (b,)),
        forall|request: HostRequestView, v: VersionedResponse|
            #![trigger request_decoded(parse, bytes@, Ok(request)), call_requires(serialize, (v,))]
            request_decoded(parse, bytes@, Ok(request)) ==> call_requires(serialize, (v,)),
    ensures
        network.served(
            old(resolver)@,
            bytes@,
            parse,
            serialize,
            world,
            final(resolver)@,
            r.0,
            encoded_view(r.1),
        ),
{
    let decoded = decode_request(bytes, parse);
    let ghost seen = request_view(decoded);
    assert(request_decoded(parse, bytes@, seen));
    match decoded {
        Err(error) => (world, Err(error)),
        Ok(request) => {
            assert(request_decoded(parse, bytes@, Ok(request@)));
            let (after, response) = execute_request(world, request, resolver, network);
            assert(network.executed(
                old(resolver)@,
                seen->Ok_0,
                world,
                resolver@,
                after,
                response@,
            ));
            (after, encode_response(&response, serialize))
        },
    }
}

/// Whether `parse` reads what `serialize` writes of a request: the same version and the same request.
pub open spec fn request_codec<
    S: FnOnce(VersionedRequest) -> Result<Vec<u8>, String>,
    P: FnOnce(&[u8]) -> Result<VersionedRequest, String>,
>(serialize: S, parse: P) -> bool {
    forall|v: VersionedRequest, w: Vec<u8>, b: &[u8], back: Result<VersionedRequest, String>|
        #![trigger call_ensures(serialize, (v,), Ok(w)), call_ensures(parse, (b,), back)]
        call_ensures(serialize, (v,), Ok(w)) && b@ == w@ && call_ensures(parse, (b,), back) ==> (
        back matches Ok(u) && u.wire_version == v.wire_version && u.payload@ == v.payload@)
}

/// Whether `parse` reads what `serialize` writes of a response: the same version and the same
/// response.
pub open spec fn response_codec<
    S: FnOnce(VersionedResponse) -> Result<Vec<u8>, String>,
    P: FnOnce(&[u8]) -> Result<VersionedResponse, String>,
>(serialize: S, parse: P) -> bool {
    forall|v: VersionedResponse, w: Vec<u8>, b: &[u8], back: Result<VersionedResponse, String>|
        #![trigger call_ensures(serialize, (v,), Ok(w)), call_ensures(parse, (b,), back)]
        call_ensures(serialize, (v,), Ok(w)) && b@ == w@ && call_ensures(parse, (b,), back) ==> (
        back matches Ok(u) && u.wire_version == v.wire_version && u.payload@ == v.payload@)
}

/// A request that was encoded decodes to the same request.
pub proof fn law_request_roundtrips<
    S: FnOnce(VersionedRequest) -> Result<Vec<u8>, String>,
    P: FnOnce(&[u8]) -> Result<VersionedRequest, String>,
>(serialize: S, parse: P, request: HostRequestView, bytes: Seq<u8>, out: DecodedRequest)
    requires
        request_codec(serialize, parse),
        request_encoded(serialize, request, Ok(bytes)),
        request_decoded(parse, bytes, out),
    ensures
        out == Ok::<HostRequestView, ErrorView>(request),
{
}

/// A response that was encoded decodes to the same response.
pub proof fn law_response_roundtrips<
    S: FnOnce(VersionedResponse) -> Result<Vec<u8>, String>,
    P: FnOnce(&[u8]) -> Result<VersionedResponse, String>,
>(serialize: S, parse: P, response: HostResponseView, bytes: Seq<u8>, out: DecodedResponse)
    requires
        response_codec(serialize, parse),
        response_encoded(serialize, response, Ok(bytes)),
        response_decoded(parse, bytes, out),
    ensures
        out == Ok::<HostResponseView, ErrorView>(response),
{
}

/// Where requests can be written, every one is encoded. Where they can be read back, different ones are
/// encoded as different bytes.
pub proof fn law_requests_are_told_apart<
    S: FnOnce(VersionedRequest) -> Result<Vec<u8>, String>,
    P: FnOnce(&[u8]) -> Result<VersionedRequest, String>,
>(
    serialize: S,
    parse: P,
    request: HostRequestView,
    sent: Encoded,
    other: HostRequestView,
    other_sent: Encoded,
    out: DecodedRequest,
)
    requires
        request_codec(serialize, parse),
        forall|v: VersionedRequest, r: Result<Vec<u8>, String>| #[trigger]
            call_ensures(serialize, (v,), r) ==> r is Ok,
        request_encoded(serialize, request, sent),
        request_encoded(serialize, other, other_sent),
        sent matches Ok(bytes) ==> request_decoded(parse, bytes, out),
    ensures
        sent is Ok,
        out == Ok::<HostRequestView, ErrorView>(request),
        request != other ==> sent != other_sent,
{
    law_request_roundtrips(serialize, parse, request, sent->Ok_0, out);
    if sent == other_sent {
        law_request_roundtrips(serialize, parse, other, sent->Ok_0, out);
    }
}

/// Where responses can be written, every one is encoded. Where they can be read back, different ones
/// are encoded as different bytes.
pub proof fn law_responses_are_told_apart<
    S: FnOnce(VersionedResponse) -> Result<Vec<u8>, String>,
    P: FnOnce(&[u8]) -> Result<VersionedResponse, String>,
>(
    serialize: S,
    parse: P,
    response: HostResponseView,
    sent: Encoded,
    other: HostResponseView,
    other_sent: Encoded,
    out: DecodedResponse,
)
    requires
        response_codec(serialize, parse),
        forall|v: VersionedResponse, r: Result<Vec<u8>, String>| #[trigger]
            call_ensures(serialize, (v,), r) ==> r is Ok,
        response_encoded(serialize, response, sent),
        response_encoded(serialize, other, other_sent),
        sent matches Ok(bytes) ==> response_decoded(parse, bytes, out),
    ensures
        sent is Ok,
        out == Ok::<HostResponseView, ErrorView>(response),
        response != other ==> sent != other_sent,
{
    law_response_roundtrips(serialize, parse, response, sent->Ok_0, out);
    if sent == other_sent {
        law_response_roundtrips(serialize, parse, other, sent->Ok_0, out);
    }
}

/// A message of another version than the one that is spoken here is refused, whatever it says.
pub proof fn law_other_versions_are_refused(request: VersionedRequest, response: VersionedResponse)
    ensures
        request.wire_version != WIRE_VERSION ==> accepted_request(Ok(request)) == Err::<
            HostRequestView,
            ErrorView,
        >(
            ErrorView::Io(
                "unsupported host request wire version "@ + decimal(request.wire_version as nat),
            ),
        ),
        response.wire_version != WIRE_VERSION ==> accepted_response(Ok(response)) == Err::<
            HostResponseView,
            ErrorView,
        >(
            ErrorView::Io(
                "unsupported host response wire version "@ + decimal(response.wire_version as nat),
            ),
        ),
{
}

/// The wire is transparent: a request that the sidecar encodes and the host serves is answered, once
/// the sidecar has decoded the reply, with the response that executing that request gives.
pub proof fn law_wire_is_transparent<
    W,
    C: Fn(W) -> (W, u64),
    G: Fn(W, &str, &str, &[(String, String)], Ipv4Addr) -> (W, Result<HttpResponse, Error>),
    P: Fn(Vec<u8>) -> Result<DnsJsonResponse, String>,
    T: Fn(W, Ipv4Addr, u16, u32) -> (W, Result<u128, Error>),
    S: FnOnce(VersionedRequest) -> Result<Vec<u8>, String>,
    D: FnOnce(&[u8]) -> Result<VersionedRequest, String>,
    E: FnOnce(VersionedResponse) -> Result<Vec<u8>, String>,
    U: FnOnce(&[u8]) -> Result<VersionedResponse, String>,
>(
    network: Network<C, G, P, T>,
    write_request: S,
    read_request: D,
    write_response: E,
    read_response: U,
    cache: CacheView,
    before: W,
    left: CacheView,
    after: W,
    request: HostRequestView,
    sent: Seq<u8>,
    received: Seq<u8>,
    out: DecodedResponse,
)
    requires
        request_codec(write_request, read_request),
        response_codec(write_response, read_response),
        request_encoded(write_request, request, Ok(sent)),
        network.served(cache, sent, read_request, write_response, before, left, after, Ok(received)),
        response_decoded(read_response, received, out),
    ensures
        exists|response: HostResponseView| #[trigger]
            network.executed(cache, request, before, left, after, response) && out == Ok::<
                HostResponseView,
                ErrorView,
            >(response),
{
    let decoded = choose|decoded: DecodedRequest|
        #[trigger] request_decoded(read_request, sent, decoded) && network.replied(
            cache,
            decoded,
            write_response,
            before,
            left,
            after,
            Ok(received),
        );
    law_request_roundtrips(write_request, read_request, request, sent, decoded);
    let response = choose|response: HostResponseView|
        #[trigger] network.executed(cache, request, before, left, after, response) && response_encoded(
            write_response,
            response,
            Ok(received),
        );
    law_response_roundtrips(write_response, read_response, response, received, out);
}

/// A host answers every request: where its responses can be written, what was encoded as a request is
/// answered with the encoding of the response that executing it gives, be that the report of a
/// failure.
pub proof fn law_every_request_is_answered<
    W,
    C: Fn(W) -> (W, u64),
    G: Fn(W, &str, &str, &[(String, String)], Ipv4Addr) -> (W, Result<HttpResponse, Error>),
    P: Fn(Vec<u8>) -> Result<DnsJsonResponse, String>,
    T: Fn(W, Ipv4Addr, u16, u32) -> (W, Result<u128, Error>),
    D: FnOnce(&[u8]) -> Result<VersionedRequest, String>,
    E: FnOnce(VersionedResponse) -> Result<Vec<u8>, String>,
>(
    network: Network<C, G, P, T>,
    read_request: D,
    write_response: E,
    cache: CacheView,
    before: W,
    left: CacheView,
    after: W,
    bytes: Seq<u8>,
    request: HostRequestView,
    reply: Encoded,
)
    requires
        network.served(cache, bytes, read_request, write_response, before, left, after, reply),
        forall|decoded: DecodedRequest| #[trigger]
            request_decoded(read_request, bytes, decoded) ==> decoded == Ok::<
                HostRequestView,
                ErrorView,
            >(request),
        forall|v: VersionedResponse, r: Result<Vec<u8>, String>| #[trigger]
            call_ensures(write_response, (v,), r) ==> r is Ok,
    ensures
        reply is Ok,
        exists|response: HostResponseView| #[trigger]
            network.executed(cache, request, before, left, after, response) && response_encoded(
                write_response,
                response,
                reply,
            ),
{
}

/// Bytes that are no request are answered with the error of decoding them, and nothing is done.
pub proof fn law_no_request_is_refused<
    W,
    C: Fn(W) -> (W, u64),
    G: Fn(W, &str, &str, &[(String, String)], Ipv4Addr) -> (W, Result<HttpResponse, Error>),
    P: Fn(Vec<u8>) -> Result<DnsJsonResponse, String>,
    T: Fn(W, Ipv4Addr, u16, u32) -> (W, Result<u128, Error>),
    D: FnOnce(&[u8]) -> Result<VersionedRequest, String>,
    E: FnOnce(VersionedResponse) -> Result<Vec<u8>, String>,
>(
    network: Network<C, G, P, T>,
    read_request: D,
    write_response: E,
    cache: CacheView,
    before: W,
    left: CacheView,
    after: W,
    bytes: Seq<u8>,
    error: ErrorView,
    reply: Encoded,
)
    requires
        network.served(cache, bytes, read_request, write_response, before, left, after, reply),
        forall|decoded: DecodedRequest| #[trigger]
            request_decoded(read_request, bytes, decoded) ==> decoded == Err::<
                HostRequestView,
                ErrorView,
            >(error),
    ensures
        reply == Err::<Seq<u8>, ErrorView>(error),
        left == cache,
        after == before,
{
}

/// An error that crosses the wire keeps its class and arrives with its words. An HTTP error arrives
/// as an I/O error, and a timeout as a timeout.
pub proof fn law_error_crosses_the_wire(error: ErrorView)
    ensures
        transport_error(error_kind(error), error.text()) == match error {
            ErrorView::Dns(_) => ErrorView::Dns(error.text()),
            ErrorView::Tls(_) => ErrorView::Tls(error.text()),
            ErrorView::Io(_) => ErrorView::Io(error.text()),
            ErrorView::Http { .. } => ErrorView::Io(error.text()),
            ErrorView::Timeout => ErrorView::Timeout,
        },
{
}

/// A request and a response are seen whole: the kind, and all that they hold.
pub proof fn law_messages_are_seen_whole(
    request: HostRequest,
    response: HostResponse,
    headers: Seq<Header>,
    i: int,
)
    ensures
        match request {
            HostRequest::HttpsGet { host, path, headers } => request@ == (HostRequestView::HttpsGet {
                host: host@,
                path: path@,
                headers: headers_text(headers@),
            }),
            HostRequest::TcpConnect { host, port, timeout_ms } => request@ == (
            HostRequestView::TcpConnect { host: host@, port, timeout_ms }),
        },
        match response {
            HostResponse::Http { status_code, headers, body } => response@ == (
            HostResponseView::Http {
                status_code,
                headers: headers_text(headers@),
                body: body@,
            }),
            HostResponse::TcpConnect { elapsed_ms } => response@ == (HostResponseView::TcpConnect {
                elapsed_ms,
            }),
            HostResponse::Error { error_kind, message } => response@ == (HostResponseView::Error {
                error_kind,
                message: message@,
            }),
        },
        headers_text(headers).len() == headers.len(),
        0 <= i < headers.len() ==> headers_text(headers)[i] == (headers[i].name@, headers[i].value@),
{
}

/// What the host reports. Of an HTTP response the status and the body as they are, and the validators that
/// it has under the names `etag` and `last-modified`, and no other header. Of a connection the time in
/// milliseconds, or the longest that can be written. Of an error its class, where an HTTP error counts as
/// an I/O error, and the error in words.
pub proof fn law_reports(response: HttpResponseView, elapsed: u128, error: ErrorView)
    ensures
        get_reply(Ok(response)) matches HostResponseView::Http { status_code, headers, body }
            && status_code == response.status_code && body == response.body && headers
            == match (response.etag, response.last_modified) {
            (Some(e), Some(l)) => seq![("etag"@, e), ("last-modified"@, l)],
            (Some(e), None) => seq![("etag"@, e)],
            (None, Some(l)) => seq![("last-modified"@, l)],
            (None, None) => Seq::<(Seq<char>, Seq<char>)>::empty(),
        },
        elapsed <= 0xffff_ffff_ffff_ffff ==> (connect_reply(
            Ok(elapsed),
        ) matches HostResponseView::TcpConnect { elapsed_ms } && elapsed_ms as int == elapsed as int),
        elapsed > 0xffff_ffff_ffff_ffff ==> (connect_reply(
            Ok(elapsed),
        ) matches HostResponseView::TcpConnect { elapsed_ms } && elapsed_ms
            == 0xffff_ffff_ffff_ffff),
        ({
            let report = HostResponseView::Error {
                error_kind: match error {
                    ErrorView::Dns(_) => ErrorKind::Dns,
                    ErrorView::Tls(_) => ErrorKind::Tls,
                    ErrorView::Io(_) => ErrorKind::Io,
                    ErrorView::Http { .. } => ErrorKind::Io,
                    ErrorView::Timeout => ErrorKind::Timeout,
                },
                message: error.text(),
            };
            get_reply(Err(error)) == report && connect_reply(Err(error)) == report && error_reply(
                error,
            ) == report
        }),
{
    let headers = reply_headers(response);
    match (response.etag, response.last_modified) {
        (Some(e), Some(l)) => {
            assert(headers =~= seq![("etag"@, e), ("last-modified"@, l)]);
        },
        (Some(e), None) => {
            assert(headers =~= seq![("etag"@, e)]);
        },
        (None, Some(l)) => {
            assert(headers =~= seq![("last-modified"@, l)]);
        },
        (None, None) => {
            assert(headers =~= Seq::<(Seq<char>, Seq<char>)>::empty());
        },
    }
}

/// A request for an HTTPS `GET` is executed as it was made: once its host is resolved, each call of the
/// operation that performs it asks for exactly its path, query and all, at exactly its host and with
/// exactly its headers, one call at each address in its order until one answers. The response reports the
/// answer of the last call.
pub proof fn law_get_request_is_executed_as_made<
    W,
    C: Fn(W) -> (W, u64),
    G: Fn(W, &str, &str, &[(String, String)], Ipv4Addr) -> (W, Result<HttpResponse, Error>),
    P: Fn(Vec<u8>) -> Result<DnsJsonResponse, String>,
    T: Fn(W, Ipv4Addr, u16, u32) -> (W, Result<u128, Error>),
>(
    network: Network<C, G, P, T>,
    cache: CacheView,
    host: String,
    path: String,
    headers: Vec<Header>,
    before: W,
    left: CacheView,
    after: W,
    response: HostResponseView,
)
    requires
        network.executed(
            cache,
            (HostRequest::HttpsGet { host, path, headers })@,
            before,
            left,
            after,
            response,
        ),
    ensures
        exists|found: Resolution, next: W|
            #[trigger] resolved(
                network.clock,
                network.get,
                network.parse,
                cache,
                host@,
                before,
                left,
                next,
                found,
            ) && match found {
                Err(error) => after == next && response == get_reply(Err(error)),
                Ok(ips) => exists|
                    sent: Seq<(Seq<char>, Seq<char>)>,
                    worlds: Seq<W>,
                    replies: Seq<Result<HttpResponse, Error>>,
                    out: ResponseOutcome,
                |
                    {
                        &&& #[trigger] calls(network.get, host@, path@, sent, ips, worlds, replies)
                        &&& sent.len() == headers@.len()
                        &&& forall|k: int|
                            0 <= k < sent.len() ==> (#[trigger] sent[k]) == (
                                headers@[k].name@,
                                headers@[k].value@,
                            )
                        &&& worlds[0] == next
                        &&& worlds[worlds.len() - 1] == after
                        &&& #[trigger] comes_to(
                            ips,
                            replies,
                            ErrorView::Dns("no IPv4 addresses available for '"@ + host@ + "'"@),
                            out,
                        )
                        &&& response == get_reply(out)
                    },
            },
{
    let sent = headers_text(headers@);
    let error = ErrorView::Dns("no IPv4 addresses available for '"@ + host@ + "'"@);
    let out = choose|out: ResponseOutcome|
        #[trigger] network.got(cache, host@, path@, sent, before, left, after, out) && response
            == get_reply(out);
    law_get_keeps_to_the_request(network, cache, host@, path@, sent, before, left, after, out);
    let (found, next) = choose|found: Resolution, next: W|
        #[trigger] resolved(
            network.clock,
            network.get,
            network.parse,
            cache,
            host@,
            before,
            left,
            next,
            found,
        ) && match found {
            Err(error) => after == next && out == Err::<HttpResponseView, ErrorView>(error),
            Ok(ips) => exists|worlds: Seq<W>, replies: Seq<Result<HttpResponse, Error>>|
                {
                    &&& #[trigger] calls(network.get, host@, path@, sent, ips, worlds, replies)
                    &&& worlds[0] == next
                    &&& worlds[worlds.len() - 1] == after
                    &&& comes_to(ips, replies, error, out)
                },
        };
    if let Ok(ips) = found {
        let (worlds, replies) = choose|worlds: Seq<W>, replies: Seq<Result<HttpResponse, Error>>|
            {
                &&& #[trigger] calls(network.get, host@, path@, sent, ips, worlds, replies)
                &&& worlds[0] == next
                &&& worlds[worlds.len() - 1] == after
                &&& comes_to(ips, replies, error, out)
            };
        assert(calls(network.get, host@, path@, sent, ips, worlds, replies));
        assert(comes_to(ips, replies, error, out));
    }
    assert(resolved(
        network.clock,
        network.get,
        network.parse,
        cache,
        host@,
        before,
        left,
        next,
        found,
    ));
}

/// A request for a TCP connection is executed as it was made: once its host is resolved, each call of the
/// operation that connects is for exactly its port and with exactly its time limit, one call at each
/// address in its order until one accepts. The response reports the outcome of the last call.
pub proof fn law_connect_request_is_executed_as_made<
    W,
    C: Fn(W) -> (W, u64),
    G: Fn(W, &str, &str, &[(String, String)], Ipv4Addr) -> (W, Result<HttpResponse, Error>),
    P: Fn(Vec<u8>) -> Result<DnsJsonResponse, String>,
    T: Fn(W, Ipv4Addr, u16, u32) -> (W, Result<u128, Error>),
>(
    network: Network<C, G, P, T>,
    cache: CacheView,
    host: String,
    port: u16,
    timeout_ms: u32,
    before: W,
    left: CacheView,
    after: W,
    response: HostResponseView,
)
    requires
        network.executed(
            cache,
            (HostRequest::TcpConnect { host, port, timeout_ms })@,
            before,
            left,
            after,
            response,
        ),
    ensures
        exists|found: Resolution, next: W|
            #[trigger] resolved(
                network.clock,
                network.get,
                network.parse,
                cache,
                host@,
                before,
                left,
                next,
                found,
            ) && match found {
                Err(error) => after == next && response == connect_reply(Err(error)),
                Ok(ips) => exists|worlds: Seq<W>, replies: Seq<Result<u128, Error>>|
                    {
                        &&& #[trigger] connections(
                            network.connect,
                            port,
                            timeout_ms,
                            ips,
                            worlds,
                            replies,
                        )
                        &&& worlds[0] == next
                        &&& worlds[worlds.len() - 1] == after
                        &&& forall|i: int|
                            0 <= i < replies.len() - 1 ==> (#[trigger] replies[i]) is Err
                        &&& ips.len() > 0 ==> replies.len() > 0 && match replies[replies.len() - 1] {
                            Ok(elapsed) => response == connect_reply(Ok(elapsed)),
                            Err(e) => response == connect_reply(Err(e@)) && replies.len()
                                == ips.len(),
                        }
                    },
            },
{
    let out = choose|out: ConnectOutcome|
        #[trigger] network.connected(cache, host@, port, timeout_ms, before, left, after, out)
            && response == connect_reply(out);
    law_connection_keeps_to_the_request(
        network,
        cache,
        host@,
        port,
        timeout_ms,
        before,
        left,
        after,
        out,
    );
    let (found, next) = choose|found: Resolution, next: W|
        #[trigger] resolved(
            network.clock,
            network.get,
            network.parse,
            cache,
            host@,
            before,
            left,
            next,
            found,
        ) && match found {
            Err(error) => after == next && out == Err::<u128, ErrorView>(error),
            Ok(ips) => exists|worlds: Seq<W>, replies: Seq<Result<u128, Error>>|
                {
                    &&& #[trigger] connections(
                        network.connect,
                        port,
                        timeout_ms,
                        ips,
                        worlds,
                        replies,
                    )
                    &&& worlds[0] == next
                    &&& worlds[worlds.len() - 1] == after
                    &&& forall|i: int| 0 <= i < replies.len() - 1 ==> (#[trigger] replies[i]) is Err
                    &&& ips.len() > 0 ==> replies.len() > 0 && match replies[replies.len() - 1] {
                        Ok(elapsed) => out == Ok::<u128, ErrorView>(elapsed),
                        Err(e) => out == Err::<u128, ErrorView>(e@) && replies.len() == ips.len(),
                    }
                },
        };
    if let Ok(ips) = found {
        let (worlds, replies) = choose|worlds: Seq<W>, replies: Seq<Result<u128, Error>>|
            {
                &&& #[trigger] connections(
                    network.connect,
                    port,
                    timeout_ms,
                    ips,
                    worlds,
                    replies,
                )
                &&& worlds[0] == next
                &&& worlds[worlds.len() - 1] == after
                &&& forall|i: int| 0 <= i < replies.len() - 1 ==> (#[trigger] replies[i]) is Err
                &&& ips.len() > 0 ==> replies.len() > 0 && match replies[replies.len() - 1] {
                    Ok(elapsed) => out == Ok::<u128, ErrorView>(elapsed),
                    Err(e) => out == Err::<u128, ErrorView>(e@) && replies.len() == ips.len(),
                }
            };
        assert(connections(network.connect, port, timeout_ms, ips, worlds, replies));
    }
    assert(resolved(
        network.clock,
        network.get,
        network.parse,
        cache,
        host@,
        before,
        left,
        next,
        found,
    ));
}

/// Bytes are served by reading them once. What cannot be read, or has another version than 1, is answered
/// with an error that says so, and nothing is done. A request of the version 1 is executed as it was read,
/// and its response is written with the version 1; what is written is the reply.
pub proof fn law_bytes_are_served<
    W,
    C: Fn(W) -> (W, u64),
    G: Fn(W, &str, &str, &[(String, String)], Ipv4Addr) -> (W, Result<HttpResponse, Error>),
    P: Fn(Vec<u8>) -> Result<DnsJsonResponse, String>,
    T: Fn(W, Ipv4Addr, u16, u32) -> (W, Result<u128, Error>),
    D: FnOnce(&[u8]) -> Result<VersionedRequest, String>,
    E: FnOnce(VersionedResponse) -> Result<Vec<u8>, String>,
>(
    network: Network<C, G, P, T>,
    parse: D,
    serialize: E,
    cache: CacheView,
    bytes: Seq<u8>,
    before: W,
    left: CacheView,
    after: W,
    reply: Encoded,
)
    requires
        network.served(cache, bytes, parse, serialize, before, left, after, reply),
    ensures
        exists|b: &[u8], read: Result<VersionedRequest, String>|
            {
                &&& #[trigger] call_ensures(parse, (b,), read)
                &&& b@ == bytes
                &&& read matches Err(message) ==> left == cache && after == before && reply == Err::<
                    Seq<u8>,
                    ErrorView,
                >(ErrorView::Io("failed to decode host request: "@ + message@))
                &&& read matches Ok(v) ==> v.wire_version != 1 ==> left == cache && after == before
                    && reply == Err::<Seq<u8>, ErrorView>(
                    ErrorView::Io(
                        "unsupported host request wire version "@ + decimal(v.wire_version as nat),
                    ),
                )
                &&& read matches Ok(v) ==> v.wire_version == 1 ==> exists|
                    u: VersionedResponse,
                    written: Result<Vec<u8>, String>,
                |
                    {
                        &&& #[trigger] call_ensures(serialize, (u,), written)
                        &&& u.wire_version == 1
                        &&& network.executed(cache, v.payload@, before, left, after, u.payload@)
                        &&& match written {
                            Ok(out) => reply == Ok::<Seq<u8>, ErrorView>(out@),
                            Err(message) => reply == Err::<Seq<u8>, ErrorView>(
                                ErrorView::Io("failed to encode host response: "@ + message@),
                            ),
                        }
                    }
            },
{
    let request = choose|request: DecodedRequest|
        #[trigger] request_decoded(parse, bytes, request) && network.replied(
            cache,
            request,
            serialize,
            before,
            left,
            after,
            reply,
        );
    let (b, read) = choose|b: &[u8], read: Result<VersionedRequest, String>|
        b@ == bytes && #[trigger] call_ensures(parse, (b,), read) && request == accepted_request(
            read,
        );
    assert(call_ensures(parse, (b,), read));
    if let Ok(v) = read {
        if v.wire_version == 1 {
            let response = choose|response: HostResponseView|
                #[trigger] network.executed(cache, v.payload@, before, left, after, response)
                    && response_encoded(serialize, response, reply);
            let (u, written) = choose|u: VersionedResponse, written: Result<Vec<u8>, String>|
                u.wire_version == WIRE_VERSION && u.payload@ == response && #[trigger] call_ensures(
                    serialize,
                    (u,),
                    written,
                ) && reply == match written {
                    Ok(bytes) => Ok::<Seq<u8>, ErrorView>(bytes@),
                    Err(message) => Err(
                        ErrorView::Io("failed to encode host response: "@ + message@),
                    ),
                };
            assert(call_ensures(serialize, (u,), written));
        }
    }
}

/// A message is written with the version 1 and as it is, and of what is read a message of the version 1 is
/// taken as it is. What cannot be written or read, or has another version, is an error that says so.
pub proof fn law_messages_cross_the_wire<
    S: FnOnce(VersionedRequest) -> Result<Vec<u8>, String>,
    E: FnOnce(VersionedResponse) -> Result<Vec<u8>, String>,
>(
    write_request: S,
    write_response: E,
    request: HostRequestView,
    response: HostResponseView,
    sent: Encoded,
    replied: Encoded,
    read_request: Result<VersionedRequest, String>,
    read_response: Result<VersionedResponse, String>,
)
    requires
        request_encoded(write_request, request, sent),
        response_encoded(write_response, response, replied),
    ensures
        exists|v: VersionedRequest, w: Result<Vec<u8>, String>|
            #[trigger] call_ensures(write_request, (v,), w) && v.wire_version == 1 && v.payload@
                == request && match w {
                Ok(bytes) => sent == Ok::<Seq<u8>, ErrorView>(bytes@),
                Err(message) => sent == Err::<Seq<u8>, ErrorView>(
                    ErrorView::Io("failed to encode host request: "@ + message@),
                ),
            },
        exists|v: VersionedResponse, w: Result<Vec<u8>, String>|
            #[trigger] call_ensures(write_response, (v,), w) && v.wire_version == 1 && v.payload@
                == response && match w {
                Ok(bytes) => replied == Ok::<Seq<u8>, ErrorView>(bytes@),
                Err(message) => replied == Err::<Seq<u8>, ErrorView>(
                    ErrorView::Io("failed to encode host response: "@ + message@),
                ),
            },
        accepted_request(read_request) == match read_request {
            Err(message) => Err::<HostRequestView, ErrorView>(
                ErrorView::Io("failed to decode host request: "@ + message@),
            ),
            Ok(v) => if v.wire_version == 1 {
                Ok(v.payload@)
            } else {
                Err(
                    ErrorView::Io(
                        "unsupported host request wire version "@ + decimal(v.wire_version as nat),
                    ),
                )
            },
        },
        accepted_response(read_response) == match read_response {
            Err(message) => Err::<HostResponseView, ErrorView>(
                ErrorView::Io("failed to decode host response: "@ + message@),
            ),
            Ok(v) => if v.wire_version == 1 {
                Ok(v.payload@)
            } else {
                Err(
                    ErrorView::Io(
                        "unsupported host response wire version "@ + decimal(v.wire_version as nat),
                    ),
                )
            },
        },
{
}

/// What is read off the wire and what is written to it is seen whole.
pub proof fn law_results_are_seen_whole(
    request: Result<HostRequest, Error>,
    response: Result<HostResponse, Error>,
    bytes: Result<Vec<u8>, Error>,
)
    ensures
        match request {
            Ok(value) => request_view(request) == Ok::<HostRequestView, ErrorView>(value@),
            Err(error) => request_view(request) == Err::<HostRequestView, ErrorView>(error@),
        },
        match response {
            Ok(value) => response_view(response) == Ok::<HostResponseView, ErrorView>(value@),
            Err(error) => response_view(response) == Err::<HostResponseView, ErrorView>(error@),
        },
        match bytes {
            Ok(value) => encoded_view(bytes) == Ok::<Seq<u8>, ErrorView>(value@),
            Err(error) => encoded_view(bytes) == Err::<Seq<u8>, ErrorView>(error@),
        },
{
}

} // verus!
