//! The calls that a sidecar makes: HTTPS requests and TCP connections that the host performs.
//!
//! Each call takes the exchange with the host as an argument: a function that hands a request to
//! the host and gives back the response.

use vstd::prelude::*;
use vstd::string::*;
use vstd::utf8::{
    decode_utf8, encode_utf8, encode_utf8_decode_utf8, encode_utf8_valid_utf8, valid_utf8,
};

use crate::encoding::{lossy_text, owned_utf8_error_text, utf8_string};
use crate::error::{result_view, Error, ErrorView};
use crate::host_request::{
    accepted_response, connect_reply, decode_error, decode_response, encode_request, encoded_view,
    error_kind, get_reply, headers_text, reply_headers, request_encoded, response_decoded,
    response_view, transport_error, DecodedResponse, Encoded, ErrorKind, Header, HostRequest,
    HostRequestView, HostResponse, HostResponseView, VersionedRequest, VersionedResponse,
    WIRE_VERSION,
};
use crate::http::{
    fetched_body, is_success, opt_text, pairs_text, successful_body, HttpResponse,
    HttpResponseView,
};
use crate::number::decimal;
use crate::response_reader::{outcome, ResponseOutcome};
use crate::text::{chars_of, eq_ignore_case, join2, lower, same_ignoring_case};

verus! {

/// The value of the first of `headers` that is named `name`.
pub open spec fn first_value(headers: Seq<(Seq<char>, Seq<char>)>, name: Seq<char>) -> Option<
    Seq<char>,
>
    decreases headers.len(),
{
    if headers.len() == 0 {
        None
    } else if eq_ignore_case(headers[0].0, name) {
        Some(headers[0].1)
    } else {
        first_value(headers.skip(1), name)
    }
}

/// The text in an optional string slice.
pub open spec fn opt_str(s: Option<&str>) -> Option<Seq<char>> {
    match s {
        Some(s) => Some(s@),
        None => None,
    }
}

/// The value of the first of `headers` that is named `name`, in whatever case.
pub fn header_value<'a>(headers: &'a [Header], name: &str) -> (r: Option<&'a str>)
    ensures
        opt_str(r) == first_value(headers_text(headers@), name@),
{
    let wanted = chars_of(name);
    let ghost pairs = headers_text(headers@);
    let mut i: usize = 0;
    assert(pairs.skip(0) =~= pairs);
    while i < headers.len()
        invariant
            i <= headers@.len(),
            wanted@ == name@,
            pairs == headers_text(headers@),
            first_value(pairs, name@) == first_value(pairs.skip(i as int), name@),
        decreases headers@.len() - i,
    {
        let ghost rest = pairs.skip(i as int);
        assert(rest[0] == pairs[i as int]);
        let found = chars_of(headers[i].name.as_str());
        if same_ignoring_case(found.as_slice(), wanted.as_slice()) {
            return Some(headers[i].value.as_str());
        }
        assert(rest.skip(1) =~= pairs.skip(i + 1));
        i = i + 1;
    }
    None
}

/// Whether `exchange` can answer `request` with `reply`.
pub open spec fn exchanged<X: FnOnce(HostRequest) -> Result<HostResponse, Error>>(
    exchange: X,
    request: HostRequestView,
    reply: DecodedResponse,
) -> bool {
    exists|q: HostRequest, r: Result<HostResponse, Error>|
        q@ == request && #[trigger] call_ensures(exchange, (q,), r) && reply == response_view(r)
}

/// What the host's reply to an HTTPS request comes to.
pub open spec fn https_outcome(reply: DecodedResponse) -> ResponseOutcome {
    match reply {
        Err(error) => Err(error),
        Ok(HostResponseView::Http { status_code, headers, body }) => Ok(
            HttpResponseView {
                status_code,
                body,
                etag: first_value(headers, "etag"@),
                last_modified: first_value(headers, "last-modified"@),
            },
        ),
        Ok(HostResponseView::Error { error_kind, message }) => Err(
            transport_error(error_kind, message),
        ),
        Ok(HostResponseView::TcpConnect { .. }) => Err(
            ErrorView::Io("host returned a tcp_connect response for an HTTPS request"@),
        ),
    }
}

/// What the host's reply to a TCP connection comes to: the milliseconds that it took.
pub open spec fn tcp_outcome(reply: DecodedResponse) -> Result<u64, ErrorView> {
    match reply {
        Err(error) => Err(error),
        Ok(HostResponseView::TcpConnect { elapsed_ms }) => Ok(elapsed_ms),
        Ok(HostResponseView::Error { error_kind, message }) => Err(
            transport_error(error_kind, message),
        ),
        Ok(HostResponseView::Http { .. }) => Err(
            ErrorView::Io("host returned an HTTP response for tcp_connect"@),
        ),
    }
}

/// An optional string slice as an owned string.
fn owned(s: Option<&str>) -> (r: Option<String>)
    ensures
        opt_text(r) == opt_str(s),
{
    match s {
        Some(s) => Some(s.to_owned()),
        None => None,
    }
}

/// What the host's reply to an HTTPS request comes to.
///
/// # Errors
///
/// Returns the error that the host reports, and [`Error::Io`] if the reply is not one to an HTTPS
/// request.
pub fn https_response(reply: Result<HostResponse, Error>) -> (r: Result<HttpResponse, Error>)
    ensures
        outcome(r) == https_outcome(response_view(reply)),
{
    match reply {
        Err(error) => Err(error),
        Ok(HostResponse::Http { status_code, headers, body }) => {
            let etag = owned(header_value(headers.as_slice(), "etag"));
            let last_modified = owned(header_value(headers.as_slice(), "last-modified"));
            Ok(HttpResponse { status_code, body, etag, last_modified })
        },
        Ok(HostResponse::Error { error_kind, message }) => Err(decode_error(error_kind, message)),
        Ok(HostResponse::TcpConnect { .. }) => Err(
            Error::Io("host returned a tcp_connect response for an HTTPS request".to_owned()),
        ),
    }
}

/// What the host's reply to a TCP connection comes to: the milliseconds that it took.
///
/// # Errors
///
/// Returns the error that the host reports, and [`Error::Io`] if the reply is not one to a TCP
/// connection.
pub fn tcp_response(reply: Result<HostResponse, Error>) -> (r: Result<u64, Error>)
    ensures
        result_view(r) == tcp_outcome(response_view(reply)),
{
    match reply {
        Err(error) => Err(error),
        Ok(HostResponse::TcpConnect { elapsed_ms }) => Ok(elapsed_ms),
        Ok(HostResponse::Error { error_kind, message }) => Err(decode_error(error_kind, message)),
        Ok(HostResponse::Http { .. }) => Err(
            Error::Io("host returned an HTTP response for tcp_connect".to_owned()),
        ),
    }
}

/// `pairs` as headers.
fn headers_of(pairs: &[(String, String)]) -> (r: Vec<Header>)
    ensures
        headers_text(r@) == pairs_text(pairs@),
{
    let mut r: Vec<Header> = Vec::new();
    for i in 0..pairs.len()
        invariant
            headers_text(r@) == pairs_text(pairs@).take(i as int),
    {
        let ghost before = r@;
        r.push(Header { name: pairs[i].0.clone(), value: pairs[i].1.clone() });
        assert(headers_text(r@) =~= headers_text(before).push(pairs_text(pairs@)[i as int]));
        assert(headers_text(r@) =~= pairs_text(pairs@).take(i + 1));
    }
    assert(headers_text(r@) =~= pairs_text(pairs@));
    r
}

/// Whether an HTTPS `GET` by way of `exchange` can come to `out`.
pub open spec fn https_got<X: FnOnce(HostRequest) -> Result<HostResponse, Error>>(
    exchange: X,
    host: Seq<char>,
    path: Seq<char>,
    headers: Seq<(Seq<char>, Seq<char>)>,
    out: ResponseOutcome,
) -> bool {
    exists|reply: DecodedResponse|
        #[trigger] exchanged(
            exchange,
            HostRequestView::HttpsGet { host, path, headers },
            reply,
        ) && out == https_outcome(reply)
}

/// Performs an HTTPS `GET` by way of `exchange`.
///
/// # Errors
///
/// Returns [`Error`] if the exchange fails, or the host reports an error.
pub fn execute_https_get<X: FnOnce(HostRequest) -> Result<HostResponse, Error>>(
    host: &str,
    path: &str,
    headers: &[(String, String)],
    exchange: X,
) -> (r: Result<HttpResponse, Error>)
    requires
        forall|q: HostRequest| call_requires(exchange, (q,)),
    ensures
        https_got(exchange, host@, path@, pairs_text(headers@), outcome(r)),
{
    let request = HostRequest::HttpsGet {
        host: host.to_owned(),
        path: path.to_owned(),
        headers: headers_of(headers),
    };
    let ghost asked = request@;
    let reply = exchange(request);
    assert(exchanged(exchange, asked, response_view(reply)));
    https_response(reply)
}

/// What came of a request for a body.
pub type BodyOutcome = Result<Seq<u8>, ErrorView>;

/// A body, or an error, as its view.
pub open spec fn body_view(r: Result<Vec<u8>, Error>) -> BodyOutcome {
    match r {
        Ok(body) => Ok(body@),
        Err(error) => Err(error@),
    }
}

/// Whether a request for a body by way of `exchange` can come to `out`.
pub open spec fn body_got<X: FnOnce(HostRequest) -> Result<HostResponse, Error>>(
    exchange: X,
    host: Seq<char>,
    path: Seq<char>,
    out: BodyOutcome,
) -> bool {
    exists|got: ResponseOutcome|
        #[trigger] https_got(exchange, host, path, seq![], got) && out == fetched_body(got)
}

/// Perform an HTTPS `GET` request and return the raw response body.
///
/// # Errors
///
/// Returns [`Error`] if the host-mediated request or HTTP response handling fails.
pub fn https_get<X: FnOnce(HostRequest) -> Result<HostResponse, Error>>(
    host: &str,
    path: &str,
    exchange: X,
) -> (r: Result<Vec<u8>, Error>)
    requires
        forall|q: HostRequest| call_requires(exchange, (q,)),
    ensures
        body_got(exchange, host@, path@, body_view(r)),
{
    let headers: Vec<(String, String)> = Vec::new();
    assert(pairs_text(headers@) =~= seq![]);
    let got = execute_https_get(host, path, headers.as_slice(), exchange);
    assert(https_got(exchange, host@, path@, seq![], outcome(got)));
    match got {
        Err(error) => Err(error),
        Ok(response) => successful_body(response),
    }
}

/// What came of a request for text.
pub type TextOutcome = Result<Seq<char>, ErrorView>;

/// A text, or an error, as its view.
pub open spec fn text_view(r: Result<String, Error>) -> TextOutcome {
    match r {
        Ok(text) => Ok(text@),
        Err(error) => Err(error@),
    }
}

/// The text of what a request for a body came to. A body that is not UTF-8 is an error.
pub open spec fn text_of(body: BodyOutcome) -> TextOutcome {
    match body {
        Err(error) => Err(error),
        Ok(body) => if valid_utf8(body) {
            Ok(decode_utf8(body))
        } else {
            Err(ErrorView::Io("HTTP body was not valid UTF-8: "@ + owned_utf8_error_text(body)))
        },
    }
}

/// The text of what a request for a body came to.
///
/// # Errors
///
/// Returns the error of the request, and [`Error::Io`] if the body is not valid UTF-8.
pub fn body_text(body: Result<Vec<u8>, Error>) -> (r: Result<String, Error>)
    ensures
        text_view(r) == text_of(body_view(body)),
{
    match body {
        Err(error) => Err(error),
        Ok(body) => match utf8_string(body) {
            Ok(text) => Ok(text),
            Err(error) => Err(Error::Io(join2("HTTP body was not valid UTF-8: ", error.as_str()))),
        },
    }
}

/// Whether a request for text by way of `exchange` can come to `out`.
pub open spec fn text_got<X: FnOnce(HostRequest) -> Result<HostResponse, Error>>(
    exchange: X,
    host: Seq<char>,
    path: Seq<char>,
    out: TextOutcome,
) -> bool {
    exists|body: BodyOutcome| #[trigger]
        body_got(exchange, host, path, body) && out == text_of(body)
}

/// Perform an HTTPS `GET` request and decode the body as UTF-8 text.
///
/// # Errors
///
/// Returns [`Error`] if the request fails or the response body is not valid UTF-8.
pub fn https_get_text<X: FnOnce(HostRequest) -> Result<HostResponse, Error>>(
    host: &str,
    path: &str,
    exchange: X,
) -> (r: Result<String, Error>)
    requires
        forall|q: HostRequest| call_requires(exchange, (q,)),
    ensures
        text_got(exchange, host@, path@, text_view(r)),
{
    body_text(https_get(host, path, exchange))
}

/// Body, ETag, and Last-Modified returned by a conditional GET.
pub type ConditionalGetResult = Result<(Vec<u8>, Option<String>, Option<String>), Error>;

/// What came of a conditional GET.
pub type ConditionalOutcome = Result<
    (Seq<u8>, Option<Seq<char>>, Option<Seq<char>>),
    ErrorView,
>;

/// The result of a conditional GET as its view.
pub open spec fn conditional_view(r: ConditionalGetResult) -> ConditionalOutcome {
    match r {
        Ok((body, etag, last_modified)) => Ok((body@, opt_text(etag), opt_text(last_modified))),
        Err(error) => Err(error@),
    }
}

/// The headers of a request for what has changed since the validators were given.
pub open spec fn conditional_headers(
    etag: Option<Seq<char>>,
    last_modified: Option<Seq<char>>,
) -> Seq<(Seq<char>, Seq<char>)> {
    let first: Seq<(Seq<char>, Seq<char>)> = match etag {
        Some(value) => seq![("If-None-Match"@, value)],
        None => seq![],
    };
    let second: Seq<(Seq<char>, Seq<char>)> = match last_modified {
        Some(value) => seq![("If-Modified-Since"@, value)],
        None => seq![],
    };
    first + second
}

/// `validator` where there is one, else the one that is `kept`.
pub open spec fn or_kept(validator: Option<Seq<char>>, kept: Option<Seq<char>>) -> Option<
    Seq<char>,
> {
    match validator {
        Some(value) => Some(value),
        None => kept,
    }
}

/// The status code of a response that has not changed.
pub const NOT_MODIFIED: u16 = 304;

/// What a conditional GET with the given validators comes to.
pub open spec fn conditional(
    got: ResponseOutcome,
    etag: Option<Seq<char>>,
    last_modified: Option<Seq<char>>,
) -> ConditionalOutcome {
    match got {
        Err(error) => Err(error),
        Ok(response) => if response.status_code == NOT_MODIFIED {
            Ok((seq![], or_kept(response.etag, etag), or_kept(response.last_modified, last_modified)))
        } else {
            match fetched_body(got) {
                Err(error) => Err(error),
                Ok(body) => Ok((body, response.etag, response.last_modified)),
            }
        },
    }
}

/// What a conditional GET with the given validators comes to, by the response to it.
///
/// # Errors
///
/// Returns the error of the request, and [`Error::Http`] if the response is neither unchanged nor
/// one of success.
pub fn conditional_result(
    got: Result<HttpResponse, Error>,
    etag: Option<&str>,
    last_modified: Option<&str>,
) -> (r: ConditionalGetResult)
    ensures
        conditional_view(r) == conditional(outcome(got), opt_str(etag), opt_str(last_modified)),
{
    let response = match got {
        Err(error) => {
            return Err(error);
        },
        Ok(response) => response,
    };
    if response.status_code == NOT_MODIFIED {
        let etag = match response.etag {
            Some(value) => Some(value),
            None => owned(etag),
        };
        let last_modified = match response.last_modified {
            Some(value) => Some(value),
            None => owned(last_modified),
        };
        let body: Vec<u8> = Vec::new();
        assert(body@ =~= seq![]);
        return Ok((body, etag, last_modified));
    }
    let etag = response.etag.clone();
    let last_modified = response.last_modified.clone();
    match successful_body(response) {
        Err(error) => Err(error),
        Ok(body) => Ok((body, etag, last_modified)),
    }
}

/// Whether a conditional GET with the given validators by way of `exchange` can come to `out`.
pub open spec fn conditionally_got<X: FnOnce(HostRequest) -> Result<HostResponse, Error>>(
    exchange: X,
    host: Seq<char>,
    path: Seq<char>,
    etag: Option<Seq<char>>,
    last_modified: Option<Seq<char>>,
    out: ConditionalOutcome,
) -> bool {
    exists|got: ResponseOutcome| #[trigger]
        https_got(exchange, host, path, conditional_headers(etag, last_modified), got) && out
            == conditional(got, etag, last_modified)
}

/// Perform a conditional HTTPS `GET` request using `ETag` and `Last-Modified` hints.
///
/// When the server responds with `304 Not Modified`, the returned body is empty and the cached
/// validators are preserved.
///
/// # Errors
///
/// Returns [`Error`] if the host-mediated request or HTTP response handling fails.
pub fn https_get_conditional<X: FnOnce(HostRequest) -> Result<HostResponse, Error>>(
    host: &str,
    path: &str,
    etag: Option<&str>,
    last_modified: Option<&str>,
    exchange: X,
) -> (r: ConditionalGetResult)
    requires
        forall|q: HostRequest| call_requires(exchange, (q,)),
    ensures
        conditionally_got(
            exchange,
            host@,
            path@,
            opt_str(etag),
            opt_str(last_modified),
            conditional_view(r),
        ),
{
    let mut headers: Vec<(String, String)> = Vec::new();
    if let Some(etag) = etag {
        headers.push(("If-None-Match".to_owned(), etag.to_owned()));
    }
    if let Some(last_modified) = last_modified {
        headers.push(("If-Modified-Since".to_owned(), last_modified.to_owned()));
    }
    assert(pairs_text(headers@) =~= conditional_headers(opt_str(etag), opt_str(last_modified)));
    let got = execute_https_get(host, path, headers.as_slice(), exchange);
    conditional_result(got, etag, last_modified)
}

/// Whether a TCP connection by way of `exchange` can come to `out`.
pub open spec fn tcp_connected<X: FnOnce(HostRequest) -> Result<HostResponse, Error>>(
    exchange: X,
    host: Seq<char>,
    port: u16,
    timeout_ms: u32,
    out: Result<u64, ErrorView>,
) -> bool {
    exists|reply: DecodedResponse| #[trigger]
        exchanged(exchange, HostRequestView::TcpConnect { host, port, timeout_ms }, reply) && out
            == tcp_outcome(reply)
}

/// Attempt a TCP connection and return the milliseconds taken to establish it.
///
/// This is primarily useful for health-check sidecars that want to measure reachability or
/// approximate latency.
///
/// # Errors
///
/// Returns [`Error`] if DNS resolution fails or no socket can be connected before the timeout.
pub fn tcp_connect<X: FnOnce(HostRequest) -> Result<HostResponse, Error>>(
    host: &str,
    port: u16,
    timeout_ms: u32,
    exchange: X,
) -> (r: Result<u64, Error>)
    requires
        forall|q: HostRequest| call_requires(exchange, (q,)),
    ensures
        tcp_connected(exchange, host@, port, timeout_ms, result_view(r)),
{
    let request = HostRequest::TcpConnect { host: host.to_owned(), port, timeout_ms };
    let ghost asked = request@;
    let reply = exchange(request);
    assert(exchanged(exchange, asked, response_view(reply)));
    tcp_response(reply)
}

/// Whether `roundtrip` can answer the bytes `sent` with `received`.
pub open spec fn transported<R: FnOnce(&[u8]) -> Result<Vec<u8>, Error>>(
    roundtrip: R,
    sent: Seq<u8>,
    received: Encoded,
) -> bool {
    exists|b: &[u8], r: Result<Vec<u8>, Error>|
        b@ == sent && #[trigger] call_ensures(roundtrip, (b,), r) && received == encoded_view(r)
}

/// Whether the host's answer `received` can come to `out`, where `parse` reads JSON.
pub open spec fn received_as<P: FnOnce(&[u8]) -> Result<VersionedResponse, String>>(
    received: Encoded,
    parse: P,
    out: DecodedResponse,
) -> bool {
    match received {
        Err(error) => out == Err::<HostResponseView, ErrorView>(error),
        Ok(bytes) => response_decoded(parse, bytes, out),
    }
}

/// Whether a request of which `sent` is the encoding can be answered with `out`.
pub open spec fn answered<
    R: FnOnce(&[u8]) -> Result<Vec<u8>, Error>,
    P: FnOnce(&[u8]) -> Result<VersionedResponse, String>,
>(sent: Encoded, roundtrip: R, parse: P, out: DecodedResponse) -> bool {
    match sent {
        Err(error) => out == Err::<HostResponseView, ErrorView>(error),
        Ok(bytes) => exists|received: Encoded|
            #[trigger] transported(roundtrip, bytes, received) && received_as(received, parse, out),
    }
}

/// Hands `request` to the host over the wire and gives back its response. `serialize` writes JSON,
/// `parse` reads it, and `roundtrip` sends bytes to the host and receives its answer. Nothing but the
/// encoding of the request is sent, and nothing but the host's answer to it is read.
///
/// # Errors
///
/// Returns [`Error`] if the request cannot be written, the host does not answer, or its answer is
/// no response.
pub fn execute_host_request<
    S: FnOnce(VersionedRequest) -> Result<Vec<u8>, String>,
    R: FnOnce(&[u8]) -> Result<Vec<u8>, Error>,
    P: FnOnce(&[u8]) -> Result<VersionedResponse, String>,
>(request: HostRequest, serialize: S, roundtrip: R, parse: P) -> (r: Result<HostResponse, Error>)
    requires
        forall|v: VersionedRequest| call_requires(serialize, (v,)),
        forall|b: &[u8]|
            request_encoded(serialize, request@, Ok(b@)) ==> #[trigger] call_requires(
                roundtrip,
                (b,),
            ),
        forall|sent: Seq<u8>, b: &[u8]|
            #![trigger transported(roundtrip, sent, Ok(b@)), call_requires(parse, (b,))]
            request_encoded(serialize, request@, Ok(sent)) && transported(roundtrip, sent, Ok(b@))
                ==> call_requires(parse, (b,)),
    ensures
        exists|sent: Encoded| #[trigger]
            request_encoded(serialize, request@, sent) && answered(
                sent,
                roundtrip,
                parse,
                response_view(r),
            ),
{
    let sent = encode_request(&request, serialize);
    let ghost sent_view = encoded_view(sent);
    assert(request_encoded(serialize, request@, sent_view));
    match sent {
        Err(error) => Err(error),
        Ok(bytes) => {
            let received = roundtrip(bytes.as_slice());
            let ghost received_view = encoded_view(received);
            assert(transported(roundtrip, sent_view->Ok_0, received_view));
            match received {
                Err(error) => Err(error),
                Ok(reply) => decode_response(reply.as_slice(), parse),
            }
        },
    }
}

/// The names of the validators differ.
proof fn lemma_validator_names()
    ensures
        !eq_ignore_case("etag"@, "last-modified"@),
        !eq_ignore_case("last-modified"@, "etag"@),
{
    reveal_strlit("etag");
    reveal_strlit("last-modified");
    assert(lower("etag"@).len() == 4);
    assert(lower("last-modified"@).len() == 13);
}

/// A response that the host fetched arrives at the sidecar as it was: the status, the body and both
/// validators.
pub proof fn law_response_arrives_whole(response: HttpResponseView)
    ensures
        https_outcome(Ok(get_reply(Ok(response)))) == Ok::<HttpResponseView, ErrorView>(response),
{
    lemma_validator_names();
    let headers = reply_headers(response);
    reveal_with_fuel(first_value, 3);
    if response.etag is Some {
        if response.last_modified is Some {
            assert(headers.skip(1) =~= seq![("last-modified"@, response.last_modified->0)]);
        } else {
            assert(headers.skip(1) =~= seq![]);
        }
    } else if response.last_modified is Some {
        assert(headers =~= seq![("last-modified"@, response.last_modified->0)]);
        assert(headers.skip(1) =~= seq![]);
    } else {
        assert(headers =~= seq![]);
    }
}

/// A failure on the host arrives at the sidecar with its class and its words, whatever was asked.
pub proof fn law_failure_arrives(error: ErrorView)
    ensures
        https_outcome(Ok(get_reply(Err(error)))) == Err::<HttpResponseView, ErrorView>(
            transport_error(error_kind(error), error.text()),
        ),
        tcp_outcome(Ok(connect_reply(Err(error)))) == Err::<u64, ErrorView>(
            transport_error(error_kind(error), error.text()),
        ),
{
}

/// The time that a connection took arrives at the sidecar as it was, where it can be written.
pub proof fn law_elapsed_time_arrives(elapsed: u128)
    requires
        elapsed <= u64::MAX,
    ensures
        tcp_outcome(Ok(connect_reply(Ok(elapsed)))) == Ok::<u64, ErrorView>(elapsed as u64),
{
}

/// A response that has not changed gives no body, and no validator that was given is lost.
pub proof fn law_not_modified_keeps_validators(
    response: HttpResponseView,
    etag: Option<Seq<char>>,
    last_modified: Option<Seq<char>>,
)
    requires
        response.status_code == NOT_MODIFIED,
    ensures
        conditional(Ok(response), etag, last_modified) matches Ok((body, e, l)) && body.len() == 0
            && (etag is Some ==> e is Some) && (last_modified is Some ==> l is Some) && (
        response.etag is None ==> e == etag) && (response.last_modified is None ==> l
            == last_modified),
{
}

/// A conditional GET without validators asks what a plain GET asks, and gives its body where it
/// succeeds.
pub proof fn law_unconditional(got: ResponseOutcome)
    ensures
        conditional_headers(None, None) == Seq::<(Seq<char>, Seq<char>)>::empty(),
        got matches Ok(response) && is_success(response.status_code) ==> (conditional(
            got,
            None,
            None,
        ) matches Ok((body, _, _)) && fetched_body(got) == Ok::<Seq<u8>, ErrorView>(body)),
{
    assert(conditional_headers(None, None) =~= Seq::<(Seq<char>, Seq<char>)>::empty());
}

/// A body that encodes a text is fetched as that text.
pub proof fn law_text_comes_back(text: Seq<char>)
    ensures
        text_of(Ok(encode_utf8(text))) == Ok::<Seq<char>, ErrorView>(text),
{
    encode_utf8_valid_utf8(text);
    encode_utf8_decode_utf8(text);
}

/// Whether `request` is an HTTPS `GET` of `path` at `host`, both as they are, with the headers `headers`.
pub open spec fn gets(
    request: HostRequest,
    host: Seq<char>,
    path: Seq<char>,
    headers: Seq<Header>,
) -> bool {
    request matches HostRequest::HttpsGet { host: h, path: p, headers: hs } && h@ == host && p@
        == path && hs@ == headers
}

/// Whether one of `headers` is named `name` and has the value `value`.
pub open spec fn sends(headers: Seq<Header>, name: Seq<char>, value: Seq<char>) -> bool {
    exists|k: int|
        0 <= k < headers.len() && (#[trigger] headers[k]).name@ == name && headers[k].value@ == value
}

/// The request that is handed to the host for an HTTPS `GET` has the host, the path and the headers that
/// were asked for, unchanged and in their order, and the outcome is what its reply comes to.
pub proof fn law_get_is_asked_for<X: FnOnce(HostRequest) -> Result<HostResponse, Error>>(
    exchange: X,
    host: Seq<char>,
    path: Seq<char>,
    headers: Seq<(Seq<char>, Seq<char>)>,
    out: ResponseOutcome,
)
    requires
        https_got(exchange, host, path, headers, out),
    ensures
        exists|q: HostRequest, hs: Seq<Header>, r: Result<HostResponse, Error>|
            {
                &&& #[trigger] call_ensures(exchange, (q,), r)
                &&& #[trigger] gets(q, host, path, hs)
                &&& hs.len() == headers.len()
                &&& forall|k: int|
                    0 <= k < hs.len() ==> (#[trigger] hs[k]).name@ == headers[k].0 && hs[k].value@
                        == headers[k].1
                &&& out == https_outcome(response_view(r))
            },
{
    let reply = choose|reply: DecodedResponse|
        #[trigger] exchanged(
            exchange,
            HostRequestView::HttpsGet { host, path, headers },
            reply,
        ) && out == https_outcome(reply);
    let (q, r) = choose|q: HostRequest, r: Result<HostResponse, Error>|
        q@ == (HostRequestView::HttpsGet { host, path, headers }) && #[trigger] call_ensures(
            exchange,
            (q,),
            r,
        ) && reply == response_view(r);
    if let HostRequest::HttpsGet { host: h, path: p, headers: hs } = q {
        assert(gets(q, host, path, hs@));
        assert forall|k: int| 0 <= k < hs@.len() implies (#[trigger] hs@[k]).name@ == headers[k].0
            && hs@[k].value@ == headers[k].1 by {
            assert(headers_text(hs@)[k] == (hs@[k].name@, hs@[k].value@));
        }
        assert(call_ensures(exchange, (q,), r));
    }
}

/// A plain GET asks for the path at the host without any header. Its outcome is the body of the reply,
/// and as text, the text of that body.
pub proof fn law_plain_get_is_asked_for<X: FnOnce(HostRequest) -> Result<HostResponse, Error>>(
    exchange: X,
    host: Seq<char>,
    path: Seq<char>,
    body: BodyOutcome,
    text: TextOutcome,
)
    requires
        body_got(exchange, host, path, body),
        text_got(exchange, host, path, text),
    ensures
        exists|q: HostRequest, r: Result<HostResponse, Error>|
            #[trigger] call_ensures(exchange, (q,), r) && gets(q, host, path, seq![]) && body
                == fetched_body(https_outcome(response_view(r))),
        exists|q: HostRequest, r: Result<HostResponse, Error>|
            #[trigger] call_ensures(exchange, (q,), r) && gets(q, host, path, seq![]) && text
                == text_of(fetched_body(https_outcome(response_view(r)))),
{
    let got = choose|got: ResponseOutcome|
        #[trigger] https_got(exchange, host, path, seq![], got) && body == fetched_body(got);
    lemma_asked_without_headers(exchange, host, path, got);
    let other = choose|other: BodyOutcome|
        #[trigger] body_got(exchange, host, path, other) && text == text_of(other);
    let other_got = choose|other_got: ResponseOutcome|
        #[trigger] https_got(exchange, host, path, seq![], other_got) && other == fetched_body(
            other_got,
        );
    lemma_asked_without_headers(exchange, host, path, other_got);
}

/// A GET without headers is asked for without headers.
proof fn lemma_asked_without_headers<X: FnOnce(HostRequest) -> Result<HostResponse, Error>>(
    exchange: X,
    host: Seq<char>,
    path: Seq<char>,
    out: ResponseOutcome,
)
    requires
        https_got(exchange, host, path, seq![], out),
    ensures
        exists|q: HostRequest, r: Result<HostResponse, Error>|
            #[trigger] call_ensures(exchange, (q,), r) && gets(q, host, path, seq![]) && out
                == https_outcome(response_view(r)),
{
    law_get_is_asked_for(exchange, host, path, seq![], out);
    let (q, hs, r) = choose|q: HostRequest, hs: Seq<Header>, r: Result<HostResponse, Error>|
        {
            &&& #[trigger] call_ensures(exchange, (q,), r)
            &&& #[trigger] gets(q, host, path, hs)
            &&& hs.len() == 0
            &&& out == https_outcome(response_view(r))
        };
    assert(hs =~= seq![]);
    assert(gets(q, host, path, seq![]));
}

/// Each validator that is given is sent, whether or not the other is: the request of a conditional GET,
/// for the path at the host, has the header `If-None-Match` with a value exactly if that is the `ETag`
/// that was given, the header `If-Modified-Since` with a value exactly if that is the `Last-Modified`
/// that was given, and no other header and none of them twice.
pub proof fn law_validators_are_sent<X: FnOnce(HostRequest) -> Result<HostResponse, Error>>(
    exchange: X,
    host: Seq<char>,
    path: Seq<char>,
    etag: Option<Seq<char>>,
    last_modified: Option<Seq<char>>,
    out: ConditionalOutcome,
)
    requires
        conditionally_got(exchange, host, path, etag, last_modified, out),
    ensures
        exists|q: HostRequest, hs: Seq<Header>, r: Result<HostResponse, Error>|
            {
                &&& #[trigger] call_ensures(exchange, (q,), r)
                &&& #[trigger] gets(q, host, path, hs)
                &&& forall|v: Seq<char>|
                    #[trigger] sends(hs, "If-None-Match"@, v) <==> etag == Some(v)
                &&& forall|v: Seq<char>|
                    #[trigger] sends(hs, "If-Modified-Since"@, v) <==> last_modified == Some(v)
                &&& forall|k: int|
                    0 <= k < hs.len() ==> (#[trigger] hs[k]).name@ == "If-None-Match"@
                        || hs[k].name@ == "If-Modified-Since"@
                &&& hs.len() == (if etag is Some {
                    1int
                } else {
                    0int
                }) + (if last_modified is Some {
                    1int
                } else {
                    0int
                })
                &&& out == conditional(https_outcome(response_view(r)), etag, last_modified)
            },
{
    let headers = conditional_headers(etag, last_modified);
    let got = choose|got: ResponseOutcome|
        #[trigger] https_got(exchange, host, path, headers, got) && out == conditional(
            got,
            etag,
            last_modified,
        );
    law_get_is_asked_for(exchange, host, path, headers, got);
    let (q, hs, r) = choose|q: HostRequest, hs: Seq<Header>, r: Result<HostResponse, Error>|
        {
            &&& #[trigger] call_ensures(exchange, (q,), r)
            &&& #[trigger] gets(q, host, path, hs)
            &&& hs.len() == headers.len()
            &&& forall|k: int|
                0 <= k < hs.len() ==> (#[trigger] hs[k]).name@ == headers[k].0 && hs[k].value@
                    == headers[k].1
            &&& got == https_outcome(response_view(r))
        };
    reveal_strlit("If-None-Match");
    reveal_strlit("If-Modified-Since");
    assert("If-None-Match"@.len() != "If-Modified-Since"@.len());
    let second: int = if etag is Some {
        1
    } else {
        0
    };
    assert(etag is Some ==> headers[0] == ("If-None-Match"@, etag->0));
    assert(last_modified is Some ==> headers[second] == ("If-Modified-Since"@, last_modified->0));
    assert forall|v: Seq<char>| #[trigger] sends(hs, "If-None-Match"@, v) <==> etag == Some(v) by {
        if etag == Some(v) {
            assert(hs[0].name@ == "If-None-Match"@ && hs[0].value@ == v);
        }
    }
    assert forall|v: Seq<char>| #[trigger]
        sends(hs, "If-Modified-Since"@, v) <==> last_modified == Some(v) by {
        if last_modified == Some(v) {
            assert(hs[second].name@ == "If-Modified-Since"@ && hs[second].value@ == v);
        }
    }
    assert(call_ensures(exchange, (q,), r));
}

/// The request that is handed to the host for a TCP connection has the host, the port and the time limit
/// that were asked for, and the outcome is what its reply comes to.
pub proof fn law_connection_is_asked_for<X: FnOnce(HostRequest) -> Result<HostResponse, Error>>(
    exchange: X,
    host: Seq<char>,
    port: u16,
    timeout_ms: u32,
    out: Result<u64, ErrorView>,
)
    requires
        tcp_connected(exchange, host, port, timeout_ms, out),
    ensures
        exists|q: HostRequest, r: Result<HostResponse, Error>|
            #[trigger] call_ensures(exchange, (q,), r) && (q matches HostRequest::TcpConnect {
                host: h,
                port: p,
                timeout_ms: t,
            } && h@ == host && p == port && t == timeout_ms) && out == tcp_outcome(
                response_view(r),
            ),
{
    let asked = HostRequestView::TcpConnect { host, port, timeout_ms };
    let reply = choose|reply: DecodedResponse|
        #[trigger] exchanged(exchange, asked, reply) && out == tcp_outcome(reply);
    let (q, r) = choose|q: HostRequest, r: Result<HostResponse, Error>|
        q@ == asked && #[trigger] call_ensures(exchange, (q,), r) && reply == response_view(r);
    assert(call_ensures(exchange, (q,), r));
}

/// Of several headers with the same name, in whatever case, the first one counts. Where there is none,
/// there is no value.
pub proof fn law_first_header_counts(
    headers: Seq<(Seq<char>, Seq<char>)>,
    name: Seq<char>,
    i: int,
)
    ensures
        (forall|j: int|
            0 <= j < headers.len() ==> !eq_ignore_case((#[trigger] headers[j]).0, name))
            ==> first_value(headers, name) is None,
        0 <= i < headers.len() && eq_ignore_case(headers[i].0, name) && (forall|j: int|
            0 <= j < i ==> !eq_ignore_case((#[trigger] headers[j]).0, name)) ==> first_value(
            headers,
            name,
        ) == Some(headers[i].1),
    decreases headers.len(),
{
    if headers.len() > 0 {
        let rest = headers.skip(1);
        law_first_header_counts(rest, name, i - 1);
        assert(forall|j: int| 0 <= j < rest.len() ==> rest[j] == headers[j + 1]);
    }
}

/// What the replies of the host come to: an HTTP response keeps its status and its body and has the
/// validators that its headers give, a time keeps its length, an error has the class and the words that
/// it was reported with, and a reply to something else is an error.
pub proof fn law_replies_are_understood(
    status_code: u16,
    headers: Seq<(Seq<char>, Seq<char>)>,
    body: Seq<u8>,
    elapsed_ms: u64,
    message: Seq<char>,
    error: ErrorView,
)
    ensures
        https_outcome(Ok(HostResponseView::Http { status_code, headers, body })) == Ok::<
            HttpResponseView,
            ErrorView,
        >(
            HttpResponseView {
                status_code,
                body,
                etag: first_value(headers, "etag"@),
                last_modified: first_value(headers, "last-modified"@),
            },
        ),
        https_outcome(Ok(HostResponseView::TcpConnect { elapsed_ms })) == Err::<
            HttpResponseView,
            ErrorView,
        >(ErrorView::Io("host returned a tcp_connect response for an HTTPS request"@)),
        tcp_outcome(Ok(HostResponseView::TcpConnect { elapsed_ms })) == Ok::<u64, ErrorView>(
            elapsed_ms,
        ),
        tcp_outcome(Ok(HostResponseView::Http { status_code, headers, body })) == Err::<
            u64,
            ErrorView,
        >(ErrorView::Io("host returned an HTTP response for tcp_connect"@)),
        forall|kind: ErrorKind|
            {
                let reported = match kind {
                    ErrorKind::Dns => ErrorView::Dns(message),
                    ErrorKind::Tls => ErrorView::Tls(message),
                    ErrorKind::Io => ErrorView::Io(message),
                    ErrorKind::Timeout => ErrorView::Timeout,
                };
                let reply = HostResponseView::Error { error_kind: kind, message };
                &&& #[trigger] transport_error(kind, message) == reported
                &&& https_outcome(Ok(reply)) == Err::<HttpResponseView, ErrorView>(reported)
                &&& tcp_outcome(Ok(reply)) == Err::<u64, ErrorView>(reported)
            },
        https_outcome(Err(error)) == Err::<HttpResponseView, ErrorView>(error),
        tcp_outcome(Err(error)) == Err::<u64, ErrorView>(error),
{
}

/// What a conditional GET comes to: for the status 304 no body, and each validator that the response
/// gives, or else the one that was given with the request; for a status from 200 to 299 the body and the
/// validators of the response alone; for any other status an error with the status and the body as text.
/// An error stays what it is.
pub proof fn law_conditional_outcome(
    response: HttpResponseView,
    etag: Option<Seq<char>>,
    last_modified: Option<Seq<char>>,
    error: ErrorView,
)
    ensures
        response.status_code == 304 ==> (conditional(Ok(response), etag, last_modified) matches Ok(
            (body, e, l),
        ) && body.len() == 0 && (response.etag is Some ==> e == response.etag) && (response.etag
            is None ==> e == etag) && (response.last_modified is Some ==> l
            == response.last_modified) && (response.last_modified is None ==> l == last_modified)),
        200 <= response.status_code <= 299 ==> conditional(Ok(response), etag, last_modified)
            == Ok::<(Seq<u8>, Option<Seq<char>>, Option<Seq<char>>), ErrorView>(
            (response.body, response.etag, response.last_modified),
        ),
        response.status_code != 304 && !(200 <= response.status_code <= 299) ==> conditional(
            Ok(response),
            etag,
            last_modified,
        ) == Err::<(Seq<u8>, Option<Seq<char>>, Option<Seq<char>>), ErrorView>(
            ErrorView::Http { status: response.status_code, body: lossy_text(response.body) },
        ),
        conditional(Err(error), etag, last_modified) == Err::<
            (Seq<u8>, Option<Seq<char>>, Option<Seq<char>>),
            ErrorView,
        >(error),
{
}

/// The text of a body is the text that it encodes. A body that is not UTF-8 has none, and an error stays
/// what it is.
pub proof fn law_text_of_a_body(body: Seq<u8>, error: ErrorView)
    ensures
        valid_utf8(body) ==> text_of(Ok(body)) == Ok::<Seq<char>, ErrorView>(decode_utf8(body)),
        !valid_utf8(body) ==> text_of(Ok(body)) == Err::<Seq<char>, ErrorView>(
            ErrorView::Io("HTTP body was not valid UTF-8: "@ + owned_utf8_error_text(body)),
        ),
        text_of(Err(error)) == Err::<Seq<char>, ErrorView>(error),
{
}

/// What is made of the answer `read` to a request that the host has answered.
pub open spec fn understood(read: Result<VersionedResponse, String>) -> DecodedResponse {
    match read {
        Err(message) => Err(ErrorView::Io("failed to decode host response: "@ + message@)),
        Ok(v) => if v.wire_version == 1 {
            Ok(v.payload@)
        } else {
            Err(
                ErrorView::Io(
                    "unsupported host response wire version "@ + decimal(v.wire_version as nat),
                ),
            )
        },
    }
}

/// A request goes over the wire once: it is written with the version 1, the bytes that were written are
/// what is sent, and the bytes that come back are what is read. What fails on the way is the outcome.
pub proof fn law_request_goes_over_the_wire<
    S: FnOnce(VersionedRequest) -> Result<Vec<u8>, String>,
    R: FnOnce(&[u8]) -> Result<Vec<u8>, Error>,
    P: FnOnce(&[u8]) -> Result<VersionedResponse, String>,
>(
    request: HostRequestView,
    sent: Encoded,
    serialize: S,
    roundtrip: R,
    parse: P,
    out: DecodedResponse,
)
    requires
        request_encoded(serialize, request, sent),
        answered(sent, roundtrip, parse, out),
    ensures
        exists|v: VersionedRequest, w: Result<Vec<u8>, String>|
            {
                &&& #[trigger] call_ensures(serialize, (v,), w)
                &&& v.wire_version == 1
                &&& v.payload@ == request
                &&& w matches Err(message) ==> out == Err::<HostResponseView, ErrorView>(
                    ErrorView::Io("failed to encode host request: "@ + message@),
                )
                &&& w matches Ok(bytes) ==> exists|b: &[u8], received: Result<Vec<u8>, Error>|
                    {
                        &&& #[trigger] call_ensures(roundtrip, (b,), received)
                        &&& b@ == bytes@
                        &&& received matches Err(error) ==> out == Err::<
                            HostResponseView,
                            ErrorView,
                        >(error@)
                        &&& received matches Ok(reply) ==> exists|
                            c: &[u8],
                            read: Result<VersionedResponse, String>,
                        |
                            #[trigger] call_ensures(parse, (c,), read) && c@ == reply@ && out
                                == understood(read)
                    }
            },
{
    let (v, w) = choose|v: VersionedRequest, w: Result<Vec<u8>, String>|
        v.wire_version == WIRE_VERSION && v.payload@ == request && #[trigger] call_ensures(
            serialize,
            (v,),
            w,
        ) && sent == match w {
            Ok(bytes) => Ok::<Seq<u8>, ErrorView>(bytes@),
            Err(message) => Err(ErrorView::Io("failed to encode host request: "@ + message@)),
        };
    assert(call_ensures(serialize, (v,), w));
    if let Ok(bytes) = w {
        let came = choose|came: Encoded|
            #[trigger] transported(roundtrip, bytes@, came) && received_as(came, parse, out);
        let (b, received) = choose|b: &[u8], received: Result<Vec<u8>, Error>|
            b@ == bytes@ && #[trigger] call_ensures(roundtrip, (b,), received) && came
                == encoded_view(received);
        assert(call_ensures(roundtrip, (b,), received));
        if let Ok(reply) = received {
            let (c, read) = choose|c: &[u8], read: Result<VersionedResponse, String>|
                c@ == reply@ && #[trigger] call_ensures(parse, (c,), read) && out
                    == accepted_response(read);
            assert(call_ensures(parse, (c,), read));
        }
    }
}

/// What is given to a call and what comes of it is seen whole: an empty validator is one, and one that is
/// not given is none.
pub proof fn law_calls_are_seen_whole(
    validator: Option<&str>,
    body: Result<Vec<u8>, Error>,
    text: Result<String, Error>,
    r: ConditionalGetResult,
)
    ensures
        match validator {
            Some(value) => opt_str(validator) == Some(value@),
            None => opt_str(validator) is None,
        },
        match body {
            Ok(bytes) => body_view(body) == Ok::<Seq<u8>, ErrorView>(bytes@),
            Err(error) => body_view(body) == Err::<Seq<u8>, ErrorView>(error@),
        },
        match text {
            Ok(words) => text_view(text) == Ok::<Seq<char>, ErrorView>(words@),
            Err(error) => text_view(text) == Err::<Seq<char>, ErrorView>(error@),
        },
        match r {
            Ok((bytes, etag, last_modified)) => conditional_view(r) matches Ok((b, e, l)) && b
                == bytes@ && (match etag {
                Some(value) => e == Some(value@),
                None => e is None,
            }) && (match last_modified {
                Some(value) => l == Some(value@),
                None => l is None,
            }),
            Err(error) => conditional_view(r) == Err::<
                (Seq<u8>, Option<Seq<char>>, Option<Seq<char>>),
                ErrorView,
            >(error@),
        },
{
}

} // verus!
