//! Requests that need a name resolved first.

use vstd::prelude::*;

use crate::candidates::{
    calls, comes_to, first_success, get_via_ip, https_get_with_candidates, law_get_is_performed,
};
use crate::dns::{resolved, CacheView, DnsJsonResponse, DnsResolver, Resolution};
use crate::error::{result_view, Error, ErrorView};
use crate::http::{pairs_text, HttpResponse, HttpResponseView};
use crate::ip::Ipv4Addr;
use crate::number::decimal;
use crate::response_reader::{outcome, ResponseOutcome};
use crate::socket::{
    connect_any, connect_via, connections, law_connection_is_made, nowhere_to_connect, ConnectOutcome,
};

verus! {

/// The operations that a host performs for the library. All but the decoding take the world as it is
/// and give it back as it is then.
pub struct Network<C, G, P, T> {
    /// Tells the time in nanoseconds.
    pub clock: C,
    /// Performs an HTTPS `GET` for a host, a path and headers, at an address.
    pub get: G,
    /// Decodes the answer of a name server, or says in words why it cannot.
    pub parse: P,
    /// Connects to an address and a port within so many milliseconds, and tells the milliseconds
    /// that it took.
    pub connect: T,
}

impl<C, G, P, T> Network<C, G, P, T> {
    /// The operations can be called with any arguments.
    pub open spec fn total<W>(self) -> bool where
        C: Fn(W) -> (W, u64),
        G: Fn(W, &str, &str, &[(String, String)], Ipv4Addr) -> (W, Result<HttpResponse, Error>),
        P: Fn(Vec<u8>) -> Result<DnsJsonResponse, String>,
        T: Fn(W, Ipv4Addr, u16, u32) -> (W, Result<u128, Error>),
     {
        &&& forall|w: W| call_requires(self.clock, (w,))
        &&& forall|w: W, h: &str, p: &str, hs: &[(String, String)], ip: Ipv4Addr|
            call_requires(self.get, (w, h, p, hs, ip))
        &&& forall|b: Vec<u8>| call_requires(self.parse, (b,))
        &&& forall|w: W, ip: Ipv4Addr, port: u16, timeout_ms: u32|
            call_requires(self.connect, (w, ip, port, timeout_ms))
    }

    /// Whether an HTTPS `GET` can come to `out`, turn the world `before` into `after`, and leave the
    /// resolver with the answers `left` where it had `cache`.
    pub open spec fn got<W>(
        self,
        cache: CacheView,
        host: Seq<char>,
        path: Seq<char>,
        headers: Seq<(Seq<char>, Seq<char>)>,
        before: W,
        left: CacheView,
        after: W,
        out: ResponseOutcome,
    ) -> bool where
        C: Fn(W) -> (W, u64),
        G: Fn(W, &str, &str, &[(String, String)], Ipv4Addr) -> (W, Result<HttpResponse, Error>),
        P: Fn(Vec<u8>) -> Result<DnsJsonResponse, String>,
        T: Fn(W, Ipv4Addr, u16, u32) -> (W, Result<u128, Error>),
     {
        exists|found: Resolution, next: W|
            #[trigger] resolved(
                self.clock,
                self.get,
                self.parse,
                cache,
                host,
                before,
                left,
                next,
                found,
            ) && match found {
                Err(error) => after == next && out == Err::<HttpResponseView, ErrorView>(error),
                Ok(ips) => first_success(
                    get_via_ip(self.get, host, path, headers),
                    ips,
                    ErrorView::Dns("no IPv4 addresses available for '"@ + host + "'"@),
                    next,
                    after,
                    out,
                ),
            }
    }

    /// Whether a TCP connection can come to `out`, turn the world `before` into `after`, and leave the
    /// resolver with the answers `left` where it had `cache`.
    pub open spec fn connected<W>(
        self,
        cache: CacheView,
        host: Seq<char>,
        port: u16,
        timeout_ms: u32,
        before: W,
        left: CacheView,
        after: W,
        out: ConnectOutcome,
    ) -> bool where
        C: Fn(W) -> (W, u64),
        G: Fn(W, &str, &str, &[(String, String)], Ipv4Addr) -> (W, Result<HttpResponse, Error>),
        P: Fn(Vec<u8>) -> Result<DnsJsonResponse, String>,
        T: Fn(W, Ipv4Addr, u16, u32) -> (W, Result<u128, Error>),
     {
        exists|found: Resolution, next: W|
            #[trigger] resolved(
                self.clock,
                self.get,
                self.parse,
                cache,
                host,
                before,
                left,
                next,
                found,
            ) && match found {
                Err(error) => after == next && out == Err::<u128, ErrorView>(error),
                Ok(ips) => first_success(
                    connect_via(self.connect, port, timeout_ms),
                    ips,
                    nowhere_to_connect(port),
                    next,
                    after,
                    out,
                ),
            }
    }
}

/// Resolves `host` and performs an HTTPS `GET` at its addresses.
///
/// # Errors
///
/// Returns [`Error`] if the name does not resolve or no address answers.
pub fn perform_get<
    W,
    C: Fn(W) -> (W, u64),
    G: Fn(W, &str, &str, &[(String, String)], Ipv4Addr) -> (W, Result<HttpResponse, Error>),
    P: Fn(Vec<u8>) -> Result<DnsJsonResponse, String>,
    T: Fn(W, Ipv4Addr, u16, u32) -> (W, Result<u128, Error>),
>(
    world: W,
    resolver: &mut DnsResolver,
    network: &Network<C, G, P, T>,
    host: &str,
    path: &str,
    headers: &[(String, String)],
) -> (r: (W, Result<HttpResponse, Error>))
    requires
        network.total::<W>(),
    ensures
        network.got(
            old(resolver)@,
            host@,
            path@,
            pairs_text(headers@),
            world,
            final(resolver)@,
            r.0,
            outcome(r.1),
        ),
{
    let (next, found) = resolver.resolve(
        world,
        host,
        &network.clock,
        &network.get,
        &network.parse,
    );
    match found {
        Err(error) => (next, Err(error)),
        Ok(addrs) => https_get_with_candidates(
            next,
            host,
            path,
            headers,
            addrs.as_slice(),
            &network.get,
        ),
    }
}

/// Resolves `host` and connects to `port` at its addresses. Returns the milliseconds that the
/// connection took.
///
/// # Errors
///
/// Returns [`Error`] if the name does not resolve or no address accepts.
pub fn connect_duration<
    W,
    C: Fn(W) -> (W, u64),
    G: Fn(W, &str, &str, &[(String, String)], Ipv4Addr) -> (W, Result<HttpResponse, Error>),
    P: Fn(Vec<u8>) -> Result<DnsJsonResponse, String>,
    T: Fn(W, Ipv4Addr, u16, u32) -> (W, Result<u128, Error>),
>(
    world: W,
    resolver: &mut DnsResolver,
    network: &Network<C, G, P, T>,
    host: &str,
    port: u16,
    timeout_ms: u32,
) -> (r: (W, Result<u128, Error>))
    requires
        network.total::<W>(),
    ensures
        network.connected(
            old(resolver)@,
            host@,
            port,
            timeout_ms,
            world,
            final(resolver)@,
            r.0,
            result_view(r.1),
        ),
{
    let (next, found) = resolver.resolve(
        world,
        host,
        &network.clock,
        &network.get,
        &network.parse,
    );
    match found {
        Err(error) => (next, Err(error)),
        Ok(addrs) => connect_any(next, addrs.as_slice(), port, timeout_ms, &network.connect),
    }
}

/// A GET resolves its host, the name as it is. Where that fails, the error is the outcome, and nothing is
/// asked for. Else each call that follows asks for exactly the path that was asked for, query and all, at
/// that host and with those headers, one call at each address in its order until one answers; and the
/// outcome is the answer of the last call.
pub proof fn law_get_keeps_to_the_request<
    W,
    C: Fn(W) -> (W, u64),
    G: Fn(W, &str, &str, &[(String, String)], Ipv4Addr) -> (W, Result<HttpResponse, Error>),
    P: Fn(Vec<u8>) -> Result<DnsJsonResponse, String>,
    T: Fn(W, Ipv4Addr, u16, u32) -> (W, Result<u128, Error>),
>(
    network: Network<C, G, P, T>,
    cache: CacheView,
    host: Seq<char>,
    path: Seq<char>,
    headers: Seq<(Seq<char>, Seq<char>)>,
    before: W,
    left: CacheView,
    after: W,
    out: ResponseOutcome,
)
    requires
        network.got(cache, host, path, headers, before, left, after, out),
    ensures
        exists|found: Resolution, next: W|
            #[trigger] resolved(
                network.clock,
                network.get,
                network.parse,
                cache,
                host,
                before,
                left,
                next,
                found,
            ) && match found {
                Err(error) => after == next && out == Err::<HttpResponseView, ErrorView>(error),
                Ok(ips) => exists|worlds: Seq<W>, replies: Seq<Result<HttpResponse, Error>>|
                    {
                        &&& #[trigger] calls(
                            network.get,
                            host,
                            path,
                            headers,
                            ips,
                            worlds,
                            replies,
                        )
                        &&& worlds[0] == next
                        &&& worlds[worlds.len() - 1] == after
                        &&& comes_to(
                            ips,
                            replies,
                            ErrorView::Dns("no IPv4 addresses available for '"@ + host + "'"@),
                            out,
                        )
                    },
            },
{
    let (found, next) = choose|found: Resolution, next: W|
        #[trigger] resolved(
            network.clock,
            network.get,
            network.parse,
            cache,
            host,
            before,
            left,
            next,
            found,
        ) && match found {
            Err(error) => after == next && out == Err::<HttpResponseView, ErrorView>(error),
            Ok(ips) => first_success(
                get_via_ip(network.get, host, path, headers),
                ips,
                ErrorView::Dns("no IPv4 addresses available for '"@ + host + "'"@),
                next,
                after,
                out,
            ),
        };
    if let Ok(ips) = found {
        law_get_is_performed(
            network.get,
            host,
            path,
            headers,
            ips,
            ErrorView::Dns("no IPv4 addresses available for '"@ + host + "'"@),
            next,
            after,
            out,
        );
    }
    assert(resolved(
        network.clock,
        network.get,
        network.parse,
        cache,
        host,
        before,
        left,
        next,
        found,
    ));
}

/// A connection resolves its host, the name as it is. Where that fails, the error is the outcome, and
/// nothing is connected to. Else each call that follows is for the port and with the time limit that were
/// asked for, one call at each address in its order until one accepts; and the outcome is that of the last
/// call.
pub proof fn law_connection_keeps_to_the_request<
    W,
    C: Fn(W) -> (W, u64),
    G: Fn(W, &str, &str, &[(String, String)], Ipv4Addr) -> (W, Result<HttpResponse, Error>),
    P: Fn(Vec<u8>) -> Result<DnsJsonResponse, String>,
    T: Fn(W, Ipv4Addr, u16, u32) -> (W, Result<u128, Error>),
>(
    network: Network<C, G, P, T>,
    cache: CacheView,
    host: Seq<char>,
    port: u16,
    timeout_ms: u32,
    before: W,
    left: CacheView,
    after: W,
    out: ConnectOutcome,
)
    requires
        network.connected(cache, host, port, timeout_ms, before, left, after, out),
    ensures
        exists|found: Resolution, next: W|
            #[trigger] resolved(
                network.clock,
                network.get,
                network.parse,
                cache,
                host,
                before,
                left,
                next,
                found,
            ) && match found {
                Err(error) => after == next && out == Err::<u128, ErrorView>(error),
                Ok(ips) => exists|worlds: Seq<W>, replies: Seq<Result<u128, Error>>|
                    {
                        &&& #[trigger] connections(
                            network.connect,
                            port,
                            timeout_ms,
                            ips,
                            worlds,
                            replies,
                        )
                        &&& worlds[0] == next
                        &&& worlds[worlds.len() - 1] == after
                        &&& forall|i: int|
                            0 <= i < replies.len() - 1 ==> (#[trigger] replies[i]) is Err
                        &&& ips.len() == 0 ==> out == Err::<u128, ErrorView>(
                            ErrorView::Dns(
                                "no IPv4 addresses available for TCP connect on port "@ + decimal(
                                    port as nat,
                                ),
                            ),
                        )
                        &&& ips.len() > 0 ==> replies.len() > 0 && match replies[replies.len() - 1] {
                            Ok(elapsed) => out == Ok::<u128, ErrorView>(elapsed),
                            Err(e) => out == Err::<u128, ErrorView>(e@) && replies.len()
                                == ips.len(),
                        }
                    },
            },
{
    let (found, next) = choose|found: Resolution, next: W|
        #[trigger] resolved(
            network.clock,
            network.get,
            network.parse,
            cache,
            host,
            before,
            left,
            next,
            found,
        ) && match found {
            Err(error) => after == next && out == Err::<u128, ErrorView>(error),
            Ok(ips) => first_success(
                connect_via(network.connect, port, timeout_ms),
                ips,
                nowhere_to_connect(port),
                next,
                after,
                out,
            ),
        };
    if let Ok(ips) = found {
        law_connection_is_made(
            network.connect,
            port,
            timeout_ms,
            ips,
            nowhere_to_connect(port),
            next,
            after,
            out,
        );
    }
    assert(resolved(
        network.clock,
        network.get,
        network.parse,
        cache,
        host,
        before,
        left,
        next,
        found,
    ));
}

} // verus!
