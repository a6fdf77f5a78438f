//! TLS sessions.

use std::sync::Arc;
use vstd::prelude::*;
use vstd::string::*;

use crate::error::{result_view, Error, ErrorView};
use crate::ip::Ipv4Addr;
use crate::text::{join2, join3};

verus! {

/// The configuration of TLS clients, of which nothing is known here.
#[verifier::external_type_specification]
#[verifier::external_body]
pub struct ExClientConfig(rustls::ClientConfig);

/// A TLS session of a client, of which nothing is known here.
#[verifier::external_type_specification]
#[verifier::external_body]
pub struct ExClientConnection(rustls::ClientConnection);

/// Whether `rustls_pki_types::ServerName::try_from` accepts `host` as the name of a server.
pub uninterp spec fn is_server_name(host: Seq<char>) -> bool;

/// `rustls_pki_types::ServerName::try_from` on a `&str`, with the error as its text. Whether a name
/// is accepted depends on the name alone, and the error has always the same words.
#[verifier::external_body]
fn check_server_name(host: &str) -> (r: Result<(), String>)
    ensures
        match r {
            Ok(_) => is_server_name(host@),
            Err(error) => !is_server_name(host@) && error@ == "invalid dns name"@,
        },
{
    match rustls_pki_types::ServerName::try_from(host) {
        Ok(_) => Ok(()),
        Err(error) => Err(error.to_string()),
    }
}

/// A version of TLS.
#[derive(Debug, Clone, Copy, PartialEq, Eq, Structural)]
pub enum TlsVersion {
    /// TLS 1.2.
    Tls12,
    /// TLS 1.3.
    Tls13,
}

/// A source of TLS sessions that share a configuration.
pub struct TlsSessions {
    versions: Vec<TlsVersion>,
    config: Arc<rustls::ClientConfig>,
}

/// A TLS session of a client, and what it was made for.
pub struct TlsSession {
    server: String,
    versions: Vec<TlsVersion>,
    connection: rustls::ClientConnection,
}

/// The sessions with the configuration that `rustls::ClientConfig::builder_with_provider` builds for
/// the versions `versions`: these are the versions of the configuration. It uses the provider of
/// `rustls_rustcrypto`, which has cipher suites of each version, so that the builder accepts any
/// version at all. It trusts the roots of `webpki_roots` and does not authenticate the client, of
/// which nothing is claimed: the configuration keeps its roots to itself.
#[verifier::external_body]
fn client_config(versions: Vec<TlsVersion>) -> (r: TlsSessions)
    requires
        versions@.len() > 0,
    ensures
        r.versions() == versions@,
{
    let offered: Vec<_> = versions.iter().map(|version| match version {
        TlsVersion::Tls12 => &rustls::version::TLS12,
        TlsVersion::Tls13 => &rustls::version::TLS13,
    }).collect();
    let root_store = rustls::RootCertStore { roots: webpki_roots::TLS_SERVER_ROOTS.to_vec() };
    let config = rustls::ClientConfig::builder_with_provider(rustls_rustcrypto::provider().into())
        .with_protocol_versions(&offered)
        .expect("vzglyd_sidecar protocol set is supported")
        .with_root_certificates(root_store)
        .with_no_client_auth();
    TlsSessions { versions, config: Arc::new(config) }
}

/// `rustls::ClientConnection::new` with the configuration of `sessions` for the server `host`, with
/// the error as its text. The session is for that server, and offers the versions of that
/// configuration. What is not the name of a server is refused in the words of
/// `ServerName::try_from`. Whether there is a session for any other name is left open: it starts
/// from random numbers of the machine, and can fail for want of them.
#[verifier::external_body]
fn client_connection(sessions: &TlsSessions, host: &str) -> (r: Result<TlsSession, String>)
    ensures
        match r {
            Ok(session) => is_server_name(host@) && session.server() == host@
                && session.versions() == sessions.versions(),
            Err(reason) => is_server_name(host@) || reason@ == "invalid dns name"@,
        },
{
    let name = match rustls_pki_types::ServerName::try_from(host) {
        Ok(name) => name.to_owned(),
        Err(error) => return Err(error.to_string()),
    };
    match rustls::ClientConnection::new(sessions.config.clone(), name) {
        Ok(connection) => Ok(
            TlsSession {
                server: host.to_string(),
                versions: sessions.versions.clone(),
                connection,
            },
        ),
        Err(error) => Err(error.to_string()),
    }
}

impl TlsSession {
    /// The name of the server that the session is for.
    pub closed spec fn server(self) -> Seq<char> {
        self.server@
    }

    /// The versions of TLS that the session offers.
    pub closed spec fn versions(self) -> Seq<TlsVersion> {
        self.versions@
    }

    /// The session itself.
    pub closed spec fn connection(self) -> rustls::ClientConnection {
        self.connection
    }

    /// The session itself, to be run over a socket.
    pub fn into_connection(self) -> (r: rustls::ClientConnection)
        ensures
            r == self.connection(),
    {
        self.connection
    }
}

impl TlsSessions {
    /// The versions of TLS that the sessions offer.
    pub closed spec fn versions(self) -> Seq<TlsVersion> {
        self.versions@
    }

    /// Sessions that offer TLS 1.2 and 1.3, and trust the usual certificate authorities.
    pub fn new() -> (r: TlsSessions)
        ensures
            r.versions() == seq![TlsVersion::Tls12, TlsVersion::Tls13],
    {
        let versions: Vec<TlsVersion> = vec![TlsVersion::Tls12, TlsVersion::Tls13];
        assert(versions@ =~= seq![TlsVersion::Tls12, TlsVersion::Tls13]);
        client_config(versions)
    }

    /// A session with the server `host`.
    ///
    /// # Errors
    ///
    /// Says in words why there is none. What is not the name of a server has no session.
    pub fn session(&self, host: &str) -> (r: Result<TlsSession, String>)
        ensures
            self.started(host@, r),
    {
        client_connection(self, host)
    }

    /// Connects to `port` at `ip`, as `connect` does it, and starts a session with `host` over the
    /// connection.
    ///
    /// # Errors
    ///
    /// Returns the error of the connection, and [`Error::Tls`] if `host` is not the name of a server
    /// or there is no session.
    pub fn connect<K, C: FnOnce(Ipv4Addr, u16) -> Result<K, Error>>(
        &self,
        host: &str,
        port: u16,
        ip: Ipv4Addr,
        connect: C,
    ) -> (r: Result<(TlsSession, K), Error>)
        requires
            call_requires(connect, (ip, port)),
        ensures
            exists|connected: Result<K, Error>| #[trigger]
                call_ensures(connect, (ip, port), connected) && match connected {
                    Err(error) => result_view(r) == Err::<(TlsSession, K), ErrorView>(error@),
                    Ok(socket) => self.secured(host@, socket, r),
                },
    {
        let start = |name: &str| -> (s: Result<TlsSession, String>)
            ensures
                self.started(name@, s),
            { self.session(name) };
        tls_connect(host, port, ip, connect, start)
    }

    /// Whether the attempt to start a session with `host` can come to `r`: a session that is for that
    /// server and offers the versions of this source. What is not the name of a server has none.
    pub open spec fn started(self, host: Seq<char>, r: Result<TlsSession, String>) -> bool {
        match r {
            Ok(session) => is_server_name(host) && session.server() == host && session.versions()
                == self.versions(),
            Err(reason) => is_server_name(host) || reason@ == "invalid dns name"@,
        }
    }

    /// Whether a session with `host` over the socket `socket` can come to `r`: a session that is for
    /// that server and offers the versions of this source, over that socket.
    pub open spec fn secured<K>(
        self,
        host: Seq<char>,
        socket: K,
        r: Result<(TlsSession, K), Error>,
    ) -> bool {
        match r {
            Ok((session, over)) => {
                &&& is_server_name(host)
                &&& session.server() == host
                &&& session.versions() == self.versions()
                &&& over == socket
            },
            Err(error) => if is_server_name(host) {
                exists|reason: Seq<char>| error@ == #[trigger] no_session(reason)
            } else {
                error@ == bad_server_name(host)
            },
        }
    }
}

/// The error for a host that is not the name of a server.
pub open spec fn bad_server_name(host: Seq<char>) -> ErrorView {
    ErrorView::Tls("invalid TLS server name '"@ + host + "': "@ + "invalid dns name"@)
}

/// The error for a session that could not be created, for the reason `reason`.
pub open spec fn no_session(reason: Seq<char>) -> ErrorView {
    ErrorView::Tls("failed to create TLS session: "@ + reason)
}

/// Whether the session with `host` over the socket `socket` can come to `out`, where `session`
/// creates it.
pub open spec fn secured<K, N, S: FnOnce(&str) -> Result<N, String>>(
    session: S,
    host: Seq<char>,
    socket: K,
    out: Result<(N, K), ErrorView>,
) -> bool {
    if is_server_name(host) {
        exists|h: &str, r: Result<N, String>|
            h@ == host && #[trigger] call_ensures(session, (h,), r) && out == match r {
                Ok(connection) => Ok::<(N, K), ErrorView>((connection, socket)),
                Err(reason) => Err(no_session(reason@)),
            }
    } else {
        out == Err::<(N, K), ErrorView>(bad_server_name(host))
    }
}

/// Connects to `port` at `ip`, and starts a TLS session with `host` over the connection. `connect`
/// makes the connection and `session` creates the session, which is not tried without a connection
/// nor for what is not the name of a server.
///
/// # Errors
///
/// Returns the error of the connection, and [`Error::Tls`] if `host` is not the name of a server or
/// there is no session.
pub fn tls_connect<
    K,
    N,
    C: FnOnce(Ipv4Addr, u16) -> Result<K, Error>,
    S: FnOnce(&str) -> Result<N, String>,
>(host: &str, port: u16, ip: Ipv4Addr, connect: C, session: S) -> (r: Result<(N, K), Error>)
    requires
        call_requires(connect, (ip, port)),
        forall|socket: K, h: &str|
            #![trigger call_ensures(connect, (ip, port), Ok(socket)), call_requires(session, (h,))]
            call_ensures(connect, (ip, port), Ok(socket)) && is_server_name(host@) && h@ == host@
                ==> call_requires(session, (h,)),
    ensures
        exists|connected: Result<K, Error>| #[trigger]
            call_ensures(connect, (ip, port), connected) && match connected {
                Err(error) => result_view(r) == Err::<(N, K), ErrorView>(error@),
                Ok(socket) => secured(session, host@, socket, result_view(r)),
            },
{
    let socket = match connect(ip, port) {
        Err(error) => {
            return Err(error);
        },
        Ok(socket) => socket,
    };
    if let Err(error) = check_server_name(host) {
        let head = join3("invalid TLS server name '", host, "': ");
        return Err(Error::Tls(join2(head.as_str(), error.as_str())));
    }
    match session(host) {
        Ok(connection) => Ok((connection, socket)),
        Err(reason) => Err(
            Error::Tls(join2("failed to create TLS session: ", reason.as_str())),
        ),
    }
}

/// A session that was started is for the server that was asked for, its name as it is, offers the versions
/// of its source, and runs over the socket that was connected. What is not the name of a server is refused
/// in words that name it, and any other failure in words that give the reason.
pub proof fn law_session_is_for_its_server<K>(
    sessions: TlsSessions,
    host: Seq<char>,
    socket: K,
    r: Result<(TlsSession, K), Error>,
    started: Result<TlsSession, String>,
)
    requires
        sessions.secured(host, socket, r),
        sessions.started(host, started),
    ensures
        r matches Ok((session, over)) ==> is_server_name(host) && session.server() == host
            && session.versions() == sessions.versions() && over == socket,
        r matches Err(error) ==> if is_server_name(host) {
            exists|reason: Seq<char>|
                error@ == ErrorView::Tls(#[trigger] ("failed to create TLS session: "@ + reason))
        } else {
            error@ == ErrorView::Tls(
                "invalid TLS server name '"@ + host + "': invalid dns name"@,
            )
        },
        started matches Ok(session) ==> session.server() == host && session.versions()
            == sessions.versions(),
        !is_server_name(host) ==> r is Err && started is Err,
{
    reveal_strlit("': ");
    reveal_strlit("invalid dns name");
    reveal_strlit("': invalid dns name");
    assert("': "@ + "invalid dns name"@ =~= "': invalid dns name"@);
    assert("invalid TLS server name '"@ + host + "': "@ + "invalid dns name"@
        =~= "invalid TLS server name '"@ + host + "': invalid dns name"@);
    if let Err(error) = r {
        if is_server_name(host) {
            let reason = choose|reason: Seq<char>| error@ == #[trigger] no_session(reason);
            assert(error@ == ErrorView::Tls("failed to create TLS session: "@ + reason));
        }
    }
}

/// A session over a socket is started for the host, its name as it is, and is given with that socket. What
/// is not the name of a server is refused without trying, and a session that could not be created is an
/// error with the reason.
pub proof fn law_session_is_started<K, N, S: FnOnce(&str) -> Result<N, String>>(
    session: S,
    host: Seq<char>,
    socket: K,
    out: Result<(N, K), ErrorView>,
)
    requires
        secured(session, host, socket, out),
    ensures
        !is_server_name(host) ==> out == Err::<(N, K), ErrorView>(
            ErrorView::Tls("invalid TLS server name '"@ + host + "': invalid dns name"@),
        ),
        is_server_name(host) ==> exists|h: &str, r: Result<N, String>|
            #[trigger] call_ensures(session, (h,), r) && h@ == host && match r {
                Ok(connection) => out == Ok::<(N, K), ErrorView>((connection, socket)),
                Err(reason) => out == Err::<(N, K), ErrorView>(
                    ErrorView::Tls("failed to create TLS session: "@ + reason@),
                ),
            },
{
    reveal_strlit("': ");
    reveal_strlit("invalid dns name");
    reveal_strlit("': invalid dns name");
    assert("invalid TLS server name '"@ + host + "': "@ + "invalid dns name"@
        =~= "invalid TLS server name '"@ + host + "': invalid dns name"@);
    if is_server_name(host) {
        let (h, r) = choose|h: &str, r: Result<N, String>|
            h@ == host && #[trigger] call_ensures(session, (h,), r) && out == match r {
                Ok(connection) => Ok::<(N, K), ErrorView>((connection, socket)),
                Err(reason) => Err(no_session(reason@)),
            };
        assert(call_ensures(session, (h,), r));
    }
}

} // verus!
