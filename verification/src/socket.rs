//! TCP connections: which addresses are tried, and what the socket calls of the sandbox are given
//! and give back.

use vstd::prelude::*;
use vstd::string::*;

use crate::candidates::{
    first_success, leads_to, lemma_attempt_failed, lemma_attempt_succeeded,
    lemma_attempts_exhausted, lemma_no_attempt,
};
use crate::error::{result_view, Error, ErrorView, IoFailure, IoKind};
use crate::ip::Ipv4Addr;
use crate::number::{decimal, decimal_text, signed_decimal, signed_decimal_text};
use crate::text::{join2, join3};

verus! {

/// The errno of success.
pub const WASI_SUCCESS: i32 = 0;

/// What came of a connection attempt: the milliseconds that it took.
pub type ConnectOutcome = Result<u128, ErrorView>;

/// What a connection to the port `port`, as `connect` makes it, can do at one address.
pub open spec fn connect_via<W, T: Fn(W, Ipv4Addr, u16, u32) -> (W, Result<u128, Error>)>(
    connect: T,
    port: u16,
    timeout_ms: u32,
) -> spec_fn(W, Ipv4Addr, W, ConnectOutcome) -> bool {
    |before: W, ip: Ipv4Addr, after: W, out: ConnectOutcome|
        exists|r: Result<u128, Error>|
            #[trigger] call_ensures(connect, (before, ip, port, timeout_ms), (after, r)) && out
                == result_view(r)
}

/// The error where there is no address to connect to.
pub open spec fn nowhere_to_connect(port: u16) -> ErrorView {
    ErrorView::Dns("no IPv4 addresses available for TCP connect on port "@ + decimal(port as nat))
}

/// Connects to one address after the other until one accepts, and returns the milliseconds that it
/// took to do so. Each address is tried once, and none after the one that accepts.
///
/// # Errors
///
/// Returns the error of the last attempt if none succeeds.
pub fn connect_any<W, T: Fn(W, Ipv4Addr, u16, u32) -> (W, Result<u128, Error>)>(
    world: W,
    addrs: &[Ipv4Addr],
    port: u16,
    timeout_ms: u32,
    connect: &T,
) -> (r: (W, Result<u128, Error>))
    requires
        forall|w: W, ip: Ipv4Addr| call_requires(*connect, (w, ip, port, timeout_ms)),
    ensures
        first_success(
            connect_via(*connect, port, timeout_ms),
            addrs@,
            nowhere_to_connect(port),
            world,
            r.0,
            result_view(r.1),
        ),
{
    let ghost attempt = connect_via(*connect, port, timeout_ms);
    let mut last_error: Error = Error::Dns(
        join2(
            "no IPv4 addresses available for TCP connect on port ",
            decimal_text(port as u64).as_str(),
        ),
    );
    let ghost first_error = last_error@;
    let mut current = world;
    let mut i: usize = 0;
    proof {
        lemma_no_attempt(attempt, addrs@, first_error, world);
    }
    while i < addrs.len()
        invariant
            i <= addrs@.len(),
            attempt == connect_via(*connect, port, timeout_ms),
            forall|w: W, ip: Ipv4Addr| call_requires(*connect, (w, ip, port, timeout_ms)),
            first_error == nowhere_to_connect(port),
            leads_to(attempt, addrs@, first_error, world, i as int, last_error@, current),
        decreases addrs@.len() - i,
    {
        let ghost now = current;
        let (next, r) = connect(current, addrs[i], port, timeout_ms);
        assert(attempt(now, addrs@[i as int], next, result_view(r)));
        match r {
            Ok(elapsed) => {
                proof {
                    lemma_attempt_succeeded(
                        attempt,
                        addrs@,
                        first_error,
                        world,
                        i as int,
                        last_error@,
                        now,
                        next,
                        result_view(r),
                    );
                }
                return (next, Ok(elapsed));
            },
            Err(error) => {
                proof {
                    lemma_attempt_failed(
                        attempt,
                        addrs@,
                        first_error,
                        world,
                        i as int,
                        last_error@,
                        now,
                        next,
                        error@,
                    );
                }
                last_error = error;
            },
        }
        current = next;
        i = i + 1;
    }
    proof {
        lemma_attempts_exhausted(attempt, addrs@, first_error, world, last_error@, current);
    }
    (current, Err(last_error))
}

/// The eight bytes that name an address and a port to the sandbox: two of zero, the port with its
/// high byte first, and the octets of the address.
pub open spec fn wasi_address(ip: Ipv4Addr, port: u16) -> Seq<u8> {
    seq![0, 0, (port / 256) as u8, (port % 256) as u8, ip.a, ip.b, ip.c, ip.d]
}

/// The failure of the socket call `op` with the errno `code`.
pub open spec fn wasi_failure_text(op: Seq<char>, code: int) -> Seq<char> {
    op + " failed with errno "@ + signed_decimal(code)
}

/// The eight bytes that name an address and a port to the sandbox.
pub fn wasi_address_bytes(ip: Ipv4Addr, port: u16) -> (r: [u8; 8])
    ensures
        r@ == wasi_address(ip, port),
{
    let octets = ip.octets();
    assert(port >> 8 == port / 256) by (bit_vector);
    assert(port & 0xff == port % 256) by (bit_vector);
    let r: [u8; 8] = [
        0,
        0,
        (port >> 8) as u8,
        (port & 0xff) as u8,
        octets[0],
        octets[1],
        octets[2],
        octets[3],
    ];
    assert(r@ =~= wasi_address(ip, port));
    r
}

/// Different addresses or ports are named by different bytes.
pub proof fn law_wasi_address_injective(x: Ipv4Addr, p: u16, y: Ipv4Addr, q: u16)
    ensures
        wasi_address(x, p) == wasi_address(y, q) ==> x == y && p == q,
{
    let a = wasi_address(x, p);
    let b = wasi_address(y, q);
    if a == b {
        assert(a[2] == b[2] && a[3] == b[3]);
        assert(a[4] == b[4] && a[5] == b[5] && a[6] == b[6] && a[7] == b[7]);
    }
}

/// The failure of the socket call `op` with the errno `code`.
pub fn errno(op: &str, code: i32) -> (r: IoFailure)
    ensures
        r.kind == IoKind::Other,
        r.message@ == wasi_failure_text(op@, code as int),
{
    IoFailure {
        kind: IoKind::Other,
        message: join3(op, " failed with errno ", signed_decimal_text(code).as_str()),
    }
}

/// The number of bytes that the socket call `op` moved, by the errno and the count that it gave.
///
/// # Errors
///
/// Any errno but that of success is a failure.
pub fn bytes_moved(op: &str, code: i32, count: u32) -> (r: Result<usize, IoFailure>)
    ensures
        match r {
            Ok(n) => code == WASI_SUCCESS && n == count,
            Err(failure) => code != WASI_SUCCESS && failure.kind == IoKind::Other
                && failure.message@ == wasi_failure_text(op@, code as int),
        },
{
    if code != WASI_SUCCESS {
        Err(errno(op, code))
    } else {
        Ok(count as usize)
    }
}

/// Whether opening a socket, which gave the errno `opened.0` and the descriptor `opened.1`, and
/// connecting it can come to `out`: the descriptor of the connected socket, or the error.
pub open spec fn wasi_connected<K: FnOnce(i32, [u8; 8]) -> i32, S: FnOnce(i32)>(
    opened: (i32, u32),
    connect: K,
    shutdown: S,
    ip: Ipv4Addr,
    port: u16,
    out: Result<i32, ErrorView>,
) -> bool {
    let fd = opened.1 as i32;
    if opened.0 != WASI_SUCCESS {
        out == Err::<i32, ErrorView>(
            ErrorView::Io(wasi_failure_text("sock_open"@, opened.0 as int)),
        )
    } else {
        exists|address: [u8; 8], code: i32|
            address@ == wasi_address(ip, port) && #[trigger] call_ensures(
                connect,
                (fd, address),
                code,
            ) && if code == WASI_SUCCESS {
                out == Ok::<i32, ErrorView>(fd)
            } else {
                call_ensures(shutdown, (fd,), ()) && out == Err::<i32, ErrorView>(
                    ErrorView::Io(wasi_failure_text("sock_connect"@, code as int)),
                )
            }
    }
}

/// Connects a socket of the sandbox to `ip` and `port`, and returns its descriptor. A socket that
/// does not connect is shut down.
///
/// `open` opens a socket, for an errno and the descriptor; `connect` connects it to the address
/// that eight bytes name; `shutdown` shuts it down. Only a socket that was opened is connected, and
/// only one that did not connect is shut down.
///
/// # Errors
///
/// Returns [`Error::Io`] with the failed call and its errno.
pub fn connect_wasi<
    O: FnOnce() -> (i32, u32),
    K: FnOnce(i32, [u8; 8]) -> i32,
    S: FnOnce(i32),
>(ip: Ipv4Addr, port: u16, open: O, connect: K, shutdown: S) -> (r: Result<i32, Error>)
    requires
        call_requires(open, ()),
        forall|opened: (i32, u32), fd: i32, address: [u8; 8]|
            #![trigger call_ensures(open, (), opened), call_requires(connect, (fd, address))]
            call_ensures(open, (), opened) && opened.0 == WASI_SUCCESS && fd == opened.1 as i32
                && address@ == wasi_address(ip, port) ==> call_requires(connect, (fd, address)),
        forall|fd: i32, address: [u8; 8], code: i32| #[trigger]
            call_ensures(connect, (fd, address), code) && code != WASI_SUCCESS ==> call_requires(
                shutdown,
                (fd,),
            ),
    ensures
        exists|opened: (i32, u32)| #[trigger]
            call_ensures(open, (), opened) && wasi_connected(
                opened,
                connect,
                shutdown,
                ip,
                port,
                result_view(r),
            ),
{
    let opened = open();
    if opened.0 != WASI_SUCCESS {
        return Err(Error::from(errno("sock_open", opened.0)));
    }
    let fd: i32 = opened.1 as i32;
    let code: i32 = connect(fd, wasi_address_bytes(ip, port));
    if code != WASI_SUCCESS {
        shutdown(fd);
        return Err(Error::from(errno("sock_connect", code)));
    }
    Ok(fd)
}

/// Whether the calls of `connect` that were made are those at the first of the addresses `ips`, one at
/// each, in their order, where `worlds` are the worlds before and after each call and `replies` what came
/// of them. Each of them is for the port `port` and has the time limit `timeout_ms`.
pub open spec fn connections<W, T: Fn(W, Ipv4Addr, u16, u32) -> (W, Result<u128, Error>)>(
    connect: T,
    port: u16,
    timeout_ms: u32,
    ips: Seq<Ipv4Addr>,
    worlds: Seq<W>,
    replies: Seq<Result<u128, Error>>,
) -> bool {
    &&& worlds.len() == replies.len() + 1
    &&& replies.len() <= ips.len()
    &&& forall|i: int|
        0 <= i < replies.len() ==> call_ensures(
            connect,
            (#[trigger] worlds[i], ips[i], port, timeout_ms),
            (worlds[i + 1], replies[i]),
        )
}

/// A connection to one address after the other is made of calls for the port and with the time limit that
/// were asked for, one at each address in its order until one accepts. Its outcome is that of the last
/// call, and nothing else is done to the world. Where there is no address, it is an error that names the
/// port.
pub proof fn law_connection_is_made<W, T: Fn(W, Ipv4Addr, u16, u32) -> (W, Result<u128, Error>)>(
    connect: T,
    port: u16,
    timeout_ms: u32,
    ips: Seq<Ipv4Addr>,
    error: ErrorView,
    before: W,
    after: W,
    out: ConnectOutcome,
)
    requires
        first_success(connect_via(connect, port, timeout_ms), ips, error, before, after, out),
    ensures
        exists|worlds: Seq<W>, replies: Seq<Result<u128, Error>>|
            {
                &&& #[trigger] connections(connect, port, timeout_ms, ips, worlds, replies)
                &&& worlds[0] == before
                &&& worlds[worlds.len() - 1] == after
                &&& forall|i: int| 0 <= i < replies.len() - 1 ==> (#[trigger] replies[i]) is Err
                &&& ips.len() == 0 ==> out == Err::<u128, ErrorView>(error)
                &&& ips.len() > 0 ==> replies.len() > 0 && match replies[replies.len() - 1] {
                    Ok(elapsed) => out == Ok::<u128, ErrorView>(elapsed),
                    Err(e) => out == Err::<u128, ErrorView>(e@) && replies.len() == ips.len(),
                }
            },
        nowhere_to_connect(port) == ErrorView::Dns(
            "no IPv4 addresses available for TCP connect on port "@ + decimal(port as nat),
        ),
    decreases ips.len(),
{
    let attempt = connect_via(connect, port, timeout_ms);
    if ips.len() == 0 {
        let worlds = seq![before];
        let replies = Seq::<Result<u128, Error>>::empty();
        assert(connections(connect, port, timeout_ms, ips, worlds, replies));
    } else {
        let rest = ips.skip(1);
        let (next, tried) = choose|next: W, tried: ConnectOutcome|
            #![trigger attempt(before, ips[0], next, tried)]
            attempt(before, ips[0], next, tried) && match tried {
                Ok(_) => after == next && out == tried,
                Err(e) => first_success(attempt, rest, e, next, after, out),
            };
        let r = choose|r: Result<u128, Error>|
            #[trigger] call_ensures(connect, (before, ips[0], port, timeout_ms), (next, r)) && tried
                == result_view(r);
        match r {
            Ok(_) => {
                let worlds = seq![before, next];
                let replies = seq![r];
                assert(connections(connect, port, timeout_ms, ips, worlds, replies));
            },
            Err(e) => {
                law_connection_is_made(connect, port, timeout_ms, rest, e@, next, after, out);
                let (ws, rs) = choose|ws: Seq<W>, rs: Seq<Result<u128, Error>>|
                    {
                        &&& #[trigger] connections(connect, port, timeout_ms, rest, ws, rs)
                        &&& ws[0] == next
                        &&& ws[ws.len() - 1] == after
                        &&& forall|i: int| 0 <= i < rs.len() - 1 ==> (#[trigger] rs[i]) is Err
                        &&& rest.len() == 0 ==> out == Err::<u128, ErrorView>(e@)
                        &&& rest.len() > 0 ==> rs.len() > 0 && match rs[rs.len() - 1] {
                            Ok(elapsed) => out == Ok::<u128, ErrorView>(elapsed),
                            Err(e) => out == Err::<u128, ErrorView>(e@) && rs.len() == rest.len(),
                        }
                    };
                let worlds = seq![before] + ws;
                let replies = seq![r] + rs;
                assert forall|i: int| 0 <= i < replies.len() implies call_ensures(
                    connect,
                    (#[trigger] worlds[i], ips[i], port, timeout_ms),
                    (worlds[i + 1], replies[i]),
                ) by {
                    if i > 0 {
                        assert(worlds[i] == ws[i - 1]);
                        assert(worlds[i + 1] == ws[i]);
                        assert(replies[i] == rs[i - 1]);
                        assert(rest[i - 1] == ips[i]);
                    } else {
                        assert(worlds[1] == ws[0]);
                    }
                }
                assert(connections(connect, port, timeout_ms, ips, worlds, replies));
                assert forall|i: int| 0 <= i < replies.len() - 1 implies (#[trigger] replies[i]) is Err
                    by {
                    if i > 0 {
                        assert(replies[i] == rs[i - 1]);
                    }
                }
                assert(worlds[worlds.len() - 1] == after);
                if rest.len() > 0 {
                    assert(replies[replies.len() - 1] == rs[rs.len() - 1]);
                } else {
                    assert(rs.len() == 0);
                    assert(replies[0] == r);
                }
            },
        }
    }
}

/// The eight bytes that name an address and a port: two of zero, the port as a number of two bytes with
/// the high one first, and the four octets in their order.
pub proof fn law_wasi_address(ip: Ipv4Addr, port: u16)
    ensures
        ({
            let bytes = wasi_address(ip, port);
            &&& bytes.len() == 8
            &&& bytes[0] == 0 && bytes[1] == 0
            &&& bytes[2] * 256 + bytes[3] == port
            &&& bytes[4] == ip.a && bytes[5] == ip.b && bytes[6] == ip.c && bytes[7] == ip.d
        }),
{
}

/// What connecting a socket of the sandbox comes to. Where it could not be opened, an error with that
/// call and its errno, and nothing is connected. Where it could, it is connected to the address and the
/// port: its descriptor for success, which is the errno zero, and else it is shut down and there is an
/// error with that call and its errno.
pub proof fn law_wasi_connection<K: FnOnce(i32, [u8; 8]) -> i32, S: FnOnce(i32)>(
    opened: (i32, u32),
    connect: K,
    shutdown: S,
    ip: Ipv4Addr,
    port: u16,
    out: Result<i32, ErrorView>,
)
    requires
        wasi_connected(opened, connect, shutdown, ip, port, out),
    ensures
        opened.0 != 0 ==> out == Err::<i32, ErrorView>(
            ErrorView::Io("sock_open failed with errno "@ + signed_decimal(opened.0 as int)),
        ),
        opened.0 == 0 ==> exists|address: [u8; 8], code: i32|
            {
                &&& #[trigger] call_ensures(connect, (opened.1 as i32, address), code)
                &&& address@ == wasi_address(ip, port)
                &&& code == 0 ==> out == Ok::<i32, ErrorView>(opened.1 as i32)
                &&& code != 0 ==> call_ensures(shutdown, (opened.1 as i32,), ()) && out == Err::<
                    i32,
                    ErrorView,
                >(ErrorView::Io("sock_connect failed with errno "@ + signed_decimal(code as int)))
            },
{
    reveal_strlit("sock_open");
    reveal_strlit("sock_connect");
    reveal_strlit(" failed with errno ");
    reveal_strlit("sock_open failed with errno ");
    reveal_strlit("sock_connect failed with errno ");
    assert("sock_open"@ + " failed with errno "@ =~= "sock_open failed with errno "@);
    assert("sock_connect"@ + " failed with errno "@ =~= "sock_connect failed with errno "@);
}

/// A socket call succeeds with the errno zero, and its failure names the call and the errno.
pub proof fn law_errno_in_words(op: Seq<char>, code: i32)
    ensures
        WASI_SUCCESS == 0,
        wasi_failure_text(op, code as int) == op + " failed with errno "@ + signed_decimal(
            code as int,
        ),
{
}

} // verus!
