//! Trying one address after the other.
//!
//! What is done to the world outside is told apart by the world itself: each operation takes the
//! world as it is, and gives it back as it is then. There is one world, which is neither made nor
//! copied here, so where a contract says how the last one came of the first, it says which operations
//! were performed, how often, and in which order.

use vstd::prelude::*;
use vstd::string::*;

use crate::error::{Error, ErrorView};
use crate::http::{pairs_text, HttpResponse, HttpResponseView};
use crate::ip::Ipv4Addr;
use crate::response_reader::{outcome, ResponseOutcome};
use crate::text::join3;

verus! {

/// Whether trying the addresses `ips` in turn until one succeeds can come to `out` and turn the world
/// `before` into `after`, where `attempt` tells what an attempt at an address can do. Where none
/// succeeds, the last error counts, and `error` where there was no attempt.
pub open spec fn first_success<W, T>(
    attempt: spec_fn(W, Ipv4Addr, W, Result<T, ErrorView>) -> bool,
    ips: Seq<Ipv4Addr>,
    error: ErrorView,
    before: W,
    after: W,
    out: Result<T, ErrorView>,
) -> bool
    decreases ips.len(),
{
    if ips.len() == 0 {
        after == before && out == Err::<T, ErrorView>(error)
    } else {
        exists|next: W, tried: Result<T, ErrorView>|
            #![trigger attempt(before, ips[0], next, tried)]
            attempt(before, ips[0], next, tried) && match tried {
                Ok(_) => after == next && out == tried,
                Err(e) => first_success(attempt, ips.skip(1), e, next, after, out),
            }
    }
}

/// Whether what trying the addresses from `ips[i]` on comes to, with the world `now` and after the
/// error `last`, is what trying all of `ips` comes to.
pub open spec fn leads_to<W, T>(
    attempt: spec_fn(W, Ipv4Addr, W, Result<T, ErrorView>) -> bool,
    ips: Seq<Ipv4Addr>,
    error: ErrorView,
    before: W,
    i: int,
    last: ErrorView,
    now: W,
) -> bool {
    forall|after: W, out: Result<T, ErrorView>| #[trigger]
        first_success(attempt, ips.skip(i), last, now, after, out) ==> first_success(
            attempt,
            ips,
            error,
            before,
            after,
            out,
        )
}

/// Before the first attempt all of the addresses are to be tried.
pub proof fn lemma_no_attempt<W, T>(
    attempt: spec_fn(W, Ipv4Addr, W, Result<T, ErrorView>) -> bool,
    ips: Seq<Ipv4Addr>,
    error: ErrorView,
    before: W,
)
    ensures
        leads_to(attempt, ips, error, before, 0, error, before),
{
    assert(ips.skip(0) =~= ips);
}

/// After an attempt that failed the addresses after it are to be tried.
pub proof fn lemma_attempt_failed<W, T>(
    attempt: spec_fn(W, Ipv4Addr, W, Result<T, ErrorView>) -> bool,
    ips: Seq<Ipv4Addr>,
    error: ErrorView,
    before: W,
    i: int,
    last: ErrorView,
    now: W,
    next: W,
    e: ErrorView,
)
    requires
        0 <= i < ips.len(),
        leads_to(attempt, ips, error, before, i, last, now),
        attempt(now, ips[i], next, Err(e)),
    ensures
        leads_to(attempt, ips, error, before, i + 1, e, next),
{
    let rest = ips.skip(i);
    assert(rest[0] == ips[i]);
    assert(rest.skip(1) =~= ips.skip(i + 1));
    assert forall|after: W, out: Result<T, ErrorView>| #[trigger]
        first_success(attempt, ips.skip(i + 1), e, next, after, out) implies first_success(
        attempt,
        ips,
        error,
        before,
        after,
        out,
    ) by {
        assert(attempt(now, rest[0], next, Err(e)));
        assert(first_success(attempt, rest, last, now, after, out));
    }
}

/// An attempt that succeeded ends the trying.
pub proof fn lemma_attempt_succeeded<W, T>(
    attempt: spec_fn(W, Ipv4Addr, W, Result<T, ErrorView>) -> bool,
    ips: Seq<Ipv4Addr>,
    error: ErrorView,
    before: W,
    i: int,
    last: ErrorView,
    now: W,
    next: W,
    out: Result<T, ErrorView>,
)
    requires
        0 <= i < ips.len(),
        leads_to(attempt, ips, error, before, i, last, now),
        attempt(now, ips[i], next, out),
        out is Ok,
    ensures
        first_success(attempt, ips, error, before, next, out),
{
    let rest = ips.skip(i);
    assert(attempt(now, rest[0], next, out));
    assert(first_success(attempt, rest, last, now, next, out));
}

/// After the last address the last error counts.
pub proof fn lemma_attempts_exhausted<W, T>(
    attempt: spec_fn(W, Ipv4Addr, W, Result<T, ErrorView>) -> bool,
    ips: Seq<Ipv4Addr>,
    error: ErrorView,
    before: W,
    last: ErrorView,
    now: W,
)
    requires
        leads_to(attempt, ips, error, before, ips.len() as int, last, now),
    ensures
        first_success(attempt, ips, error, before, now, Err(last)),
{
    let rest = ips.skip(ips.len() as int);
    assert(first_success(attempt, rest, last, now, now, Err(last)));
}

/// What an HTTPS request, as `get` performs it, can do at one address.
pub open spec fn get_via_ip<
    W,
    G: Fn(W, &str, &str, &[(String, String)], Ipv4Addr) -> (W, Result<HttpResponse, Error>),
>(
    get: G,
    host: Seq<char>,
    path: Seq<char>,
    headers: Seq<(Seq<char>, Seq<char>)>,
) -> spec_fn(W, Ipv4Addr, W, ResponseOutcome) -> bool {
    |before: W, ip: Ipv4Addr, after: W, out: ResponseOutcome|
        exists|h: &str, p: &str, hs: &[(String, String)], r: Result<HttpResponse, Error>|
            h@ == host && p@ == path && pairs_text(hs@) == headers && #[trigger] call_ensures(
                get,
                (before, h, p, hs, ip),
                (after, r),
            ) && out == outcome(r)
}

/// Performs the request at one address after the other until one of them answers. Each address is
/// asked once, and none after the one that answers.
///
/// # Errors
///
/// Returns the error of the last attempt if none succeeds.
pub fn https_get_with_candidates<
    W,
    G: Fn(W, &str, &str, &[(String, String)], Ipv4Addr) -> (W, Result<HttpResponse, Error>),
>(
    world: W,
    host: &str,
    path: &str,
    headers: &[(String, String)],
    ips: &[Ipv4Addr],
    get: &G,
) -> (r: (W, Result<HttpResponse, Error>))
    requires
        forall|w: W, h: &str, p: &str, hs: &[(String, String)], ip: Ipv4Addr|
            call_requires(*get, (w, h, p, hs, ip)),
    ensures
        first_success(
            get_via_ip(*get, host@, path@, pairs_text(headers@)),
            ips@,
            ErrorView::Dns("no IPv4 addresses available for '"@ + host@ + "'"@),
            world,
            r.0,
            outcome(r.1),
        ),
{
    let ghost attempt = get_via_ip(*get, host@, path@, pairs_text(headers@));
    let mut last_error: Error = Error::Dns(
        join3("no IPv4 addresses available for '", host, "'"),
    );
    let ghost first_error = last_error@;
    let mut current = world;
    let mut i: usize = 0;
    proof {
        lemma_no_attempt(attempt, ips@, first_error, world);
    }
    while i < ips.len()
        invariant
            i <= ips@.len(),
            attempt == get_via_ip(*get, host@, path@, pairs_text(headers@)),
            forall|w: W, h: &str, p: &str, hs: &[(String, String)], ip: Ipv4Addr|
                call_requires(*get, (w, h, p, hs, ip)),
            first_error == ErrorView::Dns("no IPv4 addresses available for '"@ + host@ + "'"@),
            leads_to(attempt, ips@, first_error, world, i as int, last_error@, current),
        decreases ips@.len() - i,
    {
        let ghost now = current;
        let (next, r) = get(current, host, path, headers, ips[i]);
        assert(attempt(now, ips@[i as int], next, outcome(r)));
        match r {
            Ok(response) => {
                proof {
                    lemma_attempt_succeeded(
                        attempt,
                        ips@,
                        first_error,
                        world,
                        i as int,
                        last_error@,
                        now,
                        next,
                        outcome(r),
                    );
                }
                return (next, Ok(response));
            },
            Err(error) => {
                proof {
                    lemma_attempt_failed(
                        attempt,
                        ips@,
                        first_error,
                        world,
                        i as int,
                        last_error@,
                        now,
                        next,
                        error@,
                    );
                }
                last_error = error;
            },
        }
        current = next;
        i = i + 1;
    }
    proof {
        lemma_attempts_exhausted(attempt, ips@, first_error, world, last_error@, current);
    }
    (current, Err(last_error))
}

/// Whether attempts at each of `ips`, once and in their order, can all fail and turn the world
/// `before` into `after`.
pub open spec fn all_failed<W, T>(
    attempt: spec_fn(W, Ipv4Addr, W, Result<T, ErrorView>) -> bool,
    ips: Seq<Ipv4Addr>,
    before: W,
    after: W,
) -> bool
    decreases ips.len(),
{
    if ips.len() == 0 {
        after == before
    } else {
        exists|next: W, e: ErrorView|
            #![trigger attempt(before, ips[0], next, Err(e))]
            attempt(before, ips[0], next, Err(e)) && all_failed(attempt, ips.skip(1), next, after)
    }
}

/// Whether `out` can be what came of the attempt at `ips[i]`, after those before it had failed, and
/// nothing was done after it.
pub open spec fn last_attempt<W, T>(
    attempt: spec_fn(W, Ipv4Addr, W, Result<T, ErrorView>) -> bool,
    ips: Seq<Ipv4Addr>,
    i: int,
    before: W,
    after: W,
    out: Result<T, ErrorView>,
) -> bool {
    &&& 0 <= i < ips.len()
    &&& exists|now: W| #[trigger]
        all_failed(attempt, ips.take(i), before, now) && attempt(now, ips[i], after, out)
}

/// A success is that of an address before which every attempt failed, and after which none is made.
/// Where nothing succeeds, every attempt failed, and the error is that of the last one.
pub proof fn law_first_success<W, T>(
    attempt: spec_fn(W, Ipv4Addr, W, Result<T, ErrorView>) -> bool,
    ips: Seq<Ipv4Addr>,
    error: ErrorView,
    before: W,
    after: W,
    out: Result<T, ErrorView>,
)
    requires
        first_success(attempt, ips, error, before, after, out),
    ensures
        out is Ok ==> exists|i: int| #[trigger] last_attempt(attempt, ips, i, before, after, out),
        out is Err && ips.len() > 0 ==> last_attempt(
            attempt,
            ips,
            ips.len() - 1,
            before,
            after,
            out,
        ),
        ips.len() == 0 ==> out == Err::<T, ErrorView>(error) && after == before,
    decreases ips.len(),
{
    if ips.len() > 0 {
        let rest = ips.skip(1);
        let (next, tried) = choose|next: W, tried: Result<T, ErrorView>|
            #![trigger attempt(before, ips[0], next, tried)]
            attempt(before, ips[0], next, tried) && match tried {
                Ok(_) => after == next && out == tried,
                Err(e) => first_success(attempt, rest, e, next, after, out),
            };
        match tried {
            Ok(_) => {
                assert(all_failed(attempt, ips.take(0), before, before));
                assert(last_attempt(attempt, ips, 0, before, after, out));
            },
            Err(e) => {
                law_first_success(attempt, rest, e, next, after, out);
                if rest.len() == 0 {
                    assert(all_failed(attempt, ips.take(0), before, before));
                    assert(last_attempt(attempt, ips, 0, before, after, out));
                } else {
                    let i = if out is Ok {
                        choose|i: int| #[trigger]
                            last_attempt(attempt, rest, i, next, after, out)
                    } else {
                        rest.len() - 1
                    };
                    assert(last_attempt(attempt, rest, i, next, after, out));
                    let now = choose|now: W| #[trigger]
                        all_failed(attempt, rest.take(i), next, now) && attempt(
                            now,
                            rest[i],
                            after,
                            out,
                        );
                    let failed = ips.take(i + 1);
                    assert(failed.skip(1) =~= rest.take(i));
                    assert(failed[0] == ips[0]);
                    assert(attempt(before, failed[0], next, Err(e)));
                    assert(all_failed(attempt, failed, before, now));
                    assert(attempt(now, ips[i + 1], after, out));
                    assert(last_attempt(attempt, ips, i + 1, before, after, out));
                }
            },
        }
    }
}

/// Whether a call of `get` in the world `before` asks for `path` at `host` with `headers`, all as they
/// are, at the address `ip`, and gives the world `after` and the reply `r`.
pub open spec fn called<
    W,
    G: Fn(W, &str, &str, &[(String, String)], Ipv4Addr) -> (W, Result<HttpResponse, Error>),
>(
    get: G,
    host: Seq<char>,
    path: Seq<char>,
    headers: Seq<(Seq<char>, Seq<char>)>,
    ip: Ipv4Addr,
    before: W,
    after: W,
    r: Result<HttpResponse, Error>,
) -> bool {
    exists|h: &str, p: &str, hs: &[(String, String)]|
        {
            &&& #[trigger] call_ensures(get, (before, h, p, hs, ip), (after, r))
            &&& h@ == host
            &&& p@ == path
            &&& hs@.len() == headers.len()
            &&& forall|k: int|
                0 <= k < headers.len() ==> (#[trigger] headers[k]) == (hs@[k].0@, hs@[k].1@)
        }
}

/// Whether the calls of `get` that were made are those at the first of the addresses `ips`, one at each,
/// in their order, where `worlds` are the worlds before and after each call and `replies` what came of
/// them. Each of them asks for `path` at `host` with `headers`.
pub open spec fn calls<
    W,
    G: Fn(W, &str, &str, &[(String, String)], Ipv4Addr) -> (W, Result<HttpResponse, Error>),
>(
    get: G,
    host: Seq<char>,
    path: Seq<char>,
    headers: Seq<(Seq<char>, Seq<char>)>,
    ips: Seq<Ipv4Addr>,
    worlds: Seq<W>,
    replies: Seq<Result<HttpResponse, Error>>,
) -> bool {
    &&& worlds.len() == replies.len() + 1
    &&& replies.len() <= ips.len()
    &&& forall|i: int|
        0 <= i < replies.len() ==> called(
            get,
            host,
            path,
            headers,
            ips[i],
            #[trigger] worlds[i],
            worlds[i + 1],
            replies[i],
        )
}

/// Whether `replies`, which came of trying `ips`, come to `out`: each but the last is an error, and the
/// last is the outcome; no address is left out but after a success. Where there is none, `error` is the
/// outcome.
pub open spec fn comes_to(
    ips: Seq<Ipv4Addr>,
    replies: Seq<Result<HttpResponse, Error>>,
    error: ErrorView,
    out: ResponseOutcome,
) -> bool {
    &&& forall|i: int| 0 <= i < replies.len() - 1 ==> (#[trigger] replies[i]) is Err
    &&& ips.len() == 0 ==> out == Err::<HttpResponseView, ErrorView>(error)
    &&& ips.len() > 0 ==> replies.len() > 0 && match replies[replies.len() - 1] {
        Ok(response) => out == Ok::<HttpResponseView, ErrorView>(response@),
        Err(e) => out == Err::<HttpResponseView, ErrorView>(e@) && replies.len() == ips.len(),
    }
}

/// A GET at one address after the other is made of calls that ask for the path, the host and the headers
/// as they are, one at each address in its order until one answers. Its outcome is the answer of the
/// last call, and nothing else is done to the world.
pub proof fn law_get_is_performed<
    W,
    G: Fn(W, &str, &str, &[(String, String)], Ipv4Addr) -> (W, Result<HttpResponse, Error>),
>(
    get: G,
    host: Seq<char>,
    path: Seq<char>,
    headers: Seq<(Seq<char>, Seq<char>)>,
    ips: Seq<Ipv4Addr>,
    error: ErrorView,
    before: W,
    after: W,
    out: ResponseOutcome,
)
    requires
        first_success(get_via_ip(get, host, path, headers), ips, error, before, after, out),
    ensures
        exists|worlds: Seq<W>, replies: Seq<Result<HttpResponse, Error>>|
            {
                &&& #[trigger] calls(get, host, path, headers, ips, worlds, replies)
                &&& worlds[0] == before
                &&& worlds[worlds.len() - 1] == after
                &&& comes_to(ips, replies, error, out)
            },
    decreases ips.len(),
{
    let attempt = get_via_ip(get, host, path, headers);
    if ips.len() == 0 {
        let worlds = seq![before];
        let replies = Seq::<Result<HttpResponse, Error>>::empty();
        assert(calls(get, host, path, headers, ips, worlds, replies));
    } else {
        let rest = ips.skip(1);
        let (next, tried) = choose|next: W, tried: ResponseOutcome|
            #![trigger attempt(before, ips[0], next, tried)]
            attempt(before, ips[0], next, tried) && match tried {
                Ok(_) => after == next && out == tried,
                Err(e) => first_success(attempt, rest, e, next, after, out),
            };
        let (h, p, hs, r) = choose|
            h: &str,
            p: &str,
            hs: &[(String, String)],
            r: Result<HttpResponse, Error>,
        |
            h@ == host && p@ == path && pairs_text(hs@) == headers && #[trigger] call_ensures(
                get,
                (before, h, p, hs, ips[0]),
                (next, r),
            ) && tried == outcome(r);
        assert forall|k: int| 0 <= k < headers.len() implies (#[trigger] headers[k]) == (
            hs@[k].0@,
            hs@[k].1@,
        ) by {
            assert(pairs_text(hs@)[k] == (hs@[k].0@, hs@[k].1@));
        }
        assert(called(get, host, path, headers, ips[0], before, next, r));
        match r {
            Ok(_) => {
                let worlds = seq![before, next];
                let replies = seq![r];
                assert(calls(get, host, path, headers, ips, worlds, replies));
            },
            Err(e) => {
                law_get_is_performed(get, host, path, headers, rest, e@, next, after, out);
                let (ws, rs) = choose|ws: Seq<W>, rs: Seq<Result<HttpResponse, Error>>|
                    {
                        &&& #[trigger] calls(get, host, path, headers, rest, ws, rs)
                        &&& ws[0] == next
                        &&& ws[ws.len() - 1] == after
                        &&& comes_to(rest, rs, e@, out)
                    };
                let worlds = seq![before] + ws;
                let replies = seq![r] + rs;
                assert forall|i: int| 0 <= i < replies.len() implies called(
                    get,
                    host,
                    path,
                    headers,
                    ips[i],
                    #[trigger] worlds[i],
                    worlds[i + 1],
                    replies[i],
                ) by {
                    if i > 0 {
                        assert(worlds[i] == ws[i - 1]);
                        assert(worlds[i + 1] == ws[i]);
                        assert(replies[i] == rs[i - 1]);
                        assert(rest[i - 1] == ips[i]);
                    } else {
                        assert(worlds[1] == ws[0]);
                    }
                }
                assert(calls(get, host, path, headers, ips, worlds, replies));
                assert forall|i: int| 0 <= i < replies.len() - 1 implies (#[trigger] replies[i]) is Err
                    by {
                    if i > 0 {
                        assert(replies[i] == rs[i - 1]);
                    }
                }
                assert(worlds[worlds.len() - 1] == after);
                if rest.len() > 0 {
                    assert(replies[replies.len() - 1] == rs[rs.len() - 1]);
                } else {
                    assert(rs.len() == 0);
                    assert(replies[0] == r);
                }
                assert(comes_to(ips, replies, error, out));
            },
        }
    }
}

} // verus!
