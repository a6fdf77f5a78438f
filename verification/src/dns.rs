//! Name resolution over HTTPS, with a cache.

use vstd::hash_map::StringHashMap;
use vstd::prelude::*;
use vstd::string::*;

use crate::candidates::{
    calls, comes_to, first_success, get_via_ip, https_get_with_candidates, law_get_is_performed,
};
use crate::encoding::lossy_text;
use crate::error::{Error, ErrorView};
use crate::http::{
    fetched_body, law_only_success_has_a_body, pairs_text, successful_body, HttpResponse,
};
use crate::ip::{
    ipv4, law_only_addresses_are_read, law_text_reads_back, parse_ipv4, Ipv4Addr,
};
use crate::number::{decimal, decimal_text};
use crate::response_reader::{outcome, ResponseOutcome};
use crate::text::{
    chars_of, join2, join3, law_trim_end_char, string_of, trim_end_char, trim_end_char_chars,
};

verus! {

/// The least time, in seconds, for which an answer is kept.
pub const DNS_CACHE_TTL_FLOOR_SECS: u64 = 30;

/// The longest time, in seconds, for which an answer is kept.
pub const DNS_CACHE_TTL_CAP_SECS: u64 = 300;

/// The status of an answer without error.
pub const DNS_STATUS_NOERROR: u32 = 0;

/// The type of a record that holds an IPv4 address.
pub const DNS_RECORD_A: u32 = 1;

/// The type of a record that holds another name for the host.
pub const DNS_RECORD_CNAME: u32 = 5;

/// How many names are looked up, one leading to the next, before the lookup fails.
pub const DNS_MAX_CNAME_DEPTH: usize = 4;

/// How many ticks of the clock are a second.
pub const NANOS_PER_SEC: u64 = 1_000_000_000;

/// A record of an answer.
pub struct DnsAnswer {
    /// The type of the record.
    pub record_type: u32,
    /// How long the record may be kept, in seconds.
    pub ttl: Option<u32>,
    /// The content of the record.
    pub data: String,
}

/// The answer of the name server.
pub struct DnsJsonResponse {
    /// The status of the answer.
    pub status: u32,
    /// The records.
    pub answers: Vec<DnsAnswer>,
}

/// What a [`DnsAnswer`] holds.
pub struct DnsAnswerView {
    /// See [`DnsAnswer::record_type`].
    pub record_type: u32,
    /// See [`DnsAnswer::ttl`].
    pub ttl: Option<u32>,
    /// See [`DnsAnswer::data`].
    pub data: Seq<char>,
}

/// What a [`DnsJsonResponse`] holds.
pub struct DnsResponseView {
    /// See [`DnsJsonResponse::status`].
    pub status: u32,
    /// See [`DnsJsonResponse::answers`].
    pub answers: Seq<DnsAnswerView>,
}

impl View for DnsAnswer {
    type V = DnsAnswerView;

    open spec fn view(&self) -> DnsAnswerView {
        DnsAnswerView { record_type: self.record_type, ttl: self.ttl, data: self.data@ }
    }
}

/// What a list of records holds.
pub open spec fn answers_view(answers: Seq<DnsAnswer>) -> Seq<DnsAnswerView> {
    answers.map_values(|a: DnsAnswer| a@)
}

impl View for DnsJsonResponse {
    type V = DnsResponseView;

    open spec fn view(&self) -> DnsResponseView {
        DnsResponseView { status: self.status, answers: answers_view(self.answers@) }
    }
}

/// The addresses in the address records of `answers`, in order. A record that holds no address is
/// passed over.
pub open spec fn addresses(answers: Seq<DnsAnswerView>) -> Seq<Ipv4Addr>
    decreases answers.len(),
{
    if answers.len() == 0 {
        seq![]
    } else {
        let before = addresses(answers.drop_last());
        let last = answers.last();
        match ipv4(last.data) {
            Some(ip) => if last.record_type == DNS_RECORD_A {
                before.push(ip)
            } else {
                before
            },
            None => before,
        }
    }
}

/// `name` without the dots at its end.
pub open spec fn normalized(name: Seq<char>) -> Seq<char> {
    trim_end_char(name, '.')
}

/// The name in the first of `answers` that holds another name for the host.
pub open spec fn first_cname(answers: Seq<DnsAnswerView>) -> Option<Seq<char>>
    decreases answers.len(),
{
    if answers.len() == 0 {
        None
    } else {
        match first_cname(answers.drop_last()) {
            Some(name) => Some(name),
            None => if answers.last().record_type == DNS_RECORD_CNAME {
                Some(normalized(answers.last().data))
            } else {
                None
            },
        }
    }
}

/// The shortest time for which one of `answers` may be kept.
pub open spec fn least_ttl(answers: Seq<DnsAnswerView>) -> Option<u32>
    decreases answers.len(),
{
    if answers.len() == 0 {
        None
    } else {
        match (least_ttl(answers.drop_last()), answers.last().ttl) {
            (Some(x), Some(y)) => Some(
                if y < x {
                    y
                } else {
                    x
                },
            ),
            (Some(x), None) => Some(x),
            (None, ttl) => ttl,
        }
    }
}

/// How many seconds an answer with the records `answers` is kept.
pub open spec fn kept_secs(answers: Seq<DnsAnswerView>) -> u64 {
    match least_ttl(answers) {
        None => DNS_CACHE_TTL_FLOOR_SECS,
        Some(ttl) => if (ttl as u64) < DNS_CACHE_TTL_FLOOR_SECS {
            DNS_CACHE_TTL_FLOOR_SECS
        } else if DNS_CACHE_TTL_CAP_SECS < (ttl as u64) {
            DNS_CACHE_TTL_CAP_SECS
        } else {
            ttl as u64
        },
    }
}

/// `name` without the dots at its end.
pub fn normalize_dns_name(name: &str) -> (r: String)
    ensures
        r@ == normalized(name@),
{
    string_of(trim_end_char_chars(chars_of(name).as_slice(), '.'))
}

/// How many seconds an answer with the records `answers` is kept: the shortest time that one of
/// them gives, within the floor and the cap.
pub fn ttl_from_answers(answers: &[DnsAnswer]) -> (r: u64)
    ensures
        r == kept_secs(answers_view(answers@)),
{
    let mut least: Option<u32> = None;
    let ghost views = answers_view(answers@);
    for i in 0..answers.len()
        invariant
            views == answers_view(answers@),
            least == least_ttl(views.take(i as int)),
    {
        proof {
            assert(views.take(i + 1).drop_last() =~= views.take(i as int));
            assert(views.take(i + 1).last() == answers@[i as int]@);
        }
        least = match (least, answers[i].ttl) {
            (Some(x), Some(y)) => Some(
                if y < x {
                    y
                } else {
                    x
                },
            ),
            (Some(x), None) => Some(x),
            (None, ttl) => ttl,
        };
    }
    assert(views.take(answers@.len() as int) =~= views);
    match least {
        None => DNS_CACHE_TTL_FLOOR_SECS,
        Some(ttl) => if (ttl as u64) < DNS_CACHE_TTL_FLOOR_SECS {
            DNS_CACHE_TTL_FLOOR_SECS
        } else if DNS_CACHE_TTL_CAP_SECS < ttl as u64 {
            DNS_CACHE_TTL_CAP_SECS
        } else {
            ttl as u64
        },
    }
}

/// The addresses in `response`, the other name that it gives the host, and the number of seconds
/// for which it is kept.
pub fn parse_dns_answers(response: &DnsJsonResponse) -> (r: (Vec<Ipv4Addr>, Option<String>, u64))
    ensures
        r.0@ == addresses(response@.answers),
        match r.1 {
            Some(name) => first_cname(response@.answers) == Some(name@),
            None => first_cname(response@.answers) is None,
        },
        r.2 == kept_secs(response@.answers),
{
    let mut addrs: Vec<Ipv4Addr> = Vec::new();
    let mut cname: Option<String> = None;
    let ghost views = response@.answers;
    let answers = response.answers.as_slice();
    for i in 0..answers.len()
        invariant
            answers@ == response.answers@,
            views == answers_view(answers@),
            addrs@ == addresses(views.take(i as int)),
            match cname {
                Some(name) => first_cname(views.take(i as int)) == Some(name@),
                None => first_cname(views.take(i as int)) is None,
            },
    {
        proof {
            assert(views.take(i + 1).drop_last() =~= views.take(i as int));
            assert(views.take(i + 1).last() == answers@[i as int]@);
        }
        if answers[i].record_type == DNS_RECORD_A {
            let chars = chars_of(answers[i].data.as_str());
            if let Some(ip) = parse_ipv4(chars.as_slice()) {
                addrs.push(ip);
            }
        } else if answers[i].record_type == DNS_RECORD_CNAME && cname.is_none() {
            cname = Some(normalize_dns_name(answers[i].data.as_str()));
        }
    }
    assert(views.take(answers@.len() as int) =~= views);
    let ttl = ttl_from_answers(answers);
    (addrs, cname, ttl)
}

/// Where a lookup stands after an answer.
pub enum LookupStep {
    /// The addresses were found, and may be kept for so many seconds.
    Found(Vec<Ipv4Addr>, u64),
    /// The host has another name, which is to be looked up.
    Follow(String),
    /// The lookup failed.
    Failed(Error),
}

/// Where a lookup stands after an answer, as its view.
pub enum LookupStepView {
    /// See [`LookupStep::Found`].
    Found(Seq<Ipv4Addr>, u64),
    /// See [`LookupStep::Follow`].
    Follow(Seq<char>),
    /// See [`LookupStep::Failed`].
    Failed(ErrorView),
}

impl View for LookupStep {
    type V = LookupStepView;

    open spec fn view(&self) -> LookupStepView {
        match *self {
            LookupStep::Found(addrs, ttl) => LookupStepView::Found(addrs@, ttl),
            LookupStep::Follow(name) => LookupStepView::Follow(name@),
            LookupStep::Failed(error) => LookupStepView::Failed(error@),
        }
    }
}

/// A decoded answer, or the words in which decoding failed.
pub type DecodedView = Result<DnsResponseView, Seq<char>>;

/// A decoding result as its view.
pub open spec fn decoded_view(r: Result<DnsJsonResponse, String>) -> DecodedView {
    match r {
        Ok(response) => Ok(response@),
        Err(message) => Err(message@),
    }
}

/// Where the lookup of `host` stands after the answer `answer`.
pub open spec fn lookup_step(host: Seq<char>, answer: DecodedView) -> LookupStepView {
    match answer {
        Err(message) => LookupStepView::Failed(
            ErrorView::Dns("failed to decode DNS response for '"@ + host + "': "@ + message),
        ),
        Ok(response) => if response.status != DNS_STATUS_NOERROR {
            LookupStepView::Failed(
                ErrorView::Dns(
                    "DNS resolver returned status "@ + decimal(response.status as nat) + " for '"@
                        + host + "'"@,
                ),
            )
        } else if addresses(response.answers).len() > 0 {
            LookupStepView::Found(addresses(response.answers), kept_secs(response.answers))
        } else {
            match first_cname(response.answers) {
                Some(name) => LookupStepView::Follow(name),
                None => LookupStepView::Failed(
                    ErrorView::Dns(
                        "DNS lookup for '"@ + host + "' returned no IPv4 addresses"@,
                    ),
                ),
            }
        },
    }
}

/// Where the lookup of `host` stands after the answer `answer`.
pub fn next_lookup_step(host: &str, answer: Result<DnsJsonResponse, String>) -> (r: LookupStep)
    ensures
        r@ == lookup_step(host@, decoded_view(answer)),
{
    let response = match answer {
        Err(message) => {
            let head = join3("failed to decode DNS response for '", host, "': ");
            return LookupStep::Failed(Error::Dns(join2(head.as_str(), message.as_str())));
        },
        Ok(response) => response,
    };
    if response.status != DNS_STATUS_NOERROR {
        let head = join3(
            "DNS resolver returned status ",
            decimal_text(response.status as u64).as_str(),
            " for '",
        );
        return LookupStep::Failed(Error::Dns(join3(head.as_str(), host, "'")));
    }
    let (addrs, cname, ttl) = parse_dns_answers(&response);
    if addrs.len() > 0 {
        return LookupStep::Found(addrs, ttl);
    }
    match cname {
        Some(name) => LookupStep::Follow(name),
        None => LookupStep::Failed(
            Error::Dns(join3("DNS lookup for '", host, "' returned no IPv4 addresses")),
        ),
    }
}

/// The name of the name server.
pub open spec fn doh_host() -> Seq<char> {
    "dns.google"@
}

/// The addresses of the name server.
pub open spec fn doh_ips() -> Seq<Ipv4Addr> {
    seq![Ipv4Addr { a: 8, b: 8, c: 8, d: 8 }, Ipv4Addr { a: 8, b: 8, c: 4, d: 4 }]
}

/// The path of the question for the addresses of `host`.
pub open spec fn doh_path(host: Seq<char>) -> Seq<char> {
    "/resolve?name="@ + host + "&type=A"@
}

/// The headers of a question.
pub open spec fn doh_headers() -> Seq<(Seq<char>, Seq<char>)> {
    seq![("Accept"@, "application/json"@)]
}

/// What came of a lookup: the addresses and the seconds for which they may be kept.
pub type Lookup = Result<(Seq<Ipv4Addr>, u64), ErrorView>;

/// A lookup result as its view.
pub open spec fn lookup_view(r: Result<(Vec<Ipv4Addr>, u64), Error>) -> Lookup {
    match r {
        Ok((addrs, ttl)) => Ok((addrs@, ttl)),
        Err(error) => Err(error@),
    }
}

/// What `parse` can make of the body `body`.
pub open spec fn decodes<P: Fn(Vec<u8>) -> Result<DnsJsonResponse, String>>(
    parse: P,
    body: Seq<u8>,
    answer: DecodedView,
) -> bool {
    exists|b: Vec<u8>, r: Result<DnsJsonResponse, String>|
        b@ == body && #[trigger] call_ensures(parse, (b,), r) && answer == decoded_view(r)
}

/// Whether the question for `host` can be answered with `reply`, and turn the world `before` into
/// `after`.
pub open spec fn asked<
    W,
    G: Fn(W, &str, &str, &[(String, String)], Ipv4Addr) -> (W, Result<HttpResponse, Error>),
>(get: G, host: Seq<char>, before: W, after: W, reply: ResponseOutcome) -> bool {
    first_success(
        get_via_ip(get, doh_host(), doh_path(host), doh_headers()),
        doh_ips(),
        ErrorView::Dns("no IPv4 addresses available for '"@ + doh_host() + "'"@),
        before,
        after,
        reply,
    )
}

/// Whether the question for `host` can lead to the step `step`, and turn the world `before` into
/// `after`.
pub open spec fn stepped<
    W,
    G: Fn(W, &str, &str, &[(String, String)], Ipv4Addr) -> (W, Result<HttpResponse, Error>),
    P: Fn(Vec<u8>) -> Result<DnsJsonResponse, String>,
>(get: G, parse: P, host: Seq<char>, before: W, after: W, step: LookupStepView) -> bool {
    exists|reply: ResponseOutcome|
        #[trigger] asked(get, host, before, after, reply) && match fetched_body(reply) {
            Err(error) => step == LookupStepView::Failed(error),
            Ok(body) => exists|answer: DecodedView|
                #[trigger] decodes(parse, body, answer) && step == lookup_step(host, answer),
        }
}

/// Whether the lookup of `host`, to which `depth` other names have led, can come to `out`, and turn
/// the world `before` into `after`. At the limit nothing is done.
pub open spec fn looked_up<
    W,
    G: Fn(W, &str, &str, &[(String, String)], Ipv4Addr) -> (W, Result<HttpResponse, Error>),
    P: Fn(Vec<u8>) -> Result<DnsJsonResponse, String>,
>(get: G, parse: P, host: Seq<char>, depth: nat, before: W, after: W, out: Lookup) -> bool
    decreases DNS_MAX_CNAME_DEPTH - depth,
{
    if depth >= DNS_MAX_CNAME_DEPTH {
        after == before && out == Err::<(Seq<Ipv4Addr>, u64), ErrorView>(
            ErrorView::Dns("DNS lookup for '"@ + host + "' exceeded CNAME depth limit"@),
        )
    } else {
        exists|step: LookupStepView, next: W|
            #[trigger] stepped(get, parse, host, before, next, step) && match step {
                LookupStepView::Found(addrs, ttl) => after == next && out == Ok::<
                    (Seq<Ipv4Addr>, u64),
                    ErrorView,
                >((addrs, ttl)),
                LookupStepView::Failed(error) => after == next && out == Err::<
                    (Seq<Ipv4Addr>, u64),
                    ErrorView,
                >(error),
                LookupStepView::Follow(name) => looked_up(
                    get,
                    parse,
                    name,
                    depth + 1,
                    next,
                    after,
                    out,
                ),
            }
    }
}

/// An answer that is kept.
pub struct CachedResolution {
    /// The addresses.
    pub addrs: Vec<Ipv4Addr>,
    /// The time from which on it is no longer used.
    pub expires_at: u64,
}

/// The answers that are kept: for each name the addresses and the time of expiry.
pub type CacheView = Map<Seq<char>, (Seq<Ipv4Addr>, u64)>;

/// A resolver that keeps the answers that it got.
pub struct DnsResolver {
    cache: StringHashMap<CachedResolution>,
}

impl View for DnsResolver {
    type V = CacheView;

    closed spec fn view(&self) -> CacheView {
        self.cache@.map_values(|e: CachedResolution| (e.addrs@, e.expires_at))
    }
}

/// The addresses that are kept for `host` at the time `now`.
pub open spec fn fresh(cache: CacheView, host: Seq<char>, now: u64) -> Option<Seq<Ipv4Addr>> {
    if cache.contains_key(host) && cache[host].1 > now {
        Some(cache[host].0)
    } else {
        None
    }
}

/// When an answer that came at the time `now` and is kept for `ttl` seconds expires: at once where the
/// clock does not reach that far.
pub open spec fn expiry(now: u64, ttl: u64) -> u64 {
    if now + ttl * NANOS_PER_SEC <= u64::MAX {
        (now + ttl * NANOS_PER_SEC) as u64
    } else {
        now
    }
}

/// What came of a resolution: the addresses.
pub type Resolution = Result<Seq<Ipv4Addr>, ErrorView>;

/// A resolution as its view.
pub open spec fn resolution_view(r: Result<Vec<Ipv4Addr>, Error>) -> Resolution {
    match r {
        Ok(addrs) => Ok(addrs@),
        Err(error) => Err(error@),
    }
}

/// The cache and the result after a lookup that came to `found` at the time `now`.
pub open spec fn after_lookup(cache: CacheView, host: Seq<char>, found: Lookup, now: u64) -> (
    CacheView,
    Resolution,
) {
    match found {
        Ok((addrs, ttl)) => (cache.insert(host, (addrs, expiry(now, ttl))), Ok(addrs)),
        Err(error) => (cache.remove(host), Err(error)),
    }
}

/// Whether what a lookup of `host` came to can give `out` and leave the answers `left`, and turn the
/// world `before` into `after`. The clock is read once more, and only where there is something to
/// keep.
pub open spec fn kept<W, C: Fn(W) -> (W, u64)>(
    clock: C,
    cache: CacheView,
    host: Seq<char>,
    found: Lookup,
    before: W,
    left: CacheView,
    after: W,
    out: Resolution,
) -> bool {
    match found {
        Err(_) => after == before && (left, out) == after_lookup(cache, host, found, 0),
        Ok(_) => exists|now: u64|
            #[trigger] call_ensures(clock, (before,), (after, now)) && (left, out) == after_lookup(
                cache,
                host,
                found,
                now,
            ),
    }
}

/// Whether the resolution of `host` that began at the time `now` can come to `out` and leave the
/// answers `left`, and turn the world `before` into `after`. Where an answer is kept for the host,
/// nothing is done.
pub open spec fn resolved_at<
    W,
    C: Fn(W) -> (W, u64),
    G: Fn(W, &str, &str, &[(String, String)], Ipv4Addr) -> (W, Result<HttpResponse, Error>),
    P: Fn(Vec<u8>) -> Result<DnsJsonResponse, String>,
>(
    clock: C,
    get: G,
    parse: P,
    cache: CacheView,
    host: Seq<char>,
    now: u64,
    before: W,
    left: CacheView,
    after: W,
    out: Resolution,
) -> bool {
    match fresh(cache, host, now) {
        Some(addrs) => left == cache && after == before && out == Ok::<Seq<Ipv4Addr>, ErrorView>(
            addrs,
        ),
        None => exists|found: Lookup, next: W|
            #[trigger] looked_up(get, parse, host, 0, before, next, found) && kept(
                clock,
                cache,
                host,
                found,
                next,
                left,
                after,
                out,
            ),
    }
}

/// Whether the resolution of `host` with the kept answers `cache` can come to `out` and leave the
/// answers `left`, and turn the world `before` into `after`.
pub open spec fn resolved<
    W,
    C: Fn(W) -> (W, u64),
    G: Fn(W, &str, &str, &[(String, String)], Ipv4Addr) -> (W, Result<HttpResponse, Error>),
    P: Fn(Vec<u8>) -> Result<DnsJsonResponse, String>,
>(
    clock: C,
    get: G,
    parse: P,
    cache: CacheView,
    host: Seq<char>,
    before: W,
    left: CacheView,
    after: W,
    out: Resolution,
) -> bool {
    exists|now: u64, next: W|
        #[trigger] call_ensures(clock, (before,), (next, now)) && resolved_at(
            clock,
            get,
            parse,
            cache,
            host,
            now,
            next,
            left,
            after,
            out,
        )
}

impl DnsResolver {
    /// A resolver that has kept nothing.
    pub fn new() -> (r: DnsResolver)
        ensures
            r@ == CacheView::empty(),
    {
        let r = DnsResolver { cache: StringHashMap::new() };
        assert(r@ =~= CacheView::empty());
        r
    }

    /// Looks up the addresses of `host`, to which `depth` other names have led.
    fn resolve_host_v4<
        W,
        G: Fn(W, &str, &str, &[(String, String)], Ipv4Addr) -> (W, Result<HttpResponse, Error>),
        P: Fn(Vec<u8>) -> Result<DnsJsonResponse, String>,
    >(world: W, host: &str, depth: usize, get: &G, parse: &P) -> (r: (
        W,
        Result<(Vec<Ipv4Addr>, u64), Error>,
    ))
        requires
            forall|w: W, h: &str, p: &str, hs: &[(String, String)], ip: Ipv4Addr|
                call_requires(*get, (w, h, p, hs, ip)),
            forall|b: Vec<u8>| call_requires(*parse, (b,)),
        ensures
            looked_up(*get, *parse, host@, depth as nat, world, r.0, lookup_view(r.1)),
        decreases DNS_MAX_CNAME_DEPTH - depth,
    {
        if depth >= DNS_MAX_CNAME_DEPTH {
            return (
                world,
                Err(Error::Dns(join3("DNS lookup for '", host, "' exceeded CNAME depth limit"))),
            );
        }
        let (next, step) = Self::ask(world, host, get, parse);
        match step {
            LookupStep::Found(addrs, ttl) => (next, Ok((addrs, ttl))),
            LookupStep::Failed(error) => (next, Err(error)),
            LookupStep::Follow(name) => Self::resolve_host_v4(
                next,
                name.as_str(),
                depth + 1,
                get,
                parse,
            ),
        }
    }

    /// Asks the name server for the addresses of `host`.
    fn ask<
        W,
        G: Fn(W, &str, &str, &[(String, String)], Ipv4Addr) -> (W, Result<HttpResponse, Error>),
        P: Fn(Vec<u8>) -> Result<DnsJsonResponse, String>,
    >(world: W, host: &str, get: &G, parse: &P) -> (r: (W, LookupStep))
        requires
            forall|w: W, h: &str, p: &str, hs: &[(String, String)], ip: Ipv4Addr|
                call_requires(*get, (w, h, p, hs, ip)),
            forall|b: Vec<u8>| call_requires(*parse, (b,)),
        ensures
            stepped(*get, *parse, host@, world, r.0, r.1@),
    {
        let path = join3("/resolve?name=", host, "&type=A");
        let mut headers: Vec<(String, String)> = Vec::new();
        headers.push(("Accept".to_owned(), "application/json".to_owned()));
        let ips: [Ipv4Addr; 2] = [Ipv4Addr::new(8, 8, 8, 8), Ipv4Addr::new(8, 8, 4, 4)];
        proof {
            assert(pairs_text(headers@) =~= doh_headers());
            assert(ips@ =~= doh_ips());
        }
        let (next, reply) = https_get_with_candidates(
            world,
            "dns.google",
            path.as_str(),
            headers.as_slice(),
            &ips,
            get,
        );
        let ghost seen = outcome(reply);
        assert(asked(*get, host@, world, next, seen));
        let response = match reply {
            Err(error) => {
                return (next, LookupStep::Failed(error));
            },
            Ok(response) => response,
        };
        let body = match successful_body(response) {
            Err(error) => {
                return (next, LookupStep::Failed(error));
            },
            Ok(body) => body,
        };
        let answer = parse(body);
        assert(decodes(*parse, fetched_body(seen)->Ok_0, decoded_view(answer)));
        (next, next_lookup_step(host, answer))
    }

    /// Keeps what a lookup of `host` came to at the time `now`, and gives the addresses. They expire
    /// when their time to live has passed since then.
    ///
    /// # Errors
    ///
    /// Returns the error of the lookup if it failed. Nothing is kept for `host` then.
    pub fn keep(
        &mut self,
        host: &str,
        found: Result<(Vec<Ipv4Addr>, u64), Error>,
        now: u64,
    ) -> (r: Result<Vec<Ipv4Addr>, Error>)
        ensures
            (final(self)@, resolution_view(r)) == after_lookup(
                old(self)@,
                host@,
                lookup_view(found),
                now,
            ),
    {
        let ghost before = self@;
        match found {
            Err(error) => {
                self.cache.remove(host);
                assert(self@ =~= before.remove(host@));
                Err(error)
            },
            Ok((addrs, ttl)) => {
                let expires_at: u64 = if ttl <= (u64::MAX - now) / NANOS_PER_SEC {
                    now + ttl * NANOS_PER_SEC
                } else {
                    now
                };
                let kept = addrs.clone();
                assert(kept@ =~= addrs@);
                self.cache.insert(host.to_owned(), CachedResolution { addrs: kept, expires_at });
                assert(self@ =~= before.insert(host@, (addrs@, expires_at)));
                Ok(addrs)
            },
        }
    }

    /// The addresses of `host`: those that are kept for it, while they are, else those that a
    /// lookup finds, which are then kept.
    ///
    /// `clock` tells the time in nanoseconds, `get` performs an HTTPS `GET` at an address, and
    /// `parse` decodes the answer of the name server. The clock is read at the start, and again after
    /// a lookup that found something: the time to live counts from there.
    ///
    /// # Errors
    ///
    /// Returns [`Error`] if the lookup fails. Nothing is kept for `host` then.
    pub fn resolve<
        W,
        C: Fn(W) -> (W, u64),
        G: Fn(W, &str, &str, &[(String, String)], Ipv4Addr) -> (W, Result<HttpResponse, Error>),
        P: Fn(Vec<u8>) -> Result<DnsJsonResponse, String>,
    >(&mut self, world: W, host: &str, clock: &C, get: &G, parse: &P) -> (r: (
        W,
        Result<Vec<Ipv4Addr>, Error>,
    ))
        requires
            forall|w: W| call_requires(*clock, (w,)),
            forall|w: W, h: &str, p: &str, hs: &[(String, String)], ip: Ipv4Addr|
                call_requires(*get, (w, h, p, hs, ip)),
            forall|b: Vec<u8>| call_requires(*parse, (b,)),
        ensures
            resolved(
                *clock,
                *get,
                *parse,
                old(self)@,
                host@,
                world,
                final(self)@,
                r.0,
                resolution_view(r.1),
            ),
    {
        let ghost cache = self@;
        let (begun, now) = clock(world);
        if let Some(entry) = self.cache.get(host) {
            if entry.expires_at > now {
                let addrs = entry.addrs.clone();
                assert(addrs@ =~= entry.addrs@);
                assert(fresh(cache, host@, now) == Some(addrs@));
                return (begun, Ok(addrs));
            }
        }
        assert(fresh(cache, host@, now) is None);
        let ghost start = begun;
        let (next, found) = Self::resolve_host_v4(begun, host, 0, get, parse);
        let ghost seen = lookup_view(found);
        assert(looked_up(*get, *parse, host@, 0, start, next, seen));
        match found {
            Err(error) => (next, self.keep(host, Err(error), 0)),
            Ok(found) => {
                let (after, answered_at) = clock(next);
                (after, self.keep(host, Ok(found), answered_at))
            },
        }
    }
}

/// An answer is kept for no less than the floor and no more than the cap.
pub proof fn law_kept_secs_bounds(answers: Seq<DnsAnswerView>)
    ensures
        DNS_CACHE_TTL_FLOOR_SECS <= kept_secs(answers) <= DNS_CACHE_TTL_CAP_SECS,
{
}

/// No record asks to be kept for a shorter time than the least.
pub proof fn law_least_ttl(answers: Seq<DnsAnswerView>, i: int)
    requires
        0 <= i < answers.len(),
    ensures
        answers[i].ttl matches Some(ttl) ==> least_ttl(answers) matches Some(least) && least <= ttl,
    decreases answers.len(),
{
    if i < answers.len() - 1 {
        law_least_ttl(answers.drop_last(), i);
    }
}

/// The least time for which a record may be kept is the time of some record.
pub proof fn law_least_ttl_is_given(answers: Seq<DnsAnswerView>)
    ensures
        least_ttl(answers) is Some ==> exists|i: int|
            0 <= i < answers.len() && (#[trigger] answers[i]).ttl == least_ttl(answers),
    decreases answers.len(),
{
    if answers.len() > 0 && least_ttl(answers) is Some {
        let before = answers.drop_last();
        let last = answers.len() - 1;
        law_least_ttl_is_given(before);
        if answers[last].ttl != least_ttl(answers) {
            let i = choose|i: int|
                0 <= i < before.len() && (#[trigger] before[i]).ttl == least_ttl(before);
            assert(answers[i].ttl == least_ttl(answers));
        }
    }
}

/// A lookup that succeeds finds an address, to be kept within the floor and the cap.
pub proof fn law_lookup_finds_addresses<
    W,
    G: Fn(W, &str, &str, &[(String, String)], Ipv4Addr) -> (W, Result<HttpResponse, Error>),
    P: Fn(Vec<u8>) -> Result<DnsJsonResponse, String>,
>(get: G, parse: P, host: Seq<char>, depth: nat, before: W, after: W, out: Lookup)
    requires
        looked_up(get, parse, host, depth, before, after, out),
    ensures
        out matches Ok((addrs, ttl)) ==> addrs.len() > 0 && DNS_CACHE_TTL_FLOOR_SECS <= ttl
            <= DNS_CACHE_TTL_CAP_SECS,
    decreases DNS_MAX_CNAME_DEPTH - depth,
{
    if depth < DNS_MAX_CNAME_DEPTH {
        let (step, next) = choose|step: LookupStepView, next: W|
            #[trigger] stepped(get, parse, host, before, next, step) && match step {
                LookupStepView::Found(addrs, ttl) => after == next && out == Ok::<
                    (Seq<Ipv4Addr>, u64),
                    ErrorView,
                >((addrs, ttl)),
                LookupStepView::Failed(error) => after == next && out == Err::<
                    (Seq<Ipv4Addr>, u64),
                    ErrorView,
                >(error),
                LookupStepView::Follow(name) => looked_up(
                    get,
                    parse,
                    name,
                    depth + 1,
                    next,
                    after,
                    out,
                ),
            };
        if let LookupStepView::Follow(name) = step {
            law_lookup_finds_addresses(get, parse, name, depth + 1, next, after, out);
        }
    }
}

/// A lookup in which every name leads to another one fails: it follows no more of them than the limit
/// allows.
pub proof fn law_endless_names_fail<
    W,
    G: Fn(W, &str, &str, &[(String, String)], Ipv4Addr) -> (W, Result<HttpResponse, Error>),
    P: Fn(Vec<u8>) -> Result<DnsJsonResponse, String>,
>(get: G, parse: P, host: Seq<char>, depth: nat, before: W, after: W, out: Lookup)
    requires
        looked_up(get, parse, host, depth, before, after, out),
        forall|name: Seq<char>, w: W, v: W, step: LookupStepView| #[trigger]
            stepped(get, parse, name, w, v, step) ==> step is Follow,
    ensures
        out matches Err(ErrorView::Dns(_)),
    decreases DNS_MAX_CNAME_DEPTH - depth,
{
    if depth < DNS_MAX_CNAME_DEPTH {
        let (step, next) = choose|step: LookupStepView, next: W|
            #[trigger] stepped(get, parse, host, before, next, step) && match step {
                LookupStepView::Found(addrs, ttl) => after == next && out == Ok::<
                    (Seq<Ipv4Addr>, u64),
                    ErrorView,
                >((addrs, ttl)),
                LookupStepView::Failed(error) => after == next && out == Err::<
                    (Seq<Ipv4Addr>, u64),
                    ErrorView,
                >(error),
                LookupStepView::Follow(name) => looked_up(
                    get,
                    parse,
                    name,
                    depth + 1,
                    next,
                    after,
                    out,
                ),
            };
        if let LookupStepView::Follow(name) = step {
            law_endless_names_fail(get, parse, name, depth + 1, next, after, out);
        }
    }
}

/// Whether `clock` can only give times before `t` in the world `w`.
pub open spec fn reads_before<W, C: Fn(W) -> (W, u64)>(clock: C, w: W, t: int) -> bool {
    forall|v: W, now: u64| #[trigger] call_ensures(clock, (w,), (v, now)) ==> now < t
}

/// Whether `clock` can only give times from `t` on in the world `w`.
pub open spec fn reads_from<W, C: Fn(W) -> (W, u64)>(clock: C, w: W, t: int) -> bool {
    forall|v: W, now: u64| #[trigger] call_ensures(clock, (w,), (v, now)) ==> t <= now
}

/// Whether nothing is done from the world `before` to the world `after` but to read the clock.
pub open spec fn only_read<W, C: Fn(W) -> (W, u64)>(clock: C, before: W, after: W) -> bool {
    exists|now: u64| #[trigger] call_ensures(clock, (before,), (after, now))
}

/// While an answer is kept, it is what a resolution gives, what is kept stays as it is, and nothing is
/// done but to read the clock: no name server is asked.
pub proof fn law_kept_answer_is_used<
    W,
    C: Fn(W) -> (W, u64),
    G: Fn(W, &str, &str, &[(String, String)], Ipv4Addr) -> (W, Result<HttpResponse, Error>),
    P: Fn(Vec<u8>) -> Result<DnsJsonResponse, String>,
>(
    clock: C,
    get: G,
    parse: P,
    cache: CacheView,
    host: Seq<char>,
    addrs: Seq<Ipv4Addr>,
    before: W,
    left: CacheView,
    after: W,
    out: Resolution,
)
    requires
        resolved(clock, get, parse, cache, host, before, left, after, out),
        cache.contains_key(host),
        cache[host].0 == addrs,
        reads_before(clock, before, cache[host].1 as int),
    ensures
        out == Ok::<Seq<Ipv4Addr>, ErrorView>(addrs),
        left == cache,
        only_read(clock, before, after),
{
}

/// What a lookup found is used until it expires, and not longer.
pub proof fn law_answer_is_kept(
    cache: CacheView,
    host: Seq<char>,
    addrs: Seq<Ipv4Addr>,
    ttl: u64,
    found_at: u64,
    now: u64,
)
    requires
        found_at + ttl * NANOS_PER_SEC <= u64::MAX,
    ensures
        fresh(after_lookup(cache, host, Ok((addrs, ttl)), found_at).0, host, now) == (if now
            < found_at + ttl * NANOS_PER_SEC {
            Some(addrs)
        } else {
            None
        }),
{
}

/// Whether a resolution that came to `out` and left the answers `left` looked the host up. Where the
/// lookup fails, its error is the result, nothing is kept for the host, and what is kept for others
/// stays.
pub open spec fn looked_up_anew<
    W,
    C: Fn(W) -> (W, u64),
    G: Fn(W, &str, &str, &[(String, String)], Ipv4Addr) -> (W, Result<HttpResponse, Error>),
    P: Fn(Vec<u8>) -> Result<DnsJsonResponse, String>,
>(
    clock: C,
    get: G,
    parse: P,
    cache: CacheView,
    host: Seq<char>,
    before: W,
    left: CacheView,
    after: W,
    out: Resolution,
) -> bool {
    exists|now: u64, begun: W, found: Lookup, next: W|
        #[trigger] call_ensures(clock, (before,), (begun, now)) && #[trigger] looked_up(
            get,
            parse,
            host,
            0,
            begun,
            next,
            found,
        ) && kept(clock, cache, host, found, next, left, after, out) && (found matches Err(error)
            ==> out == Err::<Seq<Ipv4Addr>, ErrorView>(error) && left == cache.remove(host))
}

/// Where nothing is kept for a host any more, its resolution looks it up.
pub proof fn law_unknown_host_is_looked_up<
    W,
    C: Fn(W) -> (W, u64),
    G: Fn(W, &str, &str, &[(String, String)], Ipv4Addr) -> (W, Result<HttpResponse, Error>),
    P: Fn(Vec<u8>) -> Result<DnsJsonResponse, String>,
>(
    clock: C,
    get: G,
    parse: P,
    cache: CacheView,
    host: Seq<char>,
    before: W,
    left: CacheView,
    after: W,
    out: Resolution,
)
    requires
        resolved(clock, get, parse, cache, host, before, left, after, out),
        cache.contains_key(host) ==> reads_from(clock, before, cache[host].1 as int),
    ensures
        looked_up_anew(clock, get, parse, cache, host, before, left, after, out),
{
    let (now, begun) = choose|now: u64, begun: W|
        #[trigger] call_ensures(clock, (before,), (begun, now)) && resolved_at(
            clock,
            get,
            parse,
            cache,
            host,
            now,
            begun,
            left,
            after,
            out,
        );
    assert(fresh(cache, host, now) is None);
    let (found, next) = choose|found: Lookup, next: W|
        #[trigger] looked_up(get, parse, host, 0, begun, next, found) && kept(
            clock,
            cache,
            host,
            found,
            next,
            left,
            after,
            out,
        );
    assert(call_ensures(clock, (before,), (begun, now)));
    assert(looked_up(get, parse, host, 0, begun, next, found));
}

/// Whether a resolution can have looked up the addresses `addrs` with the time to live `ttl`, and read
/// the time `answered_at` after that.
pub open spec fn answered<
    W,
    C: Fn(W) -> (W, u64),
    G: Fn(W, &str, &str, &[(String, String)], Ipv4Addr) -> (W, Result<HttpResponse, Error>),
    P: Fn(Vec<u8>) -> Result<DnsJsonResponse, String>,
>(
    clock: C,
    get: G,
    parse: P,
    host: Seq<char>,
    before: W,
    after: W,
    addrs: Seq<Ipv4Addr>,
    ttl: u64,
    answered_at: u64,
) -> bool {
    exists|now: u64, begun: W, next: W|
        #[trigger] call_ensures(clock, (before,), (begun, now)) && #[trigger] looked_up(
            get,
            parse,
            host,
            0,
            begun,
            next,
            Ok((addrs, ttl)),
        ) && call_ensures(clock, (next,), (after, answered_at))
}

/// Addresses that a resolution looked up have a time to live, within the floor and the cap. Until it
/// has passed since the answer came, a resolution of the host gives these addresses, nothing that is
/// kept changes, and no name server is asked. From then on the host is looked up again. What was done
/// for other hosts in between makes no difference.
pub proof fn law_resolution_is_repeated<
    W,
    C: Fn(W) -> (W, u64),
    G: Fn(W, &str, &str, &[(String, String)], Ipv4Addr) -> (W, Result<HttpResponse, Error>),
    P: Fn(Vec<u8>) -> Result<DnsJsonResponse, String>,
    C2: Fn(W) -> (W, u64),
    G2: Fn(W, &str, &str, &[(String, String)], Ipv4Addr) -> (W, Result<HttpResponse, Error>),
    P2: Fn(Vec<u8>) -> Result<DnsJsonResponse, String>,
>(
    clock: C,
    get: G,
    parse: P,
    later_clock: C2,
    later_get: G2,
    later_parse: P2,
    cache: CacheView,
    host: Seq<char>,
    addrs: Seq<Ipv4Addr>,
    before: W,
    left: CacheView,
    after: W,
    later: CacheView,
    later_before: W,
    later_left: CacheView,
    later_after: W,
    out: Resolution,
)
    requires
        resolved(clock, get, parse, cache, host, before, left, after, Ok(addrs)),
        cache.contains_key(host) ==> reads_from(clock, before, cache[host].1 as int),
        forall|w: W, v: W, t: u64| #[trigger]
            call_ensures(clock, (w,), (v, t)) ==> t + DNS_CACHE_TTL_CAP_SECS * NANOS_PER_SEC
                <= u64::MAX,
        later.contains_key(host),
        later[host] == left[host],
        resolved(
            later_clock,
            later_get,
            later_parse,
            later,
            host,
            later_before,
            later_left,
            later_after,
            out,
        ),
    ensures
        exists|ttl: u64, answered_at: u64|
            {
                &&& #[trigger] answered(
                    clock,
                    get,
                    parse,
                    host,
                    before,
                    after,
                    addrs,
                    ttl,
                    answered_at,
                )
                &&& DNS_CACHE_TTL_FLOOR_SECS <= ttl <= DNS_CACHE_TTL_CAP_SECS
                &&& reads_before(later_clock, later_before, answered_at + ttl * NANOS_PER_SEC) ==> {
                    &&& out == Ok::<Seq<Ipv4Addr>, ErrorView>(addrs)
                    &&& later_left == later
                    &&& only_read(later_clock, later_before, later_after)
                }
                &&& reads_from(later_clock, later_before, answered_at + ttl * NANOS_PER_SEC)
                    ==> looked_up_anew(
                    later_clock,
                    later_get,
                    later_parse,
                    later,
                    host,
                    later_before,
                    later_left,
                    later_after,
                    out,
                )
            },
{
    law_unknown_host_is_looked_up(clock, get, parse, cache, host, before, left, after, Ok(addrs));
    let (now, begun, found, next) = choose|now: u64, begun: W, found: Lookup, next: W|
        #[trigger] call_ensures(clock, (before,), (begun, now)) && #[trigger] looked_up(
            get,
            parse,
            host,
            0,
            begun,
            next,
            found,
        ) && kept(clock, cache, host, found, next, left, after, Ok(addrs)) && (
        found matches Err(error) ==> Ok::<Seq<Ipv4Addr>, ErrorView>(addrs) == Err::<
            Seq<Ipv4Addr>,
            ErrorView,
        >(error) && left == cache.remove(host));
    law_lookup_finds_addresses(get, parse, host, 0, begun, next, found);
    let ttl = found->Ok_0.1;
    assert(found == Ok::<(Seq<Ipv4Addr>, u64), ErrorView>((addrs, ttl)));
    let answered_at = choose|t: u64|
        #[trigger] call_ensures(clock, (next,), (after, t)) && (
            left,
            Ok::<Seq<Ipv4Addr>, ErrorView>(addrs),
        ) == after_lookup(cache, host, found, t);
    assert(looked_up(get, parse, host, 0, begun, next, Ok((addrs, ttl))));
    assert(answered(clock, get, parse, host, before, after, addrs, ttl, answered_at));
    assert(later[host] == (addrs, (answered_at + ttl * NANOS_PER_SEC) as u64));
    if reads_before(later_clock, later_before, answered_at + ttl * NANOS_PER_SEC) {
        law_kept_answer_is_used(
            later_clock,
            later_get,
            later_parse,
            later,
            host,
            addrs,
            later_before,
            later_left,
            later_after,
            out,
        );
    }
    if reads_from(later_clock, later_before, answered_at + ttl * NANOS_PER_SEC) {
        law_unknown_host_is_looked_up(
            later_clock,
            later_get,
            later_parse,
            later,
            host,
            later_before,
            later_left,
            later_after,
            out,
        );
    }
}

/// After a lookup that failed nothing is kept for the host.
pub proof fn law_failure_keeps_nothing(
    cache: CacheView,
    host: Seq<char>,
    error: ErrorView,
    found_at: u64,
    now: u64,
)
    ensures
        fresh(after_lookup(cache, host, Err(error), found_at).0, host, now) is None,
{
}

/// The resolution of one host leaves what is kept for the others as it is.
pub proof fn law_other_hosts_untouched<
    W,
    C: Fn(W) -> (W, u64),
    G: Fn(W, &str, &str, &[(String, String)], Ipv4Addr) -> (W, Result<HttpResponse, Error>),
    P: Fn(Vec<u8>) -> Result<DnsJsonResponse, String>,
>(
    clock: C,
    get: G,
    parse: P,
    cache: CacheView,
    host: Seq<char>,
    before: W,
    left: CacheView,
    after: W,
    out: Resolution,
    other: Seq<char>,
    now: u64,
)
    requires
        resolved(clock, get, parse, cache, host, before, left, after, out),
        other != host,
    ensures
        left.contains_key(other) == cache.contains_key(other),
        cache.contains_key(other) ==> left[other] == cache[other],
        fresh(left, other, now) == fresh(cache, other, now),
{
}

/// The addresses of an answer are those of its address records, which have the type 1, in their order,
/// and depend on nothing else. Such a record adds the address that its data writes, whatever its time
/// to live. Any other record adds nothing, nor does one whose data writes no address.
pub proof fn law_addresses(answers: Seq<DnsAnswerView>, record: DnsAnswerView, ip: Ipv4Addr)
    ensures
        addresses(seq![]) == Seq::<Ipv4Addr>::empty(),
        record.record_type == 1 && record.data == ip.text() ==> addresses(answers.push(record))
            == addresses(answers).push(ip),
        record.record_type != 1 ==> addresses(answers.push(record)) == addresses(answers),
        (forall|x: Ipv4Addr| record.data != #[trigger] x.text()) ==> addresses(answers.push(record))
            == addresses(answers),
{
    let all = answers.push(record);
    assert(all.drop_last() =~= answers);
    assert(all.last() == record);
    if record.data == ip.text() {
        law_text_reads_back(ip);
    }
}

/// Each address of an answer is that of one of its address records, and that of each address record is
/// among them.
pub proof fn law_every_address_is_found(answers: Seq<DnsAnswerView>, i: int, ip: Ipv4Addr)
    ensures
        0 <= i < answers.len() && answers[i].record_type == 1 && answers[i].data == ip.text()
            ==> addresses(answers).contains(ip),
        addresses(answers).contains(ip) ==> exists|j: int|
            0 <= j < answers.len() && (#[trigger] answers[j]).record_type == 1 && answers[j].data
                == ip.text(),
    decreases answers.len(),
{
    if answers.len() > 0 {
        let before = answers.drop_last();
        let last = answers.last();
        let found = addresses(before);
        let all = addresses(answers);
        law_every_address_is_found(before, i, ip);
        law_only_addresses_are_read(last.data, ip);
        assert(before.push(last) =~= answers);
        if found.contains(ip) {
            let k = choose|k: int| 0 <= k < found.len() && found[k] == ip;
            assert(all[k] == ip);
            let j = choose|j: int|
                0 <= j < before.len() && (#[trigger] before[j]).record_type == 1 && before[j].data
                    == ip.text();
            assert(answers[j] == before[j]);
        }
        if all.contains(ip) && !found.contains(ip) {
            let k = choose|k: int| 0 <= k < all.len() && all[k] == ip;
            if k < found.len() {
                assert(found[k] == ip);
            }
            assert(ipv4(last.data) == Some(ip));
            assert(answers[answers.len() - 1] == last);
        }
        if i == answers.len() - 1 && last.record_type == 1 && last.data == ip.text() {
            law_text_reads_back(ip);
            assert(all == found.push(ip));
            assert(all[found.len() as int] == ip);
        } else if 0 <= i < before.len() {
            assert(before[i] == answers[i]);
        }
    }
}

/// Another name for the host is what the first record of the type 5 gives, without the dots at its end,
/// however many they are. Where there is no such record, there is no other name.
pub proof fn law_other_name(answers: Seq<DnsAnswerView>, i: int, name: Seq<char>, dots: nat)
    requires
        name.len() > 0 ==> name[name.len() - 1] != '.',
    ensures
        (forall|j: int| 0 <= j < answers.len() ==> (#[trigger] answers[j]).record_type != 5)
            ==> first_cname(answers) is None,
        0 <= i < answers.len() && answers[i].record_type == 5 && (forall|j: int|
            0 <= j < i ==> (#[trigger] answers[j]).record_type != 5) && answers[i].data == name
            + Seq::new(dots, |k: int| '.') ==> first_cname(answers) == Some(name),
        normalized(name + Seq::new(dots, |k: int| '.')) == name,
    decreases answers.len(),
{
    law_trim_end_char(name, '.', dots);
    if answers.len() > 0 {
        let before = answers.drop_last();
        law_other_name(before, i, name, dots);
        assert(forall|j: int| 0 <= j < before.len() ==> before[j] == answers[j]);
        assert(answers.last() == answers[answers.len() - 1]);
        if i == answers.len() - 1 {
            assert(forall|j: int| 0 <= j < before.len() ==> before[j] == answers[j]);
        }
    }
}

/// An answer is kept for the shortest time that one of its records gives, but for no less than 30 and no
/// more than 300 seconds; and for 30 seconds where no record gives one.
pub proof fn law_answer_is_kept_for(answers: Seq<DnsAnswerView>, i: int, ttl: u32)
    ensures
        (forall|j: int| 0 <= j < answers.len() ==> (#[trigger] answers[j]).ttl is None)
            ==> kept_secs(answers) == 30,
        0 <= i < answers.len() && answers[i].ttl == Some(ttl) && (forall|j: int|
            0 <= j < answers.len() ==> match (#[trigger] answers[j]).ttl {
                Some(other) => ttl <= other,
                None => true,
            }) ==> kept_secs(answers) == (if ttl < 30 {
            30
        } else if ttl > 300 {
            300
        } else {
            ttl as u64
        }),
{
    law_least_ttl_is_given(answers);
    if 0 <= i < answers.len() && answers[i].ttl == Some(ttl) {
        law_least_ttl(answers, i);
    }
}

/// Where a lookup stands after an answer. One that could not be decoded, or that has another status than
/// zero, fails it, in words that name the host. Addresses end it, if there are any; else another name is
/// followed, if there is one; else it fails.
pub proof fn law_lookup_step(host: Seq<char>, response: DnsResponseView, message: Seq<char>)
    ensures
        lookup_step(host, Err(message)) == LookupStepView::Failed(
            ErrorView::Dns("failed to decode DNS response for '"@ + host + "': "@ + message),
        ),
        response.status != 0 ==> lookup_step(host, Ok(response)) == LookupStepView::Failed(
            ErrorView::Dns(
                "DNS resolver returned status "@ + decimal(response.status as nat) + " for '"@ + host
                    + "'"@,
            ),
        ),
        response.status == 0 && addresses(response.answers).len() > 0 ==> lookup_step(
            host,
            Ok(response),
        ) == LookupStepView::Found(addresses(response.answers), kept_secs(response.answers)),
        response.status == 0 && addresses(response.answers).len() == 0 ==> match first_cname(
            response.answers,
        ) {
            Some(name) => lookup_step(host, Ok(response)) == LookupStepView::Follow(name),
            None => lookup_step(host, Ok(response)) == LookupStepView::Failed(
                ErrorView::Dns("DNS lookup for '"@ + host + "' returned no IPv4 addresses"@),
            ),
        },
{
}

/// An answer without error that has an address record ends the lookup, with the address of that record
/// among those that are found, and a time within 30 and 300 seconds for which they are kept.
pub proof fn law_address_record_is_found(
    host: Seq<char>,
    response: DnsResponseView,
    i: int,
    ip: Ipv4Addr,
)
    requires
        response.status == 0,
        0 <= i < response.answers.len(),
        response.answers[i].record_type == 1,
        response.answers[i].data == ip.text(),
    ensures
        lookup_step(host, Ok(response)) matches LookupStepView::Found(addrs, ttl) && addrs.contains(
            ip,
        ) && 30 <= ttl <= 300,
{
    law_every_address_is_found(response.answers, i, ip);
    law_lookup_step(host, response, seq![]);
    let addrs = addresses(response.answers);
    let k = choose|k: int| 0 <= k < addrs.len() && addrs[k] == ip;
    assert(addrs.len() > 0);
}

/// A question for a host is made of calls that ask `dns.google` for the address records of that host, its
/// name as it is, first at 8.8.8.8 and then, if there was no answer, at 8.8.4.4.
pub proof fn law_question<
    W,
    G: Fn(W, &str, &str, &[(String, String)], Ipv4Addr) -> (W, Result<HttpResponse, Error>),
>(get: G, host: Seq<char>, before: W, after: W, reply: ResponseOutcome)
    requires
        asked(get, host, before, after, reply),
    ensures
        ({
            let ips = seq![
                Ipv4Addr { a: 8, b: 8, c: 8, d: 8 },
                Ipv4Addr { a: 8, b: 8, c: 4, d: 4 },
            ];
            exists|worlds: Seq<W>, replies: Seq<Result<HttpResponse, Error>>|
                {
                    &&& #[trigger] calls(
                        get,
                        "dns.google"@,
                        "/resolve?name="@ + host + "&type=A"@,
                        seq![("Accept"@, "application/json"@)],
                        ips,
                        worlds,
                        replies,
                    )
                    &&& worlds[0] == before
                    &&& worlds[worlds.len() - 1] == after
                    &&& comes_to(
                        ips,
                        replies,
                        ErrorView::Dns("no IPv4 addresses available for 'dns.google'"@),
                        reply,
                    )
                }
        }),
{
    let error = ErrorView::Dns("no IPv4 addresses available for '"@ + doh_host() + "'"@);
    law_get_is_performed(
        get,
        doh_host(),
        doh_path(host),
        doh_headers(),
        doh_ips(),
        error,
        before,
        after,
        reply,
    );
    let (worlds, replies) = choose|worlds: Seq<W>, replies: Seq<Result<HttpResponse, Error>>|
        {
            &&& #[trigger] calls(
                get,
                doh_host(),
                doh_path(host),
                doh_headers(),
                doh_ips(),
                worlds,
                replies,
            )
            &&& worlds[0] == before
            &&& worlds[worlds.len() - 1] == after
            &&& comes_to(doh_ips(), replies, error, reply)
        };
    assert(calls(
        get,
        "dns.google"@,
        "/resolve?name="@ + host + "&type=A"@,
        seq![("Accept"@, "application/json"@)],
        seq![Ipv4Addr { a: 8, b: 8, c: 8, d: 8 }, Ipv4Addr { a: 8, b: 8, c: 4, d: 4 }],
        worlds,
        replies,
    ));
}

/// A step of a lookup asks one question. What failed of it fails the lookup, and so does a reply with a
/// status that is none from 200 to 299. The body of any other reply is decoded, and the step is what
/// follows of the answer.
pub proof fn law_step_asks_one_question<
    W,
    G: Fn(W, &str, &str, &[(String, String)], Ipv4Addr) -> (W, Result<HttpResponse, Error>),
    P: Fn(Vec<u8>) -> Result<DnsJsonResponse, String>,
>(get: G, parse: P, host: Seq<char>, before: W, after: W, step: LookupStepView)
    requires
        stepped(get, parse, host, before, after, step),
    ensures
        exists|reply: ResponseOutcome|
            #[trigger] asked(get, host, before, after, reply) && match reply {
                Err(error) => step == LookupStepView::Failed(error),
                Ok(response) => if 200 <= response.status_code <= 299 {
                    exists|b: Vec<u8>, r: Result<DnsJsonResponse, String>|
                        #[trigger] call_ensures(parse, (b,), r) && b@ == response.body && match r {
                            Ok(answer) => step == lookup_step(host, Ok(answer@)),
                            Err(message) => step == lookup_step(host, Err(message@)),
                        }
                } else {
                    step == LookupStepView::Failed(
                        ErrorView::Http {
                            status: response.status_code,
                            body: lossy_text(response.body),
                        },
                    )
                },
            },
{
    let reply = choose|reply: ResponseOutcome|
        #[trigger] asked(get, host, before, after, reply) && match fetched_body(reply) {
            Err(error) => step == LookupStepView::Failed(error),
            Ok(body) => exists|answer: DecodedView|
                #[trigger] decodes(parse, body, answer) && step == lookup_step(host, answer),
        };
    assert(asked(get, host, before, after, reply));
    if let Ok(response) = reply {
        law_only_success_has_a_body(response, ErrorView::Timeout);
        if 200 <= response.status_code <= 299 {
            let answer = choose|answer: DecodedView|
                #[trigger] decodes(parse, response.body, answer) && step == lookup_step(
                    host,
                    answer,
                );
            let (b, r) = choose|b: Vec<u8>, r: Result<DnsJsonResponse, String>|
                b@ == response.body && #[trigger] call_ensures(parse, (b,), r) && answer
                    == decoded_view(r);
            assert(call_ensures(parse, (b,), r));
        }
    }
}

/// Whether `names` were looked up one after the other, each the other name that the answer for the one
/// before it gave, where `worlds` are the worlds before each of them was looked up.
pub open spec fn followed<
    W,
    G: Fn(W, &str, &str, &[(String, String)], Ipv4Addr) -> (W, Result<HttpResponse, Error>),
    P: Fn(Vec<u8>) -> Result<DnsJsonResponse, String>,
>(get: G, parse: P, names: Seq<Seq<char>>, worlds: Seq<W>) -> bool {
    &&& names.len() == worlds.len()
    &&& forall|i: int|
        0 <= i < names.len() - 1 ==> stepped(
            get,
            parse,
            #[trigger] names[i],
            worlds[i],
            worlds[i + 1],
            LookupStepView::Follow(names[i + 1]),
        )
}

/// A lookup starts with the host and follows other names until an answer ends it, and the outcome is that
/// of the last answer: the addresses and their time, or the error. Where four names have led to a fifth,
/// it fails in words that name it, and no question is asked for that one.
pub proof fn law_lookup_follows_names<
    W,
    G: Fn(W, &str, &str, &[(String, String)], Ipv4Addr) -> (W, Result<HttpResponse, Error>),
    P: Fn(Vec<u8>) -> Result<DnsJsonResponse, String>,
>(get: G, parse: P, host: Seq<char>, depth: nat, before: W, after: W, out: Lookup)
    requires
        looked_up(get, parse, host, depth, before, after, out),
        depth <= 4,
    ensures
        exists|names: Seq<Seq<char>>, worlds: Seq<W>|
            {
                &&& #[trigger] followed(get, parse, names, worlds)
                &&& 0 < names.len() <= 5 - depth
                &&& names[0] == host
                &&& worlds[0] == before
                &&& ended(
                    get,
                    parse,
                    names[names.len() - 1],
                    names.len() == 5 - depth,
                    worlds[worlds.len() - 1],
                    after,
                    out,
                )
            },
    decreases 4 - depth,
{
    if depth == 4 {
        assert(followed(get, parse, seq![host], seq![before]));
    } else {
        let (step, next) = choose|step: LookupStepView, next: W|
            #[trigger] stepped(get, parse, host, before, next, step) && match step {
                LookupStepView::Found(addrs, ttl) => after == next && out == Ok::<
                    (Seq<Ipv4Addr>, u64),
                    ErrorView,
                >((addrs, ttl)),
                LookupStepView::Failed(error) => after == next && out == Err::<
                    (Seq<Ipv4Addr>, u64),
                    ErrorView,
                >(error),
                LookupStepView::Follow(name) => looked_up(
                    get,
                    parse,
                    name,
                    depth + 1,
                    next,
                    after,
                    out,
                ),
            };
        if let LookupStepView::Follow(name) = step {
            law_lookup_follows_names(get, parse, name, depth + 1, next, after, out);
            let (ns, ws) = choose|ns: Seq<Seq<char>>, ws: Seq<W>|
                {
                    &&& #[trigger] followed(get, parse, ns, ws)
                    &&& 0 < ns.len() <= 5 - (depth + 1)
                    &&& ns[0] == name
                    &&& ws[0] == next
                    &&& ended(
                        get,
                        parse,
                        ns[ns.len() - 1],
                        ns.len() == 5 - (depth + 1),
                        ws[ws.len() - 1],
                        after,
                        out,
                    )
                };
            let names = seq![host] + ns;
            let worlds = seq![before] + ws;
            assert forall|i: int| 0 <= i < names.len() - 1 implies stepped(
                get,
                parse,
                #[trigger] names[i],
                worlds[i],
                worlds[i + 1],
                LookupStepView::Follow(names[i + 1]),
            ) by {
                assert(names[i + 1] == ns[i]);
                assert(worlds[i + 1] == ws[i]);
                if i > 0 {
                    assert(names[i] == ns[i - 1]);
                    assert(worlds[i] == ws[i - 1]);
                }
            }
            assert(followed(get, parse, names, worlds));
            assert(names[names.len() - 1] == ns[ns.len() - 1]);
            assert(worlds[worlds.len() - 1] == ws[ws.len() - 1]);
        } else {
            assert(followed(get, parse, seq![host], seq![before]));
        }
    }
}

/// Whether the lookup of `name` ends with `out` without following another name. At the limit nothing is
/// done for it.
pub open spec fn ended<
    W,
    G: Fn(W, &str, &str, &[(String, String)], Ipv4Addr) -> (W, Result<HttpResponse, Error>),
    P: Fn(Vec<u8>) -> Result<DnsJsonResponse, String>,
>(get: G, parse: P, name: Seq<char>, at_limit: bool, before: W, after: W, out: Lookup) -> bool {
    if at_limit {
        after == before && out == Err::<(Seq<Ipv4Addr>, u64), ErrorView>(
            ErrorView::Dns("DNS lookup for '"@ + name + "' exceeded CNAME depth limit"@),
        )
    } else {
        match out {
            Ok((addrs, ttl)) => stepped(
                get,
                parse,
                name,
                before,
                after,
                LookupStepView::Found(addrs, ttl),
            ),
            Err(error) => stepped(get, parse, name, before, after, LookupStepView::Failed(error)),
        }
    }
}

/// What is kept of a lookup. Addresses are given and kept until their time, in seconds of a thousand
/// million ticks, has passed since the answer came; where the clock does not reach that far, they expire
/// at once. An error is given, and nothing is kept for the host. What is kept for other hosts stays.
pub proof fn law_lookup_is_kept(
    cache: CacheView,
    host: Seq<char>,
    addrs: Seq<Ipv4Addr>,
    ttl: u64,
    error: ErrorView,
    now: u64,
)
    ensures
        after_lookup(cache, host, Ok((addrs, ttl)), now) == (
            cache.insert(
                host,
                (
                    addrs,
                    if now + ttl * 1_000_000_000 <= u64::MAX {
                        (now + ttl * 1_000_000_000) as u64
                    } else {
                        now
                    },
                ),
            ),
            Ok::<Seq<Ipv4Addr>, ErrorView>(addrs),
        ),
        after_lookup(cache, host, Err(error), now) == (
            cache.remove(host),
            Err::<Seq<Ipv4Addr>, ErrorView>(error),
        ),
{
}

/// A resolution reads the clock. What is kept for the host and expires later than that is the result, and
/// nothing else is done or changed. Else the host, its name as it is, is looked up. Where that fails, the
/// error is the result and nothing is kept for the host. Where it finds addresses, they are the result,
/// the clock is read again, and they are kept from then on.
pub proof fn law_resolution<
    W,
    C: Fn(W) -> (W, u64),
    G: Fn(W, &str, &str, &[(String, String)], Ipv4Addr) -> (W, Result<HttpResponse, Error>),
    P: Fn(Vec<u8>) -> Result<DnsJsonResponse, String>,
>(
    clock: C,
    get: G,
    parse: P,
    cache: CacheView,
    host: Seq<char>,
    before: W,
    left: CacheView,
    after: W,
    out: Resolution,
)
    requires
        resolved(clock, get, parse, cache, host, before, left, after, out),
    ensures
        exists|now: u64, begun: W|
            #[trigger] call_ensures(clock, (before,), (begun, now)) && if cache.contains_key(host)
                && now < cache[host].1 {
                out == Ok::<Seq<Ipv4Addr>, ErrorView>(cache[host].0) && left == cache && after
                    == begun
            } else {
                exists|found: Lookup, next: W|
                    #[trigger] looked_up(get, parse, host, 0, begun, next, found) && match found {
                        Err(error) => out == Err::<Seq<Ipv4Addr>, ErrorView>(error) && left
                            == cache.remove(host) && after == next,
                        Ok((addrs, ttl)) => out == Ok::<Seq<Ipv4Addr>, ErrorView>(addrs)
                            && exists|answered_at: u64|
                            #[trigger] call_ensures(clock, (next,), (after, answered_at)) && left
                                == cache.insert(
                                host,
                                (
                                    addrs,
                                    if answered_at + ttl * 1_000_000_000 <= u64::MAX {
                                        (answered_at + ttl * 1_000_000_000) as u64
                                    } else {
                                        answered_at
                                    },
                                ),
                            ),
                    }
            },
{
    let (now, begun) = choose|now: u64, begun: W|
        #[trigger] call_ensures(clock, (before,), (begun, now)) && resolved_at(
            clock,
            get,
            parse,
            cache,
            host,
            now,
            begun,
            left,
            after,
            out,
        );
    assert(call_ensures(clock, (before,), (begun, now)));
    if !(cache.contains_key(host) && now < cache[host].1) {
        let (found, next) = choose|found: Lookup, next: W|
            #[trigger] looked_up(get, parse, host, 0, begun, next, found) && kept(
                clock,
                cache,
                host,
                found,
                next,
                left,
                after,
                out,
            );
        assert(looked_up(get, parse, host, 0, begun, next, found));
        if let Ok((addrs, ttl)) = found {
            let answered_at = choose|t: u64|
                #[trigger] call_ensures(clock, (next,), (after, t)) && (left, out) == after_lookup(
                    cache,
                    host,
                    found,
                    t,
                );
            assert(call_ensures(clock, (next,), (after, answered_at)));
            law_lookup_is_kept(cache, host, addrs, ttl, ErrorView::Timeout, answered_at);
        }
    }
}

/// An answer of the name server is seen whole: its status, and of each record, in their order, the type,
/// the time to live and the data.
pub proof fn law_answer_is_seen_whole(
    response: DnsJsonResponse,
    i: int,
    decoded: Result<DnsJsonResponse, String>,
    found: Result<(Vec<Ipv4Addr>, u64), Error>,
    resolution: Result<Vec<Ipv4Addr>, Error>,
)
    ensures
        response@.status == response.status,
        response@.answers.len() == response.answers@.len(),
        0 <= i < response.answers@.len() ==> {
            let record = response.answers@[i];
            let seen = response@.answers[i];
            seen.record_type == record.record_type && seen.ttl == record.ttl && seen.data
                == record.data@
        },
        match decoded {
            Ok(answer) => decoded_view(decoded) == Ok::<DnsResponseView, Seq<char>>(answer@),
            Err(message) => decoded_view(decoded) == Err::<DnsResponseView, Seq<char>>(message@),
        },
        match found {
            Ok((addrs, ttl)) => lookup_view(found) == Ok::<(Seq<Ipv4Addr>, u64), ErrorView>(
                (addrs@, ttl),
            ),
            Err(error) => lookup_view(found) == Err::<(Seq<Ipv4Addr>, u64), ErrorView>(error@),
        },
        match resolution {
            Ok(addrs) => resolution_view(resolution) == Ok::<Seq<Ipv4Addr>, ErrorView>(addrs@),
            Err(error) => resolution_view(resolution) == Err::<Seq<Ipv4Addr>, ErrorView>(error@),
        },
{
    if 0 <= i < response.answers@.len() {
        assert(response@.answers[i] == response.answers@[i]@);
    }
}

} // verus!
