//! HTTPS URLs.

use vstd::prelude::*;
use vstd::slice::slice_subrange;
use vstd::string::*;

use crate::error::{Error, ErrorView};
use crate::text::{chars_of, join2, join3, occurs_at, string_of};

verus! {

/// The scheme of an HTTPS URL, and what separates it from the host.
pub open spec fn scheme() -> Seq<char> {
    "https://"@
}

/// What came of splitting a URL: the host and the path.
pub type UrlParts = Result<(Seq<char>, Seq<char>), ErrorView>;

/// The parts of a URL as their view.
pub open spec fn parts_view(r: Result<(String, String), Error>) -> UrlParts {
    match r {
        Ok((host, path)) => Ok((host@, path@)),
        Err(error) => Err(error@),
    }
}

/// Whether `c` ends the host of a URL.
pub open spec fn ends_host(c: char) -> bool {
    c == '/' || c == '?'
}

/// How many characters stand in `rest` before the first that ends the host.
pub open spec fn host_len(rest: Seq<char>) -> nat
    decreases rest.len(),
{
    if rest.len() == 0 || ends_host(rest[0]) {
        0
    } else {
        1 + host_len(rest.skip(1))
    }
}

/// The host and the path in what follows the scheme of a URL. The host ends at the first slash or
/// question mark. What follows is the path, with a slash before it where it does not start with one.
pub open spec fn host_and_path(rest: Seq<char>) -> (Seq<char>, Seq<char>) {
    let host = rest.take(host_len(rest) as int);
    let tail = rest.skip(host_len(rest) as int);
    if tail.len() > 0 && tail[0] == '/' {
        (host, tail)
    } else {
        (host, seq!['/'] + tail)
    }
}

/// The host and the path of the URL `url`.
pub open spec fn url_parts(url: Seq<char>) -> UrlParts {
    if !occurs_at(url, scheme(), 0) {
        Err(ErrorView::Io("unsupported URL scheme in '"@ + url + "'"@))
    } else {
        let rest = url.skip(scheme().len() as int);
        let (host, path) = host_and_path(rest);
        if rest.len() == 0 {
            Err(ErrorView::Io("HTTPS URL is missing a host"@))
        } else if host.len() == 0 {
            Err(ErrorView::Io("HTTPS URL is missing a host in '"@ + url + "'"@))
        } else {
            Ok((host, path))
        }
    }
}

/// What follows the scheme of an HTTPS URL: `None` where the scheme is another.
fn after_scheme(url: &[char]) -> (r: Option<&[char]>)
    ensures
        match r {
            Some(rest) => occurs_at(url@, scheme(), 0) && rest@ == url@.skip(
                scheme().len() as int,
            ),
            None => !occurs_at(url@, scheme(), 0),
        },
{
    let scheme_chars = chars_of("https://");
    if url.len() < scheme_chars.len() {
        return None;
    }
    for i in 0..scheme_chars.len()
        invariant
            scheme_chars@ == scheme(),
            scheme_chars@.len() <= url@.len(),
            forall|j: int| 0 <= j < i ==> url@[j] == #[trigger] scheme_chars@[j],
    {
        if url[i] != scheme_chars[i] {
            assert(url@.subrange(0, scheme().len() as int)[i as int] != scheme()[i as int]);
            return None;
        }
    }
    assert(url@.subrange(0, scheme().len() as int) =~= scheme());
    let rest = slice_subrange(url, scheme_chars.len(), url.len());
    assert(rest@ =~= url@.skip(scheme().len() as int));
    Some(rest)
}

/// The index at which the host ends in what follows the scheme of a URL.
fn host_end(rest: &[char]) -> (r: usize)
    ensures
        r == host_len(rest@),
        r <= rest@.len(),
{
    let mut i: usize = 0;
    assert(rest@.skip(0) =~= rest@);
    while i < rest.len() && rest[i] != '/' && rest[i] != '?'
        invariant
            i <= rest@.len(),
            host_len(rest@) == i + host_len(rest@.skip(i as int)),
        decreases rest@.len() - i,
    {
        assert(rest@.skip(i as int).skip(1) =~= rest@.skip(i + 1));
        i = i + 1;
    }
    i
}

/// Split an HTTPS URL into `(host, path)` for use with the HTTPS calls of a sidecar.
///
/// # Errors
///
/// Returns [`Error`] if the URL is not HTTPS or does not contain a valid host.
pub fn split_https_url(url: &str) -> (r: Result<(String, String), Error>)
    ensures
        parts_view(r) == url_parts(url@),
{
    let chars = chars_of(url);
    let rest = match after_scheme(chars.as_slice()) {
        None => {
            return Err(Error::Io(join3("unsupported URL scheme in '", url, "'")));
        },
        Some(rest) => rest,
    };
    if rest.len() == 0 {
        return Err(Error::Io("HTTPS URL is missing a host".to_owned()));
    }
    let end: usize = host_end(rest);
    let host = slice_subrange(rest, 0, end);
    let tail = slice_subrange(rest, end, rest.len());
    proof {
        reveal_strlit("/");
        assert("/"@ =~= seq!['/']);
        assert(host@ =~= rest@.take(end as int));
        assert(tail@ =~= rest@.skip(end as int));
    }
    let path = if tail.len() > 0 && tail[0] == '/' {
        string_of(tail)
    } else {
        join2("/", string_of(tail).as_str())
    };
    if host.len() == 0 {
        return Err(Error::Io(join3("HTTPS URL is missing a host in '", url, "'")));
    }
    Ok((string_of(host), path))
}

/// The host has no character that ends it, and what follows it, if anything, starts with one.
proof fn lemma_host_len(rest: Seq<char>)
    ensures
        host_len(rest) <= rest.len(),
        forall|i: int| 0 <= i < host_len(rest) ==> !ends_host(#[trigger] rest[i]),
        host_len(rest) < rest.len() ==> ends_host(rest[host_len(rest) as int]),
    decreases rest.len(),
{
    if rest.len() > 0 && !ends_host(rest[0]) {
        let tail = rest.skip(1);
        lemma_host_len(tail);
        assert forall|i: int| 0 <= i < host_len(rest) implies !ends_host(#[trigger] rest[i]) by {
            if i > 0 {
                assert(rest[i] == tail[i - 1]);
            }
        }
    }
}

/// A host that nothing ends before what follows it is the host.
proof fn lemma_host_len_of(host: Seq<char>, tail: Seq<char>)
    requires
        forall|i: int| 0 <= i < host.len() ==> !ends_host(#[trigger] host[i]),
        tail.len() > 0 ==> ends_host(tail[0]),
    ensures
        host_len(host + tail) == host.len(),
    decreases host.len(),
{
    if host.len() == 0 {
        assert(host + tail =~= tail);
    } else {
        let rest = host.skip(1);
        assert((host + tail).skip(1) =~= rest + tail);
        assert forall|i: int| 0 <= i < rest.len() implies !ends_host(#[trigger] rest[i]) by {
            assert(rest[i] == host[i + 1]);
        }
        lemma_host_len_of(rest, tail);
    }
}

/// A URL that splits has a host without a slash or a question mark, and a path that starts with a
/// slash. The scheme, the host and the path make up the URL again, but for the slash before a path
/// that does not start with one.
pub proof fn law_parts_make_up_the_url(url: Seq<char>)
    ensures
        url_parts(url) matches Ok((host, path)) ==> {
            &&& host.len() > 0
            &&& !host.contains('/')
            &&& !host.contains('?')
            &&& path.len() > 0
            &&& path[0] == '/'
            &&& url == scheme() + host + path || url == scheme() + host + path.skip(1)
        },
{
    if let Ok((host, path)) = url_parts(url) {
        let rest = url.skip(scheme().len() as int);
        let tail = rest.skip(host_len(rest) as int);
        lemma_host_len(rest);
        assert(url =~= scheme() + rest) by {
            assert(url.subrange(0, scheme().len() as int) =~= scheme());
        }
        assert forall|i: int| 0 <= i < host.len() implies host[i] != '/' && host[i] != '?' by {
            assert(!ends_host(rest[i]));
        }
        assert(rest =~= host + tail);
        if path == tail {
            assert(scheme() + host + path =~= scheme() + rest);
        } else {
            assert(path.skip(1) =~= tail);
            assert(scheme() + host + path.skip(1) =~= scheme() + rest);
        }
    }
}

/// A URL that is put together from a host without slashes and question marks and a path splits into
/// the two again.
pub proof fn law_url_splits_into_its_parts(host: Seq<char>, path: Seq<char>)
    requires
        host.len() > 0,
        !host.contains('/'),
        !host.contains('?'),
        path.len() > 0,
        path[0] == '/',
    ensures
        url_parts(scheme() + host + path) == Ok::<(Seq<char>, Seq<char>), ErrorView>((host, path)),
{
    let url = scheme() + host + path;
    let rest = host + path;
    assert(url.subrange(0, scheme().len() as int) =~= scheme());
    assert(url.skip(scheme().len() as int) =~= rest);
    assert forall|i: int| 0 <= i < host.len() implies !ends_host(#[trigger] host[i]) by {
        assert(host.contains(host[i]));
    }
    lemma_host_len_of(host, path);
    assert(rest.take(host.len() as int) =~= host);
    assert(rest.skip(host.len() as int) =~= path);
}

/// A URL that is put together from a host without slashes and question marks and a query splits into
/// the host and the query on the root.
pub proof fn law_query_goes_to_the_root(host: Seq<char>, query: Seq<char>)
    requires
        host.len() > 0,
        !host.contains('/'),
        !host.contains('?'),
    ensures
        url_parts(scheme() + host + seq!['?'] + query) == Ok::<(Seq<char>, Seq<char>), ErrorView>(
            (host, seq!['/', '?'] + query),
        ),
{
    let tail = seq!['?'] + query;
    let url = scheme() + host + seq!['?'] + query;
    let rest = host + tail;
    assert(url.subrange(0, scheme().len() as int) =~= scheme());
    assert(url.skip(scheme().len() as int) =~= rest);
    assert forall|i: int| 0 <= i < host.len() implies !ends_host(#[trigger] host[i]) by {
        assert(host.contains(host[i]));
    }
    lemma_host_len_of(host, tail);
    assert(rest.take(host.len() as int) =~= host);
    assert(rest.skip(host.len() as int) =~= tail);
    assert(seq!['/'] + tail =~= seq!['/', '?'] + query);
}

/// What an HTTPS URL splits into. The host is what stands between `https://` and the first slash or
/// question mark, or the end. What follows, from the slash on, is the path; a query without a path is on
/// the root, and where nothing follows, the path is the root.
pub proof fn law_https_url_splits(host: Seq<char>, rest: Seq<char>)
    requires
        host.len() > 0,
        !host.contains('/'),
        !host.contains('?'),
    ensures
        url_parts("https://"@ + host + seq!['/'] + rest) == Ok::<(Seq<char>, Seq<char>), ErrorView>(
            (host, seq!['/'] + rest),
        ),
        url_parts("https://"@ + host + seq!['?'] + rest) == Ok::<(Seq<char>, Seq<char>), ErrorView>(
            (host, seq!['/', '?'] + rest),
        ),
        url_parts("https://"@ + host) == Ok::<(Seq<char>, Seq<char>), ErrorView>((host, seq!['/'])),
{
    law_url_splits_into_its_parts(host, seq!['/'] + rest);
    assert("https://"@ + host + (seq!['/'] + rest) =~= "https://"@ + host + seq!['/'] + rest);
    law_query_goes_to_the_root(host, rest);
    let none = Seq::<char>::empty();
    let url = "https://"@ + host;
    assert(url.subrange(0, scheme().len() as int) =~= scheme());
    assert(url.skip(scheme().len() as int) =~= host);
    assert forall|i: int| 0 <= i < host.len() implies !ends_host(#[trigger] host[i]) by {
        assert(host.contains(host[i]));
    }
    lemma_host_len_of(host, none);
    assert(host + none =~= host);
    assert(host.take(host.len() as int) =~= host);
    assert(host.skip(host.len() as int) =~= none);
    assert(seq!['/'] + none =~= seq!['/']);
}

/// What is no HTTPS URL does not split: another scheme is refused in words that name the URL, and so is a
/// URL without a host.
pub proof fn law_other_urls_are_refused(url: Seq<char>, rest: Seq<char>)
    ensures
        (forall|tail: Seq<char>| url != #[trigger] ("https://"@ + tail)) ==> url_parts(url) == Err::<
            (Seq<char>, Seq<char>),
            ErrorView,
        >(ErrorView::Io("unsupported URL scheme in '"@ + url + "'"@)),
        url_parts("https://"@) == Err::<(Seq<char>, Seq<char>), ErrorView>(
            ErrorView::Io("HTTPS URL is missing a host"@),
        ),
        rest.len() > 0 && (rest[0] == '/' || rest[0] == '?') ==> url_parts("https://"@ + rest)
            == Err::<(Seq<char>, Seq<char>), ErrorView>(
            ErrorView::Io("HTTPS URL is missing a host in '"@ + ("https://"@ + rest) + "'"@),
        ),
{
    let n = scheme().len() as int;
    if occurs_at(url, scheme(), 0) {
        assert(url.subrange(0, n) =~= scheme());
        assert(url =~= "https://"@ + url.skip(n));
    }
    assert("https://"@.subrange(0, n) =~= scheme());
    assert("https://"@.skip(n).len() == 0);
    let given = "https://"@ + rest;
    assert(given.subrange(0, n) =~= scheme());
    assert(given.skip(n) =~= rest);
}

/// The parts of a URL are seen as they are.
pub proof fn law_parts_are_seen_whole(r: Result<(String, String), Error>)
    ensures
        match r {
            Ok((host, path)) => parts_view(r) == Ok::<(Seq<char>, Seq<char>), ErrorView>(
                (host@, path@),
            ),
            Err(error) => parts_view(r) == Err::<(Seq<char>, Seq<char>), ErrorView>(error@),
        },
{
}

} // verus!
