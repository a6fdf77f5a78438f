//! Character sequences: searching, splitting, trimming and ASCII case.
//!
//! Text is worked on as slices of `char`, so that every operation is stated over `Seq<char>`, the
//! view of `str` and `String`.

use vstd::prelude::*;
use vstd::slice::slice_subrange;
use vstd::string::*;

verus! {

/// [`String::push`] of the standard library: the character is appended, the rest is unchanged.
pub assume_specification[ String::push ](s: &mut String, c: char)
    ensures
        final(s)@ == old(s)@.push(c),
;

/// Whether `pattern` stands in `s` at index `i`.
pub open spec fn occurs_at<A>(s: Seq<A>, pattern: Seq<A>, i: int) -> bool {
    &&& 0 <= i
    &&& i + pattern.len() <= s.len()
    &&& s.subrange(i, i + pattern.len()) =~= pattern
}

/// The first index, from `i` on, at which `pattern` stands in `s`.
pub open spec fn find_from<A>(s: Seq<A>, pattern: Seq<A>, i: int) -> Option<int>
    decreases s.len() + 1 - i,
{
    if i < 0 || i + pattern.len() > s.len() {
        None
    } else if occurs_at(s, pattern, i) {
        Some(i)
    } else {
        find_from(s, pattern, i + 1)
    }
}

/// The first index at which `pattern` stands in `s`.
pub open spec fn find<A>(s: Seq<A>, pattern: Seq<A>) -> Option<int> {
    find_from(s, pattern, 0)
}

/// `find_from` gives the least index of an occurrence, and `None` only if there is none.
pub proof fn lemma_find_from<A>(s: Seq<A>, pattern: Seq<A>, i: int)
    requires
        0 <= i,
    ensures
        match find_from(s, pattern, i) {
            Some(k) => i <= k && occurs_at(s, pattern, k) && forall|j: int|
                i <= j < k ==> !occurs_at(s, pattern, j),
            None => forall|j: int| i <= j ==> !occurs_at(s, pattern, j),
        },
    decreases s.len() + 1 - i,
{
    if i + pattern.len() > s.len() {
    } else if occurs_at(s, pattern, i) {
    } else {
        lemma_find_from(s, pattern, i + 1);
    }
}

/// An index with an occurrence and none before it is the one that `find_from` gives.
pub proof fn lemma_find_from_unique<A>(s: Seq<A>, pattern: Seq<A>, i: int, k: int)
    requires
        0 <= i <= k,
        occurs_at(s, pattern, k),
        forall|j: int| i <= j < k ==> !occurs_at(s, pattern, j),
    ensures
        find_from(s, pattern, i) == Some(k),
{
    lemma_find_from(s, pattern, i);
}

/// The first occurrence stays where it is when something is appended.
pub proof fn lemma_find_extends<A>(s: Seq<A>, more: Seq<A>, pattern: Seq<A>, i: int)
    requires
        0 <= i,
    ensures
        find_from(s, pattern, i) matches Some(k) ==> find_from(s + more, pattern, i) == Some(k),
{
    lemma_find_from(s, pattern, i);
    if let Some(k) = find_from(s, pattern, i) {
        let t = s + more;
        assert(t.subrange(k, k + pattern.len()) =~= s.subrange(k, k + pattern.len()));
        assert forall|j: int| i <= j < k implies !occurs_at(t, pattern, j) by {
            assert(!occurs_at(s, pattern, j));
            assert(t.subrange(j, j + pattern.len()) =~= s.subrange(j, j + pattern.len()));
        }
        lemma_find_from_unique(t, pattern, i, k);
    }
}

/// The first occurrence stays where it is when something after it is cut off.
pub proof fn lemma_find_cut<A>(s: Seq<A>, pattern: Seq<A>, i: int, len: int)
    requires
        0 <= i,
        len <= s.len(),
    ensures
        find_from(s, pattern, i) matches Some(k) ==> k + pattern.len() <= len ==> find_from(
            s.take(len),
            pattern,
            i,
        ) == Some(k),
{
    let cut = s.take(len);
    lemma_find_from(s, pattern, i);
    if let Some(k) = find_from(s, pattern, i) {
        if k + pattern.len() <= len {
            assert(cut.subrange(k, k + pattern.len()) =~= s.subrange(k, k + pattern.len()));
            assert forall|j: int| i <= j < k implies !occurs_at(cut, pattern, j) by {
                assert(!occurs_at(s, pattern, j));
                assert(cut.subrange(j, j + pattern.len()) =~= s.subrange(j, j + pattern.len()));
            }
            lemma_find_from_unique(cut, pattern, i, k);
        }
    }
}

/// The pieces of `s` between the occurrences of `separator`, from left to right.
pub open spec fn split<A>(s: Seq<A>, separator: Seq<A>) -> Seq<Seq<A>>
    decreases s.len(),
{
    match find(s, separator) {
        Some(i) => if separator.len() == 0 {
            seq![s]
        } else {
            proof {
                lemma_find_from(s, separator, 0);
            }
            seq![s.take(i)] + split(s.skip(i + separator.len()), separator)
        },
        None => seq![s],
    }
}

/// What stands before and after the first `separator` in `s`.
pub open spec fn split_once(s: Seq<char>, separator: char) -> Option<(Seq<char>, Seq<char>)> {
    match find(s, seq![separator]) {
        Some(i) => Some((s.take(i), s.skip(i + 1))),
        None => None,
    }
}

/// What stands before the first `separator` in `s`: all of `s` where there is none.
pub open spec fn before(s: Seq<char>, separator: char) -> Seq<char> {
    match split_once(s, separator) {
        Some((head, _)) => head,
        None => s,
    }
}

/// The characters with the Unicode property `White_Space`.
pub open spec fn is_whitespace(c: char) -> bool {
    ||| '\u{9}' <= c <= '\u{d}'
    ||| c == '\u{20}'
    ||| c == '\u{85}'
    ||| c == '\u{a0}'
    ||| c == '\u{1680}'
    ||| '\u{2000}' <= c <= '\u{200a}'
    ||| c == '\u{2028}'
    ||| c == '\u{2029}'
    ||| c == '\u{202f}'
    ||| c == '\u{205f}'
    ||| c == '\u{3000}'
}

/// `s` without its leading whitespace.
pub open spec fn trim_start(s: Seq<char>) -> Seq<char>
    decreases s.len(),
{
    if s.len() > 0 && is_whitespace(s[0]) {
        trim_start(s.skip(1))
    } else {
        s
    }
}

/// `s` without its trailing whitespace.
pub open spec fn trim_end(s: Seq<char>) -> Seq<char>
    decreases s.len(),
{
    if s.len() > 0 && is_whitespace(s.last()) {
        trim_end(s.drop_last())
    } else {
        s
    }
}

/// `s` without its leading and trailing whitespace.
pub open spec fn trim(s: Seq<char>) -> Seq<char> {
    trim_end(trim_start(s))
}

/// `s` without the trailing occurrences of `c`.
pub open spec fn trim_end_char(s: Seq<char>, c: char) -> Seq<char>
    decreases s.len(),
{
    if s.len() > 0 && s.last() == c {
        trim_end_char(s.drop_last(), c)
    } else {
        s
    }
}

/// How many characters stand in `s` before the first whitespace.
pub open spec fn word_len(s: Seq<char>) -> nat
    decreases s.len(),
{
    if s.len() > 0 && !is_whitespace(s[0]) {
        1 + word_len(s.skip(1))
    } else {
        0
    }
}

/// A word is no longer than the text that it starts.
pub proof fn lemma_word_len(s: Seq<char>)
    ensures
        word_len(s) <= s.len(),
    decreases s.len(),
{
    if s.len() > 0 && !is_whitespace(s[0]) {
        lemma_word_len(s.skip(1));
    }
}

/// What `trim_start` leaves is no longer than the text, and starts with no whitespace.
pub proof fn lemma_trim_start_len(s: Seq<char>)
    ensures
        trim_start(s).len() <= s.len(),
        trim_start(s).len() > 0 ==> !is_whitespace(trim_start(s)[0]),
    decreases s.len(),
{
    if s.len() > 0 && is_whitespace(s[0]) {
        lemma_trim_start_len(s.skip(1));
    }
}

/// The maximal runs of characters of `s` that are not whitespace, from left to right.
pub open spec fn words(s: Seq<char>) -> Seq<Seq<char>>
    decreases s.len(),
{
    let t = trim_start(s);
    if t.len() == 0 {
        seq![]
    } else {
        proof {
            lemma_trim_start_len(s);
            lemma_word_len(t);
        }
        seq![t.take(word_len(t) as int)] + words(t.skip(word_len(t) as int))
    }
}

/// `c` with an ASCII upper-case letter made lower-case.
pub open spec fn ascii_lower(c: char) -> char {
    if 'A' <= c <= 'Z' {
        ((c as u8) + 32) as char
    } else {
        c
    }
}

/// `s` with its ASCII upper-case letters made lower-case.
pub open spec fn lower(s: Seq<char>) -> Seq<char> {
    s.map_values(|c: char| ascii_lower(c))
}

/// Whether `a` and `b` are the same but for the case of ASCII letters.
pub open spec fn eq_ignore_case(a: Seq<char>, b: Seq<char>) -> bool {
    lower(a) == lower(b)
}

/// The characters of `s`.
pub fn chars_of(s: &str) -> (r: Vec<char>)
    ensures
        r@ == s@,
{
    let mut r: Vec<char> = Vec::new();
    for c in it: s.chars()
        invariant
            r@ == it.seq().take(it.index() as int),
            it.seq() == s@,
    {
        r.push(c);
    }
    r
}

/// The string that `chars` spells.
pub fn string_of(chars: &[char]) -> (r: String)
    ensures
        r@ == chars@,
{
    let mut r = String::new();
    for i in 0..chars.len()
        invariant
            r@ == chars@.take(i as int),
    {
        r.push(chars[i]);
    }
    r
}

/// `a` followed by `b`.
pub fn join2(a: &str, b: &str) -> (r: String)
    ensures
        r@ == a@ + b@,
{
    let mut r: String = a.to_owned();
    r.append(b);
    r
}

/// `a`, `b` and `c`, one after the other.
pub fn join3(a: &str, b: &str, c: &str) -> (r: String)
    ensures
        r@ == a@ + b@ + c@,
{
    let mut r: String = a.to_owned();
    r.append(b);
    r.append(c);
    r
}

/// What sequences that are searched consist of.
pub trait Symbol: Sized {
    /// Whether this is the same as `other`.
    fn same(&self, other: &Self) -> (r: bool)
        ensures
            r == (*self == *other),
    ;
}

impl Symbol for u8 {
    fn same(&self, other: &u8) -> (r: bool) {
        *self == *other
    }
}

impl Symbol for char {
    fn same(&self, other: &char) -> (r: bool) {
        *self == *other
    }
}

/// Whether `pattern` stands in `s` at index `i`.
fn stands_at<A: Symbol>(s: &[A], pattern: &[A], i: usize) -> (r: bool)
    requires
        i + pattern@.len() <= s@.len(),
    ensures
        r == occurs_at(s@, pattern@, i as int),
{
    assert(s@.len() == s.len());
    for k in 0..pattern.len()
        invariant
            i + pattern@.len() <= s@.len(),
            s@.len() <= usize::MAX,
            forall|j: int| 0 <= j < k ==> s@[i + j] == #[trigger] pattern@[j],
    {
        if !s[i + k].same(&pattern[k]) {
            assert(s@.subrange(i as int, i + pattern@.len())[k as int] != pattern@[k as int]);
            return false;
        }
    }
    assert(s@.subrange(i as int, i + pattern@.len()) =~= pattern@);
    true
}

/// The first index, from `start` on, at which `pattern` stands in `s`.
pub fn find_in<A: Symbol>(s: &[A], pattern: &[A], start: usize) -> (r: Option<usize>)
    requires
        start <= s@.len(),
    ensures
        match r {
            Some(k) => find_from(s@, pattern@, start as int) == Some(k as int),
            None => find_from(s@, pattern@, start as int) is None,
        },
{
    if pattern.len() > s.len() {
        proof {
            lemma_find_from(s@, pattern@, start as int);
        }
        return None;
    }
    let last: usize = s.len() - pattern.len();
    let mut i: usize = start;
    while i <= last
        invariant
            start <= i <= s@.len(),
            last + pattern@.len() == s@.len(),
            find_from(s@, pattern@, start as int) == find_from(s@, pattern@, i as int),
        decreases s@.len() + 1 - i,
    {
        if stands_at(s, pattern, i) {
            return Some(i);
        }
        if i == last {
            proof {
                reveal_with_fuel(find_from, 2);
            }
            return None;
        }
        i = i + 1;
    }
    None
}

/// What stands before and after the first `separator` in `s`.
pub fn split_once_chars(s: &[char], separator: char) -> (r: Option<(&[char], &[char])>)
    ensures
        match r {
            Some((head, tail)) => split_once(s@, separator) == Some((head@, tail@)),
            None => split_once(s@, separator) is None,
        },
{
    let pattern: [char; 1] = [separator];
    assert(pattern@ =~= seq![separator]);
    match find_in(s, &pattern, 0) {
        Some(i) => {
            proof {
                lemma_find_from(s@, seq![separator], 0);
                assert(s@.len() == s.len());
            }
            let head = slice_subrange(s, 0, i);
            let tail = slice_subrange(s, i + 1, s.len());
            assert(head@ =~= s@.take(i as int));
            assert(tail@ =~= s@.skip(i + 1));
            Some((head, tail))
        },
        None => None,
    }
}

/// What stands before the first `separator` in `s`: all of `s` where there is none.
pub fn before_chars(s: &[char], separator: char) -> (r: &[char])
    ensures
        r@ == before(s@, separator),
{
    match split_once_chars(s, separator) {
        Some((head, _)) => head,
        None => s,
    }
}

/// Whether `c` has the Unicode property `White_Space`.
pub fn whitespace(c: char) -> (r: bool)
    ensures
        r == is_whitespace(c),
{
    ('\u{9}' <= c && c <= '\u{d}') || c == '\u{20}' || c == '\u{85}' || c == '\u{a0}' || c
        == '\u{1680}' || ('\u{2000}' <= c && c <= '\u{200a}') || c == '\u{2028}' || c == '\u{2029}'
        || c == '\u{202f}' || c == '\u{205f}' || c == '\u{3000}'
}

/// `s` without its leading whitespace.
pub fn trim_start_chars(s: &[char]) -> (r: &[char])
    ensures
        r@ == trim_start(s@),
{
    let mut i: usize = 0;
    assert(s@.skip(0) =~= s@);
    while i < s.len() && whitespace(s[i])
        invariant
            i <= s@.len(),
            trim_start(s@) == trim_start(s@.skip(i as int)),
        decreases s@.len() - i,
    {
        assert(s@.skip(i as int).skip(1) =~= s@.skip(i + 1));
        i = i + 1;
    }
    let r = slice_subrange(s, i, s.len());
    assert(r@ =~= s@.skip(i as int));
    r
}

/// `s` without its leading and trailing whitespace.
pub fn trim_chars(s: &[char]) -> (r: &[char])
    ensures
        r@ == trim(s@),
{
    let t = trim_start_chars(s);
    let mut n: usize = t.len();
    assert(t@.take(n as int) =~= t@);
    while n > 0 && whitespace(t[n - 1])
        invariant
            n <= t@.len(),
            trim_end(t@) == trim_end(t@.take(n as int)),
        decreases n,
    {
        assert(t@.take(n as int).drop_last() =~= t@.take(n - 1));
        n = n - 1;
    }
    let r = slice_subrange(t, 0, n);
    assert(r@ =~= t@.take(n as int));
    r
}

/// `s` without the trailing occurrences of `c`.
pub fn trim_end_char_chars(s: &[char], c: char) -> (r: &[char])
    ensures
        r@ == trim_end_char(s@, c),
{
    let mut n: usize = s.len();
    assert(s@.take(n as int) =~= s@);
    while n > 0 && s[n - 1] == c
        invariant
            n <= s@.len(),
            trim_end_char(s@, c) == trim_end_char(s@.take(n as int), c),
        decreases n,
    {
        assert(s@.take(n as int).drop_last() =~= s@.take(n - 1));
        n = n - 1;
    }
    let r = slice_subrange(s, 0, n);
    assert(r@ =~= s@.take(n as int));
    r
}

/// The first run of non-whitespace in `s`, and what follows it.
pub fn next_word(s: &[char]) -> (r: Option<(&[char], &[char])>)
    ensures
        match r {
            Some((word, rest)) => words(s@) == seq![word@] + words(rest@),
            None => words(s@).len() == 0,
        },
{
    let t = trim_start_chars(s);
    proof {
        lemma_trim_start_len(s@);
    }
    if t.len() == 0 {
        return None;
    }
    let mut n: usize = 0;
    assert(t@.skip(0) =~= t@);
    while n < t.len() && !whitespace(t[n])
        invariant
            n <= t@.len(),
            word_len(t@) == n + word_len(t@.skip(n as int)),
        decreases t@.len() - n,
    {
        assert(t@.skip(n as int).skip(1) =~= t@.skip(n + 1));
        n = n + 1;
    }
    assert(word_len(t@.skip(n as int)) == 0);
    let word = slice_subrange(t, 0, n);
    let rest = slice_subrange(t, n, t.len());
    assert(word@ =~= t@.take(n as int));
    assert(rest@ =~= t@.skip(n as int));
    Some((word, rest))
}

/// `c` with an ASCII upper-case letter made lower-case.
pub fn lower_char(c: char) -> (r: char)
    ensures
        r == ascii_lower(c),
{
    if 'A' <= c && c <= 'Z' {
        (c as u8 + 32) as char
    } else {
        c
    }
}

/// `s` with its ASCII upper-case letters made lower-case.
pub fn lower_chars(s: &[char]) -> (r: Vec<char>)
    ensures
        r@ == lower(s@),
{
    let mut r: Vec<char> = Vec::new();
    for i in 0..s.len()
        invariant
            r@ == lower(s@.take(i as int)),
    {
        r.push(lower_char(s[i]));
        assert(r@ =~= lower(s@.take(i + 1)));
    }
    assert(s@.take(s@.len() as int) =~= s@);
    r
}

/// Whether `a` and `b` are the same but for the case of ASCII letters.
pub fn same_ignoring_case(a: &[char], b: &[char]) -> (r: bool)
    ensures
        r == eq_ignore_case(a@, b@),
{
    if a.len() != b.len() {
        assert(lower(a@).len() != lower(b@).len());
        return false;
    }
    for i in 0..a.len()
        invariant
            a@.len() == b@.len(),
            forall|j: int| 0 <= j < i ==> ascii_lower(a@[j]) == ascii_lower(#[trigger] b@[j]),
    {
        if lower_char(a[i]) != lower_char(b[i]) {
            assert(lower(a@)[i as int] != lower(b@)[i as int]);
            return false;
        }
    }
    assert(lower(a@) =~= lower(b@));
    true
}

/// A pattern stands at an index where each of its elements is the one that stands there.
pub proof fn law_occurrence<A>(s: Seq<A>, pattern: Seq<A>, i: int)
    ensures
        occurs_at(s, pattern, i) <==> 0 <= i && i + pattern.len() <= s.len() && forall|j: int|
            0 <= j < pattern.len() ==> s[i + j] == #[trigger] pattern[j],
{
    if 0 <= i && i + pattern.len() <= s.len() {
        let there = s.subrange(i, i + pattern.len());
        if there =~= pattern {
            assert forall|j: int| 0 <= j < pattern.len() implies s[i + j] == #[trigger] pattern[j]
                by {
                assert(there[j] == s[i + j]);
            }
        }
    }
}

/// What is found is the first place at which the pattern stands, and nothing is found only where there
/// is no such place.
pub proof fn law_first_occurrence<A>(s: Seq<A>, pattern: Seq<A>, k: int)
    ensures
        find(s, pattern) == Some(k) <==> occurs_at(s, pattern, k) && forall|i: int|
            i < k ==> !occurs_at(s, pattern, i),
        find(s, pattern) is None ==> !occurs_at(s, pattern, k),
{
    lemma_find_from(s, pattern, 0);
    if occurs_at(s, pattern, k) && forall|i: int| i < k ==> !occurs_at(s, pattern, i) {
        lemma_find_from_unique(s, pattern, 0, k);
    }
}

/// A character that does not stand in a text is not found in it.
proof fn lemma_find_char(s: Seq<char>, c: char)
    ensures
        match find(s, seq![c]) {
            Some(k) => 0 <= k < s.len() && s[k] == c && !s.take(k).contains(c),
            None => !s.contains(c),
        },
{
    lemma_find_from(s, seq![c], 0);
    match find(s, seq![c]) {
        Some(k) => {
            law_occurrence(s, seq![c], k);
            assert(seq![c][0] == c);
            assert(s[k + 0] == seq![c][0]);
            assert forall|j: int| 0 <= j < k implies s.take(k)[j] != c by {
                assert(!occurs_at(s, seq![c], j));
                law_occurrence(s, seq![c], j);
            }
        },
        None => {
            assert forall|j: int| 0 <= j < s.len() implies s[j] != c by {
                assert(!occurs_at(s, seq![c], j));
                law_occurrence(s, seq![c], j);
            }
        },
    }
}

/// A text with a separator is split at the first one: what stands before it has none, and the two
/// parts with the separator between them are the text. A text without one is not split.
pub proof fn law_split_once(head: Seq<char>, separator: char, tail: Seq<char>)
    requires
        !head.contains(separator),
    ensures
        split_once(head + seq![separator] + tail, separator) == Some((head, tail)),
        split_once(head, separator) is None,
        before(head + seq![separator] + tail, separator) == head,
        before(head, separator) == head,
{
    let s = head + seq![separator] + tail;
    lemma_find_char(s, separator);
    lemma_find_char(head, separator);
    if let Some(k) = find(head, seq![separator]) {
        assert(head.contains(head[k]));
    }
    let at = head.len() as int;
    assert(s[at] == separator);
    assert(s.contains(separator));
    let k = find(s, seq![separator])->0;
    if k < at {
        assert(s[k] == head[k]);
        assert(head.contains(head[k]));
    }
    if at < k {
        assert(s.take(k)[at] == separator);
        assert(s.take(k).contains(separator));
    }
    assert(s.take(at) =~= head);
    assert(s.skip(at + 1) =~= tail);
}

/// `pieces` with `separator` between them.
pub open spec fn interlaced<A>(pieces: Seq<Seq<A>>, separator: Seq<A>) -> Seq<A>
    decreases pieces.len(),
{
    if pieces.len() == 0 {
        seq![]
    } else if pieces.len() == 1 {
        pieces[0]
    } else {
        pieces[0] + separator + interlaced(pieces.skip(1), separator)
    }
}

/// Pieces with a line break between them, none of which has a carriage return, are what splitting the
/// whole at its line breaks gives.
pub proof fn law_lines_split(pieces: Seq<Seq<char>>)
    requires
        pieces.len() > 0,
        forall|i: int| 0 <= i < pieces.len() ==> !(#[trigger] pieces[i]).contains('\r'),
    ensures
        split(interlaced(pieces, seq!['\r', '\n']), seq!['\r', '\n']) == pieces,
    decreases pieces.len(),
{
    let br = seq!['\r', '\n'];
    let s = interlaced(pieces, br);
    let first = pieces[0];
    let at = first.len() as int;
    lemma_find_from(s, br, 0);
    assert(br[0] == '\r');
    assert forall|j: int| 0 <= j < at implies !occurs_at(s, br, j) by {
        law_occurrence(s, br, j);
        if occurs_at(s, br, j) {
            assert(s[j + 0] == br[0]);
            assert(first.contains(first[j]));
        }
    }
    if pieces.len() == 1 {
        assert forall|j: int| 0 <= j implies !occurs_at(s, br, j) by {
            if j < at {
            } else {
                law_occurrence(s, br, j);
            }
        }
        assert(split(s, br) =~= pieces);
    } else {
        let rest = pieces.skip(1);
        assert forall|i: int| 0 <= i < rest.len() implies !(#[trigger] rest[i]).contains('\r') by {
            assert(rest[i] == pieces[i + 1]);
        }
        law_lines_split(rest);
        assert(s.subrange(at, at + 2) =~= br);
        lemma_find_from_unique(s, br, 0, at);
        assert(s.take(at) =~= first);
        assert(s.skip(at + 2) =~= interlaced(rest, br));
        assert(split(s, br) =~= seq![first] + split(interlaced(rest, br), br));
        assert(seq![first] + rest =~= pieces);
    }
}

/// Whitespace is tabulator, the line breaks, the space and the further characters to which Unicode
/// gives that property, by their code points.
pub proof fn law_whitespace(c: char)
    ensures
        is_whitespace(c) <==> {
            let point = c as u32;
            ||| 9 <= point <= 13
            ||| point == 32
            ||| point == 133
            ||| point == 160
            ||| point == 5760
            ||| 8192 <= point <= 8202
            ||| point == 8232
            ||| point == 8233
            ||| point == 8239
            ||| point == 8287
            ||| point == 12288
        },
{
}

/// Whether all of `s` is whitespace.
pub open spec fn blank(s: Seq<char>) -> bool {
    forall|i: int| 0 <= i < s.len() ==> is_whitespace(#[trigger] s[i])
}

/// Whether `s` neither starts nor ends with whitespace.
pub open spec fn is_trimmed(s: Seq<char>) -> bool {
    s.len() > 0 ==> !is_whitespace(s[0]) && !is_whitespace(s[s.len() - 1])
}

/// Leading whitespace goes.
proof fn lemma_trim_start_blank(lead: Seq<char>, s: Seq<char>)
    requires
        blank(lead),
    ensures
        trim_start(lead + s) == trim_start(s),
    decreases lead.len(),
{
    if lead.len() == 0 {
        assert(lead + s =~= s);
    } else {
        assert((lead + s)[0] == lead[0]);
        assert((lead + s).skip(1) =~= lead.skip(1) + s);
        assert forall|i: int| 0 <= i < lead.skip(1).len() implies is_whitespace(
            #[trigger] lead.skip(1)[i],
        ) by {
            assert(lead.skip(1)[i] == lead[i + 1]);
        }
        lemma_trim_start_blank(lead.skip(1), s);
    }
}

/// Trailing whitespace goes.
proof fn lemma_trim_end_blank(s: Seq<char>, tail: Seq<char>)
    requires
        blank(tail),
    ensures
        trim_end(s + tail) == trim_end(s),
    decreases tail.len(),
{
    if tail.len() == 0 {
        assert(s + tail =~= s);
    } else {
        assert((s + tail).last() == tail[tail.len() - 1]);
        assert((s + tail).drop_last() =~= s + tail.drop_last());
        lemma_trim_end_blank(s, tail.drop_last());
    }
}

/// Trimming takes off the whitespace on both sides, all of it and nothing else.
pub proof fn law_trim(lead: Seq<char>, s: Seq<char>, tail: Seq<char>)
    requires
        blank(lead),
        is_trimmed(s),
        blank(tail),
    ensures
        trim(lead + s + tail) == s,
{
    assert(lead + s + tail =~= lead + (s + tail));
    lemma_trim_start_blank(lead, s + tail);
    if s.len() == 0 {
        assert(s + tail =~= tail + s);
        lemma_trim_start_blank(tail, s);
    } else {
        assert((s + tail)[0] == s[0]);
        lemma_trim_end_blank(s, tail);
    }
}

/// Of a text and dots after it, whatever their number, the text is left, where it does not end with a
/// dot itself; and so for any other character.
pub proof fn law_trim_end_char(s: Seq<char>, c: char, count: nat)
    requires
        s.len() > 0 ==> s[s.len() - 1] != c,
    ensures
        trim_end_char(s + Seq::new(count, |i: int| c), c) == s,
    decreases count,
{
    let all = s + Seq::new(count, |i: int| c);
    if count == 0 {
        assert(all =~= s);
    } else {
        assert(all.drop_last() =~= s + Seq::new((count - 1) as nat, |i: int| c));
        law_trim_end_char(s, c, (count - 1) as nat);
    }
}

/// The length of a word that stands before whitespace, or at the end.
proof fn lemma_word_len_of(word: Seq<char>, rest: Seq<char>)
    requires
        forall|i: int| 0 <= i < word.len() ==> !is_whitespace(#[trigger] word[i]),
        rest.len() > 0 ==> is_whitespace(rest[0]),
    ensures
        word_len(word + rest) == word.len(),
    decreases word.len(),
{
    if word.len() == 0 {
        assert(word + rest =~= rest);
    } else {
        assert((word + rest)[0] == word[0]);
        assert((word + rest).skip(1) =~= word.skip(1) + rest);
        assert forall|i: int| 0 <= i < word.skip(1).len() implies !is_whitespace(
            #[trigger] word.skip(1)[i],
        ) by {
            assert(word.skip(1)[i] == word[i + 1]);
        }
        lemma_word_len_of(word.skip(1), rest);
    }
}

/// A run of characters without whitespace, with whitespace or nothing on either side, is the first
/// word of a text; the words of what follows come after it. Whitespace alone has no words.
pub proof fn law_words(lead: Seq<char>, word: Seq<char>, rest: Seq<char>)
    requires
        blank(lead),
        word.len() > 0,
        forall|i: int| 0 <= i < word.len() ==> !is_whitespace(#[trigger] word[i]),
        rest.len() > 0 ==> is_whitespace(rest[0]),
    ensures
        words(lead + word + rest) == seq![word] + words(rest),
        words(lead).len() == 0,
{
    assert(lead + word + rest =~= lead + (word + rest));
    lemma_trim_start_blank(lead, word + rest);
    assert((word + rest)[0] == word[0]);
    let t = word + rest;
    assert(trim_start(lead + word + rest) == t);
    lemma_word_len_of(word, rest);
    assert(t.take(word.len() as int) =~= word);
    assert(t.skip(word.len() as int) =~= rest);
    let none = Seq::<char>::empty();
    lemma_trim_start_blank(lead, none);
    assert(lead + none =~= lead);
}

/// Two texts are the same but for case where they have the same length, and where they differ, the one
/// has the upper-case and the other the lower-case form of an ASCII letter.
pub proof fn law_case_is_ignored(a: Seq<char>, b: Seq<char>)
    ensures
        eq_ignore_case(a, b) <==> a.len() == b.len() && forall|i: int|
            #![trigger a[i]]
            0 <= i < a.len() ==> {
                let x = a[i] as int;
                let y = b[i] as int;
                ||| x == y
                ||| 65 <= x <= 90 && y == x + 32
                ||| 65 <= y <= 90 && x == y + 32
            },
{
    if eq_ignore_case(a, b) {
        assert(lower(a).len() == lower(b).len());
        assert forall|i: int| 0 <= i < a.len() implies ({
            let x = #[trigger] a[i] as int;
            let y = b[i] as int;
            ||| x == y
            ||| 65 <= x <= 90 && y == x + 32
            ||| 65 <= y <= 90 && x == y + 32
        }) by {
            assert(lower(a)[i] == lower(b)[i]);
            assert(lower(a)[i] == ascii_lower(a[i]));
            assert(lower(b)[i] == ascii_lower(b[i]));
        }
    } else if a.len() == b.len() {
        assert(!(lower(a) =~= lower(b)));
        let i = choose|i: int| 0 <= i < a.len() && lower(a)[i] != lower(b)[i];
        assert(ascii_lower(a[i]) != ascii_lower(b[i]));
        assert(a[i] as int != b[i] as int);
    }
}

/// A text in lower case is the text with its ASCII upper-case letters made lower-case, character by
/// character, by their code points.
pub proof fn law_lower(s: Seq<char>, i: int)
    ensures
        lower(s).len() == s.len(),
        0 <= i < s.len() ==> lower(s)[i] as int == (if 65 <= s[i] as int <= 90 {
            s[i] as int + 32
        } else {
            s[i] as int
        }),
{
    if 0 <= i < s.len() {
        assert(lower(s)[i] == ascii_lower(s[i]));
    }
}

} // verus!
