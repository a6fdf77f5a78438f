//! IPv4 addresses.

use vstd::prelude::*;

use crate::number::decimal;
use crate::text::{find, lemma_find_from, lemma_find_from_unique, occurs_at, split_once, split_once_chars};

verus! {

/// An IPv4 address.
#[derive(Debug, Clone, Copy, PartialEq, Eq, Structural)]
pub struct Ipv4Addr {
    /// The first octet.
    pub a: u8,
    /// The second octet.
    pub b: u8,
    /// The third octet.
    pub c: u8,
    /// The fourth octet.
    pub d: u8,
}

impl Ipv4Addr {
    /// The four octets, the most significant first.
    pub open spec fn parts(self) -> (u8, u8, u8, u8) {
        (self.a, self.b, self.c, self.d)
    }

    /// The address in dotted decimal notation.
    pub open spec fn text(self) -> Seq<char> {
        let (a, b, c, d) = self.parts();
        dotted(a, dotted(b, dotted(c, decimal(d as nat))))
    }

    /// The address `a.b.c.d`.
    pub fn new(a: u8, b: u8, c: u8, d: u8) -> (r: Ipv4Addr)
        ensures
            r.parts() == (a, b, c, d),
    {
        Ipv4Addr { a, b, c, d }
    }

    /// The four octets, the most significant first.
    pub fn octets(&self) -> (r: [u8; 4])
        ensures
            r@ == seq![self.parts().0, self.parts().1, self.parts().2, self.parts().3],
    {
        let r: [u8; 4] = [self.a, self.b, self.c, self.d];
        assert(r@ =~= seq![self.parts().0, self.parts().1, self.parts().2, self.parts().3]);
        r
    }
}

/// The octet `octet`, a dot and `rest`.
pub open spec fn dotted(octet: u8, rest: Seq<char>) -> Seq<char> {
    decimal(octet as nat) + seq!['.'] + rest
}

/// The address that `s` writes in dotted decimal notation: four octets without leading zeros.
pub open spec fn ipv4(s: Seq<char>) -> Option<Ipv4Addr> {
    if exists|ip: Ipv4Addr| #[trigger] ip.text() == s {
        Some(choose|ip: Ipv4Addr| #[trigger] ip.text() == s)
    } else {
        None
    }
}

/// The digits of an octet: one to three of them, and no dot.
proof fn lemma_octet_digits(v: u8)
    ensures
        v < 10 ==> decimal(v as nat) =~= seq![(48 + v) as char],
        10 <= v < 100 ==> decimal(v as nat) =~= seq![(48 + v / 10) as char, (48 + v % 10) as char],
        100 <= v ==> decimal(v as nat) =~= seq![
            (48 + v / 100) as char,
            (48 + v / 10 % 10) as char,
            (48 + v % 10) as char,
        ],
{
    reveal_with_fuel(decimal, 3);
}

/// Different octets have different digits.
#[verifier::rlimit(40)]
#[verifier::spinoff_prover]
proof fn lemma_octet_injective(v: u8, w: u8)
    ensures
        decimal(v as nat) == decimal(w as nat) ==> v == w,
{
    lemma_octet_digits(v);
    lemma_octet_digits(w);
    if decimal(v as nat) == decimal(w as nat) {
        let x = decimal(v as nat);
        let y = decimal(w as nat);
        assert(x.len() == y.len());
        assert(x[0] == y[0]);
        assert(x.len() > 1 ==> x[1] == y[1]);
        assert(x.len() > 2 ==> x[2] == y[2]);
    }
}

/// The first dot ends the first octet.
proof fn lemma_dotted_splits(v: u8, rest: Seq<char>)
    ensures
        split_once(dotted(v, rest), '.') == Some((decimal(v as nat), rest)),
{
    lemma_octet_digits(v);
    let digits = decimal(v as nat);
    let s = dotted(v, rest);
    let k = digits.len() as int;
    assert(s.subrange(k, k + 1) =~= seq!['.']);
    assert forall|j: int| 0 <= j < k implies !occurs_at(s, seq!['.'], j) by {
        assert(s.subrange(j, j + 1)[0] == digits[j]);
    }
    lemma_find_from_unique(s, seq!['.'], 0, k);
    assert(s.take(k) =~= digits);
    assert(s.skip(k + 1) =~= rest);
}

/// No two addresses are written alike.
pub proof fn law_text_injective(x: Ipv4Addr, y: Ipv4Addr)
    ensures
        x.text() == y.text() ==> x == y,
{
    let (a, b, c, d) = x.parts();
    let (e, f, g, h) = y.parts();
    lemma_dotted_splits(a, dotted(b, dotted(c, decimal(d as nat))));
    lemma_dotted_splits(e, dotted(f, dotted(g, decimal(h as nat))));
    lemma_dotted_splits(b, dotted(c, decimal(d as nat)));
    lemma_dotted_splits(f, dotted(g, decimal(h as nat)));
    lemma_dotted_splits(c, decimal(d as nat));
    lemma_dotted_splits(g, decimal(h as nat));
    lemma_octet_injective(a, e);
    lemma_octet_injective(b, f);
    lemma_octet_injective(c, g);
    lemma_octet_injective(d, h);
}

/// What an address is written as reads back as that address.
pub proof fn law_text_reads_back(ip: Ipv4Addr)
    ensures
        ipv4(ip.text()) == Some(ip),
{
    let found = choose|x: Ipv4Addr| #[trigger] x.text() == ip.text();
    law_text_injective(found, ip);
}

/// The octet that `digits` write.
fn parse_octet(digits: &[char]) -> (r: Option<u8>)
    ensures
        match r {
            Some(v) => digits@ == decimal(v as nat),
            None => forall|v: u8| digits@ != #[trigger] decimal(v as nat),
        },
{
    if digits.len() == 0 || digits.len() > 3 {
        assert forall|v: u8| digits@ != #[trigger] decimal(v as nat) by {
            lemma_octet_digits(v);
        }
        return None;
    }
    let mut value: u32 = 0;
    let ghost limits: Seq<int> = seq![0, 9, 99, 999];
    for i in 0..digits.len()
        invariant
            digits@.len() <= 3,
            limits == seq![0int, 9, 99, 999],
            value <= limits[i as int],
            forall|j: int| 0 <= j < i ==> '0' <= #[trigger] digits@[j] <= '9',
            i == 1 ==> value == digits@[0] as u32 - 48,
            i == 2 ==> value == (digits@[0] as u32 - 48) * 10 + (digits@[1] as u32 - 48),
            i == 3 ==> value == (digits@[0] as u32 - 48) * 100 + (digits@[1] as u32 - 48) * 10 + (
            digits@[2] as u32 - 48),
    {
        let c: char = digits[i];
        if c < '0' || '9' < c {
            assert forall|v: u8| digits@ != #[trigger] decimal(v as nat) by {
                lemma_octet_digits(v);
                if digits@ == decimal(v as nat) {
                    assert(decimal(v as nat)[i as int] == c);
                }
            }
            return None;
        }
        value = value * 10 + (c as u32 - 48);
    }
    if value > 255 || (digits.len() > 1 && digits[0] == '0') {
        assert forall|v: u8| digits@ != #[trigger] decimal(v as nat) by {
            lemma_octet_digits(v);
            if digits@ == decimal(v as nat) {
                assert(decimal(v as nat)[0] == digits@[0]);
                assert(digits@.len() > 1 ==> decimal(v as nat)[1] == digits@[1]);
                assert(digits@.len() > 2 ==> decimal(v as nat)[2] == digits@[2]);
            }
        }
        return None;
    }
    let v: u8 = value as u8;
    proof {
        lemma_octet_digits(v);
        assert(digits@ =~= decimal(v as nat));
    }
    Some(v)
}

/// The octet before the first dot of `s`, and what follows the dot.
fn parse_dotted(s: &[char]) -> (r: Option<(u8, &[char])>)
    ensures
        match r {
            Some((v, rest)) => s@ == dotted(v, rest@),
            None => forall|v: u8, rest: Seq<char>| s@ != #[trigger] dotted(v, rest),
        },
{
    match split_once_chars(s, '.') {
        None => {
            assert forall|v: u8, rest: Seq<char>| s@ != #[trigger] dotted(v, rest) by {
                lemma_dotted_splits(v, rest);
            }
            None
        },
        Some((head, rest)) => match parse_octet(head) {
            None => {
                assert forall|v: u8, tail: Seq<char>| s@ != #[trigger] dotted(v, tail) by {
                    lemma_dotted_splits(v, tail);
                }
                None
            },
            Some(v) => {
                proof {
                    lemma_find_from(s@, seq!['.'], 0);
                    let k = find(s@, seq!['.']).unwrap();
                    assert(s@.subrange(k, k + 1)[0] == '.');
                    assert(s@ =~= dotted(v, rest@));
                }
                Some((v, rest))
            },
        },
    }
}

/// The address that `s` writes in dotted decimal notation.
pub fn parse_ipv4(s: &[char]) -> (r: Option<Ipv4Addr>)
    ensures
        r == ipv4(s@),
{
    match parse_all(s) {
        Some(ip) => {
            proof {
                law_text_reads_back(ip);
            }
            Some(ip)
        },
        None => None,
    }
}

/// The address that `s` writes, told by its text.
fn parse_all(s: &[char]) -> (r: Option<Ipv4Addr>)
    ensures
        match r {
            Some(ip) => s@ == ip.text(),
            None => forall|ip: Ipv4Addr| s@ != #[trigger] ip.text(),
        },
{
    if let Some((a, rest)) = parse_dotted(s) {
        let ghost after_a = rest@;
        if let Some((b, rest)) = parse_dotted(rest) {
            let ghost after_b = rest@;
            if let Some((c, rest)) = parse_dotted(rest) {
                let ghost after_c = rest@;
                if let Some(d) = parse_octet(rest) {
                    return Some(Ipv4Addr::new(a, b, c, d));
                }
                assert forall|ip: Ipv4Addr| s@ != #[trigger] ip.text() by {
                    lemma_unread(s@, a, after_a, b, after_b, c, after_c, ip);
                }
                return None;
            }
            assert forall|ip: Ipv4Addr| s@ != #[trigger] ip.text() by {
                let (e, f, g, h) = ip.parts();
                lemma_dotted_splits(a, after_a);
                lemma_dotted_splits(b, after_b);
                lemma_dotted_splits(e, dotted(f, dotted(g, decimal(h as nat))));
                lemma_dotted_splits(f, dotted(g, decimal(h as nat)));
            }
            return None;
        }
        assert forall|ip: Ipv4Addr| s@ != #[trigger] ip.text() by {
            let (e, f, g, h) = ip.parts();
            lemma_dotted_splits(a, after_a);
            lemma_dotted_splits(e, dotted(f, dotted(g, decimal(h as nat))));
        }
        return None;
    }
    None
}

/// Where the last octet does not read, `s` is no address.
proof fn lemma_unread(
    s: Seq<char>,
    a: u8,
    after_a: Seq<char>,
    b: u8,
    after_b: Seq<char>,
    c: u8,
    after_c: Seq<char>,
    ip: Ipv4Addr,
)
    requires
        s == dotted(a, after_a),
        after_a == dotted(b, after_b),
        after_b == dotted(c, after_c),
        forall|v: u8| after_c != #[trigger] decimal(v as nat),
    ensures
        s != ip.text(),
{
    let (e, f, g, h) = ip.parts();
    lemma_dotted_splits(a, after_a);
    lemma_dotted_splits(b, after_b);
    lemma_dotted_splits(c, after_c);
    lemma_dotted_splits(e, dotted(f, dotted(g, decimal(h as nat))));
    lemma_dotted_splits(f, dotted(g, decimal(h as nat)));
    lemma_dotted_splits(g, decimal(h as nat));
}

/// An address is written as its four octets in decimal notation, in their order, with a dot between one
/// and the next.
pub proof fn law_address_is_dotted(ip: Ipv4Addr)
    ensures
        ip.parts() == (ip.a, ip.b, ip.c, ip.d),
        ip.text() == decimal(ip.a as nat) + seq!['.'] + decimal(ip.b as nat) + seq!['.'] + decimal(
            ip.c as nat,
        ) + seq!['.'] + decimal(ip.d as nat),
{
    assert(ip.text() =~= decimal(ip.a as nat) + seq!['.'] + decimal(ip.b as nat) + seq!['.']
        + decimal(ip.c as nat) + seq!['.'] + decimal(ip.d as nat));
}

/// A text is read as an address exactly if it is what that address is written as.
pub proof fn law_only_addresses_are_read(s: Seq<char>, ip: Ipv4Addr)
    ensures
        ipv4(s) == Some(ip) <==> s == ip.text(),
{
    if s == ip.text() {
        law_text_reads_back(ip);
    }
}

} // verus!
