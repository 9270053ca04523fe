//! IPv4 addresses and socket addresses as plain values, with their
//! dotted-decimal text form.
use vstd::prelude::*;

use crate::text::{
    all_digits, decimal_chars, digits_value, is_digit, lemma_decimal_chars, parse_unsigned,
    push_decimal, spec_parse_unsigned, unsigned_digits,
};

verus! {

/// An IPv4 address, held as its four octets (most significant first).
#[derive(Clone, Copy, Debug, PartialEq, Eq, Hash, Structural)]
pub struct Ipv4Addr {
    pub a: u8,
    pub b: u8,
    pub c: u8,
    pub d: u8,
}

/// An IPv4 socket address: an address and a port.
#[derive(Clone, Copy, Debug, PartialEq, Eq, Hash, Structural)]
pub struct SocketAddrV4 {
    pub ip: Ipv4Addr,
    pub port: u16,
}

impl Ipv4Addr {
    /// The address `a.b.c.d`.
    pub fn new(a: u8, b: u8, c: u8, d: u8) -> (res: Ipv4Addr)
        ensures
            res == (Ipv4Addr { a, b, c, d }),
    {
        Ipv4Addr { a, b, c, d }
    }

    /// The four octets, most significant first.
    pub fn octets(&self) -> (res: [u8; 4])
        ensures
            res@ == seq![self.a, self.b, self.c, self.d],
    {
        [self.a, self.b, self.c, self.d]
    }

    /// The loopback address `127.0.0.1`.
    pub open spec fn spec_localhost() -> Ipv4Addr {
        Ipv4Addr { a: 127, b: 0, c: 0, d: 1 }
    }

    /// The dotted-decimal form of the address, such as `127.0.0.1`.
    pub fn to_string(&self) -> (res: String)
        ensures
            res@ == ipv4_chars(*self),
    {
        let mut s = String::new();
        push_ipv4(&mut s, *self);
        assert(s@ =~= ipv4_chars(*self));
        s
    }
}

impl SocketAddrV4 {
    /// The socket address of port `port` at `ip`.
    pub fn new(ip: Ipv4Addr, port: u16) -> (res: SocketAddrV4)
        ensures
            res == (SocketAddrV4 { ip, port }),
    {
        SocketAddrV4 { ip, port }
    }

    /// The address.
    pub fn ip(&self) -> (res: Ipv4Addr)
        ensures
            res == self.ip,
    {
        self.ip
    }

    /// The port.
    pub fn port(&self) -> (res: u16)
        ensures
            res == self.port,
    {
        self.port
    }
}

/// The position of the first `c` in `s`, if there is one.
pub open spec fn find_char(s: Seq<char>, c: char) -> Option<int>
    decreases s.len(),
{
    if s.len() == 0 {
        None
    } else if s[0] == c {
        Some(0)
    } else {
        match find_char(s.drop_first(), c) {
            Some(i) => Some(i + 1),
            None => None,
        }
    }
}

/// `s` cut at its first `c`: what stands before it and what follows it.
pub open spec fn split_once(s: Seq<char>, c: char) -> Option<(Seq<char>, Seq<char>)> {
    match find_char(s, c) {
        Some(i) => Some((s.take(i), s.skip(i + 1))),
        None => None,
    }
}

/// One field of a dotted-decimal address: one to three ASCII digits, no
/// leading zero unless the field is `0`, and a value of at most 255.
pub open spec fn spec_parse_octet(s: Seq<char>) -> Option<u8> {
    if 1 <= s.len() <= 3 && all_digits(s) && !(s.len() > 1 && s[0] == '0') && digits_value(s)
        <= 255 {
        Some(digits_value(s) as u8)
    } else {
        None
    }
}

/// What reading `s` as a dotted-decimal IPv4 address gives: four fields
/// separated by `.`, each of them an octet, and nothing else.
pub open spec fn spec_parse_ipv4(s: Seq<char>) -> Option<Ipv4Addr> {
    match split_once(s, '.') {
        Some((f1, r1)) => match split_once(r1, '.') {
            Some((f2, r2)) => match split_once(r2, '.') {
                Some((f3, f4)) => match (
                    spec_parse_octet(f1),
                    spec_parse_octet(f2),
                    spec_parse_octet(f3),
                    spec_parse_octet(f4),
                ) {
                    (Some(a), Some(b), Some(c), Some(d)) => Some(Ipv4Addr { a, b, c, d }),
                    _ => None,
                },
                None => None,
            },
            None => None,
        },
        None => None,
    }
}

/// The dotted-decimal form of `ip`.
pub open spec fn ipv4_chars(ip: Ipv4Addr) -> Seq<char> {
    decimal_chars(ip.a as nat) + seq!['.'] + decimal_chars(ip.b as nat) + seq!['.']
        + decimal_chars(ip.c as nat) + seq!['.'] + decimal_chars(ip.d as nat)
}

/// `find_char` gives the first position of `c`, and none when `c` does not occur.
pub proof fn lemma_find_char(s: Seq<char>, c: char)
    ensures
        match find_char(s, c) {
            Some(i) => 0 <= i < s.len() && s[i] == c && forall|j: int| 0 <= j < i ==> s[j] != c,
            None => forall|j: int| 0 <= j < s.len() ==> s[j] != c,
        },
    decreases s.len(),
{
    if s.len() > 0 && s[0] != c {
        lemma_find_char(s.drop_first(), c);
        match find_char(s.drop_first(), c) {
            Some(i) => {
                assert forall|j: int| 0 <= j < i + 1 implies s[j] != c by {
                    if j > 0 {
                        assert(s[j] == s.drop_first()[j - 1]);
                    }
                }
            },
            None => {
                assert forall|j: int| 0 <= j < s.len() implies s[j] != c by {
                    if j > 0 {
                        assert(s[j] == s.drop_first()[j - 1]);
                    }
                }
            },
        }
    }
}

/// The first `c` of `s` stands at `i`.
pub proof fn lemma_find_char_at(s: Seq<char>, c: char, i: int)
    requires
        0 <= i < s.len(),
        s[i] == c,
        forall|j: int| 0 <= j < i ==> s[j] != c,
    ensures
        find_char(s, c) == Some(i),
{
    lemma_find_char(s, c);
}

/// The position of the first `c` in `s`.
fn find_char_exec(s: &[char], c: char) -> (res: Option<usize>)
    ensures
        match res {
            Some(i) => find_char(s@, c) == Some(i as int),
            None => find_char(s@, c) is None,
        },
{
    let mut i: usize = 0;
    while i < s.len()
        invariant
            0 <= i <= s@.len(),
            forall|j: int| 0 <= j < i ==> s@[j] != c,
        decreases s@.len() - i,
    {
        if s[i] == c {
            proof {
                lemma_find_char_at(s@, c, i as int);
            }
            return Some(i);
        }
        i = i + 1;
    }
    proof {
        lemma_find_char(s@, c);
    }
    None
}

/// A copy of `s[lo..hi]`.
pub fn sub_chars(s: &[char], lo: usize, hi: usize) -> (res: Vec<char>)
    requires
        lo <= hi <= s@.len(),
    ensures
        res@ == s@.subrange(lo as int, hi as int),
{
    let mut v: Vec<char> = Vec::new();
    let mut i = lo;
    while i < hi
        invariant
            lo <= i <= hi,
            hi <= s@.len(),
            v@ == s@.subrange(lo as int, i as int),
        decreases hi - i,
    {
        v.push(s[i]);
        assert(s@.subrange(lo as int, i + 1) =~= s@.subrange(lo as int, i as int).push(s@[i as int]));
        i = i + 1;
    }
    v
}

/// `s` cut at its first `c`.
pub fn split_once_exec(s: &[char], c: char) -> (res: Option<(Vec<char>, Vec<char>)>)
    ensures
        match res {
            Some((a, b)) => split_once(s@, c) == Some((a@, b@)),
            None => split_once(s@, c) is None,
        },
{
    let n = s.len();
    match find_char_exec(s, c) {
        Some(i) => {
            proof {
                lemma_find_char(s@, c);
                assert(find_char(s@, c) == Some(i as int));
                assert((i as int) < s@.len());
            }
            let a = sub_chars(s, 0, i);
            assert(i < n);
            let b = sub_chars(s, i + 1, n);
            assert(a@ =~= s@.take(i as int));
            assert(b@ =~= s@.skip(i + 1));
            Some((a, b))
        },
        None => None,
    }
}

/// Reads one field of a dotted-decimal address.
fn parse_octet(s: &[char]) -> (res: Option<u8>)
    ensures
        res == spec_parse_octet(s@),
{
    let len = s.len();
    if len < 1 || len > 3 {
        return None;
    }
    if !('0' <= s[0] && s[0] <= '9') {
        assert(!is_digit(s@[0]));
        return None;
    }
    if len > 1 && s[0] == '0' {
        return None;
    }
    assert(unsigned_digits(s@) == s@);
    match parse_unsigned(s, 255) {
        Some(v) => Some(v as u8),
        None => None,
    }
}

/// Reads `s` as a dotted-decimal IPv4 address, such as `192.168.0.1`.
pub fn parse_ipv4(s: &[char]) -> (res: Option<Ipv4Addr>)
    ensures
        res == spec_parse_ipv4(s@),
{
    let (f1, r1) = match split_once_exec(s, '.') {
        Some(p) => p,
        None => return None,
    };
    let (f2, r2) = match split_once_exec(r1.as_slice(), '.') {
        Some(p) => p,
        None => return None,
    };
    let (f3, f4) = match split_once_exec(r2.as_slice(), '.') {
        Some(p) => p,
        None => return None,
    };
    let a = match parse_octet(f1.as_slice()) {
        Some(v) => v,
        None => return None,
    };
    let b = match parse_octet(f2.as_slice()) {
        Some(v) => v,
        None => return None,
    };
    let c = match parse_octet(f3.as_slice()) {
        Some(v) => v,
        None => return None,
    };
    let d = match parse_octet(f4.as_slice()) {
        Some(v) => v,
        None => return None,
    };
    Some(Ipv4Addr { a, b, c, d })
}

/// Appends the dotted-decimal form of `ip` to `out`.
pub fn push_ipv4(out: &mut String, ip: Ipv4Addr)
    ensures
        final(out)@ == old(out)@ + ipv4_chars(ip),
{
    proof {
        reveal_strlit(".");
    }
    push_decimal(out, ip.a as u128);
    out.append(".");
    push_decimal(out, ip.b as u128);
    out.append(".");
    push_decimal(out, ip.c as u128);
    out.append(".");
    push_decimal(out, ip.d as u128);
    assert(final(out)@ =~= old(out)@ + ipv4_chars(ip));
}

/// The numeral of an octet is read back as that octet.
pub proof fn lemma_octet_roundtrip(x: u8)
    ensures
        spec_parse_octet(decimal_chars(x as nat)) == Some(x),
{
    lemma_decimal_chars(x as nat);
}

/// Cutting `d + c + rest` at its first `c`, where `d` holds no `c`, gives
/// `d` and `rest`.
pub proof fn lemma_split_once_concat(d: Seq<char>, c: char, rest: Seq<char>)
    requires
        forall|j: int| 0 <= j < d.len() ==> d[j] != c,
    ensures
        split_once(d + seq![c] + rest, c) == Some((d, rest)),
{
    let s = d + seq![c] + rest;
    assert forall|j: int| 0 <= j < d.len() implies s[j] != c by {
        assert(s[j] == d[j]);
    }
    lemma_find_char_at(s, c, d.len() as int);
    assert(s.take(d.len() as int) =~= d);
    assert(s.skip(d.len() as int + 1) =~= rest);
}

/// When `s` is cut at its first `c`, it is the part before, `c`, and the
/// part after, and the part before holds no `c`.
pub proof fn lemma_split_once_parts(s: Seq<char>, c: char)
    ensures
        match split_once(s, c) {
            Some((a, b)) => s == a + seq![c] + b && forall|j: int| 0 <= j < a.len() ==> a[j] != c,
            None => forall|j: int| 0 <= j < s.len() ==> s[j] != c,
        },
{
    lemma_find_char(s, c);
    if let Some(i) = find_char(s, c) {
        assert(s =~= s.take(i) + seq![c] + s.skip(i + 1));
    }
}

/// Cutting `d + "." + rest` at its first `.`, where `d` holds only digits,
/// gives `d` and `rest`.
pub proof fn lemma_split_after_digits(d: Seq<char>, rest: Seq<char>)
    requires
        all_digits(d),
    ensures
        split_once(d + seq!['.'] + rest, '.') == Some((d, rest)),
{
    assert forall|j: int| 0 <= j < d.len() implies d[j] != '.' by {
        assert(is_digit(d[j]));
    }
    lemma_split_once_concat(d, '.', rest);
}

/// The dotted-decimal form of an address holds digits and dots only.
pub proof fn lemma_ipv4_chars_digits_and_dots(ip: Ipv4Addr)
    ensures
        forall|j: int|
            0 <= j < ipv4_chars(ip).len() ==> is_digit(#[trigger] ipv4_chars(ip)[j])
                || ipv4_chars(ip)[j] == '.',
{
    lemma_decimal_chars(ip.a as nat);
    lemma_decimal_chars(ip.b as nat);
    lemma_decimal_chars(ip.c as nat);
    lemma_decimal_chars(ip.d as nat);
    let da = decimal_chars(ip.a as nat);
    let db = decimal_chars(ip.b as nat);
    let dc = decimal_chars(ip.c as nat);
    let dd = decimal_chars(ip.d as nat);
    let s = ipv4_chars(ip);
    assert forall|j: int| 0 <= j < s.len() implies is_digit(#[trigger] s[j]) || s[j] == '.' by {
        let a = da.len() as int;
        let b = a + 1 + db.len();
        let c = b + 1 + dc.len();
        if j < a {
            assert(s[j] == da[j]);
        } else if j == a {
        } else if j < b {
            assert(s[j] == db[j - a - 1]);
        } else if j == b {
        } else if j < c {
            assert(s[j] == dc[j - b - 1]);
        } else if j == c {
        } else {
            assert(s[j] == dd[j - c - 1]);
        }
    }
}

/// Writing an address in dotted-decimal form and reading it back gives the
/// same address.
pub proof fn lemma_ipv4_roundtrip(ip: Ipv4Addr)
    ensures
        spec_parse_ipv4(ipv4_chars(ip)) == Some(ip),
{
    let da = decimal_chars(ip.a as nat);
    let db = decimal_chars(ip.b as nat);
    let dc = decimal_chars(ip.c as nat);
    let dd = decimal_chars(ip.d as nat);
    lemma_decimal_chars(ip.a as nat);
    lemma_decimal_chars(ip.b as nat);
    lemma_decimal_chars(ip.c as nat);
    let r2 = dc + seq!['.'] + dd;
    let r1 = db + seq!['.'] + r2;
    assert(ipv4_chars(ip) =~= da + seq!['.'] + r1);
    lemma_split_after_digits(da, r1);
    lemma_split_after_digits(db, r2);
    lemma_split_after_digits(dc, dd);
    lemma_octet_roundtrip(ip.a);
    lemma_octet_roundtrip(ip.b);
    lemma_octet_roundtrip(ip.c);
    lemma_octet_roundtrip(ip.d);
}

} // verus!
