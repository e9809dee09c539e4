//! An IPv4 address as four octets, read from and written as dotted decimal.

use vstd::prelude::*;
use crate::decimal::{
    decimal_chars, is_digit, lemma_scan_to_decimal, lemma_to_decimal_shape, scan_chars, scan_digits,
    to_decimal,
};
use crate::text::{
    chars_of, is_whitespace, lemma_split_join, lemma_split_single, split, split_chars, string_of,
};

verus! {

/// An IPv4 address, held as its four octets in network order.
#[derive(Clone, Copy, Debug, PartialEq, Eq, Structural)]
pub struct Ipv4Addr {
    pub a: u8,
    pub b: u8,
    pub c: u8,
    pub d: u8,
}

/// Whether `t` is one octet of a dotted-decimal address as `Ipv4Addr`'s
/// parser accepts it: one to three digits, no leading zero unless the
/// octet is a lone `0`, value at most 255.
pub open spec fn valid_octet(t: Seq<char>) -> bool {
    &&& 1 <= t.len() <= 3
    &&& (t.len() == 1 || t[0] != '0')
    &&& scan_digits(t, 255) is Ok
}

/// The value of an octet text that `valid_octet` accepts.
pub open spec fn octet_value(t: Seq<char>) -> u8 {
    scan_digits(t, 255)->Ok_0 as u8
}

/// The address that `s` writes in dotted decimal (`a.b.c.d`), if it is one.
pub open spec fn parse_ipv4(s: Seq<char>) -> Option<Ipv4Addr> {
    let p = split(s, '.');
    if p.len() == 4 && valid_octet(p[0]) && valid_octet(p[1]) && valid_octet(p[2])
        && valid_octet(p[3]) {
        Some(
            Ipv4Addr {
                a: octet_value(p[0]),
                b: octet_value(p[1]),
                c: octet_value(p[2]),
                d: octet_value(p[3]),
            },
        )
    } else {
        None
    }
}

/// The dotted-decimal text of `ip`, as `Ipv4Addr`'s `Display` writes it.
pub open spec fn ipv4_text(ip: Ipv4Addr) -> Seq<char> {
    to_decimal(ip.a as nat) + seq!['.'] + to_decimal(ip.b as nat) + seq!['.'] + to_decimal(
        ip.c as nat,
    ) + seq!['.'] + to_decimal(ip.d as nat)
}

impl Ipv4Addr {
    /// The octets of the address, first to last.
    pub open spec fn octet_seq(self) -> Seq<u8> {
        seq![self.a, self.b, self.c, self.d]
    }

    /// Builds the address `a.b.c.d`.
    pub fn new(a: u8, b: u8, c: u8, d: u8) -> (ip: Ipv4Addr)
        ensures
            ip == (Ipv4Addr { a, b, c, d }),
    {
        Ipv4Addr { a, b, c, d }
    }

    /// The four octets, first to last.
    pub fn octets(&self) -> (o: [u8; 4])
        ensures
            o@ == self.octet_seq(),
    {
        [self.a, self.b, self.c, self.d]
    }

    /// Whether the address lies in the loopback range `127.0.0.0/8`.
    pub fn is_loopback(&self) -> (r: bool)
        ensures
            r == (self.a == 127),
    {
        self.a == 127
    }

    /// The dotted-decimal text of the address, such as `127.0.0.1`.
    pub fn to_chars(&self) -> (v: Vec<char>)
        ensures
            v@ == ipv4_text(*self),
    {
        let mut v = decimal_chars(self.a as u128);
        v.push('.');
        let mut t = decimal_chars(self.b as u128);
        v.append(&mut t);
        v.push('.');
        let mut t = decimal_chars(self.c as u128);
        v.append(&mut t);
        v.push('.');
        let mut t = decimal_chars(self.d as u128);
        v.append(&mut t);
        v
    }

    /// The dotted-decimal text of the address, such as `127.0.0.1`.
    pub fn to_string(&self) -> (s: String)
        ensures
            s@ == ipv4_text(*self),
    {
        string_of(&self.to_chars())
    }

    /// Reads a dotted-decimal address, as `str::parse::<Ipv4Addr>` does.
    pub fn parse(s: &str) -> (r: Option<Ipv4Addr>)
        ensures
            r == parse_ipv4(s@),
    {
        let v = chars_of(s);
        parse_ipv4_chars(&v)
    }
}

/// Reads one octet of a dotted-decimal address.
pub fn parse_octet(t: &Vec<char>) -> (r: Option<u8>)
    ensures
        r == (if valid_octet(t@) {
            Some(octet_value(t@))
        } else {
            None::<u8>
        }),
{
    if t.len() < 1 || t.len() > 3 {
        return None;
    }
    if t.len() > 1 && t[0] == '0' {
        return None;
    }
    assert(t@.subrange(0, t@.len() as int) =~= t@);
    match scan_chars(t, 0, 255) {
        Ok(v) => Some(v as u8),
        Err(_) => None,
    }
}

/// Reads a dotted-decimal address from its characters.
pub fn parse_ipv4_chars(s: &Vec<char>) -> (r: Option<Ipv4Addr>)
    ensures
        r == parse_ipv4(s@),
{
    let pieces = split_chars(s, '.');
    if pieces.len() != 4 {
        return None;
    }
    let a = parse_octet(&pieces[0]);
    let b = parse_octet(&pieces[1]);
    let c = parse_octet(&pieces[2]);
    let d = parse_octet(&pieces[3]);
    match (a, b, c, d) {
        (Some(a), Some(b), Some(c), Some(d)) => Some(Ipv4Addr { a, b, c, d }),
        _ => None,
    }
}

proof fn lemma_octet_roundtrip(n: u8)
    ensures
        valid_octet(to_decimal(n as nat)),
        octet_value(to_decimal(n as nat)) == n,
        !to_decimal(n as nat).contains('.'),
        !to_decimal(n as nat).contains(' '),
{
    lemma_to_decimal_shape(n as nat);
    lemma_scan_to_decimal(n as nat, 255);
    let t = to_decimal(n as nat);
    assert(!t.contains('.')) by {
        if t.contains('.') {
            let k = choose|k: int| 0 <= k < t.len() && t[k] == '.';
            assert(is_digit(t[k]));
        }
    }
    assert(!t.contains(' ')) by {
        if t.contains(' ') {
            let k = choose|k: int| 0 <= k < t.len() && t[k] == ' ';
            assert(is_digit(t[k]));
        }
    }
}

/// Reading back the dotted-decimal text of an address gives the address.
pub proof fn lemma_ipv4_roundtrip(ip: Ipv4Addr)
    ensures
        parse_ipv4(ipv4_text(ip)) == Some(ip),
{
    let ta = to_decimal(ip.a as nat);
    let tb = to_decimal(ip.b as nat);
    let tc = to_decimal(ip.c as nat);
    let td = to_decimal(ip.d as nat);
    lemma_octet_roundtrip(ip.a);
    lemma_octet_roundtrip(ip.b);
    lemma_octet_roundtrip(ip.c);
    lemma_octet_roundtrip(ip.d);
    lemma_split_single(ta, '.');
    lemma_split_single(tb, '.');
    lemma_split_single(tc, '.');
    lemma_split_single(td, '.');
    let x3 = ta + seq!['.'] + tb + seq!['.'] + tc;
    let x2 = ta + seq!['.'] + tb;
    lemma_split_join(ta, tb, '.');
    lemma_split_join(x2, tc, '.');
    lemma_split_join(x3, td, '.');
    let p = split(ipv4_text(ip), '.');
    assert(p =~= seq![ta, tb, tc, td]);
}

/// The text of an address holds no space and does not start or end with
/// whitespace.
pub proof fn lemma_ipv4_text_shape(ip: Ipv4Addr)
    ensures
        !ipv4_text(ip).contains(' '),
        ipv4_text(ip).len() >= 7,
        forall|i: int|
            0 <= i < ipv4_text(ip).len() ==> !is_whitespace(#[trigger] ipv4_text(ip)[i]),
{
    let ta = to_decimal(ip.a as nat);
    let tb = to_decimal(ip.b as nat);
    let tc = to_decimal(ip.c as nat);
    let td = to_decimal(ip.d as nat);
    lemma_to_decimal_shape(ip.a as nat);
    lemma_to_decimal_shape(ip.b as nat);
    lemma_to_decimal_shape(ip.c as nat);
    lemma_to_decimal_shape(ip.d as nat);
    let t = ipv4_text(ip);
    assert forall|i: int| 0 <= i < t.len() implies t[i] == '.' || is_digit(#[trigger] t[i]) by {
        let la = ta.len() as int;
        let lb = tb.len() as int;
        let lc = tc.len() as int;
        if i < la {
            assert(t[i] == ta[i]);
        } else if i == la {
        } else if i < la + 1 + lb {
            assert(t[i] == tb[i - la - 1]);
        } else if i == la + 1 + lb {
        } else if i < la + 2 + lb + lc {
            assert(t[i] == tc[i - la - 2 - lb]);
        } else if i == la + 2 + lb + lc {
        } else {
            assert(t[i] == td[i - la - 3 - lb - lc]);
        }
    }
    assert(!t.contains(' ')) by {
        if t.contains(' ') {
            let k = choose|k: int| 0 <= k < t.len() && t[k] == ' ';
            assert(t[k] == '.' || is_digit(t[k]));
        }
    }
    assert forall|i: int| 0 <= i < t.len() implies !is_whitespace(#[trigger] t[i]) by {
        assert(t[i] == '.' || is_digit(t[i]));
    }
}

} // verus!
