//! Picking the local interface address that a link announces.

use vstd::prelude::*;
use crate::decimal::{
    int_error_text, lemma_pad_zeros_exact, lemma_padded_reads_back, lemma_to_decimal_shape,
    lemma_typed_number, zeros, IntErrorKind, pad_zeros, padded_decimal_chars, parse_usize, parse_usize_chars, to_decimal,
};
use crate::errors::DiscoveryError;
use crate::ipv4::{ipv4_text, Ipv4Addr};
use crate::text::{chars_of, string_of, trim, trim_chars};

verus! {

/// The address of one network interface, as the system lists it.
#[derive(Clone, Copy, Debug, PartialEq, Eq, Structural)]
pub enum InterfaceAddr {
    /// An IPv4 interface and its address.
    V4(Ipv4Addr),
    /// An IPv6 interface; its address plays no part here.
    V6,
}

/// The addresses a link may use, in the order the interfaces were listed:
/// those of IPv4 interfaces that are not loopback.
pub open spec fn candidate_ips(ifaces: Seq<InterfaceAddr>) -> Seq<Ipv4Addr>
    decreases ifaces.len(),
{
    if ifaces.len() == 0 {
        Seq::empty()
    } else {
        let rest = candidate_ips(ifaces.drop_last());
        match ifaces.last() {
            InterfaceAddr::V4(ip) => if ip.a == 127 {
                rest
            } else {
                rest.push(ip)
            },
            InterfaceAddr::V6 => rest,
        }
    }
}

/// The IPv4 addresses of the listed interfaces that are not loopback; an
/// error from listing them becomes `UnableToEnumInterfaces` with its text.
pub fn get_ip_addresses(listed: Result<Vec<InterfaceAddr>, String>) -> (r: Result<
    Vec<Ipv4Addr>,
    DiscoveryError,
>)
    ensures
        match listed {
            Ok(ifaces) => r matches Ok(ips) && ips@ == candidate_ips(ifaces@),
            Err(e) => r == Err::<Vec<Ipv4Addr>, DiscoveryError>(
                DiscoveryError::UnableToEnumInterfaces { os_error: e },
            ),
        },
{
    match listed {
        Ok(ifaces) => {
            let mut ips: Vec<Ipv4Addr> = Vec::new();
            let mut i: usize = 0;
            while i < ifaces.len()
                invariant
                    i <= ifaces.len(),
                    ips@ == candidate_ips(ifaces@.take(i as int)),
                decreases ifaces.len() - i,
            {
                assert(ifaces@.take(i + 1).drop_last() =~= ifaces@.take(i as int));
                match ifaces[i] {
                    InterfaceAddr::V4(ip) => {
                        if !ip.is_loopback() {
                            ips.push(ip);
                        }
                    },
                    InterfaceAddr::V6 => {},
                }
                i += 1;
            }
            assert(ifaces@.take(ifaces.len() as int) =~= ifaces@);
            Ok(ips)
        },
        Err(e) => Err(DiscoveryError::UnableToEnumInterfaces { os_error: e }),
    }
}

/// Whether `ipaddr` is one of the addresses a link may use.
pub fn validate_interface(listed: Result<Vec<InterfaceAddr>, String>, ipaddr: Ipv4Addr) -> (r:
    Result<bool, DiscoveryError>)
    ensures
        match listed {
            Ok(ifaces) => r == Ok::<bool, DiscoveryError>(
                candidate_ips(ifaces@).contains(ipaddr),
            ),
            Err(e) => r == Err::<bool, DiscoveryError>(
                DiscoveryError::UnableToEnumInterfaces { os_error: e },
            ),
        },
{
    let ghost given = listed;
    match get_ip_addresses(listed) {
        Ok(ips) => {
            let ghost expected = ips@;
            assert(given matches Ok(ifaces) && expected == candidate_ips(ifaces@));
            let mut i: usize = 0;
            while i < ips.len()
                invariant
                    i <= ips.len(),
                    ips@ == expected,
                    given == listed,
                    given matches Ok(ifaces) && expected == candidate_ips(ifaces@),
                    forall|k: int| 0 <= k < i ==> ips@[k] != ipaddr,
                decreases ips.len() - i,
            {
                if ips[i] == ipaddr {
                    assert(ips@[i as int] == ipaddr);
                    return Ok(true);
                }
                i += 1;
            }
            assert(!expected.contains(ipaddr));
            Ok(false)
        },
        Err(e) => Err(e),
    }
}

/// What picking from `ips` with the answer `line` gives: the trimmed answer
/// must read as an index (as `str::parse::<usize>` reads it); an index past
/// the end picks nothing.
pub open spec fn chosen_ip(ips: Seq<Ipv4Addr>, line: Seq<char>) -> Result<
    Option<Ipv4Addr>,
    Seq<char>,
> {
    match parse_usize(trim(line)) {
        Ok(i) => Ok(
            if i < ips.len() {
                Some(ips[i as int])
            } else {
                None
            },
        ),
        Err(k) => Err(int_error_text(k)),
    }
}

/// Picks the address at the index that the answer `line` names. An answer
/// that is no index gives `InputParsing` with the reason the number was
/// refused.
pub fn choose_ipaddr(ips: &Vec<Ipv4Addr>, line: &str) -> (r: Result<
    Option<Ipv4Addr>,
    DiscoveryError,
>)
    ensures
        match chosen_ip(ips@, line@) {
            Ok(pick) => r == Ok::<Option<Ipv4Addr>, DiscoveryError>(pick),
            Err(text) => r matches Err(DiscoveryError::InputParsing { os_error }) && os_error@
                == text,
        },
{
    let v = chars_of(line);
    let t = trim_chars(&v);
    match parse_usize_chars(&t) {
        Ok(i) => {
            if i < ips.len() {
                Ok(Some(ips[i]))
            } else {
                Ok(None)
            }
        },
        Err(k) => {
            let text = chars_of(k.description());
            Err(DiscoveryError::InputParsing { os_error: string_of(&text) })
        },
    }
}

/// The line that lists a candidate: `- `, the index padded with zeros to
/// two digits, `: `, the address.
pub open spec fn ip_choice_text(index: usize, ip: Ipv4Addr) -> Seq<char> {
    seq!['-', ' '] + pad_zeros(to_decimal(index as nat), 2) + seq![':', ' '] + ipv4_text(ip)
}

/// The line that lists the candidate `ip` under `index`.
pub fn ip_choice_line(index: usize, ip: Ipv4Addr) -> (s: String)
    ensures
        s@ == ip_choice_text(index, ip),
{
    let mut v: Vec<char> = vec!['-', ' '];
    let mut n = padded_decimal_chars(index, 2);
    v.append(&mut n);
    v.push(':');
    v.push(' ');
    let mut t = ip.to_chars();
    v.append(&mut t);
    assert(v@ =~= ip_choice_text(index, ip));
    string_of(&v)
}

/// Typing back the index of a listed address, with any number of zeros in
/// front (as the list pads it) and the newline of the typed line, picks that
/// address.
pub proof fn lemma_typed_index_picks(ips: Seq<Ipv4Addr>, i: usize, k: nat)
    requires
        i < ips.len(),
    ensures
        chosen_ip(ips, zeros(k) + to_decimal(i as nat) + seq!['\n']) == Ok::<
            Option<Ipv4Addr>,
            Seq<char>,
        >(Some(ips[i as int])),
{
    lemma_typed_number(k, i);
}

/// The listing line of candidate `index` (below 100) is `- `, the index in
/// exactly two digits, `: ` and the address; typing back those two digits
/// reads as the index.
pub proof fn lemma_ip_choice_layout(index: usize, ip: Ipv4Addr)
    requires
        index < 100,
    ensures
        ip_choice_text(index, ip).len() == 6 + ipv4_text(ip).len(),
        ip_choice_text(index, ip).subrange(0, 2) == seq!['-', ' '],
        ip_choice_text(index, ip).subrange(4, 6) == seq![':', ' '],
        ip_choice_text(index, ip).subrange(6, ip_choice_text(index, ip).len() as int) == ipv4_text(ip),
        parse_usize(ip_choice_text(index, ip).subrange(2, 4)) == Ok::<nat, IntErrorKind>(index as nat),
{
    let d = to_decimal(index as nat);
    lemma_to_decimal_shape(index as nat);
    lemma_pad_zeros_exact(d, 2);
    lemma_padded_reads_back(index, 2);
    let x = ip_choice_text(index, ip);
    let p = pad_zeros(d, 2);
    assert(x.subrange(0, 2) =~= seq!['-', ' ']);
    assert(x.subrange(2, 4) =~= p);
    assert(x.subrange(4, 6) =~= seq![':', ' ']);
    assert(x.subrange(6, x.len() as int) =~= ipv4_text(ip));
}

/// The address a link may use is never loopback, and is one that an IPv4
/// interface has.
pub proof fn lemma_candidates_sound(ifaces: Seq<InterfaceAddr>, ip: Ipv4Addr)
    requires
        candidate_ips(ifaces).contains(ip),
    ensures
        ip.a != 127,
        ifaces.contains(InterfaceAddr::V4(ip)),
    decreases ifaces.len(),
{
    let rest = candidate_ips(ifaces.drop_last());
    if ifaces.len() > 0 {
        if rest.contains(ip) {
            lemma_candidates_sound(ifaces.drop_last(), ip);
            let k = choose|k: int| 0 <= k < ifaces.len() - 1 && ifaces.drop_last()[k]
                == InterfaceAddr::V4(ip);
            assert(ifaces[k] == InterfaceAddr::V4(ip));
        } else {
            let k = choose|k: int| 0 <= k < candidate_ips(ifaces).len() && candidate_ips(ifaces)[k]
                == ip;
            assert(ifaces[ifaces.len() - 1] == ifaces.last());
            match ifaces.last() {
                InterfaceAddr::V4(x) => {
                    assert(k == rest.len());
                },
                InterfaceAddr::V6 => {},
            }
        }
    }
}

/// Every IPv4 interface address outside loopback is a candidate.
pub proof fn lemma_candidates_complete(ifaces: Seq<InterfaceAddr>, ip: Ipv4Addr)
    requires
        ifaces.contains(InterfaceAddr::V4(ip)),
        ip.a != 127,
    ensures
        candidate_ips(ifaces).contains(ip),
    decreases ifaces.len(),
{
    let rest = candidate_ips(ifaces.drop_last());
    if ifaces.last() == InterfaceAddr::V4(ip) {
        assert(candidate_ips(ifaces) == rest.push(ip));
        assert(candidate_ips(ifaces)[rest.len() as int] == ip);
    } else {
        let k = choose|k: int| 0 <= k < ifaces.len() && ifaces[k] == InterfaceAddr::V4(ip);
        assert(k != ifaces.len() - 1);
        assert(ifaces.drop_last()[k] == InterfaceAddr::V4(ip));
        lemma_candidates_complete(ifaces.drop_last(), ip);
        let j = choose|j: int| 0 <= j < rest.len() && rest[j] == ip;
        match ifaces.last() {
            InterfaceAddr::V4(x) => {
                if x.a != 127 {
                    assert(candidate_ips(ifaces)[j] == ip);
                }
            },
            InterfaceAddr::V6 => {},
        }
    }
}

} // verus!
