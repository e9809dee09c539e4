//! The decisions of a running link: what to do with each datagram heard,
//! when to probe the discovered peer and when to give up, and the status
//! lines that report progress. Sockets, timers and tasks stay outside.

use vstd::prelude::*;
use vstd::utf8::{
    decode_utf8, encode_utf8, encode_utf8_decode_utf8, encode_utf8_valid_utf8, valid_utf8,
};
use crate::decimal::{decimal_chars, to_decimal};
use crate::ipv4::{ipv4_text, Ipv4Addr};
use crate::protocol::{
    ack_line, ack_text, discover_text, lemma_ack_roundtrip, lemma_discover_text_parses,
    lemma_ping_roundtrip, message_sender, parse_code, parse_code_chars, parse_message,
    parse_message_chars, ping_text, Code, Message,
};
use crate::text::{chars_of, string_of};

verus! {

/// The pairing code used when the configured one does not parse.
pub const CODE: usize = 1337;

/// The UDP port used when none is configured.
pub const PORT: u16 = 1337;

/// The settings that the running tasks share.
#[derive(Clone, Debug)]
pub struct EngineArgs {
    /// The pairing code, as configured.
    pub code: String,
    /// The UDP port that links talk on.
    pub port: u16,
    /// Whether status lines are JSON objects rather than prose.
    pub json: bool,
    /// Whether the direct link is tested as soon as a peer is found.
    pub auto_test: bool,
    /// Whether the program keeps running after it is done.
    pub no_stop: bool,
}

/// The lower-case hexadecimal digit for `d`, which is below sixteen.
pub open spec fn hex_digit(d: nat) -> char {
    if d < 10 {
        (d + '0' as u32) as char
    } else {
        (d - 10 + 'a' as u32) as char
    }
}

/// How one character is written inside a JSON string (RFC 8259): a quote
/// and a backslash are escaped, control characters are written as `\n`,
/// `\r`, `\t`, `\b`, `\f` or `\u00XX`, and every other character stands
/// for itself.
pub open spec fn json_escape_char(c: char) -> Seq<char> {
    if c == '"' {
        seq!['\\', '"']
    } else if c == '\\' {
        seq!['\\', '\\']
    } else if c == '\n' {
        seq!['\\', 'n']
    } else if c == '\r' {
        seq!['\\', 'r']
    } else if c == '\t' {
        seq!['\\', 't']
    } else if (c as u32) == 0x08 {
        seq!['\\', 'b']
    } else if (c as u32) == 0x0C {
        seq!['\\', 'f']
    } else if (c as u32) < 0x20 {
        seq!['\\', 'u', '0', '0', hex_digit((c as u32 / 16) as nat), hex_digit((c as u32 % 16) as nat)]
    } else {
        seq![c]
    }
}

/// Whether `c` is a hexadecimal digit.
pub open spec fn is_hex_digit(c: char) -> bool {
    ('0' <= c && c <= '9') || ('a' <= c && c <= 'f') || ('A' <= c && c <= 'F')
}

/// Whether `t` is one `char` element of a JSON string (RFC 8259, section 7):
/// an unescaped character (not a control character, quote or backslash), a
/// two-character escape, or `\u` and four hexadecimal digits.
pub open spec fn json_string_element(t: Seq<char>) -> bool {
    ||| t.len() == 1 && (t[0] as u32) >= 0x20 && t[0] != '"' && t[0] != '\\'
    ||| t.len() == 2 && t[0] == '\\' && (t[1] == '"' || t[1] == '\\' || t[1] == '/' || t[1] == 'b'
        || t[1] == 'f' || t[1] == 'n' || t[1] == 'r' || t[1] == 't')
    ||| t.len() == 6 && t[0] == '\\' && t[1] == 'u' && is_hex_digit(t[2]) && is_hex_digit(t[3])
        && is_hex_digit(t[4]) && is_hex_digit(t[5])
}

/// Every character is written as exactly one element of a JSON string, so
/// an escaped text between quotes is always a valid JSON string.
pub proof fn lemma_json_escape_char_valid(c: char)
    ensures
        json_string_element(json_escape_char(c)),
{
    let u = c as u32;
    if u < 0x20 && c != '\n' && c != '\r' && c != '\t' && u != 0x08 && u != 0x0C {
        let t = json_escape_char(c);
        assert(u / 16 < 2);
        assert(is_hex_digit(hex_digit((u / 16) as nat)));
        assert(is_hex_digit(hex_digit((u % 16) as nat)));
        assert(t[4] == hex_digit((u / 16) as nat));
        assert(t[5] == hex_digit((u % 16) as nat));
    }
}

/// The characters of `s`, each written as inside a JSON string.
pub open spec fn json_escape(s: Seq<char>) -> Seq<char>
    decreases s.len(),
{
    if s.len() == 0 {
        Seq::empty()
    } else {
        json_escape(s.drop_last()) + json_escape_char(s.last())
    }
}

/// `s` as a JSON string literal.
pub open spec fn json_string(s: Seq<char>) -> Seq<char> {
    seq!['"'] + json_escape(s) + seq!['"']
}

/// The members for `fields`, each preceded by `,`: `,"key":"value"`.
pub open spec fn json_members(fields: Seq<(Seq<char>, Seq<char>)>) -> Seq<char>
    decreases fields.len(),
{
    if fields.len() == 0 {
        Seq::empty()
    } else {
        json_members(fields.drop_last()) + seq![','] + json_string(fields.last().0) + seq![':']
            + json_string(fields.last().1)
    }
}

/// The texts of the key/value pairs.
pub open spec fn field_texts(fields: Seq<(&str, &str)>) -> Seq<(Seq<char>, Seq<char>)> {
    fields.map_values(|f: (&str, &str)| (f.0@, f.1@))
}

/// A status line: in JSON mode one object, `{"status":<message>}` followed
/// by a member for each field in order, every string escaped; else the
/// message alone.
pub open spec fn status_text(json: bool, message: Seq<char>, fields: Seq<(Seq<char>, Seq<char>)>) -> Seq<char> {
    if json {
        seq!['{'] + json_string("status"@) + seq![':'] + json_string(message) + json_members(fields)
            + seq!['}']
    } else {
        message
    }
}

fn hex_digit_char(d: u32) -> (c: char)
    requires
        d < 16,
    ensures
        c == hex_digit(d as nat),
{
    match d {
        0 => '0',
        1 => '1',
        2 => '2',
        3 => '3',
        4 => '4',
        5 => '5',
        6 => '6',
        7 => '7',
        8 => '8',
        9 => '9',
        10 => 'a',
        11 => 'b',
        12 => 'c',
        13 => 'd',
        14 => 'e',
        _ => 'f',
    }
}

fn push_escaped_char(v: &mut Vec<char>, c: char)
    ensures
        final(v)@ == old(v)@ + json_escape_char(c),
{
    let u = c as u32;
    if c == '"' {
        v.push('\\');
        v.push('"');
    } else if c == '\\' {
        v.push('\\');
        v.push('\\');
    } else if c == '\n' {
        v.push('\\');
        v.push('n');
    } else if c == '\r' {
        v.push('\\');
        v.push('r');
    } else if c == '\t' {
        v.push('\\');
        v.push('t');
    } else if u == 0x08 {
        v.push('\\');
        v.push('b');
    } else if u == 0x0C {
        v.push('\\');
        v.push('f');
    } else if u < 0x20 {
        v.push('\\');
        v.push('u');
        v.push('0');
        v.push('0');
        v.push(hex_digit_char(u / 16));
        v.push(hex_digit_char(u % 16));
    } else {
        v.push(c);
    }
}

/// Appends `s` as a JSON string literal.
fn push_json_string(v: &mut Vec<char>, s: &str)
    ensures
        final(v)@ == old(v)@ + json_string(s@),
{
    let chars = chars_of(s);
    let ghost start = v@;
    v.push('"');
    let mut i: usize = 0;
    while i < chars.len()
        invariant
            i <= chars.len(),
            v@ == start + seq!['"'] + json_escape(chars@.take(i as int)),
        decreases chars.len() - i,
    {
        assert(chars@.take(i + 1).drop_last() =~= chars@.take(i as int));
        assert(chars@.take(i + 1).last() == chars@[i as int]);
        push_escaped_char(v, chars[i]);
        i += 1;
    }
    assert(chars@.take(chars.len() as int) =~= chars@);
    v.push('"');
    assert(v@ =~= start + json_string(s@));
}

/// The status line that reports `message` with `json_fields`, in the form
/// that `args.json` selects.
pub fn status_line(args: &EngineArgs, message: &str, json_fields: &[(&str, &str)]) -> (s: String)
    ensures
        s@ == status_text(args.json, message@, field_texts(json_fields@)),
{
    if !args.json {
        return string_of(&chars_of(message));
    }
    let ghost fs = field_texts(json_fields@);
    let mut v: Vec<char> = Vec::new();
    v.push('{');
    push_json_string(&mut v, "status");
    v.push(':');
    push_json_string(&mut v, message);
    let ghost head = v@;
    let mut i: usize = 0;
    while i < json_fields.len()
        invariant
            i <= json_fields@.len(),
            fs == field_texts(json_fields@),
            v@ == head + json_members(fs.take(i as int)),
        decreases json_fields@.len() - i,
    {
        let (k, w) = json_fields[i];
        assert(fs.take(i + 1).drop_last() =~= fs.take(i as int));
        assert(fs.take(i + 1).last() == (k@, w@));
        v.push(',');
        push_json_string(&mut v, k);
        v.push(':');
        push_json_string(&mut v, w);
        i += 1;
    }
    assert(fs.take(json_fields@.len() as int) =~= fs);
    v.push('}');
    assert(v@ =~= status_text(true, message@, fs));
    string_of(&v)
}

/// The text that reports a found peer.
pub open spec fn found_peer_text(ip: Ipv4Addr) -> Seq<char> {
    "Found peer at "@ + ipv4_text(ip)
}

/// The text that reports a found peer, `Found peer at <address>`.
pub fn found_peer_message(ip: Ipv4Addr) -> (s: String)
    ensures
        s@ == found_peer_text(ip),
{
    let mut v = chars_of("Found peer at ");
    let mut t = ip.to_chars();
    v.append(&mut t);
    string_of(&v)
}

/// The text that reports another probe: `Retrying <i>/<max>`.
pub open spec fn retry_text(attempt: u64, max_tries: u64) -> Seq<char> {
    "Retrying "@ + to_decimal(attempt as nat) + seq!['/'] + to_decimal(max_tries as nat)
}

/// The text that reports giving up after too many probes.
pub open spec fn give_up_text(attempt: u64, max_tries: u64) -> Seq<char> {
    "Didn't get a Ack in time, exhausted retries ("@ + to_decimal(attempt as nat) + seq!['/']
        + to_decimal(max_tries as nat) + "). Exiting."@
}

/// The text that reports another probe.
pub fn retry_message(attempt: u64, max_tries: u64) -> (s: String)
    ensures
        s@ == retry_text(attempt, max_tries),
{
    let mut v = chars_of("Retrying ");
    let mut a = decimal_chars(attempt as u128);
    v.append(&mut a);
    v.push('/');
    let mut m = decimal_chars(max_tries as u128);
    v.append(&mut m);
    string_of(&v)
}

/// The text that reports giving up.
pub fn give_up_message(attempt: u64, max_tries: u64) -> (s: String)
    ensures
        s@ == give_up_text(attempt, max_tries),
{
    let mut v = chars_of("Didn't get a Ack in time, exhausted retries (");
    let mut a = decimal_chars(attempt as u128);
    v.append(&mut a);
    v.push('/');
    let mut m = decimal_chars(max_tries as u128);
    v.append(&mut m);
    let mut tail = chars_of("). Exiting.");
    v.append(&mut tail);
    string_of(&v)
}

/// The decimal text of `n`.
pub fn u64_text(n: u64) -> (s: String)
    ensures
        s@ == to_decimal(n as nat),
{
    string_of(&decimal_chars(n as u128))
}

/// `std::str::from_utf8`: the bytes read as text, when they are valid UTF-8.
#[verifier::external_body]
fn utf8_text(bytes: &[u8]) -> (r: Option<&str>)
    ensures
        r is Some <==> valid_utf8(bytes@),
        r matches Some(s) ==> s@ == decode_utf8(bytes@),
{
    std::str::from_utf8(bytes).ok()
}

/// The message that a datagram carries: its bytes must be UTF-8 whose text
/// parses as a message.
pub open spec fn datagram_message(bytes: Seq<u8>) -> Option<Message> {
    if valid_utf8(bytes) {
        match parse_message(decode_utf8(bytes)) {
            Ok(m) => Some(m),
            Err(_) => None,
        }
    } else {
        None
    }
}

/// What the listening task decides for one datagram.
#[derive(Debug)]
pub enum ListenAction {
    /// Nothing to do: an unreadable datagram, one of our own, an
    /// announcement with another code or after the peer is known, or an
    /// answer from anyone but the peer.
    Ignore,
    /// The peer has announced itself at this address; publish it.
    PeerFound(Ipv4Addr),
    /// Answer a probe: send `line` to `to`.
    SendAck { to: Ipv4Addr, line: String },
    /// The peer answered a probe: the direct link works.
    DirectWorking,
}

/// The state of the listening task.
#[derive(Clone, Copy, Debug)]
pub struct Listener {
    /// The code a peer must announce.
    pub my_code: Code,
    /// This link's own address; datagrams from it are ignored.
    pub own_ip: Ipv4Addr,
    /// The peer, once one has announced itself with our code.
    pub peer: Option<Ipv4Addr>,
}

/// The code a listener pairs with for the configured text: the code it
/// names, or `CODE` when it names none.
pub open spec fn configured_code(code: Seq<char>) -> Code {
    match parse_code(code) {
        Some(c) => c,
        None => Code { code_uint: CODE },
    }
}

/// Whether the message `m` is acted upon: it was read and is not our own.
pub open spec fn heard(l: Listener, m: Option<Message>) -> bool {
    m is Some && message_sender(m->Some_0) != l.own_ip
}

/// The peer after hearing `m`: the first announcement with our code from
/// another address sets it; nothing changes it afterwards.
pub open spec fn next_peer(l: Listener, m: Option<Message>) -> Option<Ipv4Addr> {
    if l.peer is None && heard(l, m) {
        match m->Some_0 {
            Message::Discover(c, ip) => if c == l.my_code {
                Some(ip)
            } else {
                None
            },
            _ => None,
        }
    } else {
        l.peer
    }
}

/// The peer after hearing each of `ds` in turn.
pub open spec fn peer_after(l: Listener, ds: Seq<Seq<u8>>) -> Option<Ipv4Addr>
    decreases ds.len(),
{
    if ds.len() == 0 {
        l.peer
    } else {
        let before = Listener { peer: peer_after(l, ds.drop_last()), ..l };
        next_peer(before, datagram_message(ds.last()))
    }
}

impl Listener {
    /// A listener for the configured code text, at `own_ip`, with no peer.
    pub fn new(code: &str, own_ip: Ipv4Addr) -> (l: Listener)
        ensures
            l.my_code == configured_code(code@),
            l.own_ip == own_ip,
            l.peer is None,
    {
        let v = chars_of(code);
        let my_code = match parse_code_chars(&v) {
            Some(c) => c,
            None => Code { code_uint: CODE },
        };
        Listener { my_code, own_ip, peer: None }
    }

    /// Decides what to do with the datagram `datagram`.
    pub fn receive(&mut self, datagram: &[u8]) -> (a: ListenAction)
        ensures
            final(self).my_code == old(self).my_code,
            final(self).own_ip == old(self).own_ip,
            final(self).peer == next_peer(*old(self), datagram_message(datagram@)),
            !heard(*old(self), datagram_message(datagram@)) ==> a is Ignore,
            heard(*old(self), datagram_message(datagram@)) ==> match datagram_message(
                datagram@,
            )->Some_0 {
                Message::Discover(c, ip) => if old(self).peer is None && c == old(self).my_code {
                    a == ListenAction::PeerFound(ip)
                } else {
                    a is Ignore
                },
                Message::Ping(from) => a matches ListenAction::SendAck { to, line } && to == from
                    && line@ == ack_text(old(self).own_ip),
                Message::Ack(from) => if old(self).peer == Some(from) {
                    a is DirectWorking
                } else {
                    a is Ignore
                },
            },
    {
        let text = match utf8_text(datagram) {
            Some(t) => t,
            None => return ListenAction::Ignore,
        };
        let chars = chars_of(text);
        let message = match parse_message_chars(&chars) {
            Ok(m) => m,
            Err(_) => return ListenAction::Ignore,
        };
        if message.sender_ip() == self.own_ip {
            return ListenAction::Ignore;
        }
        match message {
            Message::Discover(code, ip) => {
                if self.peer.is_none() && code == self.my_code {
                    self.peer = Some(ip);
                    ListenAction::PeerFound(ip)
                } else {
                    ListenAction::Ignore
                }
            },
            Message::Ping(from) => ListenAction::SendAck { to: from, line: ack_line(self.own_ip) },
            Message::Ack(from) => {
                match self.peer {
                    Some(p) => {
                        if p == from {
                            ListenAction::DirectWorking
                        } else {
                            ListenAction::Ignore
                        }
                    },
                    None => ListenAction::Ignore,
                }
            },
        }
    }
}

/// Once a listener knows its peer, no datagram changes it.
pub proof fn lemma_peer_stays(l: Listener, ds: Seq<Seq<u8>>)
    requires
        l.peer is Some,
    ensures
        peer_after(l, ds) == l.peer,
    decreases ds.len(),
{
    if ds.len() > 0 {
        lemma_peer_stays(l, ds.drop_last());
    }
}

/// The lines that links send arrive, as their UTF-8 bytes, as the messages
/// they were made from.
pub proof fn lemma_lines_on_the_wire(code: Seq<char>, ip: Ipv4Addr)
    ensures
        datagram_message(encode_utf8(ping_text(ip))) == Some(Message::Ping(ip)),
        datagram_message(encode_utf8(ack_text(ip))) == Some(Message::Ack(ip)),
        parse_code(code) is Some ==> datagram_message(encode_utf8(discover_text(code, ip)))
            == Some(Message::Discover(parse_code(code)->Some_0, ip)),
{
    broadcast use {encode_utf8_valid_utf8, encode_utf8_decode_utf8};

    lemma_ping_roundtrip(ip);
    lemma_ack_roundtrip(ip);
    if parse_code(code) is Some {
        lemma_discover_text_parses(code, ip);
    }
}

/// Two links configured with the same code text pair: the announcement of
/// one, heard by the other before it knows a peer, makes the announcer its
/// peer.
pub proof fn lemma_pairing(listener: Listener, code: Seq<char>, announcer: Ipv4Addr)
    requires
        listener.peer is None,
        listener.my_code == configured_code(code),
        parse_code(code) is Some,
        announcer != listener.own_ip,
    ensures
        next_peer(listener, datagram_message(encode_utf8(discover_text(code, announcer))))
            == Some(announcer),
{
    lemma_lines_on_the_wire(code, announcer);
}

/// A peer is only ever set from an announcement of our own code, made by an
/// address other than our own.
pub proof fn lemma_peer_announced(l: Listener, m: Option<Message>)
    requires
        l.peer is None,
        next_peer(l, m) is Some,
    ensures
        m == Some(Message::Discover(l.my_code, next_peer(l, m)->Some_0)),
        next_peer(l, m)->Some_0 != l.own_ip,
{
}

/// What the probing task decides at each tick.
#[derive(Clone, Copy, Debug, PartialEq, Eq, Structural)]
pub enum ProbeAction {
    /// No peer yet: nothing to probe.
    Wait,
    /// Send a probe to the peer; `attempt` probes were sent before it (a
    /// retry when it is not zero).
    Ping { attempt: u64 },
    /// More than the allowed number of probes went unanswered: stop.
    GiveUp { attempt: u64 },
}

/// The state of the probing task: how many probes were sent, and how many
/// retries are allowed.
#[derive(Clone, Copy, Debug)]
pub struct Prober {
    pub timeout_counter: u64,
    pub max_tries: u64,
}

impl Prober {
    /// A prober that has sent nothing and allows `max_tries` retries.
    pub fn new(max_tries: u64) -> (p: Prober)
        ensures
            p.timeout_counter == 0,
            p.max_tries == max_tries,
    {
        Prober { timeout_counter: 0, max_tries }
    }

    /// Decides what to do at a tick, where `peer_known` tells whether the
    /// peer's address is known yet.
    pub fn tick(&mut self, peer_known: bool) -> (a: ProbeAction)
        requires
            peer_known ==> !(old(self).timeout_counter == u64::MAX && old(self).max_tries
                == u64::MAX),
        ensures
            final(self).max_tries == old(self).max_tries,
            a == tick_action(*old(self), peer_known),
            final(self).timeout_counter == counter_after_tick(*old(self), peer_known),
    {
        if !peer_known {
            return ProbeAction::Wait;
        }
        if self.timeout_counter > self.max_tries {
            return ProbeAction::GiveUp { attempt: self.timeout_counter };
        }
        let attempt = self.timeout_counter;
        self.timeout_counter = self.timeout_counter + 1;
        ProbeAction::Ping { attempt }
    }
}

/// What a tick decides: wait while no peer is known; give up once more
/// than `max_tries` retries were sent; else probe.
pub open spec fn tick_action(p: Prober, peer_known: bool) -> ProbeAction {
    if !peer_known {
        ProbeAction::Wait
    } else if p.timeout_counter > p.max_tries {
        ProbeAction::GiveUp { attempt: p.timeout_counter }
    } else {
        ProbeAction::Ping { attempt: p.timeout_counter }
    }
}

/// The prober's count after a tick, as `Prober::tick` sets it.
pub open spec fn counter_after_tick(p: Prober, peer_known: bool) -> u64 {
    if peer_known && p.timeout_counter <= p.max_tries {
        (p.timeout_counter + 1) as u64
    } else {
        p.timeout_counter
    }
}

/// The prober's count after ticks that see `known` in turn.
pub open spec fn counter_after(p: Prober, known: Seq<bool>) -> u64
    decreases known.len(),
{
    if known.len() == 0 {
        p.timeout_counter
    } else {
        counter_after_tick(
            Prober { timeout_counter: counter_after(p, known.drop_last()), ..p },
            known.last(),
        )
    }
}

/// However the ticks go, a fresh prober sends at most `max_tries + 1`
/// probes: its count never passes `max_tries + 1`.
pub proof fn lemma_probes_bounded(p: Prober, known: Seq<bool>)
    requires
        p.timeout_counter <= p.max_tries as int + 1,
        p.max_tries < u64::MAX,
    ensures
        counter_after(p, known) <= p.max_tries as int + 1,
    decreases known.len(),
{
    if known.len() > 0 {
        lemma_probes_bounded(p, known.drop_last());
    }
}

/// Whether the program closes once it has answered a probe: when it does
/// not test the link itself and automatic stopping is not turned off.
pub fn stops_after_answer(args: &EngineArgs) -> (r: bool)
    ensures
        r == (!args.auto_test && !args.no_stop),
{
    !args.auto_test && !args.no_stop
}

/// The status line that reports a working link with the peer `peer`.
pub open spec fn working_text(json: bool, peer: Ipv4Addr) -> Seq<char> {
    status_text(json, "Connection working"@, seq![("peer_ip"@, ipv4_text(peer))])
}

/// Once the peer has answered a probe (`working`), the status line to print
/// before the probing task stops; `None` while the link is not confirmed or
/// the peer's address is not known.
pub fn working_report(args: &EngineArgs, working: bool, peer: Option<Ipv4Addr>) -> (r: Option<
    String,
>)
    ensures
        !working || peer is None ==> r is None,
        working && peer is Some ==> (r matches Some(line) && line@ == working_text(
            args.json,
            peer->Some_0,
        )),
{
    if !working {
        return None;
    }
    match peer {
        Some(p) => {
            let ip_text = p.to_string();
            let fields = [("peer_ip", ip_text.as_str())];
            assert(field_texts(fields@) =~= seq![("peer_ip"@, ipv4_text(p))]);
            Some(status_line(args, "Connection working", &fields))
        },
        None => None,
    }
}

/// The status line that reports a probe count: retries `attempt` of
/// `max_tries`, with the message `message`.
pub open spec fn count_report_text(json: bool, message: Seq<char>, attempt: u64, max_tries: u64) -> Seq<char> {
    status_text(
        json,
        message,
        seq![("retries"@, to_decimal(attempt as nat)), ("max_retries"@, to_decimal(max_tries as nat))],
    )
}

/// The status line that a probe decision reports: a retry announces
/// `Retrying <i>/<max>`, giving up announces the exhausted retries; the first
/// probe and waiting report nothing.
pub fn probe_report(args: &EngineArgs, action: ProbeAction, max_tries: u64) -> (r: Option<String>)
    ensures
        match action {
            ProbeAction::Ping { attempt } => if attempt > 0 {
                r matches Some(line) && line@ == count_report_text(
                    args.json,
                    retry_text(attempt, max_tries),
                    attempt,
                    max_tries,
                )
            } else {
                r is None
            },
            ProbeAction::GiveUp { attempt } => r matches Some(line) && line@ == count_report_text(
                args.json,
                give_up_text(attempt, max_tries),
                attempt,
                max_tries,
            ),
            ProbeAction::Wait => r is None,
        },
{
    let (message, attempt) = match action {
        ProbeAction::Wait => return None,
        ProbeAction::Ping { attempt } => {
            if attempt == 0 {
                return None;
            }
            (retry_message(attempt, max_tries), attempt)
        },
        ProbeAction::GiveUp { attempt } => (give_up_message(attempt, max_tries), attempt),
    };
    let i = u64_text(attempt);
    let m = u64_text(max_tries);
    let fields = [("retries", i.as_str()), ("max_retries", m.as_str())];
    assert(field_texts(fields@) =~= seq![
        ("retries"@, to_decimal(attempt as nat)),
        ("max_retries"@, to_decimal(max_tries as nat)),
    ]);
    Some(status_line(args, message.as_str(), &fields))
}

} // verus!
