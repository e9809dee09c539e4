//! The datagrams that two links exchange: a discovery announcement carrying
//! the pairing code, a probe (`PING`) and its answer (`ACK`).

use vstd::prelude::*;
use crate::decimal::{
    all_digits, decimal_chars, is_digit, lemma_parse_usize_leading_zeros, zeros, lemma_parse_usize_chars, lemma_parse_usize_to_decimal,
    lemma_to_decimal_shape, parse_usize, parse_usize_chars, to_decimal,
};
use crate::ipv4::{
    ipv4_text, lemma_ipv4_roundtrip, lemma_ipv4_text_shape, parse_ipv4, parse_ipv4_chars, Ipv4Addr,
};
use crate::text::{
    chars_equal, chars_of, is_whitespace, lemma_remove_char_absent, lemma_remove_char_concat,
    lemma_remove_char_members, lemma_split_join,
    lemma_split_single, lemma_trim_end_take, lemma_trim_start_skip, remove_char, remove_chars,
    split, split_chars, string_of, trim, trim_chars,
};

verus! {

/// A pairing code: two links pair only when their codes agree.
#[derive(PartialEq, Eq, Clone, Copy, Debug, Structural)]
pub struct Code {
    pub code_uint: usize,
}

/// The code that a text names: the text with every `-` removed must read
/// as a `usize` (as `str::parse::<usize>` reads it).
pub open spec fn parse_code(s: Seq<char>) -> Option<Code> {
    match parse_usize(remove_char(s, '-')) {
        Ok(v) => Some(Code { code_uint: v as usize }),
        Err(_) => None,
    }
}

/// The characters of `d` with a `-` between each two of them.
pub open spec fn dashed(d: Seq<char>) -> Seq<char>
    decreases d.len(),
{
    if d.len() <= 1 {
        d
    } else {
        dashed(d.drop_last()) + seq!['-', d.last()]
    }
}

/// The text of a code: its decimal digits joined by `-` (1337 is `1-3-3-7`).
pub open spec fn code_text(c: Code) -> Seq<char> {
    dashed(to_decimal(c.code_uint as nat))
}

/// The error text for a code that does not parse.
pub open spec fn code_error_text() -> Seq<char> {
    "Parsing didn't work"@
}

impl Code {
    /// Reads a pairing code: the digits of `value`, where any `-` is ignored.
    pub fn try_from(value: &str) -> (r: Result<Code, &'static str>)
        ensures
            match parse_code(value@) {
                Some(c) => r == Ok::<Code, &'static str>(c),
                None => r matches Err(e) && e@ == code_error_text(),
            },
    {
        let v = chars_of(value);
        match parse_code_chars(&v) {
            Some(c) => Ok(c),
            None => Err("Parsing didn't work"),
        }
    }

    /// The text of the code, its digits joined by `-` (1337 gives `1-3-3-7`).
    pub fn to_string(&self) -> (s: String)
        ensures
            s@ == code_text(*self),
    {
        string_of(&self.to_chars())
    }

    /// The characters of the code's text.
    pub fn to_chars(&self) -> (v: Vec<char>)
        ensures
            v@ == code_text(*self),
    {
        let d = decimal_chars(self.code_uint as u128);
        dashed_chars(&d)
    }
}

/// The characters of `d` with a `-` between each two of them.
pub fn dashed_chars(d: &Vec<char>) -> (v: Vec<char>)
    ensures
        v@ == dashed(d@),
{
    let mut v: Vec<char> = Vec::new();
    let mut i: usize = 0;
    while i < d.len()
        invariant
            i <= d.len(),
            v@ == dashed(d@.take(i as int)),
        decreases d.len() - i,
    {
        let ghost t = d@.take(i + 1);
        assert(t.drop_last() =~= d@.take(i as int));
        assert(t.last() == d@[i as int]);
        if i > 0 {
            v.push('-');
        } else {
            assert(t =~= seq![d@[0]]);
        }
        v.push(d[i]);
        i += 1;
    }
    assert(d@.take(d.len() as int) =~= d@);
    v
}

/// Reads a pairing code from its characters.
pub fn parse_code_chars(v: &Vec<char>) -> (r: Option<Code>)
    ensures
        r == parse_code(v@),
{
    let digits = remove_chars(v, '-');
    match parse_usize_chars(&digits) {
        Ok(n) => Some(Code { code_uint: n }),
        Err(_) => None,
    }
}

/// Removing the dashes from the dashed form of a text without dashes gives
/// the text back.
proof fn lemma_remove_dashed(d: Seq<char>)
    requires
        !d.contains('-'),
    ensures
        remove_char(dashed(d), '-') == d,
    decreases d.len(),
{
    if d.len() <= 1 {
        if d.len() == 1 {
            assert(d[0] != '-');
            assert(d.drop_last() =~= Seq::<char>::empty());
            assert(d.last() == d[0]);
            assert(Seq::<char>::empty().push(d[0]) =~= d);
            assert(dashed(d) == d);
            assert(remove_char(d, '-') == remove_char(d.drop_last(), '-').push(d.last()));
        }
    } else {
        let p = d.drop_last();
        assert(!p.contains('-')) by {
            if p.contains('-') {
                let k = choose|k: int| 0 <= k < p.len() && p[k] == '-';
                assert(d[k] == '-');
            }
        }
        lemma_remove_dashed(p);
        let x = dashed(d);
        assert(d.last() != '-') by {
            assert(d[d.len() - 1] == d.last());
        }
        assert(x.drop_last() =~= dashed(p).push('-'));
        assert(x.drop_last().drop_last() =~= dashed(p));
        assert(x.last() == d.last());
        assert(x.drop_last().last() == '-');
        assert(remove_char(x.drop_last(), '-') == remove_char(dashed(p), '-'));
        assert(remove_char(x, '-') == remove_char(x.drop_last(), '-').push(d.last()));
        assert(p.push(d.last()) =~= d);
    }
}

/// The dashed form keeps the first character and every character is one of
/// `d` or a `-`.
proof fn lemma_dashed_shape(d: Seq<char>)
    ensures
        dashed(d).len() >= d.len(),
        d.len() > 0 ==> dashed(d)[0] == d[0],
        d.len() > 0 ==> dashed(d).last() == d.last(),
        forall|i: int|
            0 <= i < dashed(d).len() ==> #[trigger] dashed(d)[i] == '-' || d.contains(
                dashed(d)[i],
            ),
    decreases d.len(),
{
    if d.len() > 1 {
        let p = d.drop_last();
        lemma_dashed_shape(p);
        let x = dashed(d);
        assert forall|i: int| 0 <= i < x.len() implies #[trigger] x[i] == '-' || d.contains(
            x[i],
        ) by {
            if i < dashed(p).len() {
                assert(x[i] == dashed(p)[i]);
                if x[i] != '-' {
                    let k = choose|k: int| 0 <= k < p.len() && p[k] == x[i];
                    assert(d[k] == p[k]);
                }
            } else if i == x.len() - 1 {
                assert(d[d.len() - 1] == d.last());
            }
        }
    } else if d.len() == 1 {
        assert forall|i: int| 0 <= i < dashed(d).len() implies #[trigger] dashed(d)[i] == '-'
            || d.contains(dashed(d)[i]) by {
            assert(d[i] == dashed(d)[i]);
        }
    }
}

/// The text of a code reads back as the code.
pub proof fn lemma_code_roundtrip(c: Code)
    ensures
        parse_code(code_text(c)) == Some(c),
{
    let d = to_decimal(c.code_uint as nat);
    lemma_to_decimal_shape(c.code_uint as nat);
    lemma_remove_dashed(d);
    lemma_parse_usize_to_decimal(c.code_uint);
}

/// A text without dashes names the number that `parse::<usize>` reads from
/// it, leading zeros included (`0815` names 815).
pub proof fn lemma_code_names_number(t: Seq<char>)
    requires
        !t.contains('-'),
        parse_usize(t) is Ok,
    ensures
        parse_code(t) == Some(Code { code_uint: parse_usize(t)->Ok_0 as usize }),
{
    lemma_remove_char_absent(t, '-');
}

/// Dashes anywhere in a code text are ignored: inserting one changes
/// nothing.
pub proof fn lemma_code_dash_ignored(a: Seq<char>, b: Seq<char>)
    ensures
        parse_code(a + seq!['-'] + b) == parse_code(a + b),
{
    lemma_remove_char_concat(a + seq!['-'], b, '-');
    lemma_remove_char_concat(a, seq!['-'], '-');
    lemma_remove_char_concat(a, b, '-');
    let d = seq!['-'];
    assert(d.drop_last() =~= Seq::<char>::empty());
    assert(d.last() == '-');
    assert(remove_char(d, '-') == remove_char(d.drop_last(), '-'));
    assert(remove_char(d.drop_last(), '-') == d.drop_last());
    assert(remove_char(d, '-') =~= Seq::<char>::empty());
    assert(remove_char(a, '-') + remove_char(d, '-') =~= remove_char(a, '-'));
}

/// A code written with zeros in front names the number its digits spell.
pub proof fn lemma_code_leading_zeros(k: nat, n: usize)
    ensures
        parse_code(zeros(k) + to_decimal(n as nat)) == Some(Code { code_uint: n }),
{
    let d = to_decimal(n as nat);
    lemma_to_decimal_shape(n as nat);
    assert(all_digits(d)) by {
        assert forall|j: int| 0 <= j < d.len() implies '0' <= #[trigger] d[j] && d[j] <= '9' by {
            assert(is_digit(d[j]));
        }
    }
    let t = zeros(k) + d;
    assert(!t.contains('-')) by {
        if t.contains('-') {
            let j = choose|j: int| 0 <= j < t.len() && t[j] == '-';
            if j >= k {
                assert(t[j] == d[j - k]);
                assert(is_digit(d[j - k]));
            }
        }
    }
    lemma_parse_usize_leading_zeros(k, d);
    lemma_parse_usize_to_decimal(n);
    lemma_code_names_number(t);
}

/// The text of a code is non-empty, starts with a digit, and holds only
/// digits and dashes.
pub proof fn lemma_code_text_shape(c: Code)
    ensures
        code_text(c).len() >= 1,
        is_digit(code_text(c)[0]),
        forall|i: int|
            0 <= i < code_text(c).len() ==> is_digit(#[trigger] code_text(c)[i])
                || code_text(c)[i] == '-',
{
    let d = to_decimal(c.code_uint as nat);
    lemma_to_decimal_shape(c.code_uint as nat);
    lemma_dashed_shape(d);
    let x = code_text(c);
    assert forall|i: int| 0 <= i < x.len() implies is_digit(#[trigger] x[i]) || x[i] == '-' by {
        if x[i] != '-' {
            let k = choose|k: int| 0 <= k < d.len() && d[k] == x[i];
            assert(is_digit(d[k]));
        }
    }
}

/// A datagram between two links. Each carries the address of its sender.
#[derive(PartialEq, Eq, Clone, Copy, Debug, Structural)]
pub enum Message {
    /// "I am here, with this pairing code."
    Discover(Code, Ipv4Addr),
    /// A probe that asks the receiver to answer directly.
    Ping(Ipv4Addr),
    /// The answer to a probe.
    Ack(Ipv4Addr),
}

/// Why a datagram's text was refused.
#[derive(PartialEq, Eq, Clone, Copy, Debug, Structural)]
pub enum MessageRefusal {
    /// A `PING` or `ACK` whose address does not parse.
    BadAddress,
    /// An announcement with a valid address whose code does not parse.
    BadCode,
    /// Anything else: not two words, or an announcement whose address does
    /// not parse.
    Unrecognised,
}

/// The error text that `Message::try_from` returns for each refusal.
pub open spec fn refusal_text(r: MessageRefusal) -> Seq<char> {
    match r {
        MessageRefusal::BadAddress => "Parsing str to Ipv4Addr"@,
        MessageRefusal::BadCode => "Creating the code didn't work"@,
        MessageRefusal::Unrecognised => "Conversion didn't work"@,
    }
}

/// The command word of a probe.
pub open spec fn ping_word() -> Seq<char> {
    seq!['P', 'I', 'N', 'G']
}

/// The command word of a probe's answer.
pub open spec fn ack_word() -> Seq<char> {
    seq!['A', 'C', 'K']
}

/// What a datagram's text means. The text is trimmed and split at single
/// spaces; it must be two words. A first word `PING` or `ACK` makes a probe
/// or an answer from the address in the second word; any other first word
/// is read as a pairing code when the second word is an address.
pub open spec fn parse_message(s: Seq<char>) -> Result<Message, MessageRefusal> {
    let p = split(trim(s), ' ');
    if p.len() != 2 {
        Err(MessageRefusal::Unrecognised)
    } else if p[0] == ping_word() {
        match parse_ipv4(p[1]) {
            Some(ip) => Ok(Message::Ping(ip)),
            None => Err(MessageRefusal::BadAddress),
        }
    } else if p[0] == ack_word() {
        match parse_ipv4(p[1]) {
            Some(ip) => Ok(Message::Ack(ip)),
            None => Err(MessageRefusal::BadAddress),
        }
    } else {
        match parse_ipv4(p[1]) {
            Some(ip) => match parse_code(p[0]) {
                Some(c) => Ok(Message::Discover(c, ip)),
                None => Err(MessageRefusal::BadCode),
            },
            None => Err(MessageRefusal::Unrecognised),
        }
    }
}

/// The address that a message names as its sender.
pub open spec fn message_sender(m: Message) -> Ipv4Addr {
    match m {
        Message::Discover(_, ip) => ip,
        Message::Ping(ip) => ip,
        Message::Ack(ip) => ip,
    }
}

/// The line that announces a link: its code text, a space, its address.
pub open spec fn discover_text(code: Seq<char>, ip: Ipv4Addr) -> Seq<char> {
    code + seq![' '] + ipv4_text(ip) + seq!['\n']
}

/// The line of a probe sent by `ip`.
pub open spec fn ping_text(ip: Ipv4Addr) -> Seq<char> {
    ping_word() + seq![' '] + ipv4_text(ip) + seq!['\n']
}

/// The line that answers a probe, sent by `ip`.
pub open spec fn ack_text(ip: Ipv4Addr) -> Seq<char> {
    ack_word() + seq![' '] + ipv4_text(ip) + seq!['\n']
}

impl Message {
    /// The address of the link that sent the message.
    pub fn sender_ip(&self) -> (ip: Ipv4Addr)
        ensures
            ip == message_sender(*self),
    {
        match self {
            Message::Discover(_, ip) => *ip,
            Message::Ping(ip) => *ip,
            Message::Ack(ip) => *ip,
        }
    }

    /// Reads a datagram's text (see `parse_message`).
    pub fn try_from(value: &str) -> (r: Result<Message, &'static str>)
        ensures
            match parse_message(value@) {
                Ok(m) => r == Ok::<Message, &'static str>(m),
                Err(k) => r matches Err(e) && e@ == refusal_text(k),
            },
    {
        let v = chars_of(value);
        match parse_message_chars(&v) {
            Ok(m) => Ok(m),
            Err(MessageRefusal::BadAddress) => Err("Parsing str to Ipv4Addr"),
            Err(MessageRefusal::BadCode) => Err("Creating the code didn't work"),
            Err(MessageRefusal::Unrecognised) => Err("Conversion didn't work"),
        }
    }
}

/// Reads a datagram's text from its characters (see `parse_message`).
pub fn parse_message_chars(v: &Vec<char>) -> (r: Result<Message, MessageRefusal>)
    ensures
        r == parse_message(v@),
{
    let t = trim_chars(v);
    let p = split_chars(&t, ' ');
    if p.len() != 2 {
        return Err(MessageRefusal::Unrecognised);
    }
    let ping: Vec<char> = vec!['P', 'I', 'N', 'G'];
    let ack: Vec<char> = vec!['A', 'C', 'K'];
    assert(ping@ =~= ping_word());
    assert(ack@ =~= ack_word());
    if chars_equal(&p[0], &ping) {
        match parse_ipv4_chars(&p[1]) {
            Some(ip) => Ok(Message::Ping(ip)),
            None => Err(MessageRefusal::BadAddress),
        }
    } else if chars_equal(&p[0], &ack) {
        match parse_ipv4_chars(&p[1]) {
            Some(ip) => Ok(Message::Ack(ip)),
            None => Err(MessageRefusal::BadAddress),
        }
    } else {
        match parse_ipv4_chars(&p[1]) {
            Some(ip) => match parse_code_chars(&p[0]) {
                Some(c) => Ok(Message::Discover(c, ip)),
                None => Err(MessageRefusal::BadCode),
            },
            None => Err(MessageRefusal::Unrecognised),
        }
    }
}

/// The line that announces a link with the code text `code` at `ip`.
pub fn discover_line(code: &str, ip: Ipv4Addr) -> (s: String)
    ensures
        s@ == discover_text(code@, ip),
{
    let mut v = chars_of(code);
    v.push(' ');
    let mut t = ip.to_chars();
    v.append(&mut t);
    v.push('\n');
    string_of(&v)
}

/// The line of a probe sent by `ip`.
pub fn ping_line(ip: Ipv4Addr) -> (s: String)
    ensures
        s@ == ping_text(ip),
{
    let mut v: Vec<char> = vec!['P', 'I', 'N', 'G', ' '];
    let mut t = ip.to_chars();
    v.append(&mut t);
    v.push('\n');
    assert(v@ =~= ping_text(ip));
    string_of(&v)
}

/// The line that answers a probe, sent by `ip`.
pub fn ack_line(ip: Ipv4Addr) -> (s: String)
    ensures
        s@ == ack_text(ip),
{
    let mut v: Vec<char> = vec!['A', 'C', 'K', ' '];
    let mut t = ip.to_chars();
    v.append(&mut t);
    v.push('\n');
    assert(v@ =~= ack_text(ip));
    string_of(&v)
}

/// Trimming `w`, a space, an address text and a newline leaves all but the
/// newline, when `w` starts with no whitespace; splitting that at spaces
/// gives `w` and the address text, when `w` holds no space.
proof fn lemma_line_words(w: Seq<char>, ip: Ipv4Addr)
    requires
        w.len() >= 1,
        !is_whitespace(w[0]),
        !w.contains(' '),
    ensures
        split(trim(w + seq![' '] + ipv4_text(ip) + seq!['\n']), ' ') == seq![w, ipv4_text(ip)],
{
    let t = ipv4_text(ip);
    let s = w + seq![' '] + t + seq!['\n'];
    lemma_ipv4_text_shape(ip);
    assert(s[0] == w[0]);
    lemma_trim_start_skip(s, 0);
    assert(s.subrange(0, s.len() as int) =~= s);
    assert(is_whitespace(s[s.len() - 1]));
    assert(s[s.len() - 2] == t[t.len() - 1]);
    lemma_trim_end_take(s, s.len() - 1);
    assert(s.subrange(0, s.len() - 1) =~= w + seq![' '] + t);
    lemma_split_single(w, ' ');
    lemma_split_single(t, ' ');
    lemma_split_join(w, t, ' ');
}

/// A text that names a code holds only digits, dashes and `+`, and is not
/// empty.
proof fn lemma_code_text_chars(t: Seq<char>)
    requires
        parse_code(t) is Some,
    ensures
        t.len() >= 1,
        forall|i: int| 0 <= i < t.len() ==> is_digit(#[trigger] t[i]) || t[i] == '-' || t[i] == '+',
{
    let u = remove_char(t, '-');
    lemma_parse_usize_chars(u);
    lemma_remove_char_members(t, '-');
    assert forall|i: int| 0 <= i < t.len() implies is_digit(#[trigger] t[i]) || t[i] == '-'
        || t[i] == '+' by {
        if t[i] != '-' {
            let k = choose|k: int| 0 <= k < u.len() && u[k] == t[i];
            assert(is_digit(u[k]) || (k == 0 && u[k] == '+'));
        }
    }
}

/// An announcement made with any text that names a code reads back as the
/// announcement of that code: the two links agree on a code exactly when
/// their texts name the same one.
pub proof fn lemma_discover_text_parses(t: Seq<char>, ip: Ipv4Addr)
    requires
        parse_code(t) is Some,
    ensures
        parse_message(discover_text(t, ip)) == Ok::<Message, MessageRefusal>(
            Message::Discover(parse_code(t)->Some_0, ip),
        ),
{
    lemma_code_text_chars(t);
    assert(!t.contains(' ')) by {
        if t.contains(' ') {
            let k = choose|k: int| 0 <= k < t.len() && t[k] == ' ';
            assert(is_digit(t[k]) || t[k] == '-' || t[k] == '+');
        }
    }
    assert(is_digit(t[0]) || t[0] == '-' || t[0] == '+');
    assert(!is_whitespace(t[0]));
    lemma_line_words(t, ip);
    assert(t != ping_word()) by {
        if t == ping_word() {
            assert(is_digit(t[0]) || t[0] == '-' || t[0] == '+');
        }
    }
    assert(t != ack_word()) by {
        if t == ack_word() {
            assert(is_digit(t[0]) || t[0] == '-' || t[0] == '+');
        }
    }
    lemma_ipv4_roundtrip(ip);
}

/// A probe's line reads back as the probe.
pub proof fn lemma_ping_roundtrip(ip: Ipv4Addr)
    ensures
        parse_message(ping_text(ip)) == Ok::<Message, MessageRefusal>(Message::Ping(ip)),
{
    let w = ping_word();
    assert(!w.contains(' ')) by {
        if w.contains(' ') {
            let k = choose|k: int| 0 <= k < w.len() && w[k] == ' ';
        }
    }
    lemma_line_words(w, ip);
    lemma_ipv4_roundtrip(ip);
}

/// An answer's line reads back as the answer.
pub proof fn lemma_ack_roundtrip(ip: Ipv4Addr)
    ensures
        parse_message(ack_text(ip)) == Ok::<Message, MessageRefusal>(Message::Ack(ip)),
{
    let w = ack_word();
    assert(!w.contains(' ')) by {
        if w.contains(' ') {
            let k = choose|k: int| 0 <= k < w.len() && w[k] == ' ';
        }
    }
    lemma_line_words(w, ip);
    assert(w != ping_word()) by {
        assert(w.len() != ping_word().len());
    }
    lemma_ipv4_roundtrip(ip);
}

/// An announcement made with the text of a code reads back as the
/// announcement of that code.
pub proof fn lemma_discover_roundtrip(c: Code, ip: Ipv4Addr)
    ensures
        parse_message(discover_text(code_text(c), ip)) == Ok::<Message, MessageRefusal>(
            Message::Discover(c, ip),
        ),
{
    let w = code_text(c);
    lemma_code_text_shape(c);
    assert(!w.contains(' ')) by {
        if w.contains(' ') {
            let k = choose|k: int| 0 <= k < w.len() && w[k] == ' ';
            assert(is_digit(w[k]) || w[k] == '-');
        }
    }
    assert(!is_whitespace(w[0]));
    lemma_line_words(w, ip);
    assert(w != ping_word()) by {
        assert(w[0] != ping_word()[0]);
    }
    assert(w != ack_word()) by {
        assert(w[0] != ack_word()[0]);
    }
    lemma_ipv4_roundtrip(ip);
    lemma_code_roundtrip(c);
}

} // verus!
