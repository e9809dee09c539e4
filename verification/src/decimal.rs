//! Decimal numerals: reading them as `str::parse::<usize>` does, and writing them.

use vstd::prelude::*;
use crate::text::{lemma_trim_end_take, lemma_trim_start_skip, trim};

verus! {

/// Whether `c` is one of the ASCII digits `0` to `9`.
pub open spec fn is_digit(c: char) -> bool {
    '0' <= c && c <= '9'
}

/// The value of the ASCII digit `c`.
pub open spec fn digit_value(c: char) -> nat {
    (c as u32 - '0' as u32) as nat
}

/// The ASCII digit for `d`, which is below ten.
pub open spec fn digit_char(d: nat) -> char {
    (d + '0' as u32) as char
}

/// Why a numeral was refused, as `core::num::IntErrorKind` names it.
#[derive(Clone, Copy, Debug, PartialEq, Eq, Structural)]
pub enum IntErrorKind {
    /// The text was empty.
    Empty,
    /// A character other than a digit was found (a lone sign counts).
    InvalidDigit,
    /// The value does not fit in the target type.
    PosOverflow,
}

/// The text with which `core::num::ParseIntError` describes each kind.
pub open spec fn int_error_text(k: IntErrorKind) -> Seq<char> {
    match k {
        IntErrorKind::Empty => "cannot parse integer from empty string"@,
        IntErrorKind::InvalidDigit => "invalid digit found in string"@,
        IntErrorKind::PosOverflow => "number too large to fit in target type"@,
    }
}

impl IntErrorKind {
    /// The description of the error, as `ParseIntError` displays it.
    pub fn description(&self) -> (s: &'static str)
        ensures
            s@ == int_error_text(*self),
    {
        match self {
            IntErrorKind::Empty => "cannot parse integer from empty string",
            IntErrorKind::InvalidDigit => "invalid digit found in string",
            IntErrorKind::PosOverflow => "number too large to fit in target type",
        }
    }
}

/// Reads the digits `s` left to right into a value at most `max`: the
/// first character that is no digit, or the first prefix whose value
/// exceeds `max`, decides the error.
pub open spec fn scan_digits(s: Seq<char>, max: nat) -> Result<nat, IntErrorKind>
    decreases s.len(),
{
    if s.len() == 0 {
        Ok(0)
    } else {
        match scan_digits(s.drop_last(), max) {
            Err(e) => Err(e),
            Ok(v) => if !is_digit(s.last()) {
                Err(IntErrorKind::InvalidDigit)
            } else if v * 10 + digit_value(s.last()) > max {
                Err(IntErrorKind::PosOverflow)
            } else {
                Ok(v * 10 + digit_value(s.last()))
            },
        }
    }
}

/// What `str::parse` gives for an unsigned type whose largest value is
/// `max`: an optional leading `+`, then at least one digit.
pub open spec fn parse_unsigned(s: Seq<char>, max: nat) -> Result<nat, IntErrorKind> {
    if s.len() == 0 {
        Err(IntErrorKind::Empty)
    } else if s.len() == 1 && (s[0] == '+' || s[0] == '-') {
        Err(IntErrorKind::InvalidDigit)
    } else if s[0] == '+' {
        scan_digits(s.drop_first(), max)
    } else {
        scan_digits(s, max)
    }
}

/// What `str::parse::<usize>` gives for `s`.
pub open spec fn parse_usize(s: Seq<char>) -> Result<nat, IntErrorKind> {
    parse_unsigned(s, usize::MAX as nat)
}

/// The decimal numeral of `n`, without leading zeros.
pub open spec fn to_decimal(n: nat) -> Seq<char>
    decreases n,
{
    if n < 10 {
        seq![digit_char(n)]
    } else {
        to_decimal(n / 10).push(digit_char(n % 10))
    }
}

/// `s` padded on the left with `0` to at least `width` characters, as the
/// format `{:0>width}` pads.
pub open spec fn pad_zeros(s: Seq<char>, width: nat) -> Seq<char> {
    if s.len() >= width {
        s
    } else {
        Seq::new((width - s.len()) as nat, |i: int| '0') + s
    }
}

/// Ten to the power `n`.
pub open spec fn pow10(n: nat) -> nat
    decreases n,
{
    if n == 0 {
        1
    } else {
        10 * pow10((n - 1) as nat)
    }
}

/// The number that the decimal digits `t` spell, read from the most
/// significant digit: each digit counts its value times ten to the number of
/// digits after it.
pub open spec fn numeral_value(t: Seq<char>) -> nat
    decreases t.len(),
{
    if t.len() == 0 {
        0
    } else {
        ((t[0] as u32) - 48) as nat * pow10((t.len() - 1) as nat) + numeral_value(t.drop_first())
    }
}

/// `k` zeros.
pub open spec fn zeros(k: nat) -> Seq<char> {
    Seq::new(k, |i: int| '0')
}

/// Whether every character of `t` is one of `0` to `9`.
pub open spec fn all_digits(t: Seq<char>) -> bool {
    forall|i: int| 0 <= i < t.len() ==> '0' <= #[trigger] t[i] && t[i] <= '9'
}

proof fn lemma_numeral_value_last(t: Seq<char>)
    requires
        t.len() >= 1,
        all_digits(t),
    ensures
        numeral_value(t) == numeral_value(t.drop_last()) * 10 + ((t.last() as u32) - 48) as nat,
    decreases t.len(),
{
    if t.len() == 1 {
        assert(t.drop_last() =~= Seq::<char>::empty());
        assert(t.drop_first() =~= Seq::<char>::empty());
        assert(t.last() == t[0]);
        assert(pow10(0) == 1);
        let d0 = ((t[0] as u32) - 48) as nat;
        assert(d0 * 1 == d0);
        assert(numeral_value(t) == d0 * pow10(0) + numeral_value(t.drop_first()));
        assert(numeral_value(t.drop_last()) == 0);
    } else {
        let r = t.drop_first();
        assert forall|i: int| 0 <= i < r.len() implies '0' <= #[trigger] r[i] && r[i] <= '9' by {
            assert(r[i] == t[i + 1]);
        }
        lemma_numeral_value_last(r);
        assert(r.drop_last() =~= t.drop_last().drop_first());
        assert(r.last() == t.last());
        assert(t.drop_last()[0] == t[0]);
        let d0 = ((t[0] as u32) - 48) as nat;
        let p = pow10((t.len() - 2) as nat);
        assert(pow10((t.len() - 1) as nat) == 10 * p);
        let a = numeral_value(t.drop_last().drop_first());
        let l = ((t.last() as u32) - 48) as nat;
        assert(numeral_value(t) == d0 * pow10((t.len() - 1) as nat) + numeral_value(r));
        assert(numeral_value(r) == a * 10 + l);
        assert(numeral_value(t.drop_last()) == d0 * p + a);
        assert(d0 * (10 * p) + (a * 10 + l) == (d0 * p + a) * 10 + l) by (nonlinear_arith);
    }
}

/// A digit string is read as the number it spells, as long as that number
/// fits: `scan_digits` agrees with the most-significant-first value.
pub proof fn lemma_scan_is_numeral_value(t: Seq<char>, max: nat)
    requires
        all_digits(t),
        numeral_value(t) <= max,
    ensures
        scan_digits(t, max) == Ok::<nat, IntErrorKind>(numeral_value(t)),
    decreases t.len(),
{
    if t.len() > 0 {
        let p = t.drop_last();
        assert forall|i: int| 0 <= i < p.len() implies '0' <= #[trigger] p[i] && p[i] <= '9' by {
            assert(p[i] == t[i]);
        }
        lemma_numeral_value_last(t);
        lemma_scan_is_numeral_value(p, max);
        assert(t.last() == t[t.len() - 1]);
    }
}

/// `parse::<usize>` reads a non-empty digit string as the number it spells,
/// leading zeros included, whenever that number fits in a `usize`.
pub proof fn lemma_parse_usize_numeral(t: Seq<char>)
    requires
        t.len() >= 1,
        all_digits(t),
        numeral_value(t) <= usize::MAX,
    ensures
        parse_usize(t) == Ok::<nat, IntErrorKind>(numeral_value(t)),
{
    assert('0' <= t[0] && t[0] <= '9');
    lemma_scan_is_numeral_value(t, usize::MAX as nat);
}

proof fn lemma_scan_zeros(k: nat, max: nat)
    ensures
        scan_digits(zeros(k), max) == Ok::<nat, IntErrorKind>(0),
    decreases k,
{
    if k > 0 {
        assert(zeros(k).drop_last() =~= zeros((k - 1) as nat));
        lemma_scan_zeros((k - 1) as nat, max);
        assert(zeros(k).last() == '0');
    }
}

proof fn lemma_scan_after_zeros(k: nat, t: Seq<char>, max: nat)
    ensures
        scan_digits(zeros(k) + t, max) == scan_digits(t, max),
    decreases t.len(),
{
    if t.len() == 0 {
        assert(zeros(k) + t =~= zeros(k));
        lemma_scan_zeros(k, max);
    } else {
        assert((zeros(k) + t).drop_last() =~= zeros(k) + t.drop_last());
        assert((zeros(k) + t).last() == t.last());
        lemma_scan_after_zeros(k, t.drop_last(), max);
    }
}

/// Leading zeros change nothing: `parse::<usize>` gives the same result,
/// value or error, for a digit string with any number of zeros in front.
pub proof fn lemma_parse_usize_leading_zeros(k: nat, t: Seq<char>)
    requires
        t.len() >= 1,
        all_digits(t),
    ensures
        parse_usize(zeros(k) + t) == parse_usize(t),
{
    let z = zeros(k) + t;
    if k > 0 {
        assert(z[0] == '0');
        lemma_scan_after_zeros(k, t, usize::MAX as nat);
    } else {
        assert(z =~= t);
    }
    assert('0' <= t[0] && t[0] <= '9');
}

/// A number typed as a line, with any zeros in front and the line's
/// newline, trims to its digits and reads back as the number.
pub proof fn lemma_typed_number(k: nat, n: usize)
    ensures
        trim(zeros(k) + to_decimal(n as nat) + seq!['\n']) == zeros(k) + to_decimal(n as nat),
        parse_usize(zeros(k) + to_decimal(n as nat)) == Ok::<nat, IntErrorKind>(n as nat),
{
    let d = to_decimal(n as nat);
    lemma_to_decimal_shape(n as nat);
    let t = zeros(k) + d;
    let line = t + seq!['\n'];
    assert(all_digits(d)) by {
        assert forall|j: int| 0 <= j < d.len() implies '0' <= #[trigger] d[j] && d[j] <= '9' by {
            assert(is_digit(d[j]));
        }
    }
    assert(is_digit(line[0])) by {
        if k > 0 {
            assert(line[0] == '0');
        } else {
            assert(line[0] == d[0]);
        }
    }
    lemma_trim_start_skip(line, 0);
    assert(line.subrange(0, line.len() as int) =~= line);
    assert(line[line.len() - 2] == d[d.len() - 1]);
    assert(is_digit(line[line.len() - 2]));
    lemma_trim_end_take(line, line.len() - 1);
    assert(line.subrange(0, line.len() - 1) =~= t);
    lemma_parse_usize_leading_zeros(k, d);
    lemma_parse_usize_to_decimal(n);
}

/// A zero-padded numeral reads back as its number.
pub proof fn lemma_padded_reads_back(n: usize, width: nat)
    ensures
        parse_usize(pad_zeros(to_decimal(n as nat), width)) == Ok::<nat, IntErrorKind>(n as nat),
{
    let d = to_decimal(n as nat);
    if d.len() >= width {
        assert(zeros(0) + d =~= d);
        lemma_typed_number(0, n);
    } else {
        assert(pad_zeros(d, width) =~= zeros((width - d.len()) as nat) + d);
        lemma_typed_number((width - d.len()) as nat, n);
    }
}

/// Zero padding is exact: the padded text has the width (or the text's own
/// length, when longer), ends with the text, and only zeros come before it.
pub proof fn lemma_pad_zeros_exact(s: Seq<char>, width: nat)
    ensures
        pad_zeros(s, width).len() == (if s.len() >= width {
            s.len()
        } else {
            width
        }),
        pad_zeros(s, width).subrange(pad_zeros(s, width).len() - s.len(), pad_zeros(s, width).len() as int)
            == s,
        forall|i: int|
            0 <= i < pad_zeros(s, width).len() - s.len() ==> #[trigger] pad_zeros(s, width)[i] == '0',
{
    let p = pad_zeros(s, width);
    assert(p.subrange(p.len() - s.len(), p.len() as int) =~= s);
}

/// A digit character reads back as the digit it was made from.
pub proof fn lemma_digit_char(d: nat)
    requires
        d < 10,
    ensures
        is_digit(digit_char(d)),
        digit_value(digit_char(d)) == d,
        digit_char(d) != '-',
        digit_char(d) != '+',
{
}

/// Every character of a numeral is a digit, the first one is no `0` unless
/// the value is zero, and it has at most as many characters as the value
/// allows.
pub proof fn lemma_to_decimal_shape(n: nat)
    ensures
        to_decimal(n).len() >= 1,
        forall|i: int| 0 <= i < to_decimal(n).len() ==> is_digit(#[trigger] to_decimal(n)[i]),
        n >= 10 ==> to_decimal(n)[0] != '0',
        n < 10 ==> to_decimal(n).len() == 1,
        10 <= n < 100 ==> to_decimal(n).len() == 2,
        100 <= n < 1000 ==> to_decimal(n).len() == 3,
        !to_decimal(n).contains('-'),
        !to_decimal(n).contains('+'),
    decreases n,
{
    if n >= 10 {
        lemma_to_decimal_shape(n / 10);
        let p = to_decimal(n / 10);
        let s = to_decimal(n);
        assert(s[0] == p[0]);
        assert forall|i: int| 0 <= i < s.len() implies is_digit(#[trigger] s[i]) by {
            if i < p.len() {
                assert(s[i] == p[i]);
            }
        }
        if n / 10 < 10 {
            assert(p[0] == digit_char(n / 10));
        }
        assert(!s.contains('-')) by {
            if s.contains('-') {
                let k = choose|k: int| 0 <= k < s.len() && s[k] == '-';
                assert(is_digit(s[k]));
            }
        }
        assert(!s.contains('+')) by {
            if s.contains('+') {
                let k = choose|k: int| 0 <= k < s.len() && s[k] == '+';
                assert(is_digit(s[k]));
            }
        }
    }
}

/// Digits that scan to a value are all digits.
pub proof fn lemma_scan_ok_digits(s: Seq<char>, max: nat)
    requires
        scan_digits(s, max) is Ok,
    ensures
        forall|i: int| 0 <= i < s.len() ==> is_digit(#[trigger] s[i]),
    decreases s.len(),
{
    if s.len() > 0 {
        lemma_scan_ok_digits(s.drop_last(), max);
        assert forall|i: int| 0 <= i < s.len() implies is_digit(#[trigger] s[i]) by {
            if i < s.len() - 1 {
                assert(s[i] == s.drop_last()[i]);
            }
        }
    }
}

/// A text that `parse::<usize>` reads is not empty and holds only digits,
/// with perhaps a `+` in front.
pub proof fn lemma_parse_usize_chars(s: Seq<char>)
    requires
        parse_usize(s) is Ok,
    ensures
        s.len() >= 1,
        forall|i: int| 0 <= i < s.len() ==> is_digit(#[trigger] s[i]) || (i == 0 && s[i] == '+'),
{
    if s[0] == '+' {
        lemma_scan_ok_digits(s.drop_first(), usize::MAX as nat);
        assert forall|i: int| 0 <= i < s.len() implies is_digit(#[trigger] s[i]) || (i == 0
            && s[i] == '+') by {
            if i > 0 {
                assert(s[i] == s.drop_first()[i - 1]);
            }
        }
    } else {
        lemma_scan_ok_digits(s, usize::MAX as nat);
    }
}

/// Reading back a numeral gives the value it was written from.
pub proof fn lemma_scan_to_decimal(n: nat, max: nat)
    requires
        n <= max,
    ensures
        scan_digits(to_decimal(n), max) == Ok::<nat, IntErrorKind>(n),
    decreases n,
{
    let s = to_decimal(n);
    lemma_digit_char(n % 10);
    let d = digit_char(n % 10);
    if n < 10 {
        assert(s.drop_last() =~= Seq::<char>::empty());
        assert(s.last() == d);
        assert(scan_digits(s.drop_last(), max) == Ok::<nat, IntErrorKind>(0));
    } else {
        lemma_scan_to_decimal(n / 10, max);
        assert(s.drop_last() =~= to_decimal(n / 10));
        assert(s.last() == d);
        assert((n / 10) * 10 + n % 10 == n);
    }
}

/// `parse::<usize>` reads back the numeral of any `usize`.
pub proof fn lemma_parse_usize_to_decimal(n: usize)
    ensures
        parse_usize(to_decimal(n as nat)) == Ok::<nat, IntErrorKind>(n as nat),
{
    lemma_to_decimal_shape(n as nat);
    lemma_scan_to_decimal(n as nat, usize::MAX as nat);
    let s = to_decimal(n as nat);
    assert(is_digit(s[0]));
}

/// Whether `c` is an ASCII digit.
pub fn char_is_digit(c: char) -> (r: bool)
    ensures
        r == is_digit(c),
{
    '0' <= c && c <= '9'
}

/// Reads `s` as `str::parse::<usize>` does.
pub fn parse_usize_chars(s: &Vec<char>) -> (r: Result<usize, IntErrorKind>)
    ensures
        match parse_usize(s@) {
            Ok(v) => r == Ok::<usize, IntErrorKind>(v as usize),
            Err(e) => r == Err::<usize, IntErrorKind>(e),
        },
{
    let n = s.len();
    if n == 0 {
        return Err(IntErrorKind::Empty);
    }
    if n == 1 && (s[0] == '+' || s[0] == '-') {
        return Err(IntErrorKind::InvalidDigit);
    }
    let start: usize = if s[0] == '+' { 1 } else { 0 };
    proof {
        let digits = s@.subrange(start as int, n as int);
        assert(start == 1 ==> digits =~= s@.drop_first());
        assert(start == 0 ==> digits =~= s@);
    }
    match scan_chars(s, start, usize::MAX) {
        Ok(v) => Ok(v),
        Err(e) => Err(e),
    }
}

/// Reads the digits `s[from..]` into a value at most `max`, as
/// `scan_digits` describes.
pub fn scan_chars(s: &Vec<char>, from: usize, max: usize) -> (r: Result<usize, IntErrorKind>)
    requires
        from <= s.len(),
    ensures
        match scan_digits(s@.subrange(from as int, s.len() as int), max as nat) {
            Ok(v) => r == Ok::<usize, IntErrorKind>(v as usize),
            Err(e) => r == Err::<usize, IntErrorKind>(e),
        },
{
    let n = s.len();
    let ghost digits = s@.subrange(from as int, n as int);
    let mut acc: usize = 0;
    let mut i: usize = from;
    while i < n
        invariant
            from <= i <= n == s.len(),
            digits == s@.subrange(from as int, n as int),
            acc <= max,
            scan_digits(digits.take(i - from), max as nat) == Ok::<nat, IntErrorKind>(acc as nat),
        decreases n - i,
    {
        let c = s[i];
        assert(digits.take(i - from + 1).drop_last() =~= digits.take(i - from));
        assert(digits.take(i - from + 1).last() == c);
        if !char_is_digit(c) {
            proof {
                assert(scan_digits(digits.take(i - from + 1), max as nat) == Err::<
                    nat,
                    IntErrorKind,
                >(IntErrorKind::InvalidDigit));
                lemma_scan_err_extends(digits, (i - from + 1) as int, max as nat);
            }
            return Err(IntErrorKind::InvalidDigit);
        }
        let d = (c as u32 - '0' as u32) as usize;
        if d > max || acc > (max - d) / 10 {
            proof {
                assert(acc * 10 + d > max) by (nonlinear_arith)
                    requires
                        d > max || acc > (max - d) / 10,
                        d <= 9,
                ;
                assert(scan_digits(digits.take(i - from + 1), max as nat) == Err::<
                    nat,
                    IntErrorKind,
                >(IntErrorKind::PosOverflow));
                lemma_scan_err_extends(digits, (i - from + 1) as int, max as nat);
            }
            return Err(IntErrorKind::PosOverflow);
        }
        proof {
            assert(acc * 10 + d <= max) by (nonlinear_arith)
                requires
                    d <= max,
                    acc <= (max - d) / 10,
                    d <= 9,
            ;
        }
        acc = acc * 10 + d;
        i += 1;
    }
    assert(digits.take(n - from) =~= digits);
    Ok(acc)
}

/// Once a prefix of `s` is refused, `s` is refused with the same error.
proof fn lemma_scan_err_extends(s: Seq<char>, k: int, max: nat)
    requires
        0 <= k <= s.len(),
        scan_digits(s.take(k), max) is Err,
    ensures
        scan_digits(s, max) == scan_digits(s.take(k), max),
    decreases s.len() - k,
{
    if k < s.len() {
        assert(s.take(k + 1).drop_last() =~= s.take(k));
        assert(scan_digits(s.take(k + 1), max) == scan_digits(s.take(k), max));
        lemma_scan_err_extends(s, k + 1, max);
    } else {
        assert(s.take(k) =~= s);
    }
}

/// The ASCII digit for `d`.
pub fn digit_to_char(d: u8) -> (c: char)
    requires
        d < 10,
    ensures
        c == digit_char(d as nat),
{
    match d {
        0 => '0',
        1 => '1',
        2 => '2',
        3 => '3',
        4 => '4',
        5 => '5',
        6 => '6',
        7 => '7',
        8 => '8',
        _ => '9',
    }
}

/// The decimal numeral of `n`.
pub fn decimal_chars(n: u128) -> (v: Vec<char>)
    ensures
        v@ == to_decimal(n as nat),
    decreases n,
{
    if n < 10 {
        let mut v: Vec<char> = Vec::new();
        v.push(digit_to_char(n as u8));
        v
    } else {
        let mut v = decimal_chars(n / 10);
        v.push(digit_to_char((n % 10) as u8));
        v
    }
}

/// The decimal numeral of `n`, padded on the left with `0` to `width`.
pub fn padded_decimal_chars(n: usize, width: usize) -> (v: Vec<char>)
    ensures
        v@ == pad_zeros(to_decimal(n as nat), width as nat),
{
    let digits = decimal_chars(n as u128);
    if digits.len() >= width {
        return digits;
    }
    let mut v: Vec<char> = Vec::new();
    let pad = width - digits.len();
    let mut i: usize = 0;
    while i < pad
        invariant
            i <= pad,
            v@ == Seq::new(i as nat, |k: int| '0'),
        decreases pad - i,
    {
        v.push('0');
        i += 1;
        assert(v@ =~= Seq::new(i as nat, |k: int| '0'));
    }
    let mut j: usize = 0;
    while j < digits.len()
        invariant
            j <= digits.len(),
            v@ == Seq::new(pad as nat, |k: int| '0') + digits@.take(j as int),
        decreases digits.len() - j,
    {
        v.push(digits[j]);
        assert(digits@.take(j + 1) =~= digits@.take(j as int).push(digits@[j as int]));
        j += 1;
    }
    assert(digits@.take(digits.len() as int) =~= digits@);
    v
}

} // verus!
