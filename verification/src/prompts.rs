//! Reading a user's answers to yes/no and numbered-list questions.

use vstd::prelude::*;
use crate::decimal::{
    lemma_pad_zeros_exact, lemma_padded_reads_back, lemma_to_decimal_shape, lemma_typed_number,
    pad_zeros, padded_decimal_chars, parse_usize, parse_usize_chars, to_decimal, zeros,
    IntErrorKind,
};
use crate::text::{chars_of, string_of, trim, trim_chars};

verus! {

/// `c` with ASCII upper-case letters made lower-case.
pub open spec fn ascii_lower(c: char) -> char {
    if 'A' <= c && c <= 'Z' {
        ((c as u32) + 32) as char
    } else {
        c
    }
}

/// Whether `t` lower-cases to the lower-case ASCII word `word`. For the words
/// used here (`y`, `yes`, `n`, `no`) only their ASCII letters in either case
/// lower-case to them, so this is what `to_lowercase` then `==` decides.
pub open spec fn lowers_to(t: Seq<char>, word: Seq<char>) -> bool {
    &&& t.len() == word.len()
    &&& forall|i: int| 0 <= i < t.len() ==> ascii_lower(#[trigger] t[i]) == word[i]
}

/// The answer to a yes/no question: the trimmed line, in any case, `y` or
/// `yes` means yes and `n` or `no` means no; anything else gives `default`.
pub open spec fn yes_no_result(line: Seq<char>, default: Option<bool>) -> Option<bool> {
    let t = trim(line);
    if lowers_to(t, seq!['y']) || lowers_to(t, seq!['y', 'e', 's']) {
        Some(true)
    } else if lowers_to(t, seq!['n']) || lowers_to(t, seq!['n', 'o']) {
        Some(false)
    } else {
        default
    }
}

fn lower_char(c: char) -> (r: char)
    ensures
        r == ascii_lower(c),
{
    match c {
        'A' => 'a',
        'B' => 'b',
        'C' => 'c',
        'D' => 'd',
        'E' => 'e',
        'F' => 'f',
        'G' => 'g',
        'H' => 'h',
        'I' => 'i',
        'J' => 'j',
        'K' => 'k',
        'L' => 'l',
        'M' => 'm',
        'N' => 'n',
        'O' => 'o',
        'P' => 'p',
        'Q' => 'q',
        'R' => 'r',
        'S' => 's',
        'T' => 't',
        'U' => 'u',
        'V' => 'v',
        'W' => 'w',
        'X' => 'x',
        'Y' => 'y',
        'Z' => 'z',
        _ => c,
    }
}

fn lowers_to_word(t: &Vec<char>, word: &Vec<char>) -> (r: bool)
    ensures
        r == lowers_to(t@, word@),
{
    if t.len() != word.len() {
        return false;
    }
    let mut i: usize = 0;
    while i < t.len()
        invariant
            i <= t.len() == word.len(),
            forall|k: int| 0 <= k < i ==> ascii_lower(#[trigger] t@[k]) == word@[k],
        decreases t.len() - i,
    {
        if lower_char(t[i]) != word[i] {
            return false;
        }
        i += 1;
    }
    true
}

/// The answer that the line `line` gives to a yes/no question.
pub fn yes_no_answer(line: &str, default: Option<bool>) -> (r: Option<bool>)
    ensures
        r == yes_no_result(line@, default),
{
    let v = chars_of(line);
    let t = trim_chars(&v);
    let y: Vec<char> = vec!['y'];
    let yes: Vec<char> = vec!['y', 'e', 's'];
    let n: Vec<char> = vec!['n'];
    let no: Vec<char> = vec!['n', 'o'];
    assert(y@ =~= seq!['y']);
    assert(yes@ =~= seq!['y', 'e', 's']);
    assert(n@ =~= seq!['n']);
    assert(no@ =~= seq!['n', 'o']);
    if lowers_to_word(&t, &y) || lowers_to_word(&t, &yes) {
        Some(true)
    } else if lowers_to_word(&t, &n) || lowers_to_word(&t, &no) {
        Some(false)
    } else {
        default
    }
}

/// The hint shown after a yes/no question: the default in upper case.
pub fn yes_no_hint(default: Option<bool>) -> (s: &'static str)
    ensures
        s@ == (match default {
            Some(true) => "Y/n: "@,
            Some(false) => "y/N: "@,
            None => "y/n: "@,
        }),
{
    match default {
        Some(true) => "Y/n: ",
        Some(false) => "y/N: ",
        None => "y/n: ",
    }
}

/// Whether `c` is the lower-case ASCII letter `lower` or its upper-case
/// form, which lies 32 code points below it.
pub open spec fn same_letter(c: char, lower: char) -> bool {
    c == lower || (c as u32) + 32 == (lower as u32)
}

/// Whether `t` spells the lower-case ASCII word `word` with each letter in
/// either case.
pub open spec fn spells(t: Seq<char>, word: Seq<char>) -> bool {
    t.len() == word.len() && forall|i: int| 0 <= i < t.len() ==> same_letter(#[trigger] t[i], word[i])
}

/// The answer ignores case: a trimmed line that spells `y` or `yes` in any
/// mix of cases answers yes, one that spells `n` or `no` answers no, and any
/// other line gives the default.
pub proof fn lemma_yes_no_any_case(line: Seq<char>, default: Option<bool>)
    ensures
        ({
            let t = trim(line);
            yes_no_result(line, default) == (if spells(t, seq!['y']) || spells(t, seq!['y', 'e', 's']) {
                Some(true)
            } else if spells(t, seq!['n']) || spells(t, seq!['n', 'o']) {
                Some(false)
            } else {
                default
            })
        }),
{
    let t = trim(line);
    assert forall|w: Seq<char>|
        (w == seq!['y'] || w == seq!['y', 'e', 's'] || w == seq!['n'] || w == seq!['n', 'o'])
        implies #[trigger] spells(t, w) == lowers_to(t, w) by {
        if spells(t, w) {
            assert forall|i: int| 0 <= i < t.len() implies ascii_lower(#[trigger] t[i]) == w[i] by {
                assert(same_letter(t[i], w[i]));
            }
        }
        if lowers_to(t, w) {
            assert forall|i: int| 0 <= i < t.len() implies same_letter(#[trigger] t[i], w[i]) by {
                assert(ascii_lower(t[i]) == w[i]);
            }
        }
    }
    assert(spells(t, seq!['y']) == lowers_to(t, seq!['y']));
    assert(spells(t, seq!['y', 'e', 's']) == lowers_to(t, seq!['y', 'e', 's']));
    assert(spells(t, seq!['n']) == lowers_to(t, seq!['n']));
    assert(spells(t, seq!['n', 'o']) == lowers_to(t, seq!['n', 'o']));
}

/// With a default, every line answers a yes/no question.
pub proof fn lemma_yes_no_default_answers(line: Seq<char>, b: bool)
    ensures
        yes_no_result(line, Some(b)) is Some,
{
}

/// The answer to a numbered-list question: the trimmed line read as an
/// index (as `str::parse::<usize>` reads it), else `default`.
pub open spec fn list_result(line: Seq<char>, default: Option<usize>) -> Option<usize> {
    match parse_usize(trim(line)) {
        Ok(i) => Some(i as usize),
        Err(_) => default,
    }
}

/// The answer that the line `line` gives to a numbered-list question.
pub fn list_answer(line: &str, default: Option<usize>) -> (r: Option<usize>)
    ensures
        r == list_result(line@, default),
{
    let v = chars_of(line);
    let t = trim_chars(&v);
    match parse_usize_chars(&t) {
        Ok(i) => Some(i),
        Err(_) => default,
    }
}

/// The line that lists an answer: `- `, its index padded with zeros to
/// three digits, `: `, its text.
pub open spec fn list_item_text(index: usize, text: Seq<char>) -> Seq<char> {
    seq!['-', ' '] + pad_zeros(to_decimal(index as nat), 3) + seq![':', ' '] + text
}

/// The line that lists the answer `text` under `index`.
pub fn list_item_line(index: usize, text: &str) -> (s: String)
    ensures
        s@ == list_item_text(index, text@),
{
    let mut v: Vec<char> = vec!['-', ' '];
    let mut n = padded_decimal_chars(index, 3);
    v.append(&mut n);
    v.push(':');
    v.push(' ');
    let mut t = chars_of(text);
    v.append(&mut t);
    assert(v@ =~= list_item_text(index, text@));
    string_of(&v)
}

/// A typed number, with zeros in front or not, answers a numbered-list
/// question with that number, whatever the default.
pub proof fn lemma_list_typed_number(k: nat, n: usize, default: Option<usize>)
    ensures
        list_result(zeros(k) + to_decimal(n as nat) + seq!['\n'], default) == Some(n),
{
    lemma_typed_number(k, n);
}

/// The line of answer `index` (below 1000) is `- `, the index in exactly
/// three digits, `: ` and the text; typing back those three digits answers
/// with the index.
pub proof fn lemma_list_item_layout(index: usize, text: Seq<char>)
    requires
        index < 1000,
    ensures
        list_item_text(index, text).len() == 7 + text.len(),
        list_item_text(index, text).subrange(0, 2) == seq!['-', ' '],
        list_item_text(index, text).subrange(5, 7) == seq![':', ' '],
        list_item_text(index, text).subrange(7, list_item_text(index, text).len() as int) == text,
        parse_usize(list_item_text(index, text).subrange(2, 5)) == Ok::<nat, IntErrorKind>(
            index as nat,
        ),
{
    let d = to_decimal(index as nat);
    lemma_to_decimal_shape(index as nat);
    lemma_pad_zeros_exact(d, 3);
    lemma_padded_reads_back(index, 3);
    let x = list_item_text(index, text);
    let p = pad_zeros(d, 3);
    assert(x.subrange(0, 2) =~= seq!['-', ' ']);
    assert(x.subrange(2, 5) =~= p);
    assert(x.subrange(5, 7) =~= seq![':', ' ']);
    assert(x.subrange(7, x.len() as int) =~= text);
}

} // verus!
