//! The settings of the program and the choices it derives from them.

use vstd::prelude::*;
use crate::decimal::{
    decimal_chars, lemma_typed_number, parse_usize, parse_usize_chars, to_decimal, zeros,
};
use crate::ipv4::{ipv4_text, Ipv4Addr};
use crate::text::{chars_of, string_of, trim, trim_chars};

verus! {

/// The command-line settings.
#[derive(Debug, Clone)]
pub struct Cli {
    /// Interface IP to bind to (skips interactive picker)
    pub interface: Option<Ipv4Addr>,
    /// UDP port to use
    pub port: u16,
    /// Shared room/pairing code
    pub code: String,
    /// Broadcast interval in seconds
    pub broadcast_interval: u64,
    /// Run non-interactively: auto-test connection as soon as a peer is found.
    /// If this is not set, the program closes after answering a probe
    pub auto_test: bool,
    /// Prevents the program from automatically stopping
    pub no_stop: bool,
    /// Increase log verbosity (-v -vv)
    pub verbose: u8,
    /// Emit machine-readable JSON status lines instead of prose
    pub json: bool,
    /// Maximum retries for the direct connection test
    pub max_direct_tries: u64,
}

/// The long version text: `<version> by <authors>`.
pub fn get_long_version(version: &str, authors: &str) -> (s: String)
    ensures
        s@ == version@ + " by "@ + authors@,
{
    let mut v = chars_of(version);
    let mut by = chars_of(" by ");
    v.append(&mut by);
    let mut a = chars_of(authors);
    v.append(&mut a);
    string_of(&v)
}

/// How much the program logs.
#[derive(Clone, Copy, Debug, PartialEq, Eq, Structural)]
pub enum LogLevel {
    Warn,
    Info,
    Debug,
    Trace,
}

/// The log level for `verbose` repetitions of `-v`: none gives warnings,
/// one info, two debug, three trace; more fall back to info.
pub open spec fn spec_log_level(verbose: u8) -> LogLevel {
    if verbose == 0 {
        LogLevel::Warn
    } else if verbose == 1 {
        LogLevel::Info
    } else if verbose == 2 {
        LogLevel::Debug
    } else if verbose == 3 {
        LogLevel::Trace
    } else {
        LogLevel::Info
    }
}

/// More `-v` than there are levels falls back to info, which is what the
/// note announces; trace is chosen for exactly three, debug for exactly
/// two, and warnings only without any `-v`.
pub proof fn lemma_log_level_choices(verbose: u8)
    ensures
        verbose > 3 ==> spec_log_level(verbose) == LogLevel::Info,
        (spec_log_level(verbose) == LogLevel::Trace) <==> verbose == 3,
        (spec_log_level(verbose) == LogLevel::Debug) <==> verbose == 2,
        (spec_log_level(verbose) == LogLevel::Warn) <==> verbose == 0,
        (spec_log_level(verbose) == LogLevel::Info) <==> (verbose == 1 || verbose > 3),
{
}

/// The log level for `verbose` repetitions of `-v`.
pub fn log_level(verbose: u8) -> (l: LogLevel)
    ensures
        l == spec_log_level(verbose),
{
    match verbose {
        0 => LogLevel::Warn,
        1 => LogLevel::Info,
        2 => LogLevel::Debug,
        3 => LogLevel::Trace,
        _ => LogLevel::Info,
    }
}

/// The note printed when there are more `-v` than levels, or `None`.
pub fn verbosity_note(verbose: u8) -> (s: Option<String>)
    ensures
        verbose <= 3 ==> s is None,
        verbose > 3 ==> (s matches Some(t) && t@ == "We don't have v*"@ + to_decimal(
            verbose as nat,
        ) + ". Using Info level as fall back."@),
{
    if verbose <= 3 {
        return None;
    }
    let mut v = chars_of("We don't have v*");
    let mut n = decimal_chars(verbose as u128);
    v.append(&mut n);
    let mut tail = chars_of(". Using Info level as fall back.");
    v.append(&mut tail);
    Some(string_of(&v))
}

/// An answer to the menu shown once a peer is found.
#[derive(Clone, Copy, Debug, PartialEq, Eq, Structural)]
pub enum MenuChoice {
    /// `1`: stop the program.
    Quit,
    /// `2`: test the direct link to the peer.
    TestConnection,
    /// Anything else: ask again.
    AskAgain,
}

/// The menu answer that `line` gives: the trimmed line read as a number
/// (a line that is none counts as 0).
pub open spec fn spec_menu_choice(line: Seq<char>) -> MenuChoice {
    match parse_usize(trim(line)) {
        Ok(n) => if n == 1 {
            MenuChoice::Quit
        } else if n == 2 {
            MenuChoice::TestConnection
        } else {
            MenuChoice::AskAgain
        },
        Err(_) => MenuChoice::AskAgain,
    }
}

/// A typed number chooses from the menu by its value, with zeros in front
/// or not: 1 quits, 2 tests the connection, any other asks again.
pub proof fn lemma_menu_typed_number(k: nat, n: usize)
    ensures
        spec_menu_choice(zeros(k) + to_decimal(n as nat) + seq!['\n']) == (if n == 1 {
            MenuChoice::Quit
        } else if n == 2 {
            MenuChoice::TestConnection
        } else {
            MenuChoice::AskAgain
        }),
{
    lemma_typed_number(k, n);
}

/// The menu answer that `line` gives.
pub fn menu_choice(line: &str) -> (c: MenuChoice)
    ensures
        c == spec_menu_choice(line@),
{
    let v = chars_of(line);
    let t = trim_chars(&v);
    let n: usize = match parse_usize_chars(&t) {
        Ok(n) => n,
        Err(_) => 0,
    };
    if n == 1 {
        MenuChoice::Quit
    } else if n == 2 {
        MenuChoice::TestConnection
    } else {
        MenuChoice::AskAgain
    }
}

/// The menu offered once the peer at `peer` is found.
pub open spec fn menu_text(peer: Ipv4Addr) -> Seq<char> {
    "1: Quit\n2: Test Connection to "@ + ipv4_text(peer)
}

/// The menu offered once the peer at `peer` is found.
pub fn menu_message(peer: Ipv4Addr) -> (s: String)
    ensures
        s@ == menu_text(peer),
{
    let mut v = chars_of("1: Quit\n2: Test Connection to ");
    let mut t = peer.to_chars();
    v.append(&mut t);
    string_of(&v)
}

} // verus!
