//! Errors of interface discovery.

use vstd::prelude::*;
use crate::text::{chars_of, string_of};

verus! {

/// Why no local interface address could be picked.
#[derive(Debug, Clone, PartialEq, Eq)]
pub enum DiscoveryError {
    /// Was unable to enumerate the interfaces from the os.
    UnableToEnumInterfaces { os_error: String },
    /// Was unable to read the user input.
    StdInRead { os_error: String },
    /// Unable to cast user input to a valid usize.
    InputParsing { os_error: String },
}

/// The text that describes an error: a fixed lead-in, then the cause.
pub open spec fn discovery_error_text(e: DiscoveryError) -> Seq<char> {
    match e {
        DiscoveryError::UnableToEnumInterfaces { os_error } => "unable to enumerate interfaces: "@
            + os_error@,
        DiscoveryError::StdInRead { os_error } => "unable to get user input: "@ + os_error@,
        DiscoveryError::InputParsing { os_error } => "unable to parse user input to a usize: "@
            + os_error@,
    }
}

impl DiscoveryError {
    /// The text that describes the error (what its display shows).
    pub fn to_string(&self) -> (s: String)
        ensures
            s@ == discovery_error_text(*self),
    {
        let (lead, cause) = match self {
            DiscoveryError::UnableToEnumInterfaces { os_error } => (
                "unable to enumerate interfaces: ",
                os_error,
            ),
            DiscoveryError::StdInRead { os_error } => ("unable to get user input: ", os_error),
            DiscoveryError::InputParsing { os_error } => (
                "unable to parse user input to a usize: ",
                os_error,
            ),
        };
        let mut v = chars_of(lead);
        let mut w = chars_of(cause.as_str());
        v.append(&mut w);
        string_of(&v)
    }
}

} // verus!
