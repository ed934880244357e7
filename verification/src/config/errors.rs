//! The errors of reading and preparing a configuration.

use vstd::prelude::*;
use vstd::string::*;

use crate::text::{self, text2, text3, decimal_text};

verus! {

/// Why an expression could not be expanded, and on which line it stands. Line
/// 0 is the command line.
#[derive(Debug, PartialEq, Eq)]
pub struct ExpansionError {
    pub line: usize,
    pub message: String,
}

/// An expansion error, with its message as a sequence of characters.
pub struct Fault {
    pub line: nat,
    pub message: Seq<char>,
}

impl View for ExpansionError {
    type V = Fault;

    open spec fn view(&self) -> Fault {
        Fault { line: self.line as nat, message: self.message@ }
    }
}

/// The fault on `line` with the given message.
pub open spec fn fault(line: nat, message: Seq<char>) -> Fault {
    Fault { line, message }
}

impl ExpansionError {
    pub fn new(line: usize, message: String) -> (r: Self)
        ensures
            r@ == fault(line as nat, message@),
    {
        ExpansionError { line, message }
    }

    pub fn told(line: usize, message: &str) -> (r: Self)
        ensures
            r@ == fault(line as nat, message@),
    {
        ExpansionError { line, message: message.to_owned() }
    }

    /// The error as it is shown.
    pub fn to_text(&self) -> (r: String)
        ensures
            r@ == (if self@.line == 0 {
                "command line: "@ + self@.message
            } else {
                "line "@ + text::decimal(self@.line) + (": "@ + self@.message)
            }),
    {
        if self.line == 0 {
            text2("command line: ", self.message.as_str())
        } else {
            let digits = decimal_text(self.line);
            let rest = text2(": ", self.message.as_str());
            text3("line ", digits.as_str(), rest.as_str())
        }
    }
}

/// Why an rc file could not be read, and on which line.
#[derive(Debug, PartialEq, Eq)]
pub struct ParseError {
    pub line: usize,
    pub message: String,
    pub resource_limit: bool,
}

/// A parse error, with its message as a sequence of characters.
pub struct Refusal {
    pub line: nat,
    pub message: Seq<char>,
    pub limit: bool,
}

impl View for ParseError {
    type V = Refusal;

    open spec fn view(&self) -> Refusal {
        Refusal { line: self.line as nat, message: self.message@, limit: self.resource_limit }
    }
}

/// The refusal of what stands on `line`.
pub open spec fn refusal(line: nat, message: Seq<char>) -> Refusal {
    Refusal { line, message, limit: false }
}

/// The refusal of what stands on `line` because a limit is reached.
pub open spec fn over_limit(line: nat, message: Seq<char>) -> Refusal {
    Refusal { line, message, limit: true }
}

impl ParseError {
    pub fn new(line: usize, message: String) -> (r: Self)
        ensures
            r@ == refusal(line as nat, message@),
    {
        ParseError { line, message, resource_limit: false }
    }

    pub fn told(line: usize, message: &str) -> (r: Self)
        ensures
            r@ == refusal(line as nat, message@),
    {
        ParseError { line, message: message.to_owned(), resource_limit: false }
    }

    pub fn limit(line: usize, message: String) -> (r: Self)
        ensures
            r@ == over_limit(line as nat, message@),
    {
        ParseError { line, message, resource_limit: true }
    }

    /// Whether a limit was the reason.
    pub fn is_resource_limit(&self) -> (r: bool)
        ensures
            r == self@.limit,
    {
        self.resource_limit
    }

    /// The error as it is shown.
    pub fn to_text(&self) -> (r: String)
        ensures
            r@ == "line "@ + text::decimal(self@.line) + (": "@ + self@.message),
    {
        let digits = decimal_text(self.line);
        let rest = text2(": ", self.message.as_str());
        text3("line ", digits.as_str(), rest.as_str())
    }
}

/// Whether a check of an rc file came out as expected.
pub open spec fn refused_as(result: Result<(), ParseError>, expected: Option<Refusal>) -> bool {
    match expected {
        Some(error) => result matches Err(found) && found@ == error,
        None => result is Ok,
    }
}

/// Whether reading a part of an rc file came out as expected.
pub open spec fn parsed_as<T: View>(
    result: Result<T, ParseError>,
    expected: Result<T::V, Refusal>,
) -> bool {
    match expected {
        Ok(value) => result matches Ok(found) && found@ == value,
        Err(error) => result matches Err(found) && found@ == error,
    }
}

/// Whether a check of an expression came out as expected.
pub open spec fn faulted_as(result: Result<(), ExpansionError>, expected: Option<Fault>) -> bool {
    match expected {
        Some(error) => result matches Err(found) && found@ == error,
        None => result is Ok,
    }
}

/// Whether an expansion came out as expected.
pub open spec fn expanded_as<T: View>(
    result: Result<T, ExpansionError>,
    expected: Result<T::V, Fault>,
) -> bool {
    match expected {
        Ok(value) => result matches Ok(found) && found@ == value,
        Err(error) => result matches Err(found) && found@ == error,
    }
}

} // verus!
