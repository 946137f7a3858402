//! Error taxonomy of the guard-line classifier.
//!
//! A `PrefixError` is a recoverable mismatch: the rule's fixed prefix did
//! not match and the caller should try the next rule.  A `ParseError` is
//! fatal: the prefix matched but a required field was malformed.  A
//! `SkipError` is a parser continuation: it tells the caller to re-run
//! classification on the remainder of the same line, after the recorded
//! number of characters.

use vstd::prelude::*;

verus! {

/// Spec-level outcome of holding one line against one classification
/// rule: the rule parsed a value, its fixed prefix did not match
/// (recoverable), or the prefix matched and a field was malformed (fatal).
pub enum ParseOutcome<T> {
    Parsed(T),
    NoPrefix,
    Malformed,
}

#[derive(Debug)]
pub enum GuardParseError {
    PrefixError { data: String },
    ParseError { data: String },
    SkipError { data: String, skip_num: usize },
}

impl GuardParseError {
    pub fn as_prefix_err(report: String) -> (r: Self)
        ensures
            r == (GuardParseError::PrefixError { data: report }),
    {
        GuardParseError::PrefixError { data: report }
    }

    pub fn as_parse_err(report: String) -> (r: Self)
        ensures
            r == (GuardParseError::ParseError { data: report }),
    {
        GuardParseError::ParseError { data: report }
    }

    pub fn as_skip_err(report: String, skip_num: usize) -> (r: Self)
        ensures
            r == (GuardParseError::SkipError { data: report, skip_num }),
    {
        GuardParseError::SkipError { data: report, skip_num }
    }

    pub fn is_skip_err(&self) -> (r: bool)
        ensures
            r == (self is SkipError),
    {
        matches!(self, GuardParseError::SkipError { .. })
    }

    pub fn is_prefix_err(&self) -> (r: bool)
        ensures
            r == (self is PrefixError),
    {
        matches!(self, GuardParseError::PrefixError { .. })
    }

    pub fn get_data(&self) -> (r: &String)
        ensures
            r == match self {
                GuardParseError::PrefixError { data } => data,
                GuardParseError::ParseError { data } => data,
                GuardParseError::SkipError { data, .. } => data,
            },
    {
        match self {
            GuardParseError::PrefixError { data } => data,
            GuardParseError::ParseError { data } => data,
            GuardParseError::SkipError { data, skip_num: _ } => data,
        }
    }
}

} // verus!
