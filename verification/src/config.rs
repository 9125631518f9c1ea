//! The run configuration: the ordered list of source names, the line count,
//! and the optional byte count that overrides line-based truncation.

use vstd::prelude::*;
use crate::parse::digits_value;
use crate::parse::is_valid_count;
use crate::parse::parse_positive_int;
use crate::parse::token_digits;

verus! {

/// Line count used when no line argument is given.
pub const DEFAULT_LINE_COUNT: usize = 10;

/// A fatal configuration error, reported before any source is touched.
#[derive(Debug)]
pub enum ConfigError {
    /// Both a line count and a byte count were supplied.
    ConflictingFlags,
    /// The line count token failed positive-integer validation; carries the
    /// offending token verbatim.
    IllegalLineCount(String),
    /// The byte count token failed positive-integer validation; carries the
    /// offending token verbatim.
    IllegalByteCount(String),
}

impl ConfigError {
    /// The message shown for this error.
    pub open spec fn message_spec(&self) -> Seq<char> {
        match self {
            ConfigError::ConflictingFlags => "the line count and byte count options cannot be used together"@,
            ConfigError::IllegalLineCount(t) => "illegal line count -- "@ + t@,
            ConfigError::IllegalByteCount(t) => "illegal byte count -- "@ + t@,
        }
    }

    /// Renders the message for this error.
    pub fn message(&self) -> (r: String)
        ensures
            r@ == self.message_spec(),
    {
        match self {
            ConfigError::ConflictingFlags => {
                String::from_str("the line count and byte count options cannot be used together")
            },
            ConfigError::IllegalLineCount(t) => {
                let mut m = String::from_str("illegal line count -- ");
                m.append(t.as_str());
                m
            },
            ConfigError::IllegalByteCount(t) => {
                let mut m = String::from_str("illegal byte count -- ");
                m.append(t.as_str());
                m
            },
        }
    }
}

/// The validated configuration of a run.
#[derive(Debug)]
pub struct Config {
    /// Names of the sources to print, in order; "-" stands for standard input.
    pub files: Vec<String>,
    /// Line count; meaningful only when no byte count is present.
    pub lines: usize,
    /// Byte count; when present it overrides line-based truncation.
    pub bytes: Option<usize>,
}

impl Config {
    /// Well-formedness: at least one source and strictly positive counts.
    pub open spec fn wf(&self) -> bool {
        &&& self.files@.len() >= 1
        &&& self.lines >= 1
        &&& (self.bytes matches Some(b) ==> b >= 1)
    }
}

/// Builds the configuration from the raw command-line values: the positional
/// source names (defaulting to the single pseudo-source "-"), an optional
/// line count token and an optional byte count token. Supplying both counts
/// is a conflict; an invalid token is reported with the token verbatim; an
/// omitted line count defaults to `DEFAULT_LINE_COUNT`.
pub fn build_config(files: Vec<String>, lines_arg: Option<&str>, bytes_arg: Option<&str>) -> (r:
    Result<Config, ConfigError>)
    ensures
        (lines_arg is Some && bytes_arg is Some) <==> r == Err::<Config, ConfigError>(
            ConfigError::ConflictingFlags,
        ),
        lines_arg matches Some(l) ==> ((bytes_arg is None && !is_valid_count(l@)) ==> (
        r matches Err(e) && e matches ConfigError::IllegalLineCount(t) && t@ == l@)),
        bytes_arg matches Some(b) ==> ((lines_arg is None && !is_valid_count(b@)) ==> (
        r matches Err(e) && e matches ConfigError::IllegalByteCount(t) && t@ == b@)),
        !(lines_arg is Some && bytes_arg is Some) && (lines_arg matches Some(l) ==> is_valid_count(
            l@,
        )) && (bytes_arg matches Some(b) ==> is_valid_count(b@)) ==> (r matches Ok(c) && {
            &&& c.wf()
            &&& (files@.len() == 0 ==> c.files@.len() == 1 && c.files@[0]@ == "-"@)
            &&& (files@.len() > 0 ==> c.files == files)
            &&& c.lines == (match lines_arg {
                Some(l) => digits_value(token_digits(l@)),
                None => DEFAULT_LINE_COUNT as int,
            })
            &&& (bytes_arg is None ==> c.bytes is None)
            &&& (bytes_arg matches Some(b) ==> c.bytes matches Some(n) && n == digits_value(
                token_digits(b@),
            ))
        }),
{
    if lines_arg.is_some() && bytes_arg.is_some() {
        return Err(ConfigError::ConflictingFlags);
    }
    let lines: usize = match lines_arg {
        None => DEFAULT_LINE_COUNT,
        Some(l) => match parse_positive_int(l) {
            Ok(n) => n,
            Err(t) => {
                return Err(ConfigError::IllegalLineCount(t));
            },
        },
    };
    let bytes: Option<usize> = match bytes_arg {
        None => None,
        Some(b) => match parse_positive_int(b) {
            Ok(n) => Some(n),
            Err(t) => {
                return Err(ConfigError::IllegalByteCount(t));
            },
        },
    };
    let names: Vec<String> = if files.len() == 0 {
        let mut v: Vec<String> = Vec::new();
        v.push(String::from_str("-"));
        v
    } else {
        files
    };
    Ok(Config { files: names, lines, bytes })
}

} // verus!
