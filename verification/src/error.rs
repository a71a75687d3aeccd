//! The shared error taxonomy: an operational error (I/O or data) wrapping a
//! data error, and a data error that is either a missing column or a failed
//! field together with the exact raw text that failed to parse.

use vstd::prelude::*;

verus! {

/// Relies on `String::push_str`: appends the given string slice onto the
/// end of the string.
pub assume_specification[ String::push_str ](s: &mut String, other: &str)
    ensures
        final(s)@ == old(s)@ + other@,
;

/// The concrete reasons a single field can fail to parse.
#[derive(Clone, Copy, PartialEq, Eq, Structural, Debug)]
pub enum FailureCause {
    /// A numeric column was empty.
    EmptyNumber,
    /// A numeric column held a character outside `0`..=`9`.
    InvalidDigit,
    /// A numeric column held a value above `u64::MAX`.
    NumberOverflow,
    /// A timestamp column deviated from the fixed textual layout.
    TimestampLayout,
    /// A timestamp column matched the layout but held an out-of-range
    /// calendar or clock value.
    TimestampRange,
}

impl FailureCause {
    /// The message describing this cause.
    pub open spec fn spec_message(self) -> Seq<char> {
        match self {
            FailureCause::EmptyNumber => "cannot parse integer from empty string"@,
            FailureCause::InvalidDigit => "invalid digit found in string"@,
            FailureCause::NumberOverflow => "number too large to fit in target type"@,
            FailureCause::TimestampLayout => "input does not match the timestamp format"@,
            FailureCause::TimestampRange => "timestamp value out of range"@,
        }
    }

    pub fn message(&self) -> (r: &'static str)
        ensures
            r@ == self.spec_message(),
    {
        match self {
            FailureCause::EmptyNumber => "cannot parse integer from empty string",
            FailureCause::InvalidDigit => "invalid digit found in string",
            FailureCause::NumberOverflow => "number too large to fit in target type",
            FailureCause::TimestampLayout => "input does not match the timestamp format",
            FailureCause::TimestampRange => "timestamp value out of range",
        }
    }
}

/// A data error raised while parsing one line.
#[derive(Clone, PartialEq, Eq, Debug)]
pub enum ParseError {
    /// A required column was absent: the line had fewer comma-separated
    /// fields than the position at which this column was expected.
    MissingColumn,
    /// A column was present but failed to parse; holds the detected cause
    /// and the exact raw text of the offending field.
    Failure(FailureCause, String),
}

impl ParseError {
    /// Wrap an inner parsing failure together with the raw text it came from.
    pub fn failure(cause: FailureCause, context: &str) -> (r: Self)
        ensures
            r matches ParseError::Failure(c, t) && c == cause && t@ == context@,
    {
        ParseError::Failure(cause, context.to_owned())
    }

    /// The rendered causal chain: the top message, then for a wrapped
    /// failure the cause's message and the offending raw text.
    pub open spec fn spec_render(self) -> Seq<char> {
        match self {
            ParseError::MissingColumn => "Column missing from data"@,
            ParseError::Failure(cause, context) => cause.spec_message() + " in context: "@
                + context@,
        }
    }

    pub fn render(&self) -> (r: String)
        ensures
            r@ == self.spec_render(),
    {
        match self {
            ParseError::MissingColumn => "Column missing from data".to_owned(),
            ParseError::Failure(cause, context) => {
                let mut out = cause.message().to_owned();
                out.push_str(" in context: ");
                out.push_str(context.as_str());
                out
            },
        }
    }
}

/// What kind of operational error occurred: an I/O failure with its cause
/// already rendered as text, or a data error from parsing.
#[derive(Clone, PartialEq, Eq, Debug)]
pub enum ErrorKind {
    Io(String),
    Data(ParseError),
}

/// An operational error: a top-level message over an underlying cause.
#[derive(Clone, PartialEq, Eq, Debug)]
pub struct Error {
    kind: ErrorKind,
    message: String,
}

impl Error {
    /// The underlying kind.
    pub closed spec fn spec_kind(self) -> ErrorKind {
        self.kind
    }

    /// The top-level message.
    pub closed spec fn spec_message(self) -> Seq<char> {
        self.message@
    }

    /// The underlying kind.
    pub fn kind(&self) -> (k: &ErrorKind)
        ensures
            *k == self.spec_kind(),
    {
        &self.kind
    }

    /// Wrap an I/O failure, rendered as text, under a contextual message.
    pub fn io(cause: String, message: String) -> (r: Self)
        ensures
            r.spec_kind() == ErrorKind::Io(cause),
            r.spec_message() == message@,
    {
        Error { kind: ErrorKind::Io(cause), message }
    }

    /// Wrap a data error under the fixed parsing message.
    pub fn from_data(error: ParseError) -> (r: Self)
        ensures
            r.spec_kind() == ErrorKind::Data(error),
            r.spec_message() == "Failed to parse"@,
    {
        Error { kind: ErrorKind::Data(error), message: "Failed to parse".to_owned() }
    }

    /// The full rendered causal path: the top message, then `": "` and the
    /// rendered cause, down to the innermost failure and its offending text.
    pub open spec fn spec_render(self) -> Seq<char> {
        self.spec_message() + ": "@ + (match self.spec_kind() {
            ErrorKind::Io(cause) => cause@,
            ErrorKind::Data(error) => error.spec_render(),
        })
    }

    pub fn render(&self) -> (r: String)
        ensures
            r@ == self.spec_render(),
    {
        let mut out = self.message.clone();
        out.push_str(": ");
        match &self.kind {
            ErrorKind::Io(cause) => out.push_str(cause.as_str()),
            ErrorKind::Data(error) => {
                let rendered = error.render();
                out.push_str(rendered.as_str());
            },
        }
        out
    }
}

} // verus!
