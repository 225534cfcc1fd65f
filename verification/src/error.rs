//! What can go wrong.

use crate::text::{decimal, decimal_of};
use vstd::prelude::*;

verus! {

/// A rule dump that could not be read.
#[derive(Debug, Clone, PartialEq, Eq)]
pub enum RIPTAnalysisError {
    /// The utility's output is no UTF-8; the system's message is given.
    FromUtf8Error(String),
    /// A line of the dump is not a rule; the line is given.
    UnexpectedOutput(String),
}

/// The result of reading a rule dump.
pub type RIPTAnalysisResult<T> = Result<T, RIPTAnalysisError>;

/// A call that failed.
#[derive(Debug, Clone, PartialEq, Eq)]
pub enum RIPTError {
    /// The lock file could not be opened or the utility could not be started; the
    /// system's message is given.
    Io(String),
    /// The lock could not be taken, for another reason than its being held; the system's
    /// error number is given.
    Nix(i32),
    /// The text is not a version of three numbers; the text is given.
    Parse(String),
    /// The utility's rule dump could not be read.
    Analysis(RIPTAnalysisError),
    /// The utility reported a failure; what it wrote to its error stream is given.
    Stderr(String),
    /// Another failure, said in words.
    Other(&'static str),
}

/// The result of a call.
pub type RIPTResult<T> = Result<T, RIPTError>;

/// An unreadable rule dump as plain values.
pub enum AnalysisView {
    FromUtf8Error(Seq<char>),
    UnexpectedOutput(Seq<char>),
}

/// A failed call as plain values.
pub enum ErrorView {
    Io(Seq<char>),
    Nix(i32),
    Parse(Seq<char>),
    Analysis(AnalysisView),
    Stderr(Seq<char>),
    Other(Seq<char>),
}

impl View for RIPTAnalysisError {
    type V = AnalysisView;

    open spec fn view(&self) -> AnalysisView {
        match *self {
            RIPTAnalysisError::FromUtf8Error(message) => AnalysisView::FromUtf8Error(message@),
            RIPTAnalysisError::UnexpectedOutput(line) => AnalysisView::UnexpectedOutput(line@),
        }
    }
}

impl View for RIPTError {
    type V = ErrorView;

    open spec fn view(&self) -> ErrorView {
        match *self {
            RIPTError::Io(message) => ErrorView::Io(message@),
            RIPTError::Nix(errno) => ErrorView::Nix(errno),
            RIPTError::Parse(text) => ErrorView::Parse(text@),
            RIPTError::Analysis(error) => ErrorView::Analysis(error@),
            RIPTError::Stderr(message) => ErrorView::Stderr(message@),
            RIPTError::Other(message) => ErrorView::Other(message@),
        }
    }
}

/// What an unreadable rule dump is reported as: the system's message, or the line that is
/// no rule.
pub open spec fn analysis_message_of(error: AnalysisView) -> Seq<char> {
    match error {
        AnalysisView::FromUtf8Error(message) => message,
        AnalysisView::UnexpectedOutput(line) => line,
    }
}

/// What a failed call is reported as: the text that it carries, and for an error number
/// the number in decimal.
pub open spec fn message_of(error: ErrorView) -> Seq<char> {
    match error {
        ErrorView::Io(message) => message,
        ErrorView::Nix(errno) => decimal_of(errno as int),
        ErrorView::Parse(text) => text,
        ErrorView::Analysis(inner) => analysis_message_of(inner),
        ErrorView::Stderr(message) => message,
        ErrorView::Other(message) => message,
    }
}

impl RIPTAnalysisError {
    /// The error in words.
    pub fn message(&self) -> (text: String)
        ensures
            text@ == analysis_message_of(self@),
    {
        match self {
            RIPTAnalysisError::FromUtf8Error(message) => message.clone(),
            RIPTAnalysisError::UnexpectedOutput(line) => line.clone(),
        }
    }
}

impl RIPTError {
    /// The error in words.
    pub fn message(&self) -> (text: String)
        ensures
            text@ == message_of(self@),
    {
        match self {
            RIPTError::Io(message) => message.clone(),
            RIPTError::Nix(errno) => decimal(*errno),
            RIPTError::Parse(text) => text.clone(),
            RIPTError::Analysis(error) => error.message(),
            RIPTError::Stderr(message) => message.clone(),
            RIPTError::Other(message) => str::to_owned(message),
        }
    }
}

impl From<RIPTAnalysisError> for RIPTError {
    fn from(error: RIPTAnalysisError) -> (wrapped: RIPTError)
        ensures
            wrapped@ == ErrorView::Analysis(error@),
    {
        RIPTError::Analysis(error)
    }
}

impl vstd::std_specs::convert::FromSpecImpl<RIPTAnalysisError> for RIPTError {
    open spec fn obeys_from_spec() -> bool {
        true
    }

    open spec fn from_spec(error: RIPTAnalysisError) -> RIPTError {
        RIPTError::Analysis(error)
    }
}

impl From<&'static str> for RIPTError {
    fn from(message: &'static str) -> (wrapped: RIPTError)
        ensures
            wrapped@ == ErrorView::Other(message@),
    {
        RIPTError::Other(message)
    }
}

impl vstd::std_specs::convert::FromSpecImpl<&'static str> for RIPTError {
    open spec fn obeys_from_spec() -> bool {
        true
    }

    open spec fn from_spec(message: &'static str) -> RIPTError {
        RIPTError::Other(message)
    }
}

} // verus!
