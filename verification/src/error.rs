//! The failures that the library reports.

use crate::codec::views;
use crate::text::{decimal, decimal_text, joined};
use vstd::prelude::*;
use vstd::string::*;

verus! {

/// Why an operation was refused.
#[derive(Debug, PartialEq, Eq)]
pub enum Error {
    /// Captured or compiled state breaks a rule that the library itself keeps.
    CaptureInvariant(&'static str),
    /// A bounded resource is used up.
    CaptureLimitExceeded { resource: &'static str, limit: usize },
    /// The statement is outside the supported SQL.
    UnsupportedSql(&'static str),
    /// Durable local state does not fit the operation.
    InvalidDatabase(&'static str),
    /// A logical operation is malformed.
    InvalidMultiliteOp(String),
    /// A logical transaction is malformed.
    InvalidMultiliteTransaction(String),
    /// Another admitted change excludes this one.
    CommitConflict(String),
    /// The system's random source failed.
    Entropy(String),
}

/// A failure as a mathematical value.
pub enum ErrorView {
    CaptureInvariant(Seq<char>),
    CaptureLimitExceeded { resource: Seq<char>, limit: usize },
    UnsupportedSql(Seq<char>),
    InvalidDatabase(Seq<char>),
    InvalidMultiliteOp(Seq<char>),
    InvalidMultiliteTransaction(Seq<char>),
    CommitConflict(Seq<char>),
    Entropy(Seq<char>),
}

impl View for Error {
    type V = ErrorView;

    open spec fn view(&self) -> ErrorView {
        match self {
            Error::CaptureInvariant(text) => ErrorView::CaptureInvariant(text@),
            Error::CaptureLimitExceeded { resource, limit } => ErrorView::CaptureLimitExceeded {
                resource: resource@,
                limit: *limit,
            },
            Error::UnsupportedSql(text) => ErrorView::UnsupportedSql(text@),
            Error::InvalidDatabase(text) => ErrorView::InvalidDatabase(text@),
            Error::InvalidMultiliteOp(text) => ErrorView::InvalidMultiliteOp(text@),
            Error::InvalidMultiliteTransaction(text) => ErrorView::InvalidMultiliteTransaction(
                text@,
            ),
            Error::CommitConflict(text) => ErrorView::CommitConflict(text@),
            Error::Entropy(text) => ErrorView::Entropy(text@),
        }
    }
}

impl Clone for Error {
    fn clone(&self) -> (r: Self)
        ensures
            r@ == self@,
    {
        match self {
            Error::CaptureInvariant(text) => Error::CaptureInvariant(*text),
            Error::CaptureLimitExceeded { resource, limit } => Error::CaptureLimitExceeded {
                resource: *resource,
                limit: *limit,
            },
            Error::UnsupportedSql(text) => Error::UnsupportedSql(*text),
            Error::InvalidDatabase(text) => Error::InvalidDatabase(*text),
            Error::InvalidMultiliteOp(text) => Error::InvalidMultiliteOp(text.clone()),
            Error::InvalidMultiliteTransaction(text) => Error::InvalidMultiliteTransaction(
                text.clone(),
            ),
            Error::CommitConflict(text) => Error::CommitConflict(text.clone()),
            Error::Entropy(text) => Error::Entropy(text.clone()),
        }
    }
}

/// The message of a failure.
pub open spec fn error_text(error: ErrorView) -> Seq<char> {
    match error {
        ErrorView::CaptureInvariant(text) => text,
        ErrorView::CaptureLimitExceeded { resource, limit } => resource + " exceeds "@ + decimal(
            limit as nat,
        ),
        ErrorView::UnsupportedSql(text) => text,
        ErrorView::InvalidDatabase(text) => text,
        ErrorView::InvalidMultiliteOp(text) => text,
        ErrorView::InvalidMultiliteTransaction(text) => text,
        ErrorView::CommitConflict(text) => text,
        ErrorView::Entropy(text) => text,
    }
}

impl Error {
    /// The failure's message.
    pub fn text(&self) -> (r: String)
        ensures
            r@ == error_text(self@),
    {
        match self {
            Error::CaptureInvariant(text) => (*text).to_owned(),
            Error::CaptureLimitExceeded { resource, limit } => {
                let mut r = joined(*resource, " exceeds ");
                r.append(decimal_text(*limit as u64).as_str());
                r
            },
            Error::UnsupportedSql(text) => (*text).to_owned(),
            Error::InvalidDatabase(text) => (*text).to_owned(),
            Error::InvalidMultiliteOp(text) => text.clone(),
            Error::InvalidMultiliteTransaction(text) => text.clone(),
            Error::CommitConflict(text) => text.clone(),
            Error::Entropy(text) => text.clone(),
        }
    }
}

/// A result over views.
pub open spec fn verdict<T: View>(r: Result<T>) -> std::result::Result<T::V, ErrorView> {
    match r {
        Ok(value) => Ok(value@),
        Err(error) => Err(error@),
    }
}

/// A list's result over views.
pub open spec fn list_verdict<T: View>(r: Result<Vec<T>>) -> std::result::Result<
    Seq<T::V>,
    ErrorView,
> {
    match r {
        Ok(items) => Ok(views(items@)),
        Err(error) => Err(error@),
    }
}

/// What is left of a result that carries nothing.
pub open spec fn refusal(r: Result<()>) -> Option<ErrorView> {
    match r {
        Ok(_) => None,
        Err(error) => Some(error@),
    }
}

pub type Result<T> = std::result::Result<T, Error>;

} // verus!
