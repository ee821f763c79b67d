//! The errors of the tools and how they reach a client.

use vstd::prelude::*;
use vstd::string::*;

use crate::tools::response::CallToolResult;

verus! {

/// Application-level error. Failures that a client brought about (a bad pattern, a path outside
/// the project, something missing) are told apart from failures of the infrastructure: see
/// [`AppError::error_data`]. Each variant holds the text of what went wrong.
#[derive(Debug)]
pub enum AppError {
    Io(String),
    Regex(String),
    GrepRegex(String),
    Ignore(String),
    InvalidRequest(String),
    NotFound(String),
    Internal(String),
    OutOfScope(String),
    Axum(String),
}

/// An [`AppError`] with its text as a sequence of characters.
pub enum AppErrorView {
    Io(Seq<char>),
    Regex(Seq<char>),
    GrepRegex(Seq<char>),
    Ignore(Seq<char>),
    InvalidRequest(Seq<char>),
    NotFound(Seq<char>),
    Internal(Seq<char>),
    OutOfScope(Seq<char>),
    Axum(Seq<char>),
}

impl View for AppError {
    type V = AppErrorView;

    open spec fn view(&self) -> AppErrorView {
        match self {
            AppError::Io(s) => AppErrorView::Io(s@),
            AppError::Regex(s) => AppErrorView::Regex(s@),
            AppError::GrepRegex(s) => AppErrorView::GrepRegex(s@),
            AppError::Ignore(s) => AppErrorView::Ignore(s@),
            AppError::InvalidRequest(s) => AppErrorView::InvalidRequest(s@),
            AppError::NotFound(s) => AppErrorView::NotFound(s@),
            AppError::Internal(s) => AppErrorView::Internal(s@),
            AppError::OutOfScope(s) => AppErrorView::OutOfScope(s@),
            AppError::Axum(s) => AppErrorView::Axum(s@),
        }
    }
}

/// The class of a protocol error.
#[derive(Debug, Clone, Copy, PartialEq, Eq, Structural)]
pub enum ErrorCode {
    /// The client asked for something that cannot be served.
    InvalidParams,
    /// The server failed.
    InternalError,
}

/// A protocol error: its class, the name of the class, and what went wrong.
#[derive(Debug)]
pub struct ErrorData {
    pub code: ErrorCode,
    pub message: String,
    pub error: String,
}

impl AppErrorView {
    /// The words that a message about this error starts with.
    pub open spec fn label(self) -> Seq<char> {
        match self {
            AppErrorView::Io(_) => "I/O error: "@,
            AppErrorView::Regex(_) => "Regex error: "@,
            AppErrorView::GrepRegex(_) => "Grep regex error: "@,
            AppErrorView::Ignore(_) => "Ignore error: "@,
            AppErrorView::InvalidRequest(_) => "Invalid request: "@,
            AppErrorView::NotFound(_) => "Not found: "@,
            AppErrorView::Internal(_) => "Internal error: "@,
            AppErrorView::OutOfScope(_) => "Out of project scope: "@,
            AppErrorView::Axum(_) => "Server error: "@,
        }
    }

    /// What went wrong.
    pub open spec fn detail(self) -> Seq<char> {
        match self {
            AppErrorView::Io(s) => s,
            AppErrorView::Regex(s) => s,
            AppErrorView::GrepRegex(s) => s,
            AppErrorView::Ignore(s) => s,
            AppErrorView::InvalidRequest(s) => s,
            AppErrorView::NotFound(s) => s,
            AppErrorView::Internal(s) => s,
            AppErrorView::OutOfScope(s) => s,
            AppErrorView::Axum(s) => s,
        }
    }

    /// The whole message.
    pub open spec fn text(self) -> Seq<char> {
        self.label() + self.detail()
    }

    /// Whether the client brought the failure about.
    pub open spec fn is_client_fault(self) -> bool {
        self is Regex || self is GrepRegex || self is InvalidRequest || self is NotFound
            || self is OutOfScope
    }
}

impl AppError {
    /// The message for a person to read.
    pub fn message(&self) -> (text: String)
        ensures
            text@ == self@.text(),
    {
        let label: &str;
        let detail: &String;
        match self {
            AppError::Io(s) => {
                label = "I/O error: ";
                detail = s;
            },
            AppError::Regex(s) => {
                label = "Regex error: ";
                detail = s;
            },
            AppError::GrepRegex(s) => {
                label = "Grep regex error: ";
                detail = s;
            },
            AppError::Ignore(s) => {
                label = "Ignore error: ";
                detail = s;
            },
            AppError::InvalidRequest(s) => {
                label = "Invalid request: ";
                detail = s;
            },
            AppError::NotFound(s) => {
                label = "Not found: ";
                detail = s;
            },
            AppError::Internal(s) => {
                label = "Internal error: ";
                detail = s;
            },
            AppError::OutOfScope(s) => {
                label = "Out of project scope: ";
                detail = s;
            },
            AppError::Axum(s) => {
                label = "Server error: ";
                detail = s;
            },
        }
        let mut text = label.to_owned();
        text.append(detail.as_str());
        text
    }

    /// The protocol error that stands for this one: failures that the client brought about are
    /// `invalid_params`, the others `internal_error`.
    pub fn error_data(&self) -> (data: ErrorData)
        ensures
            (data.code == ErrorCode::InvalidParams) == self@.is_client_fault(),
            data.message@ == class_name(data.code),
            data.error@ == self@.text(),
    {
        let error = self.message();
        match self {
            AppError::Regex(_)
            | AppError::GrepRegex(_)
            | AppError::InvalidRequest(_)
            | AppError::NotFound(_)
            | AppError::OutOfScope(_) => ErrorData {
                code: ErrorCode::InvalidParams,
                message: "invalid_params".to_owned(),
                error,
            },
            AppError::Io(_) | AppError::Ignore(_) | AppError::Internal(_) | AppError::Axum(_) => {
                internal_error(error)
            },
        }
    }
}

/// The name of an error class.
pub open spec fn class_name(code: ErrorCode) -> Seq<char> {
    match code {
        ErrorCode::InvalidParams => "invalid_params"@,
        ErrorCode::InternalError => "internal_error"@,
    }
}

/// An `internal_error` with the given text.
fn internal_error(error: String) -> (data: ErrorData)
    ensures
        data.code == ErrorCode::InternalError,
        data.message@ == class_name(ErrorCode::InternalError),
        data.error@ == error@,
{
    ErrorData { code: ErrorCode::InternalError, message: "internal_error".to_owned(), error }
}

/// The protocol error for a tool whose worker did not come back, `e` being what was said of it.
pub fn join_error(e: String) -> (data: ErrorData)
    ensures
        data.code == ErrorCode::InternalError,
        data.message@ == class_name(ErrorCode::InternalError),
        data.error@ == e@,
{
    internal_error(e)
}

/// The tool result that reports `err`. It is a result and not a protocol error, so that the
/// session stays alive.
pub fn tool_error(err: AppError) -> (result: CallToolResult)
    ensures
        result.is_error,
        result.text@ == err@.text(),
        result.structured is None,
{
    CallToolResult { text: err.message(), structured: None, is_error: true }
}

} // verus!
