//! The failures of a run and the failures that the web layer answers with.
use vstd::prelude::*;
use vstd::string::StringExecFns;

verus! {

/// The class of a failure, as the web layer reports it.
#[derive(Debug)]
pub enum AppErrorType {
    DbError,
    NotFoundError,
}

/// Why a block of a page gives no question.
#[derive(Debug, Clone, Copy, PartialEq, Eq, Structural)]
pub enum ExtractionError {
    MissingExcerpt,
    MissingTitle,
    MissingLink,
    MissingStats,
    MissingSourceId,
    InvalidVotes,
    InvalidSourceId,
    InvalidAnswers,
}

/// Why a part of a run failed. Only a page that cannot be fetched ends the run;
/// any other failure costs the block, the question or the link that it struck,
/// and the run goes on.
#[derive(Debug)]
pub enum ScrapeError {
    /// The page could not be fetched.
    Fetch(String),
    /// A block of the page gave no question.
    Extraction(ExtractionError),
    /// The store failed to take a question or a link.
    Persistence(String),
    /// The store failed to resolve a tag.
    Resolution(String),
}

impl ScrapeError {
    /// Whether the run ends with this failure.
    pub fn ends_run(&self) -> (fatal: bool)
        ensures
            fatal == (self is Fetch),
    {
        match self {
            ScrapeError::Fetch(_) => true,
            _ => false,
        }
    }
}

/// A failure with its internal cause and an optional text for the user.
#[derive(Debug)]
pub struct AppError {
    pub cause: Option<String>,
    pub message: Option<String>,
    pub error_type: AppErrorType,
}

/// The body sent to a client for a failed request.
#[derive(Debug)]
pub struct AppErrorResponse {
    pub error: String,
}

impl AppError {
    /// The text shown to the user: the error's own message where it has one,
    /// else a fixed text chosen by the error's class.
    pub open spec fn message_text(&self) -> Seq<char> {
        match (self.message, self.error_type) {
            (Some(message), _) => message@,
            (None, AppErrorType::NotFoundError) => "The requested item was not found"@,
            (None, AppErrorType::DbError) => "An unexpected error has occured"@,
        }
    }

    /// Whether the error is a failure of the store as `db_error` makes it: of
    /// the class of storage failures, with a cause and no message for the user.
    pub open spec fn is_db_error(&self) -> bool {
        &&& self.error_type == AppErrorType::DbError
        &&& self.message.is_none()
        &&& self.cause.is_some()
    }

    /// The transport status that stands for the error's class.
    pub open spec fn status(&self) -> int {
        match self.error_type {
            AppErrorType::DbError => 500,
            AppErrorType::NotFoundError => 404,
        }
    }

    pub fn message(&self) -> (text: String)
        ensures
            text@ == self.message_text(),
    {
        match &self.message {
            Some(message) => message.clone(),
            None => match self.error_type {
                AppErrorType::NotFoundError => String::from_str("The requested item was not found"),
                AppErrorType::DbError => String::from_str("An unexpected error has occured"),
            },
        }
    }

    pub fn status_code(&self) -> (code: u16)
        ensures
            code == self.status(),
    {
        match self.error_type {
            AppErrorType::DbError => 500,
            AppErrorType::NotFoundError => 404,
        }
    }

    pub fn error_response(&self) -> (body: AppErrorResponse)
        ensures
            body.error@ == self.message_text(),
    {
        AppErrorResponse { error: self.message() }
    }

    /// A storage failure that keeps the text of what went wrong as its cause.
    pub fn db_error(cause: String) -> (error: AppError)
        ensures
            error.cause == Some(cause),
            error.message.is_none(),
            error.error_type == AppErrorType::DbError,
            error.is_db_error(),
    {
        AppError { cause: Some(cause), message: None, error_type: AppErrorType::DbError }
    }
}

} // verus!
