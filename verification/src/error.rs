//! Error types of the application logic and of the configuration.
use vstd::prelude::*;
use vstd::string::StringExecFns;

verus! {

broadcast use vstd::string::group_string_axioms;

/// Defines application logic error types.
#[derive(Debug, PartialEq)]
pub enum AppError {
    /// Malformed textual grammar: wrong segment count or unknown unit.
    InvalidInputString(String),
    /// A numeric sub-field failed integer parsing.
    ParseError(String),
    /// A computed year, month and day do not name a calendar date.
    CalendarConstructionError(String),
}

/// What an `AppError` says, with the message as a sequence of characters.
pub enum AppErrorView {
    InvalidInputString(Seq<char>),
    ParseError(Seq<char>),
    CalendarConstructionError(Seq<char>),
}

impl AppErrorView {
    /// The text shown for the error: its kind, then its message.
    pub open spec fn display(self) -> Seq<char> {
        match self {
            AppErrorView::InvalidInputString(m) => "Invalid string format: "@ + m,
            AppErrorView::ParseError(m) => "Parse error: "@ + m,
            AppErrorView::CalendarConstructionError(m) => "Calendar construction error: "@ + m,
        }
    }
}

impl View for AppError {
    type V = AppErrorView;

    open spec fn view(&self) -> AppErrorView {
        match self {
            AppError::InvalidInputString(m) => AppErrorView::InvalidInputString(m@),
            AppError::ParseError(m) => AppErrorView::ParseError(m@),
            AppError::CalendarConstructionError(m) => AppErrorView::CalendarConstructionError(m@),
        }
    }
}

impl AppError {
    /// The text shown for the error: its kind, then its message.
    pub fn to_string(&self) -> (s: String)
        ensures
            s@ == self@.display(),
    {
        match self {
            AppError::InvalidInputString(m) => "Invalid string format: ".to_owned().concat(
                m.as_str(),
            ),
            AppError::ParseError(m) => "Parse error: ".to_owned().concat(m.as_str()),
            AppError::CalendarConstructionError(m) => "Calendar construction error: ".to_owned()
                .concat(m.as_str()),
        }
    }
}

/// A result with its error, if any, replaced by what the error says.
pub open spec fn outcome<T>(r: Result<T, AppError>) -> Result<T, AppErrorView> {
    match r {
        Ok(v) => Ok(v),
        Err(e) => Err(e@),
    }
}

/// Defines configuration setting error types.
#[derive(Debug)]
pub enum ConfigError {
    /// The data directory is not available.
    LocalDataDirUnavailable,
    /// The local data directory could not be created.
    LocalAppDataDirCreationFailure(String),
}

impl ConfigError {
    /// The text shown for the error.
    pub open spec fn display(&self) -> Seq<char> {
        match self {
            ConfigError::LocalDataDirUnavailable => "Failed to get the data directory."@,
            ConfigError::LocalAppDataDirCreationFailure(m) => "Failed to create directory: "@ + m@,
        }
    }

    /// The text shown for the error.
    pub fn to_string(&self) -> (s: String)
        ensures
            s@ == self.display(),
    {
        match self {
            ConfigError::LocalDataDirUnavailable => "Failed to get the data directory.".to_owned(),
            ConfigError::LocalAppDataDirCreationFailure(m) => "Failed to create directory: "
                .to_owned().concat(m.as_str()),
        }
    }
}

} // verus!
