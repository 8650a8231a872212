//! The errors that the operations report.

use vstd::prelude::*;

verus! {

/// What kind of failure an [`AppCommandError`] reports.
#[derive(Debug, Clone, Copy, PartialEq, Eq, Structural)]
pub enum AppErrorCode {
    InvalidInput,
    NotFound,
    DatabaseError,
    IoError,
}

/// A failure of an operation, as its caller sees it.
#[derive(Debug, Clone, PartialEq, Eq)]
pub struct AppCommandError {
    pub code: AppErrorCode,
    pub message: String,
    pub detail: Option<String>,
}

/// What an [`AppCommandError`] says.
#[verifier::ext_equal]
pub struct AppErrorView {
    pub code: AppErrorCode,
    pub message: Seq<char>,
    pub detail: Option<Seq<char>>,
}

/// A failure of the database, in the database's own words.
#[derive(Debug, Clone, PartialEq, Eq)]
pub struct DbError {
    pub message: String,
}

impl View for DbError {
    type V = Seq<char>;

    open spec fn view(&self) -> Seq<char> {
        self.message@
    }
}

/// The text of an optional string.
pub open spec fn text_of(text: Option<String>) -> Option<Seq<char>> {
    match text {
        Some(t) => Some(t@),
        None => None,
    }
}

impl View for AppCommandError {
    type V = AppErrorView;

    open spec fn view(&self) -> AppErrorView {
        AppErrorView { code: self.code, message: self.message@, detail: text_of(self.detail) }
    }
}

/// An error of this kind that says `message`, without a detail.
pub open spec fn plain_error(code: AppErrorCode, message: Seq<char>) -> AppErrorView {
    AppErrorView { code, message, detail: None }
}

/// An error of this kind that says `message`, with a detail.
pub open spec fn detailed_error(
    code: AppErrorCode,
    message: Seq<char>,
    detail: Seq<char>,
) -> AppErrorView {
    AppErrorView { code, message, detail: Some(detail) }
}

/// What a database failure with this text is reported as.
pub open spec fn db_error(text: Seq<char>) -> AppErrorView {
    detailed_error(AppErrorCode::DatabaseError, "Database operation failed"@, text)
}

/// What a result with a text in it says.
pub open spec fn text_result(r: Result<String, AppCommandError>) -> Result<
    Seq<char>,
    AppErrorView,
> {
    match r {
        Ok(text) => Ok(text@),
        Err(error) => Err(error@),
    }
}

impl AppCommandError {
    fn plain(code: AppErrorCode, message: &str) -> (e: Self)
        ensures
            e@ == plain_error(code, message@),
            e.code == code,
            e.message@ == message@,
            e.detail is None,
    {
        AppCommandError { code, message: message.to_owned(), detail: None }
    }

    /// The caller asked for something that cannot be done.
    pub fn invalid_input(message: &str) -> (e: Self)
        ensures
            e@ == plain_error(AppErrorCode::InvalidInput, message@),
            e.code == AppErrorCode::InvalidInput,
            e.message@ == message@,
            e.detail is None,
    {
        Self::plain(AppErrorCode::InvalidInput, message)
    }

    /// What the caller named does not exist.
    pub fn not_found(message: &str) -> (e: Self)
        ensures
            e@ == plain_error(AppErrorCode::NotFound, message@),
            e.code == AppErrorCode::NotFound,
            e.message@ == message@,
            e.detail is None,
    {
        Self::plain(AppErrorCode::NotFound, message)
    }

    /// Something outside the program failed.
    pub fn io_error(message: &str) -> (e: Self)
        ensures
            e@ == plain_error(AppErrorCode::IoError, message@),
            e.code == AppErrorCode::IoError,
            e.message@ == message@,
            e.detail is None,
    {
        Self::plain(AppErrorCode::IoError, message)
    }

    /// The database failed.
    pub fn db(error: DbError) -> (e: Self)
        ensures
            e@ == db_error(error@),
            e.code == AppErrorCode::DatabaseError,
            e.message@ == "Database operation failed"@,
            text_of(e.detail) == Some(error.message@),
    {
        Self::plain(AppErrorCode::DatabaseError, "Database operation failed").with_detail(
            error.message,
        )
    }

    /// The same error with this detail in place of the one it had.
    pub fn with_detail(self, detail: String) -> (e: Self)
        ensures
            e@ == detailed_error(self.code, self.message@, detail@),
            e.code == self.code,
            e.message@ == self.message@,
            text_of(e.detail) == Some(detail@),
    {
        AppCommandError { code: self.code, message: self.message, detail: Some(detail) }
    }
}

} // verus!
