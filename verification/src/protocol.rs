//! What the operations ask of the database and of the secret store, and what
//! they are answered. An operation is a state: it names the request that is
//! pending, and each answer takes it to the next state.

use vstd::prelude::*;

use crate::app_error::text_of;
use crate::connection::{
    row_views, rows_of, ConnectionPatch, ConnectionRow, NewConnectionRow, NewRowView, PatchView,
    RowView, Timestamp,
};
use crate::header::{header_rows, HeaderView, RemoteWorkspaceHeader};

verus! {

/// A request to the database or to the secret store.
#[derive(Debug, Clone, PartialEq, Eq)]
pub enum Request {
    /// All rows, in any order.
    FindAll,
    /// All rows, by sort order and then by name.
    FindOrdered,
    /// The row with the highest sort order.
    FindTop,
    /// The row with this id.
    FindById(i32),
    /// A new row.
    Insert(NewConnectionRow),
    /// A change to a row.
    Update(ConnectionPatch),
    /// The row with this id goes away.
    Delete(i32),
    /// A transaction begins.
    Begin,
    /// The transaction ends and its changes stay.
    Commit,
    /// What the secret store has as the token of this connection.
    ReadToken(i32),
    /// What the secret store has as the headers of this connection.
    ReadHeaders(i32),
    /// What the text of a `headers` column reads as.
    ParseHeaders(String),
    /// The secret store gets the token of this connection.
    StoreToken(i32, String),
    /// The secret store gets the headers of this connection.
    StoreHeaders(i32, Vec<RemoteWorkspaceHeader>),
    /// The secret store forgets this connection.
    DeleteSecrets(i32),
}

/// What a [`Request`] holds.
pub enum RequestView {
    FindAll,
    FindOrdered,
    FindTop,
    FindById(i32),
    Insert(NewRowView),
    Update(PatchView),
    Delete(i32),
    Begin,
    Commit,
    ReadToken(i32),
    ReadHeaders(i32),
    ParseHeaders(Seq<char>),
    StoreToken(i32, Seq<char>),
    StoreHeaders(i32, Seq<HeaderView>),
    DeleteSecrets(i32),
}

impl View for Request {
    type V = RequestView;

    open spec fn view(&self) -> RequestView {
        match *self {
            Request::FindAll => RequestView::FindAll,
            Request::FindOrdered => RequestView::FindOrdered,
            Request::FindTop => RequestView::FindTop,
            Request::FindById(id) => RequestView::FindById(id),
            Request::Insert(row) => RequestView::Insert(row@),
            Request::Update(patch) => RequestView::Update(patch@),
            Request::Delete(id) => RequestView::Delete(id),
            Request::Begin => RequestView::Begin,
            Request::Commit => RequestView::Commit,
            Request::ReadToken(id) => RequestView::ReadToken(id),
            Request::ReadHeaders(id) => RequestView::ReadHeaders(id),
            Request::ParseHeaders(text) => RequestView::ParseHeaders(text@),
            Request::StoreToken(id, token) => RequestView::StoreToken(id, token@),
            Request::StoreHeaders(id, headers) => RequestView::StoreHeaders(
                id,
                header_rows(headers@),
            ),
            Request::DeleteSecrets(id) => RequestView::DeleteSecrets(id),
        }
    }
}

/// What an optional request holds.
pub open spec fn request_view(request: Option<Request>) -> Option<RequestView> {
    match request {
        Some(request) => Some(request@),
        None => None,
    }
}

/// The answer to a [`Request`].
#[derive(Debug, Clone, PartialEq, Eq)]
pub enum Reply {
    /// To the requests for all rows.
    Rows(Vec<ConnectionRow>),
    /// To the requests for one row.
    Row(Option<ConnectionRow>),
    /// To an insert or an update: the row as it stands now.
    Saved(ConnectionRow),
    /// To a request for a token.
    Token(Option<String>),
    /// To a request for headers, or to read a text as headers.
    Headers(Option<Vec<RemoteWorkspaceHeader>>),
    /// To everything else.
    Done,
    /// The request failed, in the words of the one who was asked.
    Failed(String),
}

/// What a [`Reply`] holds.
pub enum ReplyView {
    Rows(Seq<RowView>),
    Row(Option<RowView>),
    Saved(RowView),
    Token(Option<Seq<char>>),
    Headers(Option<Seq<HeaderView>>),
    Done,
    Failed(Seq<char>),
}

/// What an optional row holds.
pub open spec fn row_view(row: Option<ConnectionRow>) -> Option<RowView> {
    match row {
        Some(row) => Some(row@),
        None => None,
    }
}

impl View for Reply {
    type V = ReplyView;

    open spec fn view(&self) -> ReplyView {
        match *self {
            Reply::Rows(rows) => ReplyView::Rows(row_views(rows@)),
            Reply::Row(row) => ReplyView::Row(row_view(row)),
            Reply::Saved(row) => ReplyView::Saved(row@),
            Reply::Token(token) => ReplyView::Token(text_of(token)),
            Reply::Headers(headers) => ReplyView::Headers(rows_of(headers)),
            Reply::Done => ReplyView::Done,
            Reply::Failed(error) => ReplyView::Failed(error@),
        }
    }
}

/// The rules of an operation: which request is pending in a state, and which
/// state an answer leads to, at the time it comes. An answer that does not fit
/// the pending request changes nothing.
pub trait Protocol: Sized {
    spec fn pending(self) -> Option<RequestView>;

    spec fn after(self, reply: ReplyView, now: Timestamp) -> Self;
}

/// Which of the two secrets of a connection is being written.
#[derive(Debug, Clone, Copy, PartialEq, Eq, Structural)]
pub enum SecretWrite {
    Token,
    Headers,
}

/// How far writing the secrets of a connection has come.
#[derive(Debug, Clone, PartialEq, Eq)]
pub enum StoreProgress {
    /// This write comes next.
    Next(SecretWrite),
    /// Both secrets are written.
    Stored,
    /// A write failed, in the words of the store; nothing more is written.
    Failed(String),
}

/// The secrets of a connection go to the store in two writes, the token first.
/// `pending` is the write that was answered with `answer`: the headers are
/// written once the token is, and the first failure ends the writing.
pub fn store_secrets(pending: SecretWrite, answer: Result<(), String>) -> (r: StoreProgress)
    ensures
        match answer {
            Ok(_) => match pending {
                SecretWrite::Token => r == StoreProgress::Next(SecretWrite::Headers),
                SecretWrite::Headers => r == StoreProgress::Stored,
            },
            Err(error) => r == StoreProgress::Failed(error),
        },
{
    match answer {
        Ok(_) => match pending {
            SecretWrite::Token => StoreProgress::Next(SecretWrite::Headers),
            SecretWrite::Headers => StoreProgress::Stored,
        },
        Err(error) => StoreProgress::Failed(error),
    }
}

/// The request that writes one of the secrets of a connection.
pub open spec fn secret_request(
    id: i32,
    token: Seq<char>,
    headers: Seq<HeaderView>,
    write: SecretWrite,
) -> RequestView {
    match write {
        SecretWrite::Token => RequestView::StoreToken(id, token),
        SecretWrite::Headers => RequestView::StoreHeaders(id, headers),
    }
}

} // verus!
