//! Remote workspace connections: the rows of the database, the records that
//! the operations hand out, and what the frontend sees of them.

use vstd::prelude::*;

use crate::app_error::text_of;
use crate::header::{header_rows, HeaderView, RemoteWorkspaceHeader};
use crate::text::same_text;

verus! {

/// A point in time: seconds since the Unix epoch, and nanoseconds.
#[derive(Debug, Clone, Copy, PartialEq, Eq, Structural)]
pub struct Timestamp {
    pub seconds: i64,
    pub nanos: u32,
}

/// What the `headers` column of a row holds when the row has no headers in it.
pub const EMPTY_HEADERS_JSON: &'static str = "[]";

/// A row of the connection table. The columns `token` and `headers` hold
/// secrets only in a row that an older version wrote.
#[derive(Debug, Clone, PartialEq, Eq)]
pub struct ConnectionRow {
    pub id: i32,
    pub name: String,
    pub base_url: String,
    pub token: String,
    pub headers: String,
    pub sort_order: i32,
    pub created_at: Timestamp,
    pub updated_at: Timestamp,
}

/// What a [`ConnectionRow`] holds.
#[verifier::ext_equal]
pub struct RowView {
    pub id: i32,
    pub name: Seq<char>,
    pub base_url: Seq<char>,
    pub token: Seq<char>,
    pub headers: Seq<char>,
    pub sort_order: i32,
    pub created_at: Timestamp,
    pub updated_at: Timestamp,
}

impl View for ConnectionRow {
    type V = RowView;

    open spec fn view(&self) -> RowView {
        RowView {
            id: self.id,
            name: self.name@,
            base_url: self.base_url@,
            token: self.token@,
            headers: self.headers@,
            sort_order: self.sort_order,
            created_at: self.created_at,
            updated_at: self.updated_at,
        }
    }
}

/// What a list of rows holds.
pub open spec fn row_views(rows: Seq<ConnectionRow>) -> Seq<RowView> {
    Seq::new(rows.len(), |i: int| rows[i]@)
}

/// A row that has no id yet.
#[derive(Debug, Clone, PartialEq, Eq)]
pub struct NewConnectionRow {
    pub name: String,
    pub base_url: String,
    pub token: String,
    pub headers: String,
    pub sort_order: i32,
    pub created_at: Timestamp,
    pub updated_at: Timestamp,
}

/// What a [`NewConnectionRow`] holds.
#[verifier::ext_equal]
pub struct NewRowView {
    pub name: Seq<char>,
    pub base_url: Seq<char>,
    pub token: Seq<char>,
    pub headers: Seq<char>,
    pub sort_order: i32,
    pub created_at: Timestamp,
    pub updated_at: Timestamp,
}

impl NewRowView {
    /// The row under an id.
    pub open spec fn with_id(self, id: i32) -> RowView {
        RowView {
            id,
            name: self.name,
            base_url: self.base_url,
            token: self.token,
            headers: self.headers,
            sort_order: self.sort_order,
            created_at: self.created_at,
            updated_at: self.updated_at,
        }
    }
}

impl View for NewConnectionRow {
    type V = NewRowView;

    open spec fn view(&self) -> NewRowView {
        NewRowView {
            name: self.name@,
            base_url: self.base_url@,
            token: self.token@,
            headers: self.headers@,
            sort_order: self.sort_order,
            created_at: self.created_at,
            updated_at: self.updated_at,
        }
    }
}

/// A change to the row with this id: each column that is given gets its new
/// value, the others stay.
#[derive(Debug, Clone, PartialEq, Eq)]
pub struct ConnectionPatch {
    pub id: i32,
    pub name: Option<String>,
    pub base_url: Option<String>,
    pub token: Option<String>,
    pub headers: Option<String>,
    pub sort_order: Option<i32>,
    pub updated_at: Option<Timestamp>,
}

/// What a [`ConnectionPatch`] holds.
#[verifier::ext_equal]
pub struct PatchView {
    pub id: i32,
    pub name: Option<Seq<char>>,
    pub base_url: Option<Seq<char>>,
    pub token: Option<Seq<char>>,
    pub headers: Option<Seq<char>>,
    pub sort_order: Option<i32>,
    pub updated_at: Option<Timestamp>,
}

/// The new value where there is one, else the old.
pub open spec fn or_kept<T>(new: Option<T>, old_value: T) -> T {
    match new {
        Some(value) => value,
        None => old_value,
    }
}

impl PatchView {
    /// The row after the change.
    pub open spec fn applied_to(self, row: RowView) -> RowView {
        RowView {
            id: row.id,
            name: or_kept(self.name, row.name),
            base_url: or_kept(self.base_url, row.base_url),
            token: or_kept(self.token, row.token),
            headers: or_kept(self.headers, row.headers),
            sort_order: or_kept(self.sort_order, row.sort_order),
            created_at: row.created_at,
            updated_at: or_kept(self.updated_at, row.updated_at),
        }
    }
}

impl View for ConnectionPatch {
    type V = PatchView;

    open spec fn view(&self) -> PatchView {
        PatchView {
            id: self.id,
            name: text_of(self.name),
            base_url: text_of(self.base_url),
            token: text_of(self.token),
            headers: text_of(self.headers),
            sort_order: self.sort_order,
            updated_at: self.updated_at,
        }
    }
}

/// A connection with its secrets. It stays on this side of the frontend.
#[derive(Debug, Clone, PartialEq, Eq)]
pub struct RemoteWorkspaceConnectionRecord {
    pub id: i32,
    pub name: String,
    pub base_url: String,
    pub token: String,
    pub headers: Vec<RemoteWorkspaceHeader>,
    pub sort_order: i32,
    pub created_at: Timestamp,
    pub updated_at: Timestamp,
}

/// What a [`RemoteWorkspaceConnectionRecord`] holds.
#[verifier::ext_equal]
pub struct RecordView {
    pub id: i32,
    pub name: Seq<char>,
    pub base_url: Seq<char>,
    pub token: Seq<char>,
    pub headers: Seq<HeaderView>,
    pub sort_order: i32,
    pub created_at: Timestamp,
    pub updated_at: Timestamp,
}

impl View for RemoteWorkspaceConnectionRecord {
    type V = RecordView;

    open spec fn view(&self) -> RecordView {
        RecordView {
            id: self.id,
            name: self.name@,
            base_url: self.base_url@,
            token: self.token@,
            headers: header_rows(self.headers@),
            sort_order: self.sort_order,
            created_at: self.created_at,
            updated_at: self.updated_at,
        }
    }
}

/// What a list of records holds.
pub open spec fn record_views(records: Seq<RemoteWorkspaceConnectionRecord>) -> Seq<RecordView> {
    Seq::new(records.len(), |i: int| records[i]@)
}

/// What the frontend sees of a connection: whether there is a token, but not
/// the token.
#[derive(Debug, Clone, PartialEq, Eq)]
pub struct RemoteWorkspaceConnectionInfo {
    pub id: i32,
    pub name: String,
    pub base_url: String,
    pub has_token: bool,
    pub headers: Vec<RemoteWorkspaceHeader>,
    pub sort_order: i32,
    pub created_at: Timestamp,
    pub updated_at: Timestamp,
}

/// What a [`RemoteWorkspaceConnectionInfo`] holds.
#[verifier::ext_equal]
pub struct InfoView {
    pub id: i32,
    pub name: Seq<char>,
    pub base_url: Seq<char>,
    pub has_token: bool,
    pub headers: Seq<HeaderView>,
    pub sort_order: i32,
    pub created_at: Timestamp,
    pub updated_at: Timestamp,
}

impl View for RemoteWorkspaceConnectionInfo {
    type V = InfoView;

    open spec fn view(&self) -> InfoView {
        InfoView {
            id: self.id,
            name: self.name@,
            base_url: self.base_url@,
            has_token: self.has_token,
            headers: header_rows(self.headers@),
            sort_order: self.sort_order,
            created_at: self.created_at,
            updated_at: self.updated_at,
        }
    }
}

/// What the frontend sees of a record.
pub open spec fn info_of(record: RecordView) -> InfoView {
    InfoView {
        id: record.id,
        name: record.name,
        base_url: record.base_url,
        has_token: record.token.len() > 0,
        headers: record.headers,
        sort_order: record.sort_order,
        created_at: record.created_at,
        updated_at: record.updated_at,
    }
}

impl RemoteWorkspaceConnectionRecord {
    /// What the frontend sees of the connection.
    pub fn into_info(self) -> (info: RemoteWorkspaceConnectionInfo)
        ensures
            info@ == info_of(self@),
            info.id == self.id,
            info.name@ == self.name@,
            info.base_url@ == self.base_url@,
            info.has_token == (self.token@.len() > 0),
            info.headers == self.headers,
            info.sort_order == self.sort_order,
            info.created_at == self.created_at,
            info.updated_at == self.updated_at,
    {
        RemoteWorkspaceConnectionInfo {
            id: self.id,
            name: self.name,
            base_url: self.base_url,
            has_token: !self.token.as_str().is_empty(),
            headers: self.headers,
            sort_order: self.sort_order,
            created_at: self.created_at,
            updated_at: self.updated_at,
        }
    }
}

/// Two records that differ in nothing but their tokens, neither of them empty,
/// look the same to the frontend: the token does not get through.
pub proof fn info_does_not_tell_the_token(record: RecordView, token: Seq<char>)
    requires
        record.token.len() > 0,
        token.len() > 0,
    ensures
        info_of(RecordView { token, ..record }) == info_of(record),
{
}

/// The record of a row with these secrets.
pub open spec fn record_of(
    row: RowView,
    token: Seq<char>,
    headers: Seq<HeaderView>,
) -> RecordView {
    RecordView {
        id: row.id,
        name: row.name,
        base_url: row.base_url,
        token,
        headers,
        sort_order: row.sort_order,
        created_at: row.created_at,
        updated_at: row.updated_at,
    }
}

/// The record of a row with these secrets. The secrets in the columns of the
/// row do not count.
pub fn record_with_secrets(
    row: ConnectionRow,
    token: String,
    headers: Vec<RemoteWorkspaceHeader>,
) -> (record: RemoteWorkspaceConnectionRecord)
    ensures
        record@ == record_of(row@, token@, header_rows(headers@)),
        record.id == row.id,
        record.name@ == row.name@,
        record.base_url@ == row.base_url@,
        record.token@ == token@,
        record.headers == headers,
        record.sort_order == row.sort_order,
        record.created_at == row.created_at,
        record.updated_at == row.updated_at,
{
    RemoteWorkspaceConnectionRecord {
        id: row.id,
        name: row.name,
        base_url: row.base_url,
        token,
        headers,
        sort_order: row.sort_order,
        created_at: row.created_at,
        updated_at: row.updated_at,
    }
}

/// The texts of an optional list of headers.
pub open spec fn rows_of(headers: Option<Vec<RemoteWorkspaceHeader>>) -> Option<Seq<HeaderView>> {
    match headers {
        Some(headers) => Some(header_rows(headers@)),
        None => None,
    }
}

/// The token of a row: what the secret store has for it, else its column.
pub open spec fn token_of(row: RowView, stored: Option<Seq<char>>) -> Seq<char> {
    or_kept(stored, row.token)
}

/// The headers of a row: what the secret store has for it, else what its column
/// reads as, else none.
pub open spec fn headers_of(
    stored: Option<Seq<HeaderView>>,
    column: Option<Seq<HeaderView>>,
) -> Seq<HeaderView> {
    or_kept(stored, or_kept(column, seq![]))
}

/// The record of a row, from what the secret store answered for it and what the
/// `headers` column reads as (`None` where it cannot be read). The columns count
/// only where the store has nothing.
pub fn to_record(
    row: ConnectionRow,
    stored_token: Option<String>,
    stored_headers: Option<Vec<RemoteWorkspaceHeader>>,
    column_headers: Option<Vec<RemoteWorkspaceHeader>>,
) -> (record: RemoteWorkspaceConnectionRecord)
    ensures
        record@ == record_of(
            row@,
            token_of(row@, text_of(stored_token)),
            headers_of(rows_of(stored_headers), rows_of(column_headers)),
        ),
        record.id == row.id,
        record.name@ == row.name@,
        record.base_url@ == row.base_url@,
        stored_token matches Some(token) ==> record.token@ == token@,
        stored_token is None ==> record.token@ == row.token@,
        stored_headers matches Some(headers) ==> record.headers == headers,
        stored_headers is None ==> (column_headers matches Some(headers) ==> record.headers
            == headers),
        stored_headers is None && column_headers is None ==> record.headers@.len() == 0,
        record.sort_order == row.sort_order,
        record.created_at == row.created_at,
        record.updated_at == row.updated_at,
{
    let token: String = match stored_token {
        Some(token) => token,
        None => row.token.clone(),
    };
    let headers: Vec<RemoteWorkspaceHeader> = match stored_headers {
        Some(headers) => headers,
        None => match column_headers {
            Some(headers) => headers,
            None => no_header_rows(),
        },
    };
    record_with_secrets(row, token, headers)
}

/// An empty list of headers.
pub(crate) fn no_header_rows() -> (headers: Vec<RemoteWorkspaceHeader>)
    ensures
        header_rows(headers@) == Seq::<HeaderView>::empty(),
        headers@.len() == 0,
{
    let headers: Vec<RemoteWorkspaceHeader> = Vec::new();
    assert(header_rows(headers@) =~= Seq::<HeaderView>::empty());
    headers
}

/// A copy of a list of headers.
pub(crate) fn copy_headers(headers: &Vec<RemoteWorkspaceHeader>) -> (r: Vec<RemoteWorkspaceHeader>)
    ensures
        header_rows(r@) == header_rows(headers@),
{
    let mut r: Vec<RemoteWorkspaceHeader> = Vec::new();
    for i in 0..headers.len()
        invariant
            r@.len() == i,
            forall|j: int| 0 <= j < i ==> (#[trigger] r@[j])@ == headers@[j]@,
    {
        r.push(headers[i].copy());
    }
    assert(header_rows(r@) =~= header_rows(headers@));
    r
}

/// A copy of an optional text.
pub(crate) fn copy_text(text: &Option<String>) -> (r: Option<String>)
    ensures
        text_of(r) == text_of(*text),
{
    match text {
        Some(text) => Some(text.clone()),
        None => None,
    }
}

impl ConnectionPatch {
    /// A copy of the change.
    pub(crate) fn copy(&self) -> (r: Self)
        ensures
            r@ == self@,
    {
        ConnectionPatch {
            id: self.id,
            name: copy_text(&self.name),
            base_url: copy_text(&self.base_url),
            token: copy_text(&self.token),
            headers: copy_text(&self.headers),
            sort_order: self.sort_order,
            updated_at: self.updated_at,
        }
    }
}

/// Whether two lists hold the same headers in the same order.
fn same_headers(a: &[RemoteWorkspaceHeader], b: &[RemoteWorkspaceHeader]) -> (r: bool)
    ensures
        r == (header_rows(a@) == header_rows(b@)),
{
    if a.len() != b.len() {
        assert(header_rows(a@).len() != header_rows(b@).len());
        return false;
    }
    for i in 0..a.len()
        invariant
            a@.len() == b@.len(),
            forall|j: int| 0 <= j < i ==> (#[trigger] a@[j])@ == b@[j]@,
    {
        if !same_text(a[i].name.as_str(), b[i].name.as_str()) || !same_text(
            a[i].value.as_str(),
            b[i].value.as_str(),
        ) {
            assert(header_rows(a@)[i as int] != header_rows(b@)[i as int]);
            return false;
        }
    }
    assert(header_rows(a@) =~= header_rows(b@));
    true
}

/// Whether the secret store handed back the token it was given: `read_token` is
/// what it answers for the connection now.
pub fn token_readable(read_token: &Option<String>, token: &str) -> (r: bool)
    ensures
        r <==> text_of(*read_token) == Some(token@),
{
    match read_token {
        Some(t) => same_text(t.as_str(), token),
        None => false,
    }
}

/// Whether the secret store handed back what it was given: `read_token` and
/// `read_headers` are what it answers for the connection now. A store that
/// reports success without keeping anything does not pass.
pub fn secrets_readable(
    read_token: &Option<String>,
    read_headers: &Option<Vec<RemoteWorkspaceHeader>>,
    token: &str,
    headers: &[RemoteWorkspaceHeader],
) -> (r: bool)
    ensures
        r <==> text_of(*read_token) == Some(token@) && rows_of(*read_headers) == Some(
            header_rows(headers@),
        ),
{
    token_readable(read_token, token) && match read_headers {
        Some(h) => same_headers(h.as_slice(), headers),
        None => false,
    }
}

} // verus!
