//! Saving a new connection.

use vstd::prelude::*;

use crate::app_error::{
    db_error, detailed_error, AppCommandError, AppErrorCode, AppErrorView, DbError,
};
use crate::connection::{
    copy_headers, record_of, record_with_secrets, ConnectionRow, NewConnectionRow, NewRowView,
    RecordView, RemoteWorkspaceConnectionRecord, RowView, Timestamp, EMPTY_HEADERS_JSON,
};
use crate::header::{header_rows, HeaderView, RemoteWorkspaceHeader};
use crate::protocol::{
    request_view, secret_request, store_secrets, Protocol, Reply, ReplyView, Request, RequestView,
    SecretWrite, StoreProgress,
};
use crate::validate::{
    normalize_base_url, normalized_base_url, validate_headers, validate_name, validate_token,
    validated_headers, validated_name, validated_token,
};
use crate::world::{found, run_ends, run_keeps, runs, Exchange, World};

verus! {

/// What was typed for a new connection, after it passed the checks, and when.
#[derive(Debug, Clone, PartialEq, Eq)]
pub struct ConnectionDraft {
    pub name: String,
    pub base_url: String,
    pub token: String,
    pub headers: Vec<RemoteWorkspaceHeader>,
    pub now: Timestamp,
}

/// What a [`ConnectionDraft`] holds.
#[verifier::ext_equal]
pub struct DraftView {
    pub name: Seq<char>,
    pub base_url: Seq<char>,
    pub token: Seq<char>,
    pub headers: Seq<HeaderView>,
    pub now: Timestamp,
}

impl View for ConnectionDraft {
    type V = DraftView;

    open spec fn view(&self) -> DraftView {
        DraftView {
            name: self.name@,
            base_url: self.base_url@,
            token: self.token@,
            headers: header_rows(self.headers@),
            now: self.now,
        }
    }
}

/// A row that is in the database, with the secrets that are not yet all in the
/// secret store.
#[derive(Debug, Clone, PartialEq, Eq)]
pub struct SavedConnection {
    pub row: ConnectionRow,
    pub token: String,
    pub headers: Vec<RemoteWorkspaceHeader>,
}

/// What a [`SavedConnection`] holds.
#[verifier::ext_equal]
pub struct SavedView {
    pub row: RowView,
    pub token: Seq<char>,
    pub headers: Seq<HeaderView>,
}

impl View for SavedConnection {
    type V = SavedView;

    open spec fn view(&self) -> SavedView {
        SavedView { row: self.row@, token: self.token@, headers: header_rows(self.headers@) }
    }
}

impl SavedConnection {
    /// The request that writes one of the secrets.
    pub(crate) fn secret_request(&self, write: SecretWrite) -> (r: Request)
        ensures
            r@ == secret_request(self@.row.id, self@.token, self@.headers, write),
    {
        match write {
            SecretWrite::Token => Request::StoreToken(self.row.id, self.token.clone()),
            SecretWrite::Headers => Request::StoreHeaders(
                self.row.id,
                copy_headers(&self.headers),
            ),
        }
    }
}

/// The error for secrets that the store did not take.
pub open spec fn store_error(text: Seq<char>) -> AppErrorView {
    detailed_error(
        AppErrorCode::IoError,
        "Failed to store remote connection credentials"@,
        text,
    )
}

/// The error for secrets that the store did not take.
pub(crate) fn store_failure(text: String) -> (e: AppCommandError)
    ensures
        e@ == store_error(text@),
{
    AppCommandError::io_error("Failed to store remote connection credentials").with_detail(text)
}

/// The error for a database that failed.
pub(crate) fn db_failure(text: String) -> (e: AppCommandError)
    ensures
        e@ == db_error(text@),
{
    AppCommandError::db(DbError { message: text })
}

/// Saving a new connection, as far as it has come.
#[derive(Debug, PartialEq, Eq)]
pub enum CreateState {
    /// The highest sort order is being looked up.
    FindingTop(ConnectionDraft),
    /// The row goes in, with this sort order.
    Inserting(ConnectionDraft, i32),
    /// The row is in; one of its secrets goes to the store.
    Storing(SavedConnection, SecretWrite),
    /// The store did not take the secrets; the row goes away again.
    RollingBack(i32, AppCommandError),
    /// Nothing more is to be done.
    Finished(Result<RemoteWorkspaceConnectionRecord, AppCommandError>),
}

/// What a [`CreateState`] holds.
pub enum CreateView {
    FindingTop(DraftView),
    Inserting(DraftView, i32),
    Storing(SavedView, SecretWrite),
    RollingBack(i32, AppErrorView),
    Finished(Result<RecordView, AppErrorView>),
}

/// What a result with a record in it says.
pub open spec fn record_result(
    r: Result<RemoteWorkspaceConnectionRecord, AppCommandError>,
) -> Result<RecordView, AppErrorView> {
    match r {
        Ok(record) => Ok(record@),
        Err(error) => Err(error@),
    }
}

impl View for CreateState {
    type V = CreateView;

    open spec fn view(&self) -> CreateView {
        match *self {
            CreateState::FindingTop(draft) => CreateView::FindingTop(draft@),
            CreateState::Inserting(draft, order) => CreateView::Inserting(draft@, order),
            CreateState::Storing(saved, write) => CreateView::Storing(saved@, write),
            CreateState::RollingBack(id, error) => CreateView::RollingBack(id, error@),
            CreateState::Finished(r) => CreateView::Finished(record_result(r)),
        }
    }
}

/// The sort order behind the highest one there is.
pub open spec fn next_sort_order(top: Option<RowView>) -> i32 {
    match top {
        Some(row) => (row.sort_order + 1) as i32,
        None => 0,
    }
}

/// The row that goes in for a draft. The columns for secrets stay empty.
pub open spec fn new_row(draft: DraftView, sort_order: i32) -> NewRowView {
    NewRowView {
        name: draft.name,
        base_url: draft.base_url,
        token: seq![],
        headers: EMPTY_HEADERS_JSON@,
        sort_order,
        created_at: draft.now,
        updated_at: draft.now,
    }
}

impl Protocol for CreateView {
    open spec fn pending(self) -> Option<RequestView> {
        match self {
            CreateView::FindingTop(_) => Some(RequestView::FindTop),
            CreateView::Inserting(draft, order) => Some(
                RequestView::Insert(new_row(draft, order)),
            ),
            CreateView::Storing(saved, write) => Some(
                secret_request(saved.row.id, saved.token, saved.headers, write),
            ),
            CreateView::RollingBack(id, _) => Some(RequestView::Delete(id)),
            CreateView::Finished(_) => None,
        }
    }

    open spec fn after(self, reply: ReplyView, now: Timestamp) -> Self {
        match (self, reply) {
            (CreateView::FindingTop(draft), ReplyView::Row(top)) => CreateView::Inserting(
                draft,
                next_sort_order(top),
            ),
            (CreateView::FindingTop(_), ReplyView::Failed(error)) => CreateView::Finished(
                Err(db_error(error)),
            ),
            (CreateView::Inserting(draft, _), ReplyView::Saved(row)) => CreateView::Storing(
                SavedView { row, token: draft.token, headers: draft.headers },
                SecretWrite::Token,
            ),
            (CreateView::Inserting(_, _), ReplyView::Failed(error)) => CreateView::Finished(
                Err(db_error(error)),
            ),
            (CreateView::Storing(saved, SecretWrite::Token), ReplyView::Done) =>
                CreateView::Storing(saved, SecretWrite::Headers),
            (CreateView::Storing(saved, SecretWrite::Headers), ReplyView::Done) =>
                CreateView::Finished(Ok(record_of(saved.row, saved.token, saved.headers))),
            (CreateView::Storing(saved, _), ReplyView::Failed(error)) => CreateView::RollingBack(
                saved.row.id,
                store_error(error),
            ),
            (CreateView::RollingBack(_, error), ReplyView::Done) => CreateView::Finished(
                Err(error),
            ),
            (CreateView::RollingBack(_, error), ReplyView::Failed(_)) => CreateView::Finished(
                Err(error),
            ),
            _ => self,
        }
    }
}

/// Where saving a new connection starts: the headers are checked first, then
/// the name, the base URL and the token, and the first error is the outcome.
pub open spec fn create_start(
    name: Seq<char>,
    base_url: Seq<char>,
    token: Seq<char>,
    headers: Seq<HeaderView>,
    now: Timestamp,
) -> CreateView {
    match (
        validated_headers(headers),
        validated_name(name),
        normalized_base_url(base_url),
        validated_token(token),
    ) {
        (Err(error), _, _, _) => CreateView::Finished(Err(error)),
        (_, Err(error), _, _) => CreateView::Finished(Err(error)),
        (_, _, Err(error), _) => CreateView::Finished(Err(error)),
        (_, _, _, Err(error)) => CreateView::Finished(Err(error)),
        (Ok(headers), Ok(name), Ok(base_url), Ok(token)) => CreateView::FindingTop(
            DraftView { name, base_url, token, headers, now },
        ),
    }
}

fn check_draft(
    name: &str,
    base_url: &str,
    token: &str,
    headers: &[RemoteWorkspaceHeader],
    now: Timestamp,
) -> (r: Result<ConnectionDraft, AppCommandError>)
    ensures
        match r {
            Ok(draft) => CreateView::FindingTop(draft@),
            Err(error) => CreateView::Finished(Err(error@)),
        } == create_start(name@, base_url@, token@, header_rows(headers@), now),
{
    let headers: Vec<RemoteWorkspaceHeader> = match validate_headers(headers) {
        Ok(headers) => headers,
        Err(error) => {
            return Err(error);
        },
    };
    let name: String = match validate_name(name) {
        Ok(name) => name,
        Err(error) => {
            return Err(error);
        },
    };
    let base_url: String = match normalize_base_url(base_url) {
        Ok(base_url) => base_url,
        Err(error) => {
            return Err(error);
        },
    };
    let token: String = match validate_token(token) {
        Ok(token) => token,
        Err(error) => {
            return Err(error);
        },
    };
    Ok(ConnectionDraft { name, base_url, token, headers, now })
}

/// Starts to save a new connection.
pub fn create(
    name: &str,
    base_url: &str,
    token: &str,
    headers: &[RemoteWorkspaceHeader],
    now: Timestamp,
) -> (state: CreateState)
    ensures
        state@ == create_start(name@, base_url@, token@, header_rows(headers@), now),
{
    match check_draft(name, base_url, token, headers, now) {
        Ok(draft) => CreateState::FindingTop(draft),
        Err(error) => CreateState::Finished(Err(error)),
    }
}

impl CreateState {
    /// The request that is pending; `None` when the operation is finished.
    pub fn request(&self) -> (r: Option<Request>)
        ensures
            request_view(r) == self@.pending(),
    {
        match self {
            CreateState::FindingTop(_) => Some(Request::FindTop),
            CreateState::Inserting(draft, order) => Some(
                Request::Insert(
                    NewConnectionRow {
                        name: draft.name.clone(),
                        base_url: draft.base_url.clone(),
                        token: String::new(),
                        headers: EMPTY_HEADERS_JSON.to_owned(),
                        sort_order: *order,
                        created_at: draft.now,
                        updated_at: draft.now,
                    },
                ),
            ),
            CreateState::Storing(saved, write) => Some(saved.secret_request(*write)),
            CreateState::RollingBack(id, _) => Some(Request::Delete(*id)),
            CreateState::Finished(_) => None,
        }
    }

    /// The state that an answer leads to. The highest sort order there is has
    /// to leave room for one more.
    pub fn advance(self, reply: Reply, now: Timestamp) -> (state: CreateState)
        requires
            self is FindingTop ==> (reply matches Reply::Row(Some(row)) ==> row.sort_order
                < i32::MAX),
        ensures
            state@ == self@.after(reply@, now),
    {
        match (self, reply) {
            (CreateState::FindingTop(draft), Reply::Row(top)) => {
                let order: i32 = match top {
                    Some(row) => row.sort_order + 1,
                    None => 0,
                };
                CreateState::Inserting(draft, order)
            },
            (CreateState::FindingTop(_), Reply::Failed(error)) => CreateState::Finished(
                Err(db_failure(error)),
            ),
            (CreateState::Inserting(draft, _), Reply::Saved(row)) => CreateState::Storing(
                SavedConnection { row, token: draft.token, headers: draft.headers },
                SecretWrite::Token,
            ),
            (CreateState::Inserting(_, _), Reply::Failed(error)) => CreateState::Finished(
                Err(db_failure(error)),
            ),
            (CreateState::Storing(saved, write), Reply::Done) => Self::stored(
                saved,
                store_secrets(write, Ok(())),
            ),
            (CreateState::Storing(saved, write), Reply::Failed(error)) => Self::stored(
                saved,
                store_secrets(write, Err(error)),
            ),
            (CreateState::RollingBack(_, error), Reply::Done) => CreateState::Finished(Err(error)),
            (CreateState::RollingBack(_, error), Reply::Failed(_)) => CreateState::Finished(
                Err(error),
            ),
            (state, _) => state,
        }
    }

    fn stored(saved: SavedConnection, progress: StoreProgress) -> (state: CreateState)
        ensures
            state@ == match progress {
                StoreProgress::Next(write) => CreateView::Storing(saved@, write),
                StoreProgress::Stored => CreateView::Finished(
                    Ok(record_of(saved@.row, saved@.token, saved@.headers)),
                ),
                StoreProgress::Failed(error) => CreateView::RollingBack(
                    saved@.row.id,
                    store_error(error@),
                ),
            },
    {
        match progress {
            StoreProgress::Next(write) => CreateState::Storing(saved, write),
            StoreProgress::Stored => CreateState::Finished(
                Ok(record_with_secrets(saved.row, saved.token, saved.headers)),
            ),
            StoreProgress::Failed(error) => CreateState::RollingBack(
                saved.row.id,
                store_failure(error),
            ),
        }
    }
}

/// A sort order above all that the table has.
pub open spec fn is_behind_all(rows: Map<i32, RowView>, order: i32) -> bool {
    forall|id: i32| #[trigger] rows.dom().contains(id) ==> rows[id].sort_order < order
}

/// The sort order behind all that the table has: the highest plus one, or 0
/// where it has none.
pub open spec fn is_next_place(rows: Map<i32, RowView>, order: i32) -> bool {
    &&& is_behind_all(rows, order)
    &&& if rows.dom() == Set::<i32>::empty() {
        order == 0
    } else {
        exists|id: i32| #[trigger] rows.dom().contains(id) && rows[id].sort_order + 1 == order
    }
}

/// The row of a draft is in the table, which has nothing else that it did not
/// have before: it has a new id, the place behind all other rows, and holds no
/// secret.
pub open spec fn row_went_in(
    before: Map<i32, RowView>,
    draft: DraftView,
    row: RowView,
    after: Map<i32, RowView>,
) -> bool {
    &&& !before.dom().contains(row.id)
    &&& row == new_row(draft, row.sort_order).with_id(row.id)
    &&& is_next_place(before, row.sort_order)
    &&& after == before.insert(row.id, row)
}

/// How far the table and the store have come in a state of the operation.
spec fn create_keeps(draft: DraftView, before: World, state: CreateView, world: World) -> bool {
    &&& world.before == before.before
    &&& world.faithful == before.faithful
    &&& match state {
        CreateView::FindingTop(d) => d == draft && world == before,
        CreateView::Inserting(d, order) => d == draft && world == before && is_next_place(
            before.rows,
            order,
        ),
        CreateView::Storing(saved, write) => {
            &&& row_went_in(before.rows, draft, saved.row, world.rows)
            &&& saved.token == draft.token
            &&& saved.headers == draft.headers
            &&& write == SecretWrite::Headers && before.faithful ==> found(
                world.tokens,
                saved.row.id,
            ) == Some(draft.token)
        },
        CreateView::RollingBack(id, error) => {
            &&& error.code == AppErrorCode::IoError
            &&& exists|row: RowView|
                row.id == id && #[trigger] row_went_in(before.rows, draft, row, world.rows)
        },
        CreateView::Finished(Ok(record)) => {
            &&& exists|row: RowView| #[trigger]
                row_went_in(before.rows, draft, row, world.rows) && record == record_of(
                    row,
                    draft.token,
                    draft.headers,
                )
            &&& before.faithful ==> world.record(world.rows[record.id]) == record
            &&& before.faithful ==> found(world.tokens, record.id) == Some(draft.token)
            &&& before.faithful ==> found(world.headers, record.id) == Some(draft.headers)
        },
        CreateView::Finished(Err(error)) => {
            ||| world.rows == before.rows
            ||| error.code == AppErrorCode::IoError && exists|row: RowView| #[trigger]
                row_went_in(before.rows, draft, row, world.rows)
        },
    }
}

proof fn lemma_create_step(
    draft: DraftView,
    before: World,
    state: CreateView,
    world: World,
    answer: Exchange,
)
    requires
        create_keeps(draft, before, state, world),
        has_room_at_the_end(before.rows),
        state.pending() is Some,
        world.serves(state.pending()->0, answer.reply, answer.world),
    ensures
        create_keeps(draft, before, state.after(answer.reply, answer.now), answer.world),
{
    match state {
        CreateView::FindingTop(d) => {
            if let ReplyView::Row(Some(top)) = answer.reply {
                assert(before.rows.dom().contains(top.id));
            }
        },
        CreateView::Inserting(d, order) => {
            if let ReplyView::Saved(row) = answer.reply {
                assert(row_went_in(before.rows, draft, row, answer.world.rows));
            }
        },
        CreateView::Storing(saved, write) => {
            assert(row_went_in(before.rows, draft, saved.row, answer.world.rows));
        },
        CreateView::RollingBack(id, error) => {
            let row = choose|row: RowView|
                row.id == id && #[trigger] row_went_in(before.rows, draft, row, world.rows);
            assert(world.rows.remove(id) =~= before.rows);
            if answer.reply is Failed {
                assert(row_went_in(before.rows, draft, row, answer.world.rows));
            }
        },
        CreateView::Finished(_) => {},
    }
}

/// The highest sort order that the table has leaves room for one more.
pub open spec fn has_room_at_the_end(rows: Map<i32, RowView>) -> bool {
    forall|id: i32| #[trigger] rows.dom().contains(id) ==> rows[id].sort_order < i32::MAX
}

proof fn lemma_create_run(
    draft: DraftView,
    before: World,
    answers: Seq<Exchange>,
    end: CreateView,
    after: World,
)
    requires
        has_room_at_the_end(before.rows),
        runs(CreateView::FindingTop(draft), before, answers, end, after),
    ensures
        create_keeps(draft, before, end, after),
{
    let kept = |state: CreateView, world: World| create_keeps(draft, before, state, world);
    assert forall|state: CreateView, world: World, request: RequestView, answer: Exchange|
        #![trigger world.serves(request, answer.reply, answer.world), kept(state, world)]
        kept(state, world) && state.pending() == Some(request) && world.serves(
            request,
            answer.reply,
            answer.world,
        ) implies kept(state.after(answer.reply, answer.now), answer.world) by {
        lemma_create_step(draft, before, state, world, answer);
    }
    run_keeps(kept, CreateView::FindingTop(draft), before, answers, end, after);
}

/// When saving succeeds, the table has gained exactly the row of the draft: it
/// has a new id and the highest sort order plus one, or 0 in an empty table, and
/// the columns for secrets are empty. The record has that row with the draft's
/// secrets.
pub proof fn created_connection_is_in_the_table(
    draft: DraftView,
    before: World,
    answers: Seq<Exchange>,
    record: RecordView,
    after: World,
)
    requires
        has_room_at_the_end(before.rows),
        runs(
            CreateView::FindingTop(draft),
            before,
            answers,
            CreateView::Finished(Ok(record)),
            after,
        ),
    ensures
        exists|row: RowView| #[trigger]
            row_went_in(before.rows, draft, row, after.rows) && record == record_of(
                row,
                draft.token,
                draft.headers,
            ),
{
    lemma_create_run(draft, before, answers, CreateView::Finished(Ok(record)), after);
}

/// A connection that was saved with a store that keeps what it acknowledges
/// reads back as the record that saving returned.
pub proof fn created_connection_reads_back(
    draft: DraftView,
    before: World,
    answers: Seq<Exchange>,
    record: RecordView,
    after: World,
)
    requires
        before.faithful,
        has_room_at_the_end(before.rows),
        runs(
            CreateView::FindingTop(draft),
            before,
            answers,
            CreateView::Finished(Ok(record)),
            after,
        ),
    ensures
        after.rows.dom().contains(record.id),
        after.record(after.rows[record.id]) == record,
{
    lemma_create_run(draft, before, answers, CreateView::Finished(Ok(record)), after);
}

/// A store that keeps what it acknowledges has the secrets of a connection that
/// was saved.
pub proof fn created_secrets_are_in_the_store(
    draft: DraftView,
    before: World,
    answers: Seq<Exchange>,
    record: RecordView,
    after: World,
)
    requires
        before.faithful,
        has_room_at_the_end(before.rows),
        runs(
            CreateView::FindingTop(draft),
            before,
            answers,
            CreateView::Finished(Ok(record)),
            after,
        ),
    ensures
        found(after.tokens, record.id) == Some(draft.token),
        found(after.headers, record.id) == Some(draft.headers),
{
    lemma_create_run(draft, before, answers, CreateView::Finished(Ok(record)), after);
}

/// Where no request fails, a draft is saved.
pub proof fn draft_is_saved_where_nothing_fails(
    draft: DraftView,
    before: World,
    answers: Seq<Exchange>,
    outcome: Result<RecordView, AppErrorView>,
    after: World,
)
    requires
        before.granting,
        runs(CreateView::FindingTop(draft), before, answers, CreateView::Finished(outcome), after),
    ensures
        outcome is Ok,
{
    let kept = |state: CreateView, world: World|
        world.granting && !(state is RollingBack) && !(state matches CreateView::Finished(Err(_)));
    run_keeps(
        kept,
        CreateView::FindingTop(draft),
        before,
        answers,
        CreateView::Finished(outcome),
        after,
    );
}

/// Saving a connection ends: it makes five requests at the most, and has one
/// pending until it is finished.
pub proof fn create_ends(
    from: CreateView,
    before: World,
    answers: Seq<Exchange>,
    state: CreateView,
    after: World,
)
    requires
        runs(from, before, answers, state, after),
    ensures
        answers.len() <= 5,
        state.pending() is None <==> state is Finished,
{
    let rank = |state: CreateView|
        match state {
            CreateView::FindingTop(_) => 5nat,
            CreateView::Inserting(_, _) => 4nat,
            CreateView::Storing(_, SecretWrite::Token) => 3nat,
            CreateView::Storing(_, SecretWrite::Headers) => 2nat,
            CreateView::RollingBack(_, _) => 1nat,
            CreateView::Finished(_) => 0nat,
        };
    run_ends(rank, from, before, answers, state, after);
}

/// When saving fails, the table is as it was; only a row that could not be
/// taken back after the store had refused its secrets may be left.
pub proof fn failed_create_leaves_the_table(
    draft: DraftView,
    before: World,
    answers: Seq<Exchange>,
    error: AppErrorView,
    after: World,
)
    requires
        has_room_at_the_end(before.rows),
        runs(
            CreateView::FindingTop(draft),
            before,
            answers,
            CreateView::Finished(Err(error)),
            after,
        ),
    ensures
        after.rows == before.rows || (error.code == AppErrorCode::IoError && exists|row: RowView|
            #[trigger] row_went_in(before.rows, draft, row, after.rows)),
{
    lemma_create_run(draft, before, answers, CreateView::Finished(Err(error)), after);
}

/// A row whose secrets the store refused is taken back: whichever secret it was
/// refused for, the next request deletes the row, and once that is done the
/// table is as it was before the row went in.
pub proof fn refused_secrets_take_the_row_back(
    draft: DraftView,
    before: World,
    saved: SavedView,
    write: SecretWrite,
    world: World,
    refusal: Exchange,
    deletion: Exchange,
)
    requires
        row_went_in(before.rows, draft, saved.row, world.rows),
        refusal.reply is Failed,
        world.serves(
            CreateView::Storing(saved, write).pending()->0,
            refusal.reply,
            refusal.world,
        ),
        deletion.reply is Done,
        refusal.world.serves(
            RequestView::Delete(saved.row.id),
            deletion.reply,
            deletion.world,
        ),
    ensures
        CreateView::Storing(saved, write).after(refusal.reply, refusal.now).pending() == Some(
            RequestView::Delete(saved.row.id),
        ),
        CreateView::Storing(saved, write).after(refusal.reply, refusal.now).after(
            deletion.reply,
            deletion.now,
        ) == CreateView::Finished(Err(store_error(refusal.reply->Failed_0))),
        deletion.world.rows == before.rows,
{
    assert(world.rows.remove(saved.row.id) =~= before.rows);
}

} // verus!
