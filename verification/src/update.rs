//! Changing a saved connection.

use vstd::prelude::*;

use crate::app_error::{db_error, plain_error, AppCommandError, AppErrorCode, AppErrorView};
use crate::connection::{
    record_of, record_with_secrets, ConnectionPatch, PatchView, RecordView,
    RemoteWorkspaceConnectionRecord, RowView, Timestamp, EMPTY_HEADERS_JSON,
};
use crate::create::{
    db_failure, record_result, store_error, store_failure, SavedConnection, SavedView,
};
use crate::header::{header_rows, HeaderView, RemoteWorkspaceHeader};
use crate::protocol::{
    request_view, secret_request, store_secrets, Protocol, Reply, ReplyView, Request, RequestView,
    SecretWrite, StoreProgress,
};
use crate::text::{decimal, i32_text, join3};
use crate::validate::{
    normalize_base_url, normalized_base_url, validate_headers, validate_name, validate_token,
    validated_headers, validated_name, validated_token,
};
use crate::world::{found, run_ends, run_keeps, runs, Exchange, World};

verus! {

/// What was typed for a connection: the name and the base URL as they came, the
/// token and the headers after they passed the checks.
#[derive(Debug, Clone, PartialEq, Eq)]
pub struct UpdateDraft {
    pub id: i32,
    pub name: String,
    pub base_url: String,
    pub token: String,
    pub headers: Vec<RemoteWorkspaceHeader>,
}

/// What an [`UpdateDraft`] holds.
#[verifier::ext_equal]
pub struct UpdateDraftView {
    pub id: i32,
    pub name: Seq<char>,
    pub base_url: Seq<char>,
    pub token: Seq<char>,
    pub headers: Seq<HeaderView>,
}

impl View for UpdateDraft {
    type V = UpdateDraftView;

    open spec fn view(&self) -> UpdateDraftView {
        UpdateDraftView {
            id: self.id,
            name: self.name@,
            base_url: self.base_url@,
            token: self.token@,
            headers: header_rows(self.headers@),
        }
    }
}

/// Changing a connection, as far as it has come.
#[derive(Debug, PartialEq, Eq)]
pub enum UpdateState {
    /// The row is being looked up.
    FindingRow(UpdateDraft),
    /// The row gets its new columns; the secrets come after.
    Updating(ConnectionPatch, String, Vec<RemoteWorkspaceHeader>),
    /// The row is changed; one of its secrets goes to the store.
    Storing(SavedConnection, SecretWrite),
    /// Nothing more is to be done.
    Finished(Result<RemoteWorkspaceConnectionRecord, AppCommandError>),
}

/// What an [`UpdateState`] holds.
pub enum UpdateView {
    FindingRow(UpdateDraftView),
    Updating(PatchView, Seq<char>, Seq<HeaderView>),
    Storing(SavedView, SecretWrite),
    Finished(Result<RecordView, AppErrorView>),
}

impl View for UpdateState {
    type V = UpdateView;

    open spec fn view(&self) -> UpdateView {
        match *self {
            UpdateState::FindingRow(draft) => UpdateView::FindingRow(draft@),
            UpdateState::Updating(patch, token, headers) => UpdateView::Updating(
                patch@,
                token@,
                header_rows(headers@),
            ),
            UpdateState::Storing(saved, write) => UpdateView::Storing(saved@, write),
            UpdateState::Finished(r) => UpdateView::Finished(record_result(r)),
        }
    }
}

/// The error for a connection that does not exist.
pub open spec fn not_found_error(id: i32) -> AppErrorView {
    plain_error(
        AppErrorCode::NotFound,
        "Remote connection "@ + decimal(id as int) + " not found"@,
    )
}

/// The change to a row that was found: new name and base URL, empty columns for
/// secrets, and the time of the change.
pub open spec fn update_patch(
    id: i32,
    name: Seq<char>,
    base_url: Seq<char>,
    now: Timestamp,
) -> PatchView {
    PatchView {
        id,
        name: Some(name),
        base_url: Some(base_url),
        token: Some(seq![]),
        headers: Some(EMPTY_HEADERS_JSON@),
        sort_order: None,
        updated_at: Some(now),
    }
}

/// The state after the row was found: the name and the base URL are checked
/// only now.
pub open spec fn after_found(draft: UpdateDraftView, row: RowView, now: Timestamp) -> UpdateView {
    match (validated_name(draft.name), normalized_base_url(draft.base_url)) {
        (Err(error), _) => UpdateView::Finished(Err(error)),
        (_, Err(error)) => UpdateView::Finished(Err(error)),
        (Ok(name), Ok(base_url)) => UpdateView::Updating(
            update_patch(row.id, name, base_url, now),
            draft.token,
            draft.headers,
        ),
    }
}

impl Protocol for UpdateView {
    open spec fn pending(self) -> Option<RequestView> {
        match self {
            UpdateView::FindingRow(draft) => Some(RequestView::FindById(draft.id)),
            UpdateView::Updating(patch, _, _) => Some(RequestView::Update(patch)),
            UpdateView::Storing(saved, write) => Some(
                secret_request(saved.row.id, saved.token, saved.headers, write),
            ),
            UpdateView::Finished(_) => None,
        }
    }

    open spec fn after(self, reply: ReplyView, now: Timestamp) -> Self {
        match (self, reply) {
            (UpdateView::FindingRow(draft), ReplyView::Row(Some(row))) => after_found(
                draft,
                row,
                now,
            ),
            (UpdateView::FindingRow(draft), ReplyView::Row(None)) => UpdateView::Finished(
                Err(not_found_error(draft.id)),
            ),
            (UpdateView::FindingRow(_), ReplyView::Failed(error)) => UpdateView::Finished(
                Err(db_error(error)),
            ),
            (UpdateView::Updating(_, token, headers), ReplyView::Saved(row)) =>
                UpdateView::Storing(SavedView { row, token, headers }, SecretWrite::Token),
            (UpdateView::Updating(_, _, _), ReplyView::Failed(error)) => UpdateView::Finished(
                Err(db_error(error)),
            ),
            (UpdateView::Storing(saved, SecretWrite::Token), ReplyView::Done) =>
                UpdateView::Storing(saved, SecretWrite::Headers),
            (UpdateView::Storing(saved, SecretWrite::Headers), ReplyView::Done) =>
                UpdateView::Finished(Ok(record_of(saved.row, saved.token, saved.headers))),
            (UpdateView::Storing(_, _), ReplyView::Failed(error)) => UpdateView::Finished(
                Err(store_error(error)),
            ),
            _ => self,
        }
    }
}

/// Where changing a connection starts: the headers are checked first, then the
/// token. The name and the base URL wait until the row is found.
pub open spec fn update_start(
    id: i32,
    name: Seq<char>,
    base_url: Seq<char>,
    token: Seq<char>,
    headers: Seq<HeaderView>,
) -> UpdateView {
    match (validated_headers(headers), validated_token(token)) {
        (Err(error), _) => UpdateView::Finished(Err(error)),
        (_, Err(error)) => UpdateView::Finished(Err(error)),
        (Ok(headers), Ok(token)) => UpdateView::FindingRow(
            UpdateDraftView { id, name, base_url, token, headers },
        ),
    }
}

/// Starts to change the connection with this id.
pub fn update(
    id: i32,
    name: &str,
    base_url: &str,
    token: &str,
    headers: &[RemoteWorkspaceHeader],
) -> (state: UpdateState)
    ensures
        state@ == update_start(id, name@, base_url@, token@, header_rows(headers@)),
{
    let headers: Vec<RemoteWorkspaceHeader> = match validate_headers(headers) {
        Ok(headers) => headers,
        Err(error) => {
            return UpdateState::Finished(Err(error));
        },
    };
    let token: String = match validate_token(token) {
        Ok(token) => token,
        Err(error) => {
            return UpdateState::Finished(Err(error));
        },
    };
    UpdateState::FindingRow(
        UpdateDraft { id, name: name.to_owned(), base_url: base_url.to_owned(), token, headers },
    )
}

impl UpdateState {
    /// The request that is pending; `None` when the operation is finished.
    pub fn request(&self) -> (r: Option<Request>)
        ensures
            request_view(r) == self@.pending(),
    {
        match self {
            UpdateState::FindingRow(draft) => Some(Request::FindById(draft.id)),
            UpdateState::Updating(patch, _, _) => Some(Request::Update(patch.copy())),
            UpdateState::Storing(saved, write) => Some(saved.secret_request(*write)),
            UpdateState::Finished(_) => None,
        }
    }

    /// The state that an answer leads to; `now` is the time of the change.
    pub fn advance(self, reply: Reply, now: Timestamp) -> (state: UpdateState)
        ensures
            state@ == self@.after(reply@, now),
    {
        match (self, reply) {
            (UpdateState::FindingRow(draft), Reply::Row(Some(row))) => Self::found(
                draft,
                row.id,
                now,
            ),
            (UpdateState::FindingRow(draft), Reply::Row(None)) => {
                let id = i32_text(draft.id);
                let message = join3("Remote connection ", id.as_str(), " not found");
                UpdateState::Finished(Err(AppCommandError::not_found(message.as_str())))
            },
            (UpdateState::FindingRow(_), Reply::Failed(error)) => UpdateState::Finished(
                Err(db_failure(error)),
            ),
            (UpdateState::Updating(_, token, headers), Reply::Saved(row)) => UpdateState::Storing(
                SavedConnection { row, token, headers },
                SecretWrite::Token,
            ),
            (UpdateState::Updating(_, _, _), Reply::Failed(error)) => UpdateState::Finished(
                Err(db_failure(error)),
            ),
            (UpdateState::Storing(saved, write), Reply::Done) => Self::stored(
                saved,
                store_secrets(write, Ok(())),
            ),
            (UpdateState::Storing(saved, write), Reply::Failed(error)) => Self::stored(
                saved,
                store_secrets(write, Err(error)),
            ),
            (state, _) => state,
        }
    }

    fn found(draft: UpdateDraft, row_id: i32, now: Timestamp) -> (state: UpdateState)
        ensures
            forall|row: RowView| row.id == row_id ==> state@ == #[trigger] after_found(
                draft@,
                row,
                now,
            ),
    {
        let name: String = match validate_name(draft.name.as_str()) {
            Ok(name) => name,
            Err(error) => {
                return UpdateState::Finished(Err(error));
            },
        };
        let base_url: String = match normalize_base_url(draft.base_url.as_str()) {
            Ok(base_url) => base_url,
            Err(error) => {
                return UpdateState::Finished(Err(error));
            },
        };
        let patch = ConnectionPatch {
            id: row_id,
            name: Some(name),
            base_url: Some(base_url),
            token: Some(String::new()),
            headers: Some(EMPTY_HEADERS_JSON.to_owned()),
            sort_order: None,
            updated_at: Some(now),
        };
        UpdateState::Updating(patch, draft.token, draft.headers)
    }

    fn stored(saved: SavedConnection, progress: StoreProgress) -> (state: UpdateState)
        ensures
            state@ == match progress {
                StoreProgress::Next(write) => UpdateView::Storing(saved@, write),
                StoreProgress::Stored => UpdateView::Finished(
                    Ok(record_of(saved@.row, saved@.token, saved@.headers)),
                ),
                StoreProgress::Failed(error) => UpdateView::Finished(Err(store_error(error@))),
            },
    {
        match progress {
            StoreProgress::Next(write) => UpdateState::Storing(saved, write),
            StoreProgress::Stored => UpdateState::Finished(
                Ok(record_with_secrets(saved.row, saved.token, saved.headers)),
            ),
            StoreProgress::Failed(error) => UpdateState::Finished(Err(store_failure(error))),
        }
    }
}

/// The row with the draft's id has the draft's name and base URL, no secret in
/// its columns, and otherwise only a new time of change; all other rows are as
/// they were.
pub open spec fn row_changed(
    before: Map<i32, RowView>,
    draft: UpdateDraftView,
    row: RowView,
    after: Map<i32, RowView>,
) -> bool {
    &&& before.dom().contains(draft.id)
    &&& validated_name(draft.name) is Ok
    &&& normalized_base_url(draft.base_url) is Ok
    &&& row == (RowView {
        name: validated_name(draft.name)->Ok_0,
        base_url: normalized_base_url(draft.base_url)->Ok_0,
        token: seq![],
        headers: EMPTY_HEADERS_JSON@,
        updated_at: row.updated_at,
        ..before[draft.id]
    })
    &&& after == before.insert(draft.id, row)
}

/// How far the table and the store have come in a state of the operation.
spec fn update_keeps(
    draft: UpdateDraftView,
    before: World,
    state: UpdateView,
    world: World,
) -> bool {
    &&& world.before == before.before
    &&& world.faithful == before.faithful
    &&& match state {
        UpdateView::FindingRow(d) => d == draft && world == before,
        UpdateView::Updating(patch, token, headers) => {
            &&& world == before
            &&& before.rows.dom().contains(draft.id)
            &&& validated_name(draft.name) is Ok
            &&& normalized_base_url(draft.base_url) is Ok
            &&& patch.updated_at is Some
            &&& patch == update_patch(
                draft.id,
                validated_name(draft.name)->Ok_0,
                normalized_base_url(draft.base_url)->Ok_0,
                patch.updated_at->0,
            )
            &&& token == draft.token
            &&& headers == draft.headers
        },
        UpdateView::Storing(saved, write) => {
            &&& row_changed(before.rows, draft, saved.row, world.rows)
            &&& saved.row.id == draft.id
            &&& saved.token == draft.token
            &&& saved.headers == draft.headers
            &&& write == SecretWrite::Headers && before.faithful ==> found(world.tokens, draft.id)
                == Some(draft.token)
        },
        UpdateView::Finished(Ok(record)) => {
            &&& exists|row: RowView| #[trigger]
                row_changed(before.rows, draft, row, world.rows) && record == record_of(
                    row,
                    draft.token,
                    draft.headers,
                )
            &&& record.id == draft.id
            &&& before.faithful ==> world.record(world.rows[draft.id]) == record
            &&& before.faithful ==> found(world.tokens, draft.id) == Some(draft.token)
            &&& before.faithful ==> found(world.headers, draft.id) == Some(draft.headers)
        },
        UpdateView::Finished(Err(error)) => {
            ||| world == before
            ||| error.code == AppErrorCode::IoError && exists|row: RowView| #[trigger]
                row_changed(before.rows, draft, row, world.rows)
        },
    }
}

proof fn lemma_update_step(
    draft: UpdateDraftView,
    before: World,
    state: UpdateView,
    world: World,
    answer: Exchange,
)
    requires
        update_keeps(draft, before, state, world),
        before.keyed(),
        state.pending() is Some,
        world.serves(state.pending()->0, answer.reply, answer.world),
    ensures
        update_keeps(draft, before, state.after(answer.reply, answer.now), answer.world),
{
    match state {
        UpdateView::Updating(patch, token, headers) => {
            if let ReplyView::Saved(row) = answer.reply {
                assert(row_changed(before.rows, draft, row, answer.world.rows));
            }
        },
        UpdateView::Storing(saved, write) => {
            assert(row_changed(before.rows, draft, saved.row, answer.world.rows));
        },
        _ => {},
    }
}

proof fn lemma_update_run(
    draft: UpdateDraftView,
    before: World,
    answers: Seq<Exchange>,
    end: UpdateView,
    after: World,
)
    requires
        before.keyed(),
        runs(UpdateView::FindingRow(draft), before, answers, end, after),
    ensures
        update_keeps(draft, before, end, after),
{
    let kept = |state: UpdateView, world: World| update_keeps(draft, before, state, world);
    assert forall|state: UpdateView, world: World, request: RequestView, answer: Exchange|
        #![trigger world.serves(request, answer.reply, answer.world), kept(state, world)]
        kept(state, world) && state.pending() == Some(request) && world.serves(
            request,
            answer.reply,
            answer.world,
        ) implies kept(state.after(answer.reply, answer.now), answer.world) by {
        lemma_update_step(draft, before, state, world, answer);
    }
    run_keeps(kept, UpdateView::FindingRow(draft), before, answers, end, after);
}

/// When a change succeeds, it has changed the row that was asked for, and no
/// other: the id, the place in the order and the time of creation stay, the
/// columns for secrets are empty. The record has that row with the draft's
/// secrets.
pub proof fn updated_connection_is_in_the_table(
    draft: UpdateDraftView,
    before: World,
    answers: Seq<Exchange>,
    record: RecordView,
    after: World,
)
    requires
        before.keyed(),
        runs(
            UpdateView::FindingRow(draft),
            before,
            answers,
            UpdateView::Finished(Ok(record)),
            after,
        ),
    ensures
        exists|row: RowView| #[trigger]
            row_changed(before.rows, draft, row, after.rows) && record == record_of(
                row,
                draft.token,
                draft.headers,
            ),
{
    lemma_update_run(draft, before, answers, UpdateView::Finished(Ok(record)), after);
}

/// A connection that was changed with a store that keeps what it acknowledges
/// reads back as the record that the change returned.
pub proof fn updated_connection_reads_back(
    draft: UpdateDraftView,
    before: World,
    answers: Seq<Exchange>,
    record: RecordView,
    after: World,
)
    requires
        before.faithful,
        before.keyed(),
        runs(
            UpdateView::FindingRow(draft),
            before,
            answers,
            UpdateView::Finished(Ok(record)),
            after,
        ),
    ensures
        record.id == draft.id,
        after.rows.dom().contains(draft.id),
        after.record(after.rows[draft.id]) == record,
{
    lemma_update_run(draft, before, answers, UpdateView::Finished(Ok(record)), after);
}

/// A store that keeps what it acknowledges has the secrets of a connection that
/// was changed.
pub proof fn updated_secrets_are_in_the_store(
    draft: UpdateDraftView,
    before: World,
    answers: Seq<Exchange>,
    record: RecordView,
    after: World,
)
    requires
        before.faithful,
        before.keyed(),
        runs(
            UpdateView::FindingRow(draft),
            before,
            answers,
            UpdateView::Finished(Ok(record)),
            after,
        ),
    ensures
        found(after.tokens, draft.id) == Some(draft.token),
        found(after.headers, draft.id) == Some(draft.headers),
{
    lemma_update_run(draft, before, answers, UpdateView::Finished(Ok(record)), after);
}

/// The time of a change is the time at which the row was found.
pub proof fn update_has_the_time_of_the_change(
    draft: UpdateDraftView,
    before: World,
    answers: Seq<Exchange>,
    record: RecordView,
    after: World,
)
    requires
        runs(
            UpdateView::FindingRow(draft),
            before,
            answers,
            UpdateView::Finished(Ok(record)),
            after,
        ),
    ensures
        answers.len() > 0,
        record.updated_at == answers[0].now,
{
    let first = answers.first();
    let next = UpdateView::FindingRow(draft).after(first.reply, first.now);
    let kept = |state: UpdateView, world: World|
        match state {
            UpdateView::FindingRow(_) => false,
            UpdateView::Updating(patch, _, _) => patch.updated_at == Some(first.now),
            UpdateView::Storing(saved, _) => saved.row.updated_at == first.now,
            UpdateView::Finished(Ok(record)) => record.updated_at == first.now,
            UpdateView::Finished(Err(_)) => true,
        };
    run_keeps(
        kept,
        next,
        first.world,
        answers.drop_first(),
        UpdateView::Finished(Ok(record)),
        after,
    );
}

/// Where no request fails, a connection that exists is changed, unless its new
/// name or its new base URL is refused.
pub proof fn connection_is_changed_where_nothing_fails(
    draft: UpdateDraftView,
    before: World,
    answers: Seq<Exchange>,
    outcome: Result<RecordView, AppErrorView>,
    after: World,
)
    requires
        before.granting,
        before.rows.dom().contains(draft.id),
        validated_name(draft.name) is Ok,
        normalized_base_url(draft.base_url) is Ok,
        runs(UpdateView::FindingRow(draft), before, answers, UpdateView::Finished(outcome), after),
    ensures
        outcome is Ok,
{
    let kept = |state: UpdateView, world: World|
        world.granting && match state {
            UpdateView::FindingRow(d) => d == draft && world == before,
            UpdateView::Finished(Err(_)) => false,
            _ => true,
        };
    run_keeps(
        kept,
        UpdateView::FindingRow(draft),
        before,
        answers,
        UpdateView::Finished(outcome),
        after,
    );
}

/// Changing a connection ends: it makes four requests at the most, and has one
/// pending until it is finished.
pub proof fn update_ends(
    from: UpdateView,
    before: World,
    answers: Seq<Exchange>,
    state: UpdateView,
    after: World,
)
    requires
        runs(from, before, answers, state, after),
    ensures
        answers.len() <= 4,
        state.pending() is None <==> state is Finished,
{
    let rank = |state: UpdateView|
        match state {
            UpdateView::FindingRow(_) => 4nat,
            UpdateView::Updating(_, _, _) => 3nat,
            UpdateView::Storing(_, SecretWrite::Token) => 2nat,
            UpdateView::Storing(_, SecretWrite::Headers) => 1nat,
            UpdateView::Finished(_) => 0nat,
        };
    run_ends(rank, from, before, answers, state, after);
}

/// A change that fails has changed nothing, unless it is the store that failed:
/// then the row has been changed.
pub proof fn failed_update_leaves_the_table(
    draft: UpdateDraftView,
    before: World,
    answers: Seq<Exchange>,
    error: AppErrorView,
    after: World,
)
    requires
        before.keyed(),
        runs(
            UpdateView::FindingRow(draft),
            before,
            answers,
            UpdateView::Finished(Err(error)),
            after,
        ),
    ensures
        after == before || (error.code == AppErrorCode::IoError && exists|row: RowView| #[trigger]
            row_changed(before.rows, draft, row, after.rows)),
{
    lemma_update_run(draft, before, answers, UpdateView::Finished(Err(error)), after);
}

/// A connection that is not in the table cannot be changed: whatever the
/// answers are, the outcome is not a success, and nothing has changed.
pub proof fn unknown_connection_is_not_updated(
    draft: UpdateDraftView,
    before: World,
    answers: Seq<Exchange>,
    outcome: Result<RecordView, AppErrorView>,
    after: World,
)
    requires
        before.keyed(),
        !before.rows.dom().contains(draft.id),
        runs(UpdateView::FindingRow(draft), before, answers, UpdateView::Finished(outcome), after),
    ensures
        outcome is Err,
        after == before,
{
    lemma_update_run(draft, before, answers, UpdateView::Finished(outcome), after);
}

} // verus!
