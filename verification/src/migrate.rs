//! Moving the secrets that older versions left in the table to the secret
//! store.

use vstd::prelude::*;

use crate::app_error::{text_of, DbError};
use crate::connection::{
    copy_headers, no_header_rows, or_kept, secrets_readable, token_readable, ConnectionPatch,
    ConnectionRow, PatchView, RowView, Timestamp, EMPTY_HEADERS_JSON,
};
use crate::header::{header_rows, HeaderView, RemoteWorkspaceHeader};
use crate::protocol::{
    request_view, secret_request, store_secrets, Protocol, Reply, ReplyView, Request, RequestView,
    SecretWrite, StoreProgress,
};
use crate::queue::RowQueue;
use crate::text::same_text;
use crate::world::{asks, found, lists, run_keeps, runs, Exchange, World};

verus! {

/// A row whose secrets are being moved, the rows that wait, and the ids of the
/// rows whose secrets have been moved.
#[derive(Debug, PartialEq, Eq)]
pub struct Moving {
    pub row: ConnectionRow,
    pub rest: RowQueue,
    pub moved: Vec<i32>,
}

/// What a [`Moving`] holds.
pub struct MovingView {
    pub row: RowView,
    pub rest: Seq<RowView>,
    pub moved: Seq<i32>,
}

impl View for Moving {
    type V = MovingView;

    open spec fn view(&self) -> MovingView {
        MovingView { row: self.row@, rest: self.rest@, moved: self.moved@ }
    }
}

/// Moving secrets to the store, as far as it has come.
#[derive(Debug, PartialEq, Eq)]
pub enum MigrateState {
    /// All rows are being looked up.
    FindingRows,
    /// The `headers` column of a row is being read.
    ReadingColumn(Moving),
    /// One of the secrets of a row goes to the store; these are its headers.
    Storing(Moving, Vec<RemoteWorkspaceHeader>, SecretWrite),
    /// The store is asked for the token it was given.
    ReadingToken(Moving, Vec<RemoteWorkspaceHeader>),
    /// The store has the token, which this is, and is asked for the headers it
    /// was given.
    ReadingHeaders(Moving, Vec<RemoteWorkspaceHeader>, Option<String>),
    /// The store has both secrets, and the columns of the row are cleared.
    Clearing(Moving),
    /// Nothing more is to be done; the secrets of this many rows were moved.
    Finished(Result<usize, DbError>),
}

/// What a [`MigrateState`] holds.
pub enum MigrateView {
    FindingRows,
    ReadingColumn(MovingView),
    Storing(MovingView, Seq<HeaderView>, SecretWrite),
    ReadingToken(MovingView, Seq<HeaderView>),
    ReadingHeaders(MovingView, Seq<HeaderView>, Option<Seq<char>>),
    Clearing(MovingView),
    Finished(Result<nat, Seq<char>>),
}

impl View for MigrateState {
    type V = MigrateView;

    open spec fn view(&self) -> MigrateView {
        match *self {
            MigrateState::FindingRows => MigrateView::FindingRows,
            MigrateState::ReadingColumn(moving) => MigrateView::ReadingColumn(moving@),
            MigrateState::Storing(moving, headers, write) => MigrateView::Storing(
                moving@,
                header_rows(headers@),
                write,
            ),
            MigrateState::ReadingToken(moving, headers) => MigrateView::ReadingToken(
                moving@,
                header_rows(headers@),
            ),
            MigrateState::ReadingHeaders(moving, headers, token) => MigrateView::ReadingHeaders(
                moving@,
                header_rows(headers@),
                text_of(token),
            ),
            MigrateState::Clearing(moving) => MigrateView::Clearing(moving@),
            MigrateState::Finished(Ok(count)) => MigrateView::Finished(Ok(count as nat)),
            MigrateState::Finished(Err(error)) => MigrateView::Finished(Err(error@)),
        }
    }
}

/// A row with no secret in its columns.
pub open spec fn is_clear(row: RowView) -> bool {
    row.token.len() == 0 && row.headers == EMPTY_HEADERS_JSON@
}

/// The change that empties the columns for secrets, and touches nothing else.
pub open spec fn clearing_patch(id: i32) -> PatchView {
    PatchView {
        id,
        name: None,
        base_url: None,
        token: Some(seq![]),
        headers: Some(EMPTY_HEADERS_JSON@),
        sort_order: None,
        updated_at: None,
    }
}

/// The state in which these rows wait and these were moved: the rows without
/// secrets are passed over.
pub open spec fn next_moving(waiting: Seq<RowView>, moved: Seq<i32>) -> MigrateView
    decreases waiting.len(),
{
    if waiting.len() == 0 {
        MigrateView::Finished(Ok(moved.len()))
    } else if is_clear(waiting.first()) {
        next_moving(waiting.drop_first(), moved)
    } else {
        MigrateView::ReadingColumn(
            MovingView { row: waiting.first(), rest: waiting.drop_first(), moved },
        )
    }
}

impl Protocol for MigrateView {
    open spec fn pending(self) -> Option<RequestView> {
        match self {
            MigrateView::FindingRows => Some(RequestView::FindAll),
            MigrateView::ReadingColumn(moving) => Some(
                RequestView::ParseHeaders(moving.row.headers),
            ),
            MigrateView::Storing(moving, headers, write) => Some(
                secret_request(moving.row.id, moving.row.token, headers, write),
            ),
            MigrateView::ReadingToken(moving, _) => Some(RequestView::ReadToken(moving.row.id)),
            MigrateView::ReadingHeaders(moving, _, _) => Some(
                RequestView::ReadHeaders(moving.row.id),
            ),
            MigrateView::Clearing(moving) => Some(
                RequestView::Update(clearing_patch(moving.row.id)),
            ),
            MigrateView::Finished(_) => None,
        }
    }

    open spec fn after(self, reply: ReplyView, now: Timestamp) -> Self {
        match (self, reply) {
            (MigrateView::FindingRows, ReplyView::Rows(rows)) => next_moving(rows, seq![]),
            (MigrateView::FindingRows, ReplyView::Failed(error)) => MigrateView::Finished(
                Err(error),
            ),
            (MigrateView::ReadingColumn(moving), ReplyView::Headers(headers)) =>
                MigrateView::Storing(moving, or_kept(headers, seq![]), SecretWrite::Token),
            (MigrateView::Storing(moving, headers, SecretWrite::Token), ReplyView::Done) =>
                MigrateView::Storing(moving, headers, SecretWrite::Headers),
            (MigrateView::Storing(moving, headers, SecretWrite::Headers), ReplyView::Done) =>
                MigrateView::ReadingToken(moving, headers),
            (MigrateView::Storing(moving, _, _), ReplyView::Failed(_)) => next_moving(
                moving.rest,
                moving.moved,
            ),
            (MigrateView::ReadingToken(moving, headers), ReplyView::Token(token)) => if token
                == Some(moving.row.token) {
                MigrateView::ReadingHeaders(moving, headers, token)
            } else {
                next_moving(moving.rest, moving.moved)
            },
            (MigrateView::ReadingHeaders(moving, headers, token), ReplyView::Headers(read)) =>
                if token == Some(moving.row.token) && read == Some(headers) {
                    MigrateView::Clearing(moving)
                } else {
                    next_moving(moving.rest, moving.moved)
                },
            (MigrateView::Clearing(moving), ReplyView::Saved(_)) => next_moving(
                moving.rest,
                moving.moved.push(moving.row.id),
            ),
            (MigrateView::Clearing(_), ReplyView::Failed(error)) => MigrateView::Finished(
                Err(error),
            ),
            _ => self,
        }
    }
}

/// Starts to move the secrets that stand in the table to the secret store. A
/// row whose secrets cannot be read back from the store keeps them.
pub fn migrate_plaintext_secrets() -> (state: MigrateState)
    ensures
        state@ == MigrateView::FindingRows,
{
    MigrateState::FindingRows
}

impl MigrateState {
    /// The request that is pending; `None` when the operation is finished.
    pub fn request(&self) -> (r: Option<Request>)
        ensures
            request_view(r) == self@.pending(),
    {
        match self {
            MigrateState::FindingRows => Some(Request::FindAll),
            MigrateState::ReadingColumn(moving) => Some(
                Request::ParseHeaders(moving.row.headers.clone()),
            ),
            MigrateState::Storing(moving, headers, write) => Some(
                match write {
                    SecretWrite::Token => Request::StoreToken(
                        moving.row.id,
                        moving.row.token.clone(),
                    ),
                    SecretWrite::Headers => Request::StoreHeaders(
                        moving.row.id,
                        copy_headers(headers),
                    ),
                },
            ),
            MigrateState::ReadingToken(moving, _) => Some(Request::ReadToken(moving.row.id)),
            MigrateState::ReadingHeaders(moving, _, _) => Some(
                Request::ReadHeaders(moving.row.id),
            ),
            MigrateState::Clearing(moving) => Some(
                Request::Update(
                    ConnectionPatch {
                        id: moving.row.id,
                        name: None,
                        base_url: None,
                        token: Some(String::new()),
                        headers: Some(EMPTY_HEADERS_JSON.to_owned()),
                        sort_order: None,
                        updated_at: None,
                    },
                ),
            ),
            MigrateState::Finished(_) => None,
        }
    }

    /// The state that an answer leads to.
    pub fn advance(self, reply: Reply, now: Timestamp) -> (state: MigrateState)
        ensures
            state@ == self@.after(reply@, now),
    {
        match (self, reply) {
            (MigrateState::FindingRows, Reply::Rows(rows)) => Self::next(
                RowQueue::of(rows),
                Vec::new(),
            ),
            (MigrateState::FindingRows, Reply::Failed(error)) => MigrateState::Finished(
                Err(DbError { message: error }),
            ),
            (MigrateState::ReadingColumn(moving), Reply::Headers(headers)) => {
                let headers: Vec<RemoteWorkspaceHeader> = match headers {
                    Some(headers) => headers,
                    None => no_header_rows(),
                };
                MigrateState::Storing(moving, headers, SecretWrite::Token)
            },
            (MigrateState::Storing(moving, headers, write), Reply::Done) => Self::stored(
                moving,
                headers,
                store_secrets(write, Ok(())),
            ),
            (MigrateState::Storing(moving, headers, write), Reply::Failed(error)) => Self::stored(
                moving,
                headers,
                store_secrets(write, Err(error)),
            ),
            (MigrateState::ReadingToken(moving, headers), Reply::Token(token)) => {
                if token_readable(&token, moving.row.token.as_str()) {
                    MigrateState::ReadingHeaders(moving, headers, token)
                } else {
                    Self::next(moving.rest, moving.moved)
                }
            },
            (MigrateState::ReadingHeaders(moving, headers, token), Reply::Headers(read)) => {
                if secrets_readable(
                    &token,
                    &read,
                    moving.row.token.as_str(),
                    headers.as_slice(),
                ) {
                    MigrateState::Clearing(moving)
                } else {
                    Self::next(moving.rest, moving.moved)
                }
            },
            (MigrateState::Clearing(moving), Reply::Saved(_)) => {
                let mut moved = moving.moved;
                moved.push(moving.row.id);
                Self::next(moving.rest, moved)
            },
            (MigrateState::Clearing(_), Reply::Failed(error)) => MigrateState::Finished(
                Err(DbError { message: error }),
            ),
            (state, _) => state,
        }
    }

    fn stored(
        moving: Moving,
        headers: Vec<RemoteWorkspaceHeader>,
        progress: StoreProgress,
    ) -> (state: MigrateState)
        ensures
            state@ == match progress {
                StoreProgress::Next(write) => MigrateView::Storing(
                    moving@,
                    header_rows(headers@),
                    write,
                ),
                StoreProgress::Stored => MigrateView::ReadingToken(moving@, header_rows(headers@)),
                StoreProgress::Failed(_) => next_moving(moving@.rest, moving@.moved),
            },
    {
        match progress {
            StoreProgress::Next(write) => MigrateState::Storing(moving, headers, write),
            StoreProgress::Stored => MigrateState::ReadingToken(moving, headers),
            StoreProgress::Failed(_) => Self::next(moving.rest, moving.moved),
        }
    }

    fn next(waiting: RowQueue, moved: Vec<i32>) -> (state: MigrateState)
        ensures
            state@ == next_moving(waiting@, moved@),
    {
        let mut rest = waiting;
        loop
            invariant
                next_moving(waiting@, moved@) == next_moving(rest@, moved@),
            decreases rest@.len(),
        {
            match rest.pop() {
                Some(row) => {
                    if !(row.token.as_str().is_empty() && same_text(
                        row.headers.as_str(),
                        EMPTY_HEADERS_JSON,
                    )) {
                        return MigrateState::ReadingColumn(Moving { row, rest, moved });
                    }
                },
                None => {
                    return MigrateState::Finished(Ok(moved.len()));
                },
            }
        }
    }
}

/// The headers that the column of a row holds; none where it cannot be read.
pub open spec fn column_headers(world: World, row: RowView) -> Seq<HeaderView> {
    or_kept(found(world.readings, row.headers), seq![])
}

/// For a row that still has secrets in its columns, the store has nothing, or
/// the same.
pub open spec fn store_agrees(world: World, row: RowView) -> bool {
    !is_clear(row) ==> token_agrees(world, row) && headers_agree(
        world,
        row,
        column_headers(world, row),
    )
}

/// The store has no token for this row, or the one in its column.
pub open spec fn token_agrees(world: World, row: RowView) -> bool {
    found(world.tokens, row.id) is None || found(world.tokens, row.id) == Some(row.token)
}

/// The store has no headers for this row, or these.
pub open spec fn headers_agree(world: World, row: RowView, headers: Seq<HeaderView>) -> bool {
    found(world.headers, row.id) is None || found(world.headers, row.id) == Some(headers)
}

/// The store has the secrets that stood in the columns of this row.
pub open spec fn store_has(world: World, row: RowView, headers: Seq<HeaderView>) -> bool {
    found(world.tokens, row.id) == Some(row.token) && found(world.headers, row.id) == Some(headers)
}

/// A row of the table as it was.
spec fn from_table(before: World, row: RowView) -> bool {
    found(before.rows, row.id) == Some(row)
}

/// What stays true of one row: without secrets in its columns, neither it nor
/// its secrets in the store change; with such secrets, the store never gets
/// others, and the columns are emptied only while the store has them.
spec fn row_is_safe(before: World, world: World, id: i32) -> bool {
    let row = before.rows[id];
    let headers = column_headers(before, row);
    if is_clear(row) {
        &&& world.rows[id] == row
        &&& found(world.tokens, id) == found(before.tokens, id)
        &&& found(world.headers, id) == found(before.headers, id)
    } else {
        &&& token_agrees(world, row)
        &&& headers_agree(world, row, headers)
        &&& world.rows[id] == row || (world.rows[id] == clearing_patch(id).applied_to(row)
            && store_has(world, row, headers))
    }
}

spec fn moving_from(before: World, moving: MovingView) -> bool {
    &&& from_table(before, moving.row)
    &&& !is_clear(moving.row)
    &&& all_from(before, moving.rest)
}

spec fn all_from(before: World, rows: Seq<RowView>) -> bool {
    forall|i: int| 0 <= i < rows.len() ==> from_table(before, #[trigger] rows[i])
}

/// What the state knows of the table and the store.
spec fn state_fits(before: World, state: MigrateView, world: World) -> bool {
    match state {
        MigrateView::FindingRows => world == before,
        MigrateView::ReadingColumn(moving) => moving_from(before, moving),
        MigrateView::Storing(moving, headers, _) => moving_from(before, moving) && headers
            == column_headers(before, moving.row),
        MigrateView::ReadingToken(moving, headers) => moving_from(before, moving) && headers
            == column_headers(before, moving.row),
        MigrateView::ReadingHeaders(moving, headers, token) => moving_from(before, moving)
            && headers == column_headers(before, moving.row) && token == found(
            world.tokens,
            moving.row.id,
        ),
        MigrateView::Clearing(moving) => moving_from(before, moving) && store_has(
            world,
            moving.row,
            column_headers(before, moving.row),
        ),
        MigrateView::Finished(_) => true,
    }
}

spec fn migrate_keeps(before: World, id: i32, state: MigrateView, world: World) -> bool {
    &&& world.readings == before.readings
    &&& world.rows.dom() == before.rows.dom()
    &&& row_is_safe(before, world, id)
    &&& state_fits(before, state, world)
}

proof fn lemma_next_moving(before: World, waiting: Seq<RowView>, moved: Seq<i32>, world: World)
    requires
        all_from(before, waiting),
    ensures
        state_fits(before, next_moving(waiting, moved), world),
    decreases waiting.len(),
{
    if waiting.len() > 0 {
        assert(from_table(before, waiting[0]));
        let rest = waiting.drop_first();
        assert forall|i: int| 0 <= i < rest.len() implies from_table(
            before,
            #[trigger] rest[i],
        ) by {
            assert(rest[i] == waiting[i + 1]);
        }
        if is_clear(waiting.first()) {
            lemma_next_moving(before, rest, moved, world);
        }
    }
}

proof fn lemma_state_fits_step(before: World, state: MigrateView, world: World, answer: Exchange)
    requires
        world.readings == before.readings,
        state_fits(before, state, world),
        state.pending() is Some,
        world.serves(state.pending()->0, answer.reply, answer.world),
    ensures
        answer.world.readings == before.readings,
        state_fits(before, state.after(answer.reply, answer.now), answer.world),
{
    let next = answer.world;
    match state {
        MigrateView::FindingRows => {
            if let ReplyView::Rows(rows) = answer.reply {
                assert(all_from(before, rows));
                lemma_next_moving(before, rows, seq![], next);
            }
        },
        MigrateView::Storing(moving, _, _) => {
            lemma_next_moving(before, moving.rest, moving.moved, next);
        },
        MigrateView::ReadingToken(moving, _) => {
            lemma_next_moving(before, moving.rest, moving.moved, next);
        },
        MigrateView::ReadingHeaders(moving, _, _) => {
            lemma_next_moving(before, moving.rest, moving.moved, next);
        },
        MigrateView::Clearing(moving) => {
            lemma_next_moving(before, moving.rest, moving.moved.push(moving.row.id), next);
        },
        _ => {},
    }
}

proof fn lemma_migrate_step(
    before: World,
    id: i32,
    state: MigrateView,
    world: World,
    answer: Exchange,
)
    requires
        migrate_keeps(before, id, state, world),
        before.keyed(),
        before.rows.dom().contains(id),
        state.pending() is Some,
        world.serves(state.pending()->0, answer.reply, answer.world),
    ensures
        migrate_keeps(before, id, state.after(answer.reply, answer.now), answer.world),
{
    lemma_state_fits_step(before, state, world, answer);
    if state is Clearing {
        assert(answer.world.rows.dom() =~= before.rows.dom());
    }
}

/// No credential is lost: at every point of the migration, and whatever the
/// store does, a connection reads as it did before, given that the store had no
/// other secrets for it while its columns hold some.
pub proof fn migration_keeps_every_record(
    before: World,
    answers: Seq<Exchange>,
    state: MigrateView,
    after: World,
    id: i32,
)
    requires
        before.keyed(),
        before.rows.dom().contains(id),
        store_agrees(before, before.rows[id]),
        runs(MigrateView::FindingRows, before, answers, state, after),
    ensures
        after.rows.dom().contains(id),
        after.record(after.rows[id]) == before.record(before.rows[id]),
{
    let kept = |state: MigrateView, world: World| migrate_keeps(before, id, state, world);
    assert forall|state: MigrateView, world: World, request: RequestView, answer: Exchange|
        #![trigger world.serves(request, answer.reply, answer.world), kept(state, world)]
        kept(state, world) && state.pending() == Some(request) && world.serves(
            request,
            answer.reply,
            answer.world,
        ) implies kept(state.after(answer.reply, answer.now), answer.world) by {
        lemma_migrate_step(before, id, state, world, answer);
    }
    run_keeps(kept, MigrateView::FindingRows, before, answers, state, after);
}

/// The plaintext of a row is destroyed only while the store hands back the token
/// and the headers that it holds, whatever the store had before.
pub proof fn plaintext_goes_only_when_the_store_has_it(
    before: World,
    answers: Seq<Exchange>,
    moving: MovingView,
    after: World,
)
    requires
        runs(
            MigrateView::FindingRows,
            before,
            answers,
            MigrateView::Clearing(moving),
            after,
        ),
    ensures
        found(before.rows, moving.row.id) == Some(moving.row),
        store_has(after, moving.row, column_headers(before, moving.row)),
{
    let kept = |state: MigrateView, world: World|
        world.readings == before.readings && state_fits(before, state, world);
    assert forall|state: MigrateView, world: World, request: RequestView, answer: Exchange|
        #![trigger world.serves(request, answer.reply, answer.world), kept(state, world)]
        kept(state, world) && state.pending() == Some(request) && world.serves(
            request,
            answer.reply,
            answer.world,
        ) implies kept(state.after(answer.reply, answer.now), answer.world) by {
        lemma_state_fits_step(before, state, world, answer);
    }
    run_keeps(
        kept,
        MigrateView::FindingRows,
        before,
        answers,
        MigrateView::Clearing(moving),
        after,
    );
}

/// The ids of the rows with secrets in their columns.
pub open spec fn legacy_ids(rows: Seq<RowView>) -> Seq<i32>
    decreases rows.len(),
{
    if rows.len() == 0 {
        seq![]
    } else if is_clear(rows.first()) {
        legacy_ids(rows.drop_first())
    } else {
        seq![rows.first().id] + legacy_ids(rows.drop_first())
    }
}

/// Every row of the table is without secrets in its columns.
pub open spec fn all_clear(world: World) -> bool {
    forall|id: i32| #[trigger] world.rows.dom().contains(id) ==> is_clear(world.rows[id])
}

/// Every row is without secrets, or waits.
spec fn clear_or_waiting(world: World, waiting: Seq<RowView>) -> bool {
    forall|id: i32| #[trigger]
        world.rows.dom().contains(id) ==> is_clear(world.rows[id]) || exists|i: int|
            0 <= i < waiting.len() && (#[trigger] waiting[i]).id == id
}

spec fn waiting_of(moving: MovingView) -> Seq<RowView> {
    seq![moving.row] + moving.rest
}

/// The world is the one before but for secrets that went from the table to the
/// store.
spec fn only_moved(before: World, world: World) -> bool {
    &&& world.readings == before.readings
    &&& world.faithful == before.faithful
    &&& world.granting == before.granting
    &&& world.rows.dom() == before.rows.dom()
    &&& forall|id: i32| #[trigger]
        before.rows.dom().contains(id) && is_clear(before.rows[id]) ==> is_clear(world.rows[id])
}

/// All rows that are not done yet wait, and the others that had secrets are
/// counted.
spec fn accounted(list: Seq<RowView>, moving: MovingView, world: World) -> bool {
    &&& clear_or_waiting(world, waiting_of(moving))
    &&& legacy_ids(list) == moving.moved + seq![moving.row.id] + legacy_ids(moving.rest)
}

/// How far the migration has come when nothing fails.
spec fn progress(list: Seq<RowView>, state: MigrateView, world: World) -> bool {
    match state {
        MigrateView::FindingRows => false,
        MigrateView::ReadingColumn(moving) => accounted(list, moving, world),
        MigrateView::Storing(moving, headers, write) => accounted(list, moving, world) && (write
            == SecretWrite::Headers ==> found(world.tokens, moving.row.id) == Some(
            moving.row.token,
        )),
        MigrateView::ReadingToken(moving, headers) => accounted(list, moving, world) && store_has(
            world,
            moving.row,
            headers,
        ),
        MigrateView::ReadingHeaders(moving, headers, token) => accounted(list, moving, world)
            && store_has(world, moving.row, headers),
        MigrateView::Clearing(moving) => accounted(list, moving, world),
        MigrateView::Finished(Ok(count)) => all_clear(world) && count == legacy_ids(list).len(),
        MigrateView::Finished(Err(_)) => false,
    }
}

proof fn lemma_next_progress(
    before: World,
    list: Seq<RowView>,
    waiting: Seq<RowView>,
    moved: Seq<i32>,
    world: World,
)
    requires
        all_from(before, waiting),
        only_moved(before, world),
        clear_or_waiting(world, waiting),
        legacy_ids(list) == moved + legacy_ids(waiting),
    ensures
        progress(list, next_moving(waiting, moved), world),
    decreases waiting.len(),
{
    if waiting.len() == 0 {
        assert(moved + legacy_ids(waiting) =~= moved);
    } else {
        let first = waiting.first();
        let rest = waiting.drop_first();
        assert(from_table(before, waiting[0]));
        assert forall|i: int| 0 <= i < rest.len() implies from_table(
            before,
            #[trigger] rest[i],
        ) by {
            assert(rest[i] == waiting[i + 1]);
        }
        if is_clear(first) {
            assert(before.rows.dom().contains(first.id) && is_clear(before.rows[first.id]));
            assert forall|id: i32| #[trigger] world.rows.dom().contains(id) implies is_clear(
                world.rows[id],
            ) || exists|i: int| 0 <= i < rest.len() && (#[trigger] rest[i]).id == id by {
                if !is_clear(world.rows[id]) {
                    let i = choose|i: int|
                        0 <= i < waiting.len() && (#[trigger] waiting[i]).id == id;
                    assert(i > 0);
                    assert(rest[i - 1].id == id);
                }
            }
            lemma_next_progress(before, list, rest, moved, world);
        } else {
            let moving = MovingView { row: first, rest, moved };
            assert(waiting_of(moving) =~= waiting);
            assert(moved + legacy_ids(waiting) =~= moved + seq![first.id] + legacy_ids(rest));
        }
    }
}

proof fn lemma_progress_step(
    before: World,
    list: Seq<RowView>,
    state: MigrateView,
    world: World,
    answer: Exchange,
)
    requires
        before.faithful,
        before.granting,
        only_moved(before, world),
        state_fits(before, state, world),
        progress(list, state, world),
        state.pending() is Some,
        world.serves(state.pending()->0, answer.reply, answer.world),
    ensures
        only_moved(before, answer.world),
        state_fits(before, state.after(answer.reply, answer.now), answer.world),
        progress(list, state.after(answer.reply, answer.now), answer.world),
{
    lemma_state_fits_step(before, state, world, answer);
    let next = answer.world;
    match state {
        MigrateView::Clearing(moving) => {
            let id = moving.row.id;
            assert(next.rows.dom() =~= before.rows.dom());
            let waiting = waiting_of(moving);
            assert(is_clear(next.rows[id]));
            assert forall|other: i32| #[trigger] next.rows.dom().contains(other) implies is_clear(
                next.rows[other],
            ) || exists|i: int|
                0 <= i < moving.rest.len() && (#[trigger] moving.rest[i]).id == other by {
                if !is_clear(next.rows[other]) {
                    assert(world.rows.dom().contains(other));
                    let i = choose|i: int|
                        0 <= i < waiting.len() && (#[trigger] waiting[i]).id == other;
                    assert(i > 0);
                    assert(moving.rest[i - 1].id == other);
                }
            }
            assert(moving.moved.push(id) =~= moving.moved + seq![id]);
            lemma_next_progress(before, list, moving.rest, moving.moved.push(id), next);
        },
        _ => {},
    }
}

/// When nothing fails and the store keeps what it acknowledges, the migration
/// ends with no secret left in the table, and counts the rows that had some.
pub proof fn migration_moves_everything(
    before: World,
    answers: Seq<Exchange>,
    outcome: Result<nat, Seq<char>>,
    after: World,
)
    requires
        before.faithful,
        before.granting,
        runs(MigrateView::FindingRows, before, answers, MigrateView::Finished(outcome), after),
    ensures
        all_clear(after),
        exists|rows: Seq<RowView>| #[trigger]
            lists(before.rows, rows) && outcome == Ok::<nat, Seq<char>>(legacy_ids(rows).len()),
{
    let first = answers.first();
    let rows = first.reply->Rows_0;
    assert(lists(before.rows, rows));
    lemma_state_fits_step(before, MigrateView::FindingRows, before, first);
    assert(all_from(before, rows));
    assert(seq![] + legacy_ids(rows) =~= legacy_ids(rows));
    lemma_next_progress(before, rows, rows, seq![], before);
    let kept = |state: MigrateView, world: World|
        only_moved(before, world) && state_fits(before, state, world) && progress(
            rows,
            state,
            world,
        );
    assert forall|state: MigrateView, world: World, request: RequestView, answer: Exchange|
        #![trigger world.serves(request, answer.reply, answer.world), kept(state, world)]
        kept(state, world) && state.pending() == Some(request) && world.serves(
            request,
            answer.reply,
            answer.world,
        ) implies kept(state.after(answer.reply, answer.now), answer.world) by {
        lemma_progress_step(before, rows, state, world, answer);
    }
    run_keeps(
        kept,
        MigrateView::FindingRows.after(first.reply, first.now),
        first.world,
        answers.drop_first(),
        MigrateView::Finished(outcome),
        after,
    );
}

/// The ids of the rows both of whose secrets the store took and handed back, in
/// the order in which it did.
pub open spec fn handed_back(state: MigrateView, answers: Seq<Exchange>) -> Seq<i32>
    decreases answers.len(),
{
    if answers.len() == 0 {
        seq![]
    } else {
        let first = answers.first();
        let rest = handed_back(state.after(first.reply, first.now), answers.drop_first());
        match state {
            MigrateView::ReadingHeaders(moving, headers, token) => if token == Some(
                moving.row.token,
            ) && first.reply == ReplyView::Headers(Some(headers)) {
                seq![moving.row.id] + rest
            } else {
                rest
            },
            _ => rest,
        }
    }
}

/// The columns for secrets of these rows have been emptied, and nothing else of
/// the table has changed.
pub open spec fn rows_emptied(before: World, world: World, ids: Seq<i32>) -> bool {
    &&& world.rows.dom() == before.rows.dom()
    &&& forall|id: i32| #[trigger]
        before.rows.dom().contains(id) ==> world.rows[id] == if ids.contains(id) {
            clearing_patch(id).applied_to(before.rows[id])
        } else {
            before.rows[id]
        }
}

/// These rows had secrets in their columns, and the store has them.
pub open spec fn secrets_moved(before: World, world: World, ids: Seq<i32>) -> bool {
    forall|id: i32| #[trigger]
        ids.contains(id) ==> before.rows.dom().contains(id) && !is_clear(before.rows[id])
            && store_has(world, before.rows[id], column_headers(before, before.rows[id]))
}

/// Every row waits once, and none of these is among those that are done.
spec fn waits_once(done: Seq<i32>, waiting: Seq<RowView>) -> bool {
    &&& forall|i: int| 0 <= i < waiting.len() ==> !done.contains((#[trigger] waiting[i]).id)
    &&& forall|i: int, j: int|
        0 <= i < j < waiting.len() ==> (#[trigger] waiting[i]).id != (#[trigger] waiting[j]).id
}

/// The state has come as far as these rows.
spec fn state_has_done(done: Seq<i32>, state: MigrateView) -> bool {
    match state {
        MigrateView::FindingRows => done.len() == 0,
        MigrateView::ReadingColumn(moving) => has_done(done, moving),
        MigrateView::Storing(moving, _, _) => has_done(done, moving),
        MigrateView::ReadingToken(moving, _) => has_done(done, moving),
        MigrateView::ReadingHeaders(moving, _, _) => has_done(done, moving),
        MigrateView::Clearing(moving) => has_done(done, moving),
        MigrateView::Finished(Ok(count)) => count == done.len(),
        MigrateView::Finished(Err(_)) => true,
    }
}

spec fn has_done(done: Seq<i32>, moving: MovingView) -> bool {
    moving.moved == done && waits_once(done, waiting_of(moving))
}

/// These rows have been moved, and no others.
spec fn moved_exactly(before: World, done: Seq<i32>, state: MigrateView, world: World) -> bool {
    &&& world.readings == before.readings
    &&& done.no_duplicates()
    &&& rows_emptied(before, world, done)
    &&& secrets_moved(before, world, done)
    &&& forall|id: i32| #[trigger] done.contains(id) ==> before.rows[id].id == id
    &&& state_fits(before, state, world)
    &&& state_has_done(done, state)
}

/// The rows that are done after one more answer.
spec fn done_after(done: Seq<i32>, state: MigrateView, reply: ReplyView) -> Seq<i32> {
    match (state, reply) {
        (MigrateView::Clearing(moving), ReplyView::Saved(_)) => done.push(moving.row.id),
        _ => done,
    }
}

proof fn lemma_next_has_done(waiting: Seq<RowView>, done: Seq<i32>)
    requires
        waits_once(done, waiting),
    ensures
        state_has_done(done, next_moving(waiting, done)),
    decreases waiting.len(),
{
    if waiting.len() > 0 {
        let rest = waiting.drop_first();
        assert(waits_once(done, rest)) by {
            assert forall|i: int| 0 <= i < rest.len() implies !done.contains(
                (#[trigger] rest[i]).id,
            ) by {
                assert(rest[i] == waiting[i + 1]);
            }
            assert forall|i: int, j: int| 0 <= i < j < rest.len() implies (#[trigger] rest[i]).id
                != (#[trigger] rest[j]).id by {
                assert(waiting[i + 1].id != waiting[j + 1].id);
            }
        }
        if is_clear(waiting.first()) {
            lemma_next_has_done(rest, done);
        } else {
            let moving = MovingView { row: waiting.first(), rest, moved: done };
            assert(waiting_of(moving) =~= waiting);
        }
    }
}

/// The rows that wait behind a row wait once, with the row among those that are
/// done or without it.
proof fn lemma_rest_waits_once(moving: MovingView)
    requires
        waits_once(moving.moved, waiting_of(moving)),
    ensures
        waits_once(moving.moved, moving.rest),
        waits_once(moving.moved.push(moving.row.id), moving.rest),
        !moving.moved.contains(moving.row.id),
{
    let waiting = waiting_of(moving);
    assert(waiting[0] == moving.row);
    assert forall|i: int| 0 <= i < moving.rest.len() implies !moving.moved.contains(
        (#[trigger] moving.rest[i]).id,
    ) && moving.rest[i].id != moving.row.id by {
        assert(waiting[i + 1] == moving.rest[i]);
        assert(waiting[0].id != waiting[i + 1].id);
    }
    assert forall|i: int, j: int| 0 <= i < j < moving.rest.len() implies (
    #[trigger] moving.rest[i]).id != (#[trigger] moving.rest[j]).id by {
        assert(waiting[i + 1].id != waiting[j + 1].id);
    }
}

proof fn lemma_moved_step(
    before: World,
    done: Seq<i32>,
    state: MigrateView,
    world: World,
    answer: Exchange,
)
    requires
        moved_exactly(before, done, state, world),
        state.pending() is Some,
        world.serves(state.pending()->0, answer.reply, answer.world),
    ensures
        moved_exactly(
            before,
            done_after(done, state, answer.reply),
            state.after(answer.reply, answer.now),
            answer.world,
        ),
{
    lemma_state_fits_step(before, state, world, answer);
    let next = answer.world;
    match state {
        MigrateView::FindingRows => {
            if let ReplyView::Rows(rows) = answer.reply {
                assert(done =~= seq![]);
                assert(waits_once(done, rows));
                lemma_next_has_done(rows, done);
            }
        },
        MigrateView::Storing(moving, _, _) => {
            lemma_rest_waits_once(moving);
            lemma_next_has_done(moving.rest, done);
            assert forall|id: i32| #[trigger] done.contains(id) implies store_has(
                next,
                before.rows[id],
                column_headers(before, before.rows[id]),
            ) by {
                assert(id != moving.row.id);
            }
        },
        MigrateView::ReadingToken(moving, _) => {
            lemma_rest_waits_once(moving);
            lemma_next_has_done(moving.rest, done);
        },
        MigrateView::ReadingHeaders(moving, _, _) => {
            lemma_rest_waits_once(moving);
            lemma_next_has_done(moving.rest, done);
        },
        MigrateView::Clearing(moving) => {
            if answer.reply is Saved {
                let id = moving.row.id;
                let more = done.push(id);
                lemma_rest_waits_once(moving);
                lemma_next_has_done(moving.rest, more);
                lemma_push_contains(done, id);
                assert(next.rows.dom() =~= before.rows.dom());
            }
        },
        _ => {},
    }
}

proof fn lemma_push_contains(ids: Seq<i32>, last: i32)
    ensures
        forall|id: i32| #[trigger] ids.push(last).contains(id) <==> ids.contains(id) || id == last,
{
    assert forall|id: i32| #[trigger] ids.push(last).contains(id) <==> ids.contains(id) || id
        == last by {
        let more = ids.push(last);
        if ids.contains(id) {
            let i = choose|i: int| 0 <= i < ids.len() && ids[i] == id;
            assert(more[i] == id);
        }
        assert(more[ids.len() as int] == last);
    }
}

/// The row whose columns are about to be emptied.
spec fn in_hand(state: MigrateView) -> Seq<i32> {
    match state {
        MigrateView::Clearing(moving) => seq![moving.row.id],
        _ => seq![],
    }
}

proof fn lemma_next_moving_not_clearing(waiting: Seq<RowView>, moved: Seq<i32>)
    ensures
        !(next_moving(waiting, moved) is Clearing),
    decreases waiting.len(),
{
    if waiting.len() > 0 && is_clear(waiting.first()) {
        lemma_next_moving_not_clearing(waiting.drop_first(), moved);
    }
}

/// The columns of a row are about to be emptied only right after the store has
/// handed both its secrets back.
proof fn lemma_next_not_clearing(state: MigrateView, world: World, answer: Exchange)
    requires
        state.pending() is Some,
        world.serves(state.pending()->0, answer.reply, answer.world),
    ensures
        in_hand(state.after(answer.reply, answer.now)) == handed_back(state, seq![answer]),
{
    let next = state.after(answer.reply, answer.now);
    assert(seq![answer].drop_first() =~= seq![]);
    match state {
        MigrateView::FindingRows => {
            if let ReplyView::Rows(rows) = answer.reply {
                lemma_next_moving_not_clearing(rows, seq![]);
            }
        },
        MigrateView::Storing(moving, _, _) => {
            lemma_next_moving_not_clearing(moving.rest, moving.moved);
        },
        MigrateView::ReadingToken(moving, _) => {
            lemma_next_moving_not_clearing(moving.rest, moving.moved);
        },
        MigrateView::ReadingHeaders(moving, _, _) => {
            lemma_next_moving_not_clearing(moving.rest, moving.moved);
        },
        MigrateView::Clearing(moving) => {
            lemma_next_moving_not_clearing(moving.rest, moving.moved.push(moving.row.id));
        },
        _ => {},
    }
    assert(handed_back(next, seq![]) =~= seq![]);
    assert(in_hand(next) =~= handed_back(state, seq![answer]));
}

proof fn lemma_moved_run(
    before: World,
    done: Seq<i32>,
    state: MigrateView,
    world: World,
    answers: Seq<Exchange>,
    count: nat,
    after: World,
)
    requires
        moved_exactly(before, done, state, world),
        runs(state, world, answers, MigrateView::Finished(Ok(count)), after),
    ensures
        moved_exactly(
            before,
            done + in_hand(state) + handed_back(state, answers),
            MigrateView::Finished(Ok(count)),
            after,
        ),
    decreases answers.len(),
{
    if answers.len() == 0 {
        assert(done + in_hand(state) + handed_back(state, answers) =~= done);
    } else {
        let first = answers.first();
        let rest = answers.drop_first();
        let next = state.after(first.reply, first.now);
        let more = done_after(done, state, first.reply);
        lemma_moved_step(before, done, state, world, first);
        lemma_moved_run(before, more, next, first.world, rest, count, after);
        if state is Clearing && first.reply is Failed {
            assert(next.pending() is None);
            assert(runs(next, first.world, rest, MigrateView::Finished(Ok(count)), after));
        }
        lemma_next_not_clearing(state, world, first);
        assert(seq![first].first() == first);
        assert(handed_back(next, seq![first].drop_first()) =~= seq![]);
        assert(handed_back(state, answers) =~= handed_back(state, seq![first]) + handed_back(
            next,
            rest,
        ));
        assert(more =~= done + in_hand(state));
        assert(done + in_hand(state) + handed_back(state, answers) =~= more + in_hand(next)
            + handed_back(next, rest));
    }
}

/// Where some writes fail and others do not: a migration that comes to its end
/// has emptied the columns of exactly those rows whose secrets the store took
/// and handed back, and counts them. The store has their secrets, and all other
/// rows are as they were.
pub proof fn migration_moves_what_the_store_handed_back(
    before: World,
    answers: Seq<Exchange>,
    count: nat,
    after: World,
)
    requires
        runs(MigrateView::FindingRows, before, answers, MigrateView::Finished(Ok(count)), after),
    ensures
        count == handed_back(MigrateView::FindingRows, answers).len(),
        handed_back(MigrateView::FindingRows, answers).no_duplicates(),
        rows_emptied(before, after, handed_back(MigrateView::FindingRows, answers)),
        secrets_moved(before, after, handed_back(MigrateView::FindingRows, answers)),
{
    let start = MigrateView::FindingRows;
    assert(moved_exactly(before, seq![], start, before));
    lemma_moved_run(before, seq![], start, before, answers, count, after);
    assert(seq![] + in_hand(start) + handed_back(start, answers) =~= handed_back(start, answers));
}

/// At every point of a migration, however it goes on and whatever fails, the
/// columns of some rows have been emptied, whose secrets the store has, and all
/// other rows are as they were.
pub proof fn migration_empties_only_what_the_store_has(
    before: World,
    answers: Seq<Exchange>,
    state: MigrateView,
    after: World,
)
    requires
        runs(MigrateView::FindingRows, before, answers, state, after),
    ensures
        exists|ids: Seq<i32>| #[trigger]
            rows_emptied(before, after, ids) && secrets_moved(before, after, ids),
{
    let kept = |state: MigrateView, world: World|
        exists|done: Seq<i32>| #[trigger] moved_exactly(before, done, state, world);
    assert(moved_exactly(before, seq![], MigrateView::FindingRows, before));
    assert forall|state: MigrateView, world: World, request: RequestView, answer: Exchange|
        #![trigger world.serves(request, answer.reply, answer.world), kept(state, world)]
        kept(state, world) && state.pending() == Some(request) && world.serves(
            request,
            answer.reply,
            answer.world,
        ) implies kept(state.after(answer.reply, answer.now), answer.world) by {
        let done = choose|done: Seq<i32>| #[trigger] moved_exactly(before, done, state, world);
        lemma_moved_step(before, done, state, world, answer);
    }
    run_keeps(kept, MigrateView::FindingRows, before, answers, state, after);
    let done = choose|done: Seq<i32>| #[trigger] moved_exactly(before, done, state, after);
    assert(rows_emptied(before, after, done));
}

/// Where no row has secrets in its columns there is nothing to do: the migration
/// looks the rows up, writes nothing, and counts none.
pub proof fn migration_of_clear_rows_does_nothing(
    before: World,
    answers: Seq<Exchange>,
    outcome: Result<nat, Seq<char>>,
    after: World,
)
    requires
        all_clear(before),
        runs(MigrateView::FindingRows, before, answers, MigrateView::Finished(outcome), after),
    ensures
        after == before,
        outcome is Ok ==> outcome == Ok::<nat, Seq<char>>(0),
        before.granting ==> outcome == Ok::<nat, Seq<char>>(0),
        answers.len() == 1,
{
    let first = answers.first();
    if let ReplyView::Rows(rows) = first.reply {
        assert forall|i: int| 0 <= i < rows.len() implies is_clear(#[trigger] rows[i]) by {
            assert(before.rows.dom().contains(rows[i].id));
        }
        lemma_clear_rows_pass(rows, seq![]);
    }
    let next = MigrateView::FindingRows.after(first.reply, first.now);
    assert(next is Finished && next.pending() is None);
    assert(runs(
        next,
        first.world,
        answers.drop_first(),
        MigrateView::Finished(outcome),
        after,
    ));
}

/// After a migration in which nothing failed, with a store that keeps what it
/// acknowledges, there is nothing left to move.
pub proof fn second_migration_does_nothing(
    before: World,
    answers: Seq<Exchange>,
    outcome: Result<nat, Seq<char>>,
    between: World,
    more_answers: Seq<Exchange>,
    second_outcome: Result<nat, Seq<char>>,
    after: World,
)
    requires
        before.faithful,
        before.granting,
        runs(MigrateView::FindingRows, before, answers, MigrateView::Finished(outcome), between),
        runs(
            MigrateView::FindingRows,
            between,
            more_answers,
            MigrateView::Finished(second_outcome),
            after,
        ),
    ensures
        after == between,
        second_outcome == Ok::<nat, Seq<char>>(0),
{
    let kept = |state: MigrateView, world: World| world.granting;
    run_keeps(
        kept,
        MigrateView::FindingRows,
        before,
        answers,
        MigrateView::Finished(outcome),
        between,
    );
    migration_moves_everything(before, answers, outcome, between);
    migration_of_clear_rows_does_nothing(between, more_answers, second_outcome, after);
}

proof fn lemma_clear_rows_pass(waiting: Seq<RowView>, moved: Seq<i32>)
    requires
        forall|i: int| 0 <= i < waiting.len() ==> is_clear(#[trigger] waiting[i]),
    ensures
        next_moving(waiting, moved) == MigrateView::Finished(Ok(moved.len())),
    decreases waiting.len(),
{
    if waiting.len() > 0 {
        assert(is_clear(waiting[0]));
        let rest = waiting.drop_first();
        assert forall|i: int| 0 <= i < rest.len() implies is_clear(#[trigger] rest[i]) by {
            assert(rest[i] == waiting[i + 1]);
        }
        lemma_clear_rows_pass(rest, moved);
    }
}

/// A row with something other than nothing in its token column, or other than
/// `[]` in its headers column.
pub open spec fn holds_secrets(row: RowView) -> bool {
    row.token.len() != 0 || row.headers != "[]"@
}

/// The row with nothing in its token column and `[]` in its headers column;
/// everything else is as it was.
pub open spec fn without_secrets(row: RowView, after: RowView) -> bool {
    &&& after.token.len() == 0
    &&& after.headers == "[]"@
    &&& after.id == row.id
    &&& after.name == row.name
    &&& after.base_url == row.base_url
    &&& after.sort_order == row.sort_order
    &&& after.created_at == row.created_at
    &&& after.updated_at == row.updated_at
}

/// The store has the token of the row's column under this id, and the headers
/// that the row's column reads as, or none where it cannot be read.
pub open spec fn secrets_in_store(world: World, id: i32, row: RowView) -> bool {
    &&& world.tokens.dom().contains(id)
    &&& world.tokens[id] == row.token
    &&& world.headers.dom().contains(id)
    &&& world.readings.dom().contains(row.headers) ==> world.headers[id]
        == world.readings[row.headers]
    &&& !world.readings.dom().contains(row.headers) ==> world.headers[id].len() == 0
}

proof fn lemma_clear_is_literal(row: RowView)
    ensures
        is_clear(row) <==> !holds_secrets(row),
{
}

/// After a migration in which nothing fails, with a store that keeps what it
/// acknowledges, every row has nothing in its token column and `[]` in its
/// headers column, and is otherwise as it was. The store has the secrets of all
/// rows that held any, and these are counted, whatever else stands in them.
pub proof fn migration_leaves_no_secret_in_the_table(
    before: World,
    answers: Seq<Exchange>,
    outcome: Result<nat, Seq<char>>,
    after: World,
)
    requires
        before.faithful,
        before.granting,
        before.keyed(),
        runs(MigrateView::FindingRows, before, answers, MigrateView::Finished(outcome), after),
    ensures
        outcome is Ok,
        before.rows.dom().filter(|id: i32| holds_secrets(before.rows[id])).finite(),
        outcome->Ok_0 == before.rows.dom().filter(|id: i32| holds_secrets(before.rows[id])).len(),
        after.rows.dom() == before.rows.dom(),
        forall|id: i32| #[trigger]
            before.rows.dom().contains(id) ==> without_secrets(before.rows[id], after.rows[id]),
        forall|id: i32| #[trigger]
            before.rows.dom().contains(id) && holds_secrets(before.rows[id]) ==> secrets_in_store(
                after,
                id,
                before.rows[id],
            ),
{
    migration_moves_everything(before, answers, outcome, after);
    let count = outcome->Ok_0;
    migration_moves_what_the_store_handed_back(before, answers, count, after);
    migration_reads_the_same_columns(before, answers, MigrateView::Finished(outcome), after);
    let ids = handed_back(MigrateView::FindingRows, answers);
    let held = before.rows.dom().filter(|id: i32| holds_secrets(before.rows[id]));
    assert forall|id: i32| #[trigger] before.rows.dom().contains(id) implies without_secrets(
        before.rows[id],
        after.rows[id],
    ) && (ids.contains(id) <==> holds_secrets(before.rows[id])) by {
        lemma_clear_is_literal(before.rows[id]);
        assert(after.rows.dom().contains(id));
        assert(is_clear(after.rows[id]));
    }
    assert forall|id: i32| ids.to_set().contains(id) <==> held.contains(id) by {
        if ids.contains(id) {
            assert(before.rows.dom().contains(id));
        }
    }
    assert(ids.to_set() =~= held);
    ids.unique_seq_to_set();
}

/// How columns read does not change in a migration.
proof fn migration_reads_the_same_columns(
    before: World,
    answers: Seq<Exchange>,
    state: MigrateView,
    after: World,
)
    requires
        runs(MigrateView::FindingRows, before, answers, state, after),
    ensures
        after.readings == before.readings,
{
    let kept = |state: MigrateView, world: World| world.readings == before.readings;
    run_keeps(kept, MigrateView::FindingRows, before, answers, state, after);
}

/// A row with nothing in its token column and `[]` in its headers column is left
/// alone at every point of a migration, and so is what the store has for it.
pub proof fn migration_leaves_rows_without_secrets_alone(
    before: World,
    answers: Seq<Exchange>,
    state: MigrateView,
    after: World,
    id: i32,
)
    requires
        before.keyed(),
        before.rows.dom().contains(id),
        before.rows[id].token.len() == 0,
        before.rows[id].headers == "[]"@,
        runs(MigrateView::FindingRows, before, answers, state, after),
    ensures
        after.rows.dom().contains(id),
        after.rows[id] == before.rows[id],
        found(after.tokens, id) == found(before.tokens, id),
        found(after.headers, id) == found(before.headers, id),
{
    lemma_clear_is_literal(before.rows[id]);
    let kept = |state: MigrateView, world: World| migrate_keeps(before, id, state, world);
    assert forall|state: MigrateView, world: World, request: RequestView, answer: Exchange|
        #![trigger world.serves(request, answer.reply, answer.world), kept(state, world)]
        kept(state, world) && state.pending() == Some(request) && world.serves(
            request,
            answer.reply,
            answer.world,
        ) implies kept(state.after(answer.reply, answer.now), answer.world) by {
        lemma_migrate_step(before, id, state, world, answer);
    }
    run_keeps(kept, MigrateView::FindingRows, before, answers, state, after);
}

/// Whatever fails, at every point of a migration a row is as it was, or has lost
/// its secrets and nothing else, and then the store has them.
pub proof fn migration_never_loses_a_secret(
    before: World,
    answers: Seq<Exchange>,
    state: MigrateView,
    after: World,
    id: i32,
)
    requires
        before.keyed(),
        before.rows.dom().contains(id),
        runs(MigrateView::FindingRows, before, answers, state, after),
    ensures
        after.rows.dom() == before.rows.dom(),
        after.rows[id] == before.rows[id] || (without_secrets(before.rows[id], after.rows[id])
            && secrets_in_store(after, id, before.rows[id])),
{
    migration_empties_only_what_the_store_has(before, answers, state, after);
    migration_reads_the_same_columns(before, answers, state, after);
    let ids = choose|ids: Seq<i32>| #[trigger]
        rows_emptied(before, after, ids) && secrets_moved(before, after, ids);
    if ids.contains(id) {
        assert(store_has(after, before.rows[id], column_headers(before, before.rows[id])));
    }
}

/// A migration that comes to its end counts the rows that held secrets before
/// and hold none after, whatever failed.
pub proof fn migration_counts_what_it_cleared(
    before: World,
    answers: Seq<Exchange>,
    count: nat,
    after: World,
)
    requires
        runs(MigrateView::FindingRows, before, answers, MigrateView::Finished(Ok(count)), after),
    ensures
        count == before.rows.dom().filter(
            |id: i32| holds_secrets(before.rows[id]) && !holds_secrets(after.rows[id]),
        ).len(),
{
    migration_moves_what_the_store_handed_back(before, answers, count, after);
    let ids = handed_back(MigrateView::FindingRows, answers);
    let cleared = before.rows.dom().filter(
        |id: i32| holds_secrets(before.rows[id]) && !holds_secrets(after.rows[id]),
    );
    assert forall|id: i32| ids.to_set().contains(id) <==> cleared.contains(id) by {
        if ids.contains(id) {
            assert(before.rows.dom().contains(id));
        }
        if before.rows.dom().contains(id) {
            lemma_clear_is_literal(before.rows[id]);
            lemma_clear_is_literal(after.rows[id]);
        }
    }
    assert(ids.to_set() =~= cleared);
    ids.unique_seq_to_set();
}

/// The rows whose tokens are still to be offered to the store.
spec fn to_offer(state: MigrateView) -> Seq<RowView> {
    match state {
        MigrateView::ReadingColumn(moving) => waiting_of(moving),
        MigrateView::Storing(moving, _, SecretWrite::Token) => waiting_of(moving),
        MigrateView::Storing(moving, _, SecretWrite::Headers) => moving.rest,
        MigrateView::ReadingToken(moving, _) => moving.rest,
        MigrateView::ReadingHeaders(moving, _, _) => moving.rest,
        MigrateView::Clearing(moving) => moving.rest,
        _ => seq![],
    }
}

/// Passing over rows without secrets, no row is lost.
proof fn lemma_next_offers(waiting: Seq<RowView>, moved: Seq<i32>, row: RowView)
    requires
        waiting.contains(row),
        holds_secrets(row),
    ensures
        to_offer(next_moving(waiting, moved)).contains(row),
    decreases waiting.len(),
{
    let first = waiting.first();
    let rest = waiting.drop_first();
    let i = choose|i: int| 0 <= i < waiting.len() && waiting[i] == row;
    if is_clear(first) {
        lemma_clear_is_literal(first);
        assert(i > 0);
        assert(rest[i - 1] == row);
        lemma_next_offers(rest, moved, row);
    } else {
        let moving = MovingView { row: first, rest, moved };
        assert(waiting_of(moving) =~= waiting);
    }
}

proof fn lemma_all_offered(
    from: MigrateView,
    world: World,
    answers: Seq<Exchange>,
    count: nat,
    after: World,
    row: RowView,
)
    requires
        to_offer(from).contains(row),
        holds_secrets(row),
        runs(from, world, answers, MigrateView::Finished(Ok(count)), after),
    ensures
        asks(from, answers, RequestView::StoreToken(row.id, row.token)),
    decreases answers.len(),
{
    assert(answers.len() > 0);
    let first = answers.first();
    let rest = answers.drop_first();
    let next = from.after(first.reply, first.now);
    assert(world.serves(from.pending()->0, first.reply, first.world));
    if from.pending() != Some(RequestView::StoreToken(row.id, row.token)) {
        match from {
            MigrateView::ReadingColumn(moving) => {},
            MigrateView::Storing(moving, _, write) => {
                if write == SecretWrite::Token {
                    let waiting = waiting_of(moving);
                    let i = choose|i: int| 0 <= i < waiting.len() && waiting[i] == row;
                    assert(i > 0);
                    assert(moving.rest[i - 1] == row);
                }
                lemma_next_offers(moving.rest, moving.moved, row);
            },
            MigrateView::ReadingToken(moving, _) => {
                lemma_next_offers(moving.rest, moving.moved, row);
            },
            MigrateView::ReadingHeaders(moving, _, _) => {
                lemma_next_offers(moving.rest, moving.moved, row);
            },
            MigrateView::Clearing(moving) => {
                lemma_next_offers(moving.rest, moving.moved.push(moving.row.id), row);
                if first.reply is Failed {
                    assert(next.pending() is None);
                    assert(runs(next, first.world, rest, MigrateView::Finished(Ok(count)), after));
                }
            },
            _ => {},
        }
        lemma_all_offered(next, first.world, rest, count, after, row);
    }
}

/// No row is forgotten: a migration that comes to its end has offered the token
/// of every row that holds secrets to the store, whatever failed for the others.
pub proof fn migration_offers_every_secret(
    before: World,
    answers: Seq<Exchange>,
    count: nat,
    after: World,
    id: i32,
)
    requires
        before.keyed(),
        before.rows.dom().contains(id),
        holds_secrets(before.rows[id]),
        runs(MigrateView::FindingRows, before, answers, MigrateView::Finished(Ok(count)), after),
    ensures
        asks(MigrateView::FindingRows, answers, RequestView::StoreToken(id, before.rows[id].token)),
{
    let first = answers.first();
    let rest = answers.drop_first();
    let next = MigrateView::FindingRows.after(first.reply, first.now);
    assert(runs(next, first.world, rest, MigrateView::Finished(Ok(count)), after));
    if first.reply is Failed {
        assert(next.pending() is None);
    }
    let rows = first.reply->Rows_0;
    let i = choose|i: int| 0 <= i < rows.len() && (#[trigger] rows[i]).id == id;
    assert(found(before.rows, rows[i].id) == Some(rows[i]));
    assert(rows.contains(before.rows[id]));
    lemma_next_offers(rows, seq![], before.rows[id]);
    lemma_all_offered(next, first.world, rest, count, after, before.rows[id]);
}

/// The number of requests that are left at the most once the rows are there.
spec fn moves_left(state: MigrateView) -> nat {
    match state {
        MigrateView::FindingRows => 0,
        MigrateView::ReadingColumn(moving) => 6 * moving.rest.len() + 6,
        MigrateView::Storing(moving, _, SecretWrite::Token) => 6 * moving.rest.len() + 5,
        MigrateView::Storing(moving, _, SecretWrite::Headers) => 6 * moving.rest.len() + 4,
        MigrateView::ReadingToken(moving, _) => 6 * moving.rest.len() + 3,
        MigrateView::ReadingHeaders(moving, _, _) => 6 * moving.rest.len() + 2,
        MigrateView::Clearing(moving) => 6 * moving.rest.len() + 1,
        MigrateView::Finished(_) => 0,
    }
}

proof fn lemma_next_moves_left(waiting: Seq<RowView>, moved: Seq<i32>)
    ensures
        moves_left(next_moving(waiting, moved)) <= 6 * waiting.len(),
        !(next_moving(waiting, moved) is FindingRows),
        !(next_moving(waiting, moved) matches MigrateView::Finished(Err(_))),
    decreases waiting.len(),
{
    if waiting.len() > 0 && is_clear(waiting.first()) {
        lemma_next_moves_left(waiting.drop_first(), moved);
    }
}

proof fn lemma_moves_left(
    from: MigrateView,
    world: World,
    answers: Seq<Exchange>,
    to: MigrateView,
    after: World,
)
    requires
        !(from is FindingRows),
        runs(from, world, answers, to, after),
    ensures
        answers.len() <= moves_left(from),
        to matches MigrateView::Finished(Err(text)) ==> from == to || (answers.len() > 0
            && answers.last().reply == ReplyView::Failed(text)),
    decreases answers.len(),
{
    if answers.len() > 0 {
        let first = answers.first();
        let rest = answers.drop_first();
        let next = from.after(first.reply, first.now);
        assert(world.serves(from.pending()->0, first.reply, first.world));
        match from {
            MigrateView::Storing(moving, _, _) => {
                lemma_next_moves_left(moving.rest, moving.moved);
            },
            MigrateView::ReadingToken(moving, _) => {
                lemma_next_moves_left(moving.rest, moving.moved);
            },
            MigrateView::ReadingHeaders(moving, _, _) => {
                lemma_next_moves_left(moving.rest, moving.moved);
            },
            MigrateView::Clearing(moving) => {
                lemma_next_moves_left(moving.rest, moving.moved.push(moving.row.id));
            },
            _ => {},
        }
        lemma_moves_left(next, first.world, rest, to, after);
        if rest.len() > 0 {
            assert(rest.last() == answers.last());
        } else {
            assert(answers.last() == first);
        }
    }
}

/// A migration ends: once the rows are there, at most six requests are made for
/// each, and one is pending until it is finished. It fails only when the last
/// request failed, and reports that in the database's own words.
pub proof fn migration_ends(
    before: World,
    answers: Seq<Exchange>,
    state: MigrateView,
    after: World,
)
    requires
        runs(MigrateView::FindingRows, before, answers, state, after),
    ensures
        state.pending() is None <==> state is Finished,
        answers.len() > 0 ==> match answers[0].reply {
            ReplyView::Rows(rows) => answers.len() <= 1 + 6 * rows.len(),
            _ => answers.len() == 1,
        },
        state matches MigrateView::Finished(Err(text)) ==> answers.len() > 0
            && answers.last().reply == ReplyView::Failed(text),
{
    if answers.len() > 0 {
        let first = answers.first();
        let rest = answers.drop_first();
        let next = MigrateView::FindingRows.after(first.reply, first.now);
        if let ReplyView::Rows(rows) = first.reply {
            lemma_next_moves_left(rows, seq![]);
        }
        lemma_moves_left(next, first.world, rest, state, after);
        if rest.len() > 0 {
            assert(rest.last() == answers.last());
        } else {
            assert(answers.last() == first);
        }
    }
}

} // verus!
