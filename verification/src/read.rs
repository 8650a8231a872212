//! Reading saved connections with their secrets.

use vstd::prelude::*;

use crate::app_error::{text_of, DbError};
use crate::connection::{
    headers_of, record_of, record_views, row_views, rows_of, to_record, token_of, ConnectionRow,
    RecordView, RemoteWorkspaceConnectionRecord, RowView, Timestamp,
};
use crate::header::{HeaderView, RemoteWorkspaceHeader};
use crate::protocol::{request_view, Protocol, Reply, ReplyView, Request, RequestView};
use crate::queue::RowQueue;
use crate::text::at_most;
use crate::world::{ascends, found, in_order, lists, run_keeps, runs, Exchange, World};

verus! {

/// Rows that become records one after the other: the one whose secrets are
/// being read, those that wait, and the records of those before.
#[derive(Debug, PartialEq, Eq)]
pub struct Reading {
    pub row: ConnectionRow,
    pub rest: RowQueue,
    pub records: Vec<RemoteWorkspaceConnectionRecord>,
}

/// What a [`Reading`] holds.
pub struct ReadingView {
    pub row: RowView,
    pub rest: Seq<RowView>,
    pub records: Seq<RecordView>,
}

impl View for Reading {
    type V = ReadingView;

    open spec fn view(&self) -> ReadingView {
        ReadingView { row: self.row@, rest: self.rest@, records: record_views(self.records@) }
    }
}

/// Reading connections, as far as it has come.
#[derive(Debug, PartialEq, Eq)]
pub enum ReadState {
    /// All rows are being looked up.
    FindingAll,
    /// One row is being looked up.
    FindingOne(i32),
    /// The store is asked for the token of a row.
    ReadingToken(Reading),
    /// The store is asked for the headers of a row; this is what it has as the
    /// token.
    ReadingHeaders(Reading, Option<String>),
    /// The store has no headers for the row, and its column is being read.
    ReadingColumn(Reading, Option<String>),
    /// Nothing more is to be done.
    Finished(Result<Vec<RemoteWorkspaceConnectionRecord>, DbError>),
}

/// What a [`ReadState`] holds.
pub enum ReadView {
    FindingAll,
    FindingOne(i32),
    ReadingToken(ReadingView),
    ReadingHeaders(ReadingView, Option<Seq<char>>),
    ReadingColumn(ReadingView, Option<Seq<char>>),
    Finished(Result<Seq<RecordView>, Seq<char>>),
}

/// What a result with records in it says.
pub open spec fn records_result(
    r: Result<Vec<RemoteWorkspaceConnectionRecord>, DbError>,
) -> Result<Seq<RecordView>, Seq<char>> {
    match r {
        Ok(records) => Ok(record_views(records@)),
        Err(error) => Err(error@),
    }
}

impl View for ReadState {
    type V = ReadView;

    open spec fn view(&self) -> ReadView {
        match *self {
            ReadState::FindingAll => ReadView::FindingAll,
            ReadState::FindingOne(id) => ReadView::FindingOne(id),
            ReadState::ReadingToken(reading) => ReadView::ReadingToken(reading@),
            ReadState::ReadingHeaders(reading, token) => ReadView::ReadingHeaders(
                reading@,
                text_of(token),
            ),
            ReadState::ReadingColumn(reading, token) => ReadView::ReadingColumn(
                reading@,
                text_of(token),
            ),
            ReadState::Finished(r) => ReadView::Finished(records_result(r)),
        }
    }
}

/// The state in which these rows wait and these records are there.
pub open spec fn next_reading(waiting: Seq<RowView>, records: Seq<RecordView>) -> ReadView {
    if waiting.len() == 0 {
        ReadView::Finished(Ok(records))
    } else {
        ReadView::ReadingToken(
            ReadingView { row: waiting.first(), rest: waiting.drop_first(), records },
        )
    }
}

/// The state once the secrets of a row are known.
pub open spec fn after_row(
    reading: ReadingView,
    token: Option<Seq<char>>,
    stored: Option<Seq<HeaderView>>,
    column: Option<Seq<HeaderView>>,
) -> ReadView {
    next_reading(
        reading.rest,
        reading.records.push(
            record_of(reading.row, token_of(reading.row, token), headers_of(stored, column)),
        ),
    )
}

impl Protocol for ReadView {
    open spec fn pending(self) -> Option<RequestView> {
        match self {
            ReadView::FindingAll => Some(RequestView::FindOrdered),
            ReadView::FindingOne(id) => Some(RequestView::FindById(id)),
            ReadView::ReadingToken(reading) => Some(RequestView::ReadToken(reading.row.id)),
            ReadView::ReadingHeaders(reading, _) => Some(RequestView::ReadHeaders(reading.row.id)),
            ReadView::ReadingColumn(reading, _) => Some(
                RequestView::ParseHeaders(reading.row.headers),
            ),
            ReadView::Finished(_) => None,
        }
    }

    open spec fn after(self, reply: ReplyView, now: Timestamp) -> Self {
        match (self, reply) {
            (ReadView::FindingAll, ReplyView::Rows(rows)) => next_reading(rows, seq![]),
            (ReadView::FindingAll, ReplyView::Failed(error)) => ReadView::Finished(Err(error)),
            (ReadView::FindingOne(_), ReplyView::Row(Some(row))) => next_reading(
                seq![row],
                seq![],
            ),
            (ReadView::FindingOne(_), ReplyView::Row(None)) => next_reading(seq![], seq![]),
            (ReadView::FindingOne(_), ReplyView::Failed(error)) => ReadView::Finished(Err(error)),
            (ReadView::ReadingToken(reading), ReplyView::Token(token)) => ReadView::ReadingHeaders(
                reading,
                token,
            ),
            (ReadView::ReadingHeaders(reading, token), ReplyView::Headers(Some(headers))) =>
                after_row(reading, token, Some(headers), None),
            (ReadView::ReadingHeaders(reading, token), ReplyView::Headers(None)) =>
                ReadView::ReadingColumn(reading, token),
            (ReadView::ReadingColumn(reading, token), ReplyView::Headers(column)) => after_row(
                reading,
                token,
                None,
                column,
            ),
            _ => self,
        }
    }
}

/// Starts to read all connections, by sort order and then by name.
pub fn list() -> (state: ReadState)
    ensures
        state@ == ReadView::FindingAll,
{
    ReadState::FindingAll
}

/// Starts to read the connection with this id; at most one record comes of it.
pub fn get(id: i32) -> (state: ReadState)
    ensures
        state@ == ReadView::FindingOne(id),
{
    ReadState::FindingOne(id)
}

impl ReadState {
    /// The request that is pending; `None` when the operation is finished.
    pub fn request(&self) -> (r: Option<Request>)
        ensures
            request_view(r) == self@.pending(),
    {
        match self {
            ReadState::FindingAll => Some(Request::FindOrdered),
            ReadState::FindingOne(id) => Some(Request::FindById(*id)),
            ReadState::ReadingToken(reading) => Some(Request::ReadToken(reading.row.id)),
            ReadState::ReadingHeaders(reading, _) => Some(Request::ReadHeaders(reading.row.id)),
            ReadState::ReadingColumn(reading, _) => Some(
                Request::ParseHeaders(reading.row.headers.clone()),
            ),
            ReadState::Finished(_) => None,
        }
    }

    /// The state that an answer leads to.
    pub fn advance(self, reply: Reply, now: Timestamp) -> (state: ReadState)
        ensures
            state@ == self@.after(reply@, now),
    {
        match (self, reply) {
            (ReadState::FindingAll, Reply::Rows(rows)) => Self::first(rows),
            (ReadState::FindingAll, Reply::Failed(error)) => ReadState::Finished(
                Err(DbError { message: error }),
            ),
            (ReadState::FindingOne(_), Reply::Row(row)) => {
                let mut rows: Vec<ConnectionRow> = Vec::new();
                if let Some(row) = row {
                    rows.push(row);
                    assert(row_views(rows@) =~= seq![row@]);
                } else {
                    assert(row_views(rows@) =~= seq![]);
                }
                Self::first(rows)
            },
            (ReadState::FindingOne(_), Reply::Failed(error)) => ReadState::Finished(
                Err(DbError { message: error }),
            ),
            (ReadState::ReadingToken(reading), Reply::Token(token)) => ReadState::ReadingHeaders(
                reading,
                token,
            ),
            (ReadState::ReadingHeaders(reading, token), Reply::Headers(Some(headers))) =>
                Self::read(reading, token, Some(headers), None),
            (ReadState::ReadingHeaders(reading, token), Reply::Headers(None)) =>
                ReadState::ReadingColumn(reading, token),
            (ReadState::ReadingColumn(reading, token), Reply::Headers(column)) => Self::read(
                reading,
                token,
                None,
                column,
            ),
            (state, _) => state,
        }
    }

    fn first(rows: Vec<ConnectionRow>) -> (state: ReadState)
        ensures
            state@ == next_reading(row_views(rows@), seq![]),
    {
        let records: Vec<RemoteWorkspaceConnectionRecord> = Vec::new();
        assert(record_views(records@) =~= seq![]);
        Self::next(RowQueue::of(rows), records)
    }

    fn next(waiting: RowQueue, records: Vec<RemoteWorkspaceConnectionRecord>) -> (state: ReadState)
        ensures
            state@ == next_reading(waiting@, record_views(records@)),
    {
        let mut rest = waiting;
        match rest.pop() {
            Some(row) => ReadState::ReadingToken(Reading { row, rest, records }),
            None => ReadState::Finished(Ok(records)),
        }
    }

    fn read(
        reading: Reading,
        token: Option<String>,
        stored: Option<Vec<RemoteWorkspaceHeader>>,
        column: Option<Vec<RemoteWorkspaceHeader>>,
    ) -> (state: ReadState)
        ensures
            state@ == after_row(
                reading@,
                text_of(token),
                rows_of(stored),
                rows_of(column),
            ),
    {
        let record = to_record(reading.row, token, stored, column);
        let mut records = reading.records;
        let ghost before = record_views(records@);
        records.push(record);
        assert(record_views(records@) =~= before.push(record@));
        Self::next(reading.rest, records)
    }
}

/// The records of these rows.
pub open spec fn records_of(world: World, list: Seq<RowView>) -> Seq<RecordView> {
    Seq::new(list.len(), |i: int| world.record(list[i]))
}

/// The rows of `list` are being read: those that wait are the last ones, and the
/// records are those of the first ones.
spec fn is_reading(world: World, list: Seq<RowView>, reading: ReadingView) -> bool {
    let n = reading.records.len() as int;
    &&& n < list.len()
    &&& reading.row == list[n]
    &&& reading.rest == list.skip(n + 1)
    &&& reading.records == records_of(world, list.take(n))
}

/// The state is one on the way from the rows of `list` to their records.
spec fn read_keeps(world: World, list: Seq<RowView>, state: ReadView) -> bool {
    match state {
        ReadView::FindingAll => false,
        ReadView::FindingOne(_) => false,
        ReadView::ReadingToken(reading) => is_reading(world, list, reading),
        ReadView::ReadingHeaders(reading, token) => is_reading(world, list, reading) && token
            == found(world.tokens, reading.row.id),
        ReadView::ReadingColumn(reading, token) => is_reading(world, list, reading) && token
            == found(world.tokens, reading.row.id) && found(world.headers, reading.row.id) is None,
        ReadView::Finished(Ok(records)) => records == records_of(world, list),
        ReadView::Finished(Err(_)) => false,
    }
}

proof fn lemma_next_reading(world: World, list: Seq<RowView>, n: int)
    requires
        0 <= n <= list.len(),
    ensures
        read_keeps(
            world,
            list,
            next_reading(list.skip(n), records_of(world, list.take(n))),
        ),
{
    if n == list.len() {
        assert(list.take(n) =~= list);
    } else {
        assert(list.skip(n).drop_first() =~= list.skip(n + 1));
        assert(list.skip(n).first() == list[n]);
    }
}

proof fn lemma_read_step(
    world: World,
    list: Seq<RowView>,
    state: ReadView,
    answer: Exchange,
)
    requires
        read_keeps(world, list, state),
        state.pending() is Some,
        world.serves(state.pending()->0, answer.reply, answer.world),
    ensures
        answer.world == world,
        read_keeps(world, list, state.after(answer.reply, answer.now)),
{
    match state {
        ReadView::ReadingHeaders(reading, token) => lemma_row_read(world, list, reading),
        ReadView::ReadingColumn(reading, token) => lemma_row_read(world, list, reading),
        _ => {},
    }
}

proof fn lemma_row_read(world: World, list: Seq<RowView>, reading: ReadingView)
    requires
        is_reading(world, list, reading),
    ensures
        read_keeps(
            world,
            list,
            next_reading(reading.rest, reading.records.push(world.record(reading.row))),
        ),
{
    let n = reading.records.len() as int;
    assert(reading.records.push(world.record(reading.row)) =~= records_of(world, list.take(n + 1)));
    lemma_next_reading(world, list, n + 1);
}

/// A record does not come behind another in a listing: the lower sort order
/// comes first, and for the same sort order the lower name.
pub open spec fn records_in_order(a: RecordView, b: RecordView) -> bool {
    a.sort_order < b.sort_order || (a.sort_order == b.sort_order && at_most(a.name, b.name))
}

/// The records are those of all rows of the table, each once, by sort order and
/// then by name.
pub open spec fn is_listing(world: World, records: Seq<RecordView>) -> bool {
    &&& forall|i: int|
        0 <= i < records.len() ==> world.rows.dom().contains((#[trigger] records[i]).id)
            && records[i] == world.record(world.rows[records[i].id])
    &&& forall|i: int, j: int|
        0 <= i < j < records.len() ==> (#[trigger] records[i]).id != (#[trigger] records[j]).id
    &&& forall|id: i32|
        world.rows.dom().contains(id) ==> exists|i: int|
            0 <= i < records.len() && (#[trigger] records[i]).id == id
    &&& forall|i: int, j: int|
        0 <= i < j < records.len() ==> records_in_order(
            #[trigger] records[i],
            #[trigger] records[j],
        )
}

/// The records of a list of the table's rows are a listing.
proof fn lemma_records_listed(world: World, rows: Seq<RowView>)
    requires
        lists(world.rows, rows),
        ascends(rows),
    ensures
        is_listing(world, records_of(world, rows)),
{
    let records = records_of(world, rows);
    assert forall|i: int| 0 <= i < records.len() implies world.rows.dom().contains(
        (#[trigger] records[i]).id,
    ) && records[i] == world.record(world.rows[records[i].id]) by {
        assert(found(world.rows, rows[i].id) == Some(rows[i]));
    }
    assert forall|i: int, j: int| 0 <= i < j < records.len() implies (#[trigger] records[i]).id != (
    #[trigger] records[j]).id && records_in_order(records[i], records[j]) by {
        assert(rows[i].id != rows[j].id);
        assert(in_order(rows[i], rows[j]));
    }
    assert forall|id: i32| world.rows.dom().contains(id) implies exists|i: int|
        0 <= i < records.len() && (#[trigger] records[i]).id == id by {
        let i = choose|i: int| 0 <= i < rows.len() && (#[trigger] rows[i]).id == id;
        assert(records[i].id == id);
    }
}

/// Reading all connections changes nothing, and gives the record of each row
/// once, by sort order and then by name. A connection whose secrets were never
/// moved to the store has those of its columns.
pub proof fn list_reads_every_connection(
    world: World,
    answers: Seq<Exchange>,
    outcome: Result<Seq<RecordView>, Seq<char>>,
    after: World,
)
    requires
        runs(ReadView::FindingAll, world, answers, ReadView::Finished(outcome), after),
    ensures
        after == world,
        outcome matches Ok(records) ==> exists|rows: Seq<RowView>| #[trigger]
            lists(world.rows, rows) && ascends(rows) && records == records_of(world, rows),
        outcome matches Ok(records) ==> is_listing(world, records),
{
    let first = answers.first();
    let next = ReadView::FindingAll.after(first.reply, first.now);
    if let ReplyView::Rows(rows) = first.reply {
        assert(rows.skip(0) =~= rows);
        assert(records_of(world, rows.take(0)) =~= seq![]);
        lemma_next_reading(world, rows, 0);
        lemma_read_run(world, rows, next, answers.drop_first(), ReadView::Finished(outcome), after);
        assert(lists(world.rows, rows) && ascends(rows));
        lemma_records_listed(world, rows);
    } else {
        lemma_finished_stays(
            next,
            first.world,
            answers.drop_first(),
            ReadView::Finished(outcome),
            after,
        );
    }
}

/// Reading one connection changes nothing, and gives its record, or nothing
/// where there is no such row.
pub proof fn get_reads_the_connection(
    world: World,
    id: i32,
    answers: Seq<Exchange>,
    outcome: Result<Seq<RecordView>, Seq<char>>,
    after: World,
)
    requires
        runs(ReadView::FindingOne(id), world, answers, ReadView::Finished(outcome), after),
    ensures
        after == world,
        outcome matches Ok(records) ==> records == match found(world.rows, id) {
            Some(row) => seq![world.record(row)],
            None => seq![],
        },
{
    let first = answers.first();
    let next = ReadView::FindingOne(id).after(first.reply, first.now);
    if let ReplyView::Row(row) = first.reply {
        let rows = match row {
            Some(row) => seq![row],
            None => seq![],
        };
        assert(rows.skip(0) =~= rows);
        assert(records_of(world, rows.take(0)) =~= seq![]);
        lemma_next_reading(world, rows, 0);
        lemma_read_run(world, rows, next, answers.drop_first(), ReadView::Finished(outcome), after);
        if let Some(row) = row {
            assert(records_of(world, rows) =~= seq![world.record(row)]);
        } else {
            assert(records_of(world, rows) =~= seq![]);
        }
    } else {
        lemma_finished_stays(
            next,
            first.world,
            answers.drop_first(),
            ReadView::Finished(outcome),
            after,
        );
    }
}

proof fn lemma_finished_stays(
    from: ReadView,
    before: World,
    answers: Seq<Exchange>,
    to: ReadView,
    after: World,
)
    requires
        from is Finished,
        runs(from, before, answers, to, after),
    ensures
        to == from,
        after == before,
{
}

proof fn lemma_read_run(
    world: World,
    list: Seq<RowView>,
    from: ReadView,
    answers: Seq<Exchange>,
    end: ReadView,
    after: World,
)
    requires
        read_keeps(world, list, from),
        runs(from, world, answers, end, after),
    ensures
        read_keeps(world, list, end),
        after == world,
{
    let kept = |state: ReadView, w: World| w == world && read_keeps(world, list, state);
    assert forall|state: ReadView, w: World, request: RequestView, answer: Exchange|
        #![trigger w.serves(request, answer.reply, answer.world), kept(state, w)]
        kept(state, w) && state.pending() == Some(request) && w.serves(
            request,
            answer.reply,
            answer.world,
        ) implies kept(state.after(answer.reply, answer.now), answer.world) by {
        lemma_read_step(world, list, state, answer);
    }
    run_keeps(kept, from, world, answers, end, after);
}

/// The record has, field by field, what the row has. Its token is the one in the
/// store, and where the store has none, the one in the column; its headers are
/// those in the store, else those that the column reads as, else none.
pub open spec fn tells(world: World, row: RowView, record: RecordView) -> bool {
    &&& record.id == row.id
    &&& record.name == row.name
    &&& record.base_url == row.base_url
    &&& record.sort_order == row.sort_order
    &&& record.created_at == row.created_at
    &&& record.updated_at == row.updated_at
    &&& world.tokens.dom().contains(row.id) ==> record.token == world.tokens[row.id]
    &&& !world.tokens.dom().contains(row.id) ==> record.token == row.token
    &&& world.headers.dom().contains(row.id) ==> record.headers == world.headers[row.id]
    &&& !world.headers.dom().contains(row.id) && world.readings.dom().contains(row.headers)
        ==> record.headers == world.readings[row.headers]
    &&& !world.headers.dom().contains(row.id) && !world.readings.dom().contains(row.headers)
        ==> record.headers.len() == 0
}

/// Each record of a list tells, field by field, what its row and the store have;
/// every row has one record. A failure of the database is reported in its own
/// words, and nothing else is one.
pub proof fn listed_records_tell_their_rows(
    world: World,
    answers: Seq<Exchange>,
    outcome: Result<Seq<RecordView>, Seq<char>>,
    after: World,
)
    requires
        runs(ReadView::FindingAll, world, answers, ReadView::Finished(outcome), after),
    ensures
        outcome matches Ok(records) ==> forall|i: int|
            0 <= i < records.len() ==> world.rows.dom().contains((#[trigger] records[i]).id)
                && tells(world, world.rows[records[i].id], records[i]),
        outcome matches Ok(records) ==> forall|i: int, j: int|
            0 <= i < j < records.len() ==> (#[trigger] records[i]).id != (#[trigger] records[j]).id,
        outcome matches Ok(records) ==> forall|id: i32| #[trigger]
            world.rows.dom().contains(id) ==> exists|i: int|
                0 <= i < records.len() && (#[trigger] records[i]).id == id,
        outcome matches Ok(records) ==> forall|i: int, j: int|
            0 <= i < j < records.len() ==> (#[trigger] records[i]).sort_order <= (
            #[trigger] records[j]).sort_order && (records[i].sort_order == records[j].sort_order
                ==> at_most(records[i].name, records[j].name)),
        outcome matches Err(text) ==> answers.len() == 1 && answers[0].reply == ReplyView::Failed(
            text,
        ),
        world.granting ==> outcome is Ok,
        after == world,
{
    list_reads_every_connection(world, answers, outcome, after);
    lemma_read_failure(ReadView::FindingAll, world, answers, outcome, after);
    if let Ok(records) = outcome {
        let rows = choose|rows: Seq<RowView>| #[trigger]
            lists(world.rows, rows) && ascends(rows) && records == records_of(world, rows);
        assert forall|i: int| 0 <= i < records.len() implies world.rows.dom().contains(
            (#[trigger] records[i]).id,
        ) && tells(world, world.rows[records[i].id], records[i]) by {
            assert(found(world.rows, rows[i].id) == Some(rows[i]));
            assert(records[i] == world.record(rows[i]));
        }
        assert forall|i: int, j: int| 0 <= i < j < records.len() implies (
        #[trigger] records[i]).sort_order <= (#[trigger] records[j]).sort_order && (
        records[i].sort_order == records[j].sort_order ==> at_most(
            records[i].name,
            records[j].name,
        )) by {
            assert(records_in_order(records[i], records[j]));
        }
    }
}

/// The record of one connection tells, field by field, what its row and the
/// store have; there is none exactly where there is no such row. A failure of the
/// database is reported in its own words, and nothing else is one.
pub proof fn got_record_tells_its_row(
    world: World,
    id: i32,
    answers: Seq<Exchange>,
    outcome: Result<Seq<RecordView>, Seq<char>>,
    after: World,
)
    requires
        runs(ReadView::FindingOne(id), world, answers, ReadView::Finished(outcome), after),
    ensures
        outcome matches Ok(records) ==> records.len() == if world.rows.dom().contains(id) {
            1nat
        } else {
            0nat
        },
        outcome matches Ok(records) ==> (world.rows.dom().contains(id) ==> tells(
            world,
            world.rows[id],
            records[0],
        )),
        outcome matches Err(text) ==> answers.len() == 1 && answers[0].reply == ReplyView::Failed(
            text,
        ),
        world.granting ==> outcome is Ok,
        after == world,
{
    get_reads_the_connection(world, id, answers, outcome, after);
    lemma_read_failure(ReadView::FindingOne(id), world, answers, outcome, after);
}

proof fn lemma_read_failure(
    start: ReadView,
    world: World,
    answers: Seq<Exchange>,
    outcome: Result<Seq<RecordView>, Seq<char>>,
    after: World,
)
    requires
        start is FindingAll || start is FindingOne,
        runs(start, world, answers, ReadView::Finished(outcome), after),
    ensures
        outcome matches Err(text) ==> answers.len() == 1 && answers[0].reply == ReplyView::Failed(
            text,
        ),
        world.granting ==> outcome is Ok,
{
    let first = answers.first();
    let rest = answers.drop_first();
    let next = start.after(first.reply, first.now);
    assert(runs(next, first.world, rest, ReadView::Finished(outcome), after));
    if first.reply is Failed {
        assert(next.pending() is None);
    } else {
        let kept = |state: ReadView, w: World|
            !(state is FindingAll) && !(state is FindingOne) && !(state matches ReadView::Finished(
                Err(_),
            ));
        run_keeps(kept, next, first.world, rest, ReadView::Finished(outcome), after);
    }
}

/// The number of requests that are left at the most once the rows are there.
spec fn requests_left(state: ReadView) -> nat {
    match state {
        ReadView::ReadingToken(reading) => 3 * reading.rest.len() + 3,
        ReadView::ReadingHeaders(reading, _) => 3 * reading.rest.len() + 2,
        ReadView::ReadingColumn(reading, _) => 3 * reading.rest.len() + 1,
        ReadView::Finished(_) => 0,
        _ => 0,
    }
}

/// Reading connections ends: once the rows are there, at most three requests are
/// made for each, and one is pending until it is finished.
pub proof fn read_ends(
    start: ReadView,
    world: World,
    answers: Seq<Exchange>,
    state: ReadView,
    after: World,
)
    requires
        start is FindingAll || start is FindingOne,
        runs(start, world, answers, state, after),
    ensures
        state.pending() is None <==> state is Finished,
        answers.len() > 0 ==> match answers[0].reply {
            ReplyView::Rows(rows) => answers.len() <= 1 + 3 * rows.len(),
            ReplyView::Row(Some(_)) => answers.len() <= 4,
            _ => answers.len() == 1,
        },
{
    if answers.len() > 0 {
        let first = answers.first();
        let rest = answers.drop_first();
        let next = start.after(first.reply, first.now);
        lemma_requests_left(next, first.world, rest, state, after);
    }
}

proof fn lemma_requests_left(
    from: ReadView,
    before: World,
    answers: Seq<Exchange>,
    to: ReadView,
    after: World,
)
    requires
        !(from is FindingAll),
        !(from is FindingOne),
        runs(from, before, answers, to, after),
    ensures
        answers.len() <= requests_left(from),
    decreases answers.len(),
{
    if answers.len() > 0 {
        let first = answers.first();
        let next = from.after(first.reply, first.now);
        assert(before.serves(from.pending()->0, first.reply, first.world));
        assert(requests_left(next) < requests_left(from));
        lemma_requests_left(next, first.world, answers.drop_first(), to, after);
    }
}

} // verus!
