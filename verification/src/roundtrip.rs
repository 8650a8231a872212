//! Laws on the operations together: what reading gives back of what was
//! written, and what an operation on one connection leaves alone.

use vstd::prelude::*;

use crate::connection::{record_of, RecordView, RowView, EMPTY_HEADERS_JSON};
use crate::create::{
    created_connection_is_in_the_table, created_connection_reads_back, has_room_at_the_end,
    is_behind_all, is_next_place, row_went_in, CreateView, DraftView,
};
use crate::migrate::MigrateView;
use crate::protocol::{Protocol, RequestView};
use crate::read::{get_reads_the_connection, list_reads_every_connection, records_of, ReadView};
use crate::remove::{deleted_connection_is_gone, DeleteView};
use crate::reorder::{reorder_start, reordered_rows_have_their_places, ReorderView};
use crate::update::{updated_connection_reads_back, UpdateDraftView, UpdateView};
use crate::world::{
    ascends, found, in_order, listing_is_unique, lists, run_keeps, runs, tells_apart, Exchange,
    World,
};

verus! {

/// Reading one connection that was just saved gives the record that saving it
/// returned.
pub proof fn get_gives_back_what_create_returned(
    draft: DraftView,
    before: World,
    answers: Seq<Exchange>,
    record: RecordView,
    saved: World,
    reads: Seq<Exchange>,
    records: Seq<RecordView>,
    after: World,
)
    requires
        before.faithful,
        has_room_at_the_end(before.rows),
        runs(
            CreateView::FindingTop(draft),
            before,
            answers,
            CreateView::Finished(Ok(record)),
            saved,
        ),
        runs(
            ReadView::FindingOne(record.id),
            saved,
            reads,
            ReadView::Finished(Ok(records)),
            after,
        ),
    ensures
        records == seq![record],
{
    created_connection_reads_back(draft, before, answers, record, saved);
    get_reads_the_connection(saved, record.id, reads, Ok(records), after);
}

/// Reading one connection that was just changed gives the record that the
/// change returned.
pub proof fn get_gives_back_what_update_returned(
    draft: UpdateDraftView,
    before: World,
    answers: Seq<Exchange>,
    record: RecordView,
    changed: World,
    reads: Seq<Exchange>,
    records: Seq<RecordView>,
    after: World,
)
    requires
        before.faithful,
        before.keyed(),
        runs(
            UpdateView::FindingRow(draft),
            before,
            answers,
            UpdateView::Finished(Ok(record)),
            changed,
        ),
        runs(
            ReadView::FindingOne(draft.id),
            changed,
            reads,
            ReadView::Finished(Ok(records)),
            after,
        ),
    ensures
        records == seq![record],
{
    updated_connection_reads_back(draft, before, answers, record, changed);
    get_reads_the_connection(changed, draft.id, reads, Ok(records), after);
}

/// Reading a connection that was just deleted gives nothing.
pub proof fn get_gives_nothing_after_delete(
    id: i32,
    before: World,
    answers: Seq<Exchange>,
    left: Option<Seq<char>>,
    deleted: World,
    reads: Seq<Exchange>,
    records: Seq<RecordView>,
    after: World,
)
    requires
        runs(
            DeleteView::DeletingRow(id),
            before,
            answers,
            DeleteView::Finished(Ok(left)),
            deleted,
        ),
        runs(
            ReadView::FindingOne(id),
            deleted,
            reads,
            ReadView::Finished(Ok(records)),
            after,
        ),
    ensures
        records == Seq::<RecordView>::empty(),
{
    deleted_connection_is_gone(id, before, answers, Ok(left), deleted);
    get_reads_the_connection(deleted, id, reads, Ok(records), after);
}

/// A list that is read right after a connection was saved has the record that
/// saving it returned.
pub proof fn list_has_what_create_returned(
    draft: DraftView,
    before: World,
    answers: Seq<Exchange>,
    record: RecordView,
    saved: World,
    reads: Seq<Exchange>,
    records: Seq<RecordView>,
    after: World,
)
    requires
        before.faithful,
        has_room_at_the_end(before.rows),
        runs(
            CreateView::FindingTop(draft),
            before,
            answers,
            CreateView::Finished(Ok(record)),
            saved,
        ),
        runs(ReadView::FindingAll, saved, reads, ReadView::Finished(Ok(records)), after),
    ensures
        records.contains(record),
{
    created_connection_reads_back(draft, before, answers, record, saved);
    list_reads_every_connection(saved, reads, Ok(records), after);
    let rows = choose|rows: Seq<RowView>| #[trigger]
        lists(saved.rows, rows) && ascends(rows) && records == records_of(saved, rows);
    let i = choose|i: int| 0 <= i < rows.len() && (#[trigger] rows[i]).id == record.id;
    assert(found(saved.rows, rows[i].id) == Some(rows[i]));
    assert(records[i] == record);
}

/// A new connection stands at the end of the list, behind all that were there
/// before, which are listed as they were.
pub proof fn created_connection_is_listed_last(
    draft: DraftView,
    before: World,
    answers: Seq<Exchange>,
    record: RecordView,
    saved: World,
    reads: Seq<Exchange>,
    records: Seq<RecordView>,
    after: World,
)
    requires
        before.faithful,
        has_room_at_the_end(before.rows),
        runs(
            CreateView::FindingTop(draft),
            before,
            answers,
            CreateView::Finished(Ok(record)),
            saved,
        ),
        runs(ReadView::FindingAll, saved, reads, ReadView::Finished(Ok(records)), after),
    ensures
        !before.rows.dom().contains(record.id),
        is_next_place(before.rows, record.sort_order),
        exists|rows: Seq<RowView>| #[trigger]
            lists(before.rows, rows) && ascends(rows) && records == records_of(before, rows).push(
                record,
            ),
{
    created_connection_is_in_the_table(draft, before, answers, record, saved);
    created_connection_reads_back(draft, before, answers, record, saved);
    list_reads_every_connection(saved, reads, Ok(records), after);
    let row = choose|row: RowView| #[trigger]
        row_went_in(before.rows, draft, row, saved.rows) && record == record_of(
            row,
            draft.token,
            draft.headers,
        );
    let list = choose|rows: Seq<RowView>| #[trigger]
        lists(saved.rows, rows) && ascends(rows) && records == records_of(saved, rows);
    let rows = list.drop_last();
    lemma_new_row_is_last(before.rows, row, list);
    assert forall|i: int| 0 <= i < rows.len() implies saved.record(#[trigger] rows[i])
        == before.record(rows[i]) by {
        assert(found(before.rows, rows[i].id) == Some(rows[i]));
        create_leaves_the_others_alone(
            draft,
            before,
            answers,
            CreateView::Finished(Ok(record)),
            saved,
            rows[i].id,
        );
    }
    assert(records =~= records_of(before, rows).push(record));
}

/// A row with a higher sort order than all others is the last of a listing, and
/// what is in front of it is a listing of the others.
proof fn lemma_new_row_is_last(rows: Map<i32, RowView>, row: RowView, list: Seq<RowView>)
    requires
        !rows.dom().contains(row.id),
        is_behind_all(rows, row.sort_order),
        lists(rows.insert(row.id, row), list),
        ascends(list),
    ensures
        list.len() > 0,
        list.last() == row,
        lists(rows, list.drop_last()),
        ascends(list.drop_last()),
{
    let all = rows.insert(row.id, row);
    assert(all.dom().contains(row.id));
    let k = choose|k: int| 0 <= k < list.len() && (#[trigger] list[k]).id == row.id;
    let last = list.len() - 1;
    assert(found(all, list[k].id) == Some(list[k]));
    assert(found(all, list[last].id) == Some(list[last]));
    if k < last {
        assert(in_order(list[k], list[last]));
        assert(list[k].id != list[last].id);
        assert(rows.dom().contains(list[last].id));
    }
    let front = list.drop_last();
    assert forall|i: int| 0 <= i < front.len() implies found(rows, (#[trigger] front[i]).id)
        == Some(front[i]) by {
        assert(found(all, list[i].id) == Some(list[i]));
        assert(list[i].id != list[last].id);
    }
    assert forall|i: int, j: int| 0 <= i < j < front.len() implies (#[trigger] front[i]).id != (
    #[trigger] front[j]).id && in_order(front[i], front[j]) by {
        assert(list[i].id != list[j].id);
    }
    assert forall|id: i32| rows.dom().contains(id) implies exists|i: int|
        0 <= i < front.len() && (#[trigger] front[i]).id == id by {
        assert(all.dom().contains(id));
        let i = choose|i: int| 0 <= i < list.len() && (#[trigger] list[i]).id == id;
        assert(front[i].id == id);
    }
}

/// Saving a connection adds it to the end of the list and changes nothing in
/// front of it. Rows with the same sort order and the same name are left out:
/// two lists may have them in two orders.
pub proof fn create_adds_to_the_end_of_the_list(
    before: World,
    first_reads: Seq<Exchange>,
    first_records: Seq<RecordView>,
    draft: DraftView,
    answers: Seq<Exchange>,
    record: RecordView,
    saved: World,
    reads: Seq<Exchange>,
    records: Seq<RecordView>,
    after: World,
)
    requires
        before.faithful,
        has_room_at_the_end(before.rows),
        tells_apart(before.rows),
        runs(
            ReadView::FindingAll,
            before,
            first_reads,
            ReadView::Finished(Ok(first_records)),
            before,
        ),
        runs(
            CreateView::FindingTop(draft),
            before,
            answers,
            CreateView::Finished(Ok(record)),
            saved,
        ),
        runs(ReadView::FindingAll, saved, reads, ReadView::Finished(Ok(records)), after),
    ensures
        records == first_records.push(record),
{
    list_reads_every_connection(before, first_reads, Ok(first_records), before);
    created_connection_is_listed_last(
        draft,
        before,
        answers,
        record,
        saved,
        reads,
        records,
        after,
    );
    let a = choose|rows: Seq<RowView>| #[trigger]
        lists(before.rows, rows) && ascends(rows) && first_records == records_of(before, rows);
    let b = choose|rows: Seq<RowView>| #[trigger]
        lists(before.rows, rows) && ascends(rows) && records == records_of(before, rows).push(
            record,
        );
    listing_is_unique(before.rows, a, b);
}

/// Reading one of the listed connections gives the record that the list has.
pub proof fn get_gives_what_list_gave(
    world: World,
    list_reads: Seq<Exchange>,
    records: Seq<RecordView>,
    i: int,
    reads: Seq<Exchange>,
    found_records: Seq<RecordView>,
    after: World,
)
    requires
        runs(ReadView::FindingAll, world, list_reads, ReadView::Finished(Ok(records)), world),
        0 <= i < records.len(),
        runs(
            ReadView::FindingOne(records[i].id),
            world,
            reads,
            ReadView::Finished(Ok(found_records)),
            after,
        ),
    ensures
        found_records == seq![records[i]],
        after == world,
{
    list_reads_every_connection(world, list_reads, Ok(records), world);
    get_reads_the_connection(world, records[i].id, reads, Ok(found_records), after);
}

/// What the table and the store have for a connection, and how its column
/// reads, is the same in both worlds.
pub open spec fn same_for(before: World, after: World, id: i32) -> bool {
    &&& found(after.rows, id) == found(before.rows, id)
    &&& found(after.tokens, id) == found(before.tokens, id)
    &&& found(after.headers, id) == found(before.headers, id)
    &&& after.readings == before.readings
}

/// What is the same in both worlds reads the same.
pub proof fn same_connection_reads_the_same(before: World, after: World, id: i32)
    requires
        before.keyed(),
        before.rows.dom().contains(id),
        same_for(before, after, id),
    ensures
        after.rows.dom().contains(id),
        after.record(after.rows[id]) == before.record(before.rows[id]),
{
}

/// Saving a connection, at whatever point and with whatever outcome, leaves the
/// connections alone that were there before.
pub proof fn create_leaves_the_others_alone(
    draft: DraftView,
    before: World,
    answers: Seq<Exchange>,
    state: CreateView,
    after: World,
    id: i32,
)
    requires
        before.rows.dom().contains(id),
        runs(CreateView::FindingTop(draft), before, answers, state, after),
    ensures
        same_for(before, after, id),
{
    let kept = |state: CreateView, world: World|
        same_for(before, world, id) && match state {
            CreateView::Storing(saved, _) => saved.row.id != id,
            CreateView::RollingBack(other, _) => other != id,
            _ => true,
        };
    run_keeps(kept, CreateView::FindingTop(draft), before, answers, state, after);
}

/// Changing a connection, at whatever point and with whatever outcome, leaves
/// all others alone.
pub proof fn update_leaves_the_others_alone(
    draft: UpdateDraftView,
    before: World,
    answers: Seq<Exchange>,
    state: UpdateView,
    after: World,
    id: i32,
)
    requires
        before.keyed(),
        id != draft.id,
        runs(UpdateView::FindingRow(draft), before, answers, state, after),
    ensures
        same_for(before, after, id),
{
    let kept = |state: UpdateView, world: World|
        same_for(before, world, id) && match state {
            UpdateView::FindingRow(d) => d == draft && world == before,
            UpdateView::Updating(patch, _, _) => patch.id == draft.id && world == before,
            UpdateView::Storing(saved, _) => saved.row.id == draft.id,
            UpdateView::Finished(_) => true,
        };
    run_keeps(kept, UpdateView::FindingRow(draft), before, answers, state, after);
}

/// Deleting a connection, at whatever point and with whatever outcome, leaves
/// all others alone.
pub proof fn delete_leaves_the_others_alone(
    id: i32,
    before: World,
    answers: Seq<Exchange>,
    state: DeleteView,
    after: World,
    other: i32,
)
    requires
        other != id,
        runs(DeleteView::DeletingRow(id), before, answers, state, after),
    ensures
        same_for(before, after, other),
{
    let kept = |state: DeleteView, world: World|
        same_for(before, world, other) && match state {
            DeleteView::DeletingRow(i) => i == id,
            DeleteView::DeletingSecrets(i) => i == id,
            DeleteView::Finished(_) => true,
        };
    run_keeps(kept, DeleteView::DeletingRow(id), before, answers, state, after);
}

/// An order that went through changes nothing of a connection but its place and
/// the time of its last change: its secrets above all read as before.
pub proof fn reorder_changes_places_alone(
    before: World,
    ids: Seq<i32>,
    answers: Seq<Exchange>,
    after: World,
    id: i32,
)
    requires
        ids.len() > 0,
        before.before is None,
        before.rows.dom().contains(id),
        runs(reorder_start(ids), before, answers, ReorderView::Finished(Ok(())), after),
    ensures
        after.rows.dom().contains(id),
        after.record(after.rows[id]) == (RecordView {
            sort_order: after.rows[id].sort_order,
            updated_at: after.rows[id].updated_at,
            ..before.record(before.rows[id])
        }),
{
    reordered_rows_have_their_places(before, ids, answers, after);
    assert(ids.contains(id));
    let i = choose|i: int| 0 <= i < ids.len() && ids[i] == id;
    assert(after.rows[ids[i]].name == before.rows[ids[i]].name);
}

/// The request does not write a secret into a column of the table: where it
/// writes these columns at all, it empties them.
pub open spec fn writes_no_secret(request: Option<RequestView>) -> bool {
    match request {
        Some(RequestView::Insert(row)) => row.token.len() == 0 && row.headers
            == EMPTY_HEADERS_JSON@,
        Some(RequestView::Update(patch)) => {
            &&& patch.token is Some ==> patch.token->0.len() == 0
            &&& patch.headers is Some ==> patch.headers->0 == EMPTY_HEADERS_JSON@
        },
        _ => true,
    }
}

/// Secrets go to the store alone: saving, reading, deleting, ordering and
/// migrating never write one into the table.
pub proof fn secrets_stay_out_of_the_table(
    create: CreateView,
    read: ReadView,
    delete: DeleteView,
    reorder: ReorderView,
    migrate: MigrateView,
)
    ensures
        writes_no_secret(create.pending()),
        writes_no_secret(read.pending()),
        writes_no_secret(delete.pending()),
        writes_no_secret(reorder.pending()),
        writes_no_secret(migrate.pending()),
{
}

/// Secrets go to the store alone: changing a connection never writes one into
/// the table.
pub proof fn update_keeps_secrets_out_of_the_table(
    draft: UpdateDraftView,
    before: World,
    answers: Seq<Exchange>,
    state: UpdateView,
    after: World,
)
    requires
        runs(UpdateView::FindingRow(draft), before, answers, state, after),
    ensures
        writes_no_secret(state.pending()),
{
    let kept = |state: UpdateView, world: World| writes_no_secret(state.pending());
    run_keeps(kept, UpdateView::FindingRow(draft), before, answers, state, after);
}

} // verus!
