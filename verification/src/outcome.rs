//! Laws on what saving and changing a connection come to, from what was typed to
//! the record, the table and the secret store, stated field by field.

use vstd::prelude::*;

use crate::app_error::{AppErrorCode, AppErrorView};
use crate::connection::{record_of, RecordView, RowView, Timestamp};
use crate::create::{
    create_start, created_connection_is_in_the_table, created_secrets_are_in_the_store,
    draft_is_saved_where_nothing_fails, has_room_at_the_end, row_went_in, CreateView,
};
use crate::header::HeaderView;
use crate::protocol::{Protocol, ReplyView};
use crate::text::decimal;
use crate::typed::{
    all_white_space, base_url_is_saved_as_typed, headers_are_saved_as_typed, is_trim_of, is_url_of,
    keeps_rows, name_is_saved_as_typed, token_is_saved_as_typed,
};
use crate::update::{
    connection_is_changed_where_nothing_fails, row_changed, update_has_the_time_of_the_change,
    update_start, updated_connection_is_in_the_table, updated_secrets_are_in_the_store,
    UpdateView,
};
use crate::validate::{normalized_base_url, validated_headers, validated_name, validated_token};
use crate::world::{found, run_keeps, runs, Exchange, World};

verus! {

/// What was typed can be saved.
pub open spec fn can_be_saved(
    name: Seq<char>,
    base_url: Seq<char>,
    token: Seq<char>,
    headers: Seq<HeaderView>,
) -> bool {
    &&& validated_headers(headers) is Ok
    &&& !all_white_space(name)
    &&& normalized_base_url(base_url) is Ok
    &&& !all_white_space(token)
}

/// Saving starts with exactly what was typed, character for character but for
/// white space around the texts and slashes at the end of the base URL, and with
/// all headers that are not blank. What cannot be saved is refused with the error
/// of the first check that it fails: the headers, the name, the base URL, the
/// token.
pub proof fn create_starts_with_what_was_typed(
    name: Seq<char>,
    base_url: Seq<char>,
    token: Seq<char>,
    headers: Seq<HeaderView>,
    now: Timestamp,
)
    ensures
        can_be_saved(name, base_url, token, headers) <==> create_start(
            name,
            base_url,
            token,
            headers,
            now,
        ) is FindingTop,
        create_start(name, base_url, token, headers, now) matches CreateView::FindingTop(draft)
            ==> {
            &&& is_trim_of(name, draft.name)
            &&& is_url_of(base_url, draft.base_url)
            &&& is_trim_of(token, draft.token)
            &&& keeps_rows(headers, draft.headers)
            &&& draft.now == now
        },
        validated_headers(headers) matches Err(error) ==> create_start(
            name,
            base_url,
            token,
            headers,
            now,
        ) == CreateView::Finished(Err(error)),
        validated_headers(headers) is Ok ==> (validated_name(name) matches Err(error)
            ==> create_start(name, base_url, token, headers, now) == CreateView::Finished(
            Err(error),
        )),
        validated_headers(headers) is Ok && validated_name(name) is Ok ==> (normalized_base_url(
            base_url,
        ) matches Err(error) ==> create_start(name, base_url, token, headers, now)
            == CreateView::Finished(Err(error))),
        validated_headers(headers) is Ok && validated_name(name) is Ok && normalized_base_url(
            base_url,
        ) is Ok ==> (validated_token(token) matches Err(error) ==> create_start(
            name,
            base_url,
            token,
            headers,
            now,
        ) == CreateView::Finished(Err(error))),
{
    name_is_saved_as_typed(name);
    base_url_is_saved_as_typed(base_url);
    token_is_saved_as_typed(token);
    headers_are_saved_as_typed(headers);
}

/// A connection that was saved is what was typed, in the record, in the table and
/// in the store. The record has the typed name, base URL, token and headers, a
/// new id, the highest sort order plus one, or 0 in an empty table, and the time
/// of the call. The table has one more row, with the same in it but for the
/// secrets, and all others as they were. A store that keeps what it acknowledges
/// has the token and the headers.
pub proof fn created_connection_is_what_was_typed(
    name: Seq<char>,
    base_url: Seq<char>,
    token: Seq<char>,
    headers: Seq<HeaderView>,
    now: Timestamp,
    before: World,
    answers: Seq<Exchange>,
    record: RecordView,
    after: World,
)
    requires
        has_room_at_the_end(before.rows),
        runs(
            create_start(name, base_url, token, headers, now),
            before,
            answers,
            CreateView::Finished(Ok(record)),
            after,
        ),
    ensures
        is_trim_of(name, record.name),
        is_url_of(base_url, record.base_url),
        is_trim_of(token, record.token),
        keeps_rows(headers, record.headers),
        record.created_at == now,
        record.updated_at == now,
        !before.rows.dom().contains(record.id),
        forall|id: i32| #[trigger]
            before.rows.dom().contains(id) ==> before.rows[id].sort_order < record.sort_order,
        before.rows.dom() == Set::<i32>::empty() ==> record.sort_order == 0,
        before.rows.dom() != Set::<i32>::empty() ==> exists|id: i32| #[trigger]
            before.rows.dom().contains(id) && before.rows[id].sort_order + 1 == record.sort_order,
        after.rows.dom() == before.rows.dom().insert(record.id),
        forall|id: i32| #[trigger]
            before.rows.dom().contains(id) ==> after.rows[id] == before.rows[id],
        after.rows[record.id].id == record.id,
        after.rows[record.id].name == record.name,
        after.rows[record.id].base_url == record.base_url,
        after.rows[record.id].token.len() == 0,
        after.rows[record.id].headers == "[]"@,
        after.rows[record.id].sort_order == record.sort_order,
        after.rows[record.id].created_at == now,
        after.rows[record.id].updated_at == now,
        before.faithful ==> found(after.tokens, record.id) == Some(record.token),
        before.faithful ==> found(after.headers, record.id) == Some(record.headers),
{
    create_starts_with_what_was_typed(name, base_url, token, headers, now);
    let start = create_start(name, base_url, token, headers, now);
    assert(start is FindingTop);
    let draft = start->FindingTop_0;
    created_connection_is_in_the_table(draft, before, answers, record, after);
    if before.faithful {
        created_secrets_are_in_the_store(draft, before, answers, record, after);
    }
    let row = choose|row: RowView| #[trigger]
        row_went_in(before.rows, draft, row, after.rows) && record == record_of(
            row,
            draft.token,
            draft.headers,
        );
    assert(after.rows.dom() =~= before.rows.dom().insert(record.id));
}

/// What can be saved is saved where no request fails; what cannot be saved is
/// refused without a request.
pub proof fn create_succeeds_when_it_can(
    name: Seq<char>,
    base_url: Seq<char>,
    token: Seq<char>,
    headers: Seq<HeaderView>,
    now: Timestamp,
    before: World,
    answers: Seq<Exchange>,
    outcome: Result<RecordView, AppErrorView>,
    after: World,
)
    requires
        runs(
            create_start(name, base_url, token, headers, now),
            before,
            answers,
            CreateView::Finished(outcome),
            after,
        ),
    ensures
        before.granting && can_be_saved(name, base_url, token, headers) ==> outcome is Ok,
        !can_be_saved(name, base_url, token, headers) ==> outcome is Err && answers.len() == 0
            && after == before,
{
    create_starts_with_what_was_typed(name, base_url, token, headers, now);
    let start = create_start(name, base_url, token, headers, now);
    if can_be_saved(name, base_url, token, headers) {
        if before.granting {
            draft_is_saved_where_nothing_fails(
                start->FindingTop_0,
                before,
                answers,
                outcome,
                after,
            );
        }
    } else {
        assert(start.pending() is None);
    }
}

/// The first failure of the database or the store is what saving reports, in
/// their own words: it stops a database that fails at once, and a store that
/// fails once the row has been deleted or could not be.
pub proof fn failed_create_says_why(state: CreateView, text: Seq<char>, now: Timestamp)
    ensures
        state is FindingTop || state is Inserting ==> {
            &&& state.after(ReplyView::Failed(text), now) matches CreateView::Finished(Err(error))
            &&& error.code == AppErrorCode::DatabaseError
            &&& error.detail == Some(text)
        },
        state matches CreateView::Storing(saved, _) ==> {
            &&& state.after(ReplyView::Failed(text), now) matches CreateView::RollingBack(id, error)
            &&& id == saved.row.id
            &&& error.code == AppErrorCode::IoError
            &&& error.message == "Failed to store remote connection credentials"@
            &&& error.detail == Some(text)
        },
        state matches CreateView::RollingBack(_, error) ==> state.after(
            ReplyView::Failed(text),
            now,
        ) == CreateView::Finished(Err(error)) && state.after(ReplyView::Done, now)
            == CreateView::Finished(Err(error)),
{
}

/// A change starts with exactly what was typed, and with all headers that are not
/// blank. Headers and token are checked before anything is asked, the headers
/// first.
pub proof fn update_starts_with_what_was_typed(
    id: i32,
    name: Seq<char>,
    base_url: Seq<char>,
    token: Seq<char>,
    headers: Seq<HeaderView>,
)
    ensures
        validated_headers(headers) is Ok && !all_white_space(token) <==> update_start(
            id,
            name,
            base_url,
            token,
            headers,
        ) is FindingRow,
        update_start(id, name, base_url, token, headers) matches UpdateView::FindingRow(draft) ==> {
            &&& draft.id == id
            &&& draft.name == name
            &&& draft.base_url == base_url
            &&& is_trim_of(token, draft.token)
            &&& keeps_rows(headers, draft.headers)
        },
        validated_headers(headers) matches Err(error) ==> update_start(
            id,
            name,
            base_url,
            token,
            headers,
        ) == UpdateView::Finished(Err(error)),
        validated_headers(headers) is Ok ==> (validated_token(token) matches Err(error)
            ==> update_start(id, name, base_url, token, headers) == UpdateView::Finished(
            Err(error),
        )),
{
    token_is_saved_as_typed(token);
    headers_are_saved_as_typed(headers);
}

/// A connection that was changed is what was typed, in the record, in the table
/// and in the store: the typed name, base URL, token and all typed headers, under
/// the same id, with the place and the time of creation that it had, and the time
/// at which the row was found. The columns for secrets are empty, and all other
/// rows are as they were.
pub proof fn updated_connection_is_what_was_typed(
    id: i32,
    name: Seq<char>,
    base_url: Seq<char>,
    token: Seq<char>,
    headers: Seq<HeaderView>,
    before: World,
    answers: Seq<Exchange>,
    record: RecordView,
    after: World,
)
    requires
        before.keyed(),
        runs(
            update_start(id, name, base_url, token, headers),
            before,
            answers,
            UpdateView::Finished(Ok(record)),
            after,
        ),
    ensures
        answers.len() > 0,
        before.rows.dom().contains(id),
        record.id == id,
        is_trim_of(name, record.name),
        is_url_of(base_url, record.base_url),
        is_trim_of(token, record.token),
        keeps_rows(headers, record.headers),
        record.sort_order == before.rows[id].sort_order,
        record.created_at == before.rows[id].created_at,
        record.updated_at == answers[0].now,
        after.rows.dom() == before.rows.dom(),
        forall|other: i32| #[trigger]
            before.rows.dom().contains(other) && other != id ==> after.rows[other]
                == before.rows[other],
        after.rows[id].id == id,
        after.rows[id].name == record.name,
        after.rows[id].base_url == record.base_url,
        after.rows[id].token.len() == 0,
        after.rows[id].headers == "[]"@,
        after.rows[id].sort_order == before.rows[id].sort_order,
        after.rows[id].created_at == before.rows[id].created_at,
        after.rows[id].updated_at == answers[0].now,
        before.faithful ==> found(after.tokens, id) == Some(record.token),
        before.faithful ==> found(after.headers, id) == Some(record.headers),
{
    update_starts_with_what_was_typed(id, name, base_url, token, headers);
    name_is_saved_as_typed(name);
    base_url_is_saved_as_typed(base_url);
    let start = update_start(id, name, base_url, token, headers);
    assert(start is FindingRow);
    let draft = start->FindingRow_0;
    updated_connection_is_in_the_table(draft, before, answers, record, after);
    update_has_the_time_of_the_change(draft, before, answers, record, after);
    if before.faithful {
        updated_secrets_are_in_the_store(draft, before, answers, record, after);
    }
    let row = choose|row: RowView| #[trigger]
        row_changed(before.rows, draft, row, after.rows) && record == record_of(
            row,
            draft.token,
            draft.headers,
        );
    assert(after.rows.dom() =~= before.rows.dom());
}

/// A connection that exists is changed where no request fails and what was typed
/// can be saved; what cannot be saved is not.
pub proof fn update_succeeds_when_it_can(
    id: i32,
    name: Seq<char>,
    base_url: Seq<char>,
    token: Seq<char>,
    headers: Seq<HeaderView>,
    before: World,
    answers: Seq<Exchange>,
    outcome: Result<RecordView, AppErrorView>,
    after: World,
)
    requires
        before.keyed(),
        runs(
            update_start(id, name, base_url, token, headers),
            before,
            answers,
            UpdateView::Finished(outcome),
            after,
        ),
    ensures
        before.granting && before.rows.dom().contains(id) && can_be_saved(
            name,
            base_url,
            token,
            headers,
        ) ==> outcome is Ok,
        !can_be_saved(name, base_url, token, headers) ==> outcome is Err && after == before,
{
    update_starts_with_what_was_typed(id, name, base_url, token, headers);
    name_is_saved_as_typed(name);
    base_url_is_saved_as_typed(base_url);
    let start = update_start(id, name, base_url, token, headers);
    if start is FindingRow {
        let draft = start->FindingRow_0;
        if can_be_saved(name, base_url, token, headers) {
            if before.granting && before.rows.dom().contains(id) {
                connection_is_changed_where_nothing_fails(draft, before, answers, outcome, after);
            }
        } else {
            let kept = |state: UpdateView, world: World|
                world == before && (state == UpdateView::FindingRow(draft) || (state
                    matches UpdateView::Finished(Err(_))));
            run_keeps(kept, start, before, answers, UpdateView::Finished(outcome), after);
        }
    } else {
        assert(start.pending() is None);
    }
}

/// What a change reports that comes to nothing: a connection that is not there
/// with its id, a database that fails and a store that fails in their own words,
/// and a name or a base URL that cannot be saved with the error of its check, the
/// name first.
pub proof fn failed_update_says_why(
    state: UpdateView,
    row: RowView,
    text: Seq<char>,
    now: Timestamp,
)
    ensures
        state matches UpdateView::FindingRow(draft) ==> {
            &&& state.after(ReplyView::Row(None), now) matches UpdateView::Finished(Err(error))
            &&& error.code == AppErrorCode::NotFound
            &&& error.message == "Remote connection "@ + decimal(draft.id as int) + " not found"@
            &&& error.detail is None
        },
        state matches UpdateView::FindingRow(draft) ==> (validated_name(draft.name) matches Err(
            error,
        ) ==> state.after(ReplyView::Row(Some(row)), now) == UpdateView::Finished(Err(error))),
        state matches UpdateView::FindingRow(draft) ==> (validated_name(draft.name) is Ok ==> (
        normalized_base_url(draft.base_url) matches Err(error) ==> state.after(
            ReplyView::Row(Some(row)),
            now,
        ) == UpdateView::Finished(Err(error)))),
        state is FindingRow || state is Updating ==> {
            &&& state.after(ReplyView::Failed(text), now) matches UpdateView::Finished(Err(error))
            &&& error.code == AppErrorCode::DatabaseError
            &&& error.detail == Some(text)
        },
        state is Storing ==> {
            &&& state.after(ReplyView::Failed(text), now) matches UpdateView::Finished(Err(error))
            &&& error.code == AppErrorCode::IoError
            &&& error.message == "Failed to store remote connection credentials"@
            &&& error.detail == Some(text)
        },
{
}

} // verus!
