//! Laws on the views: what a value holds in a contract is what its fields hold,
//! and nothing is left out.

use vstd::prelude::*;

use crate::app_error::{text_of, AppCommandError, DbError};
use crate::connection::{
    record_views, row_views, rows_of, ConnectionPatch, ConnectionRow, NewConnectionRow,
    RemoteWorkspaceConnectionInfo, RemoteWorkspaceConnectionRecord,
};
use crate::create::{record_result, ConnectionDraft, CreateState, CreateView, SavedConnection};
use crate::header::{header_rows, HeaderPair, RemoteWorkspaceHeader};
use crate::migrate::{MigrateState, MigrateView};
use crate::protocol::{request_view, row_view, Reply, ReplyView, Request, RequestView};
use crate::read::{records_result, ReadState, ReadView};
use crate::remove::{DeleteState, DeleteView};
use crate::reorder::{ReorderState, ReorderView};
use crate::update::{UpdateDraft, UpdateState, UpdateView};

verus! {

/// The two texts of a header, and those of a list of headers, in its order.
pub proof fn header_views_tell_the_fields(
    header: RemoteWorkspaceHeader,
    headers: Seq<RemoteWorkspaceHeader>,
    pair: HeaderPair,
)
    ensures
        header@.name == header.name@,
        header@.value == header.value@,
        header_rows(headers).len() == headers.len(),
        forall|i: int|
            0 <= i < headers.len() ==> (#[trigger] header_rows(headers)[i]).name
                == headers[i].name@ && header_rows(headers)[i].value == headers[i].value@,
        pair@.name == pair.name@,
        pair@.value == pair.value@,
        pair@.sensitive == pair.sensitive,
{
}

/// The columns of a row, of a new row, of a list of rows, and of a change.
pub proof fn row_views_tell_the_fields(
    row: ConnectionRow,
    rows: Seq<ConnectionRow>,
    new: NewConnectionRow,
    patch: ConnectionPatch,
)
    ensures
        row@.id == row.id,
        row@.name == row.name@,
        row@.base_url == row.base_url@,
        row@.token == row.token@,
        row@.headers == row.headers@,
        row@.sort_order == row.sort_order,
        row@.created_at == row.created_at,
        row@.updated_at == row.updated_at,
        row_views(rows).len() == rows.len(),
        forall|i: int| 0 <= i < rows.len() ==> #[trigger] row_views(rows)[i] == rows[i]@,
        row_view(None) is None,
        row_view(Some(row)) == Some(row@),
        new@.name == new.name@,
        new@.base_url == new.base_url@,
        new@.token == new.token@,
        new@.headers == new.headers@,
        new@.sort_order == new.sort_order,
        new@.created_at == new.created_at,
        new@.updated_at == new.updated_at,
        patch@.id == patch.id,
        patch@.name == text_of(patch.name),
        patch@.base_url == text_of(patch.base_url),
        patch@.token == text_of(patch.token),
        patch@.headers == text_of(patch.headers),
        patch@.sort_order == patch.sort_order,
        patch@.updated_at == patch.updated_at,
{
}

/// The fields of a record, of a list of records, and of what the frontend sees.
pub proof fn record_views_tell_the_fields(
    record: RemoteWorkspaceConnectionRecord,
    records: Seq<RemoteWorkspaceConnectionRecord>,
    info: RemoteWorkspaceConnectionInfo,
)
    ensures
        record@.id == record.id,
        record@.name == record.name@,
        record@.base_url == record.base_url@,
        record@.token == record.token@,
        record@.headers == header_rows(record.headers@),
        record@.sort_order == record.sort_order,
        record@.created_at == record.created_at,
        record@.updated_at == record.updated_at,
        record_views(records).len() == records.len(),
        forall|i: int|
            0 <= i < records.len() ==> #[trigger] record_views(records)[i] == records[i]@,
        info@.id == info.id,
        info@.name == info.name@,
        info@.base_url == info.base_url@,
        info@.has_token == info.has_token,
        info@.headers == header_rows(info.headers@),
        info@.sort_order == info.sort_order,
        info@.created_at == info.created_at,
        info@.updated_at == info.updated_at,
{
}

/// The parts of an error, and optional texts.
pub proof fn error_views_tell_the_fields(
    error: AppCommandError,
    db: DbError,
    text: String,
    headers: Vec<RemoteWorkspaceHeader>,
)
    ensures
        error@.code == error.code,
        error@.message == error.message@,
        error@.detail == text_of(error.detail),
        db@ == db.message@,
        text_of(None) is None,
        text_of(Some(text)) == Some(text@),
        rows_of(None) is None,
        rows_of(Some(headers)) == Some(header_rows(headers@)),
{
}

/// What a request asks for.
pub proof fn request_views_tell_the_fields(request: Request)
    ensures
        request is FindAll <==> request@ is FindAll,
        request is FindOrdered <==> request@ is FindOrdered,
        request is FindTop <==> request@ is FindTop,
        request matches Request::FindById(id) ==> request@ == RequestView::FindById(id),
        request matches Request::Insert(row) ==> request@ == RequestView::Insert(row@),
        request matches Request::Update(patch) ==> request@ == RequestView::Update(patch@),
        request matches Request::Delete(id) ==> request@ == RequestView::Delete(id),
        request is Begin <==> request@ is Begin,
        request is Commit <==> request@ is Commit,
        request matches Request::ReadToken(id) ==> request@ == RequestView::ReadToken(id),
        request matches Request::ReadHeaders(id) ==> request@ == RequestView::ReadHeaders(id),
        request matches Request::ParseHeaders(text) ==> request@ == RequestView::ParseHeaders(
            text@,
        ),
        request matches Request::StoreToken(id, token) ==> request@ == RequestView::StoreToken(
            id,
            token@,
        ),
        request matches Request::StoreHeaders(id, headers) ==> request@
            == RequestView::StoreHeaders(id, header_rows(headers@)),
        request matches Request::DeleteSecrets(id) ==> request@ == RequestView::DeleteSecrets(id),
        request_view(None) is None,
        request_view(Some(request)) == Some(request@),
{
}

/// What a reply says.
pub proof fn reply_views_tell_the_fields(reply: Reply)
    ensures
        reply matches Reply::Rows(rows) ==> reply@ == ReplyView::Rows(row_views(rows@)),
        reply matches Reply::Row(row) ==> reply@ == ReplyView::Row(row_view(row)),
        reply matches Reply::Saved(row) ==> reply@ == ReplyView::Saved(row@),
        reply matches Reply::Token(token) ==> reply@ == ReplyView::Token(text_of(token)),
        reply matches Reply::Headers(headers) ==> reply@ == ReplyView::Headers(rows_of(headers)),
        reply is Done <==> reply@ is Done,
        reply matches Reply::Failed(text) ==> reply@ == ReplyView::Failed(text@),
{
}

/// What an operation starts from, and what has been saved of it.
pub proof fn draft_views_tell_the_fields(
    draft: ConnectionDraft,
    update: UpdateDraft,
    saved: SavedConnection,
)
    ensures
        draft@.name == draft.name@,
        draft@.base_url == draft.base_url@,
        draft@.token == draft.token@,
        draft@.headers == header_rows(draft.headers@),
        draft@.now == draft.now,
        update@.id == update.id,
        update@.name == update.name@,
        update@.base_url == update.base_url@,
        update@.token == update.token@,
        update@.headers == header_rows(update.headers@),
        saved@.row == saved.row@,
        saved@.token == saved.token@,
        saved@.headers == header_rows(saved.headers@),
{
}

/// What a finished operation has come to.
pub proof fn outcome_views_tell_the_outcomes(
    create: CreateState,
    update: UpdateState,
    read: ReadState,
    delete: DeleteState,
    migrate: MigrateState,
    reorder: ReorderState,
)
    ensures
        create is Finished <==> create@ is Finished,
        create matches CreateState::Finished(Ok(record)) ==> create@ == CreateView::Finished(
            Ok(record@),
        ),
        create matches CreateState::Finished(Err(error)) ==> create@ == CreateView::Finished(
            Err(error@),
        ),
        create matches CreateState::Finished(r) ==> create@ == CreateView::Finished(
            record_result(r),
        ),
        update is Finished <==> update@ is Finished,
        update matches UpdateState::Finished(Ok(record)) ==> update@ == UpdateView::Finished(
            Ok(record@),
        ),
        update matches UpdateState::Finished(Err(error)) ==> update@ == UpdateView::Finished(
            Err(error@),
        ),
        read is Finished <==> read@ is Finished,
        read matches ReadState::Finished(Ok(records)) ==> read@ == ReadView::Finished(
            Ok(record_views(records@)),
        ),
        read matches ReadState::Finished(Err(error)) ==> read@ == ReadView::Finished(Err(error@)),
        read matches ReadState::Finished(r) ==> read@ == ReadView::Finished(records_result(r)),
        delete is Finished <==> delete@ is Finished,
        delete matches DeleteState::Finished(Ok(left)) ==> delete@ == DeleteView::Finished(
            Ok(text_of(left)),
        ),
        delete matches DeleteState::Finished(Err(error)) ==> delete@ == DeleteView::Finished(
            Err(error@),
        ),
        migrate is Finished <==> migrate@ is Finished,
        migrate matches MigrateState::Finished(Ok(count)) ==> migrate@ == MigrateView::Finished(
            Ok(count as nat),
        ),
        migrate matches MigrateState::Finished(Err(error)) ==> migrate@ == MigrateView::Finished(
            Err(error@),
        ),
        reorder is Finished <==> reorder@ is Finished,
        reorder matches ReorderState::Finished(Ok(_)) ==> reorder@ == ReorderView::Finished(
            Ok(()),
        ),
        reorder matches ReorderState::Finished(Err(error)) ==> reorder@ == ReorderView::Finished(
            Err(error@),
        ),
{
}

} // verus!
