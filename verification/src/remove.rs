//! Deleting a saved connection.

use vstd::prelude::*;

use crate::app_error::{text_of, DbError};
use crate::connection::Timestamp;
use crate::protocol::{request_view, Protocol, Reply, ReplyView, Request, RequestView};
use crate::world::{run_ends, run_keeps, runs, Exchange, World};

verus! {

/// Deleting a connection, as far as it has come.
#[derive(Debug, PartialEq, Eq)]
pub enum DeleteState {
    /// The row goes away.
    DeletingRow(i32),
    /// The row is gone; the store forgets the secrets.
    DeletingSecrets(i32),
    /// Nothing more is to be done. The connection is gone, though the store may
    /// have failed to forget the secrets, in its own words; or the database
    /// failed.
    Finished(Result<Option<String>, DbError>),
}

/// What a [`DeleteState`] holds.
pub enum DeleteView {
    DeletingRow(i32),
    DeletingSecrets(i32),
    Finished(Result<Option<Seq<char>>, Seq<char>>),
}

impl View for DeleteState {
    type V = DeleteView;

    open spec fn view(&self) -> DeleteView {
        match *self {
            DeleteState::DeletingRow(id) => DeleteView::DeletingRow(id),
            DeleteState::DeletingSecrets(id) => DeleteView::DeletingSecrets(id),
            DeleteState::Finished(Ok(left)) => DeleteView::Finished(Ok(text_of(left))),
            DeleteState::Finished(Err(error)) => DeleteView::Finished(Err(error@)),
        }
    }
}

impl Protocol for DeleteView {
    open spec fn pending(self) -> Option<RequestView> {
        match self {
            DeleteView::DeletingRow(id) => Some(RequestView::Delete(id)),
            DeleteView::DeletingSecrets(id) => Some(RequestView::DeleteSecrets(id)),
            DeleteView::Finished(_) => None,
        }
    }

    open spec fn after(self, reply: ReplyView, now: Timestamp) -> Self {
        match (self, reply) {
            (DeleteView::DeletingRow(id), ReplyView::Done) => DeleteView::DeletingSecrets(id),
            (DeleteView::DeletingRow(_), ReplyView::Failed(error)) => DeleteView::Finished(
                Err(error),
            ),
            (DeleteView::DeletingSecrets(_), ReplyView::Done) => DeleteView::Finished(Ok(None)),
            (DeleteView::DeletingSecrets(_), ReplyView::Failed(error)) => DeleteView::Finished(
                Ok(Some(error)),
            ),
            _ => self,
        }
    }
}

/// Starts to delete the connection with this id.
pub fn delete(id: i32) -> (state: DeleteState)
    ensures
        state@ == DeleteView::DeletingRow(id),
{
    DeleteState::DeletingRow(id)
}

impl DeleteState {
    /// The request that is pending; `None` when the operation is finished.
    pub fn request(&self) -> (r: Option<Request>)
        ensures
            request_view(r) == self@.pending(),
    {
        match self {
            DeleteState::DeletingRow(id) => Some(Request::Delete(*id)),
            DeleteState::DeletingSecrets(id) => Some(Request::DeleteSecrets(*id)),
            DeleteState::Finished(_) => None,
        }
    }

    /// The state that an answer leads to.
    pub fn advance(self, reply: Reply, now: Timestamp) -> (state: DeleteState)
        ensures
            state@ == self@.after(reply@, now),
    {
        match (self, reply) {
            (DeleteState::DeletingRow(id), Reply::Done) => DeleteState::DeletingSecrets(id),
            (DeleteState::DeletingRow(_), Reply::Failed(error)) => DeleteState::Finished(
                Err(DbError { message: error }),
            ),
            (DeleteState::DeletingSecrets(_), Reply::Done) => DeleteState::Finished(Ok(None)),
            (DeleteState::DeletingSecrets(_), Reply::Failed(error)) => DeleteState::Finished(
                Ok(Some(error)),
            ),
            (state, _) => state,
        }
    }
}

/// How far the table and the store have come in a state of the operation.
spec fn delete_keeps(id: i32, before: World, state: DeleteView, world: World) -> bool {
    match state {
        DeleteView::DeletingRow(i) => i == id && world == before,
        DeleteView::DeletingSecrets(i) => i == id && world == (World {
            rows: before.rows.remove(id),
            ..before
        }),
        DeleteView::Finished(Ok(left)) => {
            &&& world.rows == before.rows.remove(id)
            &&& left is None ==> world.tokens == before.tokens.remove(id) && world.headers
                == before.headers.remove(id)
        },
        DeleteView::Finished(Err(_)) => world == before,
    }
}

/// A deletion that succeeds has taken the row out of the table, and no other,
/// whatever the secret store did; the store has forgotten both secrets unless
/// it said otherwise. One that fails has changed nothing.
pub proof fn deleted_connection_is_gone(
    id: i32,
    before: World,
    answers: Seq<Exchange>,
    outcome: Result<Option<Seq<char>>, Seq<char>>,
    after: World,
)
    requires
        runs(DeleteView::DeletingRow(id), before, answers, DeleteView::Finished(outcome), after),
    ensures
        outcome is Ok ==> after.rows == before.rows.remove(id),
        outcome == Ok::<Option<Seq<char>>, Seq<char>>(None) ==> after.tokens
            == before.tokens.remove(id) && after.headers == before.headers.remove(id),
        outcome is Err ==> after == before,
{
    let kept = |state: DeleteView, world: World| delete_keeps(id, before, state, world);
    run_keeps(
        kept,
        DeleteView::DeletingRow(id),
        before,
        answers,
        DeleteView::Finished(outcome),
        after,
    );
}

/// A database that fails is reported in its own words. Where nothing fails, the
/// deletion succeeds, and nothing is left. It makes two requests at the most, and
/// has one pending until it is finished.
pub proof fn delete_ends(
    id: i32,
    before: World,
    answers: Seq<Exchange>,
    state: DeleteView,
    after: World,
)
    requires
        runs(DeleteView::DeletingRow(id), before, answers, state, after),
    ensures
        answers.len() <= 2,
        state.pending() is None <==> state is Finished,
        state matches DeleteView::Finished(Err(text)) ==> answers.len() == 1 && answers[0].reply
            == ReplyView::Failed(text),
        state matches DeleteView::Finished(Ok(Some(text))) ==> answers.len() == 2
            && answers[1].reply == ReplyView::Failed(text),
        before.granting && state is Finished ==> state == DeleteView::Finished(Ok(None)),
{
    let start = DeleteView::DeletingRow(id);
    let rank = |state: DeleteView|
        match state {
            DeleteView::DeletingRow(_) => 2nat,
            DeleteView::DeletingSecrets(_) => 1nat,
            DeleteView::Finished(_) => 0nat,
        };
    run_ends(rank, start, before, answers, state, after);
    if answers.len() > 0 {
        let first = answers.first();
        let next = start.after(first.reply, first.now);
        let rest = answers.drop_first();
        assert(runs(next, first.world, rest, state, after));
        if rest.len() > 0 {
            assert(rest.first() == answers[1]);
            assert(runs(
                next.after(rest.first().reply, rest.first().now),
                rest.first().world,
                rest.drop_first(),
                state,
                after,
            ));
        }
    }
}

} // verus!
