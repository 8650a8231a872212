//! What the operations work on, as a model: a database table, a secret store,
//! and a reader of `headers` columns, with the answers they may give. The
//! database orders names by the code points of their characters. Laws of the
//! operations are stated over runs in such a world.

use vstd::prelude::*;

use crate::connection::{headers_of, record_of, token_of, RecordView, RowView, Timestamp};
use crate::header::HeaderView;
use crate::protocol::{Protocol, ReplyView, RequestView};
use crate::text::{at_most, lemma_at_most_antisymmetric};

verus! {

/// The table, the store, and what the texts of `headers` columns read as.
#[verifier::ext_equal]
pub struct World {
    /// The rows, by id.
    pub rows: Map<i32, RowView>,
    /// The rows as they were when the open transaction began.
    pub before: Option<Map<i32, RowView>>,
    /// The tokens in the secret store, by connection.
    pub tokens: Map<i32, Seq<char>>,
    /// The headers in the secret store, by connection.
    pub headers: Map<i32, Seq<HeaderView>>,
    /// The texts that can be read as headers, with what they read as.
    pub readings: Map<Seq<char>, Seq<HeaderView>>,
    /// Whether the secret store keeps whatever it acknowledges.
    pub faithful: bool,
    /// Whether no request fails.
    pub granting: bool,
}

/// What stands under a key.
pub open spec fn found<K, V>(map: Map<K, V>, key: K) -> Option<V> {
    if map.dom().contains(key) {
        Some(map[key])
    } else {
        None
    }
}

/// `list` holds each row of the table once.
pub open spec fn lists(rows: Map<i32, RowView>, list: Seq<RowView>) -> bool {
    &&& forall|i: int|
        0 <= i < list.len() ==> found(rows, (#[trigger] list[i]).id) == Some(list[i])
    &&& forall|i: int, j: int|
        0 <= i < j < list.len() ==> (#[trigger] list[i]).id != (#[trigger] list[j]).id
    &&& forall|id: i32|
        rows.dom().contains(id) ==> exists|i: int|
            0 <= i < list.len() && (#[trigger] list[i]).id == id
}

/// A row does not come behind another in a listing: the lower sort order comes
/// first, and for the same sort order the lower name.
pub open spec fn in_order(a: RowView, b: RowView) -> bool {
    a.sort_order < b.sort_order || (a.sort_order == b.sort_order && at_most(a.name, b.name))
}

/// `list` goes up by sort order, and then by name.
pub open spec fn ascends(list: Seq<RowView>) -> bool {
    forall|i: int, j: int|
        0 <= i < j < list.len() ==> in_order(#[trigger] list[i], #[trigger] list[j])
}

/// No row of the table has a higher sort order than `row`, which is one of them.
pub open spec fn is_top(rows: Map<i32, RowView>, row: RowView) -> bool {
    &&& found(rows, row.id) == Some(row)
    &&& forall|id: i32| #[trigger]
        rows.dom().contains(id) ==> rows[id].sort_order <= row.sort_order
}

impl World {
    /// Every row stands under its own id.
    pub open spec fn keyed(self) -> bool {
        forall|id: i32| #[trigger] self.rows.dom().contains(id) ==> self.rows[id].id == id
    }

    /// The world once an open transaction is given up.
    pub open spec fn abandoned(self) -> World {
        match self.before {
            Some(rows) => World { rows, before: None, ..self },
            None => self,
        }
    }

    /// The record of a row: the secrets are those in the store, and where it has
    /// none, those in the columns of the row.
    pub open spec fn record(self, row: RowView) -> RecordView {
        record_of(
            row,
            token_of(row, found(self.tokens, row.id)),
            headers_of(found(self.headers, row.id), found(self.readings, row.headers)),
        )
    }

    /// The request may be answered with `reply`, and the world is `next` then. A
    /// database that fails has changed nothing. A secret store may have kept what
    /// it failed to acknowledge, and one that is not faithful may fail to keep
    /// what it acknowledged.
    pub open spec fn serves(self, request: RequestView, reply: ReplyView, next: World) -> bool {
        &&& self.granting ==> !(reply is Failed)
        &&& self.may_answer(request, reply, next)
    }

    /// As [`World::serves`], with failures.
    pub open spec fn may_answer(
        self,
        request: RequestView,
        reply: ReplyView,
        next: World,
    ) -> bool {
        match request {
            RequestView::FindAll => next == self && (reply is Failed || (reply matches
                ReplyView::Rows(list) && lists(self.rows, list))),
            RequestView::FindOrdered => next == self && (reply is Failed || (reply matches
                ReplyView::Rows(list) && lists(self.rows, list) && ascends(list))),
            RequestView::FindTop => next == self && (reply is Failed || (reply matches
                ReplyView::Row(top) && match top {
                Some(row) => is_top(self.rows, row),
                None => self.rows.dom() == Set::<i32>::empty(),
            })),
            RequestView::FindById(id) => next == self && (reply is Failed || reply
                == ReplyView::Row(found(self.rows, id))),
            RequestView::Insert(new) => match reply {
                ReplyView::Saved(row) => !self.rows.dom().contains(row.id) && row == new.with_id(
                    row.id,
                ) && next == (World { rows: self.rows.insert(row.id, row), ..self }),
                ReplyView::Failed(_) => next == self,
                _ => false,
            },
            RequestView::Update(patch) => match reply {
                ReplyView::Saved(row) => self.rows.dom().contains(patch.id) && row
                    == patch.applied_to(self.rows[patch.id]) && next == (World {
                    rows: self.rows.insert(patch.id, row),
                    ..self
                }),
                ReplyView::Failed(_) => next == self,
                _ => false,
            },
            RequestView::Delete(id) => match reply {
                ReplyView::Done => next == (World { rows: self.rows.remove(id), ..self }),
                ReplyView::Failed(_) => next == self,
                _ => false,
            },
            RequestView::Begin => match reply {
                ReplyView::Done => next == (World { before: Some(self.rows), ..self }),
                ReplyView::Failed(_) => next == self,
                _ => false,
            },
            RequestView::Commit => match reply {
                ReplyView::Done => next == (World { before: None, ..self }),
                ReplyView::Failed(_) => next == self,
                _ => false,
            },
            RequestView::ReadToken(id) => next == self && reply == ReplyView::Token(
                found(self.tokens, id),
            ),
            RequestView::ReadHeaders(id) => next == self && reply == ReplyView::Headers(
                found(self.headers, id),
            ),
            RequestView::ParseHeaders(text) => next == self && reply == ReplyView::Headers(
                found(self.readings, text),
            ),
            RequestView::StoreToken(id, token) => {
                &&& reply is Done || reply is Failed
                &&& next == (World { tokens: self.tokens.insert(id, token), ..self }) || (next
                    == self && !(self.faithful && reply is Done))
            },
            RequestView::StoreHeaders(id, headers) => {
                &&& reply is Done || reply is Failed
                &&& next == (World { headers: self.headers.insert(id, headers), ..self }) || (next
                    == self && !(self.faithful && reply is Done))
            },
            RequestView::DeleteSecrets(id) => {
                &&& next == (World { tokens: next.tokens, headers: next.headers, ..self })
                &&& next.tokens == self.tokens.remove(id) || (next.tokens == self.tokens
                    && reply is Failed)
                &&& next.headers == self.headers.remove(id) || (next.headers == self.headers
                    && reply is Failed)
                &&& reply is Done || reply is Failed
            },
        }
    }
}

/// No two rows have the same sort order and the same name.
pub open spec fn tells_apart(rows: Map<i32, RowView>) -> bool {
    forall|a: i32, b: i32|
        #![trigger rows.dom().contains(a), rows.dom().contains(b)]
        rows.dom().contains(a) && rows.dom().contains(b) && rows[a].sort_order
            == rows[b].sort_order && rows[a].name == rows[b].name ==> a == b
}

/// A listing without its first row is a listing of the table without it.
proof fn lemma_lists_rest(rows: Map<i32, RowView>, list: Seq<RowView>)
    requires
        list.len() > 0,
        lists(rows, list),
        ascends(list),
    ensures
        lists(rows.remove(list[0].id), list.drop_first()),
        ascends(list.drop_first()),
{
    let rest = list.drop_first();
    let left = rows.remove(list[0].id);
    assert forall|i: int| 0 <= i < rest.len() implies found(left, (#[trigger] rest[i]).id) == Some(
        rest[i],
    ) by {
        assert(rest[i] == list[i + 1]);
        assert(list[0].id != list[i + 1].id);
    }
    assert forall|i: int, j: int| 0 <= i < j < rest.len() implies (#[trigger] rest[i]).id != (
    #[trigger] rest[j]).id && in_order(rest[i], rest[j]) by {
        assert(list[i + 1].id != list[j + 1].id);
    }
    assert forall|id: i32| left.dom().contains(id) implies exists|i: int|
        0 <= i < rest.len() && (#[trigger] rest[i]).id == id by {
        let i = choose|i: int| 0 <= i < list.len() && (#[trigger] list[i]).id == id;
        assert(rest[i - 1].id == id);
    }
}

/// Where no two rows have the same sort order and the same name, the table can
/// be listed in one order only.
pub proof fn listing_is_unique(rows: Map<i32, RowView>, a: Seq<RowView>, b: Seq<RowView>)
    requires
        tells_apart(rows),
        lists(rows, a),
        ascends(a),
        lists(rows, b),
        ascends(b),
    ensures
        a == b,
    decreases a.len(),
{
    if a.len() == 0 {
        if b.len() > 0 {
            assert(found(rows, b[0].id) == Some(b[0]));
        }
        assert(a =~= b);
    } else {
        assert(found(rows, a[0].id) == Some(a[0]));
        let k = choose|k: int| 0 <= k < b.len() && (#[trigger] b[k]).id == a[0].id;
        assert(found(rows, b[k].id) == Some(b[k]));
        assert(found(rows, b[0].id) == Some(b[0]));
        let m = choose|m: int| 0 <= m < a.len() && (#[trigger] a[m]).id == b[0].id;
        assert(found(rows, a[m].id) == Some(a[m]));
        if k > 0 && m > 0 {
            assert(in_order(b[0], b[k]) && in_order(a[0], a[m]));
            lemma_at_most_antisymmetric(a[0].name, b[0].name);
        }
        assert(a[0] == b[0]);
        lemma_lists_rest(rows, a);
        lemma_lists_rest(rows, b);
        listing_is_unique(rows.remove(a[0].id), a.drop_first(), b.drop_first());
        assert(a =~= seq![a[0]] + a.drop_first());
        assert(b =~= seq![b[0]] + b.drop_first());
    }
}

/// One answer: what it says, when it comes, and the world then.
pub struct Exchange {
    pub reply: ReplyView,
    pub now: Timestamp,
    pub world: World,
}

/// The operation in state `from` in the world `before` gets these answers, and
/// is in state `to` in the world `after` then.
pub open spec fn runs<P: Protocol>(
    from: P,
    before: World,
    answers: Seq<Exchange>,
    to: P,
    after: World,
) -> bool
    decreases answers.len(),
{
    if answers.len() == 0 {
        to == from && after == before
    } else {
        let first = answers.first();
        &&& from.pending() matches Some(request) && before.serves(
            request,
            first.reply,
            first.world,
        )
        &&& runs(
            from.after(first.reply, first.now),
            first.world,
            answers.drop_first(),
            to,
            after,
        )
    }
}

/// `kept` stays true over one answer.
pub open spec fn step_keeps<P: Protocol>(kept: spec_fn(P, World) -> bool) -> bool {
    forall|state: P, world: World, request: RequestView, answer: Exchange|
        #![trigger world.serves(request, answer.reply, answer.world), kept(state, world)]
        kept(state, world) && state.pending() == Some(request) && world.serves(
            request,
            answer.reply,
            answer.world,
        ) ==> kept(state.after(answer.reply, answer.now), answer.world)
}

/// What every answer leaves true is true after every run.
pub proof fn run_keeps<P: Protocol>(
    kept: spec_fn(P, World) -> bool,
    from: P,
    before: World,
    answers: Seq<Exchange>,
    to: P,
    after: World,
)
    requires
        runs(from, before, answers, to, after),
        kept(from, before),
        step_keeps(kept),
    ensures
        kept(to, after),
    decreases answers.len(),
{
    if answers.len() > 0 {
        let first = answers.first();
        let request = from.pending()->0;
        assert(before.serves(request, first.reply, first.world));
        run_keeps(
            kept,
            from.after(first.reply, first.now),
            first.world,
            answers.drop_first(),
            to,
            after,
        );
    }
}

/// `rank` goes down with every answer.
pub open spec fn step_lowers<P: Protocol>(rank: spec_fn(P) -> nat) -> bool {
    forall|state: P, world: World, request: RequestView, answer: Exchange|
        #![trigger world.serves(request, answer.reply, answer.world), rank(state)]
        state.pending() == Some(request) && world.serves(request, answer.reply, answer.world)
            ==> rank(state.after(answer.reply, answer.now)) < rank(state)
}

/// What goes down with every answer bounds the number of answers.
pub proof fn run_ends<P: Protocol>(
    rank: spec_fn(P) -> nat,
    from: P,
    before: World,
    answers: Seq<Exchange>,
    to: P,
    after: World,
)
    requires
        runs(from, before, answers, to, after),
        step_lowers(rank),
    ensures
        answers.len() + rank(to) <= rank(from),
    decreases answers.len(),
{
    if answers.len() > 0 {
        let first = answers.first();
        let request = from.pending()->0;
        assert(before.serves(request, first.reply, first.world));
        assert(rank(from.after(first.reply, first.now)) < rank(from));
        run_ends(
            rank,
            from.after(first.reply, first.now),
            first.world,
            answers.drop_first(),
            to,
            after,
        );
    }
}

/// The operation made this request on its way through these answers.
pub open spec fn asks<P: Protocol>(from: P, answers: Seq<Exchange>, request: RequestView) -> bool
    decreases answers.len(),
{
    answers.len() > 0 && (from.pending() == Some(request) || asks(
        from.after(answers.first().reply, answers.first().now),
        answers.drop_first(),
        request,
    ))
}

} // verus!
