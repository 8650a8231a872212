//! Putting the saved connections in an order.

use std::collections::HashSet;

use vstd::prelude::*;

use crate::app_error::{db_error, AppCommandError, AppErrorCode, AppErrorView};
use crate::connection::{
    row_views, ConnectionPatch, ConnectionRow, PatchView, RowView, Timestamp,
};
use crate::create::db_failure;
use crate::protocol::{request_view, Protocol, Reply, ReplyView, Request, RequestView};
use crate::validate::refused;
use crate::world::{found, lists, run_keeps, runs, Exchange, World};

verus! {

/// An order of connections: their ids, at least one and none twice.
#[derive(Debug, PartialEq, Eq)]
pub struct Order {
    ids: Vec<i32>,
}

impl View for Order {
    type V = Seq<i32>;

    closed spec fn view(&self) -> Seq<i32> {
        self.ids@
    }
}

impl Order {
    #[verifier::type_invariant]
    spec fn is_order(self) -> bool {
        self.ids@.len() > 0 && self.ids@.no_duplicates()
    }
}

/// An order that is being written: the row at this place comes next.
#[derive(Debug, PartialEq, Eq)]
pub struct Placing {
    order: Order,
    place: usize,
    now: Timestamp,
}

/// What a [`Placing`] holds.
pub struct PlacingView {
    pub ids: Seq<i32>,
    pub place: int,
    pub now: Timestamp,
}

impl View for Placing {
    type V = PlacingView;

    closed spec fn view(&self) -> PlacingView {
        PlacingView { ids: self.order@, place: self.place as int, now: self.now }
    }
}

impl Placing {
    #[verifier::type_invariant]
    spec fn is_in_order(self) -> bool {
        self.place < self.order@.len()
    }

    fn first(order: Order, now: Timestamp) -> (r: Self)
        ensures
            r@ == (PlacingView { ids: order@, place: 0, now }),
    {
        proof {
            use_type_invariant(&order);
        }
        Placing { order, place: 0, now }
    }

    fn patch(&self) -> (r: ConnectionPatch)
        ensures
            r@ == placing_patch(self@),
    {
        proof {
            use_type_invariant(&*self);
        }
        ConnectionPatch {
            id: self.order.ids[self.place],
            name: None,
            base_url: None,
            token: None,
            headers: None,
            sort_order: Some(self.place as i32),
            updated_at: Some(self.now),
        }
    }
}

/// Putting connections in an order, as far as it has come.
#[derive(Debug, PartialEq, Eq)]
pub enum ReorderState {
    /// All rows are being looked up.
    FindingRows(Order),
    /// A transaction begins.
    Beginning(Placing),
    /// A row gets its place.
    Writing(Placing),
    /// Every row has its place, and the transaction ends.
    Committing,
    /// Nothing more is to be done. After a failure the transaction is given up.
    Finished(Result<(), AppCommandError>),
}

/// What a [`ReorderState`] holds.
pub enum ReorderView {
    FindingRows(Seq<i32>),
    Beginning(PlacingView),
    Writing(PlacingView),
    Committing,
    Finished(Result<(), AppErrorView>),
}

impl View for ReorderState {
    type V = ReorderView;

    open spec fn view(&self) -> ReorderView {
        match *self {
            ReorderState::FindingRows(order) => ReorderView::FindingRows(order@),
            ReorderState::Beginning(placing) => ReorderView::Beginning(placing@),
            ReorderState::Writing(placing) => ReorderView::Writing(placing@),
            ReorderState::Committing => ReorderView::Committing,
            ReorderState::Finished(Ok(_)) => ReorderView::Finished(Ok(())),
            ReorderState::Finished(Err(error)) => ReorderView::Finished(Err(error@)),
        }
    }
}

/// The change that gives a row its place.
pub open spec fn placing_patch(placing: PlacingView) -> PatchView {
    PatchView {
        id: placing.ids[placing.place],
        name: None,
        base_url: None,
        token: None,
        headers: None,
        sort_order: Some(placing.place as i32),
        updated_at: Some(placing.now),
    }
}

/// A row with this id is one of these.
pub open spec fn has_row(rows: Seq<RowView>, id: i32) -> bool {
    exists|j: int| 0 <= j < rows.len() && (#[trigger] rows[j]).id == id
}

/// The order names the rows there are, and no others.
pub open spec fn covers(ids: Seq<i32>, rows: Seq<RowView>) -> bool {
    forall|id: i32| #[trigger] ids.contains(id) <==> has_row(rows, id)
}

impl Protocol for ReorderView {
    open spec fn pending(self) -> Option<RequestView> {
        match self {
            ReorderView::FindingRows(_) => Some(RequestView::FindAll),
            ReorderView::Beginning(_) => Some(RequestView::Begin),
            ReorderView::Writing(placing) => Some(RequestView::Update(placing_patch(placing))),
            ReorderView::Committing => Some(RequestView::Commit),
            ReorderView::Finished(_) => None,
        }
    }

    open spec fn after(self, reply: ReplyView, now: Timestamp) -> Self {
        match (self, reply) {
            (ReorderView::FindingRows(ids), ReplyView::Rows(rows)) => if covers(ids, rows) {
                ReorderView::Beginning(PlacingView { ids, place: 0, now })
            } else {
                ReorderView::Finished(
                    Err(
                        refused(
                            "Remote workspace order must include every connection exactly once"@,
                        ),
                    ),
                )
            },
            (ReorderView::Beginning(placing), ReplyView::Done) => ReorderView::Writing(placing),
            (ReorderView::Writing(placing), ReplyView::Saved(_)) => if placing.place + 1
                < placing.ids.len() {
                ReorderView::Writing(PlacingView { place: placing.place + 1, ..placing })
            } else {
                ReorderView::Committing
            },
            (ReorderView::Committing, ReplyView::Done) => ReorderView::Finished(Ok(())),
            (ReorderView::Finished(_), _) => self,
            (_, ReplyView::Failed(error)) => ReorderView::Finished(Err(db_error(error))),
            _ => self,
        }
    }
}

/// Where putting connections in an order starts: nothing is to be done for an
/// empty order, and one that names a connection twice is refused.
pub open spec fn reorder_start(ids: Seq<i32>) -> ReorderView {
    if ids.len() == 0 {
        ReorderView::Finished(Ok(()))
    } else if !ids.no_duplicates() {
        ReorderView::Finished(
            Err(refused("Remote workspace order contains duplicate connections"@)),
        )
    } else {
        ReorderView::FindingRows(ids)
    }
}

/// Starts to put the connections in the order of these ids.
pub fn reorder(ids: Vec<i32>) -> (state: ReorderState)
    ensures
        state@ == reorder_start(ids@),
{
    if ids.is_empty() {
        return ReorderState::Finished(Ok(()));
    }
    if has_duplicates(&ids) {
        return ReorderState::Finished(
            Err(
                AppCommandError::invalid_input(
                    "Remote workspace order contains duplicate connections",
                ),
            ),
        );
    }
    ReorderState::FindingRows(Order { ids })
}

/// The ids of a list, as a set.
fn id_set(ids: &Vec<i32>) -> (r: HashSet<i32>)
    ensures
        forall|id: i32| r@.contains(id) <==> ids@.contains(id),
{
    broadcast use vstd::std_specs::hash::group_hash_axioms;

    let mut set: HashSet<i32> = HashSet::new();
    for i in 0..ids.len()
        invariant
            forall|id: i32| set@.contains(id) <==> ids@.take(i as int).contains(id),
    {
        set.insert(ids[i]);
        proof {
            lemma_take_contains(ids@, i as int);
        }
    }
    assert(ids@.take(ids@.len() as int) =~= ids@);
    set
}

/// One more of the first elements is one more element.
proof fn lemma_take_contains(ids: Seq<i32>, n: int)
    requires
        0 <= n < ids.len(),
    ensures
        forall|id: i32|
            ids.take(n + 1).contains(id) <==> ids.take(n).contains(id) || id == ids[n],
{
    assert forall|id: i32|
        ids.take(n + 1).contains(id) <==> ids.take(n).contains(id) || id == ids[n] by {
        if ids.take(n).contains(id) {
            let j = choose|j: int| 0 <= j < n && ids.take(n)[j] == id;
            assert(ids.take(n + 1)[j] == id);
        }
        if id == ids[n] {
            assert(ids.take(n + 1)[n] == id);
        }
        if ids.take(n + 1).contains(id) && id != ids[n] {
            let j = choose|j: int| 0 <= j < n + 1 && #[trigger] ids.take(n + 1)[j] == id;
            assert(ids.take(n)[j] == id);
        }
    }
}

fn has_duplicates(ids: &Vec<i32>) -> (r: bool)
    ensures
        r == !ids@.no_duplicates(),
{
    broadcast use vstd::std_specs::hash::group_hash_axioms;

    let mut seen: HashSet<i32> = HashSet::new();
    for i in 0..ids.len()
        invariant
            forall|id: i32| seen@.contains(id) <==> ids@.take(i as int).contains(id),
            ids@.take(i as int).no_duplicates(),
    {
        let fresh = seen.insert(ids[i]);
        proof {
            lemma_take_contains(ids@, i as int);
        }
        if !fresh {
            proof {
                let j = choose|j: int| 0 <= j < i && ids@.take(i as int)[j] == ids@[i as int];
                assert(ids@[j] == ids@[i as int]);
            }
            return true;
        }
        proof {
            assert forall|a: int, b: int| 0 <= a < b < i + 1 implies #[trigger] ids@.take(
                i + 1,
            )[a] != #[trigger] ids@.take(i + 1)[b] by {
                if b == i {
                    assert(ids@.take(i as int)[a] == ids@[a]);
                    assert(!ids@.take(i as int).contains(ids@[i as int]));
                } else {
                    assert(ids@.take(i as int)[a] != ids@.take(i as int)[b]);
                }
            }
        }
    }
    assert(ids@.take(ids@.len() as int) =~= ids@);
    false
}

/// Whether every id of the one list is in the other.
fn includes(set: &Vec<i32>, ids: &Vec<i32>) -> (r: bool)
    ensures
        r == (forall|id: i32| #[trigger] ids@.contains(id) ==> set@.contains(id)),
{
    broadcast use vstd::std_specs::hash::group_hash_axioms;

    let members = id_set(set);
    for i in 0..ids.len()
        invariant
            forall|id: i32| members@.contains(id) <==> set@.contains(id),
            forall|k: int| 0 <= k < i ==> set@.contains(#[trigger] ids@[k]),
    {
        if !members.contains(&ids[i]) {
            assert(ids@.contains(ids@[i as int]));
            return false;
        }
    }
    true
}

/// Whether an order names the rows there are, and no others.
fn order_covers(ids: &Vec<i32>, rows: &Vec<ConnectionRow>) -> (r: bool)
    ensures
        r == covers(ids@, row_views(rows@)),
{
    let ghost views = row_views(rows@);
    let mut existing: Vec<i32> = Vec::new();
    for j in 0..rows.len()
        invariant
            views == row_views(rows@),
            existing@.len() == j,
            forall|k: int| 0 <= k < j ==> existing@[k] == (#[trigger] views[k]).id,
    {
        existing.push(rows[j].id);
    }
    proof {
        assert forall|id: i32| #[trigger] existing@.contains(id) <==> has_row(views, id) by {
            if existing@.contains(id) {
                let k = choose|k: int| 0 <= k < existing@.len() && existing@[k] == id;
                assert(views[k].id == id);
            }
            if has_row(views, id) {
                let k = choose|k: int| 0 <= k < views.len() && (#[trigger] views[k]).id == id;
                assert(existing@[k] == id);
            }
        }
    }
    let all_known = includes(&existing, ids);
    let all_named = includes(ids, &existing);
    proof {
        if covers(ids@, views) {
            assert(forall|id: i32| #[trigger] ids@.contains(id) ==> existing@.contains(id));
            assert(forall|id: i32| #[trigger] existing@.contains(id) ==> ids@.contains(id));
        }
        if all_known && all_named {
            assert forall|id: i32| #[trigger] ids@.contains(id) <==> has_row(views, id) by {
                assert(existing@.contains(id) <==> has_row(views, id));
            }
        }
    }
    all_known && all_named
}

impl ReorderState {
    /// The request that is pending; `None` when the operation is finished.
    pub fn request(&self) -> (r: Option<Request>)
        ensures
            request_view(r) == self@.pending(),
    {
        match self {
            ReorderState::FindingRows(_) => Some(Request::FindAll),
            ReorderState::Beginning(_) => Some(Request::Begin),
            ReorderState::Writing(placing) => Some(Request::Update(placing.patch())),
            ReorderState::Committing => Some(Request::Commit),
            ReorderState::Finished(_) => None,
        }
    }

    /// The state that an answer leads to; `now` is the time of the change.
    pub fn advance(self, reply: Reply, now: Timestamp) -> (state: ReorderState)
        ensures
            state@ == self@.after(reply@, now),
    {
        match (self, reply) {
            (ReorderState::FindingRows(order), Reply::Rows(rows)) => {
                if order_covers(&order.ids, &rows) {
                    ReorderState::Beginning(Placing::first(order, now))
                } else {
                    ReorderState::Finished(
                        Err(
                            AppCommandError::invalid_input(
                                "Remote workspace order must include every connection exactly once",
                            ),
                        ),
                    )
                }
            },
            (ReorderState::Beginning(placing), Reply::Done) => ReorderState::Writing(placing),
            (ReorderState::Writing(placing), Reply::Saved(_)) => Self::placed(placing),
            (ReorderState::Committing, Reply::Done) => ReorderState::Finished(Ok(())),
            (ReorderState::Finished(r), _) => ReorderState::Finished(r),
            (_, Reply::Failed(error)) => ReorderState::Finished(Err(db_failure(error))),
            (state, _) => state,
        }
    }

    fn placed(placing: Placing) -> (state: ReorderState)
        ensures
            state@ == if placing@.place + 1 < placing@.ids.len() {
                ReorderView::Writing(PlacingView { place: placing@.place + 1, ..placing@ })
            } else {
                ReorderView::Committing
            },
    {
        proof {
            use_type_invariant(&placing);
        }
        if placing.place < placing.order.ids.len() - 1 {
            ReorderState::Writing(
                Placing { order: placing.order, place: placing.place + 1, now: placing.now },
            )
        } else {
            ReorderState::Committing
        }
    }
}

/// A row that got a place at this time.
pub open spec fn placed_row(row: RowView, place: int, now: Timestamp) -> RowView {
    RowView { sort_order: place as i32, updated_at: now, ..row }
}

/// The rows, of which the first `count` of the order have got their places.
pub open spec fn places_given(
    before: Map<i32, RowView>,
    ids: Seq<i32>,
    count: int,
    now: Timestamp,
    after: Map<i32, RowView>,
) -> bool {
    &&& after.dom() == before.dom()
    &&& forall|i: int|
        0 <= i < ids.len() ==> after[#[trigger] ids[i]] == if i < count {
            placed_row(before[ids[i]], i, now)
        } else {
            before[ids[i]]
        }
}

/// The order names the rows of the table, and nothing else.
pub open spec fn names_all(ids: Seq<i32>, rows: Map<i32, RowView>) -> bool {
    forall|id: i32| #[trigger] ids.contains(id) <==> rows.dom().contains(id)
}

/// The order names each row of the table once, and nothing else.
pub open spec fn orders_all(ids: Seq<i32>, rows: Map<i32, RowView>) -> bool {
    ids.no_duplicates() && names_all(ids, rows)
}

/// The rows stand in this order, by one change at one time.
pub open spec fn is_reordered(before: World, ids: Seq<i32>, after: World) -> bool {
    exists|now: Timestamp| #[trigger]
        places_given(before.rows, ids, ids.len() as int, now, after.rows)
}

/// How far the order is written.
spec fn reorder_keeps(before: World, ids: Seq<i32>, state: ReorderView, world: World) -> bool {
    match state {
        ReorderView::FindingRows(order) => order == ids && ids.len() > 0 && ids.no_duplicates()
            && world == before,
        ReorderView::Beginning(placing) => placing.ids == ids && placing.place == 0 && ids.len() > 0
            && world == before && orders_all(ids, before.rows),
        ReorderView::Writing(placing) => placing.ids == ids && 0 <= placing.place < ids.len()
            && world == (World { rows: world.rows, before: Some(before.rows), ..before })
            && orders_all(ids, before.rows) && places_given(
            before.rows,
            ids,
            placing.place,
            placing.now,
            world.rows,
        ),
        ReorderView::Committing => ids.len() > 0 && world == (World {
            rows: world.rows,
            before: Some(before.rows),
            ..before
        }) && orders_all(ids, before.rows) && is_reordered(before, ids, world),
        ReorderView::Finished(Ok(_)) => if ids.len() == 0 {
            world == before
        } else {
            world == (World { rows: world.rows, ..before }) && orders_all(ids, before.rows)
                && is_reordered(before, ids, world)
        },
        ReorderView::Finished(Err(_)) => world.abandoned() == before,
    }
}

/// A list of a table has a row for each id of the table.
proof fn lemma_covers_table(ids: Seq<i32>, rows: Map<i32, RowView>, list: Seq<RowView>)
    requires
        lists(rows, list),
    ensures
        covers(ids, list) == names_all(ids, rows),
{
    assert forall|id: i32| has_row(list, id) == #[trigger] rows.dom().contains(id) by {
        if has_row(list, id) {
            let j = choose|j: int| 0 <= j < list.len() && (#[trigger] list[j]).id == id;
            assert(found(rows, list[j].id) == Some(list[j]));
        }
    }
    if covers(ids, list) {
        assert forall|id: i32| #[trigger] ids.contains(id) <==> rows.dom().contains(id) by {
            assert(has_row(list, id) == rows.dom().contains(id));
        }
    } else {
        let id = choose|id: i32| !(#[trigger] ids.contains(id) <==> has_row(list, id));
        assert(has_row(list, id) == rows.dom().contains(id));
    }
}

proof fn lemma_reorder_step(
    before: World,
    ids: Seq<i32>,
    state: ReorderView,
    world: World,
    answer: Exchange,
)
    requires
        before.before is None,
        reorder_keeps(before, ids, state, world),
        state.pending() is Some,
        world.serves(state.pending()->0, answer.reply, answer.world),
    ensures
        reorder_keeps(before, ids, state.after(answer.reply, answer.now), answer.world),
{
    let next = answer.world;
    match state {
        ReorderView::FindingRows(_) => {
            if let ReplyView::Rows(list) = answer.reply {
                lemma_covers_table(ids, before.rows, list);
            }
        },
        ReorderView::Beginning(placing) => {
            if answer.reply is Done {
                assert(places_given(before.rows, ids, 0, placing.now, next.rows));
            }
        },
        ReorderView::Writing(placing) => {
            if answer.reply is Saved {
                let place = placing.place;
                assert(ids.contains(ids[place]));
                assert(next.rows.dom() =~= before.rows.dom());
                assert forall|i: int| 0 <= i < ids.len() implies next.rows[#[trigger] ids[i]]
                    == if i < place + 1 {
                    placed_row(before.rows[ids[i]], i, placing.now)
                } else {
                    before.rows[ids[i]]
                } by {
                    assert(i != place ==> ids[i] != ids[place]);
                    assert(ids.contains(ids[i]));
                }
                assert(places_given(before.rows, ids, place + 1, placing.now, next.rows));
            }
        },
        _ => {},
    }
}

proof fn lemma_reorder_run(
    before: World,
    ids: Seq<i32>,
    answers: Seq<Exchange>,
    state: ReorderView,
    after: World,
)
    requires
        before.before is None,
        runs(reorder_start(ids), before, answers, state, after),
    ensures
        reorder_keeps(before, ids, state, after),
{
    let kept = |state: ReorderView, world: World| reorder_keeps(before, ids, state, world);
    assert forall|state: ReorderView, world: World, request: RequestView, answer: Exchange|
        #![trigger world.serves(request, answer.reply, answer.world), kept(state, world)]
        kept(state, world) && state.pending() == Some(request) && world.serves(
            request,
            answer.reply,
            answer.world,
        ) implies kept(state.after(answer.reply, answer.now), answer.world) by {
        lemma_reorder_step(before, ids, state, world, answer);
    }
    run_keeps(kept, reorder_start(ids), before, answers, state, after);
}

/// An order that went through names each row of the table once. Every row has
/// its place in the order as its sort order and the time of the change as the
/// time of its last change, and nothing else of the table or the store differs.
pub proof fn reordered_rows_have_their_places(
    before: World,
    ids: Seq<i32>,
    answers: Seq<Exchange>,
    after: World,
)
    requires
        ids.len() > 0,
        before.before is None,
        runs(reorder_start(ids), before, answers, ReorderView::Finished(Ok(())), after),
    ensures
        orders_all(ids, before.rows),
        is_reordered(before, ids, after),
        after == (World { rows: after.rows, ..before }),
{
    lemma_reorder_run(before, ids, answers, ReorderView::Finished(Ok(())), after);
}

/// Whatever goes wrong, in whichever row: once the transaction is given up,
/// nothing has changed.
pub proof fn failed_reorder_changes_nothing(
    before: World,
    ids: Seq<i32>,
    answers: Seq<Exchange>,
    error: AppErrorView,
    after: World,
)
    requires
        before.before is None,
        runs(reorder_start(ids), before, answers, ReorderView::Finished(Err(error)), after),
    ensures
        after.abandoned() == before,
{
    lemma_reorder_run(before, ids, answers, ReorderView::Finished(Err(error)), after);
}

/// An order that leaves a row out, names one that is not there or names one
/// twice does not go through, and nothing has been written.
pub proof fn partial_order_is_refused(
    before: World,
    ids: Seq<i32>,
    answers: Seq<Exchange>,
    result: Result<(), AppErrorView>,
    after: World,
)
    requires
        ids.len() > 0,
        !orders_all(ids, before.rows),
        runs(reorder_start(ids), before, answers, ReorderView::Finished(result), after),
    ensures
        result is Err,
        after == before,
{
    let kept = |state: ReorderView, world: World|
        world == before && (state == ReorderView::FindingRows(ids) && ids.no_duplicates() || state
            matches ReorderView::Finished(Err(_)));
    assert forall|state: ReorderView, world: World, request: RequestView, answer: Exchange|
        #![trigger world.serves(request, answer.reply, answer.world), kept(state, world)]
        kept(state, world) && state.pending() == Some(request) && world.serves(
            request,
            answer.reply,
            answer.world,
        ) implies kept(state.after(answer.reply, answer.now), answer.world) by {
        if let ReplyView::Rows(list) = answer.reply {
            lemma_covers_table(ids, before.rows, list);
        }
    }
    run_keeps(kept, reorder_start(ids), before, answers, ReorderView::Finished(result), after);
}

/// Where no request fails, an order that names each row once goes through.
pub proof fn full_order_goes_through(
    before: World,
    ids: Seq<i32>,
    answers: Seq<Exchange>,
    result: Result<(), AppErrorView>,
    after: World,
)
    requires
        before.granting,
        before.before is None,
        orders_all(ids, before.rows),
        runs(reorder_start(ids), before, answers, ReorderView::Finished(result), after),
    ensures
        result is Ok,
{
    let kept = |state: ReorderView, world: World|
        reorder_keeps(before, ids, state, world) && world.granting && !(state matches
            ReorderView::Finished(Err(_)));
    assert forall|state: ReorderView, world: World, request: RequestView, answer: Exchange|
        #![trigger world.serves(request, answer.reply, answer.world), kept(state, world)]
        kept(state, world) && state.pending() == Some(request) && world.serves(
            request,
            answer.reply,
            answer.world,
        ) implies kept(state.after(answer.reply, answer.now), answer.world) by {
        lemma_reorder_step(before, ids, state, world, answer);
        if let ReplyView::Rows(list) = answer.reply {
            lemma_covers_table(ids, before.rows, list);
        }
    }
    run_keeps(kept, reorder_start(ids), before, answers, ReorderView::Finished(result), after);
}

/// Numbers that go up one by one at least, from 0 on, stay below nothing but
/// their own positions.
proof fn lemma_rising(numbers: Seq<int>, limit: int)
    requires
        numbers.len() == limit,
        forall|i: int| 0 <= i < numbers.len() ==> 0 <= #[trigger] numbers[i] < limit,
        forall|i: int, j: int|
            0 <= i < j < numbers.len() ==> #[trigger] numbers[i] < #[trigger] numbers[j],
    ensures
        forall|i: int| 0 <= i < numbers.len() ==> #[trigger] numbers[i] == i,
{
    assert forall|i: int| 0 <= i < numbers.len() implies #[trigger] numbers[i] == i by {
        lemma_rising_from_below(numbers, i);
        lemma_rising_to_above(numbers, limit, i);
    }
}

proof fn lemma_rising_from_below(numbers: Seq<int>, i: int)
    requires
        0 <= i < numbers.len(),
        forall|k: int| 0 <= k < numbers.len() ==> 0 <= #[trigger] numbers[k],
        forall|k: int, j: int|
            0 <= k < j < numbers.len() ==> #[trigger] numbers[k] < #[trigger] numbers[j],
    ensures
        numbers[i] >= i,
    decreases i,
{
    if i > 0 {
        lemma_rising_from_below(numbers, i - 1);
        assert(numbers[i - 1] < numbers[i]);
    }
}

proof fn lemma_rising_to_above(numbers: Seq<int>, limit: int, i: int)
    requires
        0 <= i < numbers.len(),
        numbers.len() == limit,
        forall|k: int| 0 <= k < numbers.len() ==> #[trigger] numbers[k] < limit,
        forall|k: int, j: int|
            0 <= k < j < numbers.len() ==> #[trigger] numbers[k] < #[trigger] numbers[j],
    ensures
        numbers[i] <= i,
    decreases numbers.len() - i,
{
    if i < numbers.len() - 1 {
        lemma_rising_to_above(numbers, limit, i + 1);
        assert(numbers[i] < numbers[i + 1]);
    }
}

/// The connections are listed in the order that went through. An order of more
/// connections than there are sort orders is left out.
pub proof fn reordered_rows_are_listed_in_order(
    before: World,
    ids: Seq<i32>,
    answers: Seq<Exchange>,
    after: World,
    list: Seq<RowView>,
)
    requires
        0 < ids.len() <= i32::MAX + 1,
        before.keyed(),
        before.before is None,
        runs(reorder_start(ids), before, answers, ReorderView::Finished(Ok(())), after),
        after.serves(RequestView::FindOrdered, ReplyView::Rows(list), after),
    ensures
        list.map_values(|row: RowView| row.id) == ids,
{
    reordered_rows_have_their_places(before, ids, answers, after);
    let now = choose|now: Timestamp| #[trigger]
        places_given(before.rows, ids, ids.len() as int, now, after.rows);
    let places = list.map_values(|row: RowView| row.sort_order as int);
    assert forall|i: int| 0 <= i < list.len() implies 0 <= #[trigger] places[i] < ids.len()
        && list[i].id == ids[places[i]] by {
        assert(found(after.rows, list[i].id) == Some(list[i]));
        assert(ids.contains(list[i].id));
        let k = choose|k: int| 0 <= k < ids.len() && ids[k] == list[i].id;
        assert(after.rows[ids[k]] == placed_row(before.rows[ids[k]], k, now));
    }
    assert forall|i: int, j: int| 0 <= i < j < places.len() implies #[trigger] places[i]
        < #[trigger] places[j] by {
        assert(list[i].sort_order <= list[j].sort_order);
        assert(list[i].id != list[j].id);
    }
    lemma_one_each(ids, list, after.rows);
    lemma_rising(places, ids.len() as int);
    assert(list.map_values(|row: RowView| row.id) =~= ids) by {
        assert forall|i: int| 0 <= i < list.len() implies list[i].id == #[trigger] ids[i] by {
            assert(places[i] == i);
        }
    }
}

/// A list of a table is as long as an order of its rows.
proof fn lemma_one_each(ids: Seq<i32>, list: Seq<RowView>, rows: Map<i32, RowView>)
    requires
        orders_all(ids, rows),
        lists(rows, list),
    ensures
        list.len() == ids.len(),
{
    let listed = list.map_values(|row: RowView| row.id);
    assert(listed.no_duplicates()) by {
        assert forall|i: int, j: int| 0 <= i < j < listed.len() implies listed[i] != listed[j] by {
            assert(list[i].id != list[j].id);
        }
    }
    assert forall|id: i32| listed.to_set().contains(id) <==> ids.to_set().contains(id) by {
        if listed.contains(id) {
            let i = choose|i: int| 0 <= i < listed.len() && listed[i] == id;
            assert(found(rows, list[i].id) == Some(list[i]));
            assert(ids.contains(id) <==> rows.dom().contains(id));
        }
        if ids.contains(id) {
            let i = choose|i: int| 0 <= i < list.len() && (#[trigger] list[i]).id == id;
            assert(listed[i] == id);
        }
    }
    assert(listed.to_set() =~= ids.to_set());
    listed.unique_seq_to_set();
    ids.unique_seq_to_set();
}

/// How far the order is written at this time.
spec fn reorder_keeps_at(
    before: World,
    ids: Seq<i32>,
    now: Timestamp,
    state: ReorderView,
    world: World,
) -> bool {
    &&& reorder_keeps(before, ids, state, world)
    &&& match state {
        ReorderView::FindingRows(_) => false,
        ReorderView::Beginning(placing) => placing.now == now,
        ReorderView::Writing(placing) => placing.now == now,
        ReorderView::Committing => places_given(
            before.rows,
            ids,
            ids.len() as int,
            now,
            world.rows,
        ),
        ReorderView::Finished(Ok(_)) => places_given(
            before.rows,
            ids,
            ids.len() as int,
            now,
            world.rows,
        ),
        ReorderView::Finished(Err(_)) => true,
    }
}

proof fn lemma_reorder_step_at(
    before: World,
    ids: Seq<i32>,
    now: Timestamp,
    state: ReorderView,
    world: World,
    answer: Exchange,
)
    requires
        before.before is None,
        reorder_keeps_at(before, ids, now, state, world),
        state.pending() is Some,
        world.serves(state.pending()->0, answer.reply, answer.world),
    ensures
        reorder_keeps_at(
            before,
            ids,
            now,
            state.after(answer.reply, answer.now),
            answer.world,
        ),
{
    lemma_reorder_step(before, ids, state, world, answer);
    if let ReorderView::Writing(placing) = state {
        if answer.reply is Saved {
            let place = placing.place;
            let next = answer.world;
            assert(ids.contains(ids[place]));
            assert(next.rows.dom() =~= before.rows.dom());
            assert forall|i: int| 0 <= i < ids.len() implies next.rows[#[trigger] ids[i]] == if i
                < place + 1 {
                placed_row(before.rows[ids[i]], i, now)
            } else {
                before.rows[ids[i]]
            } by {
                assert(i != place ==> ids[i] != ids[place]);
                assert(ids.contains(ids[i]));
            }
            assert(places_given(before.rows, ids, place + 1, now, next.rows));
        }
    }
}

/// An order that went through, field by field: the row at each place of the
/// order has the number of the place as its sort order and the time at which the
/// rows were found as the time of its last change. Everything else of it is as it
/// was, and there are no other rows, before or after.
pub proof fn reordered_rows_are_numbered(
    before: World,
    ids: Seq<i32>,
    answers: Seq<Exchange>,
    after: World,
)
    requires
        0 < ids.len() <= i32::MAX + 1,
        before.before is None,
        runs(reorder_start(ids), before, answers, ReorderView::Finished(Ok(())), after),
    ensures
        answers.len() > 0,
        after.rows.dom() == before.rows.dom(),
        forall|i: int, j: int|
            0 <= i < j < ids.len() ==> #[trigger] ids[i] != #[trigger] ids[j],
        forall|id: i32| #[trigger]
            before.rows.dom().contains(id) ==> exists|i: int|
                0 <= i < ids.len() && #[trigger] ids[i] == id,
        forall|i: int|
            0 <= i < ids.len() ==> {
                let id = #[trigger] ids[i];
                &&& before.rows.dom().contains(id)
                &&& after.rows[id].sort_order == i
                &&& after.rows[id].updated_at == answers[0].now
                &&& after.rows[id].id == before.rows[id].id
                &&& after.rows[id].name == before.rows[id].name
                &&& after.rows[id].base_url == before.rows[id].base_url
                &&& after.rows[id].token == before.rows[id].token
                &&& after.rows[id].headers == before.rows[id].headers
                &&& after.rows[id].created_at == before.rows[id].created_at
            },
        after.tokens == before.tokens,
        after.headers == before.headers,
        after.before is None,
{
    reordered_rows_have_their_places(before, ids, answers, after);
    assert(answers.len() > 0);
    let start = reorder_start(ids);
    let first = answers.first();
    let next = start.after(first.reply, first.now);
    assert(start == ReorderView::FindingRows(ids));
    lemma_reorder_step(before, ids, start, before, first);
    let kept = |state: ReorderView, world: World|
        reorder_keeps_at(before, ids, first.now, state, world);
    assert forall|state: ReorderView, world: World, request: RequestView, answer: Exchange|
        #![trigger world.serves(request, answer.reply, answer.world), kept(state, world)]
        kept(state, world) && state.pending() == Some(request) && world.serves(
            request,
            answer.reply,
            answer.world,
        ) implies kept(state.after(answer.reply, answer.now), answer.world) by {
        lemma_reorder_step_at(before, ids, first.now, state, world, answer);
    }
    run_keeps(
        kept,
        next,
        first.world,
        answers.drop_first(),
        ReorderView::Finished(Ok(())),
        after,
    );
    assert forall|i: int| 0 <= i < ids.len() implies before.rows.dom().contains(
        #[trigger] ids[i],
    ) by {
        assert(ids.contains(ids[i]));
    }
    assert forall|id: i32| #[trigger] before.rows.dom().contains(id) implies exists|i: int|
        0 <= i < ids.len() && #[trigger] ids[i] == id by {
        assert(ids.contains(id));
    }
}

/// What an order is answered that does not go through: one that names a
/// connection twice is refused before anything is asked; one that leaves a row
/// out or names another, once the rows are known; and a database that fails is
/// reported in its own words.
pub proof fn refused_order_says_why(
    before: World,
    ids: Seq<i32>,
    answers: Seq<Exchange>,
    error: AppErrorView,
    after: World,
)
    requires
        before.before is None,
        runs(reorder_start(ids), before, answers, ReorderView::Finished(Err(error)), after),
    ensures
        ids.len() > 0,
        answers.len() == 0 ==> error.code == AppErrorCode::InvalidInput && error.message
            == "Remote workspace order contains duplicate connections"@ && error.detail is None
            && exists|i: int, j: int|
            0 <= i < j < ids.len() && #[trigger] ids[i] == #[trigger] ids[j],
        answers.len() > 0 ==> forall|i: int, j: int|
            0 <= i < j < ids.len() ==> #[trigger] ids[i] != #[trigger] ids[j],
        answers.len() > 0 && !(answers.last().reply is Failed) ==> answers.len() == 1 && error.code
            == AppErrorCode::InvalidInput && error.message
            == "Remote workspace order must include every connection exactly once"@
            && error.detail is None && !(forall|id: i32| #[trigger]
            ids.contains(id) <==> before.rows.dom().contains(id)),
        answers.len() > 0 ==> (answers.last().reply matches ReplyView::Failed(text) ==> error.code
            == AppErrorCode::DatabaseError && error.detail == Some(text)),
{
    let start = reorder_start(ids);
    if answers.len() == 0 {
        let (i, j) = choose|i: int, j: int|
            0 <= i < ids.len() && 0 <= j < ids.len() && i != j && ids[i] == ids[j];
        if i > j {
            assert(ids[j] == ids[i]);
        }
    } else {
        assert(start == ReorderView::FindingRows(ids));
        let first = answers.first();
        let rest = answers.drop_first();
        let next = start.after(first.reply, first.now);
        assert(runs(next, first.world, rest, ReorderView::Finished(Err(error)), after));
        if let ReplyView::Rows(list) = first.reply {
            lemma_covers_table(ids, before.rows, list);
        }
        if next is Finished {
            assert(next.pending() is None);
            assert(rest.len() == 0);
            assert(answers.last() == first);
        } else {
            lemma_last_failure(next, first.world, rest, error, after);
            assert(rest.len() > 0);
            assert(rest.last() == answers.last());
        }
    }
}

/// Once the rows are known, only a request that fails ends an order with an
/// error.
proof fn lemma_last_failure(
    from: ReorderView,
    before: World,
    answers: Seq<Exchange>,
    error: AppErrorView,
    after: World,
)
    requires
        from is Beginning || from is Writing || from is Committing,
        runs(from, before, answers, ReorderView::Finished(Err(error)), after),
    ensures
        answers.len() > 0,
        answers.last().reply matches ReplyView::Failed(text) && error.code
            == AppErrorCode::DatabaseError && error.detail == Some(text),
    decreases answers.len(),
{
    let first = answers.first();
    let rest = answers.drop_first();
    let next = from.after(first.reply, first.now);
    assert(runs(next, first.world, rest, ReorderView::Finished(Err(error)), after));
    if next is Finished {
        assert(next.pending() is None);
        assert(rest.len() == 0);
        assert(answers.last() == first);
    } else {
        lemma_last_failure(next, first.world, rest, error, after);
        assert(rest.last() == answers.last());
    }
}

/// Putting connections in an order ends: it makes three requests more than there
/// are ids at the most, and has one pending until it is finished.
pub proof fn reorder_ends(
    before: World,
    ids: Seq<i32>,
    answers: Seq<Exchange>,
    state: ReorderView,
    after: World,
)
    requires
        runs(reorder_start(ids), before, answers, state, after),
    ensures
        answers.len() <= ids.len() + 3,
        state.pending() is None <==> state is Finished,
{
    lemma_reorder_requests_left(reorder_start(ids), before, answers, state, after);
}

spec fn order_left(state: ReorderView) -> int {
    match state {
        ReorderView::FindingRows(ids) => ids.len() as int + 3,
        ReorderView::Beginning(placing) => placing.ids.len() - placing.place + 2,
        ReorderView::Writing(placing) => placing.ids.len() - placing.place + 1,
        ReorderView::Committing => 1,
        ReorderView::Finished(_) => 0,
    }
}

proof fn lemma_reorder_requests_left(
    from: ReorderView,
    before: World,
    answers: Seq<Exchange>,
    to: ReorderView,
    after: World,
)
    requires
        runs(from, before, answers, to, after),
        from matches ReorderView::FindingRows(ids) ==> ids.len() > 0,
        from matches ReorderView::Beginning(placing) ==> placing.place < placing.ids.len(),
        from matches ReorderView::Writing(placing) ==> placing.place < placing.ids.len(),
    ensures
        answers.len() <= order_left(from),
    decreases answers.len(),
{
    if answers.len() > 0 {
        let first = answers.first();
        let next = from.after(first.reply, first.now);
        assert(before.serves(from.pending()->0, first.reply, first.world));
        lemma_reorder_requests_left(next, first.world, answers.drop_first(), to, after);
    }
}

} // verus!
