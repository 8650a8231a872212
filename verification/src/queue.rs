//! Rows that wait for their turn.

use vstd::prelude::*;

use crate::connection::{row_views, ConnectionRow, RowView};

verus! {

/// Rows that wait for their turn, first come, first served.
#[derive(Debug, Clone, PartialEq, Eq)]
pub struct RowQueue {
    /// The rows from the last to the first.
    waiting: Vec<ConnectionRow>,
}

impl View for RowQueue {
    type V = Seq<RowView>;

    closed spec fn view(&self) -> Seq<RowView> {
        Seq::new(
            self.waiting@.len(),
            |i: int| self.waiting@[self.waiting@.len() - 1 - i]@,
        )
    }
}

impl RowQueue {
    /// The rows of a list, in its order.
    pub fn of(rows: Vec<ConnectionRow>) -> (queue: Self)
        ensures
            queue@ == row_views(rows@),
    {
        let ghost all = rows@;
        let mut rows = rows;
        let mut waiting: Vec<ConnectionRow> = Vec::new();
        while rows.len() > 0
            invariant
                rows@ == all.take(rows@.len() as int),
                rows@.len() + waiting@.len() == all.len(),
                forall|i: int| 0 <= i < waiting@.len() ==> waiting@[i] == all[all.len() - 1 - i],
            decreases rows@.len(),
        {
            if let Some(row) = rows.pop() {
                waiting.push(row);
            }
        }
        let queue = RowQueue { waiting };
        assert(queue@ =~= row_views(all));
        queue
    }

    /// Takes the first row out.
    pub fn pop(&mut self) -> (r: Option<ConnectionRow>)
        ensures
            r is None <==> old(self)@.len() == 0,
            r matches Some(row) ==> row@ == old(self)@.first(),
            final(self)@ == if old(self)@.len() == 0 {
                old(self)@
            } else {
                old(self)@.drop_first()
            },
    {
        let ghost before = self@;
        let r = self.waiting.pop();
        assert(r is Some ==> self@ =~= before.drop_first());
        r
    }
}

} // verus!
