//! The table command: a structured, read-only projection of every
//! task's fields for an external rendering surface.

use vstd::prelude::*;

use crate::list::TaskList;

verus! {

pub struct TodoTable;

impl TodoTable {
    pub fn name(&self) -> (r: &'static str)
        ensures
            r@ == "todo table"@,
    {
        "todo table"
    }

    pub fn description(&self) -> (r: &'static str)
        ensures
            r@ == "Render your todo.txt file as a table"@,
    {
        "Render your todo.txt file as a table"
    }

    /// Projects every task — completed flag, priority, dates and
    /// description — without touching the list or the file.
    pub fn run(&self, list: &TaskList) -> (r: Vec<crate::task::Task>)
        ensures
            r@.len() == list@.len(),
            forall|i: int| 0 <= i < r@.len() ==> (#[trigger] r@[i])@ == list@[i],
    {
        let mut out: Vec<crate::task::Task> = Vec::new();
        let mut i: usize = 0;
        while i < list.tasks.len()
            invariant
                i <= list.tasks@.len(),
                list@.len() == list.tasks@.len(),
                out@.len() == i,
                forall|k: int| 0 <= k < out@.len() ==> (#[trigger] out@[k])@ == list@[k],
            decreases list.tasks@.len() - i,
        {
            out.push(list.tasks[i].duplicate());
            i = i + 1;
        }
        out
    }
}

/// The table is deterministic: two projections of the same tasks, with
/// no mutation in between, are identical rows.
pub proof fn lemma_table_deterministic(
    ts: Seq<crate::task::TaskView>,
    r1: Seq<crate::task::Task>,
    r2: Seq<crate::task::Task>,
)
    requires
        r1.len() == ts.len(),
        forall|i: int| 0 <= i < r1.len() ==> (#[trigger] r1[i])@ == ts[i],
        r2.len() == ts.len(),
        forall|i: int| 0 <= i < r2.len() ==> (#[trigger] r2[i])@ == ts[i],
    ensures
        r1.len() == r2.len(),
        forall|i: int| 0 <= i < r1.len() ==> (#[trigger] r1[i])@ == r2[i]@,
{
}

} // verus!
