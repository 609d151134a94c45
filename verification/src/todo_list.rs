//! The list command: a read-only view of the tasks, filtered to the
//! incomplete ones unless all are asked for.

use vstd::prelude::*;

use crate::codec::{serialize, spec_serialize};
use crate::list::TaskList;
use crate::task::TaskView;

verus! {

pub struct TodoList;

/// The listing: the position and rendered line of every task the
/// filter keeps — the incomplete ones, or every task when `all` is
/// set — in file order.
pub open spec fn spec_listed(ts: Seq<TaskView>, all: bool) -> Seq<(int, Seq<u8>)>
    decreases ts.len(),
{
    if ts.len() == 0 {
        Seq::empty()
    } else {
        spec_listed(ts.drop_last(), all) + if all || !ts.last().completed {
            seq![((ts.len() - 1) as int, spec_serialize(ts.last()))]
        } else {
            Seq::empty()
        }
    }
}

/// A listing value rendered from `s`: same length, same positions,
/// same lines.
pub open spec fn listing_matches(r: Seq<(usize, Vec<u8>)>, s: Seq<(int, Seq<u8>)>) -> bool {
    &&& r.len() == s.len()
    &&& forall|i: int| 0 <= i < r.len() ==> (#[trigger] r[i]).0 as int == s[i].0 && r[i].1@
        == s[i].1
}

impl TodoList {
    pub fn name(&self) -> (r: &'static str)
        ensures
            r@ == "todo list"@,
    {
        "todo list"
    }

    pub fn description(&self) -> (r: &'static str)
        ensures
            r@ == "Pretty-print your todo.txt file"@,
    {
        "Pretty-print your todo.txt file"
    }

    /// Renders the listing. The list itself is only read: no task is
    /// changed and nothing is persisted.
    pub fn run(&self, list: &TaskList, show_all: bool) -> (r: Vec<(usize, Vec<u8>)>)
        ensures
            listing_matches(r@, spec_listed(list@, show_all)),
    {
        let mut out: Vec<(usize, Vec<u8>)> = Vec::new();
        let mut i: usize = 0;
        while i < list.tasks.len()
            invariant
                i <= list.tasks@.len(),
                list@.len() == list.tasks@.len(),
                listing_matches(out@, spec_listed(list@.take(i as int), show_all)),
            decreases list.tasks@.len() - i,
        {
            if show_all || !list.tasks[i].completed {
                let line = serialize(&list.tasks[i]);
                out.push((i, line));
            }
            i = i + 1;
            proof {
                let pre = list@.take(i as int);
                assert(pre.drop_last() =~= list@.take(i - 1));
                assert(pre.last() == list@[i - 1]);
                if show_all || !list@[i - 1].completed {
                    assert(spec_listed(pre, show_all) == spec_listed(list@.take(i - 1), show_all)
                        + seq![((i - 1) as int, spec_serialize(list@[i - 1]))]);
                } else {
                    assert(spec_listed(pre, show_all) =~= spec_listed(
                        list@.take(i - 1),
                        show_all,
                    ));
                }
            }
        }
        proof {
            assert(list@.take(list@.len() as int) =~= list@);
        }
        out
    }
}

/// Listing is deterministic: two listings of the same tasks, with no
/// mutation in between, carry the same positions and the same lines.
pub proof fn lemma_listing_deterministic(
    ts: Seq<TaskView>,
    all: bool,
    r1: Seq<(usize, Vec<u8>)>,
    r2: Seq<(usize, Vec<u8>)>,
)
    requires
        listing_matches(r1, spec_listed(ts, all)),
        listing_matches(r2, spec_listed(ts, all)),
    ensures
        r1.len() == r2.len(),
        forall|i: int| 0 <= i < r1.len() ==> (#[trigger] r1[i]).0 == r2[i].0 && r1[i].1@
            == r2[i].1@,
{
}

} // verus!
