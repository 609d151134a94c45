//! The remove command: drops tasks by position, after validating every
//! position first, or only reports them in dry-run mode.

use vstd::prelude::*;

use crate::codec::{serialize, spec_serialize};
use crate::error::TodoPluginError;
use crate::list::{ids_contain, spec_keep, TaskList};
use crate::task::TaskView;

verus! {

pub struct TodoRm;

/// Whether a removal request may touch a list of `n` tasks: there must
/// be at least one id, and every id must lie below `n`.
pub open spec fn spec_validate_ids(ids: Seq<usize>, n: nat) -> Result<(), TodoPluginError> {
    if ids.len() == 0 {
        Err(TodoPluginError::NoIndex)
    } else if exists|k: int| 0 <= k < ids.len() && ids[k] >= n {
        Err(TodoPluginError::IndexOutOfRange)
    } else {
        Ok(())
    }
}

/// Errors if no ids are given, or if an id is at or past the number of
/// tasks; accepts everything else. Nothing is mutated either way.
pub fn validate_ids(ids: &[usize], list_size: usize) -> (r: Result<(), TodoPluginError>)
    ensures
        r == spec_validate_ids(ids@, list_size as nat),
{
    if ids.len() == 0 {
        return Err(TodoPluginError::NoIndex);
    }
    let mut k: usize = 0;
    while k < ids.len()
        invariant
            k <= ids@.len(),
            forall|m: int| 0 <= m < k ==> ids@[m] < list_size,
        decreases ids@.len() - k,
    {
        if ids[k] >= list_size {
            return Err(TodoPluginError::IndexOutOfRange);
        }
        k = k + 1;
    }
    Ok(())
}

/// The dry-run report: the position and rendered line of every task
/// whose position is among the ids.
pub open spec fn spec_matched(ts: Seq<TaskView>, ids: Seq<usize>) -> Seq<(int, Seq<u8>)>
    decreases ts.len(),
{
    if ts.len() == 0 {
        Seq::empty()
    } else {
        spec_matched(ts.drop_last(), ids) + if ids.contains((ts.len() - 1) as usize) {
            seq![((ts.len() - 1) as int, spec_serialize(ts.last()))]
        } else {
            Seq::empty()
        }
    }
}

/// A report value rendered from `s`: same length, same positions, same
/// lines.
pub open spec fn report_matches(r: Seq<(usize, Vec<u8>)>, s: Seq<(int, Seq<u8>)>) -> bool {
    &&& r.len() == s.len()
    &&& forall|i: int| 0 <= i < r.len() ==> (#[trigger] r[i]).0 as int == s[i].0 && r[i].1@
        == s[i].1
}

impl TodoRm {
    pub fn name(&self) -> (r: &'static str)
        ensures
            r@ == "todo rm"@,
    {
        "todo rm"
    }

    pub fn description(&self) -> (r: &'static str)
        ensures
            r@ == "remove tasks by the given id(s)"@,
    {
        "remove tasks by the given id(s)"
    }

    /// Validates the ids, then removes the tasks at those positions —
    /// or, in dry-run mode, reports them and changes nothing. On any
    /// error the list is left untouched.
    pub fn run(&self, list: &mut TaskList, ids: &[usize], dry_run: bool) -> (r: Result<
        Vec<(usize, Vec<u8>)>,
        TodoPluginError,
    >)
        ensures
            r is Ok <==> spec_validate_ids(ids@, old(list)@.len()) is Ok,
            spec_validate_ids(ids@, old(list)@.len()) matches Err(e) ==> r matches Err(e2) && e
                == e2 && final(list)@ == old(list)@,
            r is Ok && dry_run ==> final(list)@ == old(list)@,
            r matches Ok(rep) ==> (dry_run ==> report_matches(
                rep@,
                spec_matched(old(list)@, ids@),
            )),
            r is Ok && !dry_run ==> final(list)@ == spec_keep(old(list)@, ids@),
            r matches Ok(rep) ==> (!dry_run ==> rep@ == Seq::<(usize, Vec<u8>)>::empty()),
    {
        match validate_ids(ids, list.len()) {
            Err(e) => {
                return Err(e);
            },
            Ok(()) => {},
        }
        if dry_run {
            let mut rep: Vec<(usize, Vec<u8>)> = Vec::new();
            let mut i: usize = 0;
            while i < list.tasks.len()
                invariant
                    i <= list.tasks@.len(),
                    list@.len() == list.tasks@.len(),
                    *list == *old(list),
                    report_matches(rep@, spec_matched(list@.take(i as int), ids@)),
                decreases list.tasks@.len() - i,
            {
                let ghost before = rep@;
                if ids_contain(ids, i) {
                    let line = serialize(&list.tasks[i]);
                    rep.push((i, line));
                }
                i = i + 1;
                proof {
                    let pre = list@.take(i as int);
                    assert(pre.drop_last() =~= list@.take(i - 1));
                    assert(pre.last() == list@[i - 1]);
                    assert((pre.len() - 1) as usize == (i - 1) as usize);
                    if ids@.contains((i - 1) as usize) {
                        assert(spec_matched(pre, ids@) == spec_matched(list@.take(i - 1), ids@)
                            + seq![((i - 1) as int, spec_serialize(list@[i - 1]))]);
                    } else {
                        assert(spec_matched(pre, ids@) =~= spec_matched(list@.take(i - 1), ids@));
                    }
                }
            }
            proof {
                assert(list@.take(list@.len() as int) =~= list@);
            }
            Ok(rep)
        } else {
            list.remove_indices(ids);
            Ok(Vec::new())
        }
    }
}

} // verus!
