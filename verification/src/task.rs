//! The record behind one todo.txt line: completion flag, priority,
//! dates and free-text description.

use vstd::prelude::*;

use crate::date::Date;

verus! {

/// ASCII whitespace: space, tab, line feed, form feed, carriage return.
pub open spec fn is_ws(b: u8) -> bool {
    b == 32 || b == 9 || b == 10 || b == 12 || b == 13
}

/// An ASCII letter.
pub open spec fn is_alpha(b: u8) -> bool {
    (65 <= b && b <= 90) || (97 <= b && b <= 122)
}

/// Uppercases an ASCII letter; leaves every other byte alone.
pub open spec fn to_upper(b: u8) -> u8 {
    if 97 <= b && b <= 122 {
        (b - 32) as u8
    } else {
        b
    }
}

/// A sequence of bytes with its trailing ASCII whitespace removed.
pub open spec fn trim_end(s: Seq<u8>) -> Seq<u8>
    decreases s.len(),
{
    if s.len() > 0 && is_ws(s.last()) {
        trim_end(s.drop_last())
    } else {
        s
    }
}

/// One task of the todo.txt file.
#[derive(Debug, PartialEq, Eq)]
pub struct Task {
    pub completed: bool,
    /// An uppercase ASCII letter, when present.
    pub priority: Option<u8>,
    pub completion_date: Option<Date>,
    pub creation_date: Option<Date>,
    pub description: Vec<u8>,
}

/// The mathematical shape of a task.
pub ghost struct TaskView {
    pub completed: bool,
    pub priority: Option<u8>,
    pub completion_date: Option<Date>,
    pub creation_date: Option<Date>,
    pub description: Seq<u8>,
}

impl View for Task {
    type V = TaskView;

    open spec fn view(&self) -> TaskView {
        TaskView {
            completed: self.completed,
            priority: self.priority,
            completion_date: self.completion_date,
            creation_date: self.creation_date,
            description: self.description@,
        }
    }
}

impl TaskView {
    /// A well-formed task: the priority is an uppercase letter, the
    /// dates exist in the calendar, a completion date comes only with
    /// the completed flag and a creation date, and the description
    /// holds no newline and no trailing whitespace.
    pub open spec fn wf(self) -> bool {
        &&& (self.priority matches Some(p) ==> 65 <= p && p <= 90)
        &&& (self.completion_date matches Some(d) ==> d.wf())
        &&& (self.creation_date matches Some(d) ==> d.wf())
        &&& (self.completion_date is Some ==> self.completed && self.creation_date is Some)
        &&& (forall|i: int| 0 <= i < self.description.len() ==> self.description[i] != 10)
        &&& (self.description.len() > 0 ==> !is_ws(self.description.last()))
    }
}

impl Task {
    /// Clones the task; the result carries the same fields.
    pub fn duplicate(&self) -> (r: Task)
        ensures
            r@ == self@,
    {
        Task {
            completed: self.completed,
            priority: self.priority,
            completion_date: self.completion_date,
            creation_date: self.creation_date,
            description: clone_bytes(&self.description),
        }
    }
}

/// Clones a byte vector; the result holds the same bytes.
pub fn clone_bytes(v: &Vec<u8>) -> (r: Vec<u8>)
    ensures
        r@ == v@,
{
    let mut out: Vec<u8> = Vec::new();
    let mut i: usize = 0;
    while i < v.len()
        invariant
            i <= v.len(),
            out@ == v@.take(i as int),
        decreases v.len() - i,
    {
        out.push(v[i]);
        i = i + 1;
        proof {
            assert(out@ =~= v@.take(i as int));
        }
    }
    proof {
        assert(v@.take(v@.len() as int) =~= v@);
    }
    out
}

} // verus!
