//! The task list: every task of the file, in file order, together
//! with the whole-file load and persist steps of the
//! read-modify-write cycle. Reading and writing the bytes themselves
//! is the surrounding program's job.

use vstd::prelude::*;

use crate::codec::{parse, serialize, spec_parse, spec_serialize, ParseError};
use crate::task::{Task, TaskView};

verus! {

/// The position of the first line feed in `s`, or `-1`.
pub open spec fn spec_find_nl(s: Seq<u8>) -> int
    decreases s.len(),
{
    if s.len() == 0 {
        -1
    } else if s[0] == 10 {
        0
    } else {
        let r = spec_find_nl(s.skip(1));
        if r < 0 {
            -1
        } else {
            r + 1
        }
    }
}

proof fn lemma_find_nl(s: Seq<u8>)
    ensures
        spec_find_nl(s) < 0 ==> forall|i: int| 0 <= i < s.len() ==> s[i] != 10,
        spec_find_nl(s) >= 0 ==> 0 <= spec_find_nl(s) < s.len() && s[spec_find_nl(s)] == 10
            && forall|i: int| 0 <= i < spec_find_nl(s) ==> s[i] != 10,
    decreases s.len(),
{
    if s.len() > 0 && s[0] != 10 {
        lemma_find_nl(s.skip(1));
        let r = spec_find_nl(s.skip(1));
        if r < 0 {
            assert forall|i: int| 0 <= i < s.len() implies s[i] != 10 by {
                if i > 0 {
                    assert(s.skip(1)[i - 1] == s[i]);
                }
            }
        } else {
            assert(s[r + 1] == s.skip(1)[r]);
            assert forall|i: int| 0 <= i < r + 1 implies s[i] != 10 by {
                if i > 0 {
                    assert(s.skip(1)[i - 1] == s[i]);
                }
            }
        }
    }
}

/// What loading a whole file yields: the tasks of its non-empty lines
/// in order, or the error of the first line that is not a task.
pub open spec fn spec_load(s: Seq<u8>) -> Result<Seq<TaskView>, ParseError>
    decreases s.len(),
{
    let i = spec_find_nl(s);
    if 0 <= i < s.len() {
        let head = s.take(i);
        let tail = s.skip(i + 1);
        if head.len() == 0 {
            spec_load(tail)
        } else {
            match spec_parse(head) {
                Err(e) => Err(e),
                Ok(t) => match spec_load(tail) {
                    Err(e) => Err(e),
                    Ok(ts) => Ok(seq![t] + ts),
                },
            }
        }
    } else {
        if s.len() == 0 {
            Ok(Seq::empty())
        } else {
            match spec_parse(s) {
                Err(e) => Err(e),
                Ok(t) => Ok(seq![t]),
            }
        }
    }
}

/// The bytes a task list persists to: each task's line followed by a
/// line feed.
pub open spec fn spec_persist(ts: Seq<TaskView>) -> Seq<u8>
    decreases ts.len(),
{
    if ts.len() == 0 {
        Seq::empty()
    } else {
        spec_persist(ts.drop_last()) + spec_serialize(ts.last()).push(10)
    }
}

/// The tasks kept by a removal: those whose position is not among the
/// removed indices.
pub open spec fn spec_keep(ts: Seq<TaskView>, ids: Seq<usize>) -> Seq<TaskView>
    decreases ts.len(),
{
    if ts.len() == 0 {
        Seq::empty()
    } else {
        spec_keep(ts.drop_last(), ids) + if ids.contains((ts.len() - 1) as usize) {
            Seq::empty()
        } else {
            seq![ts.last()]
        }
    }
}

/// Persisted bytes taken from the front: the first task's line, a
/// line feed, then the rest.
proof fn lemma_persist_front(ts: Seq<TaskView>)
    requires
        ts.len() > 0,
    ensures
        spec_persist(ts) == spec_serialize(ts[0]).push(10) + spec_persist(ts.skip(1)),
    decreases ts.len(),
{
    if ts.len() == 1 {
        assert(ts.drop_last() =~= Seq::<TaskView>::empty());
        assert(ts.skip(1) =~= Seq::<TaskView>::empty());
        assert(spec_persist(ts) =~= spec_serialize(ts[0]).push(10) + spec_persist(ts.skip(1)));
    } else {
        let head = ts.drop_last();
        lemma_persist_front(head);
        assert(head[0] == ts[0]);
        assert(ts.skip(1).drop_last() =~= head.skip(1));
        assert(ts.skip(1).last() == ts.last());
        assert(spec_persist(ts) =~= spec_serialize(ts[0]).push(10) + spec_persist(ts.skip(1)));
    }
}

/// The whole read-modify-write cycle loses nothing: persisting a list
/// and loading the bytes back yields the same tasks. This holds for
/// every list of canonical tasks whose lines are not empty — exactly
/// what loading a file produces, except that a whitespace-only line
/// loads as a task with an empty line, which a later load would skip.
pub proof fn lemma_load_persist(ts: Seq<TaskView>)
    requires
        forall|i: int| 0 <= i < ts.len() ==> crate::codec::spec_canonical(#[trigger] ts[i]),
        forall|i: int| 0 <= i < ts.len() ==> spec_serialize(#[trigger] ts[i]).len() > 0,
    ensures
        spec_load(spec_persist(ts)) == Ok::<Seq<TaskView>, ParseError>(ts),
    decreases ts.len(),
{
    if ts.len() == 0 {
        assert(spec_persist(ts) =~= Seq::<u8>::empty());
        assert(ts =~= Seq::<TaskView>::empty());
    } else {
        lemma_persist_front(ts);
        let line0 = spec_serialize(ts[0]);
        let bytes = spec_persist(ts);
        let rest = spec_persist(ts.skip(1));
        let n = line0.len() as int;
        crate::codec::lemma_serialize_no_nl(ts[0]);
        assert(bytes[n] == 10);
        assert(forall|i: int| 0 <= i < n ==> bytes[i] == line0[i]);
        lemma_find_nl(bytes);
        let f = spec_find_nl(bytes);
        assert(f == n) by {
            if f < 0 {
                assert(bytes[n] != 10);
            } else if f < n {
                assert(bytes[f] == line0[f]);
            } else if f > n {
                assert(bytes[n] != 10);
            }
        }
        assert(bytes.take(n) =~= line0);
        assert(bytes.skip(n + 1) =~= rest);
        crate::codec::lemma_parse_serialize(ts[0]);
        assert(forall|i: int| 0 <= i < ts.skip(1).len() ==> ts.skip(1)[i] == ts[i + 1]);
        lemma_load_persist(ts.skip(1));
        assert(seq![ts[0]] + ts.skip(1) =~= ts);
    }
}

/// The tasks of one todo.txt file, in file order.
pub struct TaskList {
    pub tasks: Vec<Task>,
}

impl View for TaskList {
    type V = Seq<TaskView>;

    open spec fn view(&self) -> Seq<TaskView> {
        self.tasks@.map_values(|t: Task| t@)
    }
}

impl TaskList {
    /// Every task of the list is well formed.
    pub open spec fn wf(self) -> bool {
        forall|i: int| 0 <= i < self@.len() ==> self@[i].wf()
    }

    /// An empty list.
    pub fn new() -> (r: TaskList)
        ensures
            r@ == Seq::<TaskView>::empty(),
            r.wf(),
    {
        let r = TaskList { tasks: Vec::new() };
        proof {
            assert(r@ =~= Seq::<TaskView>::empty());
        }
        r
    }

    pub fn len(&self) -> (r: usize)
        ensures
            r == self@.len(),
    {
        self.tasks.len()
    }

    /// Appends a task at the end; nothing is persisted by itself.
    pub fn push(&mut self, t: Task)
        ensures
            final(self)@ == old(self)@.push(t@),
    {
        self.tasks.push(t);
        proof {
            assert(self@ =~= old(self)@.push(t@));
        }
    }

    /// Loads a whole file: each non-empty line is parsed; the first
    /// line that is not a task fails the whole load.
    pub fn from_bytes(content: &[u8]) -> (r: Result<TaskList, ParseError>)
        ensures
            r is Ok <==> spec_load(content@) is Ok,
            r matches Ok(l) ==> spec_load(content@) matches Ok(ts) && l@ == ts && l.wf()
                && forall|i: int| 0 <= i < l@.len() ==> crate::codec::spec_canonical(
                #[trigger] l@[i],
            ),
            r matches Err(e) ==> spec_load(content@) matches Err(e2) && e == e2,
    {
        let mut tasks: Vec<Task> = Vec::new();
        let mut start: usize = 0;
        proof {
            assert(content@.skip(0) =~= content@);
            if spec_load(content@) is Ok {
                assert(tasks@.map_values(|t: Task| t@) + spec_load(content@)->Ok_0 =~= spec_load(
                    content@,
                )->Ok_0);
            }
        }
        loop
            invariant
                start <= content@.len(),
                forall|i: int| 0 <= i < tasks@.len() ==> crate::codec::spec_canonical(
                    #[trigger] tasks@[i]@,
                ),
                match spec_load(content@.skip(start as int)) {
                    Ok(ts) => spec_load(content@) matches Ok(all) && all == tasks@.map_values(
                        |t: Task| t@,
                    ) + ts,
                    Err(e) => spec_load(content@) == Err::<Seq<TaskView>, ParseError>(e),
                },
            decreases content@.len() - start,
        {
            let ghost suffix = content@.skip(start as int);
            proof {
                assert(forall|i: int| 0 <= i < suffix.len() ==> suffix[i] == content@[start + i]);
                lemma_find_nl(suffix);
            }
            // Find the end of the current line.
            let mut j = start;
            while j < content.len() && content[j] != 10
                invariant
                    start <= j <= content@.len(),
                    forall|k: int| start <= k < j ==> content@[k] != 10,
                decreases content@.len() - j,
            {
                j = j + 1;
            }
            proof {
                if j < content@.len() {
                    assert(suffix[j - start] == 10);
                    assert(spec_find_nl(suffix) == j - start) by {
                        let f = spec_find_nl(suffix);
                        if f < 0 {
                            assert(suffix[j - start] != 10);
                        } else if f < j - start {
                            assert(content@[start + f] != 10);
                        } else if f > j - start {
                            assert(suffix[(j - start) as int] != 10);
                        }
                    }
                } else {
                    assert(spec_find_nl(suffix) < 0) by {
                        let f = spec_find_nl(suffix);
                        if f >= 0 {
                            assert(content@[start + f] == 10);
                        }
                    }
                }
            }
            if j == content.len() {
                // Last segment: no line feed follows it.
                if j > start {
                    let seg = vstd::slice::slice_subrange(content, start, j);
                    proof {
                        assert(seg@ =~= suffix);
                    }
                    match parse(seg) {
                        Ok(t) => {
                            proof {
                                crate::codec::lemma_parse_canonical(seg@);
                            }
                            let ghost before = tasks@;
                            tasks.push(t);
                            proof {
                                assert(tasks@.map_values(|t: Task| t@) =~= before.map_values(
                                    |t: Task| t@,
                                ).push(t@));
                            }
                            let r = TaskList { tasks };
                            proof {
                                assert(r@ =~= before.map_values(|t: Task| t@) + seq![t@]);
                            }
                            return Ok(r);
                        },
                        Err(e) => {
                            return Err(e);
                        },
                    }
                } else {
                    let r = TaskList { tasks };
                    proof {
                        assert(suffix.len() == 0);
                        assert(r@ + Seq::<TaskView>::empty() =~= r@);
                    }
                    return Ok(r);
                }
            }
            // A line feed at j closes the segment [start, j).
            let ghost head = suffix.take(j - start);
            let ghost tail = suffix.skip(j - start + 1);
            proof {
                assert(head =~= content@.subrange(start as int, j as int));
                assert(tail =~= content@.skip(j + 1));
            }
            if j > start {
                let seg = vstd::slice::slice_subrange(content, start, j);
                proof {
                    assert(seg@ =~= head);
                }
                match parse(seg) {
                    Ok(t) => {
                        proof {
                            crate::codec::lemma_parse_canonical(seg@);
                        }
                        let ghost before = tasks@;
                        tasks.push(t);
                        proof {
                            assert(tasks@.map_values(|t: Task| t@) =~= before.map_values(
                                |t: Task| t@,
                            ).push(t@));
                            if spec_load(tail) is Ok {
                                assert(before.map_values(|t: Task| t@) + (seq![t@] + spec_load(
                                    tail,
                                )->Ok_0) =~= tasks@.map_values(|t: Task| t@) + spec_load(
                                    tail,
                                )->Ok_0);
                            }
                        }
                    },
                    Err(e) => {
                        return Err(e);
                    },
                }
            }
            start = j + 1;
        }
    }

    /// Serializes every task, one line each, as the file's new whole
    /// contents.
    pub fn to_bytes(&self) -> (r: Vec<u8>)
        ensures
            r@ == spec_persist(self@),
    {
        let mut out: Vec<u8> = Vec::new();
        let mut i: usize = 0;
        while i < self.tasks.len()
            invariant
                i <= self@.len(),
                self@.len() == self.tasks@.len(),
                out@ == spec_persist(self@.take(i as int)),
            decreases self@.len() - i,
        {
            let line = serialize(&self.tasks[i]);
            let ghost before = out@;
            let mut k: usize = 0;
            while k < line.len()
                invariant
                    k <= line@.len(),
                    out@ == before + line@.take(k as int),
                decreases line@.len() - k,
            {
                out.push(line[k]);
                k = k + 1;
                proof {
                    assert(before + line@.take(k as int) =~= (before + line@.take(k - 1)).push(
                        line@[k - 1],
                    ));
                }
            }
            proof {
                assert(line@.take(line@.len() as int) =~= line@);
            }
            out.push(10);
            i = i + 1;
            proof {
                let pre = self@.take(i as int);
                assert(pre.drop_last() =~= self@.take(i - 1));
                assert(pre.last() == self@[i - 1]);
                assert(out@ =~= spec_persist(self@.take(i - 1)) + spec_serialize(
                    self@[i - 1],
                ).push(10));
            }
        }
        proof {
            assert(self@.take(self@.len() as int) =~= self@);
        }
        out
    }

    /// Drops exactly the tasks at the given zero-based positions. The
    /// caller has already validated the indices.
    pub fn remove_indices(&mut self, ids: &[usize])
        ensures
            final(self)@ == spec_keep(old(self)@, ids@),
    {
        let mut kept: Vec<Task> = Vec::new();
        let mut i: usize = 0;
        while i < self.tasks.len()
            invariant
                i <= self.tasks@.len(),
                self.tasks == old(self).tasks,
                kept@.map_values(|t: Task| t@) == spec_keep(
                    old(self)@.take(i as int),
                    ids@,
                ),
            decreases self.tasks@.len() - i,
        {
            let ghost before = kept@;
            if !ids_contain(ids, i) {
                kept.push(self.tasks[i].duplicate());
                proof {
                    assert(kept@.map_values(|t: Task| t@) =~= before.map_values(|t: Task| t@).push(
                        self@[i as int],
                    ));
                }
            }
            i = i + 1;
            proof {
                let pre = old(self)@.take(i as int);
                assert(pre.drop_last() =~= old(self)@.take(i - 1));
                assert(pre.last() == old(self)@[i - 1]);
                assert((pre.len() - 1) as usize == (i - 1) as usize);
                if ids@.contains((i - 1) as usize) {
                    assert(kept@.map_values(|t: Task| t@) =~= spec_keep(pre, ids@));
                } else {
                    assert(kept@.map_values(|t: Task| t@) =~= spec_keep(pre, ids@));
                }
            }
        }
        proof {
            assert(old(self)@.take(old(self)@.len() as int) =~= old(self)@);
        }
        self.tasks = kept;
    }
}

/// Whether `i` is among the given indices.
pub fn ids_contain(ids: &[usize], i: usize) -> (r: bool)
    ensures
        r == ids@.contains(i),
{
    let mut k: usize = 0;
    while k < ids.len()
        invariant
            k <= ids@.len(),
            forall|m: int| 0 <= m < k ==> ids@[m] != i,
        decreases ids@.len() - k,
    {
        if ids[k] == i {
            return true;
        }
        k = k + 1;
    }
    false
}

} // verus!
