//! The add command: builds a task line from the caller's fields,
//! parses it back through the codec to validate and normalize it, and
//! appends the task.

use vstd::prelude::*;

use crate::codec::{parse, spec_parse};
use crate::date::{spec_date_bytes, Date};
use crate::error::TodoPluginError;
use crate::list::TaskList;
use crate::task::{is_alpha, to_upper};

verus! {

pub struct TodoAdd;

/// The line the add command builds: completion marker first, then the
/// priority token, then — unless dates are suppressed — today's date
/// once (creation) or twice (completion and creation, for a task
/// logged as already done), then the description.
pub open spec fn spec_build_line(
    desc: Seq<u8>,
    complete: bool,
    no_date: bool,
    priority: Option<u8>,
    today: Date,
) -> Seq<u8> {
    (if complete {
        seq![120u8, 32u8]
    } else {
        Seq::empty()
    }) + (match priority {
        Some(p) => seq![40u8, to_upper(p), 41u8, 32u8],
        None => Seq::empty(),
    }) + (if no_date {
        Seq::empty()
    } else {
        if complete {
            spec_date_bytes(today).push(32) + spec_date_bytes(today).push(32)
        } else {
            spec_date_bytes(today).push(32)
        }
    }) + desc
}

/// Builds the raw task line, normalizing the priority letter to
/// uppercase; a priority that is not a letter is the only error.
pub fn build_task_line(
    desc: &Vec<u8>,
    complete: bool,
    no_date: bool,
    priority: Option<u8>,
    today: Date,
) -> (r: Result<Vec<u8>, TodoPluginError>)
    ensures
        r is Err <==> (priority matches Some(p) && !is_alpha(p)),
        r matches Err(e) ==> priority matches Some(p) && e == TodoPluginError::UnknownPriority(p),
        r matches Ok(line) ==> line@ == spec_build_line(desc@, complete, no_date, priority, today),
{
    let mut out: Vec<u8> = Vec::new();
    if complete {
        out.push(120);
        out.push(32);
    }
    let ghost xp: Seq<u8> = if complete { seq![120u8, 32u8] } else { Seq::empty() };
    proof {
        assert(out@ =~= xp);
    }
    match priority {
        Some(p) => {
            if (65 <= p && p <= 90) || (97 <= p && p <= 122) {
                let up = if 97 <= p && p <= 122 {
                    p - 32
                } else {
                    p
                };
                out.push(40);
                out.push(up);
                out.push(41);
                out.push(32);
            } else {
                return Err(TodoPluginError::UnknownPriority(p));
            }
        },
        None => {},
    }
    let ghost pp: Seq<u8> = match priority {
        Some(p) => seq![40u8, to_upper(p), 41u8, 32u8],
        None => Seq::empty(),
    };
    proof {
        assert(out@ =~= xp + pp);
    }
    if !no_date {
        let db = today.render();
        let mut k: usize = 0;
        let ghost before = out@;
        while k < db.len()
            invariant
                k <= db@.len(),
                out@ == before + db@.take(k as int),
            decreases db@.len() - k,
        {
            out.push(db[k]);
            k = k + 1;
            proof {
                assert(before + db@.take(k as int) =~= (before + db@.take(k - 1)).push(
                    db@[k - 1],
                ));
            }
        }
        proof {
            assert(db@.take(db@.len() as int) =~= db@);
        }
        out.push(32);
        if complete {
            let mut k2: usize = 0;
            let ghost before2 = out@;
            while k2 < db.len()
                invariant
                    k2 <= db@.len(),
                    out@ == before2 + db@.take(k2 as int),
                decreases db@.len() - k2,
            {
                out.push(db[k2]);
                k2 = k2 + 1;
                proof {
                    assert(before2 + db@.take(k2 as int) =~= (before2 + db@.take(k2 - 1)).push(
                        db@[k2 - 1],
                    ));
                }
            }
            proof {
                assert(db@.take(db@.len() as int) =~= db@);
            }
            out.push(32);
        }
    }
    let ghost dp: Seq<u8> = if no_date {
        Seq::empty()
    } else {
        if complete {
            spec_date_bytes(today).push(32) + spec_date_bytes(today).push(32)
        } else {
            spec_date_bytes(today).push(32)
        }
    };
    proof {
        assert(out@ =~= xp + pp + dp);
    }
    let mut m: usize = 0;
    let ghost before3 = out@;
    while m < desc.len()
        invariant
            m <= desc@.len(),
            out@ == before3 + desc@.take(m as int),
        decreases desc@.len() - m,
    {
        out.push(desc[m]);
        m = m + 1;
        proof {
            assert(before3 + desc@.take(m as int) =~= (before3 + desc@.take(m - 1)).push(
                desc@[m - 1],
            ));
        }
    }
    proof {
        assert(desc@.take(desc@.len() as int) =~= desc@);
        assert(out@ =~= spec_build_line(desc@, complete, no_date, priority, today));
    }
    Ok(out)
}

impl TodoAdd {
    pub fn name(&self) -> (r: &'static str)
        ensures
            r@ == "todo add"@,
    {
        "todo add"
    }

    pub fn description(&self) -> (r: &'static str)
        ensures
            r@ == "add a new todo item to your todo.txt file"@,
    {
        "add a new todo item to your todo.txt file"
    }

    /// Builds the line, parses it back through the codec, and appends
    /// the task. On any error the list is left untouched: a priority
    /// that is not a letter, or a built line the grammar rejects
    /// (a description can begin with date tokens of its own).
    pub fn run(
        &self,
        list: &mut TaskList,
        desc: &Vec<u8>,
        complete: bool,
        no_date: bool,
        priority: Option<u8>,
        today: Date,
    ) -> (r: Result<(), TodoPluginError>)
        requires
            today.wf(),
            forall|i: int| 0 <= i < desc@.len() ==> desc@[i] != 10,
        ensures
            r is Err ==> final(list)@ == old(list)@,
            priority matches Some(p) ==> (!is_alpha(p) ==> r == Err::<(), TodoPluginError>(
                TodoPluginError::UnknownPriority(p),
            )),
            (priority matches Some(p) ==> is_alpha(p)) ==> match spec_parse(
                spec_build_line(desc@, complete, no_date, priority, today),
            ) {
                Ok(t) => r is Ok && final(list)@ == old(list)@.push(t),
                Err(e) => r == Err::<(), TodoPluginError>(TodoPluginError::Malformed(e)),
            },
            r is Ok && old(list).wf() ==> final(list).wf(),
    {
        let line = match build_task_line(desc, complete, no_date, priority, today) {
            Ok(line) => line,
            Err(e) => {
                return Err(e);
            },
        };
        proof {
            let lv = line@;
            assert forall|i: int| 0 <= i < lv.len() implies lv[i] != 10 by {
                crate::date::lemma_date_bytes_no_nl(today);
            }
        }
        match parse(line.as_slice()) {
            Ok(t) => {
                proof {
                    crate::codec::lemma_parse_canonical(line@);
                }
                list.push(t);
                proof {
                    assert(forall|i: int|
                        0 <= i < final(list)@.len() ==> old(list).wf() ==> final(list)@[i].wf());
                }
                Ok(())
            },
            Err(e) => Err(TodoPluginError::Malformed(e)),
        }
    }
}

} // verus!
