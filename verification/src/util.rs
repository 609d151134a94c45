//! Resolution of the todo file's path from plain values. Reading the
//! flag and the home directory happens outside; the decision is here.

use vstd::prelude::*;

use crate::error::TodoPluginError;

verus! {

/// The file name joined under the home directory: `todo.txt`.
pub open spec fn spec_default_file_name() -> Seq<u8> {
    seq![116u8, 111u8, 100u8, 111u8, 46u8, 116u8, 120u8, 116u8]
}

/// Picks the explicitly given path when there is one; otherwise joins
/// `todo.txt` under the home directory; with neither, fails.
pub fn get_todo_file_path(flag: Option<Vec<u8>>, home: Option<Vec<u8>>) -> (r: Result<
    Vec<u8>,
    TodoPluginError,
>)
    ensures
        flag matches Some(p) ==> r matches Ok(q) && q@ == p@,
        home matches Some(h) ==> (flag is None ==> (r matches Ok(q) && q@ == h@ + seq![47u8]
            + spec_default_file_name())),
        flag is None && home is None ==> r == Err::<Vec<u8>, TodoPluginError>(
            TodoPluginError::MissingHomeDirectory,
        ),
{
    match flag {
        Some(p) => Ok(p),
        None => match home {
            Some(h) => {
                let mut out = h;
                out.push(47);
                out.push(116);
                out.push(111);
                out.push(100);
                out.push(111);
                out.push(46);
                out.push(116);
                out.push(120);
                out.push(116);
                proof {
                    assert(out@ =~= home->Some_0@ + seq![47u8] + spec_default_file_name());
                }
                Ok(out)
            },
            None => Err(TodoPluginError::MissingHomeDirectory),
        },
    }
}

} // verus!
