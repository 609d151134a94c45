//! A verified core for a todo.txt task manager: the line codec
//! (parse/serialize), the in-memory task list with its load, append,
//! remove and persist operations, and the add/list/remove/table
//! command logic. File and terminal I/O live outside this crate.

pub mod codec;
pub mod date;
pub mod error;
pub mod list;
pub mod task;
pub mod todo_add;
pub mod todo_list;
pub mod todo_rm;
pub mod todo_table;
pub mod util;

use vstd::prelude::*;

verus! {

/// The plugin itself: a fixed set of commands served to the host.
pub struct TodoTxtPlugin;

impl TodoTxtPlugin {
    pub fn version(&self) -> (r: &'static str)
        ensures
            r@ == "0.1.0"@,
    {
        "0.1.0"
    }

    /// The names of the commands this plugin serves, in the order the
    /// host registers them.
    pub fn commands(&self) -> (r: Vec<&'static str>)
        ensures
            r@.len() == 4,
            r@[0]@ == "todo table"@,
            r@[1]@ == "todo add"@,
            r@[2]@ == "todo list"@,
            r@[3]@ == "todo rm"@,
    {
        let mut v: Vec<&'static str> = Vec::new();
        v.push("todo table");
        v.push("todo add");
        v.push("todo list");
        v.push("todo rm");
        v
    }
}

} // verus!
