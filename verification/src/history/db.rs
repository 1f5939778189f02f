//! The rows of the command log, and the order in which its schema grows.

use vstd::prelude::*;

verus! {

/// The version of the schema. It only ever goes up.
pub const SCHEMA_VERSION: u32 = 3;

/// One row of the command log.
#[derive(Debug, Clone, PartialEq, Eq)]
pub struct Entry {
    pub id: i64,
    pub text: String,
    pub started_at_ms: i64,
    pub finished_at_ms: Option<i64>,
    pub exit_code: Option<i32>,
    pub cwd: Option<String>,
    pub app_run_id: Option<String>,
    pub pane_id: Option<i64>,
    /// Where the row came from: `termica`, `zsh`, `bash` or `fish`.
    pub source: String,
}

/// Which rows a query draws from.
#[derive(Debug, Clone, Copy)]
pub enum Scope<'a> {
    /// Every row.
    Global,
    /// The rows of one pane in one run of the program.
    Pane { pane_id: i64, app_run_id: &'a str },
}

/// One row of the index of stored scrollback: a chunk holds the output of one
/// block, as logical lines of its pane.
#[derive(Debug, Clone, PartialEq, Eq)]
pub struct ChunkRow {
    pub id: i64,
    pub session_id: i64,
    /// The file, below the data directory.
    pub path: String,
    pub start_line: i64,
    pub end_line: i64,
    pub start_time: i64,
    pub end_time: i64,
    pub byte_size: i64,
}

/// The migration steps that a database at version `current` still needs, in
/// the order in which they are applied.
pub fn pending_migrations(current: u32) -> (steps: Vec<u32>)
    ensures
        steps@.len() == (if current < SCHEMA_VERSION {
            SCHEMA_VERSION - current
        } else {
            0
        }),
        forall|i: int| 0 <= i < steps@.len() ==> steps@[i] == current + 1 + i,
{
    let mut steps: Vec<u32> = Vec::new();
    let mut at: u32 = current;
    while at < SCHEMA_VERSION
        invariant
            current <= at,
            at <= SCHEMA_VERSION || at == current,
            steps@.len() == at - current,
            forall|i: int| 0 <= i < steps@.len() ==> steps@[i] == current + 1 + i,
        decreases SCHEMA_VERSION - at,
    {
        at += 1;
        steps.push(at);
    }
    steps
}

/// A database is brought up to version 3 one step after the other, and one that is there
/// already needs none.
pub proof fn law_schema_grows_step_by_step(current: u32, steps: Vec<u32>)
    requires
        call_ensures(pending_migrations, (current,), steps),
    ensures
        current >= 3 ==> steps@.len() == 0,
        current < 3 ==> steps@.len() == 3 - current && steps@[0] == current + 1 && steps@.last()
            == 3,
{
}

} // verus!
