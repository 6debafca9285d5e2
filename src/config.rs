use vstd::prelude::*;
use crate::interval::{interval_of_text, parse_time, IntervalError};

verus! {

/// One declared task as the configuration document writes it: a command and
/// an `HH:MM:SS` repeat interval.
pub struct Task {
    pub command: String,
    pub duration: String,
}

/// The configuration document: its one list of tasks.
pub struct Tasks {
    pub entries: Vec<Task>,
}

/// A task ready to be scheduled: its command and its period in seconds.
pub struct ScheduledTask {
    pub command: String,
    pub interval_secs: u64,
}

/// The first entry whose interval could not be read, and why.
#[derive(Clone, Copy, Debug, PartialEq, Eq, Structural)]
pub struct ConfigError {
    pub index: usize,
    pub error: IntervalError,
}

/// Whether the entry at `i` has a readable interval.
pub open spec fn entry_ok(tasks: Tasks, i: int) -> bool {
    interval_of_text(tasks.entries@[i].duration@) is Ok
}

/// Turns the document into scheduled tasks, reading every interval up front so
/// that a malformed one stops startup before any task runs. On success each
/// task keeps its command and position; on failure the error names the first
/// entry whose interval is malformed.
pub fn load_tasks(tasks: &Tasks) -> (r: Result<Vec<ScheduledTask>, ConfigError>)
    ensures
        r is Ok <==> forall|i: int| 0 <= i < tasks.entries@.len() ==> entry_ok(*tasks, i),
        r matches Ok(out) ==> {
            &&& out@.len() == tasks.entries@.len()
            &&& forall|i: int|
                0 <= i < out@.len() ==> {
                    &&& (#[trigger] out@[i]).command@ == tasks.entries@[i].command@
                    &&& interval_of_text(tasks.entries@[i].duration@) == Ok::<u64, IntervalError>(
                        out@[i].interval_secs,
                    )
                }
        },
        r matches Err(e) ==> {
            &&& e.index < tasks.entries@.len()
            &&& interval_of_text(tasks.entries@[e.index as int].duration@) == Err::<
                u64,
                IntervalError,
            >(e.error)
            &&& forall|j: int| 0 <= j < e.index ==> entry_ok(*tasks, j)
        },
{
    let mut out: Vec<ScheduledTask> = Vec::new();
    let mut i: usize = 0;
    while i < tasks.entries.len()
        invariant
            i <= tasks.entries@.len(),
            out@.len() == i,
            forall|j: int| 0 <= j < i ==> entry_ok(*tasks, j),
            forall|j: int|
                0 <= j < i ==> {
                    &&& (#[trigger] out@[j]).command@ == tasks.entries@[j].command@
                    &&& interval_of_text(tasks.entries@[j].duration@) == Ok::<u64, IntervalError>(
                        out@[j].interval_secs,
                    )
                },
        decreases tasks.entries@.len() - i,
    {
        let entry = &tasks.entries[i];
        match parse_time(entry.duration.as_str()) {
            Ok(secs) => {
                out.push(ScheduledTask { command: entry.command.clone(), interval_secs: secs });
            },
            Err(e) => {
                assert(!entry_ok(*tasks, i as int));
                return Err(ConfigError { index: i, error: e });
            },
        }
        i += 1;
    }
    Ok(out)
}

} // verus!
