use vstd::prelude::*;

verus! {

/// A fixed repeat period bound to the directory of the same name.
pub struct Bucket {
    pub name: String,
    pub interval_secs: u64,
}

/// The five buckets of folder mode, shortest period first.
pub open spec fn bucket_table() -> Seq<(Seq<char>, u64)> {
    seq![
        ("second"@, 1u64),
        ("minute"@, 60u64),
        ("hour"@, 3600u64),
        ("day"@, 86400u64),
        ("week"@, 604800u64),
    ]
}

/// The buckets of folder mode: `second`, `minute`, `hour`, `day` and `week`,
/// each with the period its name says.
pub fn buckets() -> (r: Vec<Bucket>)
    ensures
        r@.len() == bucket_table().len(),
        forall|i: int|
            0 <= i < r@.len() ==> (#[trigger] r@[i]).name@ == bucket_table()[i].0
                && r@[i].interval_secs == bucket_table()[i].1,
{
    let mut r: Vec<Bucket> = Vec::new();
    r.push(Bucket { name: String::from_str("second"), interval_secs: 1 });
    r.push(Bucket { name: String::from_str("minute"), interval_secs: 60 });
    r.push(Bucket { name: String::from_str("hour"), interval_secs: 3600 });
    r.push(Bucket { name: String::from_str("day"), interval_secs: 86400 });
    r.push(Bucket { name: String::from_str("week"), interval_secs: 604800 });
    r
}

/// What a directory walk found at one entry.
#[derive(Clone, Copy, Debug, PartialEq, Eq, Structural)]
pub enum EntryKind {
    /// A regular file: a job.
    File,
    /// A directory or another kind of entry: skipped.
    Other,
    /// The entry could not be read: logged and skipped.
    Unreadable,
}

/// The jobs of a tick among the entries a walk found: the positions of the
/// regular files, in walk order.
pub fn select_jobs(entries: &Vec<EntryKind>) -> (r: Vec<usize>)
    ensures
        forall|i: int| 0 <= i < r@.len() ==> (#[trigger] r@[i]) < entries@.len(),
        forall|i: int| 0 <= i < r@.len() ==> entries@[#[trigger] r@[i] as int] == EntryKind::File,
        forall|i: int, j: int| 0 <= i < j < r@.len() ==> r@[i] < r@[j],
        forall|k: int| 0 <= k < entries@.len() && entries@[k] == EntryKind::File ==> r@.contains(
            k as usize,
        ),
{
    let mut r: Vec<usize> = Vec::new();
    let mut k: usize = 0;
    while k < entries.len()
        invariant
            k <= entries@.len(),
            forall|i: int| 0 <= i < r@.len() ==> (#[trigger] r@[i]) < k,
            forall|i: int| 0 <= i < r@.len() ==> entries@[#[trigger] r@[i] as int] == EntryKind::File,
            forall|i: int, j: int| 0 <= i < j < r@.len() ==> r@[i] < r@[j],
            forall|m: int| 0 <= m < k && entries@[m] == EntryKind::File ==> r@.contains(m as usize),
        decreases entries@.len() - k,
    {
        if entries[k] == EntryKind::File {
            let ghost before = r@;
            r.push(k);
            assert forall|m: int| 0 <= m < k && entries@[m] == EntryKind::File implies r@.contains(
                m as usize,
            ) by {
                let i = choose|i: int| 0 <= i < before.len() && before[i] == m as usize;
                assert(r@[i] == m as usize);
            }
            assert(r@[r@.len() - 1] == k);
        }
        k += 1;
    }
    r
}

/// Which of the two places is expected to hold the base: a directory of
/// scripts, or a configuration file.
#[derive(Clone, Copy, Debug, PartialEq, Eq, Structural)]
pub enum Mode {
    Folder,
    Config,
}

/// What stands at a candidate path.
#[derive(Clone, Copy, Debug, PartialEq, Eq, Structural)]
pub enum PathKind {
    Missing,
    File,
    Dir,
}

/// Why startup stopped.
#[derive(Clone, Copy, Debug, PartialEq, Eq, Structural)]
pub enum StartupError {
    /// Neither candidate exists.
    NotFound,
    /// The chosen candidate is a file where a directory is expected, or the
    /// other way round.
    WrongKind,
}

pub open spec fn expected_kind(mode: Mode) -> PathKind {
    match mode {
        Mode::Folder => PathKind::Dir,
        Mode::Config => PathKind::File,
    }
}

/// Picks the base among two candidates tried in order: the first if it
/// exists, else the second. Returns the position of the chosen one (0 or 1),
/// or why there is none fit to use.
pub fn resolve_base(mode: Mode, first: PathKind, second: PathKind) -> (r: Result<
    usize,
    StartupError,
>)
    ensures
        first != PathKind::Missing ==> r == (if first == expected_kind(mode) {
            Ok::<usize, StartupError>(0)
        } else {
            Err(StartupError::WrongKind)
        }),
        first == PathKind::Missing ==> r == (if second == PathKind::Missing {
            Err::<usize, StartupError>(StartupError::NotFound)
        } else if second == expected_kind(mode) {
            Ok(1)
        } else {
            Err(StartupError::WrongKind)
        }),
{
    let (pick, kind) = if first != PathKind::Missing {
        (0usize, first)
    } else {
        (1usize, second)
    };
    let want = match mode {
        Mode::Folder => PathKind::Dir,
        Mode::Config => PathKind::File,
    };
    if kind == PathKind::Missing {
        Err(StartupError::NotFound)
    } else if kind == want {
        Ok(pick)
    } else {
        Err(StartupError::WrongKind)
    }
}

} // verus!
