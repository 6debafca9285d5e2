use vstd::prelude::*;
use crate::outcome::{classify, outcome_of, Outcome};

verus! {

/// Where an interval group stands in its tick.
#[derive(Clone, Copy, Debug, PartialEq, Eq, Structural)]
pub enum Phase {
    /// Waiting for the job source to report what it found.
    Scanning,
    /// A batch is out; waiting for every job of it to end.
    Running,
    /// The batch is over; waiting for the interval to pass.
    Sleeping,
}

/// What the runtime tells a group. Jobs of a batch are numbered from zero in
/// the order the job source listed them.
#[derive(Clone, Copy, Debug)]
pub enum Event {
    /// The job source found `jobs` jobs for this tick.
    Scanned { jobs: usize },
    /// Job `job` could not be started.
    SpawnFailed { job: usize },
    /// Job `job` ended with the given exit status (none if it was killed).
    Exited { job: usize, code: Option<i32> },
    /// The sleep between ticks is over.
    Woke,
}

/// What a group asks the runtime to do.
#[derive(Clone, Copy, Debug)]
pub enum Action {
    /// Ask the job source for this tick's jobs.
    Scan,
    /// Start jobs `0..jobs` together. No bound is put on `jobs`: a tick that
    /// finds many jobs starts that many processes at once, which can exhaust
    /// the machine's process or memory limits.
    Launch { jobs: usize },
    /// Record the outcome of job `job`.
    Report { job: usize, outcome: Outcome },
    /// Log that job `job` could not be started.
    SpawnError { job: usize },
    /// Sleep for `secs` seconds, then send `Woke`.
    Sleep { secs: u64 },
}

/// The abstract state of a group: its fixed period, its phase, which jobs of
/// the current batch are still out, and how many.
pub ghost struct GroupState {
    pub interval: u64,
    pub phase: Phase,
    pub running: Seq<bool>,
    pub outstanding: nat,
}

/// The number of `true` entries.
pub open spec fn count_running(s: Seq<bool>) -> nat
    decreases s.len(),
{
    if s.len() == 0 {
        0
    } else {
        count_running(s.drop_last()) + if s.last() {
            1nat
        } else {
            0nat
        }
    }
}

pub open spec fn wf_state(g: GroupState) -> bool {
    g.outstanding == count_running(g.running)
}

pub open spec fn is_running(g: GroupState, job: usize) -> bool {
    g.phase == Phase::Running && job < g.running.len() && g.running[job as int]
}

/// Job `job` is over (it ended, or never started): `a` records it, and if it
/// was the last one out, the group goes to sleep for its interval.
pub open spec fn finish_job(g: GroupState, job: usize, a: Action) -> (GroupState, Seq<Action>) {
    let g1 = GroupState {
        running: g.running.update(job as int, false),
        outstanding: (g.outstanding - 1) as nat,
        ..g
    };
    if g1.outstanding == 0 {
        (GroupState { phase: Phase::Sleeping, ..g1 }, seq![a, Action::Sleep { secs: g.interval }])
    } else {
        (g1, seq![a])
    }
}

/// One transition of a group. Events that do not fit the phase (a job that is
/// not out, a scan result outside a scan, a wake-up outside a sleep) change
/// nothing and ask for nothing.
pub open spec fn step(g: GroupState, e: Event) -> (GroupState, Seq<Action>) {
    match e {
        Event::Scanned { jobs } => if g.phase == Phase::Scanning {
            if jobs == 0 {
                (
                    GroupState {
                        phase: Phase::Sleeping,
                        running: Seq::empty(),
                        outstanding: 0,
                        ..g
                    },
                    seq![Action::Sleep { secs: g.interval }],
                )
            } else {
                (
                    GroupState {
                        phase: Phase::Running,
                        running: Seq::new(jobs as nat, |i: int| true),
                        outstanding: jobs as nat,
                        ..g
                    },
                    seq![Action::Launch { jobs }],
                )
            }
        } else {
            (g, Seq::empty())
        },
        Event::SpawnFailed { job } => if is_running(g, job) {
            finish_job(g, job, Action::SpawnError { job })
        } else {
            (g, Seq::empty())
        },
        Event::Exited { job, code } => if is_running(g, job) {
            finish_job(g, job, Action::Report { job, outcome: outcome_of(code) })
        } else {
            (g, Seq::empty())
        },
        Event::Woke => if g.phase == Phase::Sleeping {
            (GroupState { phase: Phase::Scanning, ..g }, seq![Action::Scan])
        } else {
            (g, Seq::empty())
        },
    }
}

/// The transitions of a sequence of events, and every action they ask for, in
/// order.
pub open spec fn run(g: GroupState, evs: Seq<Event>) -> (GroupState, Seq<Action>)
    decreases evs.len(),
{
    if evs.len() == 0 {
        (g, Seq::empty())
    } else {
        let (g1, a1) = step(g, evs[0]);
        let (g2, a2) = run(g1, evs.drop_first());
        (g2, a1 + a2)
    }
}

proof fn lemma_count_update(s: Seq<bool>, j: int)
    requires
        0 <= j < s.len(),
        s[j],
    ensures
        count_running(s) > 0,
        count_running(s.update(j, false)) == count_running(s) - 1,
    decreases s.len(),
{
    let t = s.update(j, false);
    if j == s.len() - 1 {
        assert(t.drop_last() =~= s.drop_last());
    } else {
        assert(t.drop_last() =~= s.drop_last().update(j, false));
        lemma_count_update(s.drop_last(), j);
    }
}

proof fn lemma_count_all(n: nat)
    ensures
        count_running(Seq::new(n, |i: int| true)) == n,
    decreases n,
{
    if n > 0 {
        assert(Seq::new(n, |i: int| true).drop_last() =~= Seq::new((n - 1) as nat, |i: int| true));
        lemma_count_all((n - 1) as nat);
    }
}

proof fn lemma_count_zero(s: Seq<bool>)
    requires
        count_running(s) == 0,
    ensures
        forall|x: int| 0 <= x < s.len() ==> !s[x],
    decreases s.len(),
{
    if s.len() > 0 {
        lemma_count_zero(s.drop_last());
        assert forall|x: int| 0 <= x < s.len() implies !s[x] by {
            if x < s.len() - 1 {
                assert(s[x] == s.drop_last()[x]);
            }
        }
    }
}

/// The exit events of a batch, job `ids[i]` ending with `codes[i]`, in order.
pub open spec fn exits(ids: Seq<usize>, codes: Seq<Option<i32>>) -> Seq<Event> {
    Seq::new(ids.len(), |i: int| Event::Exited { job: ids[i], code: codes[i] })
}

/// The outcome records for those exits, in the same order.
pub open spec fn reports(ids: Seq<usize>, codes: Seq<Option<i32>>) -> Seq<Action> {
    Seq::new(ids.len(), |i: int| Action::Report { job: ids[i], outcome: outcome_of(codes[i]) })
}

/// A tick that finds no jobs sleeps for exactly the group's interval, records
/// no outcome, and scans again when the sleep is over.
pub proof fn lemma_idle_tick(g: GroupState)
    requires
        wf_state(g),
        g.phase == Phase::Scanning,
    ensures
        step(g, Event::Scanned { jobs: 0 }).1 == seq![Action::Sleep { secs: g.interval }],
        step(g, Event::Scanned { jobs: 0 }).0.phase == Phase::Sleeping,
        step(step(g, Event::Scanned { jobs: 0 }).0, Event::Woke) == (
        GroupState { interval: g.interval, phase: Phase::Scanning, running: Seq::empty(), outstanding: 0 },
        seq![Action::Scan],
        ),
{
}

proof fn lemma_exits(g: GroupState, ids: Seq<usize>, codes: Seq<Option<i32>>)
    requires
        g.phase == Phase::Running,
        ids.len() > 0,
        codes.len() == ids.len(),
        g.outstanding == ids.len(),
        ids.no_duplicates(),
        forall|i: int| 0 <= i < ids.len() ==> #[trigger] ids[i] < g.running.len(),
        forall|x: usize| (x as int) < g.running.len() ==> (g.running[x as int] <==> ids.contains(x)),
    ensures
        run(g, exits(ids, codes)).1 == reports(ids, codes) + seq![Action::Sleep { secs: g.interval }],
        run(g, exits(ids, codes)).0.phase == Phase::Sleeping,
    decreases ids.len(),
{
    let evs = exits(ids, codes);
    let j = ids[0];
    assert(ids.contains(j));
    assert(is_running(g, j));
    let (g1, a1) = step(g, evs[0]);
    let rest_ids = ids.drop_first();
    let rest_codes = codes.drop_first();
    assert(evs.drop_first() =~= exits(rest_ids, rest_codes));
    if ids.len() == 1 {
        assert(evs.drop_first() =~= Seq::<Event>::empty());
        assert(run(g1, evs.drop_first()) == (g1, Seq::<Action>::empty()));
        assert(a1 == seq![reports(ids, codes)[0], Action::Sleep { secs: g.interval }]);
        assert(reports(ids, codes) =~= seq![reports(ids, codes)[0]]);
        assert(a1 =~= reports(ids, codes) + seq![Action::Sleep { secs: g.interval }]);
    } else {
        assert forall|i: int| 0 <= i < rest_ids.len() implies #[trigger] rest_ids[i] < g1.running.len() by {
            assert(rest_ids[i] == ids[i + 1]);
        }
        assert forall|x: usize| (x as int) < g1.running.len() implies (g1.running[x as int]
            <==> rest_ids.contains(x)) by {
            if x == j {
                if rest_ids.contains(x) {
                    let k = choose|k: int| 0 <= k < rest_ids.len() && rest_ids[k] == x;
                    assert(ids[k + 1] == ids[0]);
                }
            } else {
                assert(g1.running[x as int] == g.running[x as int]);
                if ids.contains(x) {
                    let k = choose|k: int| 0 <= k < ids.len() && ids[k] == x;
                    assert(k != 0);
                    assert(rest_ids[k - 1] == x);
                }
                if rest_ids.contains(x) {
                    let k = choose|k: int| 0 <= k < rest_ids.len() && rest_ids[k] == x;
                    assert(ids[k + 1] == x);
                }
            }
        }
        lemma_exits(g1, rest_ids, rest_codes);
        assert(reports(ids, codes) =~= seq![reports(ids, codes)[0]] + reports(rest_ids, rest_codes));
        assert(run(g, evs).1 =~= reports(ids, codes) + seq![Action::Sleep { secs: g.interval }]);
    }
}

/// A tick that finds `ids.len()` jobs, each of which then ends once (job
/// `ids[i]` with status `codes[i]`), launches them together, records exactly
/// one outcome per job in the order they ended, each under its own job, and
/// only then sleeps for the group's interval.
pub proof fn lemma_batch_reports(g: GroupState, ids: Seq<usize>, codes: Seq<Option<i32>>)
    requires
        wf_state(g),
        g.phase == Phase::Scanning,
        0 < ids.len() <= usize::MAX,
        codes.len() == ids.len(),
        ids.no_duplicates(),
        forall|i: int| 0 <= i < ids.len() ==> #[trigger] ids[i] < ids.len(),
        forall|x: usize| x < ids.len() ==> ids.contains(x),
    ensures
        run(g, seq![Event::Scanned { jobs: ids.len() as usize }] + exits(ids, codes)).1 == seq![
            Action::Launch { jobs: ids.len() as usize },
        ] + reports(ids, codes) + seq![Action::Sleep { secs: g.interval }],
        run(g, seq![Event::Scanned { jobs: ids.len() as usize }] + exits(ids, codes)).0.phase
            == Phase::Sleeping,
        forall|i: int, k: int|
            0 <= i < k < ids.len() ==> reports(ids, codes)[i]->Report_job != reports(ids, codes)[k]->Report_job,
{
    let k = ids.len() as usize;
    let evs = seq![Event::Scanned { jobs: k }] + exits(ids, codes);
    assert(evs.drop_first() =~= exits(ids, codes));
    let g1 = step(g, Event::Scanned { jobs: k }).0;
    assert forall|x: usize| (x as int) < g1.running.len() implies (g1.running[x as int]
        <==> ids.contains(x)) by {
        assert(ids.contains(x));
    }
    lemma_exits(g1, ids, codes);
    assert(run(g, evs).1 =~= seq![Action::Launch { jobs: k }] + reports(ids, codes) + seq![
        Action::Sleep { secs: g.interval },
    ]);
}

/// Within a batch, a group asks to sleep only once no job of the batch is
/// still out: the next tick never starts while a job of this one runs.
pub proof fn lemma_sleep_after_batch(g: GroupState, e: Event)
    requires
        wf_state(g),
        g.phase == Phase::Running,
    ensures
        wf_state(step(g, e).0),
        step(g, e).1.contains(Action::Sleep { secs: g.interval }) ==> {
            &&& step(g, e).0.phase == Phase::Sleeping
            &&& forall|x: int| 0 <= x < step(g, e).0.running.len() ==> !step(g, e).0.running[x]
        },
        step(g, e).0.phase == Phase::Sleeping ==> step(g, e).1.last() == (Action::Sleep { secs: g.interval }),
{
    let (g1, a) = step(g, e);
    match e {
        Event::SpawnFailed { job } => {
            if is_running(g, job) {
                lemma_count_update(g.running, job as int);
            }
        },
        Event::Exited { job, code } => {
            if is_running(g, job) {
                lemma_count_update(g.running, job as int);
            }
        },
        _ => {},
    }
    if a.contains(Action::Sleep { secs: g.interval }) {
        lemma_count_zero(g1.running);
    }
}

/// One interval group: a fixed period and the batch of the current tick.
pub struct IntervalGroup {
    interval: u64,
    phase: Phase,
    running: Vec<bool>,
    outstanding: usize,
}

impl View for IntervalGroup {
    type V = GroupState;

    closed spec fn view(&self) -> GroupState {
        GroupState {
            interval: self.interval,
            phase: self.phase,
            running: self.running@,
            outstanding: self.outstanding as nat,
        }
    }
}

impl IntervalGroup {
    pub open spec fn wf(&self) -> bool {
        wf_state(self@)
    }

    /// A group with period `interval_secs` (in seconds), about to scan for
    /// its first tick.
    pub fn new(interval_secs: u64) -> (r: IntervalGroup)
        ensures
            r.wf(),
            r@ == (GroupState {
                interval: interval_secs,
                phase: Phase::Scanning,
                running: Seq::empty(),
                outstanding: 0,
            }),
    {
        IntervalGroup { interval: interval_secs, phase: Phase::Scanning, running: Vec::new(), outstanding: 0 }
    }

    /// The group's period in seconds.
    pub fn interval(&self) -> (r: u64)
        ensures
            r == self@.interval,
    {
        self.interval
    }

    /// The group's phase.
    pub fn phase(&self) -> (r: Phase)
        ensures
            r == self@.phase,
    {
        self.phase
    }

    fn finish(&mut self, job: usize, a: Action) -> (r: Vec<Action>)
        requires
            old(self).wf(),
        ensures
            final(self).wf(),
            (final(self)@, r@) == (if is_running(old(self)@, job) {
                finish_job(old(self)@, job, a)
            } else {
                (old(self)@, Seq::empty())
            }),
    {
        if self.phase == Phase::Running && job < self.running.len() && self.running[job] {
            proof {
                lemma_count_update(self.running@, job as int);
            }
            self.running.set(job, false);
            self.outstanding = self.outstanding - 1;
            if self.outstanding == 0 {
                self.phase = Phase::Sleeping;
                vec![a, Action::Sleep { secs: self.interval }]
            } else {
                vec![a]
            }
        } else {
            Vec::new()
        }
    }

    /// Takes one event and returns the actions it calls for, in order. A scan
    /// that finds jobs launches all of them at once, with no cap on how many
    /// run together; this is a known resource risk for large batches.
    pub fn handle(&mut self, e: Event) -> (r: Vec<Action>)
        requires
            old(self).wf(),
        ensures
            final(self).wf(),
            (final(self)@, r@) == step(old(self)@, e),
    {
        match e {
            Event::Scanned { jobs } => {
                if self.phase == Phase::Scanning {
                    if jobs == 0 {
                        self.phase = Phase::Sleeping;
                        self.running = Vec::new();
                        self.outstanding = 0;
                        vec![Action::Sleep { secs: self.interval }]
                    } else {
                        let mut running: Vec<bool> = Vec::new();
                        let mut i: usize = 0;
                        while i < jobs
                            invariant
                                i <= jobs,
                                running@ =~= Seq::new(i as nat, |k: int| true),
                            decreases jobs - i,
                        {
                            running.push(true);
                            i += 1;
                        }
                        proof {
                            lemma_count_all(jobs as nat);
                        }
                        self.running = running;
                        self.outstanding = jobs;
                        self.phase = Phase::Running;
                        vec![Action::Launch { jobs }]
                    }
                } else {
                    Vec::new()
                }
            },
            Event::SpawnFailed { job } => self.finish(job, Action::SpawnError { job }),
            Event::Exited { job, code } => self.finish(
                job,
                Action::Report { job, outcome: classify(code) },
            ),
            Event::Woke => {
                if self.phase == Phase::Sleeping {
                    self.phase = Phase::Scanning;
                    vec![Action::Scan]
                } else {
                    Vec::new()
                }
            },
        }
    }
}

} // verus!
