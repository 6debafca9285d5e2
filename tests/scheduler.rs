use crond::config::{load_tasks, ConfigError, Task, Tasks};
use crond::group::{Action, Event, IntervalGroup, Phase};
use crond::interval::{parse_time, IntervalError};
use crond::outcome::{classify, outcome_record, Outcome};
use crond::source::PathKind::{Dir, File, Missing};
use crond::source::{buckets, resolve_base, select_jobs, EntryKind, Mode, StartupError};

fn task(command: &str, duration: &str) -> Task {
    Task { command: command.to_string(), duration: duration.to_string() }
}

fn is_sleep(a: &Action, secs: u64) -> bool {
    matches!(a, Action::Sleep { secs: s } if *s == secs)
}

#[test]
fn interval_with_two_fields_is_refused() {
    assert_eq!(parse_time("12:3"), Err(IntervalError::FieldCount));
}

#[test]
fn interval_with_three_fields_gives_seconds() {
    assert_eq!(parse_time("12:3:0"), Ok(12 * 3600 + 3 * 60));
}

#[test]
fn interval_fields_may_carry_a_plus_sign() {
    assert_eq!(parse_time("+1:0:0"), Ok(3600));
    assert_eq!(parse_time("1:+2:+3"), Ok(3600 + 120 + 3));
    assert_eq!(parse_time("++1:0:0"), Err(IntervalError::NotANumber));
    assert_eq!(parse_time("+:0:0"), Err(IntervalError::NotANumber));
    assert_eq!(parse_time("1+:0:0"), Err(IntervalError::NotANumber));
}

#[test]
fn interval_field_count_errors() {
    assert_eq!(parse_time(""), Err(IntervalError::FieldCount));
    assert_eq!(parse_time("1:2:3:4"), Err(IntervalError::FieldCount));
    assert_eq!(parse_time("5"), Err(IntervalError::FieldCount));
}

#[test]
fn interval_non_numeric_fields() {
    assert_eq!(parse_time("1:x:3"), Err(IntervalError::NotANumber));
    assert_eq!(parse_time("1::3"), Err(IntervalError::NotANumber));
    assert_eq!(parse_time("-1:0:0"), Err(IntervalError::NotANumber));
    assert_eq!(parse_time("1: 2:3"), Err(IntervalError::NotANumber));
}

#[test]
fn interval_exact_values() {
    assert_eq!(parse_time("0:0:0"), Ok(0));
    assert_eq!(parse_time("00:01:05"), Ok(65));
    assert_eq!(parse_time("1:90:7"), Ok(3600 + 5400 + 7));
    assert_eq!(parse_time("0:0:18446744073709551615"), Ok(u64::MAX));
}

#[test]
fn interval_too_large() {
    assert_eq!(parse_time("0:0:18446744073709551616"), Err(IntervalError::TooLarge));
    assert_eq!(parse_time("5124095576030432:0:0"), Err(IntervalError::TooLarge));
    assert_eq!(parse_time("99999999999999999999999:0:x"), Err(IntervalError::NotANumber));
}

#[test]
fn config_loads_every_task() {
    let doc = Tasks { entries: vec![task("echo a", "0:0:5"), task("echo b", "1:0:0")] };
    let out = load_tasks(&doc).ok().unwrap();
    assert_eq!(out.len(), 2);
    assert_eq!(out[0].command, "echo a");
    assert_eq!(out[0].interval_secs, 5);
    assert_eq!(out[1].command, "echo b");
    assert_eq!(out[1].interval_secs, 3600);
}

#[test]
fn config_fails_on_first_bad_interval() {
    let doc = Tasks {
        entries: vec![task("a", "0:0:1"), task("b", "12:3"), task("c", "x:0:0")],
    };
    match load_tasks(&doc) {
        Err(e) => assert_eq!(e, ConfigError { index: 1, error: IntervalError::FieldCount }),
        Ok(_) => panic!("a malformed interval must stop loading"),
    }
}

#[test]
fn config_empty_document() {
    let doc = Tasks { entries: vec![] };
    assert_eq!(load_tasks(&doc).ok().unwrap().len(), 0);
}

#[test]
fn classify_boundaries() {
    assert_eq!(classify(Some(0)), Outcome::Success);
    assert_eq!(classify(Some(1)), Outcome::Failure);
    assert_eq!(classify(Some(-1)), Outcome::Failure);
    assert_eq!(classify(Some(127)), Outcome::Failure);
    assert_eq!(classify(None), Outcome::Failure);
}

#[test]
fn idle_tick_sleeps_for_interval() {
    let mut g = IntervalGroup::new(60);
    for _ in 0..3 {
        let acts = g.handle(Event::Scanned { jobs: 0 });
        assert_eq!(acts.len(), 1);
        assert!(is_sleep(&acts[0], 60));
        assert!(!acts.iter().any(|a| matches!(a, Action::Report { .. })));
        let acts = g.handle(Event::Woke);
        assert_eq!(acts.len(), 1);
        assert!(matches!(acts[0], Action::Scan));
    }
}

#[test]
fn batch_reports_each_job_once() {
    let mut g = IntervalGroup::new(5);
    let acts = g.handle(Event::Scanned { jobs: 3 });
    assert!(matches!(acts[..], [Action::Launch { jobs: 3 }]));
    let mut seen = vec![];
    for (job, code) in [(2usize, Some(0)), (0, Some(1)), (1, None)] {
        for a in g.handle(Event::Exited { job, code }) {
            if let Action::Report { job, outcome } = a {
                seen.push((job, outcome));
            }
        }
    }
    assert_eq!(
        seen,
        vec![(2, Outcome::Success), (0, Outcome::Failure), (1, Outcome::Failure)]
    );
}

#[test]
fn sleep_waits_for_slowest_job() {
    let mut g = IntervalGroup::new(10);
    g.handle(Event::Scanned { jobs: 2 });
    // job 0 sleeps 2 units and ends first; job 1 sleeps 5 units
    let acts = g.handle(Event::Exited { job: 0, code: Some(0) });
    assert!(!acts.iter().any(|a| is_sleep(a, 10)));
    assert_eq!(g.phase(), Phase::Running);
    assert!(g.handle(Event::Woke).is_empty());
    assert!(g.handle(Event::Scanned { jobs: 4 }).is_empty());
    let acts = g.handle(Event::Exited { job: 1, code: Some(0) });
    assert_eq!(acts.len(), 2);
    assert!(is_sleep(&acts[1], 10));
    assert_eq!(g.phase(), Phase::Sleeping);
}

#[test]
fn duplicate_and_stray_exits_are_ignored() {
    let mut g = IntervalGroup::new(1);
    g.handle(Event::Scanned { jobs: 2 });
    assert_eq!(g.handle(Event::Exited { job: 0, code: Some(0) }).len(), 1);
    assert!(g.handle(Event::Exited { job: 0, code: Some(0) }).is_empty());
    assert!(g.handle(Event::Exited { job: 7, code: Some(0) }).is_empty());
    assert_eq!(g.phase(), Phase::Running);
}

#[test]
fn spawn_failure_does_not_block_batch() {
    let mut g = IntervalGroup::new(30);
    g.handle(Event::Scanned { jobs: 2 });
    let acts = g.handle(Event::SpawnFailed { job: 1 });
    assert!(matches!(acts[..], [Action::SpawnError { job: 1 }]));
    let acts = g.handle(Event::Exited { job: 0, code: Some(3) });
    assert!(matches!(acts[0], Action::Report { job: 0, outcome: Outcome::Failure }));
    assert!(is_sleep(&acts[1], 30));
    assert!(matches!(g.handle(Event::Woke)[..], [Action::Scan]));
    assert_eq!(g.interval(), 30);
}

#[test]
fn record_decodes_output() {
    let r = outcome_record("job.sh".to_string(), Some(0), b"hi\n", b"");
    assert_eq!(r.job, "job.sh");
    assert_eq!(r.outcome, Outcome::Success);
    assert_eq!(r.stdout, "hi\n");
    assert_eq!(r.stderr, "");
}

#[test]
fn record_replaces_invalid_bytes() {
    let r = outcome_record("x".to_string(), None, b"a\xffb", b"\xc3");
    assert_eq!(r.outcome, Outcome::Failure);
    assert_eq!(r.stdout, "a\u{fffd}b");
    assert_eq!(r.stderr, "\u{fffd}");
}

#[test]
fn five_buckets() {
    let b = buckets();
    let got: Vec<(String, u64)> = b.into_iter().map(|b| (b.name, b.interval_secs)).collect();
    assert_eq!(
        got,
        vec![
            ("second".to_string(), 1),
            ("minute".to_string(), 60),
            ("hour".to_string(), 3600),
            ("day".to_string(), 86400),
            ("week".to_string(), 604800),
        ]
    );
}

#[test]
fn only_regular_files_are_jobs() {
    let entries = vec![
        EntryKind::Other,
        EntryKind::File,
        EntryKind::Unreadable,
        EntryKind::File,
        EntryKind::Other,
    ];
    assert_eq!(select_jobs(&entries), vec![1, 3]);
    assert!(select_jobs(&vec![]).is_empty());
}

#[test]
fn base_resolution() {
    assert_eq!(resolve_base(Mode::Config, File, Missing), Ok(0));
    assert_eq!(resolve_base(Mode::Config, Missing, File), Ok(1));
    assert_eq!(resolve_base(Mode::Config, Missing, Missing), Err(StartupError::NotFound));
    assert_eq!(resolve_base(Mode::Config, Dir, File), Err(StartupError::WrongKind));
    assert_eq!(resolve_base(Mode::Folder, Missing, Dir), Ok(1));
    assert_eq!(resolve_base(Mode::Folder, Missing, File), Err(StartupError::WrongKind));
}
