use repo_updater::queue::{ChildEntry, Poll, RunContext, ScanError};
use repo_updater::repo::{is_git_repo, marker_path, resolve_root};
use repo_updater::report::{outcome_line, updating_line, OutputLine, Stream, UpdateOutcome};
use repo_updater::worker::{worker_count, Request, Step, WorkerEvent, WorkerState};

fn dir(path: &str) -> ChildEntry {
    ChildEntry { path: path.to_string(), is_dir: true }
}

fn file(path: &str) -> ChildEntry {
    ChildEntry { path: path.to_string(), is_dir: false }
}

struct Worker {
    state: WorkerState,
    request: Request,
}

struct Trace {
    checked: Vec<String>,
    updated: Vec<String>,
    lines: Vec<OutputLine>,
}

/// Runs `n` workers round-robin, one request each per turn, until all exit.
/// The scanner runs after `scan_after` turns, so workers may reach the
/// barrier before anything is queued.
fn drive(
    n: usize,
    listing: Result<Vec<ChildEntry>, ScanError>,
    scan_after: usize,
    repos: &[&str],
    failing: &[&str],
) -> (Trace, Result<usize, ScanError>) {
    let mut ctx = RunContext::new();
    let mut workers: Vec<Worker> = (0..n)
        .map(|_| {
            let Step { state, request, .. } = WorkerState::start();
            Worker { state, request }
        })
        .collect();
    let mut trace = Trace { checked: vec![], updated: vec![], lines: vec![] };
    let mut listing = Some(listing);
    let mut scanned = None;
    let mut turn = 0usize;
    loop {
        if turn == scan_after {
            scanned = Some(ctx.scan(listing.take().unwrap()));
        }
        turn += 1;
        let mut all_done = true;
        for w in workers.iter_mut() {
            let event = match &w.request {
                Request::Exit => continue,
                Request::Pop => WorkerEvent::Polled(ctx.pop_one()),
                Request::AwaitRelease => {
                    if !ctx.is_released() {
                        all_done = false;
                        continue;
                    }
                    WorkerEvent::Released
                }
                Request::CheckRepo(p) => {
                    trace.checked.push(p.clone());
                    WorkerEvent::RepoChecked(repos.contains(&p.as_str()))
                }
                Request::RunUpdate(p) => {
                    trace.updated.push(p.clone());
                    if failing.contains(&p.as_str()) {
                        WorkerEvent::Updated(UpdateOutcome::Failure("fatal: no remote".to_string()))
                    } else {
                        WorkerEvent::Updated(UpdateOutcome::Success)
                    }
                }
            };
            all_done = false;
            let state = std::mem::replace(&mut w.state, WorkerState::Done);
            let step = state.step(event);
            trace.lines.extend(step.lines);
            w.state = step.state;
            w.request = step.request;
        }
        if all_done && scanned.is_some() {
            break;
        }
        assert!(turn < 10_000);
    }
    (trace, scanned.unwrap())
}

fn sorted(mut v: Vec<String>) -> Vec<String> {
    v.sort();
    v
}

fn texts(lines: &[OutputLine], stream: Stream) -> Vec<String> {
    sorted(lines.iter().filter(|l| l.stream == stream).map(|l| l.text.clone()).collect())
}

#[test]
fn marker_path_joins_with_one_separator() {
    assert_eq!(marker_path("/src/app"), "/src/app/.git");
    assert_eq!(marker_path("/src/app/"), "/src/app/.git");
    assert_eq!(marker_path("app"), "app/.git");
    assert_eq!(marker_path(""), ".git");
}

#[test]
fn missing_directory_is_no_repository() {
    assert!(!is_git_repo("/this/path/does/not/exist/anywhere"));
}

#[test]
fn root_defaults_to_current_directory() {
    assert_eq!(resolve_root(Some("/srv/repos".to_string()), "/home".to_string()), "/srv/repos");
    assert_eq!(resolve_root(None, "/home".to_string()), "/home");
}

#[test]
fn worker_count_is_at_least_one() {
    assert_eq!(worker_count(Some(8)), 8);
    assert_eq!(worker_count(Some(1)), 1);
    assert_eq!(worker_count(Some(0)), 1);
    assert_eq!(worker_count(None), 1);
}

#[test]
fn report_lines_have_fixed_shape() {
    let l = updating_line("/r/a");
    assert!(l.stream == Stream::Output);
    assert_eq!(l.text, "Updating: /r/a");
    let l = outcome_line("/r/a", &UpdateOutcome::Success);
    assert!(l.stream == Stream::Output);
    assert_eq!(l.text, "Success: /r/a");
    let l = outcome_line("/r/b", &UpdateOutcome::Failure("fatal: boom\n".to_string()));
    assert!(l.stream == Stream::Error);
    assert_eq!(l.text, "Error: /r/b fatal: boom\n");
    let l = outcome_line("/r/c", &UpdateOutcome::Failure(String::new()));
    assert_eq!(l.text, "Error: /r/c ");
}

#[test]
fn pop_waits_until_barrier_opens() {
    let mut ctx = RunContext::new();
    assert!(matches!(ctx.pop_one(), Poll::Wait));
    ctx.push_all(vec!["/r/a".to_string()]);
    assert!(matches!(ctx.pop_one(), Poll::Wait));
    assert_eq!(ctx.pending_len(), 1);
    ctx.release();
    match ctx.pop_one() {
        Poll::Claimed(p) => assert_eq!(p, "/r/a"),
        _ => panic!("expected a claim"),
    }
    assert!(matches!(ctx.pop_one(), Poll::Exhausted));
    assert!(matches!(ctx.pop_one(), Poll::Exhausted));
}

#[test]
fn pop_hands_out_last_pushed_first() {
    let mut ctx = RunContext::new();
    ctx.push_all(vec!["/r/a".to_string(), "/r/b".to_string(), "/r/c".to_string()]);
    ctx.release();
    let mut got = vec![];
    while let Poll::Claimed(p) = ctx.pop_one() {
        got.push(p);
    }
    assert_eq!(got, vec!["/r/c", "/r/b", "/r/a"]);
}

#[test]
fn push_all_queues_each_path_once() {
    let mut ctx = RunContext::new();
    assert!(ctx.push_one("/r/a".to_string()));
    assert!(!ctx.push_one("/r/a".to_string()));
    ctx.push_all(vec!["/r/b".to_string(), "/r/a".to_string(), "/r/b".to_string()]);
    assert_eq!(ctx.pending_len(), 2);
    assert!(ctx.contains(&"/r/b".to_string()));
    assert!(!ctx.contains(&"/r/c".to_string()));
}

#[test]
fn scan_queues_directories_only() {
    let mut ctx = RunContext::new();
    let listing = vec![dir("/r/a"), file("/r/notes.txt"), dir("/r/b")];
    assert_eq!(ctx.scan(Ok(listing)).ok(), Some(2));
    assert!(ctx.is_released());
    assert!(ctx.contains(&"/r/a".to_string()));
    assert!(ctx.contains(&"/r/b".to_string()));
    assert!(!ctx.contains(&"/r/notes.txt".to_string()));
}

#[test]
fn unlistable_root_is_fatal_and_attempts_nothing() {
    let err = ScanError { message: "No such file or directory".to_string() };
    let (trace, scanned) = drive(4, Err(err), 2, &[], &[]);
    match scanned {
        Err(e) => assert_eq!(e.message, "No such file or directory"),
        Ok(_) => panic!("expected a fatal scan"),
    }
    assert!(trace.checked.is_empty());
    assert!(trace.updated.is_empty());
    assert!(trace.lines.is_empty());
}

#[test]
fn concurrent_claims_cover_each_path_once() {
    let mut ctx = RunContext::new();
    let paths: Vec<String> = (0..7).map(|i| format!("/r/p{}", i)).collect();
    ctx.push_all(paths.clone());
    ctx.release();
    let mut per_worker: Vec<Vec<String>> = vec![vec![]; 3];
    let mut live = true;
    while live {
        live = false;
        for w in per_worker.iter_mut() {
            if let Poll::Claimed(p) = ctx.pop_one() {
                w.push(p);
                live = true;
            }
        }
    }
    let all: Vec<String> = per_worker.concat();
    assert_eq!(all.len(), 7);
    assert_eq!(sorted(all), sorted(paths));
}

#[test]
fn every_repository_updated_once_for_any_worker_count() {
    let listing = || {
        Ok(vec![
            dir("/r/a"),
            dir("/r/b"),
            file("/r/readme"),
            dir("/r/c"),
            dir("/r/plain"),
            dir("/r/d"),
            dir("/r/e"),
        ])
    };
    let repos = ["/r/a", "/r/b", "/r/c", "/r/d", "/r/e"];
    for n in [1usize, 2, 3, 8] {
        for scan_after in [0usize, 1, 5] {
            let (trace, scanned) = drive(n, listing(), scan_after, &repos, &[]);
            assert_eq!(scanned.ok(), Some(6));
            assert_eq!(trace.checked.len(), 6);
            assert_eq!(sorted(trace.updated), vec!["/r/a", "/r/b", "/r/c", "/r/d", "/r/e"]);
        }
    }
}

#[test]
fn non_repository_is_skipped_silently() {
    let (trace, _) = drive(2, Ok(vec![dir("/r/plain")]), 0, &[], &[]);
    assert_eq!(trace.checked, vec!["/r/plain"]);
    assert!(trace.updated.is_empty());
    assert!(trace.lines.is_empty());

    let step = WorkerState::Checking("/r/plain".to_string()).step(WorkerEvent::RepoChecked(false));
    assert!(matches!(step.state, WorkerState::Drain));
    assert!(matches!(step.request, Request::Pop));
    assert!(step.lines.is_empty());
}

#[test]
fn one_failure_does_not_stop_the_others() {
    let listing = Ok(vec![dir("/r/a"), dir("/r/b"), dir("/r/c")]);
    let (trace, scanned) = drive(2, listing, 0, &["/r/a", "/r/b", "/r/c"], &["/r/b"]);
    assert!(scanned.is_ok());
    assert_eq!(
        texts(&trace.lines, Stream::Output),
        vec![
            "Success: /r/a",
            "Success: /r/c",
            "Updating: /r/a",
            "Updating: /r/b",
            "Updating: /r/c",
        ]
    );
    assert_eq!(texts(&trace.lines, Stream::Error), vec!["Error: /r/b fatal: no remote"]);
}

#[test]
fn early_worker_does_not_take_empty_queue_as_final() {
    let mut ctx = RunContext::new();
    let start = WorkerState::start();
    assert!(matches!(start.request, Request::Pop));
    let step = start.state.step(WorkerEvent::Polled(ctx.pop_one()));
    assert!(matches!(step.state, WorkerState::WaitBarrier));
    assert!(matches!(step.request, Request::AwaitRelease));
    assert!(ctx.scan(Ok(vec![dir("/r/a")])).is_ok());
    let step = step.state.step(WorkerEvent::Released);
    assert!(matches!(step.request, Request::Pop));
    let step = step.state.step(WorkerEvent::Polled(ctx.pop_one()));
    match &step.request {
        Request::CheckRepo(p) => assert_eq!(p, "/r/a"),
        _ => panic!("expected a check"),
    }
    let step = step.state.step(WorkerEvent::RepoChecked(true));
    assert_eq!(step.lines.len(), 1);
    assert_eq!(step.lines[0].text, "Updating: /r/a");
    let step = step.state.step(WorkerEvent::Updated(UpdateOutcome::Success));
    let step = step.state.step(WorkerEvent::Polled(ctx.pop_one()));
    assert!(matches!(step.state, WorkerState::Done));
    assert!(matches!(step.request, Request::Exit));
}

#[test]
fn stray_event_changes_nothing() {
    let step = WorkerState::Drain.step(WorkerEvent::RepoChecked(true));
    assert!(matches!(step.state, WorkerState::Drain));
    assert!(matches!(step.request, Request::Pop));
    assert!(step.lines.is_empty());
    let step = WorkerState::Done.step(WorkerEvent::Polled(Poll::Wait));
    assert!(matches!(step.state, WorkerState::Done));
    assert!(matches!(step.request, Request::Exit));
}
