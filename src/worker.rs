use vstd::prelude::*;
use crate::queue::Poll;
use crate::report::{
    outcome_line,
    outcome_stream,
    outcome_text,
    updating_line,
    updating_text,
    OutputLine,
    Stream,
    UpdateOutcome,
};

verus! {

/// Where a worker stands.
pub enum WorkerState {
    /// Not yet past the barrier: an empty queue means nothing yet.
    WaitBarrier,
    /// Past the barrier, about to take the next path.
    Drain,
    /// Owns this path and asks whether it is a repository.
    Checking(String),
    /// Owns this repository and runs its update.
    Updating(String),
    /// The queue is exhausted; the worker exits.
    Done,
}

/// What the caller hands back after carrying out a request.
pub enum WorkerEvent {
    /// The answer of `RunContext::pop_one`.
    Polled(Poll),
    /// The barrier has opened.
    Released,
    /// Whether the path being checked is a repository.
    RepoChecked(bool),
    /// How the update command ended.
    Updated(UpdateOutcome),
}

/// What the worker asks the caller to do next.
pub enum Request {
    /// Call `RunContext::pop_one` under the lock.
    Pop,
    /// Block until the barrier opens, then report `Released`.
    AwaitRelease,
    /// Report whether this path is a repository.
    CheckRepo(String),
    /// Run the update command in this repository.
    RunUpdate(String),
    /// Stop: the worker is done.
    Exit,
}

/// One transition: the new state, the lines to print first, and the next
/// request.
pub struct Step {
    pub state: WorkerState,
    pub lines: Vec<OutputLine>,
    pub request: Request,
}

/// The request a worker waits on in `state`.
pub open spec fn request_of(state: WorkerState, request: Request) -> bool {
    match state {
        WorkerState::WaitBarrier => request is Pop,
        WorkerState::Drain => request is Pop,
        WorkerState::Checking(p) => request matches Request::CheckRepo(q) && q@ == p@,
        WorkerState::Updating(p) => request matches Request::RunUpdate(q) && q@ == p@,
        WorkerState::Done => request is Exit,
    }
}

/// `line` is `text` on `stream`.
pub open spec fn line_is(line: OutputLine, stream: Stream, text: Seq<char>) -> bool {
    line.stream == stream && line.text@ == text
}

/// The step of a worker that `event` moves out of `state`. The worker only
/// stops on `Exhausted`, which the queue answers only once the barrier is
/// open; `Wait` sends it back to the barrier. A path that is not a
/// repository is dropped without a word. An event that does not answer the
/// state's request changes nothing.
pub open spec fn step_spec(state: WorkerState, event: WorkerEvent, r: Step) -> bool {
    match (state, event) {
        (WorkerState::WaitBarrier, WorkerEvent::Polled(Poll::Wait))
        | (WorkerState::Drain, WorkerEvent::Polled(Poll::Wait)) => {
            r.state is WaitBarrier && r.request is AwaitRelease && r.lines@.len() == 0
        },
        (WorkerState::WaitBarrier, WorkerEvent::Released) => {
            r.state is WaitBarrier && r.request is Pop && r.lines@.len() == 0
        },
        (WorkerState::WaitBarrier, WorkerEvent::Polled(Poll::Claimed(p)))
        | (WorkerState::Drain, WorkerEvent::Polled(Poll::Claimed(p))) => {
            &&& r.state matches WorkerState::Checking(q) && q@ == p@
            &&& request_of(r.state, r.request)
            &&& r.lines@.len() == 0
        },
        (WorkerState::WaitBarrier, WorkerEvent::Polled(Poll::Exhausted))
        | (WorkerState::Drain, WorkerEvent::Polled(Poll::Exhausted)) => {
            r.state is Done && r.request is Exit && r.lines@.len() == 0
        },
        (WorkerState::Checking(_), WorkerEvent::RepoChecked(false)) => {
            r.state is Drain && r.request is Pop && r.lines@.len() == 0
        },
        (WorkerState::Checking(p), WorkerEvent::RepoChecked(true)) => {
            &&& r.state matches WorkerState::Updating(q) && q@ == p@
            &&& request_of(r.state, r.request)
            &&& r.lines@.len() == 1
            &&& line_is(r.lines@[0], Stream::Output, updating_text(p@))
        },
        (WorkerState::Updating(p), WorkerEvent::Updated(o)) => {
            &&& r.state is Drain
            &&& r.request is Pop
            &&& r.lines@.len() == 1
            &&& line_is(r.lines@[0], outcome_stream(o), outcome_text(p@, o))
        },
        _ => {
            &&& r.state == state
            &&& request_of(r.state, r.request)
            &&& r.lines@.len() == 0
        },
    }
}

impl WorkerState {
    /// The state a worker starts in, with its first request: it asks for work
    /// at once and learns from the answer whether the barrier is open.
    pub fn start() -> (r: Step)
        ensures
            r.state is WaitBarrier,
            r.request is Pop,
            r.lines@.len() == 0,
    {
        Step { state: WorkerState::WaitBarrier, lines: Vec::new(), request: Request::Pop }
    }

    /// The request this state waits on.
    pub fn request(&self) -> (r: Request)
        ensures
            request_of(*self, r),
    {
        match self {
            WorkerState::WaitBarrier => Request::Pop,
            WorkerState::Drain => Request::Pop,
            WorkerState::Checking(p) => Request::CheckRepo(p.clone()),
            WorkerState::Updating(p) => Request::RunUpdate(p.clone()),
            WorkerState::Done => Request::Exit,
        }
    }

    /// Moves a worker on by one event.
    pub fn step(self, event: WorkerEvent) -> (r: Step)
        ensures
            step_spec(self, event, r),
            r.state is Done ==> (self is Done || event matches WorkerEvent::Polled(Poll::Exhausted)),
            r.request is RunUpdate ==> (self is Updating || event matches WorkerEvent::RepoChecked(
                true,
            )),
    {
        match (self, event) {
            (WorkerState::WaitBarrier, WorkerEvent::Polled(Poll::Wait))
            | (WorkerState::Drain, WorkerEvent::Polled(Poll::Wait)) => Step {
                state: WorkerState::WaitBarrier,
                lines: Vec::new(),
                request: Request::AwaitRelease,
            },
            (WorkerState::WaitBarrier, WorkerEvent::Released) => Step {
                state: WorkerState::WaitBarrier,
                lines: Vec::new(),
                request: Request::Pop,
            },
            (WorkerState::WaitBarrier, WorkerEvent::Polled(Poll::Claimed(p)))
            | (WorkerState::Drain, WorkerEvent::Polled(Poll::Claimed(p))) => {
                let request = Request::CheckRepo(p.clone());
                Step { state: WorkerState::Checking(p), lines: Vec::new(), request }
            },
            (WorkerState::WaitBarrier, WorkerEvent::Polled(Poll::Exhausted))
            | (WorkerState::Drain, WorkerEvent::Polled(Poll::Exhausted)) => Step {
                state: WorkerState::Done,
                lines: Vec::new(),
                request: Request::Exit,
            },
            (WorkerState::Checking(_), WorkerEvent::RepoChecked(false)) => Step {
                state: WorkerState::Drain,
                lines: Vec::new(),
                request: Request::Pop,
            },
            (WorkerState::Checking(p), WorkerEvent::RepoChecked(true)) => {
                let mut lines: Vec<OutputLine> = Vec::new();
                lines.push(updating_line(p.as_str()));
                let request = Request::RunUpdate(p.clone());
                Step { state: WorkerState::Updating(p), lines, request }
            },
            (WorkerState::Updating(p), WorkerEvent::Updated(o)) => {
                let mut lines: Vec<OutputLine> = Vec::new();
                lines.push(outcome_line(p.as_str(), &o));
                Step { state: WorkerState::Drain, lines, request: Request::Pop }
            },
            (state, _) => {
                let request = state.request();
                Step { state, lines: Vec::new(), request }
            },
        }
    }
}

/// How many workers to run: the detected hardware parallelism, or one where
/// it could not be detected.
pub fn worker_count(detected: Option<usize>) -> (r: usize)
    ensures
        r >= 1,
        detected is Some && detected->0 >= 1 ==> r == detected->0,
        detected is None ==> r == 1,
{
    match detected {
        Some(n) => if n >= 1 {
            n
        } else {
            1
        },
        None => 1,
    }
}

} // verus!
