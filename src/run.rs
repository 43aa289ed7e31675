use vstd::prelude::*;
use crate::queue::{lemma_every_repository_once, lemma_same_members_same_len, pop_spec, RunContext};
use crate::worker::{step_spec, Step, WorkerEvent, WorkerState};

verus! {

/// The path a worker owns in `s`, if any.
pub open spec fn held(s: WorkerState) -> Option<Seq<char>> {
    match s {
        WorkerState::Checking(p) => Some(p@),
        WorkerState::Updating(p) => Some(p@),
        _ => None,
    }
}

/// `event` answers the request a worker makes in `s`: a pop (or, at the
/// barrier, its opening), a repository check or an update.
pub open spec fn answers(s: WorkerState, event: WorkerEvent) -> bool {
    match s {
        WorkerState::WaitBarrier => event is Polled || event is Released,
        WorkerState::Drain => event is Polled,
        WorkerState::Checking(_) => event is RepoChecked,
        WorkerState::Updating(_) => event is Updated,
        WorkerState::Done => false,
    }
}

/// What holds at every moment of a run between one scanner and the workers
/// in `workers`, where `attempts` lists the repositories whose update a
/// worker has asked for, and `is_repo` says which paths are repositories:
/// each owned path was claimed and has one owner; each attempt is of a
/// claimed repository, and none is repeated; each claimed repository has
/// been attempted or is being checked; and a worker is done only once the
/// queue is exhausted.
pub open spec fn run_inv(
    ctx: RunContext,
    workers: Seq<WorkerState>,
    attempts: Seq<Seq<char>>,
    is_repo: spec_fn(Seq<char>) -> bool,
) -> bool {
    &&& ctx.wf()
    &&& forall|i: int|
        0 <= i < workers.len() && #[trigger] held(workers[i]) is Some ==> ctx.claimed().contains(
            held(workers[i])->0,
        )
    &&& forall|i: int, j: int|
        0 <= i < workers.len() && 0 <= j < workers.len() && i != j && #[trigger] held(
            workers[i],
        ) is Some ==> held(workers[i]) != #[trigger] held(workers[j])
    &&& attempts.no_duplicates()
    &&& forall|p: Seq<char>| #[trigger] attempts.contains(p) ==> ctx.claimed().contains(p) && is_repo(p)
    &&& forall|i: int|
        0 <= i < workers.len() && #[trigger] workers[i] is Checking ==> !attempts.contains(
            held(workers[i])->0,
        )
    &&& forall|i: int|
        0 <= i < workers.len() && #[trigger] workers[i] is Updating ==> attempts.contains(
            held(workers[i])->0,
        )
    &&& forall|p: Seq<char>|
        #[trigger] ctx.claimed().contains(p) && is_repo(p) ==> attempts.contains(p) || exists|i: int|
            0 <= i < workers.len() && #[trigger] workers[i] is Checking && held(workers[i]) == Some(p)
    &&& forall|i: int| 0 <= i < workers.len() && #[trigger] workers[i] is Done ==> ctx.exhausted()
}

/// The attempts after a worker moved from `s` by step `r`: a check that
/// found a repository adds that repository.
pub open spec fn next_attempts(s: WorkerState, r: Step, attempts: Seq<Seq<char>>) -> Seq<
    Seq<char>,
> {
    if s is Checking && r.state is Updating {
        attempts.push(held(s)->0)
    } else {
        attempts
    }
}

/// A run starts with a fresh context, every worker at the barrier and no
/// attempt made.
pub proof fn lemma_run_start(
    ctx: RunContext,
    workers: Seq<WorkerState>,
    is_repo: spec_fn(Seq<char>) -> bool,
)
    requires
        ctx.wf(),
        ctx.claimed().len() == 0,
        forall|i: int| 0 <= i < workers.len() ==> #[trigger] workers[i] is WaitBarrier,
    ensures
        run_inv(ctx, workers, Seq::empty(), is_repo),
{
    assert forall|i: int| 0 <= i < workers.len() implies #[trigger] held(workers[i]) is None by {
        assert(workers[i] is WaitBarrier);
    }
}

/// The scanner's turn keeps the run's invariant: it runs before the barrier
/// opens, when nothing has been claimed, and claims nothing.
pub proof fn lemma_scan_turn(
    ctx: RunContext,
    after: RunContext,
    workers: Seq<WorkerState>,
    attempts: Seq<Seq<char>>,
    is_repo: spec_fn(Seq<char>) -> bool,
)
    requires
        run_inv(ctx, workers, attempts, is_repo),
        !ctx.released(),
        after.wf(),
        after.claimed().len() == 0,
    ensures
        run_inv(after, workers, attempts, is_repo),
{
    assert(ctx.claimed().len() == 0);
    assert forall|i: int| 0 <= i < workers.len() implies #[trigger] held(workers[i]) is None by {
        if held(workers[i]) is Some {
            assert(ctx.claimed().contains(held(workers[i])->0));
        }
    }
    assert forall|i: int| 0 <= i < workers.len() implies !(#[trigger] workers[i] is Done) by {
        if workers[i] is Done {
            assert(ctx.exhausted());
        }
    }
    assert forall|p: Seq<char>| !(#[trigger] attempts.contains(p)) by {
        if attempts.contains(p) {
            assert(ctx.claimed().contains(p));
        }
    }
    assert forall|i: int| 0 <= i < workers.len() implies !(#[trigger] workers[i] is Updating) by {
        if workers[i] is Updating {
            assert(held(workers[i]) is Some);
        }
    }
}

/// A worker's turn keeps the run's invariant, whichever worker moves and
/// whenever: the worker carries out its request (a pop under the lock, a
/// truthful repository check, an update whatever its outcome, or the wait
/// for the barrier) and takes the step for what came back.
pub proof fn lemma_worker_turn(
    ctx: RunContext,
    after: RunContext,
    workers: Seq<WorkerState>,
    attempts: Seq<Seq<char>>,
    is_repo: spec_fn(Seq<char>) -> bool,
    w: int,
    event: WorkerEvent,
    r: Step,
)
    requires
        run_inv(ctx, workers, attempts, is_repo),
        0 <= w < workers.len(),
        answers(workers[w], event),
        step_spec(workers[w], event, r),
        event is Polled ==> after.wf() && pop_spec(ctx, after, event->Polled_0),
        !(event is Polled) ==> after == ctx,
        event is RepoChecked ==> event->RepoChecked_0 == is_repo(held(workers[w])->0),
    ensures
        run_inv(
            after,
            workers.update(w, r.state),
            next_attempts(workers[w], r, attempts),
            is_repo,
        ),
{
    let s = workers[w];
    let ws = workers.update(w, r.state);
    let at = next_attempts(s, r, attempts);
    assert(ws.len() == workers.len());
    assert forall|i: int| 0 <= i < ws.len() && i != w implies ws[i] == workers[i] by {}
    if event is Polled {
        let poll = event->Polled_0;
        if poll is Claimed {
            let p = poll->Claimed_0@;
            assert(after.claimed() == ctx.claimed().push(p));
            assert(!ctx.claimed().contains(p)) by {
                assert(after.claimed()[after.claimed().len() - 1] == p);
                if ctx.claimed().contains(p) {
                    let k = choose|k: int| 0 <= k < ctx.claimed().len() && ctx.claimed()[k] == p;
                    assert(after.claimed()[k] == p);
                }
            }
            assert(held(r.state) == Some(p));
            assert(at == attempts);
            assert forall|q: Seq<char>| #[trigger] ctx.claimed().contains(q) implies after.claimed().contains(q) by {
                let k = choose|k: int| 0 <= k < ctx.claimed().len() && ctx.claimed()[k] == q;
                assert(after.claimed()[k] == q);
            }
            assert(after.claimed().contains(p)) by {
                assert(after.claimed()[after.claimed().len() - 1] == p);
            }
            assert forall|q: Seq<char>|
                #[trigger] after.claimed().contains(q) && is_repo(q) implies at.contains(q) || exists|i: int|
                    0 <= i < ws.len() && #[trigger] ws[i] is Checking && held(ws[i]) == Some(q) by {
                if q == p {
                    assert(ws[w] is Checking && held(ws[w]) == Some(q));
                } else {
                    let k = choose|k: int| 0 <= k < after.claimed().len() && after.claimed()[k] == q;
                    assert(ctx.claimed()[k] == q);
                    assert(ctx.claimed().contains(q));
                    if !attempts.contains(q) {
                        let j = choose|j: int|
                            0 <= j < workers.len() && #[trigger] workers[j] is Checking && held(workers[j])
                                == Some(q);
                        assert(j != w);
                        assert(ws[j] == workers[j]);
                    }
                }
            }
            assert forall|i: int, j: int|
                0 <= i < ws.len() && 0 <= j < ws.len() && i != j && #[trigger] held(ws[i]) is Some
                implies held(ws[i]) != #[trigger] held(ws[j]) by {
                if i == w {
                    if held(ws[j]) is Some {
                        assert(ctx.claimed().contains(held(workers[j])->0));
                    }
                } else if j == w {
                    assert(ctx.claimed().contains(held(workers[i])->0));
                } else {
                    assert(held(workers[i]) != held(workers[j]));
                }
            }
            assert forall|i: int| 0 <= i < ws.len() && #[trigger] ws[i] is Checking implies !at.contains(held(ws[i])->0) by {
                if i == w {
                    if attempts.contains(p) {
                        assert(ctx.claimed().contains(p));
                    }
                }
            }
        } else {
            assert(after.claimed() == ctx.claimed());
            assert(at == attempts);
            assert(held(r.state) is None);
            assert forall|q: Seq<char>|
                #[trigger] after.claimed().contains(q) && is_repo(q) implies at.contains(q) || exists|i: int|
                    0 <= i < ws.len() && #[trigger] ws[i] is Checking && held(ws[i]) == Some(q) by {
                if !attempts.contains(q) {
                    let j = choose|j: int|
                        0 <= j < workers.len() && #[trigger] workers[j] is Checking && held(workers[j])
                            == Some(q);
                    assert(j != w);
                    assert(ws[j] == workers[j]);
                }
            }
            assert forall|i: int, j: int|
                0 <= i < ws.len() && 0 <= j < ws.len() && i != j && #[trigger] held(ws[i]) is Some
                implies held(ws[i]) != #[trigger] held(ws[j]) by {
                if i != w && j != w {
                    assert(held(workers[i]) != held(workers[j]));
                }
            }
        }
    } else if event is RepoChecked {
        let p = held(s)->0;
        assert(after == ctx);
        if event->RepoChecked_0 {
            assert(at == attempts.push(p));
            assert(held(ws[w]) == Some(p));
            assert(!attempts.contains(p));
            assert(at.no_duplicates()) by {
                assert forall|i: int, j: int|
                    0 <= i < at.len() && 0 <= j < at.len() && i != j implies at[i] != at[j] by {
                    if i == at.len() - 1 {
                        assert(attempts[j] == at[j]);
                    } else if j == at.len() - 1 {
                        assert(attempts[i] == at[i]);
                    } else {
                        assert(attempts[i] == at[i] && attempts[j] == at[j]);
                    }
                }
            }
            assert forall|q: Seq<char>| #[trigger] at.contains(q) implies after.claimed().contains(q) && is_repo(q) by {
                if q != p {
                    let k = choose|k: int| 0 <= k < at.len() && at[k] == q;
                    assert(attempts[k] == q);
                    assert(attempts.contains(q));
                } else {
                    assert(ctx.claimed().contains(p));
                }
            }
            assert forall|q: Seq<char>| #[trigger] attempts.contains(q) implies at.contains(q) by {
                let k = choose|k: int| 0 <= k < attempts.len() && attempts[k] == q;
                assert(at[k] == q);
            }
            assert(at.contains(p)) by {
                assert(at[at.len() - 1] == p);
            }
            assert forall|q: Seq<char>|
                #[trigger] after.claimed().contains(q) && is_repo(q) implies at.contains(q) || exists|i: int|
                    0 <= i < ws.len() && #[trigger] ws[i] is Checking && held(ws[i]) == Some(q) by {
                if !attempts.contains(q) && q != p {
                    let j = choose|j: int|
                        0 <= j < workers.len() && #[trigger] workers[j] is Checking && held(workers[j])
                            == Some(q);
                    assert(j != w);
                    assert(ws[j] == workers[j]);
                }
            }
            assert forall|i: int| 0 <= i < ws.len() && #[trigger] ws[i] is Checking implies !at.contains(held(ws[i])->0) by {
                assert(i != w);
                assert(ws[i] == workers[i]);
                let q = held(workers[i])->0;
                assert(!attempts.contains(q));
                assert(held(workers[i]) != held(workers[w]));
                if at.contains(q) {
                    let k = choose|k: int| 0 <= k < at.len() && at[k] == q;
                    if k < attempts.len() {
                        assert(attempts[k] == q);
                    }
                }
            }
            assert forall|i: int| 0 <= i < ws.len() && #[trigger] ws[i] is Updating implies at.contains(held(ws[i])->0) by {
                if i != w {
                    assert(ws[i] == workers[i]);
                    assert(attempts.contains(held(workers[i])->0));
                }
            }
        } else {
            assert(at == attempts);
            assert(!is_repo(p));
            assert forall|q: Seq<char>|
                #[trigger] after.claimed().contains(q) && is_repo(q) implies at.contains(q) || exists|i: int|
                    0 <= i < ws.len() && #[trigger] ws[i] is Checking && held(ws[i]) == Some(q) by {
                if !attempts.contains(q) {
                    let j = choose|j: int|
                        0 <= j < workers.len() && #[trigger] workers[j] is Checking && held(workers[j])
                            == Some(q);
                    assert(j != w);
                    assert(ws[j] == workers[j]);
                }
            }
        }
        assert forall|i: int, j: int|
            0 <= i < ws.len() && 0 <= j < ws.len() && i != j && #[trigger] held(ws[i]) is Some
            implies held(ws[i]) != #[trigger] held(ws[j]) by {
            assert(held(workers[i]) != held(workers[j]) || !(held(workers[i]) is Some));
        }
    } else {
        assert(after == ctx);
        assert(at == attempts);
        assert(held(r.state) is None);
        assert forall|q: Seq<char>|
            #[trigger] after.claimed().contains(q) && is_repo(q) implies at.contains(q) || exists|i: int|
                0 <= i < ws.len() && #[trigger] ws[i] is Checking && held(ws[i]) == Some(q) by {
            if !attempts.contains(q) {
                let j = choose|j: int|
                    0 <= j < workers.len() && #[trigger] workers[j] is Checking && held(workers[j])
                        == Some(q);
                assert(j != w);
                assert(ws[j] == workers[j]);
            }
        }
        assert forall|i: int, j: int|
            0 <= i < ws.len() && 0 <= j < ws.len() && i != j && #[trigger] held(ws[i]) is Some
            implies held(ws[i]) != #[trigger] held(ws[j]) by {
            if i != w && j != w {
                assert(held(workers[i]) != held(workers[j]));
            }
        }
    }
}

/// When every one of at least one worker is done, the updates asked for are
/// exactly the repositories among the pushed paths, each once: as many as
/// there are pushed repositories, whatever the number of workers and however
/// their turns and the scan interleaved.
pub proof fn lemma_run_complete(
    ctx: RunContext,
    workers: Seq<WorkerState>,
    attempts: Seq<Seq<char>>,
    is_repo: spec_fn(Seq<char>) -> bool,
)
    requires
        run_inv(ctx, workers, attempts, is_repo),
        workers.len() >= 1,
        forall|i: int| 0 <= i < workers.len() ==> #[trigger] workers[i] is Done,
    ensures
        attempts.no_duplicates(),
        forall|p: Seq<char>| attempts.contains(p) <==> (ctx.pushed().contains(p) && is_repo(p)),
        attempts.len() == ctx.pushed().filter(is_repo).len(),
{
    assert(workers[0] is Done);
    assert(ctx.exhausted());
    lemma_every_repository_once(ctx, is_repo);
    let cf = ctx.claimed().filter(is_repo);
    assert forall|p: Seq<char>| attempts.contains(p) <==> (ctx.pushed().contains(p) && is_repo(p)) by {
        if ctx.pushed().contains(p) && is_repo(p) {
            assert(ctx.claimed().contains(p));
            if !attempts.contains(p) {
                let j = choose|j: int|
                    0 <= j < workers.len() && #[trigger] workers[j] is Checking && held(workers[j])
                        == Some(p);
                assert(workers[j] is Done);
            }
        }
    }
    assert forall|p: Seq<char>| attempts.contains(p) <==> cf.contains(p) by {}
    lemma_same_members_same_len(attempts, cf);
}

} // verus!
