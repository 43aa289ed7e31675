use vstd::prelude::*;

verus! {

/// The text of each path in `v`, in order.
pub open spec fn paths_of(v: Seq<String>) -> Seq<Seq<char>> {
    v.map_values(|s: String| s@)
}

/// `a` and `b` have no path in common.
pub open spec fn disjoint(a: Seq<Seq<char>>, b: Seq<Seq<char>>) -> bool {
    forall|p: Seq<char>| a.contains(p) ==> !b.contains(p)
}

/// What a worker learns from one attempt to take work.
pub enum Poll {
    /// The scan has not finished: the queue may still grow, so an empty
    /// queue means nothing yet.
    Wait,
    /// This path now belongs to the caller, and to no one else.
    Claimed(String),
    /// The scan has finished and nothing is left: the caller is done.
    Exhausted,
}

/// What one `pop_one` does: before the barrier opens it answers `Wait`;
/// after, it hands out the most recently queued path, or answers `Exhausted`
/// once none is left. Only a handed-out path leaves the queue, and it joins
/// the claimed paths.
pub open spec fn pop_spec(before: RunContext, after: RunContext, r: Poll) -> bool {
    &&& after.released() == before.released()
    &&& after.pushed() == before.pushed()
    &&& !before.released() ==> r is Wait
    &&& r is Exhausted <==> before.exhausted()
    &&& r is Wait || r is Exhausted ==> after.pending() == before.pending() && after.claimed()
        == before.claimed()
    &&& before.released() && before.pending().len() > 0 ==> {
        &&& r is Claimed
        &&& r->Claimed_0@ == before.pending().last()
        &&& after.pending() == before.pending().drop_last()
        &&& after.claimed() == before.claimed().push(r->Claimed_0@)
    }
}

/// One directory found directly under the root.
pub struct ChildEntry {
    pub path: String,
    pub is_dir: bool,
}

/// Why the root could not be listed.
pub struct ScanError {
    pub message: String,
}

/// The paths of the entries that are directories, in listing order.
pub open spec fn dir_paths(entries: Seq<ChildEntry>) -> Seq<Seq<char>>
    decreases entries.len(),
{
    if entries.len() == 0 {
        Seq::empty()
    } else {
        let rest = dir_paths(entries.drop_last());
        if entries.last().is_dir {
            rest.push(entries.last().path@)
        } else {
            rest
        }
    }
}

/// Keeps the entries of a listing that are directories; files and other
/// entries are dropped.
pub fn select_dirs(entries: Vec<ChildEntry>) -> (r: Vec<String>)
    ensures
        paths_of(r@) == dir_paths(entries@),
{
    let mut r: Vec<String> = Vec::new();
    let mut i: usize = 0;
    while i < entries.len()
        invariant
            i <= entries@.len(),
            paths_of(r@) == dir_paths(entries@.subrange(0, i as int)),
        decreases entries@.len() - i,
    {
        let ghost before = r@;
        if entries[i].is_dir {
            r.push(entries[i].path.clone());
            assert(paths_of(r@) =~= paths_of(before).push(entries@[i as int].path@));
        }
        assert(entries@.subrange(0, i + 1).drop_last() =~= entries@.subrange(0, i as int));
        i = i + 1;
    }
    assert(entries@.subrange(0, entries@.len() as int) =~= entries@);
    r
}

/// The shared state of one run: the queue of pending directories and the
/// one-shot barrier that tells workers the scan is over.
///
/// All access goes through one lock held by the caller; each method is then
/// one atomic step. Two ghost logs record every path ever pushed and every
/// path handed to a worker, in order.
pub struct RunContext {
    pending: Vec<String>,
    released: bool,
    pushed: Ghost<Seq<Seq<char>>>,
    claimed: Ghost<Seq<Seq<char>>>,
}

impl RunContext {
    /// The paths waiting to be claimed.
    pub closed spec fn pending(&self) -> Seq<Seq<char>> {
        paths_of(self.pending@)
    }

    /// Whether the barrier has opened.
    pub closed spec fn released(&self) -> bool {
        self.released
    }

    /// Every path pushed so far, in order.
    pub closed spec fn pushed(&self) -> Seq<Seq<char>> {
        self.pushed@
    }

    /// Every path handed out by `pop_one` so far, in order.
    pub closed spec fn claimed(&self) -> Seq<Seq<char>> {
        self.claimed@
    }

    /// The barrier is open and nothing is left: every worker may stop.
    pub open spec fn exhausted(&self) -> bool {
        self.released() && self.pending().len() == 0
    }

    /// No path is queued twice, none is both queued and claimed, and what
    /// was pushed is exactly what is queued or claimed. Nothing is claimed
    /// before the barrier opens.
    pub open spec fn wf(&self) -> bool {
        &&& self.pending().no_duplicates()
        &&& self.claimed().no_duplicates()
        &&& self.pushed().no_duplicates()
        &&& disjoint(self.pending(), self.claimed())
        &&& forall|p: Seq<char>|
            self.pushed().contains(p) <==> (self.pending().contains(p) || self.claimed().contains(
                p,
            ))
        &&& self.pushed().len() == self.pending().len() + self.claimed().len()
        &&& !self.released() ==> self.claimed().len() == 0
    }

    /// A context with an empty queue and a closed barrier.
    pub fn new() -> (r: RunContext)
        ensures
            r.wf(),
            r.pending() == Seq::<Seq<char>>::empty(),
            r.pushed() == Seq::<Seq<char>>::empty(),
            r.claimed() == Seq::<Seq<char>>::empty(),
            !r.released(),
    {
        let r = RunContext {
            pending: Vec::new(),
            released: false,
            pushed: Ghost(Seq::empty()),
            claimed: Ghost(Seq::empty()),
        };
        assert(r.pending() =~= Seq::<Seq<char>>::empty());
        r
    }

    /// Whether the barrier has opened.
    pub fn is_released(&self) -> (r: bool)
        ensures
            r == self.released(),
    {
        self.released
    }

    /// The number of paths waiting to be claimed.
    pub fn pending_len(&self) -> (r: usize)
        ensures
            r == self.pending().len(),
    {
        self.pending.len()
    }

    /// Whether `path` is waiting in the queue.
    pub fn contains(&self, path: &String) -> (r: bool)
        ensures
            r == self.pending().contains(path@),
    {
        let mut i: usize = 0;
        while i < self.pending.len()
            invariant
                i <= self.pending@.len(),
                forall|j: int| 0 <= j < i ==> self.pending()[j] != path@,
            decreases self.pending@.len() - i,
        {
            if self.pending[i] == *path {
                assert(self.pending()[i as int] == path@);
                return true;
            }
            i = i + 1;
        }
        false
    }

    /// Adds `path` to the queue unless it is already there; returns whether
    /// it was added. Only the scanner pushes, before the barrier opens.
    pub fn push_one(&mut self, path: String) -> (added: bool)
        requires
            old(self).wf(),
            !old(self).released(),
        ensures
            final(self).wf(),
            !final(self).released(),
            final(self).claimed() == old(self).claimed(),
            added == !old(self).pending().contains(path@),
            added ==> final(self).pending() == old(self).pending().push(path@),
            added ==> final(self).pushed() == old(self).pushed().push(path@),
            !added ==> final(self).pending() == old(self).pending(),
            !added ==> final(self).pushed() == old(self).pushed(),
    {
        if self.contains(&path) {
            return false;
        }
        let ghost p = path@;
        self.pending.push(path);
        self.pushed = Ghost(self.pushed@.push(p));
        assert(self.pending() =~= old(self).pending().push(p));
        assert forall|q: Seq<char>|
            self.pushed().contains(q) <==> (self.pending().contains(q) || self.claimed().contains(
                q,
            )) by {
            if q == p {
                assert(self.pending()[self.pending().len() - 1] == p);
                assert(self.pushed()[self.pushed().len() - 1] == p);
            }
            if old(self).pushed().contains(q) {
                let k = choose|k: int| 0 <= k < old(self).pushed().len() && old(self).pushed()[k] == q;
                assert(self.pushed()[k] == q);
            }
            if old(self).pending().contains(q) {
                let k = choose|k: int| 0 <= k < old(self).pending().len() && old(self).pending()[k] == q;
                assert(self.pending()[k] == q);
            }
        }
        true
    }

    /// Adds each of `paths` that is not queued yet, in order. Where the paths
    /// are distinct and none is queued, the queue grows by exactly them.
    pub fn push_all(&mut self, paths: Vec<String>)
        requires
            old(self).wf(),
            !old(self).released(),
        ensures
            final(self).wf(),
            !final(self).released(),
            final(self).claimed() == old(self).claimed(),
            forall|p: Seq<char>|
                final(self).pending().contains(p) <==> (old(self).pending().contains(p)
                    || paths_of(paths@).contains(p)),
            paths_of(paths@).no_duplicates() && disjoint(paths_of(paths@), old(self).pending())
                ==> final(self).pending() == old(self).pending() + paths_of(paths@),
    {
        let ghost exact = paths_of(paths@).no_duplicates() && disjoint(
            paths_of(paths@),
            old(self).pending(),
        );
        let ghost all = paths_of(paths@);
        let ghost orig = old(self).pending();
        let mut i: usize = 0;
        while i < paths.len()
            invariant
                i <= paths@.len(),
                all == paths_of(paths@),
                self.wf(),
                !self.released(),
                self.claimed() == old(self).claimed(),
                orig == old(self).pending(),
                forall|p: Seq<char>|
                    #![trigger self.pending().contains(p)]
                    #![trigger all.subrange(0, i as int).contains(p)]
                    self.pending().contains(p) <==> (orig.contains(p) || all.subrange(
                        0,
                        i as int,
                    ).contains(p)),
                exact ==> self.pending() == orig + all.subrange(0, i as int),
                exact ==> all.no_duplicates() && disjoint(all, orig),
            decreases paths@.len() - i,
        {
            let path = paths[i].clone();
            let ghost before = self.pending();
            assert(all[i as int] == path@);
            assert(all.subrange(0, i + 1) =~= all.subrange(0, i as int).push(path@));
            assert(exact ==> !before.contains(path@)) by {
                if exact {
                    if before.contains(path@) {
                        let k = choose|k: int| 0 <= k < before.len() && before[k] == path@;
                        if k < old(self).pending().len() {
                            assert(old(self).pending()[k] == path@);
                        } else {
                            assert(all[k - old(self).pending().len()] == path@);
                        }
                    }
                }
            }
            self.push_one(path);
            let ghost s0 = all.subrange(0, i as int);
            let ghost s1 = all.subrange(0, i + 1);
            assert forall|p: Seq<char>|
                self.pending().contains(p) <==> (orig.contains(p) || s1.contains(p)) by {
                if s1.contains(p) && p != path@ {
                    let k = choose|k: int| 0 <= k < s1.len() && s1[k] == p;
                    assert(s0[k] == p);
                }
                if self.pending().contains(p) && p != path@ {
                    let k = choose|k: int| 0 <= k < self.pending().len() && self.pending()[k] == p;
                    assert(before[k] == p);
                }
                if before.contains(p) {
                    let k = choose|k: int| 0 <= k < before.len() && before[k] == p;
                    assert(self.pending()[k] == p);
                }
                if p == path@ && !before.contains(p) {
                    assert(self.pending()[before.len() as int] == p);
                }
                if s0.contains(p) {
                    let k = choose|k: int| 0 <= k < s0.len() && s0[k] == p;
                    assert(s1[k] == p);
                }
                if p == path@ {
                    assert(s1[i as int] == p);
                }
            }
            i = i + 1;
            assert(all.subrange(0, i as int) == s1);
        }
        assert(all.subrange(0, paths@.len() as int) =~= all);
    }

    /// Opens the barrier. After this no path is pushed, and an empty queue
    /// means the work is over.
    pub fn release(&mut self)
        requires
            old(self).wf(),
        ensures
            final(self).wf(),
            final(self).released(),
            final(self).pending() == old(self).pending(),
            final(self).pushed() == old(self).pushed(),
            final(self).claimed() == old(self).claimed(),
    {
        self.released = true;
    }

    /// The scanner's whole task, run once: takes the listing of the root (or
    /// the error that listing it gave), queues the directories in it and opens
    /// the barrier. The barrier opens on the fatal path too, so that waiting
    /// workers find an empty queue and stop without attempting anything.
    /// Returns how many paths were queued.
    pub fn scan(&mut self, listing: Result<Vec<ChildEntry>, ScanError>) -> (r: Result<
        usize,
        ScanError,
    >)
        requires
            old(self).wf(),
            !old(self).released(),
            old(self).pushed().len() == 0,
        ensures
            final(self).wf(),
            final(self).released(),
            final(self).claimed().len() == 0,
            r is Ok <==> listing is Ok,
            listing is Err ==> r == Err::<usize, ScanError>(listing->Err_0) && final(self).pushed().len() == 0
                && final(self).exhausted(),
            listing is Ok ==> {
                let dirs = dir_paths(listing->Ok_0@);
                &&& forall|p: Seq<char>| final(self).pending().contains(p) <==> dirs.contains(p)
                &&& dirs.no_duplicates() ==> final(self).pending() == dirs
                &&& r->Ok_0 == final(self).pending().len()
            },
    {
        match listing {
            Ok(entries) => {
                let dirs = select_dirs(entries);
                assert(self.pending() =~= Seq::<Seq<char>>::empty());
                assert(Seq::<Seq<char>>::empty() + paths_of(dirs@) =~= paths_of(dirs@));
                self.push_all(dirs);
                self.release();
                Ok(self.pending.len())
            },
            Err(e) => {
                assert(self.pending().len() == 0);
                self.release();
                Err(e)
            },
        }
    }

    /// Takes one path from the queue for the calling worker. Before the
    /// barrier opens the answer is `Wait`, whatever the queue holds; after
    /// it, the most recently queued path is handed out, or `Exhausted` once
    /// none is left. A path handed out was never handed out before.
    pub fn pop_one(&mut self) -> (r: Poll)
        requires
            old(self).wf(),
        ensures
            final(self).wf(),
            pop_spec(*old(self), *final(self), r),
            r is Claimed ==> old(self).pushed().contains(r->Claimed_0@) && !old(
                self,
            ).claimed().contains(r->Claimed_0@),
    {
        if !self.released {
            return Poll::Wait;
        }
        match self.pending.pop() {
            None => Poll::Exhausted,
            Some(path) => {
                let ghost old_pending = old(self).pending();
                let ghost p = path@;
                assert(old_pending.last() == p);
                assert(self.pending() =~= old_pending.drop_last());
                self.claimed = Ghost(self.claimed@.push(p));
                assert(old_pending.contains(p));
                assert forall|q: Seq<char>|
                    self.pushed().contains(q) <==> (self.pending().contains(q)
                        || self.claimed().contains(q)) by {
                    if old_pending.contains(q) && q != p {
                        let k = choose|k: int| 0 <= k < old_pending.len() && old_pending[k] == q;
                        assert(k != old_pending.len() - 1);
                        assert(self.pending()[k] == q);
                    }
                    if old(self).claimed().contains(q) {
                        let k = choose|k: int|
                            0 <= k < old(self).claimed().len() && old(self).claimed()[k] == q;
                        assert(self.claimed()[k] == q);
                    }
                    if self.claimed().contains(q) && q != p {
                        let k = choose|k: int| 0 <= k < self.claimed().len() && self.claimed()[k] == q;
                        assert(k != self.claimed().len() - 1);
                        assert(old(self).claimed()[k] == q);
                    }
                    if self.pending().contains(q) {
                        let k = choose|k: int| 0 <= k < self.pending().len() && self.pending()[k] == q;
                        assert(old_pending[k] == q);
                    }
                    if q == p {
                        assert(self.claimed()[self.claimed().len() - 1] == p);
                    }
                }
                assert forall|q: Seq<char>| self.pending().contains(q) implies !self.claimed().contains(q) by {
                    let k = choose|k: int| 0 <= k < self.pending().len() && self.pending()[k] == q;
                    assert(old_pending[k] == q);
                    if self.claimed().contains(q) {
                        let j = choose|j: int| 0 <= j < self.claimed().len() && self.claimed()[j] == q;
                        if j < old(self).claimed().len() {
                            assert(old(self).claimed()[j] == q);
                        } else {
                            assert(old_pending[old_pending.len() - 1] == q);
                        }
                    }
                }
                assert forall|i: int, j: int|
                    0 <= i < self.claimed().len() && 0 <= j < self.claimed().len() && i != j
                    implies self.claimed()[i] != self.claimed()[j] by {
                    if i == self.claimed().len() - 1 {
                        assert(old(self).claimed()[j] == self.claimed()[j]);
                        assert(old(self).claimed().contains(self.claimed()[j]));
                        assert(!old(self).claimed().contains(p));
                    } else if j == self.claimed().len() - 1 {
                        assert(old(self).claimed()[i] == self.claimed()[i]);
                        assert(old(self).claimed().contains(self.claimed()[i]));
                        assert(!old(self).claimed().contains(p));
                    }
                }
                Poll::Claimed(path)
            },
        }
    }
}

/// Filtering keeps a sequence free of duplicates.
proof fn lemma_filter_no_duplicates(s: Seq<Seq<char>>, pred: spec_fn(Seq<char>) -> bool)
    requires
        s.no_duplicates(),
    ensures
        s.filter(pred).no_duplicates(),
    decreases s.len(),
{
    reveal(Seq::filter);
    if s.len() > 0 {
        let rest = s.drop_last();
        assert(rest.no_duplicates()) by {
            assert forall|i: int, j: int|
                0 <= i < rest.len() && 0 <= j < rest.len() && i != j implies rest[i] != rest[j] by {
                assert(rest[i] == s[i] && rest[j] == s[j]);
            }
        }
        lemma_filter_no_duplicates(rest, pred);
        if pred(s.last()) {
            assert(!rest.filter(pred).contains(s.last())) by {
                if rest.filter(pred).contains(s.last()) {
                    rest.lemma_filter_contains_rev(pred, s.last());
                    let k = choose|k: int| 0 <= k < rest.len() && rest[k] == s.last();
                    assert(s[k] == s[s.len() - 1]);
                }
            }
            let f = s.filter(pred);
            assert forall|i: int, j: int|
                0 <= i < f.len() && 0 <= j < f.len() && i != j implies f[i] != f[j] by {
                if i == f.len() - 1 {
                    assert(rest.filter(pred)[j] == f[j]);
                } else if j == f.len() - 1 {
                    assert(rest.filter(pred)[i] == f[i]);
                } else {
                    assert(rest.filter(pred)[i] == f[i] && rest.filter(pred)[j] == f[j]);
                }
            }
        }
    }
}

/// Two duplicate-free sequences with the same members have the same length.
pub(crate) proof fn lemma_same_members_same_len(a: Seq<Seq<char>>, b: Seq<Seq<char>>)
    requires
        a.no_duplicates(),
        b.no_duplicates(),
        forall|p: Seq<char>| a.contains(p) <==> b.contains(p),
    ensures
        a.len() == b.len(),
{
    a.unique_seq_to_set();
    b.unique_seq_to_set();
    assert(a.to_set() =~= b.to_set());
}

/// Once a run is over (barrier open, queue empty), the paths handed to
/// workers are exactly the paths pushed, each handed out once: none twice,
/// none left behind.
pub proof fn lemma_claims_exactly_once(ctx: RunContext)
    requires
        ctx.wf(),
        ctx.exhausted(),
    ensures
        ctx.claimed().no_duplicates(),
        forall|p: Seq<char>| ctx.claimed().contains(p) <==> ctx.pushed().contains(p),
        ctx.claimed().len() == ctx.pushed().len(),
{
}

/// Once a run is over, the repositories among the claimed paths, which are
/// the paths a worker goes on to update, are exactly the repositories among
/// the pushed paths, each once. How many update attempts there are depends
/// only on what was pushed, not on how many workers took part or when the
/// barrier opened.
pub proof fn lemma_every_repository_once(ctx: RunContext, is_repo: spec_fn(Seq<char>) -> bool)
    requires
        ctx.wf(),
        ctx.exhausted(),
    ensures
        ctx.claimed().filter(is_repo).no_duplicates(),
        forall|p: Seq<char>|
            ctx.claimed().filter(is_repo).contains(p) <==> (ctx.pushed().contains(p) && is_repo(
                p,
            )),
        ctx.claimed().filter(is_repo).len() == ctx.pushed().filter(is_repo).len(),
{
    broadcast use vstd::seq_lib::group_filter_ensures;

    let c = ctx.claimed();
    let q = ctx.pushed();
    lemma_filter_no_duplicates(c, is_repo);
    lemma_filter_no_duplicates(q, is_repo);
    assert forall|p: Seq<char>| c.filter(is_repo).contains(p) <==> (q.contains(p) && is_repo(p)) by {
        if c.filter(is_repo).contains(p) {
            c.lemma_filter_contains_rev(is_repo, p);
            let k = choose|k: int| 0 <= k < c.filter(is_repo).len() && c.filter(is_repo)[k] == p;
            assert(is_repo(c.filter(is_repo)[k]));
        }
        if q.contains(p) && is_repo(p) {
            let k = choose|k: int| 0 <= k < c.len() && c[k] == p;
            assert(c.filter(is_repo).contains(c[k]));
        }
    }
    assert forall|p: Seq<char>| q.filter(is_repo).contains(p) <==> (q.contains(p) && is_repo(p)) by {
        if q.filter(is_repo).contains(p) {
            q.lemma_filter_contains_rev(is_repo, p);
            let k = choose|k: int| 0 <= k < q.filter(is_repo).len() && q.filter(is_repo)[k] == p;
            assert(is_repo(q.filter(is_repo)[k]));
        }
        if q.contains(p) && is_repo(p) {
            let k = choose|k: int| 0 <= k < q.len() && q[k] == p;
            assert(q.filter(is_repo).contains(q[k]));
        }
    }
    let cf = c.filter(is_repo);
    let qf = q.filter(is_repo);
    assert forall|p: Seq<char>| cf.contains(p) <==> qf.contains(p) by {
        assert(cf.contains(p) <==> (q.contains(p) && is_repo(p)));
        assert(qf.contains(p) <==> (q.contains(p) && is_repo(p)));
    }
    lemma_same_members_same_len(cf, qf);
}

/// A run whose scan failed pushed nothing, so once its barrier opens the
/// queue is exhausted and nothing has been, or will be, handed out.
pub proof fn lemma_failed_scan_claims_nothing(ctx: RunContext)
    requires
        ctx.wf(),
        ctx.released(),
        ctx.pushed().len() == 0,
    ensures
        ctx.exhausted(),
        ctx.claimed().len() == 0,
{
}

} // verus!
