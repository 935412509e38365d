use vstd::prelude::*;
use crate::error::Error;
use crate::source::{Source, reversed, work_accepts};
use crate::work::Work;

verus! {

/// What the driver of a bounded concurrent pipeline does next.
#[derive(PartialEq, Eq, Structural, Clone, Copy, Debug)]
pub enum Action {
    /// Pull one item from the source and start its stage.
    Pull,
    /// Wait for one of the running stages to finish and yield its output.
    Wait,
    /// The source is exhausted and nothing is running.
    Finish,
}

/// The decisions of a bounded concurrent pipeline: at most `limit` stages
/// run at once, the source is pulled only while there is room, and the run
/// ends once the source is exhausted and every started stage has finished.
/// Outputs are yielded in the order the stages finish.
#[derive(Debug)]
pub struct Scheduler {
    limit: usize,
    running: usize,
    started: u64,
    finished: u64,
    exhausted: bool,
}

impl Scheduler {
    pub closed spec fn limit_spec(&self) -> nat {
        self.limit as nat
    }

    pub closed spec fn running_spec(&self) -> nat {
        self.running as nat
    }

    pub closed spec fn started_spec(&self) -> nat {
        self.started as nat
    }

    pub closed spec fn finished_spec(&self) -> nat {
        self.finished as nat
    }

    pub closed spec fn exhausted_spec(&self) -> bool {
        self.exhausted
    }

    pub open spec fn wf(&self) -> bool {
        &&& self.limit_spec() > 0
        &&& self.running_spec() <= self.limit_spec()
        &&& self.finished_spec() + self.running_spec() == self.started_spec()
    }

    pub open spec fn action_spec(&self) -> Action {
        if !self.exhausted_spec() && self.running_spec() < self.limit_spec() {
            Action::Pull
        } else if self.running_spec() > 0 {
            Action::Wait
        } else {
            Action::Finish
        }
    }

    /// A bound on the steps left, given how many items the source still
    /// holds: every step lowers it, and it is zero only once the run is over.
    pub open spec fn steps_left(&self, remaining: nat) -> nat {
        2 * remaining + self.running_spec() + if self.exhausted_spec() { 0nat } else { 1nat }
    }

    /// The state after a pull that got an item (`got`) or found the end.
    pub closed spec fn after_pull(&self, got: bool) -> Scheduler {
        if got {
            Scheduler {
                limit: self.limit,
                running: (self.running + 1) as usize,
                started: (self.started + 1) as u64,
                finished: self.finished,
                exhausted: self.exhausted,
            }
        } else {
            Scheduler {
                limit: self.limit,
                running: self.running,
                started: self.started,
                finished: self.finished,
                exhausted: true,
            }
        }
    }

    /// The state after a running stage finished.
    pub closed spec fn after_completion(&self) -> Scheduler {
        Scheduler {
            limit: self.limit,
            running: (self.running - 1) as usize,
            started: self.started,
            finished: (self.finished + 1) as u64,
            exhausted: self.exhausted,
        }
    }

    pub fn new(limit: usize) -> (r: Scheduler)
        requires
            limit > 0,
        ensures
            r.wf(),
            r.limit_spec() == limit,
            r.running_spec() == 0,
            r.started_spec() == 0,
            !r.exhausted_spec(),
    {
        Scheduler { limit, running: 0, started: 0, finished: 0, exhausted: false }
    }

    pub fn limit(&self) -> (r: usize)
        ensures
            r == self.limit_spec(),
    {
        self.limit
    }

    pub fn in_flight(&self) -> (r: usize)
        ensures
            r == self.running_spec(),
    {
        self.running
    }

    pub fn started(&self) -> (r: u64)
        ensures
            r == self.started_spec(),
    {
        self.started
    }

    pub fn finished(&self) -> (r: u64)
        ensures
            r == self.finished_spec(),
    {
        self.finished
    }

    pub fn next_action(&self) -> (r: Action)
        requires
            self.wf(),
        ensures
            r == self.action_spec(),
    {
        if !self.exhausted && self.running < self.limit {
            Action::Pull
        } else if self.running > 0 {
            Action::Wait
        } else {
            Action::Finish
        }
    }

    /// Records the outcome of a pull: a new item (its stage now runs) or the
    /// end of the source.
    pub fn on_pulled(&mut self, got_item: bool)
        requires
            old(self).wf(),
            old(self).action_spec() == Action::Pull,
            old(self).started_spec() < u64::MAX,
        ensures
            *final(self) == old(self).after_pull(got_item),
            final(self).wf(),
            final(self).limit_spec() == old(self).limit_spec(),
            final(self).finished_spec() == old(self).finished_spec(),
            got_item ==> final(self).running_spec() == old(self).running_spec() + 1
                && final(self).started_spec() == old(self).started_spec() + 1
                && final(self).exhausted_spec() == old(self).exhausted_spec(),
            !got_item ==> final(self).running_spec() == old(self).running_spec()
                && final(self).started_spec() == old(self).started_spec()
                && final(self).exhausted_spec(),
    {
        if got_item {
            self.running = self.running + 1;
            self.started = self.started + 1;
        } else {
            self.exhausted = true;
        }
    }

    /// Records that one running stage has finished and its output was
    /// yielded.
    pub fn on_completed(&mut self)
        requires
            old(self).wf(),
            old(self).running_spec() > 0,
        ensures
            *final(self) == old(self).after_completion(),
            final(self).wf(),
            final(self).limit_spec() == old(self).limit_spec(),
            final(self).running_spec() == old(self).running_spec() - 1,
            final(self).started_spec() == old(self).started_spec(),
            final(self).finished_spec() == old(self).finished_spec() + 1,
            final(self).exhausted_spec() == old(self).exhausted_spec(),
    {
        self.running = self.running - 1;
        self.finished = self.finished + 1;
    }
}

/// One step of a driver that follows the scheduler, over a source that
/// still holds `remaining` items: a pull gets an item while there is one,
/// a wait sees one stage finish.
pub open spec fn drive_step(s: Scheduler, remaining: nat) -> (Scheduler, nat) {
    match s.action_spec() {
        Action::Pull => if remaining > 0 {
            (s.after_pull(true), (remaining - 1) as nat)
        } else {
            (s.after_pull(false), 0nat)
        },
        Action::Wait => (s.after_completion(), remaining),
        Action::Finish => (s, remaining),
    }
}

/// The state after `n` such steps.
pub open spec fn drive(s: Scheduler, remaining: nat, n: nat) -> (Scheduler, nat)
    decreases n,
{
    if n == 0 {
        (s, remaining)
    } else {
        let (t, r) = drive_step(s, remaining);
        drive(t, r, (n - 1) as nat)
    }
}

/// The states that one driver step connects keep the scheduler's
/// invariant, keep the count of items not yet finished, and lower
/// `steps_left` by one until the run is over.
proof fn lemma_drive_step(s: Scheduler, remaining: nat)
    requires
        s.wf(),
        s.exhausted_spec() ==> remaining == 0,
        s.started_spec() + remaining <= u64::MAX,
    ensures
        ({
            let (t, r) = drive_step(s, remaining);
            &&& t.wf()
            &&& t.exhausted_spec() ==> r == 0
            &&& t.started_spec() + r <= u64::MAX
            &&& t.limit_spec() == s.limit_spec()
            &&& t.finished_spec() + t.running_spec() + r == s.finished_spec() + s.running_spec() + remaining
            &&& s.action_spec() != Action::Finish ==> t.steps_left(r) + 1 == s.steps_left(remaining)
        }),
{
}

/// Bounded concurrency and liveness, over a whole run. A driver that
/// follows the scheduler from a well-formed state, over a source that still
/// holds `remaining` items, keeps at most `limit` stages running at every
/// step, and after exactly `steps_left` steps has finished: by then every
/// item, those already running and those still in the source, has been
/// processed and yielded.
pub proof fn lemma_bounded_run(s: Scheduler, remaining: nat, k: nat)
    requires
        s.wf(),
        s.exhausted_spec() ==> remaining == 0,
        s.started_spec() + remaining <= u64::MAX,
    ensures
        drive(s, remaining, k).0.wf(),
        drive(s, remaining, k).0.running_spec() <= s.limit_spec(),
        drive(s, remaining, s.steps_left(remaining)).0.action_spec() == Action::Finish,
        drive(s, remaining, s.steps_left(remaining)).0.finished_spec()
            == s.finished_spec() + s.running_spec() + remaining,
    decreases s.steps_left(remaining) + k,
{
    lemma_drive_step(s, remaining);
    let (t, r) = drive_step(s, remaining);
    if k > 0 {
        lemma_bounded_run(t, r, (k - 1) as nat);
    }
    if s.action_spec() == Action::Finish {
        assert(drive(s, remaining, 0) == (s, remaining));
        lemma_finish_is_fixed(s, remaining, k);
    } else {
        lemma_bounded_run(t, r, 0);
        let n = s.steps_left(remaining);
        assert(drive(s, remaining, n) == drive(t, r, (n - 1) as nat));
    }
}

/// Once finished, further steps change nothing.
proof fn lemma_finish_is_fixed(s: Scheduler, remaining: nat, k: nat)
    requires
        s.action_spec() == Action::Finish,
    ensures
        drive(s, remaining, k) == (s, remaining),
    decreases k,
{
    if k > 0 {
        lemma_finish_is_fixed(s, remaining, (k - 1) as nat);
    }
}

/// What each decision means. From a well-formed state over a source that
/// still holds `remaining` items, where the source is done only when it
/// holds none: a pull is asked only while fewer than `limit` stages run, a
/// wait only while one runs, and the driver finishes only once every
/// started stage has finished and the source is empty, which is exactly
/// when `steps_left` is zero.
pub proof fn lemma_bounded_concurrency(s: Scheduler, remaining: nat)
    requires
        s.wf(),
        s.exhausted_spec() ==> remaining == 0,
    ensures
        s.action_spec() == Action::Pull ==> s.running_spec() + 1 <= s.limit_spec(),
        s.action_spec() == Action::Wait ==> s.running_spec() > 0,
        s.action_spec() == Action::Finish ==> s.finished_spec() == s.started_spec() && remaining == 0,
        s.steps_left(remaining) == 0 <==> s.action_spec() == Action::Finish,
{
}


/// A pipeline that runs up to `limit` stages at once. Items are pulled
/// while fewer than `limit` are in flight; otherwise one running stage
/// finishes and its output is yielded. Which one finishes is not up to the
/// pipeline: `picks` gives it, each pick taken modulo the number in flight
/// (the first one once the picks run out). Outputs therefore come in any
/// order, but each input gives exactly one output.
pub struct ConcurrentPipeline<S, W> {
    pub source: S,
    pub work: W,
    pub limit: usize,
    pub picks: Vec<usize>,
}

impl<S, W> ConcurrentPipeline<S, W> {
    pub fn new(source: S, work: W, limit: usize, picks: Vec<usize>) -> (r: ConcurrentPipeline<S, W>)
        ensures
            r.source == source,
            r.work == work,
            r.limit == limit,
            r.picks == picks,
    {
        ConcurrentPipeline { source, work, limit, picks }
    }
}

/// `origin` maps each output position to the input it came from, using
/// each of the `n` inputs exactly once.
pub open spec fn is_permutation(origin: Seq<int>, n: int) -> bool {
    &&& origin.len() == n
    &&& forall|k: int| 0 <= k < n ==> 0 <= #[trigger] origin[k] < n
    &&& forall|k1: int, k2: int| 0 <= k1 < k2 < n ==> #[trigger] origin[k1] != #[trigger] origin[k2]
}

/// The output for one input: the stage's outcome on a successful item, the
/// error itself otherwise.
pub open spec fn output_for<C, I, W: Work<C, I>>(work: W, ctx: C, item: Result<I, Error>, out: Result<W::Output, Error>) -> bool {
    match item {
        Ok(x) => work.call_ensures(ctx, x, out),
        Err(e) => out == Err::<W::Output, Error>(e),
    }
}

impl<C, S: Source<C>, W: Work<C, S::Item>> Source<C> for ConcurrentPipeline<S, W> {
    type Item = W::Output;

    open spec fn start_requires(&self, ctx: C) -> bool {
        &&& self.limit > 0
        &&& self.source.start_requires(ctx)
        &&& work_accepts(self.source, self.work, ctx)
    }

    open spec fn produces(&self, ctx: C, out: Seq<Result<W::Output, Error>>) -> bool {
        exists|input: Seq<Result<S::Item, Error>>, origin: Seq<int>|
            #![trigger self.source.produces(ctx, input), is_permutation(origin, input.len() as int)]
            self.source.produces(ctx, input)
            && out.len() == input.len()
            && is_permutation(origin, input.len() as int)
            && forall|k: int| 0 <= k < out.len() ==> output_for(self.work, ctx, input[origin[k]], #[trigger] out[k])
    }

    fn create_stream(self, ctx: &C) -> (r: Vec<Result<W::Output, Error>>) {
        let ConcurrentPipeline { source, work, limit, picks } = self;
        let input = source.create_stream(ctx);
        let ghost s = input@;
        let n = input.len();
        let mut rest = reversed(input);
        let mut flight: Vec<(usize, S::Item)> = Vec::new();
        let mut out: Vec<Result<W::Output, Error>> = Vec::new();
        let ghost mut origin: Seq<int> = Seq::empty();
        let mut pulled: usize = 0;
        let mut t: usize = 0;
        while rest.len() > 0 || flight.len() > 0
            invariant
                limit > 0,
                source.produces(*ctx, s),
                work_accepts(source, work, *ctx),
                n == s.len(),
                pulled + rest.len() == n,
                rest@ == s.skip(pulled as int).reverse(),
                flight.len() <= limit,
                forall|f: int| 0 <= f < flight.len() ==> (#[trigger] flight@[f]).0 < pulled
                    && s[flight@[f].0 as int] == Ok::<S::Item, Error>(flight@[f].1),
                origin.len() == out.len(),
                origin.len() + flight.len() == pulled,
                forall|k: int| 0 <= k < origin.len() ==> 0 <= #[trigger] origin[k] < pulled,
                forall|k: int| 0 <= k < origin.len() ==> output_for(work, *ctx, s[origin[k]], #[trigger] out@[k]),
                forall|k1: int, k2: int| 0 <= k1 < k2 < origin.len() ==> #[trigger] origin[k1] != #[trigger] origin[k2],
                forall|f1: int, f2: int| 0 <= f1 < f2 < flight.len() ==> (#[trigger] flight@[f1]).0 != (#[trigger] flight@[f2]).0,
                forall|k: int, f: int| 0 <= k < origin.len() && 0 <= f < flight.len() ==> #[trigger] origin[k] != (#[trigger] flight@[f]).0 as int,
            decreases 2 * rest.len() + flight.len(),
        {
            if rest.len() > 0 && flight.len() < limit {
                let item = rest.pop().unwrap();
                proof {
                    assert(s.skip(pulled as int).reverse()[rest.len() as int] == s[pulled as int]);
                }
                match item {
                    Ok(x) => {
                        flight.push((pulled, x));
                    },
                    Err(e) => {
                        let ghost ge = e;
                        out.push(Err(e));
                        proof {
                            origin = origin.push(pulled as int);
                            assert(output_for(work, *ctx, s[pulled as int], Err::<W::Output, Error>(ge)));
                        }
                    },
                }
                pulled = pulled + 1;
                proof {
                    assert(rest@ =~= s.skip(pulled as int).reverse());
                }
            } else {
                let j = if t < picks.len() { picks[t] % flight.len() } else { 0 };
                if t < picks.len() {
                    t = t + 1;
                }
                let ghost before = flight@;
                let (idx, x) = flight.swap_remove(j);
                proof {
                    assert(s[idx as int] == Ok::<S::Item, Error>(x));
                    assert(work.call_requires(*ctx, s[idx as int]->Ok_0));
                    let last = before.len() - 1;
                    assert forall|f: int| 0 <= f < flight.len() implies #[trigger] flight@[f] == before[if f == j as int { last } else { f }] by {}
                }
                let r = work.call(ctx, x);
                let ghost gr = r;
                out.push(r);
                proof {
                    let last = before.len() - 1;
                    assert(output_for(work, *ctx, s[idx as int], gr));
                    origin = origin.push(idx as int);
                    assert forall|f1: int, f2: int| 0 <= f1 < f2 < flight.len() implies (#[trigger] flight@[f1]).0 != (#[trigger] flight@[f2]).0 by {
                        let a = if f1 == j as int { last } else { f1 };
                        let b = if f2 == j as int { last } else { f2 };
                        assert(flight@[f1] == before[a]);
                        assert(flight@[f2] == before[b]);
                    }
                    assert forall|k: int, f: int| 0 <= k < origin.len() && 0 <= f < flight.len() implies #[trigger] origin[k] != (#[trigger] flight@[f]).0 as int by {
                        let b = if f == j as int { last } else { f };
                        assert(flight@[f] == before[b]);
                        if k == origin.len() - 1 {
                            assert(before[j as int].0 == idx);
                        }
                    }
                    assert forall|k1: int, k2: int| 0 <= k1 < k2 < origin.len() implies #[trigger] origin[k1] != #[trigger] origin[k2] by {
                        if k2 == origin.len() - 1 {
                            assert(before[j as int].0 == idx);
                        }
                    }
                }
            }
        }
        proof {
            assert(is_permutation(origin, n as int));
        }
        out
    }
}

} // verus!
