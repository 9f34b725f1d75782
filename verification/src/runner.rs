//! Running a job: prerequisites are scheduled depth-first, in declaration
//! order, before the job's own steps, and each scheduled job's steps run in
//! two passes — every step is syntax-validated first, then each step is
//! executed in order — with any failure aborting the whole run.
//!
//! Spawning the shell is the caller's part. The run is a state machine: the
//! caller asks which step to validate or execute next, performs it, and
//! reports whether it succeeded; the machine decides everything else, so the
//! decisions are verified while the subprocess work stays outside.

use vstd::prelude::*;
use crate::errors::TaruError;
use crate::jobs::JobSet;
use crate::jobs::JobView;
use crate::parser::RawJob;
use crate::parser::jobs_resolve;
use crate::parser::resolve_jobs;
use crate::parser::resolved_jobs_map;
use crate::vars::RawVar;
use crate::vars::vars_spec_map;

verus! {

/// The schedule a job name stands for: one block of steps per job, each
/// job's prerequisites depth-first and in declaration order before its own
/// steps, together with the error that cut scheduling short, if any. Blocks
/// scheduled before the error still run before it is reported. `fuel`
/// bounds the recursion depth: a prerequisite chain longer than the number
/// of jobs can only close a cycle, which the configuration may not contain,
/// and is reported as `RuntimeError` rather than recursed into forever.
pub open spec fn job_schedule(
    name: Seq<char>,
    jobs: Map<Seq<char>, JobView>,
    fuel: nat,
) -> (Seq<Seq<Seq<char>>>, Option<TaruError>)
    decreases fuel, 0nat,
{
    if !jobs.contains_key(name) {
        (Seq::empty(), Some(TaruError::InvalidJob))
    } else if fuel == 0 {
        (Seq::empty(), Some(TaruError::RuntimeError))
    } else {
        let pre = prereq_schedule(jobs[name].prerequisites, jobs, (fuel - 1) as nat);
        match pre.1 {
            Some(e) => pre,
            None => (pre.0.push(jobs[name].steps), None),
        }
    }
}

/// The schedule of a list of prerequisite names, in order; an error stops
/// the list at the job it arose in.
pub open spec fn prereq_schedule(
    reqs: Seq<Seq<char>>,
    jobs: Map<Seq<char>, JobView>,
    fuel: nat,
) -> (Seq<Seq<Seq<char>>>, Option<TaruError>)
    decreases fuel, reqs.len() + 1,
{
    if reqs.len() == 0 {
        (Seq::empty(), None)
    } else {
        let first = job_schedule(reqs[0], jobs, fuel);
        match first.1 {
            Some(e) => first,
            None => {
                let rest = prereq_schedule(reqs.drop_first(), jobs, fuel);
                (first.0 + rest.0, rest.1)
            },
        }
    }
}

/// Where a run stands: validating a job's steps, executing them, or finished
/// (`Done` on success, `Failed` otherwise).
#[derive(Clone, Copy, Debug, PartialEq, Eq, Structural)]
pub enum Phase {
    Validating,
    Executing,
    Done,
    Failed,
}

/// The mathematical shape of a run in progress. `blocks` is the schedule:
/// one sequence of steps per scheduled job, in execution order. `pending` is
/// an error discovered while scheduling, reported once the scheduled blocks
/// have all run. `block` and `step` locate the current step; `failure` is
/// set exactly when the run has failed.
pub struct RunView {
    pub blocks: Seq<Seq<Seq<char>>>,
    pub pending: Option<TaruError>,
    pub block: int,
    pub step: int,
    pub phase: Phase,
    pub failure: Option<TaruError>,
}

/// The phase and failure a run finishes with when every scheduled block has
/// run: success, unless an error was pending from scheduling.
pub open spec fn finish_state(pending: Option<TaruError>) -> (Phase, Option<TaruError>) {
    match pending {
        None => (Phase::Done, None),
        Some(e) => (Phase::Failed, Some(e)),
    }
}

/// The run positioned at the first non-empty block at or after `b`, ready to
/// validate its first step; when no such block is left, the run finishes.
pub open spec fn enter_block(v: RunView, b: int) -> RunView
    decreases v.blocks.len() - b,
{
    if b < 0 || b >= v.blocks.len() {
        (RunView {
            block: v.blocks.len() as int,
            step: 0,
            phase: finish_state(v.pending).0,
            failure: finish_state(v.pending).1,
            ..v
        })
    } else if v.blocks[b].len() == 0 {
        enter_block(v, b + 1)
    } else {
        (RunView { block: b, step: 0, phase: Phase::Validating, failure: None, ..v })
    }
}

/// The state a fresh run starts in, given its schedule and any pending
/// scheduling error.
pub open spec fn init_run(blocks: Seq<Seq<Seq<char>>>, pending: Option<TaruError>) -> RunView {
    enter_block(
        RunView {
            blocks,
            pending,
            block: 0,
            step: 0,
            phase: Phase::Validating,
            failure: None,
        },
        0,
    )
}

/// How one reported outcome advances the run. A failed validation or
/// execution fails the whole run at once. A successful validation moves to
/// the next step, or starts the execution pass when the block's steps are
/// all validated; a successful execution moves to the next step, or to the
/// next block when the block's steps have all run.
pub open spec fn step_advance(v: RunView, success: bool) -> RunView {
    if !(v.phase is Validating || v.phase is Executing) {
        v
    } else if !success {
        (RunView { phase: Phase::Failed, failure: Some(TaruError::RuntimeError), ..v })
    } else if v.phase is Validating {
        if v.step + 1 < v.blocks[v.block].len() {
            (RunView { step: v.step + 1, ..v })
        } else {
            (RunView { phase: Phase::Executing, step: 0, ..v })
        }
    } else {
        if v.step + 1 < v.blocks[v.block].len() {
            (RunView { step: v.step + 1, ..v })
        } else {
            enter_block(v, v.block + 1)
        }
    }
}

/// A well-formed run: the position lies within the schedule whenever the run
/// is active, and `failure` is set exactly when the run has failed.
pub open spec fn run_wf(v: RunView) -> bool {
    &&& 0 <= v.block <= v.blocks.len()
    &&& ((v.phase is Validating || v.phase is Executing) ==> {
        &&& v.block < v.blocks.len()
        &&& 0 <= v.step < v.blocks[v.block].len()
        &&& v.failure is None
    })
    &&& (v.phase is Done ==> v.failure is None && v.pending is None)
    &&& (v.phase is Failed ==> v.failure is Some)
}

/// What the caller is asked to do in a state: validate a step, execute a
/// step, or nothing because the run is finished.
pub enum Duty {
    Validate(int, int),
    Execute(int, int),
    Idle,
}

/// The duty a state asks of the caller, as block and step position.
pub open spec fn duty_of(v: RunView) -> Duty {
    if v.phase is Validating {
        Duty::Validate(v.block, v.step)
    } else if v.phase is Executing {
        Duty::Execute(v.block, v.step)
    } else {
        Duty::Idle
    }
}

/// The state after a sequence of reported outcomes.
pub open spec fn feed(v: RunView, results: Seq<bool>) -> RunView
    decreases results.len(),
{
    if results.len() == 0 {
        v
    } else {
        feed(step_advance(v, results[0]), results.drop_first())
    }
}

/// `n` successful outcomes.
pub open spec fn all_true(n: nat) -> Seq<bool> {
    Seq::new(n, |i: int| true)
}

/// The outcomes still to report from block `b` on: two per step, one to
/// validate it and one to execute it.
pub open spec fn rest_work(blocks: Seq<Seq<Seq<char>>>, b: int) -> nat
    decreases blocks.len() - b,
{
    if b < 0 || b >= blocks.len() {
        0
    } else {
        (2 * blocks[b].len() + rest_work(blocks, b + 1)) as nat
    }
}

/// The outcomes still to report before the run finishes.
pub open spec fn work_left(v: RunView) -> nat {
    if v.phase is Validating {
        (2 * v.blocks[v.block].len() - v.step + rest_work(v.blocks, v.block + 1)) as nat
    } else if v.phase is Executing {
        (v.blocks[v.block].len() - v.step + rest_work(v.blocks, v.block + 1)) as nat
    } else {
        0
    }
}

/// Entering a block yields a well-formed state over the same schedule, never
/// fails unless an error was pending, and leaves exactly the remaining
/// blocks' outcomes to report.
pub proof fn lemma_enter_block(v: RunView, b: int)
    requires
        0 <= b <= v.blocks.len(),
    ensures
        ({
            let r = enter_block(v, b);
            &&& r.blocks == v.blocks
            &&& r.pending == v.pending
            &&& run_wf(r)
            &&& (v.pending is None ==> !(r.phase is Failed))
            &&& (v.pending is None ==> (r.phase is Done <==> rest_work(v.blocks, b) == 0))
            &&& work_left(r) == rest_work(v.blocks, b)
        }),
    decreases v.blocks.len() - b,
{
    if b < v.blocks.len() && v.blocks[b].len() == 0 {
        lemma_enter_block(v, b + 1);
    }
}

/// One reported outcome keeps the run well-formed over the same schedule; a
/// failure fails the run at once, and a success brings it one outcome closer
/// to finishing.
pub proof fn lemma_step_advance(v: RunView, success: bool)
    requires
        run_wf(v),
    ensures
        ({
            let r = step_advance(v, success);
            &&& run_wf(r)
            &&& r.blocks == v.blocks
            &&& r.pending == v.pending
            &&& (((v.phase is Validating || v.phase is Executing) && !success) ==> (
                r.phase is Failed && r.failure == Some(TaruError::RuntimeError)
            ))
            &&& (((v.phase is Validating || v.phase is Executing) && success
                && v.pending is None) ==> (!(r.phase is Failed) && work_left(r) + 1 == work_left(
                v,
            )))
        }),
{
    if (v.phase is Validating || v.phase is Executing) && success {
        if v.phase is Executing && !(v.step + 1 < v.blocks[v.block].len()) {
            lemma_enter_block(v, v.block + 1);
        }
    }
}

/// Entering a block reads only the schedule and the pending error, not the
/// position the run stood at.
proof fn lemma_enter_block_agnostic(v1: RunView, v2: RunView, b: int)
    requires
        v1.blocks == v2.blocks,
        v1.pending == v2.pending,
    ensures
        enter_block(v1, b) == enter_block(v2, b),
    decreases v1.blocks.len() - b,
{
    if 0 <= b < v1.blocks.len() && v1.blocks[b].len() == 0 {
        lemma_enter_block_agnostic(v1, v2, b + 1);
    }
}

/// A finished run stays exactly as it is, whatever is reported.
pub proof fn lemma_finished_stays(v: RunView, results: Seq<bool>)
    requires
        !(v.phase is Validating || v.phase is Executing),
    ensures
        feed(v, results) == v,
    decreases results.len(),
{
    if results.len() > 0 {
        lemma_finished_stays(v, results.drop_first());
    }
}

/// Reporting one more outcome after a sequence is advancing by it at the end.
pub proof fn lemma_feed_push(v: RunView, results: Seq<bool>, x: bool)
    ensures
        feed(v, results.push(x)) == step_advance(feed(v, results), x),
    decreases results.len(),
{
    assert(results.push(x)[0 as int] == if results.len() == 0 {
        x
    } else {
        results[0]
    });
    if results.len() == 0 {
        assert(results.push(x).drop_first() =~= Seq::<bool>::empty());
        assert(feed(v, results) == v);
        assert(feed(v, results.push(x)) == feed(
            step_advance(v, x),
            results.push(x).drop_first(),
        ));
        assert(feed(step_advance(v, x), Seq::<bool>::empty()) == step_advance(v, x));
    } else {
        assert(results.push(x).drop_first() =~= results.drop_first().push(x));
        assert(feed(v, results.push(x)) == feed(
            step_advance(v, results[0]),
            results.push(x).drop_first(),
        ));
        assert(feed(v, results) == feed(step_advance(v, results[0]), results.drop_first()));
        lemma_feed_push(step_advance(v, results[0]), results.drop_first(), x);
    }
}

/// A run whose schedule carries no pending error and whose every remaining
/// step validates and exits successfully finishes as `Done`: executing a job
/// whose steps are all syntactically valid and all exit with status zero
/// succeeds.
pub proof fn lemma_all_success_completes(v: RunView)
    requires
        run_wf(v),
        v.pending is None,
        !(v.phase is Failed),
    ensures
        feed(v, all_true(work_left(v))).phase is Done,
        run_wf(feed(v, all_true(work_left(v)))),
    decreases work_left(v),
{
    if v.phase is Validating || v.phase is Executing {
        let r = step_advance(v, true);
        lemma_step_advance(v, true);
        assert(all_true(work_left(v)).drop_first() =~= all_true(work_left(r)));
        lemma_all_success_completes(r);
    } else {
        assert(all_true(0nat) =~= Seq::<bool>::empty());
    }
}

/// The same law over a whole fresh run: on a schedule with no pending
/// scheduling error, reporting success for every step the run asks about
/// finishes it as `Done`, with no failure recorded.
pub proof fn lemma_clean_schedule_runs_to_done(blocks: Seq<Seq<Seq<char>>>)
    ensures
        ({
            let v = init_run(blocks, None);
            let w = feed(v, all_true(work_left(v)));
            &&& run_wf(v)
            &&& w.phase is Done
            &&& w.failure is None
        }),
{
    lemma_enter_block(
        RunView {
            blocks,
            pending: None,
            block: 0,
            step: 0,
            phase: Phase::Validating,
            failure: None,
        },
        0,
    );
    lemma_all_success_completes(init_run(blocks, None));
}

/// Successful validations walk the current block's validation pass without
/// leaving it.
pub proof fn lemma_validation_progress(v: RunView, k: nat)
    requires
        run_wf(v),
        v.phase is Validating,
        v.step + k < v.blocks[v.block].len(),
    ensures
        feed(v, all_true(k)) == (RunView { step: v.step + k, ..v }),
    decreases k,
{
    if k == 0 {
        assert(all_true(0nat) =~= Seq::<bool>::empty());
        assert((RunView { step: v.step + 0, ..v }) == v);
    } else {
        let r = step_advance(v, true);
        assert(r == (RunView { step: v.step + 1, ..v }));
        assert(all_true(k).drop_first() =~= all_true((k - 1) as nat));
        lemma_validation_progress(r, (k - 1) as nat);
    }
}

/// Successful executions walk the current block's execution pass without
/// leaving it.
pub proof fn lemma_execution_progress(v: RunView, k: nat)
    requires
        run_wf(v),
        v.phase is Executing,
        v.step + k < v.blocks[v.block].len(),
    ensures
        feed(v, all_true(k)) == (RunView { step: v.step + k, ..v }),
    decreases k,
{
    if k == 0 {
        assert(all_true(0nat) =~= Seq::<bool>::empty());
        assert((RunView { step: v.step + 0, ..v }) == v);
    } else {
        let r = step_advance(v, true);
        assert(r == (RunView { step: v.step + 1, ..v }));
        assert(all_true(k).drop_first() =~= all_true((k - 1) as nat));
        lemma_execution_progress(r, (k - 1) as nat);
    }
}

/// When a step fails syntax validation, the run fails with `RuntimeError`
/// and no step is ever executed along the way: every duty the caller was
/// asked to perform during the pass was a validation.
pub proof fn lemma_validation_failure_executes_nothing(v: RunView, k: nat)
    requires
        run_wf(v),
        v.phase is Validating,
        v.step + k < v.blocks[v.block].len(),
    ensures
        ({
            let results = all_true(k).push(false);
            &&& feed(v, results).phase is Failed
            &&& feed(v, results).failure == Some(TaruError::RuntimeError)
            &&& forall|i: int|
                0 <= i <= k ==> duty_of(feed(v, #[trigger] results.take(i))) is Validate
        }),
{
    let results = all_true(k).push(false);
    assert forall|i: int| 0 <= i <= k implies duty_of(
        feed(v, #[trigger] results.take(i)),
    ) is Validate by {
        assert(results.take(i) =~= all_true(i as nat));
        lemma_validation_progress(v, i as nat);
    }
    assert(results.take(k as int) =~= all_true(k));
    lemma_validation_progress(v, k);
    lemma_feed_push(v, all_true(k), false);
}

/// When a step's process exits non-zero, the run fails with `RuntimeError`
/// and the steps after it are never executed: the duties performed during
/// the pass are exactly the executions of the steps up to and including the
/// failing one, and a failed run asks for nothing further.
pub proof fn lemma_step_failure_stops_run(v: RunView, k: nat)
    requires
        run_wf(v),
        v.phase is Executing,
        v.step + k < v.blocks[v.block].len(),
    ensures
        ({
            let results = all_true(k).push(false);
            &&& feed(v, results).phase is Failed
            &&& feed(v, results).failure == Some(TaruError::RuntimeError)
            &&& forall|i: int|
                0 <= i <= k ==> duty_of(feed(v, #[trigger] results.take(i))) == Duty::Execute(
                    v.block,
                    v.step + i,
                )
        }),
{
    let results = all_true(k).push(false);
    assert forall|i: int| 0 <= i <= k implies duty_of(
        feed(v, #[trigger] results.take(i)),
    ) == Duty::Execute(v.block, v.step + i) by {
        assert(results.take(i) =~= all_true(i as nat));
        lemma_execution_progress(v, i as nat);
    }
    assert(results.take(k as int) =~= all_true(k));
    lemma_execution_progress(v, k);
    lemma_feed_push(v, all_true(k), false);
}

/// What the caller should do next: validate a step, execute a step, or stop
/// because the run is finished. The carried string is the step's command
/// line.
#[derive(Debug)]
pub enum Action {
    Validate(String),
    Execute(String),
    Finished,
}

/// A run in progress. Build one with [`JobRun::new`] or through
/// [`run_job`](crate::run_job), then alternate [`JobRun::next_action`] and
/// [`JobRun::report`] until it is finished, and read [`JobRun::result`].
pub struct JobRun {
    blocks: Vec<Vec<String>>,
    pending: Option<TaruError>,
    block: usize,
    step: usize,
    phase: Phase,
    failure: Option<TaruError>,
}

impl View for JobRun {
    type V = RunView;

    closed spec fn view(&self) -> RunView {
        RunView {
            blocks: self.blocks.deep_view(),
            pending: self.pending,
            block: self.block as int,
            step: self.step as int,
            phase: self.phase,
            failure: self.failure,
        }
    }
}

impl JobRun {
    /// Positions the run at the first non-empty block at or after the
    /// current one, or finishes it.
    fn settle(&mut self)
        requires
            old(self)@.block <= old(self)@.blocks.len(),
            0 <= old(self)@.block,
        ensures
            final(self)@ == enter_block(old(self)@, old(self)@.block),
    {
        let ghost v0 = self@;
        let mut b = self.block;
        while b < self.blocks.len() && self.blocks[b].len() == 0
            invariant
                old(self)@.block <= b as int <= self.blocks@.len(),
                self == old(self),
                v0 == self@,
                enter_block(v0, old(self)@.block) == enter_block(v0, b as int),
            decreases self.blocks@.len() - b,
        {
            proof {
                assert(v0.blocks[b as int].len() == self.blocks@[b as int]@.len());
            }
            b = b + 1;
        }
        proof {
            if b < self.blocks.len() {
                assert(v0.blocks[b as int].len() == self.blocks@[b as int]@.len());
            }
        }
        self.block = b;
        if self.block == self.blocks.len() {
            self.step = 0;
            match &self.pending {
                None => {
                    self.phase = Phase::Done;
                    self.failure = None;
                },
                Some(e) => {
                    self.phase = Phase::Failed;
                    self.failure = Some(*e);
                },
            }
        } else {
            self.step = 0;
            self.phase = Phase::Validating;
            self.failure = None;
        }
    }

    /// A fresh run over the given schedule: one sequence of steps per job,
    /// in execution order.
    pub fn new(blocks: Vec<Vec<String>>) -> (r: JobRun)
        ensures
            r@ == init_run(blocks.deep_view(), None),
            run_wf(r@),
    {
        Self::with_pending(blocks, None)
    }

    /// A fresh run over the given schedule, with an error discovered at
    /// scheduling time to report once the scheduled blocks have run.
    pub(crate) fn with_pending(blocks: Vec<Vec<String>>, pending: Option<TaruError>) -> (r:
        JobRun)
        ensures
            r@ == init_run(blocks.deep_view(), pending),
            run_wf(r@),
    {
        let ghost bv = blocks.deep_view();
        let mut r = JobRun {
            blocks,
            pending,
            block: 0,
            step: 0,
            phase: Phase::Validating,
            failure: None,
        };
        r.settle();
        proof {
            lemma_enter_block(
                RunView {
                    blocks: bv,
                    pending,
                    block: 0,
                    step: 0,
                    phase: Phase::Validating,
                    failure: None,
                },
                0,
            );
        }
        r
    }

    /// True once the run is finished, successfully or not.
    pub fn is_finished(&self) -> (r: bool)
        ensures
            r == !(self@.phase is Validating || self@.phase is Executing),
    {
        self.phase == Phase::Done || self.phase == Phase::Failed
    }

    /// What to do next: validate the given command line without side
    /// effects, execute it, or stop.
    pub fn next_action(&self) -> (r: Action)
        requires
            run_wf(self@),
        ensures
            match r {
                Action::Validate(s) => {
                    &&& duty_of(self@) == Duty::Validate(self@.block, self@.step)
                    &&& s@ == self@.blocks[self@.block][self@.step]
                },
                Action::Execute(s) => {
                    &&& duty_of(self@) == Duty::Execute(self@.block, self@.step)
                    &&& s@ == self@.blocks[self@.block][self@.step]
                },
                Action::Finished => duty_of(self@) is Idle,
            },
    {
        match self.phase {
            Phase::Validating => {
                let s = self.blocks[self.block][self.step].clone();
                proof {
                    assert(self@.blocks[self.block as int][self.step as int]
                        == self.blocks@[self.block as int]@[self.step as int]@);
                }
                Action::Validate(s)
            },
            Phase::Executing => {
                let s = self.blocks[self.block][self.step].clone();
                proof {
                    assert(self@.blocks[self.block as int][self.step as int]
                        == self.blocks@[self.block as int]@[self.step as int]@);
                }
                Action::Execute(s)
            },
            _ => Action::Finished,
        }
    }

    /// Reports whether the step the run asked for succeeded, and advances
    /// the run.
    pub fn report(&mut self, success: bool)
        requires
            run_wf(old(self)@),
            old(self)@.phase is Validating || old(self)@.phase is Executing,
        ensures
            final(self)@ == step_advance(old(self)@, success),
            run_wf(final(self)@),
    {
        proof {
            lemma_step_advance(old(self)@, success);
            assert(self@.blocks[self.block as int].len()
                == self.blocks@[self.block as int]@.len());
        }
        if !success {
            self.phase = Phase::Failed;
            self.failure = Some(TaruError::RuntimeError);
        } else {
            let len = self.blocks[self.block].len();
            match self.phase {
                Phase::Validating => {
                    if self.step + 1 < len {
                        self.step = self.step + 1;
                    } else {
                        self.phase = Phase::Executing;
                        self.step = 0;
                    }
                },
                Phase::Executing => {
                    if self.step + 1 < len {
                        self.step = self.step + 1;
                    } else {
                        let _nblocks = self.blocks.len();
                        proof {
                            assert(self@.blocks.len() == self.blocks@.len());
                        }
                        self.block = self.block + 1;
                        self.step = 0;
                        let ghost mid = self@;
                        self.settle();
                        proof {
                            lemma_enter_block_agnostic(mid, old(self)@, mid.block);
                        }
                    }
                },
                _ => {},
            }
        }
    }

    /// The outcome of a finished run.
    pub fn result(&self) -> (r: Result<(), TaruError>)
        requires
            run_wf(self@),
            !(self@.phase is Validating || self@.phase is Executing),
        ensures
            match self@.failure {
                Some(e) => self@.phase is Failed && r == Err::<(), TaruError>(e),
                None => self@.phase is Done && r == Ok::<(), TaruError>(()),
            },
    {
        match self.phase {
            Phase::Failed => Err(self.failure.unwrap()),
            _ => Ok(()),
        }
    }
}

/// How a run-building result relates to a schedule: an error is returned at
/// once exactly when nothing would run before it; otherwise the returned
/// run starts on the schedule, with any scheduling error pending.
pub open spec fn matches_schedule(
    r: Result<JobRun, TaruError>,
    sched: (Seq<Seq<Seq<char>>>, Option<TaruError>),
) -> bool {
    match r {
        Ok(run) => {
            &&& (sched.0.len() > 0 || sched.1 is None)
            &&& run@ == init_run(sched.0, sched.1)
            &&& run_wf(run@)
        },
        Err(e) => sched.0.len() == 0 && sched.1 == Some(e),
    }
}

/// Collects the schedule of one job into `out`, depth-first.
fn collect_job(name: &str, jobs: &JobSet, fuel: usize, out: &mut Vec<Vec<String>>) -> (r: Option<
    TaruError,
>)
    ensures
        ({
            let sched = job_schedule(name@, jobs.as_map(), fuel as nat);
            &&& final(out).deep_view() == old(out).deep_view() + sched.0
            &&& r == sched.1
        }),
    decreases fuel, 0int,
{
    let ghost sched = job_schedule(name@, jobs.as_map(), fuel as nat);
    match jobs.get(name) {
        None => {
            proof {
                assert(out.deep_view() + sched.0 =~= out.deep_view());
            }
            Some(TaruError::InvalidJob)
        },
        Some(job) => {
            if fuel == 0 {
                proof {
                    assert(out.deep_view() + sched.0 =~= out.deep_view());
                }
                Some(TaruError::RuntimeError)
            } else {
                let ghost base = out.deep_view();
                let ghost pre = prereq_schedule(
                    jobs.as_map()[name@].prerequisites,
                    jobs.as_map(),
                    (fuel - 1) as nat,
                );
                proof {
                    assert(job.prerequisites.deep_view().skip(0)
                        =~= jobs.as_map()[name@].prerequisites);
                }
                let r = collect_prereqs(&job.prerequisites, 0, jobs, fuel - 1, out);
                match r {
                    Some(e) => Some(e),
                    None => {
                        let steps = job.steps.clone();
                        proof {
                            assert forall|k: int| 0 <= k < steps@.len() implies steps@[k]
                                == job.steps@[k] by {
                                assert(cloned::<String>(job.steps@[k], steps@[k]));
                            }
                            assert(steps@ =~= job.steps@);
                            assert(steps.deep_view() =~= job.steps.deep_view());
                        }
                        let ghost mid = out.deep_view();
                        out.push(steps);
                        proof {
                            assert(out.deep_view() =~= mid.push(steps.deep_view()));
                            assert((base + pre.0).push(jobs.as_map()[name@].steps)
                                =~= base + pre.0.push(jobs.as_map()[name@].steps));
                        }
                        None
                    },
                }
            }
        },
    }
}

/// Collects the schedules of the prerequisites from `i` on, in order.
fn collect_prereqs(
    reqs: &Vec<String>,
    i: usize,
    jobs: &JobSet,
    fuel: usize,
    out: &mut Vec<Vec<String>>,
) -> (r: Option<TaruError>)
    requires
        i <= reqs@.len(),
    ensures
        ({
            let sched = prereq_schedule(
                reqs.deep_view().skip(i as int),
                jobs.as_map(),
                fuel as nat,
            );
            &&& final(out).deep_view() == old(out).deep_view() + sched.0
            &&& r == sched.1
        }),
    decreases fuel, reqs@.len() - i + 1,
{
    let ghost tail = reqs.deep_view().skip(i as int);
    if i == reqs.len() {
        proof {
            assert(tail =~= Seq::<Seq<char>>::empty());
            assert(out.deep_view() + prereq_schedule(tail, jobs.as_map(), fuel as nat).0
                =~= out.deep_view());
        }
        return None;
    }
    proof {
        assert(tail[0] == reqs.deep_view()[i as int]);
        assert(tail.drop_first() =~= reqs.deep_view().skip(i as int + 1));
    }
    let ghost base = out.deep_view();
    let ghost first = job_schedule(reqs.deep_view()[i as int], jobs.as_map(), fuel as nat);
    let r = collect_job(reqs[i].as_str(), jobs, fuel, out);
    match r {
        Some(e) => Some(e),
        None => {
            let ghost rest = prereq_schedule(
                reqs.deep_view().skip(i as int + 1),
                jobs.as_map(),
                fuel as nat,
            );
            let r2 = collect_prereqs(reqs, i + 1, jobs, fuel, out);
            proof {
                assert((base + first.0) + rest.0 =~= base + (first.0 + rest.0));
            }
            r2
        },
    }
}

/// Schedules the named job — all its prerequisites, depth-first and in
/// declaration order, before its own steps — and returns the run ready to
/// drive. A job name with no entry in the set fails with `InvalidJob`,
/// whatever else the set holds; an error found deeper in the schedule is
/// returned at once when nothing would run before it, and is otherwise
/// reported by the run after the blocks scheduled before it have run.
pub fn run_job(job_name: &str, jobs: &JobSet) -> (r: Result<JobRun, TaruError>)
    ensures
        matches_schedule(r, job_schedule(job_name@, jobs.as_map(), jobs.names().len())),
        !jobs.as_map().contains_key(job_name@) ==> r matches Err(TaruError::InvalidJob),
{
    let mut blocks: Vec<Vec<String>> = Vec::new();
    let fuel = jobs.len();
    let ghost sched = job_schedule(job_name@, jobs.as_map(), fuel as nat);
    let pending = collect_job(job_name, jobs, fuel, &mut blocks);
    proof {
        assert(Seq::<Seq<Seq<char>>>::empty() + sched.0 =~= sched.0);
    }
    if blocks.len() == 0 {
        match pending {
            Some(e) => Err(e),
            None => Ok(JobRun::with_pending(blocks, pending)),
        }
    } else {
        Ok(JobRun::with_pending(blocks, pending))
    }
}

/// Resolves the raw configuration into the finalized job set and schedules
/// the named job on it: the whole load-then-run pipeline short of the file
/// reading and shell spawning that the caller performs. A step referencing
/// an undefined variable fails the load with `ParseError`; otherwise the
/// outcome is that of [`run_job`] on the resolved set.
pub fn process_job(job_name: &str, raw_jobs: &Vec<RawJob>, raw_vars: &Vec<RawVar>) -> (r: Result<
    JobRun,
    TaruError,
>)
    ensures
        ({
            let vm = vars_spec_map(raw_vars@);
            let sched = job_schedule(
                job_name@,
                resolved_jobs_map(raw_jobs@, vm),
                raw_jobs@.len(),
            );
            &&& (!jobs_resolve(raw_jobs@, vm) ==> r matches Err(TaruError::ParseError))
            &&& (jobs_resolve(raw_jobs@, vm) ==> matches_schedule(r, sched))
        }),
{
    match resolve_jobs(raw_jobs, raw_vars) {
        Err(e) => Err(e),
        Ok(js) => run_job(job_name, &js),
    }
}

/// The names of all jobs in the set, in the order they were added.
pub fn get_job_names(jobs: &JobSet) -> (r: Vec<String>)
    ensures
        r.deep_view() == jobs.names(),
{
    jobs.name_list()
}

/// An empty step sequence is a valid, trivially successful job: a job with
/// no steps and no prerequisites schedules exactly its own empty block, and
/// its run is complete, successfully, before anything is asked of the
/// caller.
pub proof fn lemma_empty_job_succeeds(name: Seq<char>, jobs: Map<Seq<char>, JobView>, fuel: nat)
    requires
        jobs.contains_key(name),
        jobs[name].steps.len() == 0,
        jobs[name].prerequisites.len() == 0,
        fuel > 0,
    ensures
        job_schedule(name, jobs, fuel).1 is None,
        job_schedule(name, jobs, fuel).0 =~= seq![jobs[name].steps],
        init_run(job_schedule(name, jobs, fuel).0, None).phase is Done,
{
    let sched = job_schedule(name, jobs, fuel);
    assert(prereq_schedule(jobs[name].prerequisites, jobs, (fuel - 1) as nat).1 is None);
    assert(sched.0 =~= seq![jobs[name].steps]);
    let v = RunView {
        blocks: sched.0,
        pending: None,
        block: 0,
        step: 0,
        phase: Phase::Validating,
        failure: None,
    };
    assert(enter_block(v, 0) == enter_block(v, 1));
    assert(enter_block(v, 1).phase is Done);
}

/// Prerequisite ordering: when job `b` requires exactly job `a`, and `a`
/// requires nothing, running `b` schedules all of `a`'s steps, in `a`'s
/// declared order, before any of `b`'s own.
pub proof fn lemma_prerequisite_order(
    a: Seq<char>,
    b: Seq<char>,
    jobs: Map<Seq<char>, JobView>,
    fuel: nat,
)
    requires
        jobs.contains_key(a),
        jobs.contains_key(b),
        jobs[b].prerequisites =~= seq![a],
        jobs[a].prerequisites.len() == 0,
        fuel >= 2,
    ensures
        job_schedule(b, jobs, fuel).1 is None,
        job_schedule(b, jobs, fuel).0 =~= seq![jobs[a].steps, jobs[b].steps],
{
    let f1 = (fuel - 1) as nat;
    assert(job_schedule(a, jobs, f1).1 is None);
    assert(job_schedule(a, jobs, f1).0 =~= seq![jobs[a].steps]);
    let reqs = jobs[b].prerequisites;
    assert(reqs[0] == a);
    let none_reqs = Seq::<Seq<char>>::empty();
    assert(prereq_schedule(none_reqs, jobs, f1).0 =~= Seq::<Seq<Seq<char>>>::empty());
    assert(prereq_schedule(none_reqs, jobs, f1).1 is None);
    assert(reqs.drop_first() =~= none_reqs);
    assert(prereq_schedule(reqs, jobs, f1).1 is None);
    assert(prereq_schedule(reqs, jobs, f1).0 == job_schedule(a, jobs, f1).0 + prereq_schedule(
        none_reqs,
        jobs,
        f1,
    ).0);
    assert(prereq_schedule(reqs, jobs, f1).0 =~= seq![jobs[a].steps]);
    assert(job_schedule(b, jobs, fuel).0 == prereq_schedule(reqs, jobs, f1).0.push(
        jobs[b].steps,
    ));
    assert(job_schedule(b, jobs, fuel).0 =~= seq![jobs[a].steps, jobs[b].steps]);
}

/// Nested prerequisites: when `c` requires `b` and `b` requires `a`,
/// running `c` schedules `a`'s steps, then `b`'s, then `c`'s, in that
/// order.
pub proof fn lemma_nested_prerequisites(
    a: Seq<char>,
    b: Seq<char>,
    c: Seq<char>,
    jobs: Map<Seq<char>, JobView>,
    fuel: nat,
)
    requires
        jobs.contains_key(a),
        jobs.contains_key(b),
        jobs.contains_key(c),
        jobs[c].prerequisites =~= seq![b],
        jobs[b].prerequisites =~= seq![a],
        jobs[a].prerequisites.len() == 0,
        fuel >= 3,
    ensures
        job_schedule(c, jobs, fuel).1 is None,
        job_schedule(c, jobs, fuel).0 =~= seq![jobs[a].steps, jobs[b].steps, jobs[c].steps],
{
    let f1 = (fuel - 1) as nat;
    lemma_prerequisite_order(a, b, jobs, f1);
    let reqs = jobs[c].prerequisites;
    assert(reqs[0] == b);
    let none_reqs = Seq::<Seq<char>>::empty();
    assert(prereq_schedule(none_reqs, jobs, f1).0 =~= Seq::<Seq<Seq<char>>>::empty());
    assert(prereq_schedule(none_reqs, jobs, f1).1 is None);
    assert(reqs.drop_first() =~= none_reqs);
    assert(prereq_schedule(reqs, jobs, f1).1 is None);
    assert(prereq_schedule(reqs, jobs, f1).0 == job_schedule(b, jobs, f1).0 + prereq_schedule(
        none_reqs,
        jobs,
        f1,
    ).0);
    assert(prereq_schedule(reqs, jobs, f1).0 =~= seq![jobs[a].steps, jobs[b].steps]);
    assert(job_schedule(c, jobs, fuel).0 == prereq_schedule(reqs, jobs, f1).0.push(
        jobs[c].steps,
    ));
    assert(job_schedule(c, jobs, fuel).0 =~= seq![
        jobs[a].steps,
        jobs[b].steps,
        jobs[c].steps,
    ]);
}

} // verus!
