//! Running a pipeline to its end: the loop that asks for the job that is
//! due, has it done, and takes the report, until the pipeline is over.
//! That it ends is shown by counting the jobs that are left.

use vstd::prelude::*;
use crate::engine::{
    branch_after, failed, node_after, parallel_after, pipeline_after, seq_after, step_after,
    Report,
};
use crate::laws::{lemma_children_stop, lemma_first_open, lemma_pipeline_kind, lemma_seq_stop};
use crate::outcome::{
    broken, children_outcome, children_stop, commands_outcome, depth, first_open, interrupted,
    pipeline_next, pipeline_outcome, seq_outcome, seq_stop, Job, Progress,
};
use crate::pipeline::{Command, Fallback, Output, Parallel, Pipeline, Step, StepOrParallel};
use crate::sound::pipeline_sound;
use crate::status::Status;

verus! {

/// The commands at or after `from` that have not run.
pub open spec fn commands_left(cmds: Seq<Command>, from: int) -> nat
    decreases cmds.len() - from,
{
    if 0 <= from < cmds.len() {
        (if cmds[from].pending() {
            1nat
        } else {
            0nat
        }) + commands_left(cmds, from + 1)
    } else {
        0
    }
}

/// The jobs left in a branch.
pub open spec fn branch_left(branch: Option<Vec<StepOrParallel>>) -> nat
    decreases 0nat, 7nat, 0nat,
{
    match branch {
        None => 0,
        Some(items) => seq_left(items@, 0, false),
    }
}

/// The jobs left in the branches of a fallback.
pub open spec fn fallback_left(fallback: Option<Fallback>) -> nat
    decreases 0nat, 8nat, 0nat,
{
    match fallback {
        None => 0,
        Some(f) => branch_left(f.on_failure) + branch_left(f.on_success) + branch_left(
            f.on_abortion,
        ),
    }
}

/// The jobs left in a step, those of its branches counted at the upper
/// level only.
pub open spec fn step_left(step: Step, fb: bool) -> nat
    decreases depth(fb), 0nat, 0nat,
{
    commands_left(step.commands@, 0) + if fb {
        fallback_left(step.fallback)
    } else {
        0
    }
}

/// The jobs left in the steps at or after `from`.
pub open spec fn children_left(steps: Seq<Step>, from: int, fb: bool) -> nat
    decreases depth(fb), 1nat, steps.len() - from,
{
    if 0 <= from < steps.len() {
        step_left(steps[from], fb) + children_left(steps, from + 1, fb)
    } else {
        0
    }
}

/// The jobs left in a group: for one that does not wait, the one job of
/// starting it.
pub open spec fn parallel_left(par: Parallel, fb: bool) -> nat
    decreases depth(fb), 3nat, 0nat,
{
    if par.detached() {
        if par.status == Some(Status::Succeeded) {
            0
        } else {
            1
        }
    } else {
        children_left(par.steps@, 0, fb) + if fb {
            fallback_left(par.fallback)
        } else {
            0
        }
    }
}

/// The jobs left in a node.
pub open spec fn node_left(node: StepOrParallel, fb: bool) -> nat
    decreases depth(fb), 4nat, 0nat,
{
    match node {
        StepOrParallel::Step(s) => step_left(s, fb),
        StepOrParallel::Parallel(p) => parallel_left(p, fb),
    }
}

/// The jobs left in the nodes at or after `from`.
pub open spec fn seq_left(items: Seq<StepOrParallel>, from: int, fb: bool) -> nat
    decreases depth(fb), 5nat, items.len() - from,
{
    if 0 <= from < items.len() {
        node_left(items[from], fb) + seq_left(items, from + 1, fb)
    } else {
        0
    }
}

/// An upper bound on the jobs that a pipeline can still ask for: the
/// commands that have not run and the groups that have not been started,
/// in its steps and in every branch that may yet be entered.
pub open spec fn pipeline_left(pipeline: Pipeline) -> nat {
    seq_left(pipeline.steps@, 0, true) + fallback_left(pipeline.fallback)
}

/// Commands that are the same from `from` on leave the same number.
proof fn lemma_commands_left_same(a: Seq<Command>, b: Seq<Command>, from: int)
    requires
        0 <= from,
        a.len() == b.len(),
        forall|i: int| from <= i < a.len() ==> a[i] == b[i],
    ensures
        commands_left(a, from) == commands_left(b, from),
    decreases a.len() - from,
{
    if from < a.len() {
        lemma_commands_left_same(a, b, from + 1);
    }
}

/// A record written into the command at `k` leaves one command less.
proof fn lemma_commands_left_filled(old: Seq<Command>, new: Seq<Command>, from: int, k: int)
    requires
        0 <= from <= k < old.len(),
        old[k].pending(),
        new.len() == old.len(),
        !new[k].pending(),
        forall|i: int| 0 <= i < old.len() && i != k ==> new[i] == old[i],
    ensures
        commands_left(new, from) + 1 == commands_left(old, from),
    decreases old.len() - from,
{
    if from < k {
        lemma_commands_left_filled(old, new, from + 1, k);
    } else {
        lemma_commands_left_same(old, new, k + 1);
    }
}

/// Steps that are the same from `from` on leave the same number.
proof fn lemma_children_left_same(a: Seq<Step>, b: Seq<Step>, from: int, fb: bool)
    requires
        0 <= from,
        a.len() == b.len(),
        forall|i: int| from <= i < a.len() ==> a[i] == b[i],
    ensures
        children_left(a, from, fb) == children_left(b, from, fb),
    decreases a.len() - from,
{
    if from < a.len() {
        lemma_children_left_same(a, b, from + 1, fb);
    }
}

/// Nodes that are the same from `from` on leave the same number.
proof fn lemma_seq_left_same(a: Seq<StepOrParallel>, b: Seq<StepOrParallel>, from: int, fb: bool)
    requires
        0 <= from,
        a.len() == b.len(),
        forall|i: int| from <= i < a.len() ==> a[i] == b[i],
    ensures
        seq_left(a, from, fb) == seq_left(b, from, fb),
    decreases a.len() - from,
{
    if from < a.len() {
        lemma_seq_left_same(a, b, from + 1, fb);
    }
}

/// One job less at `k` is one job less among the steps.
pub proof fn lemma_children_left_one(old: Seq<Step>, new: Seq<Step>, from: int, k: int, fb: bool)
    requires
        0 <= from <= k < old.len(),
        new == old.update(k, new[k]),
        step_left(new[k], fb) + 1 == step_left(old[k], fb),
    ensures
        children_left(new, from, fb) + 1 == children_left(old, from, fb),
    decreases old.len() - from,
{
    if from < k {
        assert(new[from] == old[from]);
        lemma_children_left_one(old, new, from + 1, k, fb);
    } else {
        lemma_children_left_same(old, new, k + 1, fb);
    }
}

/// One job less at `k` is one job less among the nodes.
pub proof fn lemma_seq_left_one(
    old: Seq<StepOrParallel>,
    new: Seq<StepOrParallel>,
    from: int,
    k: int,
    fb: bool,
)
    requires
        0 <= from <= k < old.len(),
        new == old.update(k, new[k]),
        node_left(new[k], fb) + 1 == node_left(old[k], fb),
    ensures
        seq_left(new, from, fb) + 1 == seq_left(old, from, fb),
    decreases old.len() - from,
{
    if from < k {
        assert(new[from] == old[from]);
        lemma_seq_left_one(old, new, from + 1, k, fb);
    } else {
        lemma_seq_left_same(old, new, k + 1, fb);
    }
}

/// A report taken into a branch leaves one job less in the fallback.
proof fn lemma_branch_left(
    old: Option<Fallback>,
    new: Option<Fallback>,
    main: Status,
    report: Report,
)
    requires
        branch_after(old, new, main, report),
    ensures
        fallback_left(new) + 1 == fallback_left(old),
    decreases 0nat, 9nat, 0nat,
{
    let o = old->0;
    let n = new->0;
    match main {
        Status::Failed => {
            lemma_seq_left(o.on_failure->0@, n.on_failure->0@, report, false);
        },
        Status::Succeeded => {
            lemma_seq_left(o.on_success->0@, n.on_success->0@, report, false);
        },
        Status::Aborted => {
            lemma_seq_left(o.on_abortion->0@, n.on_abortion->0@, report, false);
        },
        _ => {},
    }
}

/// A report taken into a step leaves one job less in it.
pub proof fn lemma_step_left(old: Step, new: Step, report: Report, fb: bool)
    requires
        step_after(old, new, report, fb),
    ensures
        step_left(new, fb) + 1 == step_left(old, fb),
    decreases depth(fb), 0nat, 1nat,
{
    match commands_outcome(old.commands@) {
        None => {
            lemma_first_open(old.commands@, 0);
            lemma_commands_left_filled(
                old.commands@,
                new.commands@,
                0,
                first_open(old.commands@, 0),
            );
        },
        Some(main) => {
            lemma_branch_left(old.fallback, new.fallback, main, report);
        },
    }
}

/// A report taken into a group leaves one job less in it.
proof fn lemma_parallel_left(old: Parallel, new: Parallel, report: Report, fb: bool)
    requires
        parallel_after(old, new, report, fb),
    ensures
        parallel_left(new, fb) + 1 == parallel_left(old, fb),
    decreases depth(fb), 3nat, 0nat,
{
    if !old.detached() {
        match children_outcome(old.steps@, fb) {
            None => {
                lemma_children_stop(old.steps@, 0, fb);
                let k = children_stop(old.steps@, 0, fb);
                lemma_step_left(old.steps@[k], new.steps@[k], report, fb);
                lemma_children_left_one(old.steps@, new.steps@, 0, k, fb);
            },
            Some(main) => {
                lemma_branch_left(old.fallback, new.fallback, main, report);
            },
        }
    }
}

/// A report taken into a node leaves one job less in it.
proof fn lemma_node_left(old: StepOrParallel, new: StepOrParallel, report: Report, fb: bool)
    requires
        node_after(old, new, report, fb),
    ensures
        node_left(new, fb) + 1 == node_left(old, fb),
    decreases depth(fb), 4nat, 0nat,
{
    match old {
        StepOrParallel::Step(o) => {
            lemma_step_left(o, new->Step_0, report, fb);
        },
        StepOrParallel::Parallel(o) => {
            lemma_parallel_left(o, new->Parallel_0, report, fb);
        },
    }
}

/// A report taken into a list of nodes leaves one job less in it.
proof fn lemma_seq_left(
    old: Seq<StepOrParallel>,
    new: Seq<StepOrParallel>,
    report: Report,
    fb: bool,
)
    requires
        seq_after(old, new, report, fb),
    ensures
        seq_left(new, 0, fb) + 1 == seq_left(old, 0, fb),
    decreases depth(fb), 6nat, 0nat,
{
    lemma_seq_stop(old, 0, fb);
    let k = seq_stop(old, 0, fb);
    lemma_node_left(old[k], new[k], report, fb);
    lemma_seq_left_one(old, new, 0, k, fb);
}

/// Every report that is taken leaves one job less: a pipeline takes no
/// more reports than it holds commands and groups.
pub proof fn lemma_pipeline_left(old: Pipeline, new: Pipeline, report: Report)
    requires
        pipeline_after(old, new, report),
    ensures
        pipeline_left(new) + 1 == pipeline_left(old),
{
    if interrupted(old) {
        lemma_branch_left(old.fallback, new.fallback, Status::Aborted, report);
    } else {
        match seq_outcome(old.steps@, true) {
            None => {
                lemma_seq_left(old.steps@, new.steps@, report, true);
            },
            Some(main) => {
                lemma_branch_left(old.fallback, new.fallback, main, report);
            },
        }
    }
}

/// The report answers the job with what the caller's functions gave for
/// it: for a command, a record that `run` returns on that command; for a
/// group that does not wait, the return of `detach` on that group.
pub open spec fn answered<R: Fn(&Command) -> Result<Output, String>, D: Fn(&Parallel) -> ()>(
    run: R,
    detach: D,
    job: Option<Job>,
    report: Report,
) -> bool {
    match job {
        Some(Job::Run(command)) => report matches Report::Ran(out) && call_ensures(
            run,
            (command,),
            Ok::<Output, String>(out),
        ),
        Some(Job::Detach(group)) => report is Detached && call_ensures(detach, (group,), ()),
        None => false,
    }
}

/// One transition leads from `a` to `b`: some report that answers the job
/// due in `a` was taken.
pub open spec fn moved<R: Fn(&Command) -> Result<Output, String>, D: Fn(&Parallel) -> ()>(
    run: R,
    detach: D,
    a: Pipeline,
    b: Pipeline,
) -> bool {
    exists|report: Report|
        answered(run, detach, pipeline_next(a), report) && #[trigger] pipeline_after(
            a,
            b,
            report,
        )
}

/// Each snapshot of the list comes from the one before it by one
/// transition.
pub open spec fn course<R: Fn(&Command) -> Result<Output, String>, D: Fn(&Parallel) -> ()>(
    run: R,
    detach: D,
    trace: Seq<Pipeline>,
) -> bool {
    forall|i: int|
        0 <= i < trace.len() - 1 ==> moved(run, detach, #[trigger] trace[i], trace[i + 1])
}

/// `log` has taken the snapshot and written it.
pub open spec fn wrote<L: Fn(&Pipeline) -> Result<(), String>>(log: L, snapshot: Pipeline) -> bool {
    call_ensures(log, (&snapshot,), Ok::<(), String>(()))
}

/// `log` has taken the snapshot and failed for the given reason.
pub open spec fn log_failed<L: Fn(&Pipeline) -> Result<(), String>>(
    log: L,
    snapshot: Pipeline,
    reason: String,
) -> bool {
    call_ensures(log, (&snapshot,), Err::<(), String>(reason))
}

/// `run` has taken the command that was due and could not run it, for
/// the given reason.
pub open spec fn run_failed<R: Fn(&Command) -> Result<Output, String>>(
    run: R,
    pipeline: Pipeline,
    reason: String,
) -> bool {
    pipeline_next(pipeline) matches Some(Job::Run(command)) && call_ensures(
        run,
        (command,),
        Err::<Output, String>(reason),
    )
}

/// `log` has written every snapshot of the course after the first, up to
/// the one at `upto`.
pub open spec fn logged<L: Fn(&Pipeline) -> Result<(), String>>(
    log: L,
    trace: Seq<Pipeline>,
    upto: int,
) -> bool {
    forall|i: int| 1 <= i < upto ==> wrote(log, #[trigger] trace[i])
}

/// The pipeline with its outcome written as its status.
pub open spec fn closed(pipeline: Pipeline) -> Pipeline {
    Pipeline { status: pipeline_outcome(pipeline), ..pipeline }
}

/// How a course ends in the snapshot `end` with the result `res`.
///
/// All is well when every snapshot of the course was written to the log,
/// the last one closed, and the closed one written too. The run is broken
/// off for a reason in four ways only: the pipeline was handed over
/// broken, with that reason as its fault; `run` could not run the command
/// due in the last snapshot; `log` could not write the last snapshot; or
/// `log` could not write the closed one.
pub open spec fn ends<R: Fn(&Command) -> Result<Output, String>, L: Fn(&Pipeline) -> Result<
    (),
    String,
>>(run: R, log: L, trace: Seq<Pipeline>, end: Pipeline, res: Result<(), String>) -> bool {
    let last = trace.last();
    match res {
        Ok(_) => {
            &&& logged(log, trace, trace.len() as int)
            &&& end == closed(last)
            &&& wrote(log, end)
        },
        Err(reason) => {
            ||| trace.len() == 1 && last.fault == Some(reason) && end == closed(last)
            ||| logged(log, trace, trace.len() as int) && run_failed(run, last, reason) && end
                == failed(last, reason)
            ||| trace.len() > 1 && logged(log, trace, trace.len() - 1) && log_failed(
                log,
                last,
                reason,
            ) && end == failed(last, reason)
            ||| logged(log, trace, trace.len() as int) && log_failed(log, closed(last), reason)
                && end == failed(closed(last), reason)
        },
    }
}

/// What one turn of a run has done.
enum Turn {
    /// Nothing: the pipeline is over.
    Rest,
    /// The job that was due was done, its report taken and the snapshot
    /// written to the log.
    Step,
    /// `run` could not run the command that was due.
    NoRun(String),
    /// The job was done and its report taken, but `log` could not write
    /// the snapshot.
    NoLog(String),
}

impl Pipeline {
    /// Does the job that is due, takes its report and has the snapshot
    /// written to the log; breaks the attempt off where `run` or `log`
    /// fails.
    fn turn<R, D, L>(&mut self, run: &R, detach: &D, log: &L) -> (res: Turn) where
        R: Fn(&Command) -> Result<Output, String>,
        D: Fn(&Parallel) -> (),
        L: Fn(&Pipeline) -> Result<(), String>,

        requires
            forall|c: &Command| call_requires(*run, (c,)),
            forall|g: &Parallel| call_requires(*detach, (g,)),
            forall|s: &Pipeline| call_requires(*log, (s,)),
        ensures
            match res {
                Turn::Rest => *final(self) == *old(self) && pipeline_outcome(*old(self)) is Some,
                Turn::Step => {
                    &&& moved(*run, *detach, *old(self), *final(self))
                    &&& wrote(*log, *final(self))
                    &&& pipeline_left(*final(self)) < pipeline_left(*old(self))
                },
                Turn::NoRun(reason) => {
                    &&& run_failed(*run, *old(self), reason)
                    &&& *final(self) == failed(*old(self), reason)
                },
                Turn::NoLog(reason) => exists|mid: Pipeline|
                    {
                        &&& #[trigger] moved(*run, *detach, *old(self), mid)
                        &&& log_failed(*log, mid, reason)
                        &&& *final(self) == failed(mid, reason)
                    },
            },
            !(res is Rest) ==> pipeline_outcome(*old(self)) is None,
            res is NoRun || res is NoLog ==> broken(*final(self)) && pipeline_outcome(
                *final(self),
            ) is Some && final(self).status == pipeline_outcome(*final(self)),
            pipeline_sound(*old(self)) ==> pipeline_sound(*final(self)),
    {
        let ghost before = *self;
        let report = match self.progress() {
            Progress::Due(Job::Run(command)) => match run(command) {
                Ok(output) => Report::Ran(output),
                Err(reason) => {
                    let kept = reason.clone();
                    let taken = self.fail(reason);
                    return Turn::NoRun(kept);
                },
            },
            Progress::Due(Job::Detach(group)) => {
                detach(group);
                Report::Detached
            },
            Progress::Over(_) => {
                return Turn::Rest;
            },
        };
        let taken = self.advance(report);
        let ghost mid = *self;
        proof {
            assert(taken);
            lemma_pipeline_left(before, mid, report);
            assert(answered(*run, *detach, pipeline_next(before), report));
            assert(moved(*run, *detach, before, mid));
        }
        let written = log(self);
        match written {
            Ok(unit) => {
                assert(unit == ());
                assert(wrote(*log, mid));
                Turn::Step
            },
            Err(reason) => {
                assert(log_failed(*log, mid, reason));
                let kept = reason.clone();
                let taken = self.fail(reason);
                assert(taken);
                assert(moved(*run, *detach, before, mid) && log_failed(*log, mid, kept) && *self
                    == failed(mid, kept));
                Turn::NoLog(kept)
            },
        }
    }

    /// Writes the outcome of a pipeline that is over as its status and has
    /// the snapshot written to the log. A pipeline that was handed over
    /// broken is closed, not written, and its fault handed back.
    fn close<L>(&mut self, log: &L) -> (res: Result<(), String>) where
        L: Fn(&Pipeline) -> Result<(), String>,

        requires
            forall|s: &Pipeline| call_requires(*log, (s,)),
            pipeline_outcome(*old(self)) is Some,
        ensures
            match res {
                Ok(_) => !broken(*old(self)) && *final(self) == closed(*old(self)) && wrote(
                    *log,
                    *final(self),
                ),
                Err(reason) => if broken(*old(self)) {
                    old(self).fault == Some(reason) && *final(self) == closed(*old(self))
                } else {
                    log_failed(*log, closed(*old(self)), reason) && *final(self) == failed(
                        closed(*old(self)),
                        reason,
                    )
                },
            },
            res is Ok <==> !broken(*final(self)),
            pipeline_outcome(*final(self)) is Some,
            final(self).status == pipeline_outcome(*final(self)),
            pipeline_sound(*old(self)) ==> pipeline_sound(*final(self)),
    {
        proof {
            lemma_pipeline_kind(*self);
        }
        let status = self.progress().over();
        self.status = status;
        proof {
            lemma_pipeline_kind(*self);
        }
        match &self.fault {
            Some(fault) => {
                return Err(fault.clone());
            },
            None => {},
        }
        let ghost shut = *self;
        let written = log(self);
        match written {
            Ok(unit) => {
                assert(unit == ());
                assert(wrote(*log, shut));
                Ok(())
            },
            Err(reason) => {
                assert(log_failed(*log, shut, reason));
                let kept = reason.clone();
                let taken = self.fail(reason);
                proof {
                    lemma_pipeline_kind(*self);
                }
                Err(kept)
            },
        }
    }

    /// Runs the pipeline to its end. Each command that is due is handed
    /// to `run` and its record taken in; each group that does not wait is
    /// handed to `detach`; after every transition, and once more when the
    /// outcome is written as the status, the snapshot is handed to `log`.
    /// Where `run` cannot run a command or `log` cannot write, the attempt
    /// is broken off: the reason is recorded as the pipeline's fault and
    /// handed back.
    ///
    /// The pipeline ends as `ends` says, at the end of a course of
    /// transitions that starts at the given snapshot. So the result is
    /// `Ok` whenever the pipeline is handed over without a fault and
    /// neither `run` nor `log` fails; an error is the fault handed over or
    /// an error of `run` or `log`. Either way the pipeline is over, and a
    /// sound snapshot stays sound.
    pub fn execute<R, D, L>(&mut self, run: &R, detach: &D, log: &L) -> (res: Result<
        (),
        String,
    >) where
        R: Fn(&Command) -> Result<Output, String>,
        D: Fn(&Parallel) -> (),
        L: Fn(&Pipeline) -> Result<(), String>,

        requires
            forall|c: &Command| call_requires(*run, (c,)),
            forall|g: &Parallel| call_requires(*detach, (g,)),
            forall|s: &Pipeline| call_requires(*log, (s,)),
        ensures
            exists|trace: Seq<Pipeline>|
                trace.len() > 0 && trace[0] == *old(self) && #[trigger] course(
                    *run,
                    *detach,
                    trace,
                ) && ends(*run, *log, trace, *final(self), res),
            res matches Err(reason) ==> (old(self).fault == Some(reason) || (exists|c: &Command|
                call_ensures(*run, (c,), Err::<Output, String>(reason))) || (exists|s: &Pipeline|
                call_ensures(*log, (s,), Err::<(), String>(reason)))),
            old(self).fault is None && (forall|c: &Command, reason: String|
                !call_ensures(*run, (c,), Err::<Output, String>(reason))) && (forall|
                s: &Pipeline,
                reason: String,
            | !call_ensures(*log, (s,), Err::<(), String>(reason))) ==> res is Ok,
            res is Ok <==> !broken(*final(self)),
            pipeline_outcome(*final(self)) is Some,
            final(self).status == pipeline_outcome(*final(self)),
            pipeline_sound(*old(self)) ==> pipeline_sound(*final(self)),
    {
        let ghost mut trace: Seq<Pipeline> = seq![*self];
        loop
            invariant
                forall|c: &Command| call_requires(*run, (c,)),
                forall|g: &Parallel| call_requires(*detach, (g,)),
                forall|s: &Pipeline| call_requires(*log, (s,)),
                trace.len() > 0,
                trace[0] == *old(self),
                trace.last() == *self,
                course(*run, *detach, trace),
                logged(*log, trace, trace.len() as int),
                pipeline_sound(*old(self)) ==> pipeline_sound(*self),
            ensures
                pipeline_outcome(*self) is Some,
                trace.len() > 0,
                trace[0] == *old(self),
                trace.last() == *self,
                course(*run, *detach, trace),
                logged(*log, trace, trace.len() as int),
                pipeline_sound(*old(self)) ==> pipeline_sound(*self),
            decreases pipeline_left(*self),
        {
            let ghost before = *self;
            match self.turn(run, detach, log) {
                Turn::Rest => {
                    break ;
                },
                Turn::Step => {
                    proof {
                        lemma_course_longer(*run, *detach, trace, *self);
                        trace = trace.push(*self);
                    }
                },
                Turn::NoRun(reason) => {
                    proof {
                        lemma_err_from_run(*run, before, reason);
                        assert(ends(*run, *log, trace, *self, Err::<(), String>(reason)));
                    }
                    return Err(reason);
                },
                Turn::NoLog(reason) => {
                    proof {
                        let mid = choose|mid: Pipeline|
                            {
                                &&& #[trigger] moved(*run, *detach, before, mid)
                                &&& log_failed(*log, mid, reason)
                                &&& *self == failed(mid, reason)
                            };
                        lemma_course_longer(*run, *detach, trace, mid);
                        let longer = trace.push(mid);
                        assert forall|i: int| 1 <= i < longer.len() - 1 implies wrote(
                            *log,
                            #[trigger] longer[i],
                        ) by {
                            assert(longer[i] == trace[i]);
                        }
                        lemma_err_from_log(*log, mid, reason);
                        assert(ends(*run, *log, longer, *self, Err::<(), String>(reason)));
                        assert(course(*run, *detach, longer));
                    }
                    return Err(reason);
                },
            }
        }
        let ghost last = *self;
        let res = self.close(log);
        proof {
            if res is Err {
                if broken(last) {
                    lemma_broken_stays(*run, *detach, trace);
                } else {
                    lemma_err_from_log(*log, closed(last), res->Err_0);
                }
            }
            assert(ends(*run, *log, trace, *self, res));
        }
        res
    }
}

/// A course goes on by one transition.
proof fn lemma_course_longer<R: Fn(&Command) -> Result<Output, String>, D: Fn(&Parallel) -> ()>(
    run: R,
    detach: D,
    trace: Seq<Pipeline>,
    next: Pipeline,
)
    requires
        trace.len() > 0,
        course(run, detach, trace),
        moved(run, detach, trace.last(), next),
    ensures
        course(run, detach, trace.push(next)),
{
    let longer = trace.push(next);
    assert forall|i: int| 0 <= i < longer.len() - 1 implies moved(
        run,
        detach,
        #[trigger] longer[i],
        longer[i + 1],
    ) by {
        if i < trace.len() - 1 {
            assert(moved(run, detach, trace[i], trace[i + 1]));
        }
    }
}

/// A broken pipeline makes no transition: a course that leads to one has
/// not left its first snapshot.
proof fn lemma_broken_stays<R: Fn(&Command) -> Result<Output, String>, D: Fn(&Parallel) -> ()>(
    run: R,
    detach: D,
    trace: Seq<Pipeline>,
)
    requires
        trace.len() > 0,
        course(run, detach, trace),
        broken(trace.last()),
    ensures
        trace.len() == 1,
{
    if trace.len() > 1 {
        let i = trace.len() - 2;
        assert(moved(run, detach, trace[i], trace[i + 1]));
    }
}

/// An error of `run` on the command that was due is an error of `run`.
proof fn lemma_err_from_run<R: Fn(&Command) -> Result<Output, String>>(
    run: R,
    pipeline: Pipeline,
    reason: String,
)
    requires
        run_failed(run, pipeline, reason),
    ensures
        exists|c: &Command| call_ensures(run, (c,), Err::<Output, String>(reason)),
{
    let command = pipeline_next(pipeline)->0->Run_0;
    assert(call_ensures(run, (command,), Err::<Output, String>(reason)));
}

/// An error of `log` on a snapshot is an error of `log`.
proof fn lemma_err_from_log<L: Fn(&Pipeline) -> Result<(), String>>(
    log: L,
    snapshot: Pipeline,
    reason: String,
)
    requires
        log_failed(log, snapshot, reason),
    ensures
        exists|s: &Pipeline| call_ensures(log, (s,), Err::<(), String>(reason)),
{
    assert(call_ensures(log, (&snapshot,), Err::<(), String>(reason)));
}

} // verus!
