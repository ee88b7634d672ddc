//! What a step tree amounts to: the outcome of each node as a function of
//! the records of its commands, and the job that is due next.
//!
//! A tree is read at one of two levels. At the upper level (`fb` true) a
//! node that has reached its end hands over to the matching branch of its
//! fallback, and its outcome is then the branch's. Inside such a branch
//! the tree is read at the lower level (`fb` false), where fallbacks are
//! not looked at: a branch never starts a branch of its own.

use vstd::prelude::*;
use crate::pipeline::{Command, Fallback, Parallel, Pipeline, Step, StepOrParallel};
use crate::status::Status;

verus! {

/// Work that the caller is asked to do.
#[derive(Debug)]
pub enum Job<'a> {
    /// Run this command through the shell and report its record.
    Run(&'a Command),
    /// Start the steps of this group on their own, without waiting, and
    /// report that they were started.
    Detach(&'a Parallel),
}

/// The level of reading as a number: it goes down by one inside a branch.
pub open spec fn depth(fb: bool) -> nat {
    if fb {
        1
    } else {
        0
    }
}

/// The status to write on a node with the given outcome.
pub open spec fn shown(outcome: Option<Status>) -> Status {
    match outcome {
        None => Status::Running,
        Some(s) => s,
    }
}

/// The index of the first command at or after `from` that has not
/// succeeded; the length where there is none.
pub open spec fn first_open(cmds: Seq<Command>, from: int) -> int
    decreases cmds.len() - from,
{
    if 0 <= from < cmds.len() && cmds[from].succeeded() {
        first_open(cmds, from + 1)
    } else {
        from
    }
}

/// The outcome of a list of commands run in order up to the first
/// failure: none while a command is due, failed once one has failed,
/// succeeded when all have succeeded.
pub open spec fn commands_outcome(cmds: Seq<Command>) -> Option<Status> {
    let k = first_open(cmds, 0);
    if k >= cmds.len() {
        Some(Status::Succeeded)
    } else if cmds[k].pending() {
        None
    } else {
        Some(Status::Failed)
    }
}

/// The command that is due in a list of commands.
pub open spec fn commands_next<'a>(cmds: Seq<Command>) -> Option<Job<'a>> {
    let k = first_open(cmds, 0);
    if k < cmds.len() && cmds[k].pending() {
        Some(Job::Run(&cmds[k]))
    } else {
        None
    }
}

/// The branch of a fallback that answers a final status.
pub open spec fn branch_of(fallback: Option<Fallback>, status: Status) -> Option<
    Vec<StepOrParallel>,
> {
    match fallback {
        None => None,
        Some(f) => match status {
            Status::Failed => f.on_failure,
            Status::Succeeded => f.on_success,
            Status::Aborted => f.on_abortion,
            _ => None,
        },
    }
}

/// The outcome of a node whose own work ended with `main`: that of the
/// matching branch where the fallback has one, else `main` itself.
pub open spec fn settled(main: Status, fallback: Option<Fallback>) -> Option<Status>
    decreases 0nat, 7nat, 0nat,
{
    match branch_of(fallback, main) {
        None => Some(main),
        Some(branch) => seq_outcome(branch@, false),
    }
}

/// The outcome of a step.
pub open spec fn step_outcome(step: Step, fb: bool) -> Option<Status>
    decreases depth(fb), 0nat, 0nat,
{
    match commands_outcome(step.commands@) {
        None => None,
        Some(main) => if fb {
            settled(main, step.fallback)
        } else {
            Some(main)
        },
    }
}

/// The index of the first step at or after `from` that has not reached
/// its end; the length where there is none.
pub open spec fn children_stop(steps: Seq<Step>, from: int, fb: bool) -> int
    decreases depth(fb), 1nat, steps.len() - from,
{
    if 0 <= from < steps.len() && step_outcome(steps[from], fb) is Some {
        children_stop(steps, from + 1, fb)
    } else {
        from
    }
}

/// The step has reached its end otherwise than by success.
pub open spec fn step_unsuccessful(step: Step, fb: bool) -> bool
    decreases depth(fb), 0nat, 1nat,
{
    step_outcome(step, fb) is Some && step_outcome(step, fb) != Some(Status::Succeeded)
}

/// Some step at or after `from` has reached its end otherwise than by
/// success.
pub open spec fn children_failed(steps: Seq<Step>, from: int, fb: bool) -> bool
    decreases depth(fb), 1nat, steps.len() - from,
{
    if 0 <= from < steps.len() {
        step_unsuccessful(steps[from], fb) || children_failed(steps, from + 1, fb)
    } else {
        false
    }
}

/// The outcome of steps that run side by side and are waited for: none
/// until every one has reached its end, then failed if any has not
/// succeeded.
pub open spec fn children_outcome(steps: Seq<Step>, fb: bool) -> Option<Status>
    decreases depth(fb), 2nat, 0nat,
{
    if children_stop(steps, 0, fb) < steps.len() {
        None
    } else if children_failed(steps, 0, fb) {
        Some(Status::Failed)
    } else {
        Some(Status::Succeeded)
    }
}

/// The outcome of a group. One that does not wait has succeeded as soon
/// as its steps were started, which its status records, and looks at no
/// fallback.
pub open spec fn parallel_outcome(par: Parallel, fb: bool) -> Option<Status>
    decreases depth(fb), 3nat, 0nat,
{
    if par.detached() {
        if par.status == Some(Status::Succeeded) {
            Some(Status::Succeeded)
        } else {
            None
        }
    } else {
        match children_outcome(par.steps@, fb) {
            None => None,
            Some(main) => if fb {
                settled(main, par.fallback)
            } else {
                Some(main)
            },
        }
    }
}

/// The outcome of a node.
pub open spec fn node_outcome(node: StepOrParallel, fb: bool) -> Option<Status>
    decreases depth(fb), 4nat, 0nat,
{
    match node {
        StepOrParallel::Step(s) => step_outcome(s, fb),
        StepOrParallel::Parallel(p) => parallel_outcome(p, fb),
    }
}

/// The index of the first node at or after `from` that has not
/// succeeded; the length where there is none.
pub open spec fn seq_stop(items: Seq<StepOrParallel>, from: int, fb: bool) -> int
    decreases depth(fb), 5nat, items.len() - from,
{
    if 0 <= from < items.len() && node_outcome(items[from], fb) == Some(Status::Succeeded) {
        seq_stop(items, from + 1, fb)
    } else {
        from
    }
}

/// The outcome of nodes run in order up to the first that does not
/// succeed.
pub open spec fn seq_outcome(items: Seq<StepOrParallel>, fb: bool) -> Option<Status>
    decreases depth(fb), 6nat, 0nat,
{
    let k = seq_stop(items, 0, fb);
    if k >= items.len() {
        Some(Status::Succeeded)
    } else {
        node_outcome(items[k], fb)
    }
}

/// The outcome of a pipeline that runs undisturbed: that of its steps,
/// settled by its fallback.
pub open spec fn steps_outcome(pipeline: Pipeline) -> Option<Status> {
    match seq_outcome(pipeline.steps@, true) {
        None => None,
        Some(main) => settled(main, pipeline.fallback),
    }
}

/// The pipeline's attempt was interrupted, which its status records.
pub open spec fn interrupted(pipeline: Pipeline) -> bool {
    pipeline.status == Some(Status::Aborted)
}

/// The attempt could not go on: the machinery around the commands
/// failed, and the pipeline records why.
pub open spec fn broken(pipeline: Pipeline) -> bool {
    pipeline.fault is Some
}

/// The outcome of a pipeline. One that was interrupted leaves its steps
/// and is over, as aborted, once the branch for abortion is over. One
/// that is broken is over at once, as failed, and turns to no branch.
pub open spec fn pipeline_outcome(pipeline: Pipeline) -> Option<Status> {
    if broken(pipeline) {
        Some(
            if interrupted(pipeline) {
                Status::Aborted
            } else {
                Status::Failed
            },
        )
    } else if interrupted(pipeline) {
        match settled(Status::Aborted, pipeline.fallback) {
            None => None,
            Some(_) => Some(Status::Aborted),
        }
    } else {
        steps_outcome(pipeline)
    }
}

/// The job due in the branch that answers `main`.
pub open spec fn branch_next<'a>(main: Status, fallback: Option<Fallback>) -> Option<Job<'a>>
    decreases 0nat, 7nat, 0nat,
{
    match branch_of(fallback, main) {
        None => None,
        Some(branch) => seq_next(branch@, false),
    }
}

/// The job due in a step.
pub open spec fn step_next<'a>(step: Step, fb: bool) -> Option<Job<'a>>
    decreases depth(fb), 0nat, 0nat,
{
    match commands_outcome(step.commands@) {
        None => commands_next(step.commands@),
        Some(main) => if fb {
            branch_next(main, step.fallback)
        } else {
            None
        },
    }
}

/// The job due among steps that run side by side: that of the first step
/// that has not reached its end.
pub open spec fn children_next<'a>(steps: Seq<Step>, fb: bool) -> Option<Job<'a>>
    decreases depth(fb), 2nat, 0nat,
{
    let k = children_stop(steps, 0, fb);
    if k < steps.len() {
        step_next(steps[k], fb)
    } else {
        None
    }
}

/// The job due in a group.
pub open spec fn parallel_next<'a>(par: Parallel, fb: bool) -> Option<Job<'a>>
    decreases depth(fb), 3nat, 0nat,
{
    if par.detached() {
        if par.status == Some(Status::Succeeded) {
            None
        } else {
            Some(Job::Detach(&par))
        }
    } else {
        match children_outcome(par.steps@, fb) {
            None => children_next(par.steps@, fb),
            Some(main) => if fb {
                branch_next(main, par.fallback)
            } else {
                None
            },
        }
    }
}

/// The job due in a node.
pub open spec fn node_next<'a>(node: StepOrParallel, fb: bool) -> Option<Job<'a>>
    decreases depth(fb), 4nat, 0nat,
{
    match node {
        StepOrParallel::Step(s) => step_next(s, fb),
        StepOrParallel::Parallel(p) => parallel_next(p, fb),
    }
}

/// The job due in a list of nodes: that of the first node that has not
/// succeeded.
pub open spec fn seq_next<'a>(items: Seq<StepOrParallel>, fb: bool) -> Option<Job<'a>>
    decreases depth(fb), 6nat, 0nat,
{
    let k = seq_stop(items, 0, fb);
    if k < items.len() {
        node_next(items[k], fb)
    } else {
        None
    }
}

/// The job due in a pipeline that runs undisturbed.
pub open spec fn steps_next<'a>(pipeline: Pipeline) -> Option<Job<'a>> {
    match seq_outcome(pipeline.steps@, true) {
        None => seq_next(pipeline.steps@, true),
        Some(main) => branch_next(main, pipeline.fallback),
    }
}

/// The job due in a pipeline.
pub open spec fn pipeline_next<'a>(pipeline: Pipeline) -> Option<Job<'a>> {
    if broken(pipeline) {
        None
    } else if interrupted(pipeline) {
        branch_next(Status::Aborted, pipeline.fallback)
    } else {
        steps_next(pipeline)
    }
}

/// Where a tree stands: a job is due, or it is over with a status.
#[derive(Debug)]
pub enum Progress<'a> {
    Due(Job<'a>),
    Over(Status),
}

impl<'a> Progress<'a> {
    /// This value reports the given outcome and next job, which agree:
    /// a job is due exactly while there is no outcome.
    pub open spec fn reports(self, outcome: Option<Status>, next: Option<Job<'a>>) -> bool {
        match self {
            Progress::Over(s) => outcome == Some(s) && next is None,
            Progress::Due(j) => outcome is None && next == Some(j),
        }
    }
}

impl<'a> Progress<'a> {
    /// The status with which the tree is over, if it is.
    pub fn over(&self) -> (res: Option<Status>)
        ensures
            res == match *self {
                Progress::Over(s) => Some(s),
                Progress::Due(_) => None,
            },
    {
        match self {
            Progress::Over(s) => Some(*s),
            Progress::Due(_) => None,
        }
    }

    /// The status to write on a node that stands here.
    pub fn status(&self) -> (res: Status)
        ensures
            res == match *self {
                Progress::Over(s) => s,
                Progress::Due(_) => Status::Running,
            },
    {
        match self {
            Progress::Over(s) => *s,
            Progress::Due(_) => Status::Running,
        }
    }
}

/// Where a list of commands stands.
pub fn commands_progress<'a>(cmds: &'a Vec<Command>) -> (res: Progress<'a>)
    ensures
        res.reports(commands_outcome(cmds@), commands_next(cmds@)),
{
    let mut i: usize = 0;
    while i < cmds.len()
        invariant
            i <= cmds.len(),
            first_open(cmds@, 0) == first_open(cmds@, i as int),
        decreases cmds.len() - i,
    {
        match &cmds[i].output {
            None => {
                return Progress::Due(Job::Run(&cmds[i]));
            },
            Some(o) => {
                if !o.is_success() {
                    return Progress::Over(Status::Failed);
                }
            },
        }
        i += 1;
    }
    Progress::Over(Status::Succeeded)
}

/// The branch of a fallback that answers a final status.
pub fn branch_for<'a>(fallback: &'a Option<Fallback>, status: Status) -> (res: Option<
    &'a Vec<StepOrParallel>,
>)
    ensures
        res is Some <==> branch_of(*fallback, status) is Some,
        res matches Some(b) ==> branch_of(*fallback, status) == Some(*b),
{
    match fallback {
        None => None,
        Some(f) => match status {
            Status::Failed => f.on_failure.as_ref(),
            Status::Succeeded => f.on_success.as_ref(),
            Status::Aborted => f.on_abortion.as_ref(),
            _ => None,
        },
    }
}

/// Where a node stands whose own work ended with `main`.
pub fn settled_progress<'a>(main: Status, fallback: &'a Option<Fallback>) -> (res: Progress<'a>)
    ensures
        res.reports(settled(main, *fallback), branch_next(main, *fallback)),
    decreases 0nat, 7nat, 0nat,
{
    match branch_for(fallback, main) {
        None => Progress::Over(main),
        Some(branch) => seq_progress(branch, false),
    }
}

/// Where a step stands.
pub fn step_progress<'a>(step: &'a Step, fb: bool) -> (res: Progress<'a>)
    ensures
        res.reports(step_outcome(*step, fb), step_next(*step, fb)),
    decreases depth(fb), 0nat, 0nat,
{
    match commands_progress(&step.commands) {
        Progress::Due(job) => Progress::Due(job),
        Progress::Over(main) => if fb {
            settled_progress(main, &step.fallback)
        } else {
            Progress::Over(main)
        },
    }
}

/// Where steps that run side by side stand.
pub fn children_progress<'a>(steps: &'a Vec<Step>, fb: bool) -> (res: Progress<'a>)
    ensures
        res.reports(children_outcome(steps@, fb), children_next(steps@, fb)),
    decreases depth(fb), 2nat, 0nat,
{
    let mut failed = false;
    let mut i: usize = 0;
    while i < steps.len()
        invariant
            i <= steps.len(),
            children_stop(steps@, 0, fb) == children_stop(steps@, i as int, fb),
            children_failed(steps@, 0, fb) == (failed || children_failed(steps@, i as int, fb)),
        decreases steps.len() - i,
    {
        match step_progress(&steps[i], fb) {
            Progress::Due(job) => {
                return Progress::Due(job);
            },
            Progress::Over(s) => {
                assert(step_unsuccessful(steps@[i as int], fb) == (s != Status::Succeeded));
                if s != Status::Succeeded {
                    failed = true;
                }
            },
        }
        i += 1;
    }
    if failed {
        Progress::Over(Status::Failed)
    } else {
        Progress::Over(Status::Succeeded)
    }
}

/// Where a group stands.
pub fn parallel_progress<'a>(par: &'a Parallel, fb: bool) -> (res: Progress<'a>)
    ensures
        res.reports(parallel_outcome(*par, fb), parallel_next(*par, fb)),
    decreases depth(fb), 3nat, 0nat,
{
    if par.is_detached() {
        match par.status {
            Some(Status::Succeeded) => Progress::Over(Status::Succeeded),
            _ => Progress::Due(Job::Detach(par)),
        }
    } else {
        match children_progress(&par.steps, fb) {
            Progress::Due(job) => Progress::Due(job),
            Progress::Over(main) => if fb {
                settled_progress(main, &par.fallback)
            } else {
                Progress::Over(main)
            },
        }
    }
}

/// Where a node stands.
pub fn node_progress<'a>(node: &'a StepOrParallel, fb: bool) -> (res: Progress<'a>)
    ensures
        res.reports(node_outcome(*node, fb), node_next(*node, fb)),
    decreases depth(fb), 4nat, 0nat,
{
    match node {
        StepOrParallel::Step(s) => step_progress(s, fb),
        StepOrParallel::Parallel(p) => parallel_progress(p, fb),
    }
}

/// Where a list of nodes stands.
pub fn seq_progress<'a>(items: &'a Vec<StepOrParallel>, fb: bool) -> (res: Progress<'a>)
    ensures
        res.reports(seq_outcome(items@, fb), seq_next(items@, fb)),
    decreases depth(fb), 6nat, 0nat,
{
    let mut i: usize = 0;
    while i < items.len()
        invariant
            i <= items.len(),
            seq_stop(items@, 0, fb) == seq_stop(items@, i as int, fb),
        decreases items.len() - i,
    {
        match node_progress(&items[i], fb) {
            Progress::Over(Status::Succeeded) => {},
            other => {
                return other;
            },
        }
        i += 1;
    }
    Progress::Over(Status::Succeeded)
}

impl Pipeline {
    /// Where the pipeline stands: the job that is due, or the status
    /// with which it is over.
    pub fn progress<'a>(&'a self) -> (res: Progress<'a>)
        ensures
            res.reports(pipeline_outcome(*self), pipeline_next(*self)),
    {
        if self.fault.is_some() {
            if self.is_interrupted() {
                Progress::Over(Status::Aborted)
            } else {
                Progress::Over(Status::Failed)
            }
        } else if self.is_interrupted() {
            match settled_progress(Status::Aborted, &self.fallback) {
                Progress::Due(job) => Progress::Due(job),
                Progress::Over(_) => Progress::Over(Status::Aborted),
            }
        } else {
            self.steps_progress()
        }
    }

    /// Where the pipeline stands when its status is left aside.
    pub fn steps_progress<'a>(&'a self) -> (res: Progress<'a>)
        ensures
            res.reports(steps_outcome(*self), steps_next(*self)),
    {
        match seq_progress(&self.steps, true) {
            Progress::Due(job) => Progress::Due(job),
            Progress::Over(main) => settled_progress(main, &self.fallback),
        }
    }

    /// Whether the attempt was interrupted.
    pub fn is_interrupted(&self) -> (res: bool)
        ensures
            res == interrupted(*self),
    {
        match self.status {
            Some(Status::Aborted) => true,
            _ => false,
        }
    }
}

} // verus!
