//! The execution engine as a machine: the pipeline's snapshot is the
//! state, a report of finished work is the event, and each transition
//! writes the report into the tree and brings the statuses on the way up
//! to date. The caller does the work that `Pipeline::progress` names,
//! reports it with `Pipeline::advance`, and logs the snapshot.

use vstd::prelude::*;
use crate::outcome::{
    branch_next, children_next, children_outcome, children_progress, children_stop,
    commands_next, commands_outcome, commands_progress, depth, first_open, node_next,
    node_progress, parallel_next, parallel_outcome, parallel_progress, pipeline_next,
    pipeline_outcome, seq_next, seq_outcome, seq_progress, seq_stop, shown, step_next,
    step_outcome, step_progress, steps_outcome, broken, interrupted, Job, Progress,
};
use crate::laws::lemma_pipeline_kind;
use crate::pipeline::{Command, Event, Fallback, Output, Parallel, Pipeline, Step, StepOrParallel};
use crate::sound::{lemma_branch_untouched_sound, lemma_pipeline_stays_sound, pipeline_sound};
use crate::status::Status;

verus! {

/// What the caller reports back after a job.
#[derive(Debug)]
pub enum Report {
    /// The command that was due has run and left this record.
    Ran(Output),
    /// The steps of the group that was due have been started.
    Detached,
}

/// The report answers the job that was due.
pub open spec fn fits(job: Option<Job>, report: Report) -> bool {
    match job {
        Some(Job::Run(_)) => report is Ran,
        Some(Job::Detach(_)) => report is Detached,
        None => false,
    }
}

/// `new` is `old` with the record written into the command that was due.
pub open spec fn commands_after(old: Seq<Command>, new: Seq<Command>, report: Report) -> bool {
    let k = first_open(old, 0);
    &&& k < old.len()
    &&& old[k].pending()
    &&& report matches Report::Ran(out)
    &&& new == old.update(k, Command { stdin: old[k].stdin, output: Some(out) })
}

/// `new` is `old` with the report taken into the branch that answers
/// `main`; the other branches are as they were.
pub open spec fn branch_after(
    old: Option<Fallback>,
    new: Option<Fallback>,
    main: Status,
    report: Report,
) -> bool
    decreases 0nat, 7nat, 0nat,
{
    old matches Some(o) && new matches Some(n) && match main {
        Status::Failed => {
            &&& o.on_failure matches Some(ob)
            &&& n.on_failure matches Some(nb)
            &&& seq_after(ob@, nb@, report, false)
            &&& n.on_success == o.on_success
            &&& n.on_abortion == o.on_abortion
        },
        Status::Succeeded => {
            &&& o.on_success matches Some(ob)
            &&& n.on_success matches Some(nb)
            &&& seq_after(ob@, nb@, report, false)
            &&& n.on_failure == o.on_failure
            &&& n.on_abortion == o.on_abortion
        },
        Status::Aborted => {
            &&& o.on_abortion matches Some(ob)
            &&& n.on_abortion matches Some(nb)
            &&& seq_after(ob@, nb@, report, false)
            &&& n.on_failure == o.on_failure
            &&& n.on_success == o.on_success
        },
        _ => false,
    }
}

/// `new` is the step `old` after the report: the report went to the
/// command that was due or, once the commands were over, into the
/// matching branch, and the status shows the new outcome.
pub open spec fn step_after(old: Step, new: Step, report: Report, fb: bool) -> bool
    decreases depth(fb), 0nat, 0nat,
{
    &&& new.name == old.name
    &&& new.non_blocking == old.non_blocking
    &&& match commands_outcome(old.commands@) {
        None => commands_after(old.commands@, new.commands@, report) && new.fallback
            == old.fallback,
        Some(main) => fb && new.commands == old.commands && branch_after(
            old.fallback,
            new.fallback,
            main,
            report,
        ),
    }
    &&& new.status == Some(shown(step_outcome(new, fb)))
}

/// `new` is `old` with the report taken into the first step that had not
/// reached its end.
pub open spec fn children_after(old: Seq<Step>, new: Seq<Step>, report: Report, fb: bool) -> bool
    decreases depth(fb), 2nat, 0nat,
{
    let k = children_stop(old, 0, fb);
    &&& k < old.len()
    &&& new.len() == old.len()
    &&& new == old.update(k, new[k])
    &&& step_after(old[k], new[k], report, fb)
}

/// `new` is the group `old` after the report.
pub open spec fn parallel_after(old: Parallel, new: Parallel, report: Report, fb: bool) -> bool
    decreases depth(fb), 3nat, 0nat,
{
    &&& new.non_blocking == old.non_blocking
    &&& if old.detached() {
        &&& report is Detached
        &&& old.status != Some(Status::Succeeded)
        &&& new.status == Some(Status::Succeeded)
        &&& new.steps == old.steps
        &&& new.fallback == old.fallback
    } else {
        &&& match children_outcome(old.steps@, fb) {
            None => children_after(old.steps@, new.steps@, report, fb) && new.fallback
                == old.fallback,
            Some(main) => fb && new.steps == old.steps && branch_after(
                old.fallback,
                new.fallback,
                main,
                report,
            ),
        }
        &&& new.status == Some(shown(parallel_outcome(new, fb)))
    }
}

/// `new` is the node `old` after the report.
pub open spec fn node_after(old: StepOrParallel, new: StepOrParallel, report: Report, fb: bool) -> bool
    decreases depth(fb), 4nat, 0nat,
{
    match old {
        StepOrParallel::Step(o) => new matches StepOrParallel::Step(n) && step_after(
            o,
            n,
            report,
            fb,
        ),
        StepOrParallel::Parallel(o) => new matches StepOrParallel::Parallel(n) && parallel_after(
            o,
            n,
            report,
            fb,
        ),
    }
}

/// `new` is `old` with the report taken into the first node that had not
/// succeeded.
pub open spec fn seq_after(
    old: Seq<StepOrParallel>,
    new: Seq<StepOrParallel>,
    report: Report,
    fb: bool,
) -> bool
    decreases depth(fb), 6nat, 0nat,
{
    let k = seq_stop(old, 0, fb);
    &&& k < old.len()
    &&& new.len() == old.len()
    &&& new == old.update(k, new[k])
    &&& node_after(old[k], new[k], report, fb)
}

/// `new` is the pipeline `old` after the report: the report went into
/// the steps or, once they were over, into the matching branch of the
/// pipeline's fallback, and the status shows the new outcome. In an
/// interrupted pipeline the report went into the branch for abortion and
/// the status stays. Nothing else has changed.
pub open spec fn pipeline_after(old: Pipeline, new: Pipeline, report: Report) -> bool {
    &&& new.uuid == old.uuid
    &&& new.name == old.name
    &&& new.duration == old.duration
    &&& new.event == old.event
    &&& new.triggers == old.triggers
    &&& old.fault is None
    &&& new.fault is None
    &&& if interrupted(old) {
        &&& new.steps == old.steps
        &&& branch_after(old.fallback, new.fallback, Status::Aborted, report)
        &&& new.status == old.status
    } else {
        &&& match seq_outcome(old.steps@, true) {
            None => seq_after(old.steps@, new.steps@, report, true) && new.fallback
                == old.fallback,
            Some(main) => new.steps == old.steps && branch_after(
                old.fallback,
                new.fallback,
                main,
                report,
            ),
        }
        &&& new.status == Some(shown(steps_outcome(new)))
    }
}

/// The pipeline with an attempt opened under the given event.
pub open spec fn opened(pipeline: Pipeline, event: Event) -> Pipeline {
    Pipeline {
        event: Some(event),
        status: Some(
            match steps_outcome(pipeline) {
                None => Status::Started,
                Some(s) => s,
            },
        ),
        fault: None,
        ..pipeline
    }
}

/// The pipeline after its attempt was broken off for the given reason.
pub open spec fn failed(pipeline: Pipeline, diagnostic: String) -> Pipeline {
    Pipeline {
        fault: Some(diagnostic),
        status: if interrupted(pipeline) {
            pipeline.status
        } else {
            Some(Status::Failed)
        },
        ..pipeline
    }
}

fn commands_advance(cmds: &mut Vec<Command>, report: Report)
    requires
        fits(commands_next(old(cmds)@), report),
    ensures
        commands_after(old(cmds)@, final(cmds)@, report),
{
    let mut i: usize = 0;
    while i < cmds.len() && cmds[i].output.is_some()
        invariant
            i <= cmds.len(),
            *cmds == *old(cmds),
            fits(commands_next(cmds@), report),
            first_open(cmds@, 0) == first_open(cmds@, i as int),
        decreases cmds.len() - i,
    {
        i += 1;
    }
    match report {
        Report::Ran(out) => {
            let command = &mut cmds[i];
            command.output = Some(out);
        },
        Report::Detached => {},
    }
}

fn branch_advance(fallback: &mut Option<Fallback>, main: Status, report: Report)
    requires
        fits(branch_next(main, *old(fallback)), report),
    ensures
        branch_after(*old(fallback), *final(fallback), main, report),
    decreases 0nat, 7nat, 0nat,
{
    match fallback {
        None => {},
        Some(f) => match main {
            Status::Failed => match &mut f.on_failure {
                None => {},
                Some(branch) => {
                    seq_advance(branch, report, false);
                },
            },
            Status::Succeeded => match &mut f.on_success {
                None => {},
                Some(branch) => {
                    seq_advance(branch, report, false);
                },
            },
            Status::Aborted => match &mut f.on_abortion {
                None => {},
                Some(branch) => {
                    seq_advance(branch, report, false);
                },
            },
            _ => {},
        },
    }
}

pub(crate) fn step_advance(step: &mut Step, report: Report, fb: bool)
    requires
        fits(step_next(*old(step), fb), report),
    ensures
        step_after(*old(step), *final(step), report, fb),
    decreases depth(fb), 0nat, 0nat,
{
    let main = commands_progress(&step.commands).over();
    match main {
        None => {
            commands_advance(&mut step.commands, report);
        },
        Some(s) => {
            branch_advance(&mut step.fallback, s, report);
        },
    }
    let status = step_progress(step, fb).status();
    step.status = Some(status);
}

fn children_advance(steps: &mut Vec<Step>, report: Report, fb: bool)
    requires
        fits(children_next(old(steps)@, fb), report),
    ensures
        children_after(old(steps)@, final(steps)@, report, fb),
    decreases depth(fb), 2nat, 0nat,
{
    let mut i: usize = 0;
    while i < steps.len() && step_progress(&steps[i], fb).over().is_some()
        invariant
            i <= steps.len(),
            *steps == *old(steps),
            children_stop(steps@, 0, fb) == children_stop(steps@, i as int, fb),
        decreases steps.len() - i,
    {
        i += 1;
    }
    step_advance(&mut steps[i], report, fb);
}

fn parallel_advance(par: &mut Parallel, report: Report, fb: bool)
    requires
        fits(parallel_next(*old(par), fb), report),
    ensures
        parallel_after(*old(par), *final(par), report, fb),
    decreases depth(fb), 3nat, 0nat,
{
    if par.is_detached() {
        par.status = Some(Status::Succeeded);
    } else {
        let main = children_progress(&par.steps, fb).over();
        match main {
            None => {
                children_advance(&mut par.steps, report, fb);
            },
            Some(s) => {
                branch_advance(&mut par.fallback, s, report);
            },
        }
        let status = parallel_progress(par, fb).status();
        par.status = Some(status);
    }
}

fn node_advance(node: &mut StepOrParallel, report: Report, fb: bool)
    requires
        fits(node_next(*old(node), fb), report),
    ensures
        node_after(*old(node), *final(node), report, fb),
    decreases depth(fb), 4nat, 0nat,
{
    match node {
        StepOrParallel::Step(s) => {
            step_advance(s, report, fb);
        },
        StepOrParallel::Parallel(p) => {
            parallel_advance(p, report, fb);
        },
    }
}

fn seq_advance(items: &mut Vec<StepOrParallel>, report: Report, fb: bool)
    requires
        fits(seq_next(old(items)@, fb), report),
    ensures
        seq_after(old(items)@, final(items)@, report, fb),
    decreases depth(fb), 6nat, 0nat,
{
    let mut i: usize = 0;
    while i < items.len() && node_progress(&items[i], fb).over() == Some(Status::Succeeded)
        invariant
            i <= items.len(),
            *items == *old(items),
            seq_stop(items@, 0, fb) == seq_stop(items@, i as int, fb),
        decreases items.len() - i,
    {
        i += 1;
    }
    node_advance(&mut items[i], report, fb);
}

impl Pipeline {
    /// Opens an attempt: writes the event and the first status, which is
    /// `Started` while a job is due in the steps and their outcome where
    /// none is, and forgets the fault of an earlier attempt.
    pub fn begin(&mut self, event: Event)
        ensures
            *final(self) == opened(*old(self), event),
            !interrupted(*final(self)),
            pipeline_sound(*old(self)) && !interrupted(*old(self)) ==> pipeline_sound(
                *final(self),
            ),
    {
        proof {
            lemma_pipeline_kind(*self);
        }
        let status = match self.steps_progress().over() {
            None => Status::Started,
            Some(s) => s,
        };
        self.event = Some(event);
        self.status = Some(status);
        self.fault = None;
    }

    /// Takes note that the attempt was interrupted. This is done while
    /// the pipeline is not over, and the result says whether it was: the
    /// status becomes `Aborted`, the steps are left as they stand, and the
    /// branch for abortion is what remains to run.
    pub fn abort(&mut self) -> (taken: bool)
        ensures
            taken == (pipeline_outcome(*old(self)) is None && !interrupted(*old(self))),
            taken ==> *final(self) == (Pipeline { status: Some(Status::Aborted), ..*old(self) }),
            !taken ==> *final(self) == *old(self),
            pipeline_sound(*old(self)) ==> pipeline_sound(*final(self)),
    {
        if self.is_interrupted() || self.progress().over().is_some() {
            return false;
        }
        proof {
            if pipeline_sound(*self) && self.fallback is Some {
                lemma_branch_untouched_sound(self.fallback->0.on_abortion, true);
            }
        }
        self.status = Some(Status::Aborted);
        true
    }

    /// Takes note that the attempt cannot go on because the machinery
    /// around the commands has failed. The reason is recorded, the
    /// pipeline is over as failed (as aborted where it was interrupted
    /// before), and no branch of the fallback is turned to. A pipeline
    /// that is broken already keeps its first reason.
    pub fn fail(&mut self, diagnostic: String) -> (taken: bool)
        ensures
            taken == !broken(*old(self)),
            taken ==> *final(self) == failed(*old(self), diagnostic),
            !taken ==> *final(self) == *old(self),
            pipeline_outcome(*final(self)) is Some,
            pipeline_sound(*old(self)) ==> pipeline_sound(*final(self)),
    {
        if self.fault.is_some() {
            return false;
        }
        if !self.is_interrupted() {
            self.status = Some(Status::Failed);
        }
        self.fault = Some(diagnostic);
        true
    }

    /// Takes a report into the snapshot. It is taken when it answers the
    /// job that is due, and the result says whether it was; a report that
    /// does not answer it leaves the snapshot as it is.
    pub fn advance(&mut self, report: Report) -> (taken: bool)
        ensures
            taken == fits(pipeline_next(*old(self)), report),
            taken ==> pipeline_after(*old(self), *final(self), report),
            !taken ==> *final(self) == *old(self),
            pipeline_sound(*old(self)) ==> pipeline_sound(*final(self)),
    {
        let ghost before = *self;
        let fitting = match self.progress() {
            Progress::Due(Job::Run(_)) => match &report {
                Report::Ran(_) => true,
                Report::Detached => false,
            },
            Progress::Due(Job::Detach(_)) => match &report {
                Report::Ran(_) => false,
                Report::Detached => true,
            },
            Progress::Over(_) => false,
        };
        if !fitting {
            return false;
        }
        if self.is_interrupted() {
            branch_advance(&mut self.fallback, Status::Aborted, report);
            proof {
                if pipeline_sound(before) {
                    lemma_pipeline_stays_sound(before, *self, report);
                }
            }
            return true;
        }
        let main = seq_progress(&self.steps, true).over();
        match main {
            None => {
                seq_advance(&mut self.steps, report, true);
            },
            Some(s) => {
                branch_advance(&mut self.fallback, s, report);
            },
        }
        let status = self.steps_progress().status();
        self.status = Some(status);
        proof {
            if pipeline_sound(before) {
                lemma_pipeline_stays_sound(before, *self, report);
            }
        }
        true
    }
}

} // verus!
