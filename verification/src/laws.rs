//! What holds of every step tree: the meaning of the outcomes in terms of
//! the commands' records, and the agreement of outcome and next job.

use vstd::prelude::*;
use crate::engine::{
    branch_after, commands_after, fits, node_after, parallel_after, pipeline_after, seq_after,
    step_after, Report,
};
use crate::outcome::{
    branch_next, branch_of, children_failed, children_next, children_outcome, children_stop,
    commands_next, commands_outcome, depth, first_open, node_next, node_outcome, parallel_next,
    parallel_outcome, pipeline_next, pipeline_outcome, seq_next, seq_outcome, seq_stop, settled,
    step_next, step_outcome, step_unsuccessful, steps_outcome, interrupted, Job,
};
use crate::pipeline::{Command, Fallback, Parallel, Pipeline, Step, StepOrParallel};
use crate::status::Status;

verus! {

/// The first open command: every command between `from` and it has
/// succeeded, and it has not.
pub proof fn lemma_first_open(cmds: Seq<Command>, from: int)
    requires
        0 <= from <= cmds.len(),
    ensures
        from <= first_open(cmds, from) <= cmds.len(),
        forall|j: int| from <= j < first_open(cmds, from) ==> (#[trigger] cmds[j]).succeeded(),
        first_open(cmds, from) < cmds.len() ==> !cmds[first_open(cmds, from)].succeeded(),
    decreases cmds.len() - from,
{
    if from < cmds.len() && cmds[from].succeeded() {
        lemma_first_open(cmds, from + 1);
    }
}

/// The first open command is the only index with successes before it and
/// none at it.
pub proof fn lemma_first_open_unique(cmds: Seq<Command>, k: int)
    requires
        0 <= k <= cmds.len(),
        forall|j: int| 0 <= j < k ==> (#[trigger] cmds[j]).succeeded(),
        k < cmds.len() ==> !cmds[k].succeeded(),
    ensures
        first_open(cmds, 0) == k,
{
    lemma_first_open(cmds, 0);
}

/// Commands have succeeded as a whole exactly when each has succeeded.
pub proof fn lemma_commands_succeeded(cmds: Seq<Command>)
    ensures
        commands_outcome(cmds) == Some(Status::Succeeded) <==> forall|i: int|
            0 <= i < cmds.len() ==> (#[trigger] cmds[i]).succeeded(),
{
    lemma_first_open(cmds, 0);
}

/// Commands have failed as a whole exactly when one has failed and all
/// before it have succeeded.
pub proof fn lemma_commands_failed(cmds: Seq<Command>)
    ensures
        commands_outcome(cmds) == Some(Status::Failed) <==> exists|k: int|
            0 <= k < cmds.len() && (#[trigger] cmds[k]).failed() && forall|j: int|
                0 <= j < k ==> (#[trigger] cmds[j]).succeeded(),
{
    lemma_first_open(cmds, 0);
    let k0 = first_open(cmds, 0);
    if commands_outcome(cmds) == Some(Status::Failed) {
        assert(cmds[k0].failed());
    }
    if exists|k: int|
        0 <= k < cmds.len() && (#[trigger] cmds[k]).failed() && forall|j: int|
            0 <= j < k ==> (#[trigger] cmds[j]).succeeded() {
        let k = choose|k: int|
            0 <= k < cmds.len() && (#[trigger] cmds[k]).failed() && forall|j: int|
                0 <= j < k ==> (#[trigger] cmds[j]).succeeded();
        lemma_first_open_unique(cmds, k);
    }
}

/// A command is due only when it has not run and every command before it
/// has succeeded: after a failure no later command is ever due.
pub proof fn lemma_commands_due(cmds: Seq<Command>)
    ensures
        commands_next(cmds) matches Some(job) ==> exists|k: int|
            0 <= k < cmds.len() && job == Job::Run(&#[trigger] cmds[k]) && cmds[k].pending()
                && forall|j: int| 0 <= j < k ==> (#[trigger] cmds[j]).succeeded(),
        commands_outcome(cmds) is None <==> commands_next(cmds) is Some,
{
    lemma_first_open(cmds, 0);
    let k0 = first_open(cmds, 0);
    if commands_next(cmds) is Some {
        assert(commands_next(cmds) == Some(Job::Run(&cmds[k0])));
    }
}

/// A record, once written, stays: a report changes no command that has
/// run, and no command's text.
pub proof fn lemma_records_stay(old: Seq<Command>, new: Seq<Command>, report: Report)
    requires
        commands_after(old, new, report),
    ensures
        new.len() == old.len(),
        forall|i: int| 0 <= i < old.len() ==> (#[trigger] new[i]).stdin == old[i].stdin,
        forall|i: int| 0 <= i < old.len() && old[i].output is Some ==> #[trigger] new[i] == old[i],
{
    lemma_first_open(old, 0);
}

/// Inside a branch the fallback of a step plays no part: neither its
/// outcome nor its next job depends on it.
pub proof fn lemma_branch_step_ignores_fallback(step: Step, other: Option<Fallback>)
    ensures
        step_outcome(Step { fallback: other, ..step }, false) == step_outcome(step, false),
        step_next(Step { fallback: other, ..step }, false) == step_next(step, false),
        step_outcome(step, false) == commands_outcome(step.commands@),
{
}

/// A step whose commands are over hands its outcome to the matching
/// branch: where the fallback has one, the step's outcome is the
/// branch's; where it has none, it is that of the commands.
pub proof fn lemma_step_settled(step: Step)
    ensures
        commands_outcome(step.commands@) matches Some(main) ==> step_outcome(step, true) == (
        match branch_of(step.fallback, main) {
            None => Some(main),
            Some(branch) => seq_outcome(branch@, false),
        }),
        commands_outcome(step.commands@) is None ==> step_outcome(step, true) is None,
{
}

/// The first unfinished step of a group: every step between `from` and
/// it has reached its end, and it has not.
pub proof fn lemma_children_stop(steps: Seq<Step>, from: int, fb: bool)
    requires
        0 <= from <= steps.len(),
    ensures
        from <= children_stop(steps, from, fb) <= steps.len(),
        forall|j: int|
            from <= j < children_stop(steps, from, fb) ==> #[trigger] step_outcome(steps[j], fb)
                is Some,
        children_stop(steps, from, fb) < steps.len() ==> step_outcome(
            steps[children_stop(steps, from, fb)],
            fb,
        ) is None,
    decreases steps.len() - from,
{
    if from < steps.len() && step_outcome(steps[from], fb) is Some {
        lemma_children_stop(steps, from + 1, fb);
    }
}

/// Some step at or after `from` has ended otherwise than by success.
pub proof fn lemma_children_failed(steps: Seq<Step>, from: int, fb: bool)
    requires
        0 <= from <= steps.len(),
    ensures
        children_failed(steps, from, fb) <==> exists|i: int|
            from <= i < steps.len() && #[trigger] step_unsuccessful(steps[i], fb),
    decreases steps.len() - from,
{
    if from < steps.len() {
        lemma_children_failed(steps, from + 1, fb);
        if children_failed(steps, from, fb) {
            if step_unsuccessful(steps[from], fb) {
            } else {
                let i = choose|i: int|
                    from + 1 <= i < steps.len() && #[trigger] step_unsuccessful(steps[i], fb);
                assert(from <= i < steps.len() && step_unsuccessful(steps[i], fb));
            }
        }
    }
}

/// A group that is waited for has an outcome exactly when every step
/// has one; it has then succeeded exactly when every step has.
pub proof fn lemma_children_joined(steps: Seq<Step>, fb: bool)
    ensures
        children_outcome(steps, fb) is Some <==> forall|i: int|
            0 <= i < steps.len() ==> #[trigger] step_outcome(steps[i], fb) is Some,
        children_outcome(steps, fb) == Some(Status::Succeeded) <==> forall|i: int|
            0 <= i < steps.len() ==> #[trigger] step_outcome(steps[i], fb) == Some(
                Status::Succeeded,
            ),
        children_outcome(steps, fb) is Some ==> children_outcome(steps, fb) == Some(
            Status::Succeeded,
        ) || children_outcome(steps, fb) == Some(Status::Failed),
{
    lemma_children_stop(steps, 0, fb);
    lemma_children_failed(steps, 0, fb);
    if children_outcome(steps, fb) == Some(Status::Succeeded) {
        assert forall|i: int| 0 <= i < steps.len() implies #[trigger] step_outcome(steps[i], fb)
            == Some(Status::Succeeded) by {
            assert(!step_unsuccessful(steps[i], fb));
        }
    }
    if forall|i: int|
        0 <= i < steps.len() ==> #[trigger] step_outcome(steps[i], fb) == Some(Status::Succeeded) {
        assert forall|i: int| 0 <= i < steps.len() implies !#[trigger] step_unsuccessful(
            steps[i],
            fb,
        ) by {
            assert(step_outcome(steps[i], fb) == Some(Status::Succeeded));
        }
    }
}

/// The first node of a list that has not succeeded: every node between
/// `from` and it has, and it has not.
pub proof fn lemma_seq_stop(items: Seq<StepOrParallel>, from: int, fb: bool)
    requires
        0 <= from <= items.len(),
    ensures
        from <= seq_stop(items, from, fb) <= items.len(),
        forall|j: int|
            from <= j < seq_stop(items, from, fb) ==> #[trigger] node_outcome(items[j], fb)
                == Some(Status::Succeeded),
        seq_stop(items, from, fb) < items.len() ==> node_outcome(
            items[seq_stop(items, from, fb)],
            fb,
        ) != Some(Status::Succeeded),
    decreases items.len() - from,
{
    if from < items.len() && node_outcome(items[from], fb) == Some(Status::Succeeded) {
        lemma_seq_stop(items, from + 1, fb);
    }
}

/// Nodes in a row have succeeded as a whole exactly when each has.
pub proof fn lemma_seq_succeeded(items: Seq<StepOrParallel>, fb: bool)
    ensures
        seq_outcome(items, fb) == Some(Status::Succeeded) <==> forall|i: int|
            0 <= i < items.len() ==> #[trigger] node_outcome(items[i], fb) == Some(
                Status::Succeeded,
            ),
{
    lemma_seq_stop(items, 0, fb);
}

/// In a branch a job is due exactly while there is no outcome.
pub proof fn lemma_branch_due(main: Status, fallback: Option<Fallback>)
    ensures
        settled(main, fallback) is None <==> branch_next(main, fallback) is Some,
    decreases 0nat, 7nat, 0nat,
{
    match branch_of(fallback, main) {
        None => {},
        Some(branch) => {
            lemma_seq_due(branch@, false);
        },
    }
}

/// In a step a job is due exactly while there is no outcome.
pub proof fn lemma_step_due(step: Step, fb: bool)
    ensures
        step_outcome(step, fb) is None <==> step_next(step, fb) is Some,
    decreases depth(fb), 0nat, 0nat,
{
    lemma_commands_due(step.commands@);
    match commands_outcome(step.commands@) {
        None => {},
        Some(main) => {
            if fb {
                lemma_branch_due(main, step.fallback);
            }
        },
    }
}

/// Among steps side by side a job is due exactly while there is no
/// outcome.
pub proof fn lemma_children_due(steps: Seq<Step>, fb: bool)
    ensures
        children_outcome(steps, fb) is None <==> children_next(steps, fb) is Some,
    decreases depth(fb), 2nat, 0nat,
{
    lemma_children_stop(steps, 0, fb);
    let k = children_stop(steps, 0, fb);
    if k < steps.len() {
        lemma_step_due(steps[k], fb);
    }
}

/// In a group a job is due exactly while there is no outcome.
pub proof fn lemma_parallel_due(par: Parallel, fb: bool)
    ensures
        parallel_outcome(par, fb) is None <==> parallel_next(par, fb) is Some,
    decreases depth(fb), 3nat, 0nat,
{
    if !par.detached() {
        lemma_children_due(par.steps@, fb);
        match children_outcome(par.steps@, fb) {
            None => {},
            Some(main) => {
                if fb {
                    lemma_branch_due(main, par.fallback);
                }
            },
        }
    }
}

/// In a node a job is due exactly while there is no outcome.
pub proof fn lemma_node_due(node: StepOrParallel, fb: bool)
    ensures
        node_outcome(node, fb) is None <==> node_next(node, fb) is Some,
    decreases depth(fb), 4nat, 0nat,
{
    match node {
        StepOrParallel::Step(s) => lemma_step_due(s, fb),
        StepOrParallel::Parallel(p) => lemma_parallel_due(p, fb),
    }
}

/// In a list of nodes a job is due exactly while there is no outcome.
pub proof fn lemma_seq_due(items: Seq<StepOrParallel>, fb: bool)
    ensures
        seq_outcome(items, fb) is None <==> seq_next(items, fb) is Some,
    decreases depth(fb), 6nat, 0nat,
{
    lemma_seq_stop(items, 0, fb);
    let k = seq_stop(items, 0, fb);
    if k < items.len() {
        lemma_node_due(items[k], fb);
    }
}

/// The outcome of a branch is success or failure, never another status.
pub proof fn lemma_branch_kind(main: Status, fallback: Option<Fallback>)
    requires
        main == Status::Succeeded || main == Status::Failed || main == Status::Aborted,
    ensures
        settled(main, fallback) matches Some(s) ==> s == Status::Succeeded || s == Status::Failed
            || (s == main && branch_of(fallback, main) is None),
    decreases 0nat, 7nat, 0nat,
{
    match branch_of(fallback, main) {
        None => {},
        Some(branch) => {
            lemma_seq_kind(branch@, false);
        },
    }
}

/// The outcome of a step is success or failure.
pub proof fn lemma_step_kind(step: Step, fb: bool)
    ensures
        step_outcome(step, fb) matches Some(s) ==> s == Status::Succeeded || s == Status::Failed,
    decreases depth(fb), 0nat, 0nat,
{
    match commands_outcome(step.commands@) {
        None => {},
        Some(main) => {
            if fb {
                lemma_branch_kind(main, step.fallback);
            }
        },
    }
}

/// The outcome of a group is success or failure.
pub proof fn lemma_parallel_kind(par: Parallel, fb: bool)
    ensures
        parallel_outcome(par, fb) matches Some(s) ==> s == Status::Succeeded || s
            == Status::Failed,
    decreases depth(fb), 3nat, 0nat,
{
    if !par.detached() {
        match children_outcome(par.steps@, fb) {
            None => {},
            Some(main) => {
                if fb {
                    lemma_branch_kind(main, par.fallback);
                }
            },
        }
    }
}

/// The outcome of a node is success or failure.
pub proof fn lemma_node_kind(node: StepOrParallel, fb: bool)
    ensures
        node_outcome(node, fb) matches Some(s) ==> s == Status::Succeeded || s == Status::Failed,
    decreases depth(fb), 4nat, 0nat,
{
    match node {
        StepOrParallel::Step(s) => lemma_step_kind(s, fb),
        StepOrParallel::Parallel(p) => lemma_parallel_kind(p, fb),
    }
}

/// The outcome of a list of nodes is success or failure.
pub proof fn lemma_seq_kind(items: Seq<StepOrParallel>, fb: bool)
    ensures
        seq_outcome(items, fb) matches Some(s) ==> s == Status::Succeeded || s == Status::Failed,
    decreases depth(fb), 6nat, 0nat,
{
    lemma_seq_stop(items, 0, fb);
    let k = seq_stop(items, 0, fb);
    if k < items.len() {
        lemma_node_kind(items[k], fb);
    }
}

/// The outcome of a pipeline is success or failure while it runs
/// undisturbed, and abortion once it was interrupted.
pub proof fn lemma_pipeline_kind(pipeline: Pipeline)
    ensures
        steps_outcome(pipeline) matches Some(s) ==> s == Status::Succeeded || s == Status::Failed,
        pipeline_outcome(pipeline) matches Some(s) ==> s.terminal() && (s == Status::Aborted
            <==> interrupted(pipeline)),
{
    lemma_seq_kind(pipeline.steps@, true);
    match seq_outcome(pipeline.steps@, true) {
        None => {},
        Some(main) => {
            lemma_branch_kind(main, pipeline.fallback);
        },
    }
}

/// In a pipeline a job is due exactly while there is no outcome.
pub proof fn lemma_pipeline_due(pipeline: Pipeline)
    ensures
        pipeline_outcome(pipeline) is None <==> pipeline_next(pipeline) is Some,
{
    lemma_seq_due(pipeline.steps@, true);
    lemma_branch_due(Status::Aborted, pipeline.fallback);
    match seq_outcome(pipeline.steps@, true) {
        None => {},
        Some(main) => {
            lemma_branch_due(main, pipeline.fallback);
        },
    }
}

/// A pipeline that is over takes no further report.
pub proof fn lemma_over_is_final(pipeline: Pipeline, report: Report)
    requires
        pipeline_outcome(pipeline) is Some,
    ensures
        !fits(pipeline_next(pipeline), report),
{
    lemma_pipeline_due(pipeline);
}

/// A report that is taken leaves the pipeline's identity, name, event and
/// triggers as they were, keeps an interrupted pipeline interrupted and
/// an undisturbed one undisturbed, and leaves a status that tells the
/// truth: the outcome once the pipeline is over, and before that
/// `Running` or, after an interruption, `Aborted`.
pub proof fn lemma_after_status(old: Pipeline, new: Pipeline, report: Report)
    requires
        pipeline_after(old, new, report),
    ensures
        new.uuid == old.uuid,
        new.name == old.name,
        new.event == old.event,
        new.triggers == old.triggers,
        interrupted(new) == interrupted(old),
        pipeline_outcome(new) matches Some(s) ==> new.status == Some(s),
        pipeline_outcome(new) is None ==> new.status == Some(
            if interrupted(old) {
                Status::Aborted
            } else {
                Status::Running
            },
        ),
{
    lemma_pipeline_kind(new);
}

/// A report goes into a branch only as the answer to the job that was
/// due in it.
pub proof fn lemma_branch_after_due(
    old: Option<Fallback>,
    new: Option<Fallback>,
    main: Status,
    report: Report,
)
    requires
        branch_after(old, new, main, report),
    ensures
        fits(branch_next(main, old), report),
    decreases 0nat, 9nat, 0nat,
{
    let o = old->0;
    let n = new->0;
    match main {
        Status::Failed => {
            lemma_seq_after_due(o.on_failure->0@, n.on_failure->0@, report, false);
        },
        Status::Succeeded => {
            lemma_seq_after_due(o.on_success->0@, n.on_success->0@, report, false);
        },
        Status::Aborted => {
            lemma_seq_after_due(o.on_abortion->0@, n.on_abortion->0@, report, false);
        },
        _ => {},
    }
}

/// A report goes into a step only as the answer to the job that was due
/// in it.
pub proof fn lemma_step_after_due(old: Step, new: Step, report: Report, fb: bool)
    requires
        step_after(old, new, report, fb),
    ensures
        fits(step_next(old, fb), report),
    decreases depth(fb), 0nat, 1nat,
{
    match commands_outcome(old.commands@) {
        None => {},
        Some(main) => {
            lemma_branch_after_due(old.fallback, new.fallback, main, report);
        },
    }
}

/// A report goes into a group only as the answer to the job that was due
/// in it.
pub proof fn lemma_parallel_after_due(old: Parallel, new: Parallel, report: Report, fb: bool)
    requires
        parallel_after(old, new, report, fb),
    ensures
        fits(parallel_next(old, fb), report),
    decreases depth(fb), 3nat, 0nat,
{
    if !old.detached() {
        match children_outcome(old.steps@, fb) {
            None => {
                let k = children_stop(old.steps@, 0, fb);
                lemma_step_after_due(old.steps@[k], new.steps@[k], report, fb);
            },
            Some(main) => {
                lemma_branch_after_due(old.fallback, new.fallback, main, report);
            },
        }
    }
}

/// A report goes into a node only as the answer to the job that was due
/// in it.
pub proof fn lemma_node_after_due(
    old: StepOrParallel,
    new: StepOrParallel,
    report: Report,
    fb: bool,
)
    requires
        node_after(old, new, report, fb),
    ensures
        fits(node_next(old, fb), report),
    decreases depth(fb), 4nat, 0nat,
{
    match old {
        StepOrParallel::Step(o) => {
            lemma_step_after_due(o, new->Step_0, report, fb);
        },
        StepOrParallel::Parallel(o) => {
            lemma_parallel_after_due(o, new->Parallel_0, report, fb);
        },
    }
}

/// A report goes into a list of nodes only as the answer to the job that
/// was due in it.
pub proof fn lemma_seq_after_due(
    old: Seq<StepOrParallel>,
    new: Seq<StepOrParallel>,
    report: Report,
    fb: bool,
)
    requires
        seq_after(old, new, report, fb),
    ensures
        fits(seq_next(old, fb), report),
    decreases depth(fb), 6nat, 0nat,
{
    let k = seq_stop(old, 0, fb);
    lemma_node_after_due(old[k], new[k], report, fb);
}

/// Transitions start only where a job is due: a pipeline that a report
/// has changed was not over, and the report answered its job. So the
/// status of an attempt moves forward only: from started to running to
/// its end, and from its end nowhere.
pub proof fn lemma_after_needs_due(old: Pipeline, new: Pipeline, report: Report)
    requires
        pipeline_after(old, new, report),
    ensures
        fits(pipeline_next(old), report),
        pipeline_outcome(old) is None,
{
    if interrupted(old) {
        lemma_branch_after_due(old.fallback, new.fallback, Status::Aborted, report);
    } else {
        match seq_outcome(old.steps@, true) {
            None => {
                lemma_seq_after_due(old.steps@, new.steps@, report, true);
            },
            Some(main) => {
                lemma_branch_after_due(old.fallback, new.fallback, main, report);
            },
        }
    }
    lemma_pipeline_due(old);
}

} // verus!
