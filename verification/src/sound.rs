//! Snapshots that an attempt can leave behind. A tree is sound when the
//! records in it are where a run puts them: in a step, on the commands up
//! to the first that did not succeed and on none after it; in a list of
//! nodes, in the nodes up to the first that did not succeed; in a
//! fallback, in the branch that answers the outcome and in no other; and
//! when every status that is written tells the outcome of its node.

use vstd::prelude::*;
use crate::engine::{
    branch_after, commands_after, node_after, parallel_after, pipeline_after, seq_after,
    step_after, Report,
};
use crate::laws::{
    lemma_children_stop, lemma_first_open, lemma_first_open_unique, lemma_parallel_kind,
    lemma_pipeline_kind, lemma_seq_kind, lemma_seq_stop, lemma_step_kind,
};
use crate::outcome::{
    children_outcome, children_stop, commands_outcome, depth, first_open, interrupted,
    node_outcome, parallel_outcome, seq_outcome, seq_stop, shown, step_outcome,
};
use crate::pipeline::{Command, Fallback, Parallel, Pipeline, Step, StepOrParallel};
use crate::status::Status;

verus! {

/// No command at or after `from` has run.
pub open spec fn commands_untouched(cmds: Seq<Command>, from: int) -> bool {
    forall|i: int| from <= i < cmds.len() ==> (#[trigger] cmds[i]).pending()
}

/// Nothing has run in the branch.
pub open spec fn branch_untouched(branch: Option<Vec<StepOrParallel>>) -> bool
    decreases 0nat, 7nat, 0nat,
{
    match branch {
        None => true,
        Some(items) => seq_untouched(items@, 0, false),
    }
}

/// Nothing has run in any branch of the fallback.
pub open spec fn fallback_untouched(fallback: Option<Fallback>) -> bool
    decreases 0nat, 8nat, 0nat,
{
    match fallback {
        None => true,
        Some(f) => branch_untouched(f.on_failure) && branch_untouched(f.on_success)
            && branch_untouched(f.on_abortion),
    }
}

/// Nothing has run in the step, and no status is written on it.
pub open spec fn step_untouched(step: Step, fb: bool) -> bool
    decreases depth(fb), 0nat, 0nat,
{
    &&& step.status is None
    &&& commands_untouched(step.commands@, 0)
    &&& fb ==> fallback_untouched(step.fallback)
}

/// Nothing has run in the steps at or after `from`.
pub open spec fn children_untouched(steps: Seq<Step>, from: int, fb: bool) -> bool
    decreases depth(fb), 1nat, steps.len() - from,
{
    if 0 <= from < steps.len() {
        step_untouched(steps[from], fb) && children_untouched(steps, from + 1, fb)
    } else {
        true
    }
}

/// Nothing has run in the group, and no status is written on it.
pub open spec fn parallel_untouched(par: Parallel, fb: bool) -> bool
    decreases depth(fb), 3nat, 0nat,
{
    &&& par.status is None
    &&& children_untouched(par.steps@, 0, fb)
    &&& fb ==> fallback_untouched(par.fallback)
}

/// Nothing has run in the node.
pub open spec fn node_untouched(node: StepOrParallel, fb: bool) -> bool
    decreases depth(fb), 4nat, 0nat,
{
    match node {
        StepOrParallel::Step(s) => step_untouched(s, fb),
        StepOrParallel::Parallel(p) => parallel_untouched(p, fb),
    }
}

/// Nothing has run in the nodes at or after `from`.
pub open spec fn seq_untouched(items: Seq<StepOrParallel>, from: int, fb: bool) -> bool
    decreases depth(fb), 5nat, items.len() - from,
{
    if 0 <= from < items.len() {
        node_untouched(items[from], fb) && seq_untouched(items, from + 1, fb)
    } else {
        true
    }
}

/// The records of the commands stop at the first command that has not
/// succeeded.
pub open spec fn commands_sound(cmds: Seq<Command>) -> bool {
    commands_untouched(cmds, first_open(cmds, 0) + 1)
}

/// The branch is as its turn demands: sound where it answers the
/// outcome, untouched where it does not.
pub open spec fn branch_sound(branch: Option<Vec<StepOrParallel>>, entered: bool) -> bool
    decreases 0nat, 7nat, 0nat,
{
    match branch {
        None => true,
        Some(items) => if entered {
            seq_sound(items@, 0, false)
        } else {
            seq_untouched(items@, 0, false)
        },
    }
}

/// The fallback of a node whose own work stands at `main`: the branch
/// that answers `main` is sound and the others are untouched.
pub open spec fn fallback_sound(main: Option<Status>, fallback: Option<Fallback>) -> bool
    decreases 0nat, 8nat, 0nat,
{
    match fallback {
        None => true,
        Some(f) => {
            &&& branch_sound(f.on_failure, main == Some(Status::Failed))
            &&& branch_sound(f.on_success, main == Some(Status::Succeeded))
            &&& branch_sound(f.on_abortion, main == Some(Status::Aborted))
        },
    }
}

/// The status written on a node tells its outcome: it is the outcome
/// once there is one and `Running` before; where none is written
/// nothing has run.
pub open spec fn status_sound(status: Option<Status>, outcome: Option<Status>, untouched: bool) -> bool {
    match status {
        None => untouched,
        Some(s) => s == shown(outcome),
    }
}

/// The step is sound.
pub open spec fn step_sound(step: Step, fb: bool) -> bool
    decreases depth(fb), 0nat, 1nat,
{
    &&& commands_sound(step.commands@)
    &&& fb ==> fallback_sound(commands_outcome(step.commands@), step.fallback)
    &&& status_sound(step.status, step_outcome(step, fb), step_untouched(step, fb))
}

/// The steps at or after `from` are sound. Steps side by side go on
/// independently of each other, so that any of them may have begun.
pub open spec fn children_sound(steps: Seq<Step>, from: int, fb: bool) -> bool
    decreases depth(fb), 1nat, steps.len() - from,
{
    if 0 <= from < steps.len() {
        step_sound(steps[from], fb) && children_sound(steps, from + 1, fb)
    } else {
        true
    }
}

/// The group is sound. In one that does not wait the steps are never
/// touched, and its status says only whether they were started.
pub open spec fn parallel_sound(par: Parallel, fb: bool) -> bool
    decreases depth(fb), 3nat, 0nat,
{
    if par.detached() {
        &&& par.status is None || par.status == Some(Status::Succeeded)
        &&& children_untouched(par.steps@, 0, fb)
        &&& fb ==> fallback_untouched(par.fallback)
    } else {
        &&& children_sound(par.steps@, 0, fb)
        &&& fb ==> fallback_sound(children_outcome(par.steps@, fb), par.fallback)
        &&& status_sound(par.status, parallel_outcome(par, fb), parallel_untouched(par, fb))
    }
}

/// The node is sound.
pub open spec fn node_sound(node: StepOrParallel, fb: bool) -> bool
    decreases depth(fb), 4nat, 0nat,
{
    match node {
        StepOrParallel::Step(s) => step_sound(s, fb),
        StepOrParallel::Parallel(p) => parallel_sound(p, fb),
    }
}

/// The nodes at or after `from` are sound, and those after the first
/// that has not succeeded are untouched.
pub open spec fn seq_sound(items: Seq<StepOrParallel>, from: int, fb: bool) -> bool
    decreases depth(fb), 5nat, items.len() - from,
{
    if 0 <= from < items.len() {
        &&& node_sound(items[from], fb)
        &&& if node_outcome(items[from], fb) == Some(Status::Succeeded) {
            seq_sound(items, from + 1, fb)
        } else {
            seq_untouched(items, from + 1, fb)
        }
    } else {
        true
    }
}

/// The pipeline is sound: its steps are, the branches of its fallback
/// that answer the steps' outcome or an interruption are, and the other
/// branches are untouched.
pub open spec fn pipeline_sound(pipeline: Pipeline) -> bool {
    &&& seq_sound(pipeline.steps@, 0, true)
    &&& match pipeline.fallback {
        None => true,
        Some(f) => {
            let main = seq_outcome(pipeline.steps@, true);
            &&& branch_sound(f.on_failure, main == Some(Status::Failed))
            &&& branch_sound(f.on_success, main == Some(Status::Succeeded))
            &&& branch_sound(f.on_abortion, interrupted(pipeline))
        },
    }
}

/// Nothing has run in the pipeline: the state in which a configuration
/// hands it over. The pipeline's own status is left aside.
pub open spec fn pipeline_untouched(pipeline: Pipeline) -> bool {
    seq_untouched(pipeline.steps@, 0, true) && fallback_untouched(pipeline.fallback)
}

/// A branch in which nothing has run is sound, entered or not.
pub proof fn lemma_branch_untouched_sound(branch: Option<Vec<StepOrParallel>>, entered: bool)
    requires
        branch_untouched(branch),
    ensures
        branch_sound(branch, entered),
    decreases 0nat, 7nat, 0nat,
{
    match branch {
        None => {},
        Some(items) => {
            lemma_seq_untouched_sound(items@, 0, false);
        },
    }
}

/// A fallback in which nothing has run is sound, whatever the outcome of
/// its node.
pub proof fn lemma_fallback_untouched_sound(main: Option<Status>, fallback: Option<Fallback>)
    requires
        fallback_untouched(fallback),
    ensures
        fallback_sound(main, fallback),
    decreases 0nat, 8nat, 0nat,
{
    match fallback {
        None => {},
        Some(f) => {
            lemma_branch_untouched_sound(f.on_failure, main == Some(Status::Failed));
            lemma_branch_untouched_sound(f.on_success, main == Some(Status::Succeeded));
            lemma_branch_untouched_sound(f.on_abortion, main == Some(Status::Aborted));
        },
    }
}

/// A step in which nothing has run is sound.
pub proof fn lemma_step_untouched_sound(step: Step, fb: bool)
    requires
        step_untouched(step, fb),
    ensures
        step_sound(step, fb),
    decreases depth(fb), 0nat, 1nat,
{
    if fb {
        lemma_fallback_untouched_sound(commands_outcome(step.commands@), step.fallback);
    }
}

/// Steps in which nothing has run are sound.
pub proof fn lemma_children_untouched_sound(steps: Seq<Step>, from: int, fb: bool)
    requires
        children_untouched(steps, from, fb),
    ensures
        children_sound(steps, from, fb),
    decreases depth(fb), 1nat, steps.len() - from,
{
    if 0 <= from < steps.len() {
        lemma_step_untouched_sound(steps[from], fb);
        lemma_children_untouched_sound(steps, from + 1, fb);
    }
}

/// A group in which nothing has run is sound.
pub proof fn lemma_parallel_untouched_sound(par: Parallel, fb: bool)
    requires
        parallel_untouched(par, fb),
    ensures
        parallel_sound(par, fb),
    decreases depth(fb), 3nat, 0nat,
{
    if !par.detached() {
        lemma_children_untouched_sound(par.steps@, 0, fb);
        if fb {
            lemma_fallback_untouched_sound(children_outcome(par.steps@, fb), par.fallback);
        }
    }
}

/// A node in which nothing has run is sound.
pub proof fn lemma_node_untouched_sound(node: StepOrParallel, fb: bool)
    requires
        node_untouched(node, fb),
    ensures
        node_sound(node, fb),
    decreases depth(fb), 4nat, 0nat,
{
    match node {
        StepOrParallel::Step(s) => lemma_step_untouched_sound(s, fb),
        StepOrParallel::Parallel(p) => lemma_parallel_untouched_sound(p, fb),
    }
}

/// Nodes in which nothing has run are sound.
pub proof fn lemma_seq_untouched_sound(items: Seq<StepOrParallel>, from: int, fb: bool)
    requires
        seq_untouched(items, from, fb),
    ensures
        seq_sound(items, from, fb),
    decreases depth(fb), 5nat, items.len() - from,
{
    if 0 <= from < items.len() {
        lemma_node_untouched_sound(items[from], fb);
        lemma_seq_untouched_sound(items, from + 1, fb);
    }
}

/// A pipeline in which nothing has run is sound.
pub proof fn lemma_pipeline_untouched_sound(pipeline: Pipeline)
    requires
        pipeline_untouched(pipeline),
    ensures
        pipeline_sound(pipeline),
{
    lemma_seq_untouched_sound(pipeline.steps@, 0, true);
    match pipeline.fallback {
        None => {},
        Some(f) => {
            let main = seq_outcome(pipeline.steps@, true);
            lemma_branch_untouched_sound(f.on_failure, main == Some(Status::Failed));
            lemma_branch_untouched_sound(f.on_success, main == Some(Status::Succeeded));
            lemma_branch_untouched_sound(f.on_abortion, interrupted(pipeline));
        },
    }
}

/// Nodes that are the same from `from` on are untouched together.
pub proof fn lemma_seq_untouched_same(
    a: Seq<StepOrParallel>,
    b: Seq<StepOrParallel>,
    from: int,
    fb: bool,
)
    requires
        0 <= from,
        a.len() == b.len(),
        forall|i: int| from <= i < a.len() ==> a[i] == b[i],
        seq_untouched(a, from, fb),
    ensures
        seq_untouched(b, from, fb),
    decreases a.len() - from,
{
    if from < a.len() {
        lemma_seq_untouched_same(a, b, from + 1, fb);
    }
}

/// A record written into the command that was due leaves the commands
/// sound.
pub proof fn lemma_commands_stay_sound(old: Seq<Command>, new: Seq<Command>, report: Report)
    requires
        commands_sound(old),
        commands_after(old, new, report),
    ensures
        commands_sound(new),
{
    lemma_first_open(old, 0);
    let k = first_open(old, 0);
    if new[k].succeeded() {
        assert forall|j: int| 0 <= j < k + 1 implies (#[trigger] new[j]).succeeded() by {
            if j < k {
                assert(old[j].succeeded());
            }
        }
        lemma_first_open_unique(new, k + 1);
    } else {
        assert forall|j: int| 0 <= j < k implies (#[trigger] new[j]).succeeded() by {
            assert(old[j].succeeded());
        }
        lemma_first_open_unique(new, k);
    }
    assert forall|i: int| first_open(new, 0) + 1 <= i < new.len() implies (#[trigger] new[i]).pending() by {
        assert(old[i].pending());
    }
}

/// A report taken into the branch that answers `main` leaves the
/// fallback sound.
pub proof fn lemma_branch_stays_sound(
    old: Option<Fallback>,
    new: Option<Fallback>,
    main: Status,
    report: Report,
)
    requires
        fallback_sound(Some(main), old),
        branch_after(old, new, main, report),
    ensures
        fallback_sound(Some(main), new),
    decreases 0nat, 9nat, 0nat,
{
    let o = old->0;
    let n = new->0;
    match main {
        Status::Failed => {
            lemma_seq_stays_sound(o.on_failure->0@, n.on_failure->0@, report, false);
        },
        Status::Succeeded => {
            lemma_seq_stays_sound(o.on_success->0@, n.on_success->0@, report, false);
        },
        Status::Aborted => {
            lemma_seq_stays_sound(o.on_abortion->0@, n.on_abortion->0@, report, false);
        },
        _ => {},
    }
}

/// A report taken into a sound step leaves it sound.
pub proof fn lemma_step_stays_sound(old: Step, new: Step, report: Report, fb: bool)
    requires
        step_sound(old, fb),
        step_after(old, new, report, fb),
    ensures
        step_sound(new, fb),
    decreases depth(fb), 0nat, 2nat,
{
    match commands_outcome(old.commands@) {
        None => {
            lemma_commands_stay_sound(old.commands@, new.commands@, report);
            if fb {
                // no branch was entered, so each is untouched and fit to
                // be entered
                match old.fallback {
                    None => {},
                    Some(f) => {
                        let main = commands_outcome(new.commands@);
                        lemma_branch_untouched_sound(f.on_failure, main == Some(Status::Failed));
                        lemma_branch_untouched_sound(
                            f.on_success,
                            main == Some(Status::Succeeded),
                        );
                        lemma_branch_untouched_sound(f.on_abortion, main == Some(Status::Aborted));
                    },
                }
            }
        },
        Some(main) => {
            lemma_branch_stays_sound(old.fallback, new.fallback, main, report);
        },
    }
}

/// A report taken into one of several sound steps leaves them sound.
pub proof fn lemma_children_stay_sound(
    old: Seq<Step>,
    new: Seq<Step>,
    from: int,
    k: int,
    report: Report,
    fb: bool,
)
    requires
        0 <= from,
        0 <= k < old.len(),
        new == old.update(k, new[k]),
        step_after(old[k], new[k], report, fb),
        children_sound(old, from, fb),
    ensures
        children_sound(new, from, fb),
    decreases depth(fb), 1nat, old.len() - from,
{
    if from < old.len() {
        if from == k {
            lemma_step_stays_sound(old[k], new[k], report, fb);
        } else {
            assert(new[from] == old[from]);
        }
        lemma_children_stay_sound(old, new, from + 1, k, report, fb);
    }
}

/// A report taken into a sound group leaves it sound.
pub proof fn lemma_parallel_stays_sound(old: Parallel, new: Parallel, report: Report, fb: bool)
    requires
        parallel_sound(old, fb),
        parallel_after(old, new, report, fb),
    ensures
        parallel_sound(new, fb),
    decreases depth(fb), 3nat, 0nat,
{
    if !old.detached() {
        match children_outcome(old.steps@, fb) {
            None => {
                lemma_children_stop(old.steps@, 0, fb);
                lemma_children_stay_sound(
                    old.steps@,
                    new.steps@,
                    0,
                    children_stop(old.steps@, 0, fb),
                    report,
                    fb,
                );
                if fb {
                    match old.fallback {
                        None => {},
                        Some(f) => {
                            let main = children_outcome(new.steps@, fb);
                            lemma_branch_untouched_sound(
                                f.on_failure,
                                main == Some(Status::Failed),
                            );
                            lemma_branch_untouched_sound(
                                f.on_success,
                                main == Some(Status::Succeeded),
                            );
                            lemma_branch_untouched_sound(
                                f.on_abortion,
                                main == Some(Status::Aborted),
                            );
                        },
                    }
                }
            },
            Some(main) => {
                lemma_branch_stays_sound(old.fallback, new.fallback, main, report);
            },
        }
    }
}

/// A report taken into a sound node leaves it sound.
pub proof fn lemma_node_stays_sound(
    old: StepOrParallel,
    new: StepOrParallel,
    report: Report,
    fb: bool,
)
    requires
        node_sound(old, fb),
        node_after(old, new, report, fb),
    ensures
        node_sound(new, fb),
    decreases depth(fb), 4nat, 0nat,
{
    match old {
        StepOrParallel::Step(o) => {
            lemma_step_stays_sound(o, new->Step_0, report, fb);
        },
        StepOrParallel::Parallel(o) => {
            lemma_parallel_stays_sound(o, new->Parallel_0, report, fb);
        },
    }
}

/// A report taken into sound nodes in a row leaves them sound, from
/// `from` on.
pub proof fn lemma_seq_stays_sound_from(
    old: Seq<StepOrParallel>,
    new: Seq<StepOrParallel>,
    from: int,
    report: Report,
    fb: bool,
)
    requires
        0 <= from <= seq_stop(old, 0, fb),
        seq_stop(old, from, fb) == seq_stop(old, 0, fb),
        seq_sound(old, from, fb),
        seq_after(old, new, report, fb),
    ensures
        seq_sound(new, from, fb),
    decreases depth(fb), 5nat, old.len() - from,
{
    let k = seq_stop(old, 0, fb);
    if from < k {
        assert(new[from] == old[from]);
        lemma_seq_stays_sound_from(old, new, from + 1, report, fb);
    } else {
        lemma_seq_stop(old, from, fb);
        lemma_node_stays_sound(old[k], new[k], report, fb);
        assert(seq_untouched(old, k + 1, fb));
        lemma_seq_untouched_same(old, new, k + 1, fb);
        lemma_seq_untouched_sound(new, k + 1, fb);
    }
}

/// A report taken into a lane of the group at `k` leaves the nodes sound,
/// from `from` on.
pub proof fn lemma_seq_sound_at(
    old: Seq<StepOrParallel>,
    new: Seq<StepOrParallel>,
    from: int,
    k: int,
    o: Parallel,
    n: Parallel,
    lane: int,
    report: Report,
)
    requires
        0 <= from <= k < old.len(),
        k == seq_stop(old, 0, true),
        seq_stop(old, from, true) == k,
        seq_sound(old, from, true),
        old[k] == StepOrParallel::Parallel(o),
        new == old.update(k, StepOrParallel::Parallel(n)),
        !o.detached(),
        children_outcome(o.steps@, true) is None,
        0 <= lane < o.steps@.len(),
        n.non_blocking == o.non_blocking,
        n.fallback == o.fallback,
        n.steps@.len() == o.steps@.len(),
        n.steps@ == o.steps@.update(lane, n.steps@[lane]),
        step_after(o.steps@[lane], n.steps@[lane], report, true),
        n.status == Some(shown(parallel_outcome(n, true))),
    ensures
        seq_sound(new, from, true),
    decreases old.len() - from,
{
    lemma_seq_stop(old, from, true);
    if from < k {
        // the node has succeeded and is as it was
        assert(new[from] == old[from]);
        lemma_seq_sound_at(old, new, from + 1, k, o, n, lane, report);
        assert(node_outcome(new[from], true) == Some(Status::Succeeded));
    } else {
        // the group was sound, with no branch entered
        assert(node_sound(old[k], true));
        assert(parallel_sound(o, true));
        lemma_children_stay_sound(o.steps@, n.steps@, 0, lane, report, true);
        match o.fallback {
            None => {},
            Some(f) => {
                let main = children_outcome(n.steps@, true);
                lemma_branch_untouched_sound(f.on_failure, main == Some(Status::Failed));
                lemma_branch_untouched_sound(f.on_success, main == Some(Status::Succeeded));
                lemma_branch_untouched_sound(f.on_abortion, main == Some(Status::Aborted));
            },
        }
        // so it is sound again, and what follows it is untouched
        assert(node_sound(new[k], true));
        lemma_seq_untouched_same(old, new, k + 1, true);
        lemma_seq_untouched_sound(new, k + 1, true);
    }
}

/// A report taken into sound nodes in a row leaves them sound.
pub proof fn lemma_seq_stays_sound(
    old: Seq<StepOrParallel>,
    new: Seq<StepOrParallel>,
    report: Report,
    fb: bool,
)
    requires
        seq_sound(old, 0, fb),
        seq_after(old, new, report, fb),
    ensures
        seq_sound(new, 0, fb),
    decreases depth(fb), 6nat, 0nat,
{
    lemma_seq_stop(old, 0, fb);
    lemma_seq_stays_sound_from(old, new, 0, report, fb);
}

/// Soundness is kept: a report taken into a sound pipeline leaves it
/// sound.
pub proof fn lemma_pipeline_stays_sound(old: Pipeline, new: Pipeline, report: Report)
    requires
        pipeline_sound(old),
        pipeline_after(old, new, report),
    ensures
        pipeline_sound(new),
{
    lemma_pipeline_kind(new);
    if interrupted(old) {
        let o = old.fallback->0;
        let n = new.fallback->0;
        lemma_seq_stays_sound(o.on_abortion->0@, n.on_abortion->0@, report, false);
    } else {
        match seq_outcome(old.steps@, true) {
            None => {
                lemma_seq_stays_sound(old.steps@, new.steps@, report, true);
                match old.fallback {
                    None => {},
                    Some(f) => {
                        let main = seq_outcome(new.steps@, true);
                        lemma_branch_untouched_sound(f.on_failure, main == Some(Status::Failed));
                        lemma_branch_untouched_sound(
                            f.on_success,
                            main == Some(Status::Succeeded),
                        );
                    },
                }
            },
            Some(main) => {
                let o = old.fallback->0;
                let n = new.fallback->0;
                match main {
                    Status::Failed => {
                        lemma_seq_stays_sound(o.on_failure->0@, n.on_failure->0@, report, false);
                    },
                    Status::Succeeded => {
                        lemma_seq_stays_sound(o.on_success->0@, n.on_success->0@, report, false);
                    },
                    _ => {
                        lemma_seq_kind(old.steps@, true);
                    },
                }
            },
        }
    }
}

/// In a sound step no command after the first that did not succeed has
/// run: what follows a failure is never started.
pub proof fn lemma_sound_step_stops(step: Step, fb: bool, k: int)
    requires
        step_sound(step, fb),
        0 <= k < step.commands@.len(),
        !step.commands@[k].succeeded(),
        forall|j: int| 0 <= j < k ==> (#[trigger] step.commands@[j]).succeeded(),
    ensures
        forall|i: int| k < i < step.commands@.len() ==> (#[trigger] step.commands@[i]).pending(),
{
    lemma_first_open_unique(step.commands@, k);
}

/// The status written on a sound step tells its outcome: it says failed
/// exactly when the step has failed and no branch has made up for it, and
/// succeeded exactly when the step and the branch that followed have.
pub proof fn lemma_sound_step_status(step: Step, fb: bool)
    requires
        step_sound(step, fb),
        step.status is Some,
    ensures
        step.status == Some(Status::Failed) <==> step_outcome(step, fb) == Some(Status::Failed),
        step.status == Some(Status::Succeeded) <==> step_outcome(step, fb) == Some(
            Status::Succeeded,
        ),
        step.status == Some(Status::Running) <==> step_outcome(step, fb) is None,
{
    lemma_step_kind(step, fb);
}

/// The status written on a sound group tells its outcome.
pub proof fn lemma_sound_parallel_status(par: Parallel, fb: bool)
    requires
        parallel_sound(par, fb),
        par.status is Some,
    ensures
        par.status == Some(Status::Failed) <==> parallel_outcome(par, fb) == Some(Status::Failed),
        par.status == Some(Status::Succeeded) <==> parallel_outcome(par, fb) == Some(
            Status::Succeeded,
        ),
{
    lemma_parallel_kind(par, fb);
}

/// Inside a branch a report never reaches a fallback: the fallback of a
/// step that runs in a branch stays as it was, so that no branch starts
/// a branch of its own.
pub proof fn lemma_branch_step_keeps_fallback(old: Step, new: Step, report: Report)
    requires
        step_after(old, new, report, false),
    ensures
        new.fallback == old.fallback,
{
}

/// Inside a branch a report never reaches the fallback of a group.
pub proof fn lemma_branch_group_keeps_fallback(old: Parallel, new: Parallel, report: Report)
    requires
        parallel_after(old, new, report, false),
    ensures
        new.fallback == old.fallback,
{
}

fn commands_are_untouched(cmds: &Vec<Command>) -> (res: bool)
    ensures
        res == commands_untouched(cmds@, 0),
{
    let mut i: usize = 0;
    while i < cmds.len()
        invariant
            i <= cmds@.len(),
            forall|j: int| 0 <= j < i ==> (#[trigger] cmds@[j]).pending(),
        decreases cmds@.len() - i,
    {
        if cmds[i].output.is_some() {
            return false;
        }
        i += 1;
    }
    true
}

fn branch_is_untouched(branch: &Option<Vec<StepOrParallel>>) -> (res: bool)
    ensures
        res == branch_untouched(*branch),
    decreases 0nat, 7nat, 0nat,
{
    match branch {
        None => true,
        Some(items) => seq_is_untouched(items, false),
    }
}

fn fallback_is_untouched(fallback: &Option<Fallback>) -> (res: bool)
    ensures
        res == fallback_untouched(*fallback),
    decreases 0nat, 8nat, 0nat,
{
    match fallback {
        None => true,
        Some(f) => branch_is_untouched(&f.on_failure) && branch_is_untouched(&f.on_success)
            && branch_is_untouched(&f.on_abortion),
    }
}

fn step_is_untouched(step: &Step, fb: bool) -> (res: bool)
    ensures
        res == step_untouched(*step, fb),
    decreases depth(fb), 0nat, 0nat,
{
    step.status.is_none() && commands_are_untouched(&step.commands) && (!fb
        || fallback_is_untouched(&step.fallback))
}

fn children_are_untouched(steps: &Vec<Step>, fb: bool) -> (res: bool)
    ensures
        res == children_untouched(steps@, 0, fb),
    decreases depth(fb), 2nat, 0nat,
{
    let mut i: usize = steps.len();
    while i > 0
        invariant
            i <= steps@.len(),
            children_untouched(steps@, i as int, fb),
        decreases i,
    {
        i -= 1;
        if !step_is_untouched(&steps[i], fb) {
            proof {
                lemma_children_touched(steps@, 0, i as int, fb);
            }
            return false;
        }
    }
    true
}

fn parallel_is_untouched(par: &Parallel, fb: bool) -> (res: bool)
    ensures
        res == parallel_untouched(*par, fb),
    decreases depth(fb), 3nat, 0nat,
{
    par.status.is_none() && children_are_untouched(&par.steps, fb) && (!fb
        || fallback_is_untouched(&par.fallback))
}

fn node_is_untouched(node: &StepOrParallel, fb: bool) -> (res: bool)
    ensures
        res == node_untouched(*node, fb),
    decreases depth(fb), 4nat, 0nat,
{
    match node {
        StepOrParallel::Step(s) => step_is_untouched(s, fb),
        StepOrParallel::Parallel(p) => parallel_is_untouched(p, fb),
    }
}

fn seq_is_untouched(items: &Vec<StepOrParallel>, fb: bool) -> (res: bool)
    ensures
        res == seq_untouched(items@, 0, fb),
    decreases depth(fb), 6nat, 0nat,
{
    let mut i: usize = items.len();
    while i > 0
        invariant
            i <= items@.len(),
            seq_untouched(items@, i as int, fb),
        decreases i,
    {
        i -= 1;
        if !node_is_untouched(&items[i], fb) {
            proof {
                lemma_seq_touched(items@, 0, i as int, fb);
            }
            return false;
        }
    }
    true
}

/// A step that is not untouched makes the steps from any earlier place
/// on not untouched.
proof fn lemma_children_touched(steps: Seq<Step>, from: int, k: int, fb: bool)
    requires
        0 <= from <= k < steps.len(),
        !step_untouched(steps[k], fb),
    ensures
        !children_untouched(steps, from, fb),
    decreases k - from,
{
    if from < k {
        lemma_children_touched(steps, from + 1, k, fb);
    }
}

/// A node that is not untouched makes the nodes from any earlier place
/// on not untouched.
proof fn lemma_seq_touched(items: Seq<StepOrParallel>, from: int, k: int, fb: bool)
    requires
        0 <= from <= k < items.len(),
        !node_untouched(items[k], fb),
    ensures
        !seq_untouched(items, from, fb),
    decreases k - from,
{
    if from < k {
        lemma_seq_touched(items, from + 1, k, fb);
    }
}

impl Pipeline {
    /// Whether nothing has run in the pipeline: no command has a record
    /// and no node a status, in the steps and in the branches. Such a
    /// pipeline is sound, and stays so through every transition.
    pub fn is_untouched(&self) -> (res: bool)
        ensures
            res == pipeline_untouched(*self),
            res ==> pipeline_sound(*self),
    {
        let res = seq_is_untouched(&self.steps, true) && fallback_is_untouched(&self.fallback);
        proof {
            if res {
                lemma_pipeline_untouched_sound(*self);
            }
        }
        res
    }
}

} // verus!
