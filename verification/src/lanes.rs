//! Steps side by side. While a group of the pipeline's own steps is
//! waited for, each of its steps is a lane: the job due in each lane may
//! be done at the same time as those of the others, and the reports are
//! taken in whatever order they come. The group has its outcome only
//! once every lane has reached its end.

use vstd::prelude::*;
use crate::engine::{fits, step_advance, step_after, Report};
use crate::laws::{
    lemma_children_stop, lemma_pipeline_due, lemma_pipeline_kind, lemma_seq_stop,
    lemma_step_after_due, lemma_step_due,
};
use crate::outcome::{
    broken, children_outcome, children_progress, children_stop, interrupted, node_progress,
    parallel_outcome, parallel_progress, pipeline_next, pipeline_outcome, seq_outcome, seq_stop,
    shown, step_next, step_progress, steps_outcome, Job, Progress,
};
use crate::pipeline::{Parallel, Pipeline, Step, StepOrParallel};
use crate::run::{
    lemma_children_left_one, lemma_seq_left_one, lemma_step_left, pipeline_left,
};
use crate::sound::{lemma_branch_untouched_sound, lemma_seq_sound_at, pipeline_sound};
use crate::status::Status;

verus! {

/// The place, among the pipeline's steps, of the group whose steps are
/// under way: the first node that has not succeeded, where that is a
/// group that is waited for and not all of its steps have reached their
/// end. None while no such group is under way.
pub open spec fn active_group(pipeline: Pipeline) -> Option<int> {
    let k = seq_stop(pipeline.steps@, 0, true);
    if !broken(pipeline) && !interrupted(pipeline) && k < pipeline.steps@.len() && (
    pipeline.steps@[k] matches StepOrParallel::Parallel(group) && !group.detached()
        && children_outcome(group.steps@, true) is None) {
        Some(k)
    } else {
        None
    }
}

/// The steps of the group that is under way; none while there is none.
pub open spec fn lanes_of(pipeline: Pipeline) -> Seq<Step> {
    match active_group(pipeline) {
        None => Seq::empty(),
        Some(k) => pipeline.steps@[k]->Parallel_0.steps@,
    }
}

/// The job due in a lane; none where the lane has reached its end, and
/// where there is no such lane.
pub open spec fn lane_next<'a>(pipeline: Pipeline, lane: int) -> Option<Job<'a>> {
    if 0 <= lane < lanes_of(pipeline).len() {
        step_next(lanes_of(pipeline)[lane], true)
    } else {
        None
    }
}

/// `new` is the pipeline `old` after the report was taken into a lane:
/// the lane's step has taken it, the group and the pipeline show their
/// new outcome, and nothing else has changed.
pub open spec fn lane_after(old: Pipeline, new: Pipeline, lane: int, report: Report) -> bool {
    &&& active_group(old) matches Some(k)
    &&& 0 <= lane < lanes_of(old).len()
    &&& new.steps@ == old.steps@.update(k, new.steps@[k])
    &&& new.steps@[k] matches StepOrParallel::Parallel(group)
    &&& group.non_blocking == old.steps@[k]->Parallel_0.non_blocking
    &&& group.fallback == old.steps@[k]->Parallel_0.fallback
    &&& group.steps@ == lanes_of(old).update(lane, group.steps@[lane])
    &&& step_after(lanes_of(old)[lane], group.steps@[lane], report, true)
    &&& group.status == Some(shown(parallel_outcome(group, true)))
    &&& new.uuid == old.uuid
    &&& new.name == old.name
    &&& new.duration == old.duration
    &&& new.event == old.event
    &&& new.triggers == old.triggers
    &&& new.fallback == old.fallback
    &&& new.fault == old.fault
    &&& new.status == Some(shown(steps_outcome(new)))
}

impl Pipeline {
    /// The place of the group whose steps are under way.
    pub fn get_active_group(&self) -> (res: Option<usize>)
        ensures
            res is Some <==> active_group(*self) is Some,
            res matches Some(k) ==> active_group(*self) == Some(k as int),
    {
        if self.fault.is_some() || self.is_interrupted() {
            return None;
        }
        let mut i: usize = 0;
        while i < self.steps.len() && node_progress(&self.steps[i], true).over() == Some(
            Status::Succeeded,
        )
            invariant
                i <= self.steps@.len(),
                seq_stop(self.steps@, 0, true) == seq_stop(self.steps@, i as int, true),
            decreases self.steps@.len() - i,
        {
            i += 1;
        }
        if i == self.steps.len() {
            return None;
        }
        match &self.steps[i] {
            StepOrParallel::Step(_) => None,
            StepOrParallel::Parallel(group) => {
                if !group.is_detached() && children_progress(&group.steps, true).over().is_none() {
                    Some(i)
                } else {
                    None
                }
            },
        }
    }

    /// The jobs that may be done side by side: for each lane of the
    /// group that is under way the job due in it, none for a lane that
    /// has reached its end. Empty while no group is under way; the one
    /// job then due is given by `progress`.
    pub fn lanes<'a>(&'a self) -> (res: Vec<Option<Job<'a>>>)
        ensures
            res@.len() == lanes_of(*self).len(),
            forall|i: int| 0 <= i < res@.len() ==> #[trigger] res@[i] == lane_next(*self, i),
    {
        let mut out: Vec<Option<Job<'a>>> = Vec::new();
        match self.get_active_group() {
            None => {},
            Some(k) => match &self.steps[k] {
                StepOrParallel::Step(_) => {},
                StepOrParallel::Parallel(group) => {
                    let mut i: usize = 0;
                    while i < group.steps.len()
                        invariant
                            i <= group.steps@.len(),
                            group.steps@ == lanes_of(*self),
                            out@.len() == i,
                            forall|j: int|
                                0 <= j < i ==> #[trigger] out@[j] == lane_next(*self, j),
                        decreases group.steps@.len() - i,
                    {
                        match step_progress(&group.steps[i], true) {
                            Progress::Due(job) => out.push(Some(job)),
                            Progress::Over(_) => out.push(None),
                        }
                        i += 1;
                    }
                },
            },
        }
        out
    }

    /// Takes a report into a lane of the group that is under way. It is
    /// taken when it answers the job due in that lane, and the result
    /// says whether it was; else the snapshot is left as it is.
    pub fn advance_lane(&mut self, lane: usize, report: Report) -> (taken: bool)
        ensures
            taken == fits(lane_next(*old(self), lane as int), report),
            taken ==> lane_after(*old(self), *final(self), lane as int, report),
            !taken ==> *final(self) == *old(self),
            pipeline_sound(*old(self)) ==> pipeline_sound(*final(self)),
    {
        let ghost before = *self;
        let k = match self.get_active_group() {
            None => {
                return false;
            },
            Some(k) => k,
        };
        let fitting = match &self.steps[k] {
            StepOrParallel::Step(_) => false,
            StepOrParallel::Parallel(group) => lane < group.steps.len() && match step_progress(
                &group.steps[lane],
                true,
            ) {
                Progress::Due(Job::Run(_)) => match &report {
                    Report::Ran(_) => true,
                    Report::Detached => false,
                },
                Progress::Due(Job::Detach(_)) => match &report {
                    Report::Ran(_) => false,
                    Report::Detached => true,
                },
                Progress::Over(_) => false,
            },
        };
        if !fitting {
            return false;
        }
        match &mut self.steps[k] {
            StepOrParallel::Step(_) => {},
            StepOrParallel::Parallel(group) => {
                step_advance(&mut group.steps[lane], report, true);
                let status = parallel_progress(group, true).status();
                group.status = Some(status);
            },
        }
        let status = self.steps_progress().status();
        self.status = Some(status);
        proof {
            if pipeline_sound(before) {
                lemma_lane_stays_sound(before, *self, lane as int, report);
            }
        }
        true
    }
}

/// The job that `progress` names while a group is under way is the one
/// due in its first lane that has not reached its end: taking reports in
/// the order of `progress` is one way of taking them lane by lane.
pub proof fn lemma_first_lane(pipeline: Pipeline)
    requires
        active_group(pipeline) is Some,
    ensures
        exists|lane: int|
            0 <= lane < lanes_of(pipeline).len() && #[trigger] lane_next(pipeline, lane)
                == pipeline_next(pipeline) && pipeline_next(pipeline) is Some,
{
    let k = active_group(pipeline)->0;
    let group = pipeline.steps@[k]->Parallel_0;
    lemma_children_stop(group.steps@, 0, true);
    let lane = children_stop(group.steps@, 0, true);
    lemma_step_due(group.steps@[lane], true);
    assert(lane_next(pipeline, lane) == pipeline_next(pipeline));
}

/// The group that is under way has no outcome before every lane has
/// reached its end: it is joined, whatever the order of the reports.
pub proof fn lemma_lanes_joined(pipeline: Pipeline)
    requires
        active_group(pipeline) is Some,
    ensures
        pipeline_outcome(pipeline) is None,
        exists|lane: int|
            0 <= lane < lanes_of(pipeline).len() && #[trigger] lane_next(pipeline, lane) is Some,
{
    lemma_first_lane(pipeline);
    lemma_pipeline_due(pipeline);
}

/// A report taken into a lane leaves a sound pipeline sound.
pub proof fn lemma_lane_stays_sound(old: Pipeline, new: Pipeline, lane: int, report: Report)
    requires
        pipeline_sound(old),
        lane_after(old, new, lane, report),
    ensures
        pipeline_sound(new),
{
    let k = active_group(old)->0;
    let o = old.steps@[k]->Parallel_0;
    let n = new.steps@[k]->Parallel_0;
    lemma_seq_stop(old.steps@, 0, true);
    lemma_pipeline_kind(new);
    lemma_seq_sound_at(old.steps@, new.steps@, 0, k, o, n, lane, report);
    // the pipeline's fallback is as it was, and no branch of it has
    // been entered
    match old.fallback {
        None => {},
        Some(f) => {
            let main = seq_outcome(new.steps@, true);
            lemma_branch_untouched_sound(f.on_failure, main == Some(Status::Failed));
            lemma_branch_untouched_sound(
                f.on_success,
                main == Some(Status::Succeeded),
            );
        },
    }
}

/// A report taken into a lane leaves one job less.
pub proof fn lemma_lane_left(old: Pipeline, new: Pipeline, lane: int, report: Report)
    requires
        lane_after(old, new, lane, report),
    ensures
        pipeline_left(new) + 1 == pipeline_left(old),
{
    let k = active_group(old)->0;
    let o = old.steps@[k]->Parallel_0;
    let n = new.steps@[k]->Parallel_0;
    lemma_seq_stop(old.steps@, 0, true);
    lemma_step_left(o.steps@[lane], n.steps@[lane], report, true);
    lemma_children_left_one(o.steps@, n.steps@, 0, lane, true);
    lemma_seq_left_one(old.steps@, new.steps@, 0, k, true);
}

/// A report goes into a lane only as the answer to the job that was due
/// in it.
pub proof fn lemma_lane_after_due(old: Pipeline, new: Pipeline, lane: int, report: Report)
    requires
        lane_after(old, new, lane, report),
    ensures
        fits(lane_next(old, lane), report),
{
    let k = active_group(old)->0;
    let n = new.steps@[k]->Parallel_0;
    lemma_step_after_due(lanes_of(old)[lane], n.steps@[lane], report, true);
}

} // verus!
