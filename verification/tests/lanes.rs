use pipelight::engine::Report;
use pipelight::outcome::{Job, Progress};
use pipelight::pipeline::{Command, Event, Output, Parallel, Pipeline, Step, StepOrParallel};
use pipelight::status::Status;
use pipelight::trigger::Trigger;

fn lane_step(name: &str, commands: &[&str]) -> Step {
    Step {
        name: name.to_owned(),
        status: None,
        commands: commands.iter().map(|c| Command::from_stdin((*c).to_owned())).collect(),
        non_blocking: None,
        fallback: None,
    }
}

fn success() -> Report {
    Report::Ran(Output::new(0, String::new(), String::new()))
}

fn failure() -> Report {
    Report::Ran(Output::new(1, String::new(), String::new()))
}

fn group_of(pipeline: &Pipeline, at: usize) -> &Parallel {
    match &pipeline.steps[at] {
        StepOrParallel::Parallel(g) => g,
        StepOrParallel::Step(_) => panic!("not a group"),
    }
}

fn due_in_lanes(pipeline: &Pipeline) -> Vec<Option<String>> {
    pipeline
        .lanes()
        .into_iter()
        .map(|job| match job {
            Some(Job::Run(command)) => Some(command.stdin.clone()),
            Some(Job::Detach(_)) => Some("<detach>".to_owned()),
            None => None,
        })
        .collect()
}

fn two_lanes() -> Pipeline {
    let group = Parallel {
        status: None,
        steps: vec![lane_step("left", &["l1", "l2"]), lane_step("right", &["r1", "r2"])],
        non_blocking: None,
        fallback: None,
    };
    let mut p = Pipeline::named(
        "lanes".to_owned(),
        vec![
            StepOrParallel::Step(lane_step("before", &["b"])),
            StepOrParallel::Parallel(group),
            StepOrParallel::Step(lane_step("after", &["a"])),
        ],
    );
    p.begin(Event::new(Trigger::new(), 1));
    p
}

#[test]
fn lanes_open_when_the_group_is_reached() {
    let mut p = two_lanes();
    assert_eq!(p.get_active_group(), None);
    assert!(p.lanes().is_empty());
    assert!(!p.advance_lane(0, success()));
    assert!(p.advance(success()));
    assert_eq!(p.get_active_group(), Some(1));
    assert_eq!(due_in_lanes(&p), vec![Some("l1".to_owned()), Some("r1".to_owned())]);
}

#[test]
fn reports_are_taken_in_any_order() {
    let mut p = two_lanes();
    assert!(p.advance(success()));
    assert!(p.advance_lane(1, success()));
    assert_eq!(due_in_lanes(&p), vec![Some("l1".to_owned()), Some("r2".to_owned())]);
    assert!(p.advance_lane(0, success()));
    assert!(p.advance_lane(1, success()));
    // the right lane is over; the group waits for the left one
    assert_eq!(due_in_lanes(&p), vec![Some("l2".to_owned()), None]);
    assert!(!p.advance_lane(1, success()));
    assert!(!p.advance_lane(2, success()));
    assert_eq!(group_of(&p, 1).status, Some(Status::Running));
    assert_eq!(group_of(&p, 1).steps[1].status, Some(Status::Succeeded));
    assert_eq!(p.progress().over(), None);
    assert!(p.advance_lane(0, success()));
    assert_eq!(group_of(&p, 1).status, Some(Status::Succeeded));
    assert_eq!(p.get_active_group(), None);
    assert!(p.lanes().is_empty());
    match p.progress() {
        Progress::Due(Job::Run(c)) => assert_eq!(c.stdin, "a"),
        other => panic!("{:?}", other),
    }
}

#[test]
fn a_failing_lane_does_not_stop_the_others() {
    let mut p = two_lanes();
    assert!(p.advance(success()));
    assert!(p.advance_lane(1, failure()));
    // one child has failed: the group has no outcome yet
    assert_eq!(group_of(&p, 1).steps[1].status, Some(Status::Failed));
    assert_eq!(group_of(&p, 1).status, Some(Status::Running));
    assert_eq!(p.status, Some(Status::Running));
    assert_eq!(due_in_lanes(&p), vec![Some("l1".to_owned()), None]);
    assert!(p.advance_lane(0, success()));
    assert!(p.advance_lane(0, success()));
    // both children are over: the group has failed, and so has the pipeline
    assert_eq!(group_of(&p, 1).status, Some(Status::Failed));
    assert_eq!(p.status, Some(Status::Failed));
    assert_eq!(p.progress().over(), Some(Status::Failed));
    assert!(group_of(&p, 1).steps[1].commands[1].output.is_none());
    assert!(p.lanes().is_empty());
    assert!(!p.advance_lane(0, success()));
}

#[test]
fn lanes_and_the_order_of_progress_agree() {
    let mut p = two_lanes();
    assert!(p.advance(success()));
    assert!(p.advance_lane(1, success()));
    // `advance` goes on in the first lane that is not over
    assert!(p.advance(success()));
    assert_eq!(due_in_lanes(&p), vec![Some("l2".to_owned()), Some("r2".to_owned())]);
    assert!(p.advance(success()));
    assert!(p.advance(success()));
    assert_eq!(group_of(&p, 1).status, Some(Status::Succeeded));
}

#[test]
fn a_report_of_the_wrong_kind_is_not_taken() {
    let mut p = two_lanes();
    assert!(p.advance(success()));
    assert!(!p.advance_lane(0, Report::Detached));
    assert!(group_of(&p, 1).steps[0].commands[0].output.is_none());
}

#[test]
fn untouched_pipelines_are_told() {
    let mut p = two_lanes();
    assert!(p.is_untouched());
    assert!(p.advance(success()));
    assert!(!p.is_untouched());
    let mut q = Pipeline::new();
    assert!(q.is_untouched());
    q.status = Some(Status::Failed);
    assert!(q.is_untouched());
    match &mut q.steps[0] {
        StepOrParallel::Step(s) => s.status = Some(Status::Running),
        StepOrParallel::Parallel(_) => panic!("not a step"),
    }
    assert!(!q.is_untouched());
}
