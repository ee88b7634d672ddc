use pipelight::error::PipelineError;
use pipelight::liveness::{
    backing_processes, contains_pid, is_alive, live_processes, probe, Presence,
};
use pipelight::pipeline::{Event, Pipeline};
use pipelight::status::Status;
use pipelight::trigger::Trigger;

const DEAD: u32 = 2147483646;

fn logged(name: &str, status: Option<Status>, pid: Option<u32>) -> Pipeline {
    let mut p = Pipeline::named(name.to_owned(), vec![]);
    p.event = Some(Event { trigger: Trigger::new(), date: "2024-01-01 10:00:00 UTC".to_owned(), pid });
    p.status = status;
    p
}

fn own_pid() -> u32 {
    rustix::process::getpid().as_raw_pid().unsigned_abs()
}

#[test]
fn probe_knows_this_process() {
    assert!(is_alive(own_pid()));
    assert_eq!(probe(own_pid()), Presence::Alive);
}

#[test]
fn probe_fails_open() {
    assert!(!is_alive(0));
    assert!(!is_alive(u32::MAX));
    assert!(!is_alive(2147483648));
    assert!(!is_alive(DEAD));
    assert_eq!(probe(0), Presence::Gone);
    assert_eq!(probe(DEAD), Presence::Gone);
}

#[test]
fn presence_after_identification() {
    assert_eq!(Presence::Alive.identified(Some(true)), Presence::Kin);
    assert_eq!(Presence::Alive.identified(Some(false)), Presence::Foreign);
    assert_eq!(Presence::Alive.identified(None), Presence::Alive);
    assert_eq!(Presence::Gone.identified(Some(true)), Presence::Gone);
    assert!(Presence::Alive.is_backing());
    assert!(Presence::Kin.is_backing());
    assert!(!Presence::Foreign.is_backing());
    assert!(!Presence::Gone.is_backing());
}

#[test]
fn start_is_rejected_while_the_prior_process_lives() {
    let x = Pipeline::named("x".to_owned(), vec![]);
    let logs = vec![
        logged("x", Some(Status::Succeeded), Some(DEAD)),
        logged("y", Some(Status::Running), Some(own_pid())),
        logged("x", Some(Status::Running), Some(own_pid())),
    ];
    assert_eq!(x.has_homologous_already_running(&logs), Ok(()));
    let live = live_processes(&logs);
    assert!(live.contains(&own_pid()));
    assert_eq!(x.running_homologous(&logs, &live), Some(2));
    assert!(!x.may_start(&logs, &live));
}

#[test]
fn start_succeeds_once_the_prior_process_is_dead() {
    let x = Pipeline::named("x".to_owned(), vec![]);
    // the log still says that "x" is running
    let logs = vec![
        logged("x", Some(Status::Running), Some(DEAD)),
        logged("x", Some(Status::Started), Some(0)),
        logged("x", Some(Status::Running), None),
        logged("y", Some(Status::Running), Some(own_pid())),
        logged("x", Some(Status::Succeeded), Some(own_pid())),
    ];
    assert_eq!(x.has_homologous_already_running(&logs), Err(PipelineError::NoHomologousRunning));
    let live = live_processes(&logs);
    assert_eq!(live, vec![own_pid()]);
    assert_eq!(x.running_homologous(&logs, &live), None);
    assert!(x.may_start(&logs, &live));
    assert!(logs[0].is_aborted());
    assert_eq!(
        PipelineError::NoHomologousRunning.message(),
        "pipeline has no homologous already running"
    );
}

#[test]
fn occupancy_follows_the_process_table() {
    let x = Pipeline::named("x".to_owned(), vec![]);
    let logs = vec![
        logged("x", Some(Status::Running), Some(10)),
        logged("x", Some(Status::Started), Some(11)),
        logged("x", Some(Status::Failed), Some(12)),
        logged("z", Some(Status::Running), Some(13)),
    ];
    assert_eq!(x.running_homologous(&logs, &vec![10, 11, 12, 13]), Some(1));
    assert_eq!(x.running_homologous(&logs, &vec![10, 12, 13]), Some(0));
    assert_eq!(x.running_homologous(&logs, &vec![12, 13]), None);
    assert!(x.may_start(&logs, &vec![]));
    assert!(!x.may_start(&logs, &vec![11]));
    assert!(contains_pid(&vec![1, 2, 3], 2));
    assert!(!contains_pid(&vec![1, 2, 3], 4));
}

#[test]
fn running_needs_a_claim_and_a_process() {
    let running = logged("x", Some(Status::Running), Some(own_pid()));
    assert_eq!(running.is_running(), Ok(()));
    assert!(!running.is_aborted());
    assert_eq!(running.get_claimed_process(), Some(own_pid()));
    let dead = logged("x", Some(Status::Running), Some(DEAD));
    assert_eq!(dead.is_running(), Err(PipelineError::NotRunning));
    assert!(dead.is_aborted());
    let done = logged("x", Some(Status::Succeeded), Some(own_pid()));
    assert_eq!(done.is_running(), Err(PipelineError::NotRunning));
    assert!(!done.is_aborted());
    assert_eq!(done.get_claimed_process(), None);
    let fresh = Pipeline::named("x".to_owned(), vec![]);
    assert_eq!(fresh.is_running(), Err(PipelineError::NotRunning));
    assert!(!fresh.is_aborted());
    assert_eq!(PipelineError::NotRunning.message(), "pipeline is not running");
}

#[test]
fn abortion_is_inferred_from_the_process() {
    let started = logged("x", Some(Status::Started), Some(7));
    assert!(started.is_aborted_when(Presence::Gone));
    assert!(started.is_aborted_when(Presence::Foreign));
    assert!(!started.is_aborted_when(Presence::Alive));
    assert!(!started.is_aborted_when(Presence::Kin));
    assert!(started.is_running_when(Presence::Kin));
    assert!(!started.is_running_when(Presence::Foreign));
    let aborted = logged("x", Some(Status::Aborted), Some(7));
    assert!(aborted.is_aborted_when(Presence::Alive));
    assert!(aborted.is_aborted());
    assert!(!aborted.is_running_when(Presence::Alive));
    let failed = logged("x", Some(Status::Failed), Some(7));
    assert!(!failed.is_aborted_when(Presence::Gone));
    let no_pid = logged("x", Some(Status::Running), None);
    assert!(no_pid.is_aborted_when(Presence::Alive));
    assert!(no_pid.is_aborted());
    let mut no_event = Pipeline::named("x".to_owned(), vec![]);
    no_event.status = Some(Status::Aborted);
    assert!(!no_event.is_aborted_when(Presence::Gone));
    assert!(!no_event.is_aborted());
}

#[test]
fn running_is_read_through_the_process() {
    let running = logged("x", Some(Status::Running), Some(7));
    assert_eq!(running.effective_status(Presence::Gone), Some(Status::Aborted));
    assert_eq!(running.effective_status(Presence::Foreign), Some(Status::Aborted));
    assert_eq!(running.effective_status(Presence::Alive), Some(Status::Running));
    let done = logged("x", Some(Status::Succeeded), Some(7));
    assert_eq!(done.effective_status(Presence::Gone), Some(Status::Succeeded));
    let fresh = Pipeline::named("x".to_owned(), vec![]);
    assert_eq!(fresh.effective_status(Presence::Gone), None);
}

#[test]
fn start_opens_an_attempt_unless_the_name_is_occupied() {
    let logs = vec![logged("x", Some(Status::Running), Some(10))];
    let mut x = Pipeline::named("x".to_owned(), vec![]);
    let res = x.start(&logs, &vec![10], Event::new(Trigger::new(), 11));
    assert_eq!(res, Err(PipelineError::AlreadyRunning));
    assert!(x.event.is_none());
    assert!(x.status.is_none());
    assert_eq!(PipelineError::AlreadyRunning.message(), "pipeline is already running");
    // the process is gone: the log still says running, and the start succeeds
    let res = x.start(&logs, &vec![], Event::new(Trigger::new(), 11));
    assert_eq!(res, Ok(()));
    assert_eq!(x.event.as_ref().unwrap().pid, Some(11));
    assert_eq!(x.status, Some(Status::Succeeded));
    let mut y = Pipeline::named("y".to_owned(), vec![]);
    assert_eq!(y.start(&logs, &vec![10], Event::new(Trigger::new(), 12)), Ok(()));
}

#[test]
fn answers_of_the_system_are_read() {
    assert_eq!(Presence::seen(true), Presence::Alive);
    assert_eq!(Presence::seen(false), Presence::Gone);
    let running = logged("x", Some(Status::Running), Some(7));
    assert_eq!(running.live_claim(true), Some(7));
    assert_eq!(running.live_claim(false), None);
    let done = logged("x", Some(Status::Failed), Some(7));
    assert_eq!(done.live_claim(true), None);
    assert_eq!(Pipeline::named("x".to_owned(), vec![]).live_claim(true), None);
}

#[test]
fn a_process_of_another_program_backs_no_claim() {
    let live = vec![10, 11, 12, 13];
    let same = vec![Some(true), Some(false), None];
    assert_eq!(backing_processes(&live, &same), vec![10, 12, 13]);
    assert_eq!(backing_processes(&live, &vec![]), live);
    assert_eq!(backing_processes(&vec![], &same), Vec::<u32>::new());
    // a used identifier that another program has taken over frees the name
    let x = Pipeline::named("x".to_owned(), vec![]);
    let logs = vec![logged("x", Some(Status::Running), Some(11))];
    assert!(!x.may_start(&logs, &live));
    assert!(x.may_start(&logs, &backing_processes(&live, &same)));
}

#[test]
fn answers_for_the_name_only() {
    let x = Pipeline::named("x".to_owned(), vec![]);
    let logs = vec![
        logged("x", Some(Status::Running), Some(DEAD)),
        logged("y", Some(Status::Running), Some(own_pid())),
        logged("x", Some(Status::Succeeded), Some(own_pid())),
    ];
    assert_eq!(x.live_homologous(&logs), Vec::<u32>::new());
    assert_eq!(x.has_homologous_already_running(&logs), Err(PipelineError::NoHomologousRunning));
    let logs = vec![
        logged("x", Some(Status::Started), Some(own_pid())),
        logged("x", Some(Status::Running), Some(DEAD)),
    ];
    assert_eq!(x.live_homologous(&logs), vec![own_pid()]);
    assert_eq!(x.has_homologous_already_running(&logs), Ok(()));
}
