use pipelight::characters::Characters;
use pipelight::names::{rank, same_text, Rank};
use pipelight::pipeline::{Command, Fallback, Output, Parallel, Pipeline, Step, StepOrParallel};
use pipelight::shell::{get_shell, session_shell, shell};
use pipelight::status::Status;
use pipelight::trigger::Trigger;

#[test]
fn default_values() {
    let c = Command::new();
    assert_eq!(c.stdin, "");
    assert!(c.output.is_none());
    assert_eq!(c.get_status(), None);
    let s = Step::new();
    assert_eq!(s.name, "default");
    assert_eq!(s.status, None);
    assert_eq!(s.commands.len(), 1);
    assert_eq!(s.commands[0].stdin, "");
    assert!(s.non_blocking.is_none());
    assert!(s.fallback.is_none());
    let g = Parallel::new();
    assert_eq!(g.steps.len(), 1);
    assert_eq!(g.steps[0].name, "default");
    assert_eq!(g.non_blocking, None);
    assert!(!g.is_detached());
    assert!(g.fallback.is_none());
    match StepOrParallel::new() {
        StepOrParallel::Step(s) => assert_eq!(s.name, "default"),
        StepOrParallel::Parallel(_) => panic!("not a step"),
    }
    assert_eq!(StepOrParallel::new().get_status(), None);
    let p = Pipeline::new();
    assert_eq!(p.name, "default");
    assert_eq!(p.steps.len(), 1);
    assert!(p.event.is_none() && p.status.is_none() && p.triggers.is_none());
    assert!(p.fallback.is_none() && p.duration.is_none());
    let f = Fallback::new();
    assert!(f.on_failure.is_none() && f.on_success.is_none() && f.on_abortion.is_none());
    let t = Trigger::new();
    assert!(t.action.is_none() && t.branch.is_none() && t.tag.is_none());
    assert_eq!(Pipeline::default().name, "default");
    assert_eq!(Step::default().name, "default");
    assert_eq!(Command::default().stdin, "");
    assert_eq!(Parallel::default().steps.len(), 1);
}

#[test]
fn pipelines_get_distinct_identifiers() {
    let a = Pipeline::new();
    let b = Pipeline::new();
    assert_ne!(a.uuid, b.uuid);
    assert_eq!(a.uuid.len(), 36);
}

#[test]
fn command_status_follows_the_exit_code() {
    let mut c = Command::from_stdin("ls".to_owned());
    assert_eq!(c.stdin, "ls");
    c.output = Some(Output::new(0, "out".to_owned(), "err".to_owned()));
    assert_eq!(c.get_status(), Some(Status::Succeeded));
    assert!(c.output.as_ref().unwrap().is_success());
    c.output = Some(Output::new(-1, String::new(), String::new()));
    assert_eq!(c.get_status(), Some(Status::Failed));
    c.output = Some(Output::new(127, String::new(), String::new()));
    assert_eq!(c.get_status(), Some(Status::Failed));
    assert!(!c.output.as_ref().unwrap().is_success());
}

#[test]
fn status_kinds() {
    assert!(Status::Succeeded.is_terminal());
    assert!(Status::Failed.is_terminal());
    assert!(Status::Aborted.is_terminal());
    assert!(!Status::Started.is_terminal());
    assert!(!Status::Running.is_terminal());
    assert!(Status::Started.is_active());
    assert!(Status::Running.is_active());
    assert!(!Status::Aborted.is_active());
}

#[test]
fn shell_falls_back_to_sh() {
    assert_eq!(get_shell(Some("/bin/zsh".to_owned())), "/bin/zsh");
    assert_eq!(get_shell(None), "sh");
}

#[test]
fn a_single_command_needs_a_session_shell() {
    assert_eq!(session_shell(Some("/bin/zsh".to_owned())), Ok("/bin/zsh".to_owned()));
    assert_eq!(session_shell(None), Err("sh".to_owned()));
}

#[test]
fn shell_hands_back_the_right_stream() {
    assert_eq!(shell(Output::new(0, "out".to_owned(), "err".to_owned())), Ok("out".to_owned()));
    assert_eq!(shell(Output::new(1, "out".to_owned(), "err".to_owned())), Err("err".to_owned()));
    assert_eq!(shell(Output::new(-9, "out".to_owned(), String::new())), Err(String::new()));
}

#[test]
fn names_are_ranked_by_bytes() {
    assert_eq!(rank("a", "b"), Rank::Before);
    assert_eq!(rank("b", "a"), Rank::After);
    assert_eq!(rank("a", "a"), Rank::Same);
    assert_eq!(rank("", ""), Rank::Same);
    assert_eq!(rank("", "a"), Rank::Before);
    assert_eq!(rank("ab", "a"), Rank::After);
    assert_eq!(rank("B", "a"), Rank::Before);
    assert_eq!(rank("z", "\u{e9}"), Rank::Before);
    assert_eq!(rank("\u{ffff}", "\u{10000}"), Rank::Before);
    assert!(same_text("build", "build"));
    assert!(!same_text("build", "Build"));
}

#[test]
fn character_sets() {
    let u = Characters::unicode();
    assert_eq!(u.hbar, '\u{2500}');
    assert_eq!(u.vbar, '\u{2502}');
    assert_eq!(u.xbar, '\u{253c}');
    assert_eq!(u.vbar_break, '\u{b7}');
    assert_eq!(u.vbar_gap, '\u{22ee}');
    assert_eq!(u.uarrow, '\u{1fb6f}');
    assert_eq!(u.rarrow, '\u{25b6}');
    assert_eq!(u.ltop, '\u{256d}');
    assert_eq!(u.mtop, '\u{252c}');
    assert_eq!(u.rtop, '\u{256e}');
    assert_eq!(u.lbot, '\u{2570}');
    assert_eq!(u.mbot, '\u{2534}');
    assert_eq!(u.rbot, '\u{256f}');
    assert_eq!(u.lbox, '[');
    assert_eq!(u.rbox, ']');
    assert_eq!(u.lcross, '\u{251c}');
    assert_eq!(u.rcross, '\u{2524}');
    assert_eq!(u.underbar, '\u{252c}');
    assert_eq!(u.underline, '\u{2500}');
    let a = Characters::ascii();
    let all = [
        a.hbar, a.vbar, a.xbar, a.vbar_break, a.vbar_gap, a.uarrow, a.rarrow, a.ltop, a.mtop,
        a.rtop, a.lbot, a.rbot, a.mbot, a.lbox, a.rbox, a.lcross, a.rcross, a.underbar,
        a.underline,
    ];
    assert!(all.iter().all(|c| c.is_ascii()));
    assert_eq!(
        all.iter().collect::<String>(),
        "-|+*:^>,v.`'^[]|||^"
    );
}
