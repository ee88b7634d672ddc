use pipelight::error::PipelineError;
use pipelight::glob::is_match;
use pipelight::pipeline::Pipeline;
use pipelight::trigger::{Flag, Hook, Special, Trigger};

fn context(action: Option<Flag>, branch: Option<&str>, tag: Option<&str>) -> Trigger {
    Trigger { action, branch: branch.map(|b| b.to_owned()), tag: tag.map(|t| t.to_owned()) }
}

#[test]
fn no_trigger_is_always_triggerable() {
    let p = Pipeline::new();
    assert!(p.is_triggerable(Some(&context(None, None, None))));
    assert!(p.is_triggerable(Some(&context(Some(Flag::Special(Special::Watch)), Some("dev"), Some("v1")))));
    let mut q = Pipeline::new();
    q.triggers = Some(vec![]);
    assert!(q.is_triggerable(Some(&context(Some(Flag::Hook(Hook::PrePush)), Some("main"), None))));
}

#[test]
fn unresolved_context_is_not_triggerable() {
    let p = Pipeline::new();
    assert!(!p.is_triggerable(None));
}

#[test]
fn branch_trigger_follows_the_branch_only() {
    let mut p = Pipeline::new();
    p.triggers = Some(vec![context(None, Some("main"), None)]);
    assert!(p.is_triggerable(Some(&context(None, Some("main"), None))));
    assert!(p.is_triggerable(Some(&context(Some(Flag::Hook(Hook::PreCommit)), Some("main"), Some("v2")))));
    assert!(p.is_triggerable(Some(&context(Some(Flag::Special(Special::Manual)), Some("main"), None))));
    assert!(!p.is_triggerable(Some(&context(None, Some("dev"), None))));
    assert!(!p.is_triggerable(Some(&context(None, Some("main2"), Some("main")))));
    assert!(!p.is_triggerable(Some(&context(Some(Flag::Special(Special::Watch)), None, Some("main")))));
}

#[test]
fn one_matching_trigger_is_enough() {
    let mut p = Pipeline::new();
    p.triggers = Some(vec![
        context(Some(Flag::Hook(Hook::PrePush)), Some("main"), None),
        context(Some(Flag::Special(Special::Manual)), None, Some("v1")),
    ]);
    assert!(p.is_triggerable(Some(&context(Some(Flag::Hook(Hook::PrePush)), Some("main"), None))));
    assert!(p.is_triggerable(Some(&context(Some(Flag::Special(Special::Manual)), Some("dev"), Some("v1")))));
    // each trigger asks for all of its fields
    assert!(!p.is_triggerable(Some(&context(Some(Flag::Hook(Hook::PrePush)), Some("dev"), Some("v1")))));
    assert!(!p.is_triggerable(Some(&context(Some(Flag::Special(Special::Manual)), Some("main"), None))));
    assert!(!p.is_triggerable(Some(&context(None, Some("main"), Some("v1")))));
}

#[test]
fn context_matches_a_list() {
    let env = context(Some(Flag::Special(Special::Watch)), Some("main"), None);
    assert!(!env.is_match(&vec![]));
    assert!(env.is_match(&vec![context(Some(Flag::Special(Special::Watch)), None, None)]));
    assert!(!env.is_match(&vec![context(None, None, Some("v1"))]));
    assert!(context(None, None, None).is_admitting(&env));
    assert!(!env.is_admitting(&context(None, None, None)));
}

#[test]
fn watchable_needs_a_watch_trigger() {
    let mut p = Pipeline::new();
    assert_eq!(p.is_watchable(), Err(PipelineError::NotWatchable));
    p.triggers = Some(vec![context(Some(Flag::Hook(Hook::PrePush)), None, None)]);
    assert_eq!(p.is_watchable(), Err(PipelineError::NotWatchable));
    p.triggers = Some(vec![
        context(Some(Flag::Hook(Hook::PrePush)), None, None),
        context(Some(Flag::Special(Special::Watch)), Some("main"), None),
    ]);
    assert_eq!(p.is_watchable(), Ok(()));
    assert_eq!(PipelineError::NotWatchable.message(), "no watchable pipelines");
}

#[test]
fn branch_and_tag_patterns() {
    let mut p = Pipeline::new();
    p.triggers = Some(vec![
        context(None, Some("feature/*"), None),
        context(None, None, Some("v?.*")),
    ]);
    assert!(p.is_triggerable(Some(&context(None, Some("feature/login"), None))));
    assert!(p.is_triggerable(Some(&context(None, Some("feature/"), None))));
    assert!(!p.is_triggerable(Some(&context(None, Some("feature"), None))));
    assert!(!p.is_triggerable(Some(&context(None, Some("main"), None))));
    assert!(p.is_triggerable(Some(&context(None, Some("main"), Some("v1.0")))));
    assert!(p.is_triggerable(Some(&context(None, None, Some("v2.")))));
    assert!(!p.is_triggerable(Some(&context(None, None, Some("v10.0")))));
    assert!(!p.is_triggerable(Some(&context(None, None, Some("1.0")))));
}

#[test]
fn patterns() {
    assert!(is_match("", ""));
    assert!(!is_match("", "a"));
    assert!(is_match("*", ""));
    assert!(is_match("*", "anything/at all"));
    assert!(is_match("main", "main"));
    assert!(!is_match("main", "main2"));
    assert!(!is_match("main", "mai"));
    assert!(!is_match("main", "Main"));
    assert!(is_match("?", "x"));
    assert!(is_match("?", "\u{e9}"));
    assert!(!is_match("?", ""));
    assert!(!is_match("?", "xy"));
    assert!(is_match("a*b*c", "aXXbYYc"));
    assert!(is_match("a*b*c", "abc"));
    assert!(is_match("a*b*c", "abbbcbc"));
    assert!(!is_match("a*b*c", "acb"));
    assert!(is_match("*.rs", "src/main.rs"));
    assert!(!is_match("*.rs", "src/main.rss"));
    assert!(is_match("**", "x"));
    assert!(is_match("a**", "a"));
    assert!(is_match("*a", "aaa"));
    assert!(!is_match("*a", "aab"));
    assert!(is_match("release-?.?", "release-1.2"));
}

#[test]
fn flags_have_names() {
    assert_eq!(Flag::from_name("watch"), Some(Flag::Special(Special::Watch)));
    assert_eq!(Flag::from_name("manual"), Some(Flag::Special(Special::Manual)));
    assert_eq!(Flag::from_name("blank"), Some(Flag::Special(Special::Blank)));
    assert_eq!(Flag::from_name("pre-push"), Some(Flag::Hook(Hook::PrePush)));
    assert_eq!(Flag::from_name("prepare-commit-msg"), Some(Flag::Hook(Hook::PrepareCommitMsg)));
    assert_eq!(Flag::from_name("Watch"), None);
    assert_eq!(Flag::from_name(""), None);
    assert_eq!(Flag::from_name("pre-pu"), None);
    assert_eq!(Flag::Hook(Hook::PreAutoGc).name(), "pre-auto-gc");
    let all = [
        Flag::Hook(Hook::ApplypatchMsg),
        Flag::Hook(Hook::PreApplypatch),
        Flag::Hook(Hook::PostApplypatch),
        Flag::Hook(Hook::PreCommit),
        Flag::Hook(Hook::PrepareCommitMsg),
        Flag::Hook(Hook::CommitMsg),
        Flag::Hook(Hook::PostCommit),
        Flag::Hook(Hook::PreRebase),
        Flag::Hook(Hook::PostCheckout),
        Flag::Hook(Hook::PostMerge),
        Flag::Hook(Hook::PreReceive),
        Flag::Hook(Hook::Update),
        Flag::Hook(Hook::PostReceive),
        Flag::Hook(Hook::PostUpdate),
        Flag::Hook(Hook::PreAutoGc),
        Flag::Hook(Hook::PostRewrite),
        Flag::Hook(Hook::PrePush),
        Flag::Special(Special::Blank),
        Flag::Special(Special::Manual),
        Flag::Special(Special::Watch),
    ];
    for flag in all {
        assert_eq!(Flag::from_name(&flag.name()), Some(flag));
    }
}
