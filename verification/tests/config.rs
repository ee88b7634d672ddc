use pipelight::config::Config;
use pipelight::pipeline::{Command, Pipeline, Step, StepOrParallel};
use pipelight::trigger::{Flag, Hook, Special, Trigger};

fn pipeline(name: &str, marker: &str) -> Pipeline {
    let step = Step {
        name: marker.to_owned(),
        status: None,
        commands: vec![Command::from_stdin("true".to_owned())],
        non_blocking: None,
        fallback: None,
    };
    Pipeline::named(name.to_owned(), vec![StepOrParallel::Step(step)])
}

fn marker(p: &Pipeline) -> &str {
    match &p.steps[0] {
        StepOrParallel::Step(s) => s.name.as_str(),
        StepOrParallel::Parallel(_) => panic!("not a step"),
    }
}

#[test]
fn two_pipelines_named_build_leave_one() {
    let mut config = Config::empty();
    config.pipelines = Some(vec![pipeline("build", "first"), pipeline("build", "second")]);
    let warned = config.dedup_pipelines();
    assert!(warned);
    let kept = config.pipelines.as_ref().unwrap();
    assert_eq!(kept.len(), 1);
    assert_eq!(kept[0].name, "build");
    assert_eq!(marker(&kept[0]), "first");
}

#[test]
fn dedup_sorts_by_name_and_keeps_firsts() {
    let (config, warned) = Config::new(Some(vec![
        pipeline("test", "t1"),
        pipeline("build", "b1"),
        pipeline("deploy", "d1"),
        pipeline("build", "b2"),
        pipeline("Test", "T1"),
        pipeline("test", "t2"),
        pipeline("build", "b3"),
        pipeline("", "e1"),
        pipeline("tes", "s1"),
    ]));
    assert!(warned);
    let kept = config.pipelines.unwrap();
    let names: Vec<&str> = kept.iter().map(|p| p.name.as_str()).collect();
    assert_eq!(names, vec!["", "Test", "build", "deploy", "tes", "test"]);
    let markers: Vec<&str> = kept.iter().map(|p| marker(p)).collect();
    assert_eq!(markers, vec!["e1", "T1", "b1", "d1", "s1", "t1"]);
}

#[test]
fn dedup_orders_names_by_their_bytes() {
    let (config, warned) = Config::new(Some(vec![
        pipeline("\u{e9}t\u{e9}", "1"),
        pipeline("z", "2"),
        pipeline("\u{1F600}", "3"),
        pipeline("ab", "4"),
        pipeline("a", "5"),
    ]));
    assert!(!warned);
    let kept = config.pipelines.unwrap();
    let names: Vec<&str> = kept.iter().map(|p| p.name.as_str()).collect();
    let mut expected = vec!["\u{e9}t\u{e9}", "z", "\u{1F600}", "ab", "a"];
    expected.sort();
    assert_eq!(names, expected);
    assert_eq!(names, vec!["a", "ab", "z", "\u{e9}t\u{e9}", "\u{1F600}"]);
}

#[test]
fn dedup_without_duplicates_does_not_warn() {
    let mut config = Config::empty();
    config.hooks = Some(vec![Hook::PrePush]);
    config.pipelines = Some(vec![pipeline("b", "1"), pipeline("a", "2")]);
    assert!(!config.dedup_pipelines());
    let kept = config.pipelines.as_ref().unwrap();
    assert_eq!(kept.len(), 2);
    assert_eq!(kept[0].name, "a");
    assert_eq!(kept[1].name, "b");
    assert_eq!(config.hooks, Some(vec![Hook::PrePush]));
}

#[test]
fn dedup_without_pipelines() {
    let mut config = Config::empty();
    assert!(!config.dedup_pipelines());
    assert!(config.pipelines.is_none());
    let (config, warned) = Config::new(Some(vec![]));
    assert!(!warned);
    assert_eq!(config.pipelines.unwrap().len(), 0);
    let (config, warned) = Config::new(None);
    assert!(!warned);
    assert!(config.pipelines.is_none());
    assert!(config.hooks.is_none());
}

#[test]
fn triggered_pipelines_in_a_watch_context() {
    let mut watched = pipeline("watched", "w");
    watched.triggers = Some(vec![Trigger {
        action: Some(Flag::Special(Special::Watch)),
        branch: None,
        tag: None,
    }]);
    let mut pushed = pipeline("pushed", "p");
    pushed.triggers = Some(vec![Trigger {
        action: Some(Flag::Hook(Hook::PrePush)),
        branch: None,
        tag: None,
    }]);
    let mut on_main = pipeline("on_main", "m");
    on_main.triggers = Some(vec![Trigger {
        action: Some(Flag::Special(Special::Watch)),
        branch: Some("main".to_owned()),
        tag: None,
    }]);
    let free = pipeline("free", "f");
    let mut config = Config::empty();
    config.pipelines = Some(vec![watched, pushed, on_main, free]);
    let context = Trigger::watch_context(Some("dev".to_owned()), None);
    assert_eq!(context.action, Some(Flag::Special(Special::Watch)));
    assert_eq!(config.triggered(Some(&context)), vec![0, 3]);
    let context = Trigger::watch_context(Some("main".to_owned()), None);
    assert_eq!(config.triggered(Some(&context)), vec![0, 2, 3]);
    assert_eq!(config.triggered(None), Vec::<usize>::new());
    assert_eq!(Config::empty().triggered(Some(&context)), Vec::<usize>::new());
}

#[test]
fn pipelines_are_looked_up_by_name() {
    let (config, _) = Config::new(Some(vec![pipeline("b", "1"), pipeline("a", "2")]));
    assert_eq!(marker(config.get_pipeline("a").unwrap()), "2");
    assert_eq!(config.get_pipeline("b").unwrap().name, "b");
    assert_eq!(
        config.get_pipeline("c").err(),
        Some(pipelight::error::PipelineError::UnknownPipeline)
    );
    assert!(Config::empty().get_pipeline("a").is_err());
    assert_eq!(
        pipelight::error::PipelineError::UnknownPipeline.message(),
        "Couldn't find a pipeline with that name"
    );
}

#[test]
fn a_watcher_is_of_use_when_a_pipeline_asks_for_one() {
    let mut watched = pipeline("watched", "w");
    watched.triggers = Some(vec![Trigger {
        action: Some(Flag::Special(Special::Watch)),
        branch: Some("main".to_owned()),
        tag: None,
    }]);
    let (config, _) = Config::new(Some(vec![pipeline("a", "1"), watched]));
    assert!(config.has_watchable());
    let (config, _) = Config::new(Some(vec![pipeline("a", "1")]));
    assert!(!config.has_watchable());
    assert!(!Config::empty().has_watchable());
}
