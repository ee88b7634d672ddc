use pipelight::node::{Level, Node};
use pipelight::pipeline::{
    Command, Event, Fallback, Output, Parallel, Pipeline, Step, StepOrParallel,
};
use pipelight::status::Status;
use pipelight::trigger::Trigger;

fn a_step(name: &str, commands: &[&str]) -> Step {
    Step {
        name: name.to_owned(),
        status: None,
        commands: commands.iter().map(|c| Command::from_stdin((*c).to_owned())).collect(),
        non_blocking: None,
        fallback: None,
    }
}

fn texts(nodes: &[Node]) -> Vec<&str> {
    nodes.iter().map(|n| n.value.as_deref().unwrap_or("<none>")).collect()
}

#[test]
fn node_of_a_command() {
    let mut c = Command::from_stdin("ls".to_owned());
    let node = Node::from(&c);
    assert_eq!(node.value.as_deref(), Some("ls"));
    assert_eq!(node.status, None);
    assert_eq!(node.level, Level::Info);
    assert!(node.children.is_none());
    assert!(node.duration.is_none());
    c.output = Some(Output::new(0, "out".to_owned(), "err".to_owned()));
    let node = Node::from(&c);
    assert_eq!(node.status, Some(Status::Succeeded));
    let below = node.children.unwrap();
    assert_eq!(below.len(), 1);
    assert_eq!(below[0].value.as_deref(), Some("out"));
    assert_eq!(below[0].status, Some(Status::Succeeded));
    assert_eq!(below[0].level, Level::Debug);
    assert!(below[0].children.is_none());
    c.output = Some(Output::new(2, "out".to_owned(), "err".to_owned()));
    let node = Node::of_command(&c);
    assert_eq!(node.status, Some(Status::Failed));
    assert_eq!(node.children.unwrap()[0].value.as_deref(), Some("err"));
}

#[test]
fn node_of_a_step_with_branches() {
    let mut nested = a_step("rescue", &["cmdA"]);
    nested.fallback = Some(Fallback {
        on_failure: Some(vec![StepOrParallel::Step(a_step("deep", &["x"]))]),
        on_success: None,
        on_abortion: None,
    });
    let mut s = a_step("build", &["one", "two"]);
    s.status = Some(Status::Running);
    s.fallback = Some(Fallback {
        on_failure: Some(vec![StepOrParallel::Step(nested)]),
        on_success: None,
        on_abortion: Some(vec![]),
    });
    let node = Node::from(&s);
    assert_eq!(node.value.as_deref(), Some("step: build"));
    assert_eq!(node.status, Some(Status::Running));
    assert_eq!(node.level, Level::Warn);
    let below = node.children.unwrap();
    assert_eq!(texts(&below), vec!["one", "two", "on_failure", "on_abortion"]);
    assert_eq!(below[2].level, Level::Error);
    assert_eq!(below[2].status, None);
    let branch = below[2].children.as_ref().unwrap();
    assert_eq!(texts(branch), vec!["step: rescue"]);
    // a step inside a branch shows its own branches too
    let rescue = branch[0].children.as_ref().unwrap();
    assert_eq!(texts(rescue), vec!["cmdA", "on_failure"]);
    let deep = rescue[1].children.as_ref().unwrap();
    assert_eq!(texts(deep), vec!["step: deep"]);
    assert_eq!(texts(deep[0].children.as_ref().unwrap()), vec!["x"]);
    assert_eq!(below[3].children.as_ref().unwrap().len(), 0);
    assert_eq!(texts(Node::of_step(&s).children.as_ref().unwrap()).len(), 4);
}

#[test]
fn node_of_a_group() {
    let mut group = Parallel {
        status: Some(Status::Failed),
        steps: vec![a_step("left", &["l"]), a_step("right", &[])],
        non_blocking: None,
        fallback: None,
    };
    group.fallback = Some(Fallback {
        on_failure: None,
        on_success: Some(vec![StepOrParallel::Step(a_step("yes", &[]))]),
        on_abortion: None,
    });
    let node = Node::from(&group);
    assert_eq!(node.value.as_deref(), Some("parallel"));
    assert_eq!(node.status, Some(Status::Failed));
    assert_eq!(node.level, Level::Warn);
    let below = node.children.unwrap();
    assert_eq!(texts(&below), vec!["step: left", "step: right", "on_success"]);
    assert_eq!(below[1].children.as_ref().unwrap().len(), 0);
    let item = StepOrParallel::Parallel(group);
    assert_eq!(Node::from(&item).value.as_deref(), Some("parallel"));
    let item = StepOrParallel::Step(a_step("s", &[]));
    assert_eq!(Node::of_item(&item).value.as_deref(), Some("step: s"));
}

#[test]
fn node_of_a_pipeline() {
    let mut p = Pipeline::named(
        "deploy".to_owned(),
        vec![StepOrParallel::Step(a_step("build", &["make"]))],
    );
    let node = Node::of_pipeline(&p, " - ", "ignored");
    assert_eq!(node.value.as_deref(), Some("pipeline: deploy"));
    assert_eq!(node.level, Level::Error);
    assert_eq!(texts(node.children.as_ref().unwrap()), vec!["step: build"]);
    p.status = Some(Status::Succeeded);
    p.duration = Some(12);
    p.event = Some(Event { trigger: Trigger::new(), date: "d".to_owned(), pid: None });
    p.fallback = Some(Fallback {
        on_failure: Some(vec![]),
        on_success: Some(vec![]),
        on_abortion: Some(vec![]),
    });
    let node = Node::of_pipeline(&p, " - ", "Mon, 1 Jan 2024\n");
    assert_eq!(node.value.as_deref(), Some("succeeded - Mon, 1 Jan 2024\npipeline: deploy"));
    assert_eq!(node.status, Some(Status::Succeeded));
    assert_eq!(node.duration, Some(12));
    assert_eq!(
        texts(node.children.as_ref().unwrap()),
        vec!["step: build", "on_failure", "on_success", "on_abortion"]
    );
    let empty = Node::new();
    assert!(empty.value.is_none() && empty.children.is_none() && empty.status.is_none());
    assert_eq!(empty.level, Level::Error);
}

#[test]
fn status_words() {
    assert_eq!(Status::Started.to_string(), "started");
    assert_eq!(Status::Running.to_string(), "running");
    assert_eq!(Status::Succeeded.to_string(), "succeeded");
    assert_eq!(Status::Failed.to_string(), "failed");
    assert_eq!(Status::Aborted.to_string(), "aborted");
}

#[test]
fn text_of_an_event() {
    use_event(None, None, None, "now\n");
    use_event(
        Some(pipelight::trigger::Flag::Special(pipelight::trigger::Special::Watch)),
        Some("main"),
        None,
        "now\naction: watch\nbranch: main\n",
    );
    use_event(
        Some(pipelight::trigger::Flag::Hook(pipelight::trigger::Hook::PrePush)),
        Some("main"),
        Some("v1"),
        "now\naction: pre-push\nbranch: v1\n",
    );
    use_event(None, None, Some("v2"), "now\nbranch: v2\n");
}

fn use_event(
    action: Option<pipelight::trigger::Flag>,
    branch: Option<&str>,
    tag: Option<&str>,
    expected: &str,
) {
    let e = Event {
        trigger: Trigger {
            action,
            branch: branch.map(|b| b.to_owned()),
            tag: tag.map(|t| t.to_owned()),
        },
        date: "2024-01-01 10:00:00 UTC".to_owned(),
        pid: Some(1),
    };
    assert_eq!(e.to_string("now"), expected);
}
