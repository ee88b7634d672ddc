use pipelight::engine::Report;
use pipelight::journal::{append_record, split_records};
use pipelight::pipeline::{
    Command, Event, Fallback, Output, Parallel, Pipeline, Step, StepOrParallel,
};
use pipelight::status::Status;
use pipelight::trigger::{Flag, Special, Trigger};
use serde_json::Value;

fn text(value: &str) -> Value {
    Value::String(value.to_owned())
}

fn optional<T>(value: &Option<T>, write: impl Fn(&T) -> Value) -> Value {
    match value {
        Some(v) => write(v),
        None => Value::Null,
    }
}

fn status_out(status: &Status) -> Value {
    text(&status.to_string())
}

fn status_in(value: &Value) -> Option<Status> {
    match value.as_str()? {
        "started" => Some(Status::Started),
        "running" => Some(Status::Running),
        "succeeded" => Some(Status::Succeeded),
        "failed" => Some(Status::Failed),
        "aborted" => Some(Status::Aborted),
        _ => None,
    }
}

fn command_out(command: &Command) -> Value {
    let mut map = serde_json::Map::new();
    map.insert("stdin".to_owned(), text(&command.stdin));
    map.insert(
        "output".to_owned(),
        optional(&command.output, |o| {
            let mut out = serde_json::Map::new();
            out.insert("code".to_owned(), Value::from(o.code));
            out.insert("stdout".to_owned(), text(&o.stdout));
            out.insert("stderr".to_owned(), text(&o.stderr));
            Value::Object(out)
        }),
    );
    Value::Object(map)
}

fn command_in(value: &Value) -> Command {
    let mut command = Command::from_stdin(value["stdin"].as_str().unwrap().to_owned());
    if let Some(o) = value["output"].as_object() {
        command.output = Some(Output::new(
            i32::try_from(o["code"].as_i64().unwrap()).unwrap(),
            o["stdout"].as_str().unwrap().to_owned(),
            o["stderr"].as_str().unwrap().to_owned(),
        ));
    }
    command
}

fn branch_out(branch: &Option<Vec<StepOrParallel>>) -> Value {
    optional(branch, |items| Value::Array(items.iter().map(node_out).collect()))
}

fn branch_in(value: &Value) -> Option<Vec<StepOrParallel>> {
    value.as_array().map(|items| items.iter().map(node_in).collect())
}

fn fallback_out(fallback: &Option<Fallback>) -> Value {
    optional(fallback, |f| {
        let mut map = serde_json::Map::new();
        map.insert("on_failure".to_owned(), branch_out(&f.on_failure));
        map.insert("on_success".to_owned(), branch_out(&f.on_success));
        map.insert("on_abortion".to_owned(), branch_out(&f.on_abortion));
        Value::Object(map)
    })
}

fn fallback_in(value: &Value) -> Option<Fallback> {
    value.as_object().map(|f| Fallback {
        on_failure: branch_in(&f["on_failure"]),
        on_success: branch_in(&f["on_success"]),
        on_abortion: branch_in(&f["on_abortion"]),
    })
}

fn step_out(step: &Step) -> Value {
    let mut map = serde_json::Map::new();
    map.insert("name".to_owned(), text(&step.name));
    map.insert("status".to_owned(), optional(&step.status, status_out));
    map.insert("commands".to_owned(), Value::Array(step.commands.iter().map(command_out).collect()));
    map.insert("non_blocking".to_owned(), optional(&step.non_blocking, |b| Value::Bool(*b)));
    map.insert("fallback".to_owned(), fallback_out(&step.fallback));
    Value::Object(map)
}

fn step_in(value: &Value) -> Step {
    Step {
        name: value["name"].as_str().unwrap().to_owned(),
        status: status_in(&value["status"]),
        commands: value["commands"].as_array().unwrap().iter().map(command_in).collect(),
        non_blocking: value["non_blocking"].as_bool(),
        fallback: fallback_in(&value["fallback"]),
    }
}

fn node_out(node: &StepOrParallel) -> Value {
    match node {
        StepOrParallel::Step(s) => step_out(s),
        StepOrParallel::Parallel(p) => {
            let mut map = serde_json::Map::new();
            map.insert("status".to_owned(), optional(&p.status, status_out));
            map.insert("parallel".to_owned(), Value::Array(p.steps.iter().map(step_out).collect()));
            map.insert("non_blocking".to_owned(), optional(&p.non_blocking, |b| Value::Bool(*b)));
            map.insert("fallback".to_owned(), fallback_out(&p.fallback));
            Value::Object(map)
        }
    }
}

fn node_in(value: &Value) -> StepOrParallel {
    match value.get("parallel") {
        Some(steps) => StepOrParallel::Parallel(Parallel {
            status: status_in(&value["status"]),
            steps: steps.as_array().unwrap().iter().map(step_in).collect(),
            non_blocking: value["non_blocking"].as_bool(),
            fallback: fallback_in(&value["fallback"]),
        }),
        None => StepOrParallel::Step(step_in(value)),
    }
}

fn pipeline_out(p: &Pipeline) -> Value {
    let mut map = serde_json::Map::new();
    map.insert("uuid".to_owned(), text(&p.uuid));
    map.insert("name".to_owned(), text(&p.name));
    map.insert("status".to_owned(), optional(&p.status, status_out));
    map.insert(
        "event".to_owned(),
        optional(&p.event, |e| {
            let mut event = serde_json::Map::new();
            event.insert("date".to_owned(), text(&e.date));
            event.insert("pid".to_owned(), optional(&e.pid, |pid| Value::from(*pid)));
            event.insert("action".to_owned(), optional(&e.trigger.action, |f| text(&f.name())));
            event.insert("branch".to_owned(), optional(&e.trigger.branch, |b| text(b)));
            event.insert("tag".to_owned(), optional(&e.trigger.tag, |t| text(t)));
            Value::Object(event)
        }),
    );
    map.insert("steps".to_owned(), Value::Array(p.steps.iter().map(node_out).collect()));
    map.insert("fallback".to_owned(), fallback_out(&p.fallback));
    Value::Object(map)
}

fn pipeline_in(value: &Value) -> Pipeline {
    let steps = value["steps"].as_array().unwrap().iter().map(node_in).collect();
    let mut p = Pipeline::named(value["name"].as_str().unwrap().to_owned(), steps);
    p.uuid = value["uuid"].as_str().unwrap().to_owned();
    p.status = status_in(&value["status"]);
    p.fallback = fallback_in(&value["fallback"]);
    p.event = value["event"].as_object().map(|e| Event {
        trigger: Trigger {
            action: e["action"].as_str().and_then(Flag::from_name),
            branch: e["branch"].as_str().map(|b| b.to_owned()),
            tag: e["tag"].as_str().map(|t| t.to_owned()),
        },
        date: e["date"].as_str().unwrap().to_owned(),
        pid: e["pid"].as_u64().map(|pid| u32::try_from(pid).unwrap()),
    });
    p
}

fn a_step(name: &str, commands: &[&str]) -> Step {
    Step {
        name: name.to_owned(),
        status: None,
        commands: commands.iter().map(|c| Command::from_stdin((*c).to_owned())).collect(),
        non_blocking: None,
        fallback: None,
    }
}

fn sample() -> Pipeline {
    let mut first = a_step("build \"all\"", &["make\n\tall", "echo 'done' \\ ok"]);
    first.non_blocking = Some(true);
    first.fallback = Some(Fallback {
        on_failure: Some(vec![StepOrParallel::Step(a_step("rescue", &["git stash"]))]),
        on_success: None,
        on_abortion: Some(vec![]),
    });
    let group = Parallel {
        status: None,
        steps: vec![a_step("left", &["l"]), a_step("right", &["r"])],
        non_blocking: Some(false),
        fallback: None,
    };
    let mut p = Pipeline::named(
        "d\u{e9}ploy".to_owned(),
        vec![StepOrParallel::Step(first), StepOrParallel::Parallel(group)],
    );
    p.begin(Event::new(
        Trigger {
            action: Some(Flag::Special(Special::Watch)),
            branch: Some("feature/x".to_owned()),
            tag: None,
        },
        4242,
    ));
    assert!(p.advance(Report::Ran(Output::new(0, "line one\nline two\n".to_owned(), String::new()))));
    assert!(p.advance(Report::Ran(Output::new(3, String::new(), "b\u{e4}d\r\n".to_owned()))));
    p
}

#[test]
fn a_snapshot_survives_its_log_line() {
    let written = sample();
    let record = serde_json::to_vec(&pipeline_out(&written)).unwrap();
    let mut file = b"{\"name\":\"older\"}\n".to_vec();
    assert!(append_record(&mut file, &record));
    let records = split_records(&file);
    assert_eq!(records.len(), 2);
    let read = pipeline_in(&serde_json::from_slice::<Value>(&records[1]).unwrap());
    // the same identifier, name, status and step tree
    assert_eq!(read.uuid, written.uuid);
    assert_eq!(read.name, written.name);
    assert_eq!(read.status, written.status);
    assert_eq!(read.status, Some(Status::Running));
    assert_eq!(pipeline_out(&read), pipeline_out(&written));
    assert_eq!(format!("{:?}", read.steps), format!("{:?}", written.steps));
    assert_eq!(format!("{:?}", read.fallback), format!("{:?}", written.fallback));
    assert_eq!(format!("{:?}", read.event), format!("{:?}", written.event));
    // and the same place in its run
    assert_eq!(format!("{:?}", read.progress()), format!("{:?}", written.progress()));
}

#[test]
fn every_transition_adds_one_line() {
    let mut p = sample();
    let mut file = Vec::new();
    let mut lines = 0;
    loop {
        assert!(append_record(&mut file, &serde_json::to_vec(&pipeline_out(&p)).unwrap()));
        lines += 1;
        assert_eq!(split_records(&file).len(), lines);
        if !p.advance(Report::Ran(Output::new(0, String::new(), String::new()))) {
            break;
        }
    }
    assert_eq!(lines, 4);
    let last = split_records(&file).pop().unwrap();
    let read = pipeline_in(&serde_json::from_slice::<Value>(&last).unwrap());
    assert_eq!(read.status, Some(Status::Succeeded));
    assert_eq!(read.progress().over(), Some(Status::Succeeded));
}
