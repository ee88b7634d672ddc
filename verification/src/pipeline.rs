//! The data model: pipelines, their step trees, commands and events.

use vstd::prelude::*;
use crate::sound::{
    commands_untouched, lemma_pipeline_untouched_sound, node_untouched, pipeline_sound,
    pipeline_untouched, seq_untouched, step_untouched,
};
use crate::status::Status;
use crate::trigger::Trigger;

verus! {

/// What a finished command left behind.
#[derive(Debug)]
pub struct Output {
    /// The exit code; zero is success.
    pub code: i32,
    pub stdout: String,
    pub stderr: String,
}

/// One line of shell text and, once it has run, its record. The record is
/// there as a whole or not at all.
#[derive(Debug)]
pub struct Command {
    pub stdin: String,
    pub output: Option<Output>,
}

/// The branches that may run once a node has reached its end.
#[derive(Debug)]
pub struct Fallback {
    pub on_failure: Option<Vec<StepOrParallel>>,
    pub on_success: Option<Vec<StepOrParallel>>,
    pub on_abortion: Option<Vec<StepOrParallel>>,
}

/// Commands that run one after the other.
#[derive(Debug)]
pub struct Step {
    pub name: String,
    pub status: Option<Status>,
    pub commands: Vec<Command>,
    /// Carried as it is declared. A run does not read it: within a step
    /// the first failure ends the step.
    pub non_blocking: Option<bool>,
    pub fallback: Option<Fallback>,
}

/// Steps that run side by side.
#[derive(Debug)]
pub struct Parallel {
    pub status: Option<Status>,
    pub steps: Vec<Step>,
    /// When set to true the caller does not wait for the steps.
    pub non_blocking: Option<bool>,
    pub fallback: Option<Fallback>,
}

/// A node of a step tree.
#[derive(Debug)]
pub enum StepOrParallel {
    Step(Step),
    Parallel(Parallel),
}

/// The context of one execution attempt.
#[derive(Debug)]
pub struct Event {
    pub trigger: Trigger,
    pub date: String,
    pub pid: Option<u32>,
}

/// A named tree of steps with the record of its latest attempt.
#[derive(Debug)]
pub struct Pipeline {
    pub uuid: String,
    pub name: String,
    pub duration: Option<u64>,
    pub event: Option<Event>,
    pub status: Option<Status>,
    pub triggers: Option<Vec<Trigger>>,
    pub fallback: Option<Fallback>,
    pub steps: Vec<StepOrParallel>,
    /// Why the attempt could not go on, where the machinery around the
    /// commands failed: no shell to spawn, no log to write.
    pub fault: Option<String>,
}

/// Draws a random identifier with `uuid::Uuid::new_v4` and writes it in
/// the hyphenated form. Nothing is claimed of the text: it differs from
/// call to call. On a machine that gives no random numbers the call
/// fails.
#[verifier::external_body]
fn fresh_uuid() -> (id: String) {
    uuid::Uuid::new_v4().to_string()
}

/// Reads the clock with `chrono::Utc::now` and writes the instant as
/// text. Nothing is claimed of the text: it depends on the clock. On a
/// machine whose clock stands before 1970 the call fails.
#[verifier::external_body]
fn utc_now() -> (date: String) {
    chrono::Utc::now().to_string()
}

impl Output {
    /// The command ended with exit code zero.
    pub open spec fn success(self) -> bool {
        self.code == 0
    }

    /// The status that this record gives its command.
    pub open spec fn status(self) -> Status {
        if self.code == 0 {
            Status::Succeeded
        } else {
            Status::Failed
        }
    }

    /// The record of a command that ended with `code`.
    pub fn new(code: i32, stdout: String, stderr: String) -> (res: Output)
        ensures
            res.code == code,
            res.stdout == stdout,
            res.stderr == stderr,
    {
        Output { code, stdout, stderr }
    }

    /// Whether the command ended with exit code zero.
    pub fn is_success(&self) -> (res: bool)
        ensures
            res == self.success(),
    {
        self.code == 0
    }
}

impl Command {
    /// A command that has not run.
    pub open spec fn pending(self) -> bool {
        self.output is None
    }

    /// A command that has run and ended well.
    pub open spec fn succeeded(self) -> bool {
        self.output matches Some(o) && o.success()
    }

    /// A command that has run and ended badly.
    pub open spec fn failed(self) -> bool {
        self.output matches Some(o) && !o.success()
    }

    /// The status of the command: none before it has run, then the one
    /// its exit code gives.
    pub open spec fn status(self) -> Option<Status> {
        match self.output {
            None => None,
            Some(o) => Some(o.status()),
        }
    }

    /// The command with no text, not run.
    pub open spec fn is_blank(self) -> bool {
        self.stdin@ == Seq::<char>::empty() && self.output is None
    }

    /// The command with no text, not run.
    pub fn new() -> (res: Command)
        ensures
            res.is_blank(),
    {
        Command { stdin: String::new(), output: None }
    }

    /// A command with the given text, not run.
    pub fn from_stdin(stdin: String) -> (res: Command)
        ensures
            res.stdin == stdin,
            res.output is None,
    {
        Command { stdin, output: None }
    }

    /// The status of the command.
    pub fn get_status(&self) -> (res: Option<Status>)
        ensures
            res == self.status(),
    {
        match &self.output {
            None => None,
            Some(o) => if o.code == 0 {
                Some(Status::Succeeded)
            } else {
                Some(Status::Failed)
            },
        }
    }
}

impl Default for Command {
    fn default() -> (res: Command)
        ensures
            res.is_blank(),
    {
        Command::new()
    }
}

impl Fallback {
    /// A fallback with no branch.
    pub fn new() -> (res: Fallback)
        ensures
            res.on_failure is None,
            res.on_success is None,
            res.on_abortion is None,
    {
        Fallback { on_failure: None, on_success: None, on_abortion: None }
    }
}

impl Step {
    /// The step named "default": one blank command, no status, no flag,
    /// no fallback.
    pub open spec fn is_default(self) -> bool {
        &&& self.name@ == "default"@
        &&& self.status is None
        &&& self.commands@.len() == 1
        &&& self.commands@[0].is_blank()
        &&& self.non_blocking is None
        &&& self.fallback is None
    }

    /// The step named "default".
    pub fn new() -> (res: Step)
        ensures
            res.is_default(),
    {
        let mut commands: Vec<Command> = Vec::new();
        commands.push(Command::new());
        Step {
            name: "default".to_owned(),
            status: None,
            commands,
            non_blocking: None,
            fallback: None,
        }
    }
}

impl Default for Step {
    fn default() -> (res: Step)
        ensures
            res.is_default(),
    {
        Step::new()
    }
}

impl Parallel {
    /// The group of one default step: blocking, no status, no fallback.
    pub open spec fn is_default(self) -> bool {
        &&& self.status is None
        &&& self.steps@.len() == 1
        &&& self.steps@[0].is_default()
        &&& self.non_blocking is None
        &&& self.fallback is None
    }

    /// Whether the caller goes on without waiting for the steps.
    pub open spec fn detached(self) -> bool {
        self.non_blocking == Some(true)
    }

    /// The group of one default step.
    pub fn new() -> (res: Parallel)
        ensures
            res.is_default(),
    {
        let mut steps: Vec<Step> = Vec::new();
        steps.push(Step::new());
        Parallel { status: None, steps, non_blocking: None, fallback: None }
    }

    /// Whether the caller goes on without waiting for the steps.
    pub fn is_detached(&self) -> (res: bool)
        ensures
            res == self.detached(),
    {
        match self.non_blocking {
            Some(b) => b,
            None => false,
        }
    }
}

impl Default for Parallel {
    fn default() -> (res: Parallel)
        ensures
            res.is_default(),
    {
        Parallel::new()
    }
}

impl StepOrParallel {
    /// The node that holds the default step.
    pub open spec fn is_default(self) -> bool {
        self matches StepOrParallel::Step(s) && s.is_default()
    }

    /// The node that holds the default step.
    pub fn new() -> (res: StepOrParallel)
        ensures
            res.is_default(),
    {
        StepOrParallel::Step(Step::new())
    }

    /// The status written on the node.
    pub fn get_status(&self) -> (res: Option<Status>)
        ensures
            res == match *self {
                StepOrParallel::Step(s) => s.status,
                StepOrParallel::Parallel(p) => p.status,
            },
    {
        match self {
            StepOrParallel::Step(s) => s.status,
            StepOrParallel::Parallel(p) => p.status,
        }
    }
}

impl Default for StepOrParallel {
    fn default() -> (res: StepOrParallel)
        ensures
            res.is_default(),
    {
        StepOrParallel::new()
    }
}

impl Event {
    /// The event of an attempt that starts now, in the given context and
    /// process. The date is the clock's and is not stated.
    pub fn new(trigger: Trigger, pid: u32) -> (res: Event)
        ensures
            res.trigger == trigger,
            res.pid == Some(pid),
    {
        Event { trigger, date: utc_now(), pid: Some(pid) }
    }
}

impl Pipeline {
    /// The pipeline named "default": one default step and nothing else
    /// set. The identifier is left open.
    pub open spec fn is_default(self) -> bool {
        &&& self.name@ == "default"@
        &&& self.duration is None
        &&& self.event is None
        &&& self.status is None
        &&& self.triggers is None
        &&& self.fallback is None
        &&& self.steps@.len() == 1
        &&& self.steps@[0].is_default()
        &&& self.fault is None
    }

    /// The pipeline named "default", under a fresh random identifier.
    /// Nothing has run in it, so that it is sound.
    pub fn new() -> (res: Pipeline)
        ensures
            res.is_default(),
            pipeline_untouched(res),
            pipeline_sound(res),
    {
        let mut steps: Vec<StepOrParallel> = Vec::new();
        steps.push(StepOrParallel::new());
        proof {
            let step = steps@[0]->Step_0;
            assert(step.commands@[0].pending());
            assert(commands_untouched(step.commands@, 0));
            assert(step_untouched(step, true));
            assert(node_untouched(steps@[0], true));
            assert(seq_untouched(steps@, 1, true));
            assert(seq_untouched(steps@, 0, true));
        }
        let res = Pipeline {
            uuid: fresh_uuid(),
            name: "default".to_owned(),
            duration: None,
            event: None,
            status: None,
            triggers: None,
            fallback: None,
            steps,
            fault: None,
        };
        proof {
            lemma_pipeline_untouched_sound(res);
        }
        res
    }

    /// A pipeline with the given name and steps, under a fresh random
    /// identifier, with nothing else set.
    pub fn named(name: String, steps: Vec<StepOrParallel>) -> (res: Pipeline)
        ensures
            res.name == name,
            res.steps == steps,
            res.duration is None,
            res.event is None,
            res.status is None,
            res.triggers is None,
            res.fallback is None,
            res.fault is None,
    {
        Pipeline {
            uuid: fresh_uuid(),
            name,
            duration: None,
            event: None,
            status: None,
            triggers: None,
            fallback: None,
            steps,
            fault: None,
        }
    }
}

impl Default for Pipeline {
    fn default() -> (res: Pipeline)
        ensures
            res.is_default(),
    {
        Pipeline::new()
    }
}

} // verus!
