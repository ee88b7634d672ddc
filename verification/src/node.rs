//! The tree in which a pipeline is shown: one node for the pipeline, one
//! for each step, group and command, one for the record of a command
//! that has run, and one for each branch of a fallback, the branches of
//! the nodes inside a branch too: the tree shows all that is declared,
//! also what a run never enters.

use vstd::prelude::*;
use vstd::string::StringExecFns;
use crate::pipeline::{Command, Event, Fallback, Parallel, Pipeline, Step, StepOrParallel};
use crate::status::Status;
use crate::trigger::Trigger;

verus! {

/// How loud the output has to be for a node to be shown.
#[derive(Clone, Copy, Debug, PartialEq, Eq, Structural)]
pub enum Level {
    Off,
    Error,
    Warn,
    Info,
    Debug,
    Trace,
}

/// A node of the tree.
#[derive(Debug)]
pub struct Node {
    pub value: Option<String>,
    pub status: Option<Status>,
    pub duration: Option<u64>,
    pub children: Option<Vec<Node>>,
    pub level: Level,
}

/// The node shows the given text, status and level, and no duration.
pub open spec fn shows(node: Node, text: Seq<char>, status: Option<Status>, level: Level) -> bool {
    &&& node.value matches Some(v) && v@ == text
    &&& node.status == status
    &&& node.duration is None
    &&& node.level == level
}

/// The node is that of the record of a command that has run: the output
/// of a command that succeeded, the error stream of one that failed.
pub open spec fn is_record_node(node: Node, command: Command) -> bool {
    &&& command.output matches Some(o)
    &&& shows(
        node,
        if o.success() {
            o.stdout@
        } else {
            o.stderr@
        },
        command.status(),
        Level::Debug,
    )
    &&& node.children is None
}

/// The node is that of a command: its text and status, and below it the
/// record once the command has run.
pub open spec fn is_command_node(node: Node, command: Command) -> bool {
    &&& shows(node, command.stdin@, command.status(), Level::Info)
    &&& match command.output {
        None => node.children is None,
        Some(_) => node.children matches Some(below) && below@.len() == 1 && is_record_node(
            below@[0],
            command,
        ),
    }
}

/// The first nodes of the list are those of the commands, in order.
pub open spec fn are_command_nodes(nodes: Seq<Node>, commands: Seq<Command>) -> bool {
    &&& commands.len() <= nodes.len()
    &&& forall|i: int|
        0 <= i < commands.len() ==> is_command_node(#[trigger] nodes[i], commands[i])
}

/// The number of branches that a fallback holds.
pub open spec fn branches(fallback: Option<Fallback>) -> nat {
    match fallback {
        None => 0,
        Some(f) => (if f.on_failure is Some {
            1nat
        } else {
            0nat
        }) + (if f.on_success is Some {
            1nat
        } else {
            0nat
        }) + (if f.on_abortion is Some {
            1nat
        } else {
            0nat
        }),
    }
}

/// The node is that of a branch: the branch's name, and below it the
/// nodes of the branch.
pub open spec fn is_branch_node(node: Node, name: Seq<char>, branch: Vec<StepOrParallel>) -> bool
    decreases branch, 0nat,
{
    &&& shows(node, name, None, Level::Error)
    &&& node.children matches Some(below) && below@.len() == branch@.len() && are_item_nodes(
        below@,
        branch@,
        0,
    )
}

/// The nodes from `at` on are those of the fallback's branches: of the
/// branch for failure, for success and for abortion, in this order, as
/// far as the fallback holds them.
pub open spec fn are_branch_nodes(nodes: Seq<Node>, at: int, fallback: Option<Fallback>) -> bool
    decreases fallback, 0nat,
{
    match fallback {
        None => true,
        Some(f) => {
            let second = at + if f.on_failure is Some {
                1int
            } else {
                0int
            };
            let third = second + if f.on_success is Some {
                1int
            } else {
                0int
            };
            &&& f.on_failure matches Some(items) ==> is_branch_node(
                nodes[at],
                "on_failure"@,
                items,
            )
            &&& f.on_success matches Some(items) ==> is_branch_node(
                nodes[second],
                "on_success"@,
                items,
            )
            &&& f.on_abortion matches Some(items) ==> is_branch_node(
                nodes[third],
                "on_abortion"@,
                items,
            )
        },
    }
}

/// The node is that of a step: its name and status, and below it the
/// nodes of its commands and of its branches.
pub open spec fn is_step_node(node: Node, step: Step) -> bool
    decreases step, 0nat,
{
    &&& shows(node, "step: "@ + step.name@, step.status, Level::Warn)
    &&& node.children matches Some(below) && below@.len() == step.commands@.len() + branches(
        step.fallback,
    ) && are_command_nodes(below@, step.commands@) && are_branch_nodes(
        below@,
        step.commands@.len() as int,
        step.fallback,
    )
}

/// The nodes from `from` on are those of the steps from `from` on.
pub open spec fn are_step_nodes(nodes: Seq<Node>, steps: Seq<Step>, from: int) -> bool
    decreases steps, steps.len() - from,
{
    if 0 <= from < steps.len() {
        from < nodes.len() && is_step_node(nodes[from], steps[from]) && are_step_nodes(
            nodes,
            steps,
            from + 1,
        )
    } else {
        true
    }
}

/// The node is that of a group: its status, and below it the nodes of
/// its steps and of its branches.
pub open spec fn is_parallel_node(node: Node, group: Parallel) -> bool
    decreases group, 0nat,
{
    &&& shows(node, "parallel"@, group.status, Level::Warn)
    &&& node.children matches Some(below) && below@.len() == group.steps@.len() + branches(
        group.fallback,
    ) && are_step_nodes(below@, group.steps@, 0) && are_branch_nodes(
        below@,
        group.steps@.len() as int,
        group.fallback,
    )
}

/// The node is that of a step or group.
pub open spec fn is_item_node(node: Node, item: StepOrParallel) -> bool
    decreases item, 0nat,
{
    match item {
        StepOrParallel::Step(s) => is_step_node(node, s),
        StepOrParallel::Parallel(p) => is_parallel_node(node, p),
    }
}

/// The nodes from `from` on are those of the items from `from` on.
pub open spec fn are_item_nodes(nodes: Seq<Node>, items: Seq<StepOrParallel>, from: int) -> bool
    decreases items, items.len() - from,
{
    if 0 <= from < items.len() {
        from < nodes.len() && is_item_node(nodes[from], items[from]) && are_item_nodes(
            nodes,
            items,
            from + 1,
        )
    } else {
        true
    }
}

/// The head of a pipeline's node: the status and a separator where a
/// status is written, the text of the event where there is one, and the
/// pipeline's name.
pub open spec fn head_text(
    pipeline: Pipeline,
    status: Seq<char>,
    separator: Seq<char>,
    event: Seq<char>,
) -> Seq<char> {
    (if pipeline.status is Some {
        status + separator
    } else {
        Seq::empty()
    }) + (if pipeline.event is Some {
        event
    } else {
        Seq::empty()
    }) + "pipeline: "@ + pipeline.name@
}

/// The node is that of a pipeline, with the given texts in its head.
pub open spec fn is_pipeline_node(
    node: Node,
    pipeline: Pipeline,
    status: Seq<char>,
    separator: Seq<char>,
    event: Seq<char>,
) -> bool {
    &&& node.value matches Some(v) && v@ == head_text(pipeline, status, separator, event)
    &&& node.status == pipeline.status
    &&& node.duration == pipeline.duration
    &&& node.level == Level::Error
    &&& node.children matches Some(below) && below@.len() == pipeline.steps@.len() + branches(
        pipeline.fallback,
    ) && are_item_nodes(below@, pipeline.steps@, 0) && are_branch_nodes(
        below@,
        pipeline.steps@.len() as int,
        pipeline.fallback,
    )
}

/// The line that tells the action of a context; nothing where none is
/// known.
pub open spec fn action_line(trigger: Trigger) -> Seq<char> {
    match trigger.action {
        Some(flag) => "action: "@ + flag.name_of() + "\n"@,
        None => Seq::empty(),
    }
}

/// The line that tells where a context stands: its tag or else its
/// branch; nothing where neither is known.
pub open spec fn place_line(trigger: Trigger) -> Seq<char> {
    match trigger.tag {
        Some(tag) => "branch: "@ + tag@ + "\n"@,
        None => match trigger.branch {
            Some(branch) => "branch: "@ + branch@ + "\n"@,
            None => Seq::empty(),
        },
    }
}

impl Event {
    /// The text of the event: the date as it is given, then the action
    /// where one is known, then the tag or else the branch where one is
    /// known, each on a line of its own.
    pub open spec fn text(self, date: Seq<char>) -> Seq<char> {
        date + "\n"@ + action_line(self.trigger) + place_line(self.trigger)
    }

    /// The text of the event, with the date written as the caller has
    /// it.
    pub fn to_string(&self, date: &str) -> (res: String)
        ensures
            res@ == self.text(date@),
    {
        let mut out = String::new();
        out.append(date);
        out.append("\n");
        match self.trigger.action {
            Some(flag) => {
                out.append("action: ");
                out.append(flag.name().as_str());
                out.append("\n");
            },
            None => {},
        }
        match &self.trigger.tag {
            Some(tag) => {
                out.append("branch: ");
                out.append(tag.as_str());
                out.append("\n");
            },
            None => match &self.trigger.branch {
                Some(branch) => {
                    out.append("branch: ");
                    out.append(branch.as_str());
                    out.append("\n");
                },
                None => {},
            },
        }
        assert(out@ =~= date@ + "\n"@ + action_line(self.trigger) + place_line(self.trigger));
        out
    }
}

impl Node {
    /// The node that shows nothing.
    pub fn new() -> (res: Node)
        ensures
            res.value is None,
            res.status is None,
            res.duration is None,
            res.children is None,
            res.level == Level::Error,
    {
        Node { value: None, status: None, duration: None, children: None, level: Level::Error }
    }

    /// The node of a command.
    pub fn of_command(command: &Command) -> (res: Node)
        ensures
            is_command_node(res, *command),
    {
        let status = command.get_status();
        let children = match &command.output {
            None => None,
            Some(o) => {
                let text = if o.code == 0 {
                    o.stdout.clone()
                } else {
                    o.stderr.clone()
                };
                let record = Node {
                    value: Some(text),
                    status,
                    duration: None,
                    children: None,
                    level: Level::Debug,
                };
                let mut below: Vec<Node> = Vec::new();
                below.push(record);
                Some(below)
            },
        };
        Node {
            value: Some(command.stdin.clone()),
            status,
            duration: None,
            children,
            level: Level::Info,
        }
    }

    /// The node of a step.
    pub fn of_step(step: &Step) -> (res: Node)
        ensures
            is_step_node(res, *step),
        decreases *step, 0nat,
    {
        let mut below: Vec<Node> = Vec::new();
        let mut i: usize = 0;
        while i < step.commands.len()
            invariant
                i <= step.commands@.len(),
                below@.len() == i,
                forall|j: int|
                    0 <= j < i ==> is_command_node(#[trigger] below@[j], step.commands@[j]),
            decreases step.commands@.len() - i,
        {
            below.push(Node::of_command(&step.commands[i]));
            i += 1;
        }
        let ghost first = below@;
        push_branches(&mut below, &step.fallback);
        assert forall|j: int| 0 <= j < step.commands@.len() implies is_command_node(
            #[trigger] below@[j],
            step.commands@[j],
        ) by {
            assert(below@.subrange(0, first.len() as int)[j] == below@[j]);
        }
        let mut text = "step: ".to_owned();
        text.append(step.name.as_str());
        Node {
            value: Some(text),
            status: step.status,
            duration: None,
            children: Some(below),
            level: Level::Warn,
        }
    }

    /// The node of a group.
    pub fn of_parallel(group: &Parallel) -> (res: Node)
        ensures
            is_parallel_node(res, *group),
        decreases *group, 0nat,
    {
        let mut below: Vec<Node> = Vec::new();
        let mut i: usize = 0;
        while i < group.steps.len()
            invariant
                i <= group.steps@.len(),
                below@.len() == i,
                forall|j: int| 0 <= j < i ==> is_step_node(#[trigger] below@[j], group.steps@[j]),
            decreases group.steps@.len() - i,
        {
            below.push(Node::of_step(&group.steps[i]));
            i += 1;
        }
        proof {
            lemma_step_nodes(below@, group.steps@, 0);
        }
        let ghost first = below@;
        push_branches(&mut below, &group.fallback);
        proof {
            lemma_step_nodes_kept(first, below@, group.steps@, 0);
        }
        Node {
            value: Some("parallel".to_owned()),
            status: group.status,
            duration: None,
            children: Some(below),
            level: Level::Warn,
        }
    }

    /// The node of a step or group.
    pub fn of_item(item: &StepOrParallel) -> (res: Node)
        ensures
            is_item_node(res, *item),
        decreases *item, 0nat,
    {
        match item {
            StepOrParallel::Step(s) => Node::of_step(s),
            StepOrParallel::Parallel(p) => Node::of_parallel(p),
        }
    }

    /// The node of a pipeline. The head is made of the word for the
    /// status, the separator and the text of the event as they are given,
    /// so that the caller settles how they look.
    pub fn of_pipeline(pipeline: &Pipeline, separator: &str, event: &str) -> (res: Node)
        ensures
            is_pipeline_node(
                res,
                *pipeline,
                match pipeline.status {
                    Some(s) => s.word(),
                    None => Seq::empty(),
                },
                separator@,
                event@,
            ),
    {
        let mut head = String::new();
        match pipeline.status {
            Some(s) => {
                head.append(s.to_string().as_str());
                head.append(separator);
            },
            None => {},
        }
        if pipeline.event.is_some() {
            head.append(event);
        }
        head.append("pipeline: ");
        head.append(pipeline.name.as_str());
        let mut below = item_nodes(&pipeline.steps);
        let ghost first = below@;
        push_branches(&mut below, &pipeline.fallback);
        proof {
            lemma_item_nodes_kept(first, below@, pipeline.steps@, 0);
        }
        Node {
            value: Some(head),
            status: pipeline.status,
            duration: pipeline.duration,
            children: Some(below),
            level: Level::Error,
        }
    }
}

/// The nodes of a list of steps and groups.
fn item_nodes(items: &Vec<StepOrParallel>) -> (res: Vec<Node>)
    ensures
        res@.len() == items@.len(),
        are_item_nodes(res@, items@, 0),
    decreases *items, 0nat,
{
    let mut below: Vec<Node> = Vec::new();
    let mut i: usize = 0;
    while i < items.len()
        invariant
            i <= items@.len(),
            below@.len() == i,
            forall|j: int| 0 <= j < i ==> is_item_node(#[trigger] below@[j], items@[j]),
        decreases items@.len() - i,
    {
        below.push(Node::of_item(&items[i]));
        i += 1;
    }
    proof {
        lemma_item_nodes(below@, items@, 0);
    }
    below
}

/// The node of a branch.
fn branch_node(name: &str, items: &Vec<StepOrParallel>) -> (res: Node)
    ensures
        is_branch_node(res, name@, *items),
    decreases *items, 1nat,
{
    let below = item_nodes(items);
    Node {
        value: Some(name.to_owned()),
        status: None,
        duration: None,
        children: Some(below),
        level: Level::Error,
    }
}

/// Appends the nodes of a fallback's branches.
fn push_branches(nodes: &mut Vec<Node>, fallback: &Option<Fallback>)
    ensures
        final(nodes)@.len() == old(nodes)@.len() + branches(*fallback),
        final(nodes)@.subrange(0, old(nodes)@.len() as int) == old(nodes)@,
        are_branch_nodes(final(nodes)@, old(nodes)@.len() as int, *fallback),
    decreases *fallback, 0nat,
{
    let ghost first = nodes@;
    match fallback {
        None => {
            assert(nodes@.subrange(0, first.len() as int) =~= first);
        },
        Some(f) => {
            match &f.on_failure {
                None => {},
                Some(items) => {
                    nodes.push(branch_node("on_failure", items));
                },
            }
            match &f.on_success {
                None => {},
                Some(items) => {
                    nodes.push(branch_node("on_success", items));
                },
            }
            match &f.on_abortion {
                None => {},
                Some(items) => {
                    nodes.push(branch_node("on_abortion", items));
                },
            }
            assert(nodes@.subrange(0, first.len() as int) =~= first);
        },
    }
}

/// Nodes that are each the node of their step are the nodes of the
/// steps.
proof fn lemma_step_nodes(nodes: Seq<Node>, steps: Seq<Step>, from: int)
    requires
        0 <= from,
        steps.len() <= nodes.len(),
        forall|j: int| from <= j < steps.len() ==> is_step_node(#[trigger] nodes[j], steps[j]),
    ensures
        are_step_nodes(nodes, steps, from),
    decreases steps.len() - from,
{
    if from < steps.len() {
        lemma_step_nodes(nodes, steps, from + 1);
    }
}

/// Nodes appended behind the nodes of the steps leave these what they
/// are.
proof fn lemma_step_nodes_kept(first: Seq<Node>, longer: Seq<Node>, steps: Seq<Step>, from: int)
    requires
        0 <= from,
        steps.len() <= first.len() <= longer.len(),
        longer.subrange(0, first.len() as int) == first,
        are_step_nodes(first, steps, from),
    ensures
        are_step_nodes(longer, steps, from),
    decreases steps.len() - from,
{
    if from < steps.len() {
        assert(longer.subrange(0, first.len() as int)[from] == longer[from]);
        lemma_step_nodes_kept(first, longer, steps, from + 1);
    }
}

/// Nodes that are each the node of their item are the nodes of the
/// items.
proof fn lemma_item_nodes(nodes: Seq<Node>, items: Seq<StepOrParallel>, from: int)
    requires
        0 <= from,
        items.len() <= nodes.len(),
        forall|j: int| from <= j < items.len() ==> is_item_node(#[trigger] nodes[j], items[j]),
    ensures
        are_item_nodes(nodes, items, from),
    decreases items.len() - from,
{
    if from < items.len() {
        lemma_item_nodes(nodes, items, from + 1);
    }
}

/// Nodes appended behind the nodes of the items leave these what they
/// are.
proof fn lemma_item_nodes_kept(
    first: Seq<Node>,
    longer: Seq<Node>,
    items: Seq<StepOrParallel>,
    from: int,
)
    requires
        0 <= from,
        items.len() <= first.len() <= longer.len(),
        longer.subrange(0, first.len() as int) == first,
        are_item_nodes(first, items, from),
    ensures
        are_item_nodes(longer, items, from),
    decreases items.len() - from,
{
    if from < items.len() {
        assert(longer.subrange(0, first.len() as int)[from] == longer[from]);
        lemma_item_nodes_kept(first, longer, items, from + 1);
    }
}

impl From<&Command> for Node {
    fn from(e: &Command) -> (res: Node)
        ensures
            is_command_node(res, *e),
    {
        Node::of_command(e)
    }
}

impl vstd::std_specs::convert::FromSpecImpl<&Command> for Node {
    open spec fn obeys_from_spec() -> bool {
        false
    }

    open spec fn from_spec(v: &Command) -> Node {
        arbitrary()
    }
}

impl From<&Step> for Node {
    fn from(e: &Step) -> (res: Node)
        ensures
            is_step_node(res, *e),
    {
        Node::of_step(e)
    }
}

impl vstd::std_specs::convert::FromSpecImpl<&Step> for Node {
    open spec fn obeys_from_spec() -> bool {
        false
    }

    open spec fn from_spec(v: &Step) -> Node {
        arbitrary()
    }
}

impl From<&Parallel> for Node {
    fn from(e: &Parallel) -> (res: Node)
        ensures
            is_parallel_node(res, *e),
    {
        Node::of_parallel(e)
    }
}

impl vstd::std_specs::convert::FromSpecImpl<&Parallel> for Node {
    open spec fn obeys_from_spec() -> bool {
        false
    }

    open spec fn from_spec(v: &Parallel) -> Node {
        arbitrary()
    }
}

impl From<&StepOrParallel> for Node {
    fn from(e: &StepOrParallel) -> (res: Node)
        ensures
            is_item_node(res, *e),
    {
        Node::of_item(e)
    }
}

impl vstd::std_specs::convert::FromSpecImpl<&StepOrParallel> for Node {
    open spec fn obeys_from_spec() -> bool {
        false
    }

    open spec fn from_spec(v: &StepOrParallel) -> Node {
        arbitrary()
    }
}

} // verus!
