//! Triggers: what a pipeline declares about the context in which it may
//! run, and the test of a resolved context against those declarations.

use vstd::prelude::*;
use crate::error::PipelineError;
use crate::glob::{is_match, lemma_literal, literal, matches_text};
use crate::names::same_text;
use crate::pipeline::Pipeline;

verus! {

/// Flags that do not come from a git hook.
#[derive(Clone, Copy, Debug, PartialEq, Eq, Structural)]
pub enum Special {
    Blank,
    Manual,
    /// Reserved: the invocation comes from the filesystem watcher.
    Watch,
}

/// The git hooks that can start a pipeline.
#[derive(Clone, Copy, Debug, PartialEq, Eq, Structural)]
pub enum Hook {
    ApplypatchMsg,
    PreApplypatch,
    PostApplypatch,
    PreCommit,
    PrepareCommitMsg,
    CommitMsg,
    PostCommit,
    PreRebase,
    PostCheckout,
    PostMerge,
    PreReceive,
    Update,
    PostReceive,
    PostUpdate,
    PreAutoGc,
    PostRewrite,
    PrePush,
}

/// The action under which a pipeline is invoked.
#[derive(Clone, Copy, Debug, PartialEq, Eq, Structural)]
pub enum Flag {
    Hook(Hook),
    Special(Special),
}

/// A predicate over the invocation context when it stands in a pipeline's
/// declaration, and the context itself when it stands in an event. A field
/// that is `None` is not declared (in a declaration) or not known (in a
/// context).
#[derive(Debug)]
pub struct Trigger {
    pub action: Option<Flag>,
    pub branch: Option<String>,
    pub tag: Option<String>,
}

/// A declared name admits a context's name: an undeclared one admits
/// everything, a declared one is a pattern and admits the names that it
/// matches.
pub open spec fn name_admits(declared: Option<String>, actual: Option<String>) -> bool {
    match declared {
        None => true,
        Some(d) => match actual {
            None => false,
            Some(a) => matches_text(d@, a@),
        },
    }
}

/// A declared action admits a context's action.
pub open spec fn action_admits(declared: Option<Flag>, actual: Option<Flag>) -> bool {
    match declared {
        None => true,
        Some(d) => actual == Some(d),
    }
}

fn name_admitted(declared: &Option<String>, actual: &Option<String>) -> (res: bool)
    ensures
        res == name_admits(*declared, *actual),
{
    match declared {
        None => true,
        Some(d) => match actual {
            None => false,
            Some(a) => is_match(d.as_str(), a.as_str()),
        },
    }
}

fn action_admitted(declared: &Option<Flag>, actual: &Option<Flag>) -> (res: bool)
    ensures
        res == action_admits(*declared, *actual),
{
    match declared {
        None => true,
        Some(d) => match actual {
            None => false,
            Some(a) => *d == *a,
        },
    }
}

impl Trigger {
    /// This declaration admits the context: every field it declares is
    /// met, and the fields it leaves out are wildcards.
    pub open spec fn admits(self, context: Trigger) -> bool {
        &&& action_admits(self.action, context.action)
        &&& name_admits(self.branch, context.branch)
        &&& name_admits(self.tag, context.tag)
    }

    /// Some declaration of the list admits the context.
    pub open spec fn admitted_by_any(self, list: Seq<Trigger>) -> bool {
        exists|i: int| 0 <= i < list.len() && (#[trigger] list[i]).admits(self)
    }

    /// A trigger that declares nothing.
    pub fn new() -> (res: Trigger)
        ensures
            res.action is None,
            res.branch is None,
            res.tag is None,
    {
        Trigger { action: None, branch: None, tag: None }
    }

    /// Tests one declaration against a context.
    pub fn is_admitting(&self, context: &Trigger) -> (res: bool)
        ensures
            res == self.admits(*context),
    {
        action_admitted(&self.action, &context.action)
            && name_admitted(&self.branch, &context.branch)
            && name_admitted(&self.tag, &context.tag)
    }

    /// Tests this context against a list of declarations: it matches when
    /// at least one of them admits it.
    pub fn is_match(&self, list: &Vec<Trigger>) -> (res: bool)
        ensures
            res == self.admitted_by_any(list@),
    {
        let mut i: usize = 0;
        while i < list.len()
            invariant
                i <= list.len(),
                forall|j: int| 0 <= j < i ==> !(#[trigger] list@[j]).admits(*self),
            decreases list.len() - i,
        {
            if list[i].is_admitting(self) {
                return true;
            }
            i += 1;
        }
        false
    }

    /// Whether this declaration names the watcher as its action.
    pub fn is_watch(&self) -> (res: bool)
        ensures
            res == (self.action == Some(Flag::Special(Special::Watch))),
    {
        match self.action {
            Some(Flag::Special(Special::Watch)) => true,
            _ => false,
        }
    }
}


impl Pipeline {
    /// The declared triggers; none where the pipeline declares none.
    pub open spec fn declared(self) -> Seq<Trigger> {
        match self.triggers {
            None => Seq::empty(),
            Some(list) => list@,
        }
    }

    /// The pipeline may run in this context: it declares no trigger, or
    /// one of its triggers admits the context.
    pub open spec fn triggerable(self, context: Trigger) -> bool {
        self.declared().len() == 0 || context.admitted_by_any(self.declared())
    }

    /// Some trigger of the pipeline names the watcher as its action.
    pub open spec fn watchable(self) -> bool {
        exists|i: int|
            0 <= i < self.declared().len() && (#[trigger] self.declared()[i]).action == Some(
                Flag::Special(Special::Watch),
            )
    }

    /// Whether the pipeline may run in the resolved context. A context
    /// that could not be resolved (`None`) makes it not triggerable.
    pub fn is_triggerable(&self, context: Option<&Trigger>) -> (res: bool)
        ensures
            res == match context {
                None => false,
                Some(c) => self.triggerable(*c),
            },
    {
        match context {
            None => false,
            Some(c) => match &self.triggers {
                None => true,
                Some(list) => list.len() == 0 || c.is_match(list),
            },
        }
    }

    /// Succeeds when some trigger of the pipeline names the watcher.
    pub fn is_watchable(&self) -> (res: Result<(), PipelineError>)
        ensures
            res is Ok <==> self.watchable(),
            res is Err ==> res == Err::<(), PipelineError>(PipelineError::NotWatchable),
    {
        match &self.triggers {
            None => Err(PipelineError::NotWatchable),
            Some(list) => {
                let mut i: usize = 0;
                while i < list.len()
                    invariant
                        i <= list.len(),
                        self.triggers == Some(*list),
                        forall|j: int|
                            0 <= j < i ==> (#[trigger] list@[j]).action != Some(
                                Flag::Special(Special::Watch),
                            ),
                    decreases list.len() - i,
                {
                    if list[i].is_watch() {
                        return Ok(());
                    }
                    i += 1;
                }
                Err(PipelineError::NotWatchable)
            },
        }
    }
}

/// A pipeline that declares no trigger may run in every context.
pub proof fn lemma_no_trigger_always_triggerable(pipeline: Pipeline, context: Trigger)
    requires
        pipeline.declared().len() == 0,
    ensures
        pipeline.triggerable(context),
{
}

/// A pipeline whose one trigger declares a branch and nothing else may run
/// exactly in the contexts whose branch the declaration matches, whatever
/// their tag and action; where the declaration is a plain name, those are
/// the contexts on that branch.
pub proof fn lemma_branch_trigger(pipeline: Pipeline, branch: Seq<char>, context: Trigger)
    requires
        pipeline.declared().len() == 1,
        pipeline.declared()[0].action is None,
        pipeline.declared()[0].tag is None,
        pipeline.declared()[0].branch matches Some(b) && b@ == branch,
    ensures
        pipeline.triggerable(context) <==> (context.branch matches Some(c) && matches_text(branch, c@)),
        literal(branch, 0) ==> (pipeline.triggerable(context) <==> (context.branch matches Some(c)
            && c@ == branch)),
{
    let list = pipeline.declared();
    if context.branch matches Some(c) && matches_text(branch, c@) {
        assert(list[0].admits(context));
    }
    if literal(branch, 0) && context.branch is Some {
        lemma_literal(branch, context.branch->0@);
    }
}

/// A pipeline that asks for the branch `main` and nothing else may run
/// exactly on the branch `main`, whatever the tag and the action.
pub proof fn lemma_main_branch(pipeline: Pipeline, context: Trigger)
    requires
        pipeline.declared().len() == 1,
        pipeline.declared()[0].action is None,
        pipeline.declared()[0].tag is None,
        pipeline.declared()[0].branch matches Some(b) && b@ == "main"@,
    ensures
        pipeline.triggerable(context) <==> (context.branch matches Some(c) && c@ == "main"@),
{
    reveal_strlit("main");
    assert(literal("main"@, 0));
    lemma_branch_trigger(pipeline, "main"@, context);
}

/// One trigger that admits the context is enough, whatever the others
/// declare.
pub proof fn lemma_one_trigger_suffices(pipeline: Pipeline, context: Trigger, i: int)
    requires
        0 <= i < pipeline.declared().len(),
        pipeline.declared()[i].admits(context),
    ensures
        pipeline.triggerable(context),
{
}

/// A trigger asks for every field that it declares: a context that one of
/// its declared fields does not admit is not admitted, whatever its other
/// fields. A trigger that declares nothing admits every context.
pub proof fn lemma_trigger_asks_for_all(trigger: Trigger, context: Trigger)
    ensures
        !action_admits(trigger.action, context.action) ==> !trigger.admits(context),
        !name_admits(trigger.branch, context.branch) ==> !trigger.admits(context),
        !name_admits(trigger.tag, context.tag) ==> !trigger.admits(context),
        trigger.action is None && trigger.branch is None && trigger.tag is None ==> trigger.admits(
            context,
        ),
{
}

/// Whether a pipeline may run depends on the context's fields only as far
/// as some trigger declares them: two contexts that agree on action,
/// branch and tag get the same answer.
pub proof fn lemma_triggerable_by_fields(pipeline: Pipeline, a: Trigger, b: Trigger)
    requires
        a.action == b.action,
        a.branch is Some <==> b.branch is Some,
        a.branch is Some ==> a.branch->0@ == b.branch->0@,
        a.tag is Some <==> b.tag is Some,
        a.tag is Some ==> a.tag->0@ == b.tag->0@,
    ensures
        pipeline.triggerable(a) == pipeline.triggerable(b),
{
    let list = pipeline.declared();
    assert forall|i: int| 0 <= i < list.len() implies (#[trigger] list[i]).admits(a) == list[i].admits(b) by {
    }
}

impl Flag {
    /// The name under which the flag is given on the command line.
    pub open spec fn name_of(self) -> Seq<char> {
        match self {
            Flag::Hook(Hook::ApplypatchMsg) => "applypatch-msg"@,
            Flag::Hook(Hook::PreApplypatch) => "pre-applypatch"@,
            Flag::Hook(Hook::PostApplypatch) => "post-applypatch"@,
            Flag::Hook(Hook::PreCommit) => "pre-commit"@,
            Flag::Hook(Hook::PrepareCommitMsg) => "prepare-commit-msg"@,
            Flag::Hook(Hook::CommitMsg) => "commit-msg"@,
            Flag::Hook(Hook::PostCommit) => "post-commit"@,
            Flag::Hook(Hook::PreRebase) => "pre-rebase"@,
            Flag::Hook(Hook::PostCheckout) => "post-checkout"@,
            Flag::Hook(Hook::PostMerge) => "post-merge"@,
            Flag::Hook(Hook::PreReceive) => "pre-receive"@,
            Flag::Hook(Hook::Update) => "update"@,
            Flag::Hook(Hook::PostReceive) => "post-receive"@,
            Flag::Hook(Hook::PostUpdate) => "post-update"@,
            Flag::Hook(Hook::PreAutoGc) => "pre-auto-gc"@,
            Flag::Hook(Hook::PostRewrite) => "post-rewrite"@,
            Flag::Hook(Hook::PrePush) => "pre-push"@,
            Flag::Special(Special::Blank) => "blank"@,
            Flag::Special(Special::Manual) => "manual"@,
            Flag::Special(Special::Watch) => "watch"@,
        }
    }

    /// The name under which the flag is given on the command line.
    pub fn name(&self) -> (res: String)
        ensures
            res@ == self.name_of(),
    {
        match self {
            Flag::Hook(Hook::ApplypatchMsg) => "applypatch-msg".to_owned(),
            Flag::Hook(Hook::PreApplypatch) => "pre-applypatch".to_owned(),
            Flag::Hook(Hook::PostApplypatch) => "post-applypatch".to_owned(),
            Flag::Hook(Hook::PreCommit) => "pre-commit".to_owned(),
            Flag::Hook(Hook::PrepareCommitMsg) => "prepare-commit-msg".to_owned(),
            Flag::Hook(Hook::CommitMsg) => "commit-msg".to_owned(),
            Flag::Hook(Hook::PostCommit) => "post-commit".to_owned(),
            Flag::Hook(Hook::PreRebase) => "pre-rebase".to_owned(),
            Flag::Hook(Hook::PostCheckout) => "post-checkout".to_owned(),
            Flag::Hook(Hook::PostMerge) => "post-merge".to_owned(),
            Flag::Hook(Hook::PreReceive) => "pre-receive".to_owned(),
            Flag::Hook(Hook::Update) => "update".to_owned(),
            Flag::Hook(Hook::PostReceive) => "post-receive".to_owned(),
            Flag::Hook(Hook::PostUpdate) => "post-update".to_owned(),
            Flag::Hook(Hook::PreAutoGc) => "pre-auto-gc".to_owned(),
            Flag::Hook(Hook::PostRewrite) => "post-rewrite".to_owned(),
            Flag::Hook(Hook::PrePush) => "pre-push".to_owned(),
            Flag::Special(Special::Blank) => "blank".to_owned(),
            Flag::Special(Special::Manual) => "manual".to_owned(),
            Flag::Special(Special::Watch) => "watch".to_owned(),
        }
    }

    /// The flag that a name stands for; none where the name is not that
    /// of a flag.
    pub fn from_name(name: &str) -> (res: Option<Flag>)
        ensures
            res == flag_named(name@),
    {
    if same_text(name, "applypatch-msg") {
        Some(Flag::Hook(Hook::ApplypatchMsg))
    } else if same_text(name, "pre-applypatch") {
        Some(Flag::Hook(Hook::PreApplypatch))
    } else if same_text(name, "post-applypatch") {
        Some(Flag::Hook(Hook::PostApplypatch))
    } else if same_text(name, "pre-commit") {
        Some(Flag::Hook(Hook::PreCommit))
    } else if same_text(name, "prepare-commit-msg") {
        Some(Flag::Hook(Hook::PrepareCommitMsg))
    } else if same_text(name, "commit-msg") {
        Some(Flag::Hook(Hook::CommitMsg))
    } else if same_text(name, "post-commit") {
        Some(Flag::Hook(Hook::PostCommit))
    } else if same_text(name, "pre-rebase") {
        Some(Flag::Hook(Hook::PreRebase))
    } else if same_text(name, "post-checkout") {
        Some(Flag::Hook(Hook::PostCheckout))
    } else if same_text(name, "post-merge") {
        Some(Flag::Hook(Hook::PostMerge))
    } else if same_text(name, "pre-receive") {
        Some(Flag::Hook(Hook::PreReceive))
    } else if same_text(name, "update") {
        Some(Flag::Hook(Hook::Update))
    } else if same_text(name, "post-receive") {
        Some(Flag::Hook(Hook::PostReceive))
    } else if same_text(name, "post-update") {
        Some(Flag::Hook(Hook::PostUpdate))
    } else if same_text(name, "pre-auto-gc") {
        Some(Flag::Hook(Hook::PreAutoGc))
    } else if same_text(name, "post-rewrite") {
        Some(Flag::Hook(Hook::PostRewrite))
    } else if same_text(name, "pre-push") {
        Some(Flag::Hook(Hook::PrePush))
    } else if same_text(name, "blank") {
        Some(Flag::Special(Special::Blank))
    } else if same_text(name, "manual") {
        Some(Flag::Special(Special::Manual))
    } else if same_text(name, "watch") {
        Some(Flag::Special(Special::Watch))
    } else {
        None
    }
    }
}

/// The flag that a name stands for.
pub open spec fn flag_named(name: Seq<char>) -> Option<Flag> {
    if name == "applypatch-msg"@ {
        Some(Flag::Hook(Hook::ApplypatchMsg))
    } else if name == "pre-applypatch"@ {
        Some(Flag::Hook(Hook::PreApplypatch))
    } else if name == "post-applypatch"@ {
        Some(Flag::Hook(Hook::PostApplypatch))
    } else if name == "pre-commit"@ {
        Some(Flag::Hook(Hook::PreCommit))
    } else if name == "prepare-commit-msg"@ {
        Some(Flag::Hook(Hook::PrepareCommitMsg))
    } else if name == "commit-msg"@ {
        Some(Flag::Hook(Hook::CommitMsg))
    } else if name == "post-commit"@ {
        Some(Flag::Hook(Hook::PostCommit))
    } else if name == "pre-rebase"@ {
        Some(Flag::Hook(Hook::PreRebase))
    } else if name == "post-checkout"@ {
        Some(Flag::Hook(Hook::PostCheckout))
    } else if name == "post-merge"@ {
        Some(Flag::Hook(Hook::PostMerge))
    } else if name == "pre-receive"@ {
        Some(Flag::Hook(Hook::PreReceive))
    } else if name == "update"@ {
        Some(Flag::Hook(Hook::Update))
    } else if name == "post-receive"@ {
        Some(Flag::Hook(Hook::PostReceive))
    } else if name == "post-update"@ {
        Some(Flag::Hook(Hook::PostUpdate))
    } else if name == "pre-auto-gc"@ {
        Some(Flag::Hook(Hook::PreAutoGc))
    } else if name == "post-rewrite"@ {
        Some(Flag::Hook(Hook::PostRewrite))
    } else if name == "pre-push"@ {
        Some(Flag::Hook(Hook::PrePush))
    } else if name == "blank"@ {
        Some(Flag::Special(Special::Blank))
    } else if name == "manual"@ {
        Some(Flag::Special(Special::Manual))
    } else if name == "watch"@ {
        Some(Flag::Special(Special::Watch))
    } else {
        None
    }
}

/// Every flag is found again under its name, and a name that stands for
/// a flag is that flag's name.
pub proof fn lemma_flag_names(flag: Flag, name: Seq<char>)
    ensures
        flag_named(flag.name_of()) == Some(flag),
        flag_named(name) == Some(flag) ==> name == flag.name_of(),
{
    reveal_strlit("applypatch-msg");
    reveal_strlit("pre-applypatch");
    reveal_strlit("post-applypatch");
    reveal_strlit("pre-commit");
    reveal_strlit("prepare-commit-msg");
    reveal_strlit("commit-msg");
    reveal_strlit("post-commit");
    reveal_strlit("pre-rebase");
    reveal_strlit("post-checkout");
    reveal_strlit("post-merge");
    reveal_strlit("pre-receive");
    reveal_strlit("update");
    reveal_strlit("post-receive");
    reveal_strlit("post-update");
    reveal_strlit("pre-auto-gc");
    reveal_strlit("post-rewrite");
    reveal_strlit("pre-push");
    reveal_strlit("blank");
    reveal_strlit("manual");
    reveal_strlit("watch");
    match flag {
        Flag::Hook(Hook::ApplypatchMsg) => {
        },
        Flag::Hook(Hook::PreApplypatch) => {
            assert("pre-applypatch"@[0] != "applypatch-msg"@[0]);
        },
        Flag::Hook(Hook::PostApplypatch) => {
            assert("post-applypatch"@.len() != "applypatch-msg"@.len());
            assert("post-applypatch"@.len() != "pre-applypatch"@.len());
        },
        Flag::Hook(Hook::PreCommit) => {
            assert("pre-commit"@.len() != "applypatch-msg"@.len());
            assert("pre-commit"@.len() != "pre-applypatch"@.len());
            assert("pre-commit"@.len() != "post-applypatch"@.len());
        },
        Flag::Hook(Hook::PrepareCommitMsg) => {
            assert("prepare-commit-msg"@.len() != "applypatch-msg"@.len());
            assert("prepare-commit-msg"@.len() != "pre-applypatch"@.len());
            assert("prepare-commit-msg"@.len() != "post-applypatch"@.len());
            assert("prepare-commit-msg"@.len() != "pre-commit"@.len());
        },
        Flag::Hook(Hook::CommitMsg) => {
            assert("commit-msg"@.len() != "applypatch-msg"@.len());
            assert("commit-msg"@.len() != "pre-applypatch"@.len());
            assert("commit-msg"@.len() != "post-applypatch"@.len());
            assert("commit-msg"@[0] != "pre-commit"@[0]);
            assert("commit-msg"@.len() != "prepare-commit-msg"@.len());
        },
        Flag::Hook(Hook::PostCommit) => {
            assert("post-commit"@.len() != "applypatch-msg"@.len());
            assert("post-commit"@.len() != "pre-applypatch"@.len());
            assert("post-commit"@.len() != "post-applypatch"@.len());
            assert("post-commit"@.len() != "pre-commit"@.len());
            assert("post-commit"@.len() != "prepare-commit-msg"@.len());
            assert("post-commit"@.len() != "commit-msg"@.len());
        },
        Flag::Hook(Hook::PreRebase) => {
            assert("pre-rebase"@.len() != "applypatch-msg"@.len());
            assert("pre-rebase"@.len() != "pre-applypatch"@.len());
            assert("pre-rebase"@.len() != "post-applypatch"@.len());
            assert("pre-rebase"@[4] != "pre-commit"@[4]);
            assert("pre-rebase"@.len() != "prepare-commit-msg"@.len());
            assert("pre-rebase"@[0] != "commit-msg"@[0]);
            assert("pre-rebase"@.len() != "post-commit"@.len());
        },
        Flag::Hook(Hook::PostCheckout) => {
            assert("post-checkout"@.len() != "applypatch-msg"@.len());
            assert("post-checkout"@.len() != "pre-applypatch"@.len());
            assert("post-checkout"@.len() != "post-applypatch"@.len());
            assert("post-checkout"@.len() != "pre-commit"@.len());
            assert("post-checkout"@.len() != "prepare-commit-msg"@.len());
            assert("post-checkout"@.len() != "commit-msg"@.len());
            assert("post-checkout"@.len() != "post-commit"@.len());
            assert("post-checkout"@.len() != "pre-rebase"@.len());
        },
        Flag::Hook(Hook::PostMerge) => {
            assert("post-merge"@.len() != "applypatch-msg"@.len());
            assert("post-merge"@.len() != "pre-applypatch"@.len());
            assert("post-merge"@.len() != "post-applypatch"@.len());
            assert("post-merge"@[1] != "pre-commit"@[1]);
            assert("post-merge"@.len() != "prepare-commit-msg"@.len());
            assert("post-merge"@[0] != "commit-msg"@[0]);
            assert("post-merge"@.len() != "post-commit"@.len());
            assert("post-merge"@[1] != "pre-rebase"@[1]);
            assert("post-merge"@.len() != "post-checkout"@.len());
        },
        Flag::Hook(Hook::PreReceive) => {
            assert("pre-receive"@.len() != "applypatch-msg"@.len());
            assert("pre-receive"@.len() != "pre-applypatch"@.len());
            assert("pre-receive"@.len() != "post-applypatch"@.len());
            assert("pre-receive"@.len() != "pre-commit"@.len());
            assert("pre-receive"@.len() != "prepare-commit-msg"@.len());
            assert("pre-receive"@.len() != "commit-msg"@.len());
            assert("pre-receive"@[1] != "post-commit"@[1]);
            assert("pre-receive"@.len() != "pre-rebase"@.len());
            assert("pre-receive"@.len() != "post-checkout"@.len());
            assert("pre-receive"@.len() != "post-merge"@.len());
        },
        Flag::Hook(Hook::Update) => {
            assert("update"@.len() != "applypatch-msg"@.len());
            assert("update"@.len() != "pre-applypatch"@.len());
            assert("update"@.len() != "post-applypatch"@.len());
            assert("update"@.len() != "pre-commit"@.len());
            assert("update"@.len() != "prepare-commit-msg"@.len());
            assert("update"@.len() != "commit-msg"@.len());
            assert("update"@.len() != "post-commit"@.len());
            assert("update"@.len() != "pre-rebase"@.len());
            assert("update"@.len() != "post-checkout"@.len());
            assert("update"@.len() != "post-merge"@.len());
            assert("update"@.len() != "pre-receive"@.len());
        },
        Flag::Hook(Hook::PostReceive) => {
            assert("post-receive"@.len() != "applypatch-msg"@.len());
            assert("post-receive"@.len() != "pre-applypatch"@.len());
            assert("post-receive"@.len() != "post-applypatch"@.len());
            assert("post-receive"@.len() != "pre-commit"@.len());
            assert("post-receive"@.len() != "prepare-commit-msg"@.len());
            assert("post-receive"@.len() != "commit-msg"@.len());
            assert("post-receive"@.len() != "post-commit"@.len());
            assert("post-receive"@.len() != "pre-rebase"@.len());
            assert("post-receive"@.len() != "post-checkout"@.len());
            assert("post-receive"@.len() != "post-merge"@.len());
            assert("post-receive"@.len() != "pre-receive"@.len());
            assert("post-receive"@.len() != "update"@.len());
        },
        Flag::Hook(Hook::PostUpdate) => {
            assert("post-update"@.len() != "applypatch-msg"@.len());
            assert("post-update"@.len() != "pre-applypatch"@.len());
            assert("post-update"@.len() != "post-applypatch"@.len());
            assert("post-update"@.len() != "pre-commit"@.len());
            assert("post-update"@.len() != "prepare-commit-msg"@.len());
            assert("post-update"@.len() != "commit-msg"@.len());
            assert("post-update"@[5] != "post-commit"@[5]);
            assert("post-update"@.len() != "pre-rebase"@.len());
            assert("post-update"@.len() != "post-checkout"@.len());
            assert("post-update"@.len() != "post-merge"@.len());
            assert("post-update"@[1] != "pre-receive"@[1]);
            assert("post-update"@.len() != "update"@.len());
            assert("post-update"@.len() != "post-receive"@.len());
        },
        Flag::Hook(Hook::PreAutoGc) => {
            assert("pre-auto-gc"@.len() != "applypatch-msg"@.len());
            assert("pre-auto-gc"@.len() != "pre-applypatch"@.len());
            assert("pre-auto-gc"@.len() != "post-applypatch"@.len());
            assert("pre-auto-gc"@.len() != "pre-commit"@.len());
            assert("pre-auto-gc"@.len() != "prepare-commit-msg"@.len());
            assert("pre-auto-gc"@.len() != "commit-msg"@.len());
            assert("pre-auto-gc"@[1] != "post-commit"@[1]);
            assert("pre-auto-gc"@.len() != "pre-rebase"@.len());
            assert("pre-auto-gc"@.len() != "post-checkout"@.len());
            assert("pre-auto-gc"@.len() != "post-merge"@.len());
            assert("pre-auto-gc"@[4] != "pre-receive"@[4]);
            assert("pre-auto-gc"@.len() != "update"@.len());
            assert("pre-auto-gc"@.len() != "post-receive"@.len());
            assert("pre-auto-gc"@[1] != "post-update"@[1]);
        },
        Flag::Hook(Hook::PostRewrite) => {
            assert("post-rewrite"@.len() != "applypatch-msg"@.len());
            assert("post-rewrite"@.len() != "pre-applypatch"@.len());
            assert("post-rewrite"@.len() != "post-applypatch"@.len());
            assert("post-rewrite"@.len() != "pre-commit"@.len());
            assert("post-rewrite"@.len() != "prepare-commit-msg"@.len());
            assert("post-rewrite"@.len() != "commit-msg"@.len());
            assert("post-rewrite"@.len() != "post-commit"@.len());
            assert("post-rewrite"@.len() != "pre-rebase"@.len());
            assert("post-rewrite"@.len() != "post-checkout"@.len());
            assert("post-rewrite"@.len() != "post-merge"@.len());
            assert("post-rewrite"@.len() != "pre-receive"@.len());
            assert("post-rewrite"@.len() != "update"@.len());
            assert("post-rewrite"@[7] != "post-receive"@[7]);
            assert("post-rewrite"@.len() != "post-update"@.len());
            assert("post-rewrite"@.len() != "pre-auto-gc"@.len());
        },
        Flag::Hook(Hook::PrePush) => {
            assert("pre-push"@.len() != "applypatch-msg"@.len());
            assert("pre-push"@.len() != "pre-applypatch"@.len());
            assert("pre-push"@.len() != "post-applypatch"@.len());
            assert("pre-push"@.len() != "pre-commit"@.len());
            assert("pre-push"@.len() != "prepare-commit-msg"@.len());
            assert("pre-push"@.len() != "commit-msg"@.len());
            assert("pre-push"@.len() != "post-commit"@.len());
            assert("pre-push"@.len() != "pre-rebase"@.len());
            assert("pre-push"@.len() != "post-checkout"@.len());
            assert("pre-push"@.len() != "post-merge"@.len());
            assert("pre-push"@.len() != "pre-receive"@.len());
            assert("pre-push"@.len() != "update"@.len());
            assert("pre-push"@.len() != "post-receive"@.len());
            assert("pre-push"@.len() != "post-update"@.len());
            assert("pre-push"@.len() != "pre-auto-gc"@.len());
            assert("pre-push"@.len() != "post-rewrite"@.len());
        },
        Flag::Special(Special::Blank) => {
            assert("blank"@.len() != "applypatch-msg"@.len());
            assert("blank"@.len() != "pre-applypatch"@.len());
            assert("blank"@.len() != "post-applypatch"@.len());
            assert("blank"@.len() != "pre-commit"@.len());
            assert("blank"@.len() != "prepare-commit-msg"@.len());
            assert("blank"@.len() != "commit-msg"@.len());
            assert("blank"@.len() != "post-commit"@.len());
            assert("blank"@.len() != "pre-rebase"@.len());
            assert("blank"@.len() != "post-checkout"@.len());
            assert("blank"@.len() != "post-merge"@.len());
            assert("blank"@.len() != "pre-receive"@.len());
            assert("blank"@.len() != "update"@.len());
            assert("blank"@.len() != "post-receive"@.len());
            assert("blank"@.len() != "post-update"@.len());
            assert("blank"@.len() != "pre-auto-gc"@.len());
            assert("blank"@.len() != "post-rewrite"@.len());
            assert("blank"@.len() != "pre-push"@.len());
        },
        Flag::Special(Special::Manual) => {
            assert("manual"@.len() != "applypatch-msg"@.len());
            assert("manual"@.len() != "pre-applypatch"@.len());
            assert("manual"@.len() != "post-applypatch"@.len());
            assert("manual"@.len() != "pre-commit"@.len());
            assert("manual"@.len() != "prepare-commit-msg"@.len());
            assert("manual"@.len() != "commit-msg"@.len());
            assert("manual"@.len() != "post-commit"@.len());
            assert("manual"@.len() != "pre-rebase"@.len());
            assert("manual"@.len() != "post-checkout"@.len());
            assert("manual"@.len() != "post-merge"@.len());
            assert("manual"@.len() != "pre-receive"@.len());
            assert("manual"@[0] != "update"@[0]);
            assert("manual"@.len() != "post-receive"@.len());
            assert("manual"@.len() != "post-update"@.len());
            assert("manual"@.len() != "pre-auto-gc"@.len());
            assert("manual"@.len() != "post-rewrite"@.len());
            assert("manual"@.len() != "pre-push"@.len());
            assert("manual"@.len() != "blank"@.len());
        },
        Flag::Special(Special::Watch) => {
            assert("watch"@.len() != "applypatch-msg"@.len());
            assert("watch"@.len() != "pre-applypatch"@.len());
            assert("watch"@.len() != "post-applypatch"@.len());
            assert("watch"@.len() != "pre-commit"@.len());
            assert("watch"@.len() != "prepare-commit-msg"@.len());
            assert("watch"@.len() != "commit-msg"@.len());
            assert("watch"@.len() != "post-commit"@.len());
            assert("watch"@.len() != "pre-rebase"@.len());
            assert("watch"@.len() != "post-checkout"@.len());
            assert("watch"@.len() != "post-merge"@.len());
            assert("watch"@.len() != "pre-receive"@.len());
            assert("watch"@.len() != "update"@.len());
            assert("watch"@.len() != "post-receive"@.len());
            assert("watch"@.len() != "post-update"@.len());
            assert("watch"@.len() != "pre-auto-gc"@.len());
            assert("watch"@.len() != "post-rewrite"@.len());
            assert("watch"@.len() != "pre-push"@.len());
            assert("watch"@[0] != "blank"@[0]);
            assert("watch"@.len() != "manual"@.len());
        },
    }
}

} // verus!
