//! The command line as data, and the text of a command line: what the
//! user would type after the program's name to say the same again.

use vstd::prelude::*;
use vstd::string::StringExecFns;

verus! {

/// How loud the program is asked to be.
#[derive(Clone, Copy, Debug, PartialEq, Eq, Structural)]
pub struct Verbosity {
    pub verbose: u8,
    pub quiet: u8,
}

/// The flags that say how a pipeline is started.
#[derive(Debug)]
pub struct Trigger {
    pub attach: bool,
    pub flag: Option<String>,
}

/// The pipeline that a command names.
#[derive(Debug)]
pub struct Pipeline {
    pub name: Option<String>,
    pub trigger: Trigger,
}

/// What to show, and how.
#[derive(Debug)]
pub struct DisplayCommands {
    pub json: bool,
    pub name: Option<String>,
}

/// What to do with the logs other than show them.
#[derive(Clone, Copy, Debug, PartialEq, Eq, Structural)]
pub enum LogsCommands {
    Rm,
}

#[derive(Debug)]
pub struct Logs {
    pub commands: Option<LogsCommands>,
    pub display: DisplayCommands,
}

#[derive(Clone, Copy, Debug, PartialEq, Eq, Structural)]
pub struct Watch {
    pub attach: bool,
}

/// A script given on the command line.
#[derive(Debug)]
pub struct Raw {
    pub string: String,
}

#[derive(Debug)]
pub enum Commands {
    Run(Pipeline),
    Raw(Raw),
    Stop(Pipeline),
    Trigger(Trigger),
    Logs(Logs),
    Inspect(DisplayCommands),
    Ls(DisplayCommands),
    Watch(Watch),
}

#[derive(Debug)]
pub struct Cli {
    pub commands: Commands,
    pub raw: Option<String>,
    pub config: Option<String>,
    pub verbose: Verbosity,
}

/// A name, or nothing where there is none.
pub open spec fn name_text(name: Option<String>) -> Seq<char> {
    match name {
        None => Seq::empty(),
        Some(n) => n@,
    }
}

/// ` --attach` where the flag is set.
pub open spec fn attach_text(attach: bool) -> Seq<char> {
    if attach {
        " --attach"@
    } else {
        Seq::empty()
    }
}

impl Verbosity {
    pub fn new(verbose: u8, quiet: u8) -> (res: Verbosity)
        ensures
            res == (Verbosity { verbose, quiet }),
    {
        Verbosity { verbose, quiet }
    }
}

impl Trigger {
    /// ` --flag ` and the flag where there is one, then ` --attach` where
    /// that is set.
    pub open spec fn text(self) -> Seq<char> {
        (match self.flag {
            None => Seq::empty(),
            Some(f) => " --flag "@ + f@,
        }) + attach_text(self.attach)
    }

    fn write(&self, out: &mut String)
        ensures
            final(out)@ == old(out)@ + self.text(),
    {
        match &self.flag {
            None => {},
            Some(f) => {
                out.append(" --flag ");
                out.append(f.as_str());
            },
        }
        if self.attach {
            out.append(" --attach");
        }
    }

    pub fn to_string(&self) -> (res: String)
        ensures
            res@ == self.text(),
    {
        let mut out = String::new();
        self.write(&mut out);
        out
    }
}

impl Pipeline {
    /// The name where there is one, then the trigger's flags.
    pub open spec fn text(self) -> Seq<char> {
        name_text(self.name) + self.trigger.text()
    }

    fn write(&self, out: &mut String)
        ensures
            final(out)@ == old(out)@ + self.text(),
    {
        match &self.name {
            None => {},
            Some(n) => {
                out.append(n.as_str());
            },
        }
        self.trigger.write(out);
    }

    pub fn to_string(&self) -> (res: String)
        ensures
            res@ == self.text(),
    {
        let mut out = String::new();
        self.write(&mut out);
        out
    }
}

impl DisplayCommands {
    /// The name where there is one, then ` --json` where that is set.
    pub open spec fn text(self) -> Seq<char> {
        name_text(self.name) + (if self.json {
            " --json"@
        } else {
            Seq::empty()
        })
    }

    fn write(&self, out: &mut String)
        ensures
            final(out)@ == old(out)@ + self.text(),
    {
        match &self.name {
            None => {},
            Some(n) => {
                out.append(n.as_str());
            },
        }
        if self.json {
            out.append(" --json");
        }
    }

    pub fn to_string(&self) -> (res: String)
        ensures
            res@ == self.text(),
    {
        let mut out = String::new();
        self.write(&mut out);
        out
    }
}

impl Logs {
    /// `rm` and what to show where a command is given; nothing where
    /// none is.
    pub open spec fn text(self) -> Seq<char> {
        match self.commands {
            None => Seq::empty(),
            Some(LogsCommands::Rm) => "rm"@ + self.display.text(),
        }
    }

    fn write(&self, out: &mut String)
        ensures
            final(out)@ == old(out)@ + self.text(),
    {
        match self.commands {
            None => {},
            Some(LogsCommands::Rm) => {
                out.append("rm");
                self.display.write(out);
            },
        }
    }

    pub fn to_string(&self) -> (res: String)
        ensures
            res@ == self.text(),
    {
        let mut out = String::new();
        self.write(&mut out);
        out
    }
}

impl Watch {
    /// ` --attach` where that is set.
    pub open spec fn text(self) -> Seq<char> {
        attach_text(self.attach)
    }

    pub fn to_string(&self) -> (res: String)
        ensures
            res@ == self.text(),
    {
        let mut out = String::new();
        if self.attach {
            out.append(" --attach");
        }
        out
    }
}

impl Commands {
    /// The command's word and, after a space, what it is given.
    pub open spec fn text(self) -> Seq<char> {
        match self {
            Commands::Run(p) => "run "@ + p.text(),
            Commands::Raw(r) => "raw "@ + r.string@,
            Commands::Stop(p) => "stop "@ + p.text(),
            Commands::Trigger(t) => "trigger "@ + t.text(),
            Commands::Logs(l) => "logs "@ + l.text(),
            Commands::Inspect(_) => "inspect"@,
            Commands::Ls(_) => "ls"@,
            Commands::Watch(_) => "watch"@,
        }
    }

    pub fn to_string(&self) -> (res: String)
        ensures
            res@ == self.text(),
    {
        let mut out = String::new();
        match self {
            Commands::Run(p) => {
                out.append("run ");
                p.write(&mut out);
            },
            Commands::Raw(r) => {
                out.append("raw ");
                out.append(r.string.as_str());
            },
            Commands::Stop(p) => {
                out.append("stop ");
                p.write(&mut out);
            },
            Commands::Trigger(t) => {
                out.append("trigger ");
                t.write(&mut out);
            },
            Commands::Logs(l) => {
                out.append("logs ");
                l.write(&mut out);
            },
            Commands::Inspect(_) => {
                out.append("inspect");
            },
            Commands::Ls(_) => {
                out.append("ls");
            },
            Commands::Watch(_) => {
                out.append("watch");
            },
        }
        out
    }
}

impl Cli {
    /// The text of the command.
    pub open spec fn text(self) -> Seq<char> {
        self.commands.text()
    }

    pub fn to_string(&self) -> (res: String)
        ensures
            res@ == self.text(),
    {
        self.commands.to_string()
    }
}

impl From<&Commands> for String {
    fn from(e: &Commands) -> (res: String)
        ensures
            res@ == e.text(),
    {
        e.to_string()
    }
}

impl vstd::std_specs::convert::FromSpecImpl<&Commands> for String {
    open spec fn obeys_from_spec() -> bool {
        false
    }

    open spec fn from_spec(v: &Commands) -> String {
        arbitrary()
    }
}

impl From<&Cli> for String {
    fn from(e: &Cli) -> (res: String)
        ensures
            res@ == e.text(),
    {
        e.to_string()
    }
}

impl vstd::std_specs::convert::FromSpecImpl<&Cli> for String {
    open spec fn obeys_from_spec() -> bool {
        false
    }

    open spec fn from_spec(v: &Cli) -> String {
        arbitrary()
    }
}

} // verus!
