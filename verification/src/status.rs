//! The status of a pipeline, of one of its nodes, or of a command.

use vstd::prelude::*;

verus! {

/// Where an execution attempt stands.
#[derive(Clone, Copy, Debug, PartialEq, Eq, Structural)]
pub enum Status {
    Started,
    Running,
    Succeeded,
    Failed,
    Aborted,
}

impl Status {
    /// A status that no further step of the same attempt changes.
    pub open spec fn terminal(self) -> bool {
        self == Status::Succeeded || self == Status::Failed || self == Status::Aborted
    }

    /// A status that claims a live process: the attempt has begun and has
    /// not reported its end.
    pub open spec fn active(self) -> bool {
        self == Status::Started || self == Status::Running
    }

    /// Whether no further step of the same attempt changes this status.
    pub fn is_terminal(&self) -> (res: bool)
        ensures
            res == self.terminal(),
    {
        match self {
            Status::Succeeded | Status::Failed | Status::Aborted => true,
            Status::Started | Status::Running => false,
        }
    }

    /// Whether this status claims a live process.
    pub fn is_active(&self) -> (res: bool)
        ensures
            res == self.active(),
    {
        match self {
            Status::Started | Status::Running => true,
            Status::Succeeded | Status::Failed | Status::Aborted => false,
        }
    }
}

impl Status {
    /// The word for the status.
    pub open spec fn word(self) -> Seq<char> {
        match self {
            Status::Started => "started"@,
            Status::Running => "running"@,
            Status::Succeeded => "succeeded"@,
            Status::Failed => "failed"@,
            Status::Aborted => "aborted"@,
        }
    }

    /// The word for the status.
    pub fn to_string(&self) -> (res: String)
        ensures
            res@ == self.word(),
    {
        match self {
            Status::Started => "started".to_owned(),
            Status::Running => "running".to_owned(),
            Status::Succeeded => "succeeded".to_owned(),
            Status::Failed => "failed".to_owned(),
            Status::Aborted => "aborted".to_owned(),
        }
    }
}

} // verus!
