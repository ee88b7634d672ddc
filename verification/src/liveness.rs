//! Which logged attempts are backed by a live process. The log says what
//! an attempt last wrote about itself; whether its process still exists
//! is asked of the operating system, and the answer overrules the log.

use vstd::prelude::*;
use crate::error::PipelineError;
use crate::engine::opened;
use crate::pipeline::{Event, Pipeline};
use crate::status::Status;

verus! {

/// Asks the operating system whether a process can be signalled, with
/// `rustix::process::test_kill_process` on the identifier that
/// `rustix::process::Pid::from_raw` makes of `pid`. No signal is sent.
/// An error of the probe (no such process, no permission) counts as not
/// alive. Nothing is claimed of the answer: it depends on the processes of
/// the moment.
#[verifier::external_body]
fn signal_reaches(pid: i32) -> (alive: bool)
    requires
        pid > 0,
{
    match rustix::process::Pid::from_raw(pid) {
        Some(p) => rustix::process::test_kill_process(p).is_ok(),
        None => false,
    }
}

/// What is known of the process behind an identifier.
#[derive(Clone, Copy, Debug, PartialEq, Eq, Structural)]
pub enum Presence {
    /// No such process, or none that could be asked about.
    Gone,
    /// The process exists; whose program it runs is not known.
    Alive,
    /// The process exists and runs a program of this tool's family.
    Kin,
    /// The process exists and runs another program: the identifier was
    /// given out again.
    Foreign,
}

impl Presence {
    /// The process can be the one that a snapshot claims: it exists and
    /// is not known to run another program.
    pub open spec fn backs(self) -> bool {
        self == Presence::Alive || self == Presence::Kin
    }

    /// Whether the process can be the one that a snapshot claims.
    pub fn is_backing(&self) -> (res: bool)
        ensures
            res == self.backs(),
    {
        match self {
            Presence::Alive | Presence::Kin => true,
            Presence::Gone | Presence::Foreign => false,
        }
    }

    /// What the system's answer to the question "can the process be
    /// signalled" makes known: alive on yes, gone on no.
    pub fn seen(alive: bool) -> (res: Presence)
        ensures
            res == if alive {
                Presence::Alive
            } else {
                Presence::Gone
            },
    {
        if alive {
            Presence::Alive
        } else {
            Presence::Gone
        }
    }

    /// What is known once the program of a process has been compared
    /// with this tool's: of a process that is gone nothing more, of
    /// another that it is kin or foreign, and as much as before where
    /// the program could not be read.
    pub open spec fn identified_as(self, same: Option<bool>) -> Presence {
        match self {
            Presence::Gone => Presence::Gone,
            _ => match same {
                None => self,
                Some(true) => Presence::Kin,
                Some(false) => Presence::Foreign,
            },
        }
    }

    /// What is known once the program of a process has been compared
    /// with this tool's, where the system lets it be read: `same` is
    /// `None` where it does not.
    pub fn identified(self, same: Option<bool>) -> (res: Presence)
        ensures
            res == self.identified_as(same),
    {
        match self {
            Presence::Gone => Presence::Gone,
            _ => match same {
                None => self,
                Some(true) => Presence::Kin,
                Some(false) => Presence::Foreign,
            },
        }
    }
}

/// A number that can name a process: positive and within the range of
/// process identifiers.
pub open spec fn nameable(pid: u32) -> bool {
    0 < pid <= i32::MAX
}

/// Whether the process `pid` is alive. A number that cannot name a
/// process is not alive.
pub fn is_alive(pid: u32) -> (alive: bool)
    ensures
        !nameable(pid) ==> !alive,
{
    if pid == 0 || pid > 2147483647 {
        false
    } else {
        signal_reaches(pid as i32)
    }
}

/// What the operating system knows of the process `pid`: gone or alive.
/// Whose program it runs is left to the caller to find out.
pub fn probe(pid: u32) -> (res: Presence)
    ensures
        res == Presence::Gone || res == Presence::Alive,
        !nameable(pid) ==> res == Presence::Gone,
{
    Presence::seen(is_alive(pid))
}

impl Pipeline {
    /// The process that the snapshot claims to run in: the one of its
    /// event, while its status is `Started` or `Running`.
    pub open spec fn claimed_process(self) -> Option<u32> {
        match self.event {
            None => None,
            Some(e) => match self.status {
                Some(s) => if s.active() {
                    e.pid
                } else {
                    None
                },
                None => None,
            },
        }
    }

    /// The snapshot's status claims a live process.
    pub open spec fn claims_to_run(self) -> bool {
        self.event is Some && (self.status matches Some(s) && s.active())
    }

    /// The attempt is running, given what is known of its process.
    pub open spec fn running_when(self, presence: Presence) -> bool {
        self.claimed_process() is Some && presence.backs()
    }

    /// The attempt was aborted, given what is known of its process: it
    /// says so itself, or it claims to run and no live process backs the
    /// claim.
    pub open spec fn aborted_when(self, presence: Presence) -> bool {
        self.event is Some && (self.status == Some(Status::Aborted) || (self.claims_to_run()
            && !self.running_when(presence)))
    }

    /// The status to go by, given what is known of the process: the one
    /// written, corrected to `Aborted` where the attempt claims to run and
    /// nothing backs the claim.
    pub open spec fn status_when(self, presence: Presence) -> Option<Status> {
        if self.aborted_when(presence) {
            Some(Status::Aborted)
        } else {
            self.status
        }
    }

    /// The status to go by, given what is known of the process. Whoever
    /// reads a status of `Running` or `Started` from the logs reads it
    /// through this.
    pub fn effective_status(&self, presence: Presence) -> (res: Option<Status>)
        ensures
            res == self.status_when(presence),
    {
        if self.is_aborted_when(presence) {
            Some(Status::Aborted)
        } else {
            self.status
        }
    }

    /// The process to count among the live ones, given the system's
    /// answer for the process that the snapshot claims: that process on
    /// yes, none on no and where the snapshot claims none.
    pub fn live_claim(&self, alive: bool) -> (res: Option<u32>)
        ensures
            res == if alive {
                self.claimed_process()
            } else {
                None
            },
    {
        if alive {
            self.get_claimed_process()
        } else {
            None
        }
    }

    /// The process that the snapshot claims to run in.
    pub fn get_claimed_process(&self) -> (res: Option<u32>)
        ensures
            res == self.claimed_process(),
    {
        match &self.event {
            None => None,
            Some(e) => match self.status {
                Some(Status::Started) | Some(Status::Running) => e.pid,
                _ => None,
            },
        }
    }

    /// Whether the attempt is running, given what is known of its
    /// process.
    pub fn is_running_when(&self, presence: Presence) -> (res: bool)
        ensures
            res == self.running_when(presence),
    {
        self.get_claimed_process().is_some() && presence.is_backing()
    }

    /// Whether the attempt was aborted, given what is known of its
    /// process.
    pub fn is_aborted_when(&self, presence: Presence) -> (res: bool)
        ensures
            res == self.aborted_when(presence),
    {
        match &self.event {
            None => false,
            Some(e) => match self.status {
                Some(Status::Aborted) => true,
                Some(Status::Started) | Some(Status::Running) => !(e.pid.is_some()
                    && presence.is_backing()),
                _ => false,
            },
        }
    }

    /// Succeeds when the attempt is running: the snapshot claims a
    /// process and the operating system knows it. Whatever the system
    /// answers, a snapshot that claims no process is not running.
    pub fn is_running(&self) -> (res: Result<(), PipelineError>)
        ensures
            res is Ok ==> (self.claimed_process() matches Some(pid) && nameable(pid)),
            res is Err ==> res == Err::<(), PipelineError>(PipelineError::NotRunning),
    {
        let presence = match self.get_claimed_process() {
            Some(pid) => probe(pid),
            None => Presence::Gone,
        };
        if self.is_running_when(presence) {
            Ok(())
        } else {
            Err(PipelineError::NotRunning)
        }
    }

    /// Whether the attempt was aborted. A snapshot that says so is; one
    /// that claims to run is aborted when the operating system does not
    /// know its process. The inference is made on reading and written
    /// nowhere.
    pub fn is_aborted(&self) -> (res: bool)
        ensures
            self.event is None ==> !res,
            self.event is Some && self.status == Some(Status::Aborted) ==> res,
            !self.claims_to_run() && self.status != Some(Status::Aborted) ==> !res,
            self.claims_to_run() && !(self.claimed_process() matches Some(pid) && nameable(pid))
                ==> res,
    {
        let presence = match self.get_claimed_process() {
            Some(pid) => probe(pid),
            None => Presence::Gone,
        };
        self.is_aborted_when(presence)
    }

    /// The snapshot at `i` holds the name in the logs: it bears the name,
    /// claims a process, and that process is among the live ones (those
    /// that exist and are not known to run another program).
    pub open spec fn holds_name(self, logs: Seq<Pipeline>, live: Set<u32>, i: int) -> bool {
        &&& 0 <= i < logs.len()
        &&& logs[i].name@ == self.name@
        &&& logs[i].claimed_process() matches Some(pid) && live.contains(pid)
    }

    /// The name of this pipeline is occupied: some logged attempt of the
    /// same name runs in a live process.
    pub open spec fn occupied(self, logs: Seq<Pipeline>, live: Set<u32>) -> bool {
        exists|i: int| self.holds_name(logs, live, i)
    }

    /// The snapshot at `i` may hold the name: it bears the name and
    /// claims a process that a number can name.
    pub open spec fn may_hold_name(self, logs: Seq<Pipeline>, i: int) -> bool {
        &&& 0 <= i < logs.len()
        &&& logs[i].name@ == self.name@
        &&& logs[i].claimed_process() matches Some(pid) && nameable(pid)
    }

    /// The most recent logged attempt that holds this pipeline's name,
    /// given the live processes; the logs are in ascending order of date.
    pub fn running_homologous(&self, logs: &Vec<Pipeline>, live: &Vec<u32>) -> (res: Option<usize>)
        ensures
            res is Some <==> self.occupied(logs@, live@.to_set()),
            res matches Some(i) ==> self.holds_name(logs@, live@.to_set(), i as int) && forall|
                j: int,
            | i < j < logs@.len() ==> !self.holds_name(logs@, live@.to_set(), j),
    {
        let mut i: usize = logs.len();
        while i > 0
            invariant
                i <= logs@.len(),
                forall|j: int| i <= j < logs@.len() ==> !self.holds_name(logs@, live@.to_set(), j),
            decreases i,
        {
            i -= 1;
            if logs[i].name == self.name {
                match logs[i].get_claimed_process() {
                    Some(pid) => {
                        if contains_pid(live, pid) {
                            assert(self.holds_name(logs@, live@.to_set(), i as int));
                            return Some(i);
                        }
                    },
                    None => {},
                }
            }
        }
        None
    }

    /// The list holds answers of the system for this pipeline's name:
    /// each of its processes can be named and is claimed by a logged
    /// attempt of the name.
    pub open spec fn answers_for(self, logs: Seq<Pipeline>, live: Seq<u32>) -> bool {
        forall|k: int|
            0 <= k < live.len() ==> exists|i: int|
                self.may_hold_name(logs, i) && logs[i].claimed_process() == Some(
                    #[trigger] live[k],
                )
    }

    /// The processes, among those that the logged attempts of this
    /// pipeline's name claim, that the operating system knows at the
    /// moment of asking, oldest attempt first.
    pub fn live_homologous(&self, logs: &Vec<Pipeline>) -> (live: Vec<u32>)
        ensures
            self.answers_for(logs@, live@),
    {
        let mut live: Vec<u32> = Vec::new();
        let mut i: usize = 0;
        while i < logs.len()
            invariant
                i <= logs@.len(),
                self.answers_for(logs@, live@),
            decreases logs@.len() - i,
        {
            if logs[i].name == self.name {
                let alive = match logs[i].get_claimed_process() {
                    Some(pid) => is_alive(pid),
                    None => false,
                };
                match logs[i].live_claim(alive) {
                    Some(pid) => {
                        let ghost before = live@;
                        live.push(pid);
                        assert forall|k: int| 0 <= k < live@.len() implies exists|j: int|
                            self.may_hold_name(logs@, j) && logs@[j].claimed_process() == Some(
                                #[trigger] live@[k],
                            ) by {
                            if k < before.len() {
                                assert(live@[k] == before[k]);
                            } else {
                                assert(self.may_hold_name(logs@, i as int));
                            }
                        }
                    },
                    None => {},
                }
            }
            i += 1;
        }
        live
    }

    /// Succeeds when an attempt of the same name is already running. The
    /// system is asked about each process that a logged attempt of the
    /// name claims, and its answers are held against the logs as
    /// `running_homologous` does it: the name is occupied exactly when
    /// one of these processes is among the live ones. The logs alone
    /// never settle it: without an attempt of the name that claims a
    /// process the answer is no, and with one it is the system's.
    pub fn has_homologous_already_running(&self, logs: &Vec<Pipeline>) -> (res: Result<
        (),
        PipelineError,
    >)
        ensures
            res is Ok ==> exists|i: int| self.may_hold_name(logs@, i),
            res is Err ==> res == Err::<(), PipelineError>(PipelineError::NoHomologousRunning),
    {
        let live = self.live_homologous(logs);
        match self.running_homologous(logs, &live) {
            Some(i) => {
                proof {
                    // the process that holds the name is one of the
                    // answers, and every answer can be named
                    let pid = logs@[i as int].claimed_process()->0;
                    assert(live@.to_set().contains(pid));
                    let k = choose|k: int| 0 <= k < live@.len() && live@[k] == pid;
                    assert(exists|j: int|
                        self.may_hold_name(logs@, j) && logs@[j].claimed_process() == Some(
                            live@[k],
                        ));
                }
                Ok(())
            },
            None => Err(PipelineError::NoHomologousRunning),
        }
    }

    /// Starts an attempt unless the name is occupied: with a logged
    /// attempt of the same name in a live process the start is rejected
    /// and the pipeline left as it is; else the attempt is opened with
    /// the event. What the logs say of a process that is gone does not
    /// count.
    pub fn start(&mut self, logs: &Vec<Pipeline>, live: &Vec<u32>, event: Event) -> (res: Result<
        (),
        PipelineError,
    >)
        ensures
            res is Err <==> old(self).occupied(logs@, live@.to_set()),
            res matches Err(e) ==> e == PipelineError::AlreadyRunning && *final(self) == *old(
                self,
            ),
            res is Ok ==> *final(self) == opened(*old(self), event),
    {
        if self.running_homologous(logs, live).is_some() {
            Err(PipelineError::AlreadyRunning)
        } else {
            self.begin(event);
            Ok(())
        }
    }

    /// Whether a new attempt of this pipeline may start, given the live
    /// processes: it may unless its name is occupied.
    pub fn may_start(&self, logs: &Vec<Pipeline>, live: &Vec<u32>) -> (res: bool)
        ensures
            res == !self.occupied(logs@, live@.to_set()),
    {
        self.running_homologous(logs, live).is_none()
    }
}

/// The processes of the list that can stand behind a claim, given for
/// each what the comparison of its program with this tool's gave, up to
/// the place `upto`: those that are not known to run another program.
pub open spec fn backing_among(live: Seq<u32>, same: Seq<Option<bool>>, upto: int) -> Seq<u32>
    decreases upto,
{
    if upto <= 0 {
        Seq::empty()
    } else if Presence::Alive.identified_as(
        if upto - 1 < same.len() {
            same[upto - 1]
        } else {
            None
        },
    ).backs() {
        backing_among(live, same, upto - 1).push(live[upto - 1])
    } else {
        backing_among(live, same, upto - 1)
    }
}

/// The live processes that can stand behind a claim once the program of
/// each was compared with this tool's, where the system lets it be read:
/// a process that runs another program has taken over a used identifier
/// and is left out. A process for which no comparison is given stays.
pub fn backing_processes(live: &Vec<u32>, same: &Vec<Option<bool>>) -> (res: Vec<u32>)
    ensures
        res@ == backing_among(live@, same@, live@.len() as int),
{
    let mut out: Vec<u32> = Vec::new();
    let mut i: usize = 0;
    while i < live.len()
        invariant
            i <= live@.len(),
            out@ == backing_among(live@, same@, i as int),
        decreases live@.len() - i,
    {
        let known = if i < same.len() {
            same[i]
        } else {
            None
        };
        if Presence::Alive.identified(known).is_backing() {
            out.push(live[i]);
        }
        i += 1;
    }
    out
}

/// Whether a process is among the given ones.
pub fn contains_pid(pids: &Vec<u32>, pid: u32) -> (res: bool)
    ensures
        res == pids@.to_set().contains(pid),
{
    let mut i: usize = 0;
    while i < pids.len()
        invariant
            i <= pids@.len(),
            forall|j: int| 0 <= j < i ==> pids@[j] != pid,
        decreases pids@.len() - i,
    {
        if pids[i] == pid {
            assert(pids@.contains(pid));
            return true;
        }
        i += 1;
    }
    assert(!pids@.contains(pid));
    false
}

/// The processes, among those that the logs claim under any name, that
/// the operating system knows at the moment of asking.
pub fn live_processes(logs: &Vec<Pipeline>) -> (live: Vec<u32>)
    ensures
        forall|k: int|
            0 <= k < live@.len() ==> nameable(#[trigger] live@[k]) && exists|i: int|
                0 <= i < logs@.len() && (#[trigger] logs@[i]).claimed_process() == Some(live@[k]),
{
    let mut live: Vec<u32> = Vec::new();
    let mut i: usize = 0;
    while i < logs.len()
        invariant
            i <= logs@.len(),
            forall|k: int|
                0 <= k < live@.len() ==> nameable(#[trigger] live@[k]) && exists|i: int|
                    0 <= i < logs@.len() && (#[trigger] logs@[i]).claimed_process() == Some(
                        live@[k],
                    ),
        decreases logs@.len() - i,
    {
        let alive = match logs[i].get_claimed_process() {
            Some(pid) => is_alive(pid),
            None => false,
        };
        match logs[i].live_claim(alive) {
            Some(pid) => {
                live.push(pid);
            },
            None => {},
        }
        i += 1;
    }
    live
}

/// While a logged attempt of the name runs in a live process, the name is
/// occupied and no new attempt may start.
pub proof fn lemma_live_instance_occupies(
    pipeline: Pipeline,
    logs: Seq<Pipeline>,
    live: Set<u32>,
    i: int,
    pid: u32,
)
    requires
        0 <= i < logs.len(),
        logs[i].name@ == pipeline.name@,
        logs[i].claimed_process() == Some(pid),
        live.contains(pid),
    ensures
        pipeline.occupied(logs, live),
{
    assert(pipeline.holds_name(logs, live, i));
}

/// Once no process that the logs claim under the name is alive, the name
/// is free, whatever statuses the logs still show.
pub proof fn lemma_dead_instances_free(pipeline: Pipeline, logs: Seq<Pipeline>, live: Set<u32>)
    requires
        forall|i: int|
            0 <= i < logs.len() && (#[trigger] logs[i]).name@ == pipeline.name@ ==> match logs[i].claimed_process() {
                Some(pid) => !live.contains(pid),
                None => true,
            },
    ensures
        !pipeline.occupied(logs, live),
{
}

/// A snapshot that claims to run while no process backs the claim is
/// aborted, and is not running; with a process that backs it, it is
/// running, and not aborted.
pub proof fn lemma_abort_inferred(pipeline: Pipeline, presence: Presence)
    requires
        pipeline.claimed_process() is Some,
    ensures
        pipeline.aborted_when(presence) == !presence.backs(),
        pipeline.running_when(presence) == presence.backs(),
{
}

} // verus!
