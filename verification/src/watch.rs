//! The watch controller: the states of a watcher, what each event makes
//! of them, and the choice of the other watchers that have to go before
//! one may start.

use vstd::prelude::*;
use crate::config::Config;
use crate::glob::{
    chars_match, lemma_literal, lemma_prefix_star, literal, matches_text, text_chars,
};
use crate::journal::{lines, scan, Scan};
use crate::names::same_text;
use crate::pipeline::Pipeline;
use crate::trigger::{Flag, Special, Trigger};

verus! {

/// Where a watcher stands.
#[derive(Clone, Copy, Debug, PartialEq, Eq, Structural)]
pub enum WatchState {
    /// Not watching yet: other watchers of the same place may be alive.
    Idle,
    /// Watching the filesystem.
    Watching,
    /// The ignore file has changed and the path filter is being rebuilt.
    ReloadingFilter,
    /// Asked to stop; nothing more is started.
    ShuttingDown,
}

/// The signals that a watcher tells apart.
#[derive(Clone, Copy, Debug, PartialEq, Eq, Structural)]
pub enum Signal {
    Interrupt,
    Terminate,
    Hangup,
    Quit,
    Other,
}

/// What a changed path is to the watcher.
#[derive(Clone, Copy, Debug, PartialEq, Eq, Structural)]
pub enum Change {
    /// The ignore file itself.
    IgnoreFile,
    /// A file that the tool writes: its own output.
    Internal,
    /// A path that a pattern of the ignore file excludes.
    Ignored,
    /// Anything else.
    Relevant,
}

/// What happens to a watcher.
#[derive(Clone, Copy, Debug, PartialEq, Eq, Structural)]
pub enum WatchEvent {
    /// The other watchers of the same place were looked for; `alive` says
    /// whether one is still alive.
    Surveyed { alive: bool },
    /// A path has changed.
    Changed(Change),
    /// The path filter has been rebuilt.
    FilterReady,
    /// A signal has arrived.
    Signalled(Signal),
}

/// What the watcher's caller has to do next.
#[derive(Clone, Copy, Debug, PartialEq, Eq, Structural)]
pub enum WatchAction {
    /// Nothing.
    Wait,
    /// Signal the other watchers of the same place, then survey again.
    KillHomologous,
    /// Start to watch.
    Watch,
    /// Rebuild the path filter from the ignore file, or from the default
    /// where there is none.
    ReloadFilter,
    /// Fire the pipelines that the watch context triggers, each on its
    /// own.
    Fire,
    /// Stop watching. Pipelines already fired are not waited for.
    Quit,
}

impl Signal {
    /// The signal asks the watcher to stop.
    pub open spec fn stops(self) -> bool {
        self == Signal::Interrupt || self == Signal::Terminate
    }

    /// Whether the signal asks the watcher to stop.
    pub fn is_stopping(&self) -> (res: bool)
        ensures
            res == self.stops(),
    {
        match self {
            Signal::Interrupt | Signal::Terminate => true,
            _ => false,
        }
    }
}

/// Whether some signal of the list asks the watcher to stop.
pub fn should_quit(signals: &Vec<Signal>) -> (res: bool)
    ensures
        res == exists|i: int| 0 <= i < signals@.len() && (#[trigger] signals@[i]).stops(),
{
    let mut i: usize = 0;
    while i < signals.len()
        invariant
            i <= signals@.len(),
            forall|j: int| 0 <= j < i ==> !(#[trigger] signals@[j]).stops(),
        decreases signals@.len() - i,
    {
        if signals[i].is_stopping() {
            return true;
        }
        i += 1;
    }
    false
}

/// The state and the action that an event leads to.
pub open spec fn transition(state: WatchState, event: WatchEvent) -> (WatchState, WatchAction) {
    match state {
        WatchState::ShuttingDown => (WatchState::ShuttingDown, WatchAction::Wait),
        _ => match event {
            WatchEvent::Signalled(s) => if s.stops() {
                (WatchState::ShuttingDown, WatchAction::Quit)
            } else {
                (state, WatchAction::Wait)
            },
            WatchEvent::Surveyed { alive } => match state {
                WatchState::Idle => if alive {
                    (WatchState::Idle, WatchAction::KillHomologous)
                } else {
                    (WatchState::Watching, WatchAction::Watch)
                },
                _ => (state, WatchAction::Wait),
            },
            WatchEvent::Changed(change) => match state {
                WatchState::Watching => match change {
                    Change::IgnoreFile => (WatchState::ReloadingFilter, WatchAction::ReloadFilter),
                    Change::Internal => (WatchState::Watching, WatchAction::Wait),
                    Change::Ignored => (WatchState::Watching, WatchAction::Wait),
                    Change::Relevant => (WatchState::Watching, WatchAction::Fire),
                },
                _ => (state, WatchAction::Wait),
            },
            WatchEvent::FilterReady => match state {
                WatchState::ReloadingFilter => (WatchState::Watching, WatchAction::Wait),
                _ => (state, WatchAction::Wait),
            },
        },
    }
}

/// One state follows another in the watcher's course.
pub open spec fn follows(from: WatchState, to: WatchState) -> bool {
    from == to || to == WatchState::ShuttingDown || match from {
        WatchState::Idle => to == WatchState::Watching,
        WatchState::Watching => to == WatchState::ReloadingFilter,
        WatchState::ReloadingFilter => to == WatchState::Watching,
        WatchState::ShuttingDown => false,
    }
}

impl WatchState {
    /// The state in which a watcher begins.
    pub fn new() -> (res: WatchState)
        ensures
            res == WatchState::Idle,
    {
        WatchState::Idle
    }

    /// Takes an event: moves to the next state and says what to do.
    pub fn step(&mut self, event: WatchEvent) -> (action: WatchAction)
        ensures
            (*final(self), action) == transition(*old(self), event),
    {
        let (next, action) = match *self {
            WatchState::ShuttingDown => (WatchState::ShuttingDown, WatchAction::Wait),
            state => match event {
                WatchEvent::Signalled(s) => if s.is_stopping() {
                    (WatchState::ShuttingDown, WatchAction::Quit)
                } else {
                    (state, WatchAction::Wait)
                },
                WatchEvent::Surveyed { alive } => match state {
                    WatchState::Idle => if alive {
                        (WatchState::Idle, WatchAction::KillHomologous)
                    } else {
                        (WatchState::Watching, WatchAction::Watch)
                    },
                    _ => (state, WatchAction::Wait),
                },
                WatchEvent::Changed(change) => match state {
                    WatchState::Watching => match change {
                        Change::IgnoreFile => (
                            WatchState::ReloadingFilter,
                            WatchAction::ReloadFilter,
                        ),
                        Change::Internal => (WatchState::Watching, WatchAction::Wait),
                        Change::Ignored => (WatchState::Watching, WatchAction::Wait),
                        Change::Relevant => (WatchState::Watching, WatchAction::Fire),
                    },
                    _ => (state, WatchAction::Wait),
                },
                WatchEvent::FilterReady => match state {
                    WatchState::ReloadingFilter => (WatchState::Watching, WatchAction::Wait),
                    _ => (state, WatchAction::Wait),
                },
            },
        };
        *self = next;
        action
    }
}

/// Every transition follows the watcher's course; pipelines are fired
/// only while watching, and only for a change that is neither the tool's
/// own output, nor excluded by the ignore file, nor the ignore file; watching starts only from idle and
/// only once no other watcher is alive; a watcher that is shutting down
/// stays so and does nothing more.
pub proof fn lemma_watch_course(state: WatchState, event: WatchEvent)
    ensures
        follows(state, transition(state, event).0),
        transition(state, event).1 == WatchAction::Fire ==> state == WatchState::Watching && event
            == WatchEvent::Changed(Change::Relevant),
        transition(state, event).1 == WatchAction::Watch ==> state == WatchState::Idle && event
            == (WatchEvent::Surveyed { alive: false }),
        state == WatchState::ShuttingDown ==> transition(state, event) == (
            WatchState::ShuttingDown,
            WatchAction::Wait,
        ),
        state != WatchState::ShuttingDown && (event matches WatchEvent::Signalled(s) && s.stops())
            ==> transition(state, event) == (WatchState::ShuttingDown, WatchAction::Quit),
{
}

/// The directory into which the tool writes.
pub open spec fn internal_dir() -> Seq<char> {
    ".pipelight"@
}

/// `text` begins with `prefix`.
pub open spec fn begins_with(text: Seq<char>, prefix: Seq<char>) -> bool {
    prefix.len() <= text.len() && text.subrange(0, prefix.len() as int) == prefix
}

/// `path` lies in the directory `dir`: it is `dir` itself, or `dir`, a
/// slash, and more.
pub open spec fn lies_in(path: Seq<char>, dir: Seq<char>) -> bool {
    path == dir || begins_with(path, dir.push('/'))
}

/// A path as written relative to the watched directory: without a
/// leading `./`.
pub open spec fn relative(path: Seq<char>) -> Seq<char> {
    if begins_with(path, seq!['.', '/']) {
        path.subrange(2, path.len() as int)
    } else {
        path
    }
}

/// The patterns among the first `upto` lines of an ignore file: the
/// lines that are not comments.
pub open spec fn patterns_among(lines: Seq<Seq<char>>, upto: int) -> Seq<Seq<char>>
    decreases upto,
{
    if upto <= 0 {
        Seq::empty()
    } else if lines[upto - 1].len() > 0 && lines[upto - 1][0] == '#' {
        patterns_among(lines, upto - 1)
    } else {
        patterns_among(lines, upto - 1).push(lines[upto - 1])
    }
}

/// The patterns that an ignore file holds: its lines, without the empty
/// ones and without those that begin with `#`.
pub open spec fn ignore_patterns(contents: Seq<char>) -> Seq<Seq<char>> {
    let all = lines(contents, '\n');
    patterns_among(all, all.len() as int)
}

/// Some pattern of the list matches the path in its relative form.
pub open spec fn excluded(patterns: Seq<Seq<char>>, path: Seq<char>) -> bool {
    exists|i: int| 0 <= i < patterns.len() && matches_text(#[trigger] patterns[i], relative(path))
}

/// What a changed path is to the watcher: the ignore file, the tool's
/// own output, a path that the ignore file excludes, or a relevant
/// change.
pub open spec fn change_of(
    path: Seq<char>,
    ignore_file: Seq<char>,
    patterns: Seq<Seq<char>>,
) -> Change {
    if relative(path) == relative(ignore_file) {
        Change::IgnoreFile
    } else if lies_in(relative(path), internal_dir()) {
        Change::Internal
    } else if excluded(patterns, path) {
        Change::Ignored
    } else {
        Change::Relevant
    }
}

/// Whether the characters from `from` on are those of `rest`, given from
/// `skip` on.
fn tail_equals(text: &Vec<char>, from: usize, rest: &Vec<char>, skip: usize) -> (res: bool)
    requires
        from <= text@.len(),
        skip <= rest@.len(),
    ensures
        res == (text@.subrange(from as int, text@.len() as int) == rest@.subrange(
            skip as int,
            rest@.len() as int,
        )),
{
    let a = text.len() - from;
    let b = rest.len() - skip;
    let ghost x = text@.subrange(from as int, text@.len() as int);
    let ghost y = rest@.subrange(skip as int, rest@.len() as int);
    if a != b {
        assert(x.len() != y.len());
        return false;
    }
    let mut i: usize = 0;
    while i < a
        invariant
            i <= a,
            a == text.len() - from,
            a == rest.len() - skip,
            from <= text.len(),
            skip <= rest.len(),
            x == text@.subrange(from as int, text@.len() as int),
            y == rest@.subrange(skip as int, rest@.len() as int),
            forall|j: int| 0 <= j < i ==> x[j] == y[j],
        decreases a - i,
    {
        if text[from + i] != rest[skip + i] {
            assert(x[i as int] != y[i as int]);
            return false;
        }
        i += 1;
    }
    assert(x =~= y);
    true
}

/// Whether the characters from `from` on begin with `prefix`.
fn begins_at(text: &Vec<char>, from: usize, prefix: &Vec<char>) -> (res: bool)
    requires
        from <= text@.len(),
    ensures
        res == begins_with(text@.subrange(from as int, text@.len() as int), prefix@),
{
    let ghost x = text@.subrange(from as int, text@.len() as int);
    if text.len() - from < prefix.len() {
        return false;
    }
    let mut i: usize = 0;
    while i < prefix.len()
        invariant
            i <= prefix.len(),
            from + prefix.len() <= text.len(),
            x == text@.subrange(from as int, text@.len() as int),
            forall|j: int| 0 <= j < i ==> x[j] == prefix@[j],
        decreases prefix@.len() - i,
    {
        if text[from + i] != prefix[i] {
            assert(x.subrange(0, prefix@.len() as int)[i as int] != prefix@[i as int]);
            return false;
        }
        i += 1;
    }
    assert(x.subrange(0, prefix@.len() as int) =~= prefix@);
    true
}

/// Where the relative form of a path begins: after a leading `./`.
fn relative_start(path: &Vec<char>) -> (res: usize)
    ensures
        res <= path@.len(),
        path@.subrange(res as int, path@.len() as int) == relative(path@),
{
    if path.len() >= 2 && path[0] == '.' && path[1] == '/' {
        assert(path@.subrange(0, 2) =~= seq!['.', '/']);
        2
    } else {
        assert(path@.len() >= 2 ==> path@.subrange(0, 2)[0] == path@[0] && path@.subrange(0, 2)[1]
            == path@[1]);
        assert(path@.subrange(0, path@.len() as int) =~= path@);
        0
    }
}

/// The patterns of the built-in default: the directory into which the
/// tool writes, and everything below it.
pub open spec fn default_patterns() -> Seq<Seq<char>> {
    seq![internal_dir(), internal_dir().push('/').push('*')]
}

/// The built-in default excludes exactly the paths that lie in the
/// directory into which the tool writes.
pub proof fn lemma_default_filter(path: Seq<char>)
    ensures
        excluded(default_patterns(), path) <==> lies_in(relative(path), internal_dir()),
{
    let dir = internal_dir();
    let text = relative(path);
    let patterns = default_patterns();
    reveal_strlit(".pipelight");
    assert(literal(dir, 0)) by {
        assert(dir.len() == 10);
        assert(dir[0] == '.' && dir[1] == 'p' && dir[2] == 'i' && dir[3] == 'p' && dir[4] == 'e');
        assert(dir[5] == 'l' && dir[6] == 'i' && dir[7] == 'g' && dir[8] == 'h' && dir[9] == 't');
    }
    assert(literal(dir.push('/'), 0)) by {
        assert forall|k: int| 0 <= k < dir.push('/').len() implies dir.push('/')[k] != '*'
            && dir.push('/')[k] != '?' by {
            if k < dir.len() {
                assert(dir.push('/')[k] == dir[k]);
            }
        }
    }
    lemma_literal(dir, text);
    lemma_prefix_star(dir.push('/'), text);
    assert(patterns[0] == dir);
    assert(patterns[1] == dir.push('/').push('*'));
    if lies_in(text, dir) {
        if text == dir {
            assert(matches_text(patterns[0], text));
        } else {
            assert(matches_text(patterns[1], text));
        }
    }
}

/// The path filter of a watcher: the patterns of the ignore file or,
/// where there is none, of the built-in default. The tool's own output
/// is left out whatever the filter holds.
#[derive(Debug)]
pub struct PathFilter {
    pub patterns: Vec<Vec<char>>,
}

/// The patterns of the first `upto` lines do not depend on the lines
/// that follow.
proof fn lemma_patterns_prefix(a: Seq<Seq<char>>, b: Seq<Seq<char>>, upto: int)
    requires
        0 <= upto <= a.len(),
        upto <= b.len(),
        forall|i: int| 0 <= i < upto ==> a[i] == b[i],
    ensures
        patterns_among(a, upto) == patterns_among(b, upto),
    decreases upto,
{
    if upto > 0 {
        lemma_patterns_prefix(a, b, upto - 1);
    }
}

impl PathFilter {
    /// The patterns as texts.
    pub open spec fn view(self) -> Seq<Seq<char>> {
        Seq::new(self.patterns@.len(), |i: int| self.patterns@[i]@)
    }

    /// The filter excludes the path.
    pub open spec fn excludes_path(self, path: Seq<char>) -> bool {
        excluded(self@, path)
    }

    /// The filter used where there is no ignore file: the built-in
    /// default, which leaves out the directory into which the tool
    /// writes, with all that lies in it, and nothing else.
    pub fn new() -> (res: PathFilter)
        ensures
            res@ == default_patterns(),
            forall|path: Seq<char>|
                #[trigger] res.excludes_path(path) <==> lies_in(relative(path), internal_dir()),
    {
        let dir = text_chars(".pipelight");
        let mut below = text_chars(".pipelight");
        below.push('/');
        below.push('*');
        let mut patterns: Vec<Vec<char>> = Vec::new();
        patterns.push(dir);
        patterns.push(below);
        let res = PathFilter { patterns };
        assert(res@ =~= default_patterns());
        assert forall|path: Seq<char>| #[trigger]
            res.excludes_path(path) <==> lies_in(relative(path), internal_dir()) by {
            lemma_default_filter(path);
        }
        res
    }

    /// The filter that an ignore file describes: one pattern for each
    /// line that is neither empty nor a comment.
    pub fn from_ignore_file(contents: &str) -> (res: PathFilter)
        ensures
            res@ == ignore_patterns(contents@),
    {
        let text = text_chars(contents);
        let mut patterns: Vec<Vec<char>> = Vec::new();
        let mut open: Vec<char> = Vec::new();
        let ghost mut done: Seq<Seq<char>> = Seq::empty();
        let mut i: usize = 0;
        while i < text.len()
            invariant
                i <= text@.len(),
                text@ == contents@,
                scan(text@, '\n', i as int) == (Scan { done, open: open@ }),
                patterns@.len() == patterns_among(done, done.len() as int).len(),
                forall|k: int|
                    0 <= k < patterns@.len() ==> (#[trigger] patterns@[k])@ == patterns_among(
                        done,
                        done.len() as int,
                    )[k],
            decreases text@.len() - i,
        {
            let c = text[i];
            if c == '\n' {
                if open.len() > 0 {
                    proof {
                        let longer = done.push(open@);
                        lemma_patterns_prefix(done, longer, done.len() as int);
                        done = longer;
                    }
                    if open[0] != '#' {
                        patterns.push(open);
                    }
                    open = Vec::new();
                }
            } else {
                open.push(c);
            }
            i += 1;
        }
        if open.len() > 0 {
            proof {
                let longer = done.push(open@);
                lemma_patterns_prefix(done, longer, done.len() as int);
                done = longer;
            }
            if open[0] != '#' {
                patterns.push(open);
            }
        }
        let res = PathFilter { patterns };
        assert(res@ =~= ignore_patterns(contents@));
        res
    }

    /// The filter after the ignore file has changed: what the file
    /// describes or, where there is no file, the default.
    pub fn rebuild(contents: Option<&str>) -> (res: PathFilter)
        ensures
            res@ == match contents {
                Some(c) => ignore_patterns(c@),
                None => default_patterns(),
            },
    {
        match contents {
            Some(c) => PathFilter::from_ignore_file(c),
            None => PathFilter::new(),
        }
    }

    /// Whether the filter excludes the path.
    pub fn excludes(&self, path: &str) -> (res: bool)
        ensures
            res == self.excludes_path(path@),
    {
        let p = text_chars(path);
        let start = relative_start(&p);
        let tail = tail_of(&p, start);
        self.excludes_chars(&tail, Ghost(path@))
    }

    fn excludes_chars(&self, tail: &Vec<char>, Ghost(path): Ghost<Seq<char>>) -> (res: bool)
        requires
            tail@ == relative(path),
        ensures
            res == self.excludes_path(path),
    {
        let mut i: usize = 0;
        while i < self.patterns.len()
            invariant
                i <= self.patterns@.len(),
                tail@ == relative(path),
                forall|k: int| 0 <= k < i ==> !matches_text(#[trigger] self@[k], relative(path)),
            decreases self.patterns@.len() - i,
        {
            if chars_match(&self.patterns[i], tail) {
                assert(matches_text(self@[i as int], relative(path)));
                return true;
            }
            i += 1;
        }
        false
    }
}

/// The characters from `from` on.
fn tail_of(text: &Vec<char>, from: usize) -> (res: Vec<char>)
    requires
        from <= text@.len(),
    ensures
        res@ == text@.subrange(from as int, text@.len() as int),
{
    let mut out: Vec<char> = Vec::new();
    let mut i: usize = from;
    while i < text.len()
        invariant
            from <= i <= text@.len(),
            out@ == text@.subrange(from as int, i as int),
        decreases text@.len() - i,
    {
        out.push(text[i]);
        assert(text@.subrange(from as int, i + 1) =~= text@.subrange(from as int, i as int).push(
            text@[i as int],
        ));
        i += 1;
    }
    out
}

/// Tells what a changed path is to the watcher.
pub fn classify(path: &str, ignore_file: &str, filter: &PathFilter) -> (res: Change)
    ensures
        res == change_of(path@, ignore_file@, filter@),
{
    let p = text_chars(path);
    let g = text_chars(ignore_file);
    let ps = relative_start(&p);
    let gs = relative_start(&g);
    if tail_equals(&p, ps, &g, gs) {
        return Change::IgnoreFile;
    }
    let mut dir = text_chars(".pipelight");
    let whole = tail_equals(&p, ps, &dir, 0);
    assert(dir@.subrange(0, dir@.len() as int) =~= dir@);
    dir.push('/');
    if whole || begins_at(&p, ps, &dir) {
        return Change::Internal;
    }
    let tail = tail_of(&p, ps);
    if filter.excludes_chars(&tail, Ghost(path@)) {
        Change::Ignored
    } else {
        Change::Relevant
    }
}

/// A running process as far as a watcher is told apart by it: what it
/// runs and where.
#[derive(Debug)]
pub struct Process {
    pub pid: u32,
    /// The program and its arguments.
    pub command: String,
    /// The working directory.
    pub cwd: String,
}

impl Process {
    /// The other process is another watcher of the same place: it runs
    /// the same command in the same directory and is not this process.
    pub open spec fn homologous(self, other: Process) -> bool {
        &&& other.pid != self.pid
        &&& other.command@ == self.command@
        &&& other.cwd@ == self.cwd@
    }

    /// Whether the other process is another watcher of the same place.
    pub fn is_homologous(&self, other: &Process) -> (res: bool)
        ensures
            res == self.homologous(*other),
    {
        other.pid != self.pid && same_text(other.command.as_str(), self.command.as_str())
            && same_text(other.cwd.as_str(), self.cwd.as_str())
    }
}

/// The processes among the first `upto` found that are homologous to
/// `own`, by their identifiers, in the order found.
pub open spec fn homologous_among(own: Process, found: Seq<Process>, upto: int) -> Seq<u32>
    decreases upto,
{
    if upto <= 0 {
        Seq::empty()
    } else if own.homologous(found[upto - 1]) {
        homologous_among(own, found, upto - 1).push(found[upto - 1].pid)
    } else {
        homologous_among(own, found, upto - 1)
    }
}

/// The watchers that have to go before `own` may watch: those of the
/// processes found that run the same command in the same directory.
pub fn homologous_watchers(own: &Process, found: &Vec<Process>) -> (res: Vec<u32>)
    ensures
        res@ == homologous_among(*own, found@, found@.len() as int),
{
    let mut out: Vec<u32> = Vec::new();
    let mut i: usize = 0;
    while i < found.len()
        invariant
            i <= found@.len(),
            out@ == homologous_among(*own, found@, i as int),
        decreases found@.len() - i,
    {
        if own.is_homologous(&found[i]) {
            out.push(found[i].pid);
        }
        i += 1;
    }
    out
}

/// A watcher is never told to remove itself, and every process it is
/// told to remove runs its command in its directory.
pub proof fn lemma_homologous_among(own: Process, found: Seq<Process>, upto: int)
    requires
        0 <= upto <= found.len(),
    ensures
        forall|i: int|
            0 <= i < homologous_among(own, found, upto).len() ==> #[trigger] homologous_among(
                own,
                found,
                upto,
            )[i] != own.pid,
        forall|k: int|
            0 <= k < upto && own.homologous(#[trigger] found[k]) ==> homologous_among(
                own,
                found,
                upto,
            ).contains(found[k].pid),
        homologous_among(own, found, upto).len() == 0 <==> forall|k: int|
            0 <= k < upto ==> !own.homologous(#[trigger] found[k]),
    decreases upto,
{
    if upto > 0 {
        lemma_homologous_among(own, found, upto - 1);
        let prev = homologous_among(own, found, upto - 1);
        let cur = homologous_among(own, found, upto);
        assert forall|k: int| 0 <= k < upto && own.homologous(#[trigger] found[k]) implies cur.contains(
            found[k].pid,
        ) by {
            if k == upto - 1 {
                assert(cur[cur.len() - 1] == found[k].pid);
            } else {
                assert(prev.contains(found[k].pid));
                let i = choose|i: int| 0 <= i < prev.len() && prev[i] == found[k].pid;
                assert(cur[i] == found[k].pid);
            }
        }
    }
}

/// Asks the operating system for the process group of a process, with
/// `rustix::process::getpgid` on the identifier that
/// `rustix::process::Pid::from_raw` makes of `pid`; none where the
/// system gives an error. Nothing is claimed of the answer.
#[verifier::external_body]
fn group_of(pid: i32) -> (group: Option<i32>)
    requires
        pid > 0,
{
    match rustix::process::getpgid(rustix::process::Pid::from_raw(pid)) {
        Ok(group) => Some(group.as_raw_pid()),
        Err(_) => None,
    }
}

/// Sends the termination signal to every process of a group, with
/// `rustix::process::kill_process_group`, and says whether the system
/// took the request. The group of the first process of the system is
/// left out: a signal to it would go to every process.
#[verifier::external_body]
fn terminate_group(group: i32) -> (sent: bool)
    requires
        group > 1,
{
    match rustix::process::Pid::from_raw(group) {
        Some(g) => rustix::process::kill_process_group(g, rustix::process::Signal::TERM).is_ok(),
        None => false,
    }
}

/// A process group may get the termination signal: it is not the group
/// of the first process of the system, nor the watcher's own.
pub open spec fn signalled(own_group: Option<i32>, group: i32) -> bool {
    group > 1 && own_group != Some(group)
}

/// Whether a process group may get the termination signal, given the
/// watcher's own group as far as the system told it.
pub fn may_signal(own_group: Option<i32>, group: i32) -> (res: bool)
    ensures
        res == signalled(own_group, group),
{
    let ours = match own_group {
        Some(g) => g == group,
        None => false,
    };
    group > 1 && !ours
}

/// Asks the other watchers of the same place to go: the process group of
/// each gets the termination signal, but for a group that is this
/// watcher's own. The result is the number of requests that the system
/// took; which processes are gone by then is for the next survey to find
/// out.
pub fn kill_homologous(own: &Process, found: &Vec<Process>) -> (sent: usize)
    ensures
        sent <= homologous_among(*own, found@, found@.len() as int).len(),
{
    let targets = homologous_watchers(own, found);
    let own_group = if 0 < own.pid && own.pid <= 2147483647 {
        group_of(own.pid as i32)
    } else {
        None
    };
    let mut sent: usize = 0;
    let mut i: usize = 0;
    while i < targets.len()
        invariant
            i <= targets@.len(),
            sent <= i,
        decreases targets@.len() - i,
    {
        let pid = targets[i];
        if 0 < pid && pid <= 2147483647 {
            match group_of(pid as i32) {
                Some(group) => {
                    if may_signal(own_group, group) && terminate_group(group) {
                        sent += 1;
                    }
                },
                None => {},
            }
        }
        i += 1;
    }
    sent
}

impl Trigger {
    /// The context of an invocation by the watcher: the given branch and
    /// tag under the reserved action.
    pub fn watch_context(branch: Option<String>, tag: Option<String>) -> (res: Trigger)
        ensures
            res.action == Some(Flag::Special(Special::Watch)),
            res.branch == branch,
            res.tag == tag,
    {
        Trigger { action: Some(Flag::Special(Special::Watch)), branch, tag }
    }
}

/// The indices, among the first `upto` pipelines, of those that may run
/// in the context, in ascending order.
pub open spec fn triggered_among(list: Seq<Pipeline>, context: Trigger, upto: int) -> Seq<usize>
    decreases upto,
{
    if upto <= 0 {
        Seq::empty()
    } else if list[upto - 1].triggerable(context) {
        triggered_among(list, context, upto - 1).push((upto - 1) as usize)
    } else {
        triggered_among(list, context, upto - 1)
    }
}

impl Config {
    /// Whether a watcher is of use: some declared pipeline has a trigger
    /// that names the watcher.
    pub fn has_watchable(&self) -> (res: bool)
        ensures
            res == exists|i: int|
                0 <= i < self.declared().len() && (#[trigger] self.declared()[i]).watchable(),
    {
        match &self.pipelines {
            None => false,
            Some(list) => {
                let mut i: usize = 0;
                while i < list.len()
                    invariant
                        i <= list@.len(),
                        self.pipelines == Some(*list),
                        forall|j: int| 0 <= j < i ==> !(#[trigger] list@[j]).watchable(),
                    decreases list@.len() - i,
                {
                    if list[i].is_watchable().is_ok() {
                        assert(self.declared()[i as int].watchable());
                        return true;
                    }
                    i += 1;
                }
                false
            },
        }
    }

    /// The pipelines to fire in a context, by their indices: those that
    /// may run in it. None where the context could not be resolved or the
    /// configuration declares no pipeline.
    pub fn triggered(&self, context: Option<&Trigger>) -> (res: Vec<usize>)
        ensures
            res@ == match (self.pipelines, context) {
                (Some(list), Some(c)) => triggered_among(list@, *c, list@.len() as int),
                _ => Seq::empty(),
            },
    {
        let mut out: Vec<usize> = Vec::new();
        match &self.pipelines {
            None => {},
            Some(list) => {
                match context {
                    None => {},
                    Some(c) => {
                        let mut i: usize = 0;
                        while i < list.len()
                            invariant
                                i <= list@.len(),
                                out@ == triggered_among(list@, *c, i as int),
                            decreases list@.len() - i,
                        {
                            if list[i].is_triggerable(Some(c)) {
                                out.push(i);
                            }
                            i += 1;
                        }
                    },
                }
            },
        }
        out
    }
}

} // verus!
