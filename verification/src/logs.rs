//! The log store as it stands in memory: the snapshots read back from the
//! log files, in ascending order of their events' dates.

use vstd::prelude::*;
use crate::error::PipelineError;
use crate::names::same_text;
use crate::pipeline::Pipeline;

verus! {

/// The instant that a date stands for, as seconds since the epoch and
/// nanoseconds into the second; none where the text is no date.
pub uninterp spec fn parsed_instant(date: Seq<char>) -> Option<(i64, u32)>;

/// Reads a date in the relaxed RFC 3339 form with `chrono`'s `FromStr`
/// for `DateTime<FixedOffset>` and gives the instant by
/// `DateTime::timestamp` and `DateTime::timestamp_subsec_nanos`. The
/// result depends on the text alone, and is named, not described.
#[verifier::external_body]
fn read_instant(date: &str) -> (res: Option<(i64, u32)>)
    ensures
        res == parsed_instant(date@),
{
    match date.parse::<chrono::DateTime<chrono::FixedOffset>>() {
        Ok(t) => Some((t.timestamp(), t.timestamp_subsec_nanos())),
        Err(_) => None,
    }
}

/// The snapshots of past attempts.
#[derive(Debug)]
pub struct Logs {
    pub pipelines: Vec<Pipeline>,
}

/// The instant of a snapshot's event; none where it has no event or the
/// date cannot be read.
pub open spec fn instant_of(pipeline: Pipeline) -> Option<(i64, u32)> {
    match pipeline.event {
        None => None,
        Some(e) => parsed_instant(e.date@),
    }
}

/// One instant lies before another.
pub open spec fn earlier(a: (i64, u32), b: (i64, u32)) -> bool {
    a.0 < b.0 || (a.0 == b.0 && a.1 < b.1)
}

/// Every snapshot at or after `from` has a readable date.
pub open spec fn all_dated(list: Seq<Pipeline>, from: int) -> bool {
    forall|i: int| from <= i < list.len() ==> instant_of(#[trigger] list[i]) is Some
}

/// The instants of the snapshots of a list, each at its snapshot's
/// place.
pub open spec fn instants_of(list: Seq<Pipeline>) -> Seq<(i64, u32)> {
    Seq::new(list.len(), |i: int| instant_of(list[i])->0)
}

/// The item at `a` belongs before the item at `b`: its instant is
/// earlier, or the same while it stands before `b`.
pub open spec fn precedes(instants: Seq<(i64, u32)>, a: int, b: int) -> bool {
    earlier(instants[a], instants[b]) || (instants[a] == instants[b] && a < b)
}

/// `output` holds the snapshots of `input` from `from` on, each once, as
/// `perm` says (`output[i]` is `input[perm[i]]`), in ascending order of
/// their instants, those of one instant in the order they had in
/// `input`.
pub open spec fn arranged(
    input: Seq<Pipeline>,
    instants: Seq<(i64, u32)>,
    from: int,
    output: Seq<Pipeline>,
    perm: Seq<int>,
) -> bool {
    &&& instants.len() == input.len()
    &&& perm.len() == output.len()
    &&& output.len() == input.len() - from
    &&& forall|i: int|
        0 <= i < perm.len() ==> from <= #[trigger] perm[i] < input.len() && output[i]
            == input[perm[i]]
    &&& forall|i: int, j: int|
        0 <= i < j < perm.len() ==> precedes(instants, #[trigger] perm[i], #[trigger] perm[j])
    &&& forall|k: int| from <= k < input.len() ==> #[trigger] perm.contains(k)
}

/// `output` is `input` sorted by the given instants, ascending and
/// stable.
pub open spec fn sorted_by(
    input: Seq<Pipeline>,
    instants: Seq<(i64, u32)>,
    output: Seq<Pipeline>,
) -> bool {
    exists|perm: Seq<int>| arranged(input, instants, 0, output, perm)
}

/// `output` is `input` sorted by date, ascending and stable.
pub open spec fn sorted_by_date(input: Seq<Pipeline>, output: Seq<Pipeline>) -> bool {
    sorted_by(input, instants_of(input), output)
}

/// The list is in ascending order of date.
pub open spec fn chronological(list: Seq<Pipeline>) -> bool {
    &&& all_dated(list, 0)
    &&& forall|i: int, j: int|
        0 <= i < j < list.len() ==> !earlier(
            instant_of(#[trigger] list[j])->0,
            instant_of(#[trigger] list[i])->0,
        )
}

/// The snapshots among the first `upto` of the list that bear the name,
/// in the order of the list.
pub open spec fn named(list: Seq<Pipeline>, name: Seq<char>, upto: int) -> Seq<Pipeline>
    decreases upto,
{
    if upto <= 0 {
        Seq::empty()
    } else if list[upto - 1].name@ == name {
        named(list, name, upto - 1).push(list[upto - 1])
    } else {
        named(list, name, upto - 1)
    }
}

/// Whether one instant lies before another.
fn is_earlier(a: (i64, u32), b: (i64, u32)) -> (res: bool)
    ensures
        res == earlier(a, b),
{
    a.0 < b.0 || (a.0 == b.0 && a.1 < b.1)
}

/// The instant of a snapshot's event.
pub fn instant(pipeline: &Pipeline) -> (res: Option<(i64, u32)>)
    ensures
        res == instant_of(*pipeline),
{
    match &pipeline.event {
        None => None,
        Some(e) => read_instant(e.date.as_str()),
    }
}

/// Sorts snapshots by the instants given for them, ascending; snapshots
/// of one instant keep their order. None where the two lists differ in
/// length.
pub fn sort_by_instants(pipelines: Vec<Pipeline>, instants: Vec<(i64, u32)>) -> (res: Option<
    Vec<Pipeline>,
>)
    ensures
        res is Some <==> pipelines@.len() == instants@.len(),
        res matches Some(sorted) ==> sorted_by(pipelines@, instants@, sorted@),
{
    if pipelines.len() != instants.len() {
        return None;
    }
    let mut rest = pipelines;
    let mut keys = instants;
    let mut sorted: Vec<Pipeline> = Vec::new();
    let mut placed: Vec<(i64, u32)> = Vec::new();
    let ghost mut perm: Seq<int> = Seq::empty();
    while rest.len() > 0
        invariant
            rest@.len() <= pipelines@.len(),
            rest@.len() == keys@.len(),
            pipelines@.len() == instants@.len(),
            rest@ == pipelines@.subrange(0, rest@.len() as int),
            keys@ == instants@.subrange(0, rest@.len() as int),
            arranged(pipelines@, instants@, rest@.len() as int, sorted@, perm),
            placed@.len() == sorted@.len(),
            forall|i: int| 0 <= i < placed@.len() ==> #[trigger] placed@[i] == instants@[perm[i]],
        decreases rest@.len(),
    {
        let ghost n = rest@.len() as int;
        let ghost before = sorted@;
        let ghost before_perm = perm;
        let ghost before_placed = placed@;
        let x = rest.pop().unwrap();
        let t = keys.pop().unwrap();
        assert(x == pipelines@[n - 1]);
        assert(t == instants@[n - 1]);
        let mut j: usize = 0;
        while j < placed.len() && is_earlier(placed[j], t)
            invariant
                j <= placed@.len(),
                forall|i: int| 0 <= i < j ==> earlier(#[trigger] placed@[i], t),
            decreases placed@.len() - j,
        {
            j += 1;
        }
        sorted.insert(j, x);
        placed.insert(j, t);
        proof {
            perm = before_perm.insert(j as int, n - 1);
            assert forall|i: int| 0 <= i < placed@.len() implies #[trigger] placed@[i]
                == instants@[perm[i]] by {
                if i < j {
                    assert(before_placed[i] == instants@[before_perm[i]]);
                } else if i > j {
                    assert(before_placed[i - 1] == instants@[before_perm[i - 1]]);
                }
            }
            assert forall|i: int| 0 <= i < j implies earlier(
                instants@[#[trigger] before_perm[i]],
                instants@[n - 1],
            ) by {
                assert(before_placed[i] == instants@[before_perm[i]]);
            }
            if j < before.len() {
                assert(before_placed[j as int] == instants@[before_perm[j as int]]);
            }
            lemma_arranged_insert(
                pipelines@,
                instants@,
                n,
                before,
                before_perm,
                sorted@,
                perm,
                j as int,
            );
        }
    }
    Some(sorted)
}

/// Sorts snapshots by the date of their events, ascending; snapshots of
/// one instant keep their order. Fails when a snapshot has no event or a
/// date that cannot be read.
pub fn sort_by_date_asc(pipelines: Vec<Pipeline>) -> (res: Result<Vec<Pipeline>, PipelineError>)
    ensures
        res is Ok <==> all_dated(pipelines@, 0),
        res matches Ok(sorted) ==> sorted_by_date(pipelines@, sorted@) && chronological(sorted@),
        res matches Err(e) ==> e == PipelineError::UnreadableDate,
{
    let mut instants: Vec<(i64, u32)> = Vec::new();
    let mut i: usize = 0;
    while i < pipelines.len()
        invariant
            i <= pipelines@.len(),
            instants@.len() == i,
            forall|k: int|
                0 <= k < i ==> instant_of(pipelines@[k]) == Some(#[trigger] instants@[k]),
        decreases pipelines@.len() - i,
    {
        match instant(&pipelines[i]) {
            None => {
                return Err(PipelineError::UnreadableDate);
            },
            Some(t) => {
                instants.push(t);
            },
        }
        i += 1;
    }
    assert(instants@ =~= instants_of(pipelines@));
    assert forall|k: int| 0 <= k < pipelines@.len() implies instant_of(#[trigger] pipelines@[k])
        is Some by {
        assert(instant_of(pipelines@[k]) == Some(instants@[k]));
    }
    let ghost input = pipelines@;
    match sort_by_instants(pipelines, instants) {
        Some(sorted) => {
            proof {
                let perm = choose|perm: Seq<int>|
                    arranged(input, instants_of(input), 0, sorted@, perm);
                lemma_arranged_chronological(input, sorted@, perm);
            }
            Ok(sorted)
        },
        None => Err(PipelineError::UnreadableDate),
    }
}

/// Putting `input[n - 1]` before the first snapshot that is not earlier
/// keeps the arrangement.
proof fn lemma_arranged_insert(
    input: Seq<Pipeline>,
    instants: Seq<(i64, u32)>,
    n: int,
    output: Seq<Pipeline>,
    perm: Seq<int>,
    next: Seq<Pipeline>,
    next_perm: Seq<int>,
    j: int,
)
    requires
        0 < n <= input.len(),
        arranged(input, instants, n, output, perm),
        0 <= j <= output.len(),
        forall|i: int| 0 <= i < j ==> earlier(instants[#[trigger] perm[i]], instants[n - 1]),
        j < output.len() ==> !earlier(instants[perm[j]], instants[n - 1]),
        next == output.insert(j, input[n - 1]),
        next_perm == perm.insert(j, n - 1),
    ensures
        arranged(input, instants, n - 1, next, next_perm),
{
    assert forall|i: int| 0 <= i < next_perm.len() implies n - 1 <= #[trigger] next_perm[i]
        < input.len() && next[i] == input[next_perm[i]] by {
        if i < j {
            assert(next_perm[i] == perm[i]);
        } else if i > j {
            assert(next_perm[i] == perm[i - 1]);
        }
    }
    assert forall|a: int, b: int| 0 <= a < b < next_perm.len() implies precedes(
        instants,
        #[trigger] next_perm[a],
        #[trigger] next_perm[b],
    ) by {
        if b < j {
            assert(precedes(instants, perm[a], perm[b]));
        } else if b == j {
            assert(earlier(instants[perm[a]], instants[n - 1]));
        } else if a < j {
            assert(precedes(instants, perm[a], perm[b - 1]));
        } else if a == j {
            // what follows the new snapshot is not earlier than the one
            // that stood at `j`, which is not earlier than the new one
            if j < b - 1 {
                assert(precedes(instants, perm[j], perm[b - 1]));
            }
            assert(n - 1 < perm[b - 1]);
        } else {
            assert(precedes(instants, perm[a - 1], perm[b - 1]));
        }
    }
    assert forall|k: int| n - 1 <= k < input.len() implies #[trigger] next_perm.contains(k) by {
        if k == n - 1 {
            assert(next_perm[j] == k);
        } else {
            assert(perm.contains(k));
            let i = choose|i: int| 0 <= i < perm.len() && perm[i] == k;
            if i < j {
                assert(next_perm[i] == k);
            } else {
                assert(next_perm[i + 1] == k);
            }
        }
    }
}

/// An arrangement of dated snapshots by their dates is in ascending
/// order of date.
proof fn lemma_arranged_chronological(input: Seq<Pipeline>, output: Seq<Pipeline>, perm: Seq<int>)
    requires
        all_dated(input, 0),
        arranged(input, instants_of(input), 0, output, perm),
    ensures
        chronological(output),
{
    assert forall|i: int| 0 <= i < output.len() implies instant_of(#[trigger] output[i]) is Some by {
        assert(output[i] == input[perm[i]]);
    }
    assert forall|i: int, j: int| 0 <= i < j < output.len() implies !earlier(
        instant_of(#[trigger] output[j])->0,
        instant_of(#[trigger] output[i])->0,
    ) by {
        assert(precedes(instants_of(input), perm[i], perm[j]));
        assert(output[i] == input[perm[i]]);
        assert(output[j] == input[perm[j]]);
    }
}

impl Logs {
    /// The store is in ascending order of date.
    pub open spec fn wf(self) -> bool {
        chronological(self.pipelines@)
    }

    /// The empty store.
    pub fn new() -> (res: Logs)
        ensures
            res.pipelines@.len() == 0,
            res.wf(),
    {
        Logs { pipelines: Vec::new() }
    }

    /// The store of the snapshots read from the log files, put in
    /// ascending order of date. Fails when a snapshot has no readable
    /// date.
    pub fn hydrate(pipelines: Vec<Pipeline>) -> (res: Result<Logs, PipelineError>)
        ensures
            res is Ok <==> all_dated(pipelines@, 0),
            res matches Ok(logs) ==> sorted_by_date(pipelines@, logs.pipelines@) && logs.wf(),
            res matches Err(e) ==> e == PipelineError::UnreadableDate,
    {
        match sort_by_date_asc(pipelines) {
            Ok(sorted) => Ok(Logs { pipelines: sorted }),
            Err(e) => Err(e),
        }
    }

    /// All snapshots, oldest first.
    pub fn get(&self) -> (res: &Vec<Pipeline>)
        ensures
            *res == self.pipelines,
    {
        &self.pipelines
    }

    /// The snapshots that bear the name, oldest first. Fails when there is
    /// none.
    pub fn get_many_by_name<'a>(&'a self, name: &str) -> (res: Result<
        Vec<&'a Pipeline>,
        PipelineError,
    >)
        ensures
            res is Ok <==> named(self.pipelines@, name@, self.pipelines@.len() as int).len() > 0,
            res matches Ok(found) ==> {
                &&& found@.len() == named(
                    self.pipelines@,
                    name@,
                    self.pipelines@.len() as int,
                ).len()
                &&& forall|i: int|
                    0 <= i < found@.len() ==> *#[trigger] found@[i] == named(
                        self.pipelines@,
                        name@,
                        self.pipelines@.len() as int,
                    )[i]
            },
            res matches Err(e) ==> e == PipelineError::NotFound,
    {
        let mut found: Vec<&'a Pipeline> = Vec::new();
        let mut i: usize = 0;
        while i < self.pipelines.len()
            invariant
                i <= self.pipelines@.len(),
                found@.len() == named(self.pipelines@, name@, i as int).len(),
                forall|k: int|
                    0 <= k < found@.len() ==> *#[trigger] found@[k] == named(
                        self.pipelines@,
                        name@,
                        i as int,
                    )[k],
            decreases self.pipelines@.len() - i,
        {
            if same_text(self.pipelines[i].name.as_str(), name) {
                found.push(&self.pipelines[i]);
            }
            i += 1;
        }
        if found.len() == 0 {
            Err(PipelineError::NotFound)
        } else {
            Ok(found)
        }
    }

    /// The most recent snapshot that bears the name. Fails when there is
    /// none.
    pub fn get_by_name<'a>(&'a self, name: &str) -> (res: Result<&'a Pipeline, PipelineError>)
        ensures
            res is Ok <==> exists|i: int|
                0 <= i < self.pipelines@.len() && (#[trigger] self.pipelines@[i]).name@ == name@,
            res matches Ok(p) ==> exists|i: int|
                0 <= i < self.pipelines@.len() && *p == #[trigger] self.pipelines@[i] && p.name@
                    == name@ && forall|j: int|
                    i < j < self.pipelines@.len() ==> (#[trigger] self.pipelines@[j]).name@
                        != name@,
            res matches Err(e) ==> e == PipelineError::NotFound,
    {
        let mut i: usize = self.pipelines.len();
        while i > 0
            invariant
                i <= self.pipelines@.len(),
                forall|j: int|
                    i <= j < self.pipelines@.len() ==> (#[trigger] self.pipelines@[j]).name@
                        != name@,
            decreases i,
        {
            i -= 1;
            if same_text(self.pipelines[i].name.as_str(), name) {
                return Ok(&self.pipelines[i]);
            }
        }
        Err(PipelineError::NotFound)
    }
}

impl Default for Logs {
    fn default() -> (res: Logs)
        ensures
            res.pipelines@.len() == 0,
    {
        Logs::new()
    }
}

/// Sorting keeps the snapshots as they are: each snapshot that goes in
/// comes out, unchanged in every field, and nothing else does. A single
/// snapshot comes out as it went in.
pub proof fn lemma_sorted_keeps_snapshots(
    input: Seq<Pipeline>,
    instants: Seq<(i64, u32)>,
    output: Seq<Pipeline>,
)
    requires
        sorted_by(input, instants, output),
    ensures
        output.len() == input.len(),
        forall|k: int| 0 <= k < input.len() ==> output.contains(#[trigger] input[k]),
        forall|i: int| 0 <= i < output.len() ==> input.contains(#[trigger] output[i]),
        input.len() == 1 ==> output[0] == input[0],
{
    let perm = choose|perm: Seq<int>| arranged(input, instants, 0, output, perm);
    assert forall|k: int| 0 <= k < input.len() implies output.contains(#[trigger] input[k]) by {
        assert(perm.contains(k));
        let i = choose|i: int| 0 <= i < perm.len() && perm[i] == k;
        assert(output[i] == input[k]);
    }
    assert forall|i: int| 0 <= i < output.len() implies input.contains(#[trigger] output[i]) by {
        assert(output[i] == input[perm[i]]);
    }
    if input.len() == 1 {
        assert(output[0] == input[perm[0]]);
    }
}

/// What `named` selects: every snapshot it gives bears the name, and
/// every snapshot of the list that bears the name is given.
pub proof fn lemma_named(list: Seq<Pipeline>, name: Seq<char>, upto: int)
    requires
        0 <= upto <= list.len(),
    ensures
        named(list, name, upto).len() <= upto,
        forall|i: int|
            0 <= i < named(list, name, upto).len() ==> (#[trigger] named(list, name, upto)[i]).name@
                == name,
        forall|k: int|
            0 <= k < upto && (#[trigger] list[k]).name@ == name ==> named(
                list,
                name,
                upto,
            ).contains(list[k]),
    decreases upto,
{
    if upto > 0 {
        lemma_named(list, name, upto - 1);
        let prev = named(list, name, upto - 1);
        let cur = named(list, name, upto);
        assert forall|k: int| 0 <= k < upto && (#[trigger] list[k]).name@ == name implies cur.contains(
            list[k],
        ) by {
            if k == upto - 1 {
                assert(cur[cur.len() - 1] == list[k]);
            } else {
                assert(prev.contains(list[k]));
                let i = choose|i: int| 0 <= i < prev.len() && prev[i] == list[k];
                assert(cur[i] == list[k]);
            }
        }
    }
}

} // verus!
