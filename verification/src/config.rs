//! The loaded configuration, and the removal of pipelines that share a
//! name.

use vstd::prelude::*;
use crate::error::PipelineError;
use crate::names::{
    before, key, lemma_before_strict, lemma_before_transitive, rank, same_text, Rank,
};
use crate::pipeline::Pipeline;
use crate::trigger::Hook;

verus! {

/// What the configuration file declares.
#[derive(Debug)]
pub struct Config {
    pub pipelines: Option<Vec<Pipeline>>,
    pub hooks: Option<Vec<Hook>>,
}

/// The bytes by which a pipeline is ordered: those of its name.
pub open spec fn name_key(pipeline: Pipeline) -> Seq<u8> {
    key(pipeline.name@)
}

/// The list is in strictly ascending order of names.
pub open spec fn ascending(list: Seq<Pipeline>) -> bool {
    forall|i: int, j: int|
        0 <= i < j < list.len() ==> before(name_key(#[trigger] list[i]), name_key(#[trigger] list[j]))
}

/// No two pipelines of the list at or after `from` share a name.
pub open spec fn distinct_names(list: Seq<Pipeline>, from: int) -> bool {
    forall|a: int, b: int|
        from <= a < b < list.len() ==> (#[trigger] list[a]).name@ != (#[trigger] list[b]).name@
}

/// The pipeline at `k` is the first of its name at or after `from`.
pub open spec fn first_of_name(list: Seq<Pipeline>, from: int, k: int) -> bool {
    &&& from <= k < list.len()
    &&& forall|m: int| from <= m < k ==> (#[trigger] list[m]).name@ != list[k].name@
}

/// Each pipeline of `kept` is one of `all`, the first of its name at or
/// after `from`.
pub open spec fn keeps_firsts(all: Seq<Pipeline>, from: int, kept: Seq<Pipeline>) -> bool {
    forall|i: int|
        0 <= i < kept.len() ==> exists|k: int|
            first_of_name(all, from, k) && all[k] == #[trigger] kept[i]
}

/// The name is that of some pipeline of `kept`.
pub open spec fn has_name(kept: Seq<Pipeline>, name: Seq<char>) -> bool {
    exists|i: int| 0 <= i < kept.len() && (#[trigger] kept[i]).name@ == name
}

/// Every name of `all` at or after `from` is still there in `kept`.
pub open spec fn covers(all: Seq<Pipeline>, from: int, kept: Seq<Pipeline>) -> bool {
    forall|k: int| from <= k < all.len() ==> has_name(kept, (#[trigger] all[k]).name@)
}

/// `kept` is `all` sorted by name with one pipeline left of each name:
/// the one that came first in `all`.
pub open spec fn deduplicated(all: Seq<Pipeline>, kept: Seq<Pipeline>) -> bool {
    &&& ascending(kept)
    &&& keeps_firsts(all, 0, kept)
    &&& covers(all, 0, kept)
}

/// Where a name belongs in an ascending list, and whether a pipeline of
/// that name is already there.
fn place(kept: &Vec<Pipeline>, name: &str) -> (res: (usize, bool))
    ensures
        res.0 <= kept@.len(),
        forall|i: int| 0 <= i < res.0 ==> before(name_key(#[trigger] kept@[i]), key(name@)),
        res.1 ==> res.0 < kept@.len() && kept@[res.0 as int].name@ == name@,
        !res.1 && res.0 < kept@.len() ==> before(key(name@), name_key(kept@[res.0 as int])),
{
    let mut j: usize = 0;
    while j < kept.len()
        invariant
            j <= kept@.len(),
            forall|i: int| 0 <= i < j ==> before(name_key(#[trigger] kept@[i]), key(name@)),
        decreases kept@.len() - j,
    {
        match rank(kept[j].name.as_str(), name) {
            Rank::Before => {},
            Rank::Same => {
                return (j, true);
            },
            Rank::After => {
                return (j, false);
            },
        }
        j += 1;
    }
    (j, false)
}

impl Config {
    /// The configuration that declares nothing.
    pub fn empty() -> (res: Config)
        ensures
            res.pipelines is None,
            res.hooks is None,
    {
        Config { pipelines: None, hooks: None }
    }

    /// The configuration that declares these pipelines, with those that
    /// repeat a name removed. The flag says whether any was removed, which
    /// calls for a warning.
    pub fn new(pipelines: Option<Vec<Pipeline>>) -> (res: (Config, bool))
        ensures
            res.0.hooks is None,
            pipelines is None ==> res.0.pipelines is None && !res.1,
            pipelines matches Some(all) ==> {
                &&& res.0.pipelines matches Some(kept)
                &&& deduplicated(all@, kept@)
                &&& res.1 == !distinct_names(all@, 0)
                &&& res.1 == (kept@.len() < all@.len())
                &&& !res.1 == (kept@.len() == all@.len())
            },
    {
        let mut config = Config { pipelines, hooks: None };
        let warned = config.dedup_pipelines();
        (config, warned)
    }

    /// Removes the pipelines that repeat a name: the list is sorted by
    /// name, and of the pipelines of one name the one that came first
    /// stays. The result says whether any was removed, which calls for a
    /// warning.
    pub fn dedup_pipelines(&mut self) -> (warned: bool)
        ensures
            final(self).hooks == old(self).hooks,
            old(self).pipelines is None ==> final(self).pipelines is None && !warned,
            old(self).pipelines matches Some(all) ==> {
                &&& final(self).pipelines matches Some(kept)
                &&& deduplicated(all@, kept@)
                &&& warned == !distinct_names(all@, 0)
                &&& warned == (kept@.len() < all@.len())
                &&& !warned == (kept@.len() == all@.len())
            },
    {
        match self.pipelines.take() {
            None => false,
            Some(mut all) => {
                let ghost orig = all@;
                let total = all.len();
                let mut kept: Vec<Pipeline> = Vec::new();
                while all.len() > 0
                    invariant
                        all@.len() <= orig.len(),
                        all@ == orig.subrange(0, all@.len() as int),
                        ascending(kept@),
                        keeps_firsts(orig, all@.len() as int, kept@),
                        covers(orig, all@.len() as int, kept@),
                        kept@.len() + all@.len() <= orig.len(),
                        distinct_names(orig, all@.len() as int) <==> kept@.len() + all@.len()
                            == orig.len(),
                    decreases all@.len(),
                {
                    let ghost n = all@.len() as int;
                    let ghost before_kept = kept@;
                    let x = all.pop().unwrap();
                    assert(x == orig[n - 1]);
                    let (j, same) = place(&kept, x.name.as_str());
                    if same {
                        let slot = &mut kept[j];
                        *slot = x;
                        proof {
                            lemma_replaced(orig, n, before_kept, kept@, j as int);
                        }
                    } else {
                        kept.insert(j, x);
                        proof {
                            lemma_inserted(orig, n, before_kept, kept@, j as int);
                        }
                    }
                }
                let warned = kept.len() != total;
                self.pipelines = Some(kept);
                warned
            },
        }
    }
}

impl Config {
    /// The declared pipelines; none where the configuration declares
    /// none.
    pub open spec fn declared(self) -> Seq<Pipeline> {
        match self.pipelines {
            None => Seq::empty(),
            Some(list) => list@,
        }
    }

    /// The first declared pipeline of the name. Fails when there is none.
    pub fn get_pipeline<'a>(&'a self, name: &str) -> (res: Result<&'a Pipeline, PipelineError>)
        ensures
            res is Ok <==> exists|i: int|
                0 <= i < self.declared().len() && (#[trigger] self.declared()[i]).name@ == name@,
            res matches Ok(p) ==> exists|i: int|
                first_of_name(self.declared(), 0, i) && *p == self.declared()[i] && p.name@
                    == name@,
            res matches Err(e) ==> e == PipelineError::UnknownPipeline,
    {
        match &self.pipelines {
            None => Err(PipelineError::UnknownPipeline),
            Some(list) => {
                let mut i: usize = 0;
                while i < list.len()
                    invariant
                        i <= list@.len(),
                        self.pipelines == Some(*list),
                        forall|j: int| 0 <= j < i ==> (#[trigger] list@[j]).name@ != name@,
                    decreases list@.len() - i,
                {
                    if same_text(list[i].name.as_str(), name) {
                        assert(first_of_name(self.declared(), 0, i as int));
                        return Ok(&list[i]);
                    }
                    i += 1;
                }
                Err(PipelineError::UnknownPipeline)
            },
        }
    }
}

impl Default for Config {
    fn default() -> (res: Config)
        ensures
            res.pipelines is None,
            res.hooks is None,
    {
        Config::empty()
    }
}

/// Taking `all[n - 1]` in place of the kept pipeline of the same name
/// keeps the list in order and makes it hold the firsts from `n - 1` on.
proof fn lemma_replaced(
    all: Seq<Pipeline>,
    n: int,
    kept: Seq<Pipeline>,
    next: Seq<Pipeline>,
    j: int,
)
    requires
        0 < n <= all.len(),
        0 <= j < kept.len(),
        ascending(kept),
        keeps_firsts(all, n, kept),
        covers(all, n, kept),
        kept[j].name@ == all[n - 1].name@,
        next == kept.update(j, all[n - 1]),
    ensures
        ascending(next),
        keeps_firsts(all, n - 1, next),
        covers(all, n - 1, next),
        !distinct_names(all, n - 1),
{
    let x = all[n - 1];
    assert forall|a: int, b: int| 0 <= a < b < next.len() implies before(
        name_key(#[trigger] next[a]),
        name_key(#[trigger] next[b]),
    ) by {
        assert(before(name_key(kept[a]), name_key(kept[b])));
    }
    assert forall|i: int| 0 <= i < next.len() implies exists|k: int|
        first_of_name(all, n - 1, k) && all[k] == #[trigger] next[i] by {
        if i == j {
            assert(first_of_name(all, n - 1, n - 1));
        } else {
            let k = choose|k: int| first_of_name(all, n, k) && all[k] == kept[i];
            if i < j {
                assert(before(name_key(kept[i]), name_key(kept[j])));
                lemma_before_strict(name_key(kept[i]), name_key(kept[j]));
            } else {
                assert(before(name_key(kept[j]), name_key(kept[i])));
                lemma_before_strict(name_key(kept[j]), name_key(kept[i]));
            }
            assert(first_of_name(all, n - 1, k));
        }
    }
    assert forall|k: int| n - 1 <= k < all.len() implies has_name(
        next,
        (#[trigger] all[k]).name@,
    ) by {
        if k == n - 1 {
            assert(next[j].name@ == all[k].name@);
        } else {
            assert(has_name(kept, all[k].name@));
            let i = choose|i: int| 0 <= i < kept.len() && (#[trigger] kept[i]).name@ == all[k].name@;
            assert(next[i].name@ == all[k].name@);
        }
    }
    let k = choose|k: int| first_of_name(all, n, k) && all[k] == kept[j];
    assert(all[n - 1].name@ == all[k].name@ && n - 1 < k);
}

/// Putting `all[n - 1]`, whose name is not among the kept ones, in its
/// place keeps the list in order and makes it hold the firsts from
/// `n - 1` on.
proof fn lemma_inserted(
    all: Seq<Pipeline>,
    n: int,
    kept: Seq<Pipeline>,
    next: Seq<Pipeline>,
    j: int,
)
    requires
        0 < n <= all.len(),
        0 <= j <= kept.len(),
        ascending(kept),
        keeps_firsts(all, n, kept),
        covers(all, n, kept),
        forall|i: int| 0 <= i < j ==> before(name_key(#[trigger] kept[i]), name_key(all[n - 1])),
        j < kept.len() ==> before(name_key(all[n - 1]), name_key(kept[j])),
        next == kept.insert(j, all[n - 1]),
    ensures
        ascending(next),
        keeps_firsts(all, n - 1, next),
        covers(all, n - 1, next),
        distinct_names(all, n - 1) <==> distinct_names(all, n),
{
    let x = all[n - 1];
    // the new name stands apart from every kept one
    assert forall|i: int| 0 <= i < kept.len() implies (#[trigger] kept[i]).name@ != x.name@ by {
        if i < j {
            lemma_before_strict(name_key(kept[i]), name_key(x));
        } else {
            if j < i {
                assert(before(name_key(kept[j]), name_key(kept[i])));
                lemma_before_transitive(name_key(x), name_key(kept[j]), name_key(kept[i]));
            }
            lemma_before_strict(name_key(x), name_key(kept[i]));
        }
    }
    assert forall|a: int, b: int| 0 <= a < b < next.len() implies before(
        name_key(#[trigger] next[a]),
        name_key(#[trigger] next[b]),
    ) by {
        if b < j {
            assert(before(name_key(kept[a]), name_key(kept[b])));
        } else if b == j {
            assert(before(name_key(kept[a]), name_key(x)));
        } else if a < j {
            assert(before(name_key(kept[a]), name_key(kept[b - 1])));
        } else if a == j {
            if j < b - 1 {
                assert(before(name_key(kept[j]), name_key(kept[b - 1])));
                lemma_before_transitive(name_key(x), name_key(kept[j]), name_key(kept[b - 1]));
            }
        } else {
            assert(before(name_key(kept[a - 1]), name_key(kept[b - 1])));
        }
    }
    // no pipeline from `n` on bears the new name
    assert forall|k: int| n <= k < all.len() implies (#[trigger] all[k]).name@ != x.name@ by {
        assert(has_name(kept, all[k].name@));
    }
    assert forall|i: int| 0 <= i < next.len() implies exists|k: int|
        first_of_name(all, n - 1, k) && all[k] == #[trigger] next[i] by {
        if i == j {
            assert(first_of_name(all, n - 1, n - 1));
        } else {
            let old_i = if i < j {
                i
            } else {
                i - 1
            };
            assert(next[i] == kept[old_i]);
            let k = choose|k: int| first_of_name(all, n, k) && all[k] == kept[old_i];
            assert(first_of_name(all, n - 1, k));
        }
    }
    assert forall|k: int| n - 1 <= k < all.len() implies has_name(
        next,
        (#[trigger] all[k]).name@,
    ) by {
        if k == n - 1 {
            assert(next[j].name@ == all[k].name@);
        } else {
            assert(has_name(kept, all[k].name@));
            let i = choose|i: int| 0 <= i < kept.len() && (#[trigger] kept[i]).name@ == all[k].name@;
            let new_i = if i < j {
                i
            } else {
                i + 1
            };
            assert(next[new_i].name@ == all[k].name@);
        }
    }
    if distinct_names(all, n) {
        assert forall|a: int, b: int| n - 1 <= a < b < all.len() implies (#[trigger] all[a]).name@
            != (#[trigger] all[b]).name@ by {
            if a == n - 1 {
                assert(all[b].name@ != x.name@);
            }
        }
    }
}

/// Of the pipelines that bear one name exactly one is left after the
/// removal: the one that came first.
pub proof fn lemma_one_survivor(all: Seq<Pipeline>, kept: Seq<Pipeline>, k: int) -> (i: int)
    requires
        deduplicated(all, kept),
        0 <= k < all.len(),
    ensures
        0 <= i < kept.len(),
        kept[i].name@ == all[k].name@,
        forall|m: int| 0 <= m < kept.len() && m != i ==> (#[trigger] kept[m]).name@ != all[k].name@,
        exists|f: int| first_of_name(all, 0, f) && f <= k && all[f] == kept[i],
{
    assert(has_name(kept, all[k].name@));
    let i = choose|i: int| 0 <= i < kept.len() && (#[trigger] kept[i]).name@ == all[k].name@;
    assert forall|m: int| 0 <= m < kept.len() && m != i implies (#[trigger] kept[m]).name@
        != all[k].name@ by {
        if m < i {
            assert(before(name_key(kept[m]), name_key(kept[i])));
            lemma_before_strict(name_key(kept[m]), name_key(kept[i]));
        } else {
            assert(before(name_key(kept[i]), name_key(kept[m])));
            lemma_before_strict(name_key(kept[i]), name_key(kept[m]));
        }
    }
    let f = choose|f: int| first_of_name(all, 0, f) && all[f] == kept[i];
    assert(f <= k);
    i
}

/// Where two pipelines bear one name, a warning is due.
pub proof fn lemma_same_name_warns(all: Seq<Pipeline>, a: int, b: int)
    requires
        0 <= a < b < all.len(),
        all[a].name@ == all[b].name@,
    ensures
        !distinct_names(all, 0),
{
}

} // verus!
