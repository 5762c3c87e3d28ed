//! What a solve returns: a forest of processing trees, the aggregated raw
//! inputs, and the items no recipe could produce.

use crate::processer::Processer;
use vstd::prelude::*;

verus! {

/// A named rate, tagged as a solid item or a liquid.
#[derive(Debug, PartialEq)]
pub enum Throughput {
    Item(String, u64),
    Liquid(String, u64),
}

/// The names the plan treats as liquids.
pub open spec fn spec_is_liquid(n: Seq<char>) -> bool {
    ||| n == "water"@
    ||| n == "crude-oil"@
    ||| n == "heavy-oil"@
    ||| n == "light-oil"@
    ||| n == "petroleum-gas"@
    ||| n == "lubricant"@
    ||| n == "sulfuric-acid"@
}

/// Whether the name is one of the liquid names.
pub fn is_liquid_name(name: &str) -> (r: bool)
    ensures
        r == spec_is_liquid(name@),
{
    crate::strings::str_eq(name, "water") || crate::strings::str_eq(name, "crude-oil")
        || crate::strings::str_eq(name, "heavy-oil") || crate::strings::str_eq(name, "light-oil")
        || crate::strings::str_eq(name, "petroleum-gas") || crate::strings::str_eq(
        name,
        "lubricant",
    ) || crate::strings::str_eq(name, "sulfuric-acid")
}

/// Whether a throughput records exactly this name and rate, with the
/// liquid tag the name calls for.
pub open spec fn throughput_is(t: Throughput, n: Seq<char>, rate: u64) -> bool {
    &&& t.spec_name() == n
    &&& t.spec_rate() == rate
    &&& (t is Liquid <==> spec_is_liquid(n))
}

impl Throughput {
    /// The name carried by the throughput.
    pub open spec fn spec_name(&self) -> Seq<char> {
        match self {
            Throughput::Item(n, _) => n@,
            Throughput::Liquid(n, _) => n@,
        }
    }

    /// The rate carried by the throughput.
    pub open spec fn spec_rate(&self) -> u64 {
        match self {
            Throughput::Item(_, t) => *t,
            Throughput::Liquid(_, t) => *t,
        }
    }

    /// Tags a rate as liquid or item by the name.
    pub fn new(name: String, throughput: u64) -> (r: Throughput)
        ensures
            r.spec_name() == name@,
            r.spec_rate() == throughput,
            r is Liquid <==> spec_is_liquid(name@),
    {
        if is_liquid_name(name.as_str()) {
            Throughput::Liquid(name, throughput)
        } else {
            Throughput::Item(name, throughput)
        }
    }

    /// The name carried by the throughput.
    pub fn name(&self) -> (r: &str)
        ensures
            r@ == self.spec_name(),
    {
        match self {
            Throughput::Item(n, _) => n.as_str(),
            Throughput::Liquid(n, _) => n.as_str(),
        }
    }

    /// The rate carried by the throughput.
    pub fn throughput(&self) -> (r: u64)
        ensures
            r == self.spec_rate(),
    {
        match self {
            Throughput::Item(_, t) => *t,
            Throughput::Liquid(_, t) => *t,
        }
    }
}

/// One resolved crafting step: the demand it satisfies, the machine chosen
/// for it, the machine count, the craft rate, and where each ingredient
/// comes from.
#[derive(Debug, PartialEq)]
pub struct Process {
    pub throughput: Throughput,
    pub processer: Processer,
    pub processer_num: u64,
    pub craft_per_sec: u64,
    pub sources: Vec<Source>,
}

/// Where one ingredient demand went.
#[derive(Debug, PartialEq)]
pub enum Source {
    /// Resolved in place, as a nested crafting step.
    Process(Process),
    /// Re-queued globally, to be resolved once in its own tree.
    Merged(Throughput),
    /// Drawn from outside: a raw source or an item with no recipe.
    Source(Throughput),
}

/// One top-level tree of the plan.
#[derive(Debug, PartialEq)]
pub struct ProcessingTree {
    pub process: Process,
}

/// An item no recipe produces, with near-name suggestions.
#[derive(Debug, PartialEq)]
pub struct Missing {
    pub name: String,
    pub candidates: Vec<String>,
}

/// The whole plan.
#[derive(Debug, PartialEq)]
pub struct Solution {
    pub trees: Vec<ProcessingTree>,
    pub sources: Vec<Throughput>,
    pub missings: Vec<Missing>,
}

/// The rate a tree draws from outside under a name, summed over its
/// `Source` terminals.
pub open spec fn process_src_sum(p: Process, n: Seq<char>) -> int
    decreases p,
{
    sources_src_sum(p.sources@, n)
}

/// The same sum over a list of ingredient sources.
pub open spec fn sources_src_sum(ss: Seq<Source>, n: Seq<char>) -> int
    decreases ss,
{
    if ss.len() == 0 {
        0
    } else {
        sources_src_sum(ss.drop_last(), n) + source_src_sum(ss.last(), n)
    }
}

/// The same sum for one ingredient source.
pub open spec fn source_src_sum(s: Source, n: Seq<char>) -> int
    decreases s,
{
    match s {
        Source::Process(p) => process_src_sum(p, n),
        Source::Merged(_) => 0,
        Source::Source(t) => if t.spec_name() == n {
            t.spec_rate() as int
        } else {
            0
        },
    }
}

/// The rate a tree re-queues under a name, summed over its `Merged`
/// terminals.
pub open spec fn process_merge_sum(p: Process, n: Seq<char>) -> int
    decreases p,
{
    sources_merge_sum(p.sources@, n)
}

/// The same sum over a list of ingredient sources.
pub open spec fn sources_merge_sum(ss: Seq<Source>, n: Seq<char>) -> int
    decreases ss,
{
    if ss.len() == 0 {
        0
    } else {
        sources_merge_sum(ss.drop_last(), n) + source_merge_sum(ss.last(), n)
    }
}

/// The same sum for one ingredient source.
pub open spec fn source_merge_sum(s: Source, n: Seq<char>) -> int
    decreases s,
{
    match s {
        Source::Process(p) => process_merge_sum(p, n),
        Source::Merged(t) => if t.spec_name() == n {
            t.spec_rate() as int
        } else {
            0
        },
        Source::Source(_) => 0,
    }
}

/// Whether a tree holds a `Source` terminal under the name.
pub open spec fn process_has_src_terminal(p: Process, n: Seq<char>) -> bool
    decreases p,
{
    exists|i: int|
        0 <= i < p.sources@.len() && source_has_src_terminal(#[trigger] p.sources@[i], n)
}

/// Whether one ingredient source holds a `Source` terminal under the name.
pub open spec fn source_has_src_terminal(s: Source, n: Seq<char>) -> bool
    decreases s,
{
    match s {
        Source::Process(p) => process_has_src_terminal(p, n),
        Source::Merged(_) => false,
        Source::Source(t) => t.spec_name() == n,
    }
}

/// Whether a list of ingredient sources holds a `Source` terminal under the
/// name.
pub open spec fn sources_have_src_terminal(ss: Seq<Source>, n: Seq<char>) -> bool {
    exists|i: int| 0 <= i < ss.len() && source_has_src_terminal(#[trigger] ss[i], n)
}

/// Whether a tree holds a `Merged` terminal under the name.
pub open spec fn process_has_merge_terminal(p: Process, n: Seq<char>) -> bool
    decreases p,
{
    exists|i: int|
        0 <= i < p.sources@.len() && source_has_merge_terminal(#[trigger] p.sources@[i], n)
}

/// Whether one ingredient source holds a `Merged` terminal under the name.
pub open spec fn source_has_merge_terminal(s: Source, n: Seq<char>) -> bool
    decreases s,
{
    match s {
        Source::Process(p) => process_has_merge_terminal(p, n),
        Source::Merged(t) => t.spec_name() == n,
        Source::Source(_) => false,
    }
}

/// Whether a list of ingredient sources holds a `Merged` terminal under the
/// name.
pub open spec fn sources_have_merge_terminal(ss: Seq<Source>, n: Seq<char>) -> bool {
    exists|i: int| 0 <= i < ss.len() && source_has_merge_terminal(#[trigger] ss[i], n)
}

/// Appending one ingredient source extends every sum and terminal test in
/// the obvious way.
pub proof fn lemma_sums_push(ss: Seq<Source>, s: Source, n: Seq<char>)
    ensures
        sources_src_sum(ss.push(s), n) == sources_src_sum(ss, n) + source_src_sum(s, n),
        sources_merge_sum(ss.push(s), n) == sources_merge_sum(ss, n) + source_merge_sum(s, n),
        sources_have_src_terminal(ss.push(s), n) == (sources_have_src_terminal(ss, n)
            || source_has_src_terminal(s, n)),
        sources_have_merge_terminal(ss.push(s), n) == (sources_have_merge_terminal(ss, n)
            || source_has_merge_terminal(s, n)),
{
    let post = ss.push(s);
    assert(post.drop_last() =~= ss);
    assert(post.last() == s);
    if sources_have_src_terminal(ss, n) {
        let i = choose|i: int| 0 <= i < ss.len() && source_has_src_terminal(#[trigger] ss[i], n);
        assert(source_has_src_terminal(post[i], n));
        assert(sources_have_src_terminal(post, n));
    }
    if source_has_src_terminal(s, n) {
        assert(source_has_src_terminal(post[ss.len() as int], n));
        assert(sources_have_src_terminal(post, n));
    }
    if sources_have_src_terminal(post, n) {
        let i = choose|i: int|
            0 <= i < post.len() && source_has_src_terminal(#[trigger] post[i], n);
        if i < ss.len() {
            assert(source_has_src_terminal(ss[i], n));
            assert(sources_have_src_terminal(ss, n));
        }
    }
    if sources_have_merge_terminal(ss, n) {
        let i = choose|i: int|
            0 <= i < ss.len() && source_has_merge_terminal(#[trigger] ss[i], n);
        assert(source_has_merge_terminal(post[i], n));
        assert(sources_have_merge_terminal(post, n));
    }
    if source_has_merge_terminal(s, n) {
        assert(source_has_merge_terminal(post[ss.len() as int], n));
        assert(sources_have_merge_terminal(post, n));
    }
    if sources_have_merge_terminal(post, n) {
        let i = choose|i: int|
            0 <= i < post.len() && source_has_merge_terminal(#[trigger] post[i], n);
        if i < ss.len() {
            assert(source_has_merge_terminal(ss[i], n));
            assert(sources_have_merge_terminal(ss, n));
        }
    }
}

/// The rate a whole forest draws from outside under a name.
pub open spec fn forest_src_sum(ts: Seq<ProcessingTree>, n: Seq<char>) -> int
    decreases ts.len(),
{
    if ts.len() == 0 {
        0
    } else {
        forest_src_sum(ts.drop_last(), n) + process_src_sum(ts.last().process, n)
    }
}

/// The rate a whole forest re-queues under a name.
pub open spec fn forest_merge_sum(ts: Seq<ProcessingTree>, n: Seq<char>) -> int
    decreases ts.len(),
{
    if ts.len() == 0 {
        0
    } else {
        forest_merge_sum(ts.drop_last(), n) + process_merge_sum(ts.last().process, n)
    }
}

/// The total rate of the trees rooted at a name.
pub open spec fn forest_root_sum(ts: Seq<ProcessingTree>, n: Seq<char>) -> int
    decreases ts.len(),
{
    if ts.len() == 0 {
        0
    } else {
        forest_root_sum(ts.drop_last(), n) + if ts.last().process.throughput.spec_name() == n {
            ts.last().process.throughput.spec_rate() as int
        } else {
            0
        }
    }
}

/// Whether any tree of the forest holds a `Source` terminal under the name.
pub open spec fn forest_has_src_terminal(ts: Seq<ProcessingTree>, n: Seq<char>) -> bool {
    exists|i: int| 0 <= i < ts.len() && process_has_src_terminal((#[trigger] ts[i]).process, n)
}

/// Whether any tree of the forest holds a `Merged` terminal under the name.
pub open spec fn forest_has_merge_terminal(ts: Seq<ProcessingTree>, n: Seq<char>) -> bool {
    exists|i: int| 0 <= i < ts.len() && process_has_merge_terminal((#[trigger] ts[i]).process, n)
}

/// Appending one tree extends every forest sum and terminal test in the
/// obvious way.
pub proof fn lemma_forest_push(ts: Seq<ProcessingTree>, t: ProcessingTree, n: Seq<char>)
    ensures
        forest_src_sum(ts.push(t), n) == forest_src_sum(ts, n) + process_src_sum(t.process, n),
        forest_merge_sum(ts.push(t), n) == forest_merge_sum(ts, n) + process_merge_sum(
            t.process,
            n,
        ),
        forest_root_sum(ts.push(t), n) == forest_root_sum(ts, n) + if t.process.throughput.spec_name()
            == n {
            t.process.throughput.spec_rate() as int
        } else {
            0
        },
        forest_has_src_terminal(ts.push(t), n) == (forest_has_src_terminal(ts, n)
            || process_has_src_terminal(t.process, n)),
        forest_has_merge_terminal(ts.push(t), n) == (forest_has_merge_terminal(ts, n)
            || process_has_merge_terminal(t.process, n)),
{
    let post = ts.push(t);
    assert(post.drop_last() =~= ts);
    assert(post.last() == t);
    if forest_has_src_terminal(ts, n) {
        let i = choose|i: int|
            0 <= i < ts.len() && process_has_src_terminal((#[trigger] ts[i]).process, n);
        assert(process_has_src_terminal(post[i].process, n));
        assert(forest_has_src_terminal(post, n));
    }
    if process_has_src_terminal(t.process, n) {
        assert(process_has_src_terminal(post[ts.len() as int].process, n));
        assert(forest_has_src_terminal(post, n));
    }
    if forest_has_src_terminal(post, n) {
        let i = choose|i: int|
            0 <= i < post.len() && process_has_src_terminal((#[trigger] post[i]).process, n);
        if i < ts.len() {
            assert(process_has_src_terminal(ts[i].process, n));
            assert(forest_has_src_terminal(ts, n));
        }
    }
    if forest_has_merge_terminal(ts, n) {
        let i = choose|i: int|
            0 <= i < ts.len() && process_has_merge_terminal((#[trigger] ts[i]).process, n);
        assert(process_has_merge_terminal(post[i].process, n));
        assert(forest_has_merge_terminal(post, n));
    }
    if process_has_merge_terminal(t.process, n) {
        assert(process_has_merge_terminal(post[ts.len() as int].process, n));
        assert(forest_has_merge_terminal(post, n));
    }
    if forest_has_merge_terminal(post, n) {
        let i = choose|i: int|
            0 <= i < post.len() && process_has_merge_terminal((#[trigger] post[i]).process, n);
        if i < ts.len() {
            assert(process_has_merge_terminal(ts[i].process, n));
            assert(forest_has_merge_terminal(ts, n));
        }
    }
}

/// Forest sums are never negative.
pub proof fn lemma_forest_sums_nonneg(ts: Seq<ProcessingTree>, n: Seq<char>)
    ensures
        forest_src_sum(ts, n) >= 0,
        forest_merge_sum(ts, n) >= 0,
        forest_root_sum(ts, n) >= 0,
    decreases ts.len(),
{
    if ts.len() > 0 {
        lemma_forest_sums_nonneg(ts.drop_last(), n);
        lemma_src_sum_nonneg(ts.last().process, n);
        lemma_merge_sum_nonneg(ts.last().process, n);
    }
}

/// Source sums are never negative.
pub proof fn lemma_src_sum_nonneg(p: Process, n: Seq<char>)
    ensures
        process_src_sum(p, n) >= 0,
    decreases p,
{
    lemma_sources_src_sum_nonneg(p.sources@, n);
}

/// Source sums over a list are never negative.
pub proof fn lemma_sources_src_sum_nonneg(ss: Seq<Source>, n: Seq<char>)
    ensures
        sources_src_sum(ss, n) >= 0,
    decreases ss,
{
    if ss.len() > 0 {
        lemma_sources_src_sum_nonneg(ss.drop_last(), n);
        lemma_source_src_sum_nonneg(ss.last(), n);
    }
}

/// The source sum of one ingredient source is never negative.
pub proof fn lemma_source_src_sum_nonneg(s: Source, n: Seq<char>)
    ensures
        source_src_sum(s, n) >= 0,
    decreases s,
{
    match s {
        Source::Process(p) => lemma_src_sum_nonneg(p, n),
        _ => {},
    }
}

/// Merge sums are never negative.
pub proof fn lemma_merge_sum_nonneg(p: Process, n: Seq<char>)
    ensures
        process_merge_sum(p, n) >= 0,
    decreases p,
{
    lemma_sources_merge_sum_nonneg(p.sources@, n);
}

/// Merge sums over a list are never negative.
pub proof fn lemma_sources_merge_sum_nonneg(ss: Seq<Source>, n: Seq<char>)
    ensures
        sources_merge_sum(ss, n) >= 0,
    decreases ss,
{
    if ss.len() > 0 {
        lemma_sources_merge_sum_nonneg(ss.drop_last(), n);
        lemma_source_merge_sum_nonneg(ss.last(), n);
    }
}

/// The merge sum of one ingredient source is never negative.
pub proof fn lemma_source_merge_sum_nonneg(s: Source, n: Seq<char>)
    ensures
        source_merge_sum(s, n) >= 0,
    decreases s,
{
    match s {
        Source::Process(p) => lemma_merge_sum_nonneg(p, n),
        _ => {},
    }
}

} // verus!
