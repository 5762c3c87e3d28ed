//! What the caller asks for: target rates, raw sources and merge points.

use crate::flows::{flow_names, rate_of, Flow, ItemThroughputs};
use crate::num::{mul_div_floor, sat64, SCALE};
use vstd::prelude::*;

verus! {

/// The initial demand set: target items with rates, the names treated as raw
/// sources, and the names whose demand is merged across trees.
pub struct TargetSettings {
    pub(crate) targets: ItemThroughputs,
    pub(crate) sources: Vec<String>,
    pub(crate) merged: Vec<String>,
}

impl TargetSettings {
    /// The accumulated target demands, sorted by name.
    pub open(crate) spec fn spec_targets(&self) -> Seq<Flow> {
        self.targets.view()
    }

    /// The declared raw-source names.
    pub open(crate) spec fn spec_sources(&self) -> Seq<Seq<char>> {
        self.sources@.map_values(|s: String| s@)
    }

    /// The declared merge-point names.
    pub open(crate) spec fn spec_merged(&self) -> Seq<Seq<char>> {
        self.merged@.map_values(|s: String| s@)
    }

    /// The settings keep their demands sorted by name.
    pub open(crate) spec fn wf(&self) -> bool {
        self.targets.wf()
    }

    /// Empty settings.
    pub fn new() -> (r: TargetSettings)
        ensures
            r.wf(),
            r.spec_targets() =~= Seq::<Flow>::empty(),
            r.spec_sources() =~= Seq::<Seq<char>>::empty(),
            r.spec_merged() =~= Seq::<Seq<char>>::empty(),
    {
        TargetSettings { targets: ItemThroughputs::new(), sources: Vec::new(), merged: Vec::new() }
    }

    /// Adds a target demand; a rate already set for the item accumulates.
    pub fn add_target(&mut self, name: String, throughput: u64)
        requires
            old(self).wf(),
        ensures
            final(self).wf(),
            forall|m: Seq<char>|
                rate_of(final(self).spec_targets(), m) == if m == name@ {
                    sat64(rate_of(old(self).spec_targets(), m) + throughput)
                } else {
                    rate_of(old(self).spec_targets(), m)
                },
            forall|m: Seq<char>|
                #[trigger] flow_names(final(self).spec_targets()).contains(m) == (flow_names(
                    old(self).spec_targets(),
                ).contains(m) || m == name@),
            final(self).spec_sources() == old(self).spec_sources(),
            final(self).spec_merged() == old(self).spec_merged(),
    {
        self.targets.add(Flow { name, throughput });
        proof {
            assert forall|m: Seq<char>|
                rate_of(self.spec_targets(), m) == (if m == name@ {
                    sat64(rate_of(old(self).spec_targets(), m) + throughput)
                } else {
                    rate_of(old(self).spec_targets(), m)
                }) by {
                assert(self.targets.spec_rate(m) == if m == name@ {
                    sat64(old(self).targets.spec_rate(m) + throughput)
                } else {
                    old(self).targets.spec_rate(m)
                });
            }
            assert forall|m: Seq<char>| #[trigger]
                flow_names(self.spec_targets()).contains(m) == (flow_names(
                    old(self).spec_targets(),
                ).contains(m) || m == name@) by {
                assert(self.targets.spec_has(m) == (old(self).targets.spec_has(m) || m == name@));
            }
        }
    }

    /// Declares one raw-source name.
    pub fn add_source(&mut self, name: String)
        ensures
            final(self).spec_sources() =~= old(self).spec_sources().push(name@),
            final(self).spec_targets() == old(self).spec_targets(),
            final(self).spec_merged() == old(self).spec_merged(),
            final(self).wf() == old(self).wf(),
    {
        self.sources.push(name);
    }

    /// Declares raw-source names.
    pub fn add_sources(&mut self, names: Vec<String>)
        ensures
            final(self).spec_sources() =~= old(self).spec_sources() + names@.map_values(
                |s: String| s@,
            ),
            final(self).spec_targets() == old(self).spec_targets(),
            final(self).spec_merged() == old(self).spec_merged(),
            final(self).wf() == old(self).wf(),
    {
        let mut rest = names;
        self.sources.append(&mut rest);
        proof {
            assert(final(self).spec_sources() =~= old(self).spec_sources() + names@.map_values(
                |s: String| s@,
            ));
        }
    }

    /// Declares merge-point names.
    pub fn add_mergeds(&mut self, names: Vec<String>)
        ensures
            final(self).spec_merged() =~= old(self).spec_merged() + names@.map_values(
                |s: String| s@,
            ),
            final(self).spec_targets() == old(self).spec_targets(),
            final(self).spec_sources() == old(self).spec_sources(),
            final(self).wf() == old(self).wf(),
    {
        let mut rest = names;
        self.merged.append(&mut rest);
        proof {
            assert(final(self).spec_merged() =~= old(self).spec_merged() + names@.map_values(
                |s: String| s@,
            ));
        }
    }

    /// The accumulated target demands as a demand queue.
    pub fn targets_map(&self) -> (r: ItemThroughputs)
        ensures
            r.view() =~= self.spec_targets(),
            self.wf() ==> r.wf(),
    {
        self.targets.duplicate()
    }

    /// The accumulated target demands, one flow per item.
    pub fn targets(&self) -> (r: Vec<Flow>)
        ensures
            r@.len() == self.spec_targets().len(),
            forall|i: int|
                0 <= i < r@.len() ==> (#[trigger] r@[i]).name@ == self.spec_targets()[i].name@
                    && r@[i].throughput == self.spec_targets()[i].throughput,
    {
        let n = self.targets.len();
        let mut out: Vec<Flow> = Vec::new();
        let mut i: usize = 0;
        while i < n
            invariant
                i <= n,
                n == self.spec_targets().len(),
                out@.len() == i,
                forall|j: int|
                    0 <= j < i ==> (#[trigger] out@[j]).name@ == self.spec_targets()[j].name@
                        && out@[j].throughput == self.spec_targets()[j].throughput,
            decreases n - i,
        {
            out.push(self.targets.get(i).duplicate());
            i = i + 1;
        }
        out
    }

    /// The declared raw-source names.
    pub fn sources(&self) -> (r: &Vec<String>)
        ensures
            r@.map_values(|s: String| s@) == self.spec_sources(),
    {
        &self.sources
    }

    /// The declared merge-point names.
    pub fn merged(&self) -> (r: &Vec<String>)
        ensures
            r@.map_values(|s: String| s@) == self.spec_merged(),
    {
        &self.merged
    }

    /// Scales every target rate by `mult / SCALE`, clamped at the `u64` range.
    pub fn multiply(&mut self, mult: u64)
        requires
            old(self).wf(),
        ensures
            final(self).wf(),
            final(self).spec_targets().len() == old(self).spec_targets().len(),
            forall|i: int|
                0 <= i < old(self).spec_targets().len() ==> {
                    &&& (#[trigger] final(self).spec_targets()[i]).name@ == old(
                        self,
                    ).spec_targets()[i].name@
                    &&& final(self).spec_targets()[i].throughput == sat64(
                        old(self).spec_targets()[i].throughput * mult / (SCALE as int),
                    )
                },
            final(self).spec_sources() == old(self).spec_sources(),
            final(self).spec_merged() == old(self).spec_merged(),
    {
        let ghost pre = self.targets.view();
        let n = self.targets.entries.len();
        let mut i: usize = 0;
        while i < n
            invariant
                i <= n,
                n == self.targets.view().len(),
                self.targets.view().len() == pre.len(),
                self.sources@ == old(self).sources@,
                self.merged@ == old(self).merged@,
                forall|j: int|
                    i <= j < n ==> #[trigger] self.targets.view()[j] == pre[j],
                forall|j: int|
                    0 <= j < i ==> {
                        &&& (#[trigger] self.targets.view()[j]).name@ == pre[j].name@
                        &&& self.targets.view()[j].throughput == sat64(
                            pre[j].throughput * mult / (SCALE as int),
                        )
                    },
            decreases n - i,
        {
            let scaled = mul_div_floor(self.targets.entries[i].throughput, mult, SCALE);
            let name = self.targets.entries[i].name.clone();
            self.targets.entries.set(i, Flow { name, throughput: scaled });
            i = i + 1;
        }
        proof {
            assert forall|p: int, q: int|
                0 <= p < q < self.targets.view().len() implies crate::strings::lex_lt(
                self.targets.view()[p].name@,
                self.targets.view()[q].name@,
            ) by {
                assert(crate::strings::lex_lt(pre[p].name@, pre[q].name@));
            }
        }
    }
}

} // verus!
