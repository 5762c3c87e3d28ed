//! The resolver: drains the demand queue, expands each demand through its
//! first recipe, and accumulates raw inputs, merge points and missing items.
//!
//! Every function here terminates on every input.  The in-tree recursion
//! carries a budget one larger than any repeat-free expansion chain, so its
//! exhaustion certifies a first-recipe cycle ([`expansion_cycle`]); the
//! queue loop budgets only merged demands, the one kind that can come back
//! once drained.  A graph whose cycles no merge point breaks, or whose merge
//! points keep re-queueing one another, ends in
//! [`SolveError::ResolutionLimit`] instead of running away, and the solve
//! contract says so.

use crate::error::SolveError;
use crate::flows::{flow_names, rate_of, Flow, ItemThroughputs};
use crate::num::{
    div_ceil, mul_div_floor, sat64, scaled_div2, scaled_div_ceil, SCALE,
};
use crate::processer::{selected, ProcSet, Processer, ProcesserChoice};
use crate::recipe::{amount_of, has_amount, Recipe, RecipeSet};
use crate::solution::{
    process_has_merge_terminal, process_has_src_terminal, process_merge_sum, process_src_sum,
    source_has_merge_terminal, source_has_src_terminal, source_merge_sum, source_src_sum,
    sources_have_merge_terminal, sources_have_src_terminal, sources_merge_sum, sources_src_sum,
    throughput_is, Missing, Process, ProcessingTree, Solution, Source, Throughput,
};
use crate::strings::{lemma_lex_asym, lemma_lex_total, lex_lt, SortedNames};
use crate::target::TargetSettings;
use crate::tier::{item_tier, name_space};
use vstd::prelude::*;

verus! {

/// The read-only part of a solver: everything a resolution step consults but
/// never changes.
pub struct ResolveCfg {
    pub recipes: Seq<Recipe>,
    pub procs: Seq<Processer>,
    pub choice: ProcesserChoice,
    pub sources: Seq<Seq<char>>,
    pub merged: Seq<Seq<char>>,
    pub never_merged: Seq<Seq<char>>,
    pub all_merged: bool,
}

/// Whether the item is a declared raw source.
pub open spec fn cfg_is_source(cfg: ResolveCfg, n: Seq<char>) -> bool {
    cfg.sources.contains(n)
}

/// Whether demand for the item is merged across trees: never for an item in
/// the never-merge override, else when all items merge or the item is a
/// declared merge point.
pub open spec fn cfg_is_merged(cfg: ResolveCfg, n: Seq<char>) -> bool {
    !cfg.never_merged.contains(n) && (cfg.all_merged || cfg.merged.contains(n))
}

/// Whether any recipe produces the item.
pub open spec fn cfg_has_recipe(cfg: ResolveCfg, n: Seq<char>) -> bool {
    crate::recipe::producing(cfg.recipes, n).len() > 0
}

/// The recipe the solver uses for the item: the first producing one.
pub open spec fn cfg_first_recipe(cfg: ResolveCfg, n: Seq<char>) -> Recipe {
    crate::recipe::producing(cfg.recipes, n)[0]
}

/// An item that is neither a raw source nor producible: it degrades to an
/// implicit source and is reported as missing.
pub open spec fn cfg_missing(cfg: ResolveCfg, n: Seq<char>) -> bool {
    !cfg_is_source(cfg, n) && !cfg_has_recipe(cfg, n)
}

/// No machine in the catalog passes the policy filters for the first
/// recipe of some producible item: the configuration that forces a solve to
/// abort with [`SolveError::NoProcesser`].
pub open spec fn no_machine_for_some_recipe(cfg: ResolveCfg) -> bool {
    exists|m: Seq<char>|
        #[trigger] cfg_has_recipe(cfg, m) && (forall|i: int|
            0 <= i < cfg.procs.len() ==> !crate::processer::admissible(
                #[trigger] cfg.procs[i],
                cfg_first_recipe(cfg, m).spec_type(),
                cfg_first_recipe(cfg, m).spec_ingredients().len() as int,
                cfg_first_recipe(cfg, m).spec_material(),
                cfg.choice,
            ))
}

/// One step of an in-place expansion: the next item is an ingredient of the
/// first recipe of the previous one and is itself expanded in place — not a
/// raw source, not merged away, and produced by some recipe.
pub open spec fn cycle_link(cfg: ResolveCfg, top: Seq<char>, a: Seq<char>, b: Seq<char>) -> bool {
    &&& cfg_has_recipe(cfg, a)
    &&& !cfg_is_source(cfg, a)
    &&& crate::recipe::has_amount(cfg_first_recipe(cfg, a).spec_ingredients(), b)
    &&& !cfg_is_source(cfg, b)
    &&& !(cfg_is_merged(cfg, b) && b != top)
    &&& cfg_has_recipe(cfg, b)
}

/// A chain of expansion steps that returns to its start: the recipe-graph
/// shape on which in-place expansion cannot bottom out.
pub open spec fn expansion_cycle(cfg: ResolveCfg, top: Seq<char>, chain: Seq<Seq<char>>) -> bool {
    &&& chain.len() >= 2
    &&& chain[0] == chain.last()
    &&& forall|i: int|
        0 <= i < chain.len() - 1 ==> cycle_link(cfg, top, #[trigger] chain[i], chain[i + 1])
}

/// The items currently being expanded, outermost first: every entry is
/// producible and not a raw source, and consecutive entries are linked.
pub open spec fn path_ok(cfg: ResolveCfg, top: Seq<char>, path: Seq<Seq<char>>) -> bool {
    &&& forall|i: int|
        0 <= i < path.len() ==> cfg_has_recipe(cfg, #[trigger] path[i]) && !cfg_is_source(
            cfg,
            path[i],
        )
    &&& forall|i: int|
        0 <= i < path.len() - 1 ==> cycle_link(cfg, top, #[trigger] path[i], path[i + 1])
}

/// The expansion budget a catalog earns: one more than its total number of
/// (recipe, result) pairs, which no repeat-free expansion chain can reach.
pub open spec fn spec_fuel(rs: Seq<Recipe>) -> int {
    1 + crate::recipe::total_results(rs)
}

/// The pending items that, once drained, can never be re-queued.
pub open spec fn unmerged_pending(cfg: ResolveCfg, tgt: Seq<Flow>) -> Set<Seq<char>> {
    Set::new(|m: Seq<char>| flow_names(tgt).contains(m) && !cfg_is_merged(cfg, m))
}

/// What one resolved crafting step must look like, node by node.
///
/// The recipe is the first one producing the node's item; the machine is the
/// policy's best choice for the required crafting power; the craft rate and
/// machine count follow the fixed-point formulas; and each ingredient is
/// dispatched by kind — raw sources and unproducible items end in `Source`
/// terminals, merge points (other than the tree's own top item) end in
/// `Merged` terminals, and everything else recurses.
pub open spec fn wf_tree(cfg: ResolveCfg, p: Process, top: Seq<char>) -> bool
    decreases p, 0int,
{
    let n = p.throughput.spec_name();
    let rate = p.throughput.spec_rate();
    let r = cfg_first_recipe(cfg, n);
    let resnum = amount_of(r.spec_results(), n);
    let power = sat64(r.spec_cost() * rate / (resnum as int));
    &&& (p.throughput is Liquid <==> crate::solution::spec_is_liquid(n))
    &&& !cfg_is_source(cfg, n)
    &&& cfg_has_recipe(cfg, n)
    &&& exists|i: int|
        #[trigger] selected(
            cfg.procs,
            r.spec_type(),
            r.spec_ingredients().len() as int,
            r.spec_material(),
            cfg.choice,
            power,
            i,
        ) && p.processer == cfg.procs[i]
    &&& p.craft_per_sec == sat64(
        rate * SCALE * SCALE / (p.processer.spec_productivity() * resnum),
    )
    &&& p.processer_num == sat64(
        div_ceil(r.spec_cost() * p.craft_per_sec, SCALE * p.processer.spec_speed()),
    )
    &&& p.sources@.len() == r.spec_ingredients().len()
    &&& forall|i: int|
        0 <= i < p.sources@.len() ==> wf_child(
            cfg,
            r.spec_ingredients()[i],
            p.craft_per_sec,
            #[trigger] p.sources@[i],
            top,
        )
}

/// Where a demand for one item at one rate must have gone.
pub open spec fn wf_dispatch(
    cfg: ResolveCfg,
    cn: Seq<char>,
    rate: u64,
    s: Source,
    top: Seq<char>,
) -> bool
    decreases s, 1int,
{
    if cfg_is_source(cfg, cn) {
        s matches Source::Source(t) && throughput_is(t, cn, rate)
    } else if cfg_is_merged(cfg, cn) && cn != top {
        s matches Source::Merged(t) && throughput_is(t, cn, rate)
    } else if cfg_has_recipe(cfg, cn) {
        s matches Source::Process(p2) && p2.throughput.spec_name() == cn
            && p2.throughput.spec_rate() == rate && wf_tree(cfg, p2, top)
    } else {
        s matches Source::Source(t) && throughput_is(t, cn, rate)
    }
}

/// Where one ingredient demand must have gone: its rate is the per-craft
/// quantity times the craft rate.
pub open spec fn wf_child(
    cfg: ResolveCfg,
    ing: crate::recipe::ItemAmount,
    craft: u64,
    s: Source,
    top: Seq<char>,
) -> bool
    decreases s, 2int,
{
    wf_dispatch(cfg, ing.name@, sat64(ing.num * craft / (SCALE as int)), s, top)
}

/// How many demands one solve may drain before giving up: a generous bound
/// that only pathological merge cycles can reach.
pub const MAX_RESOLVE_STEPS: u64 = 1_000_000;

/// The running conservation ledger: for every item whose involved sums fit
/// in `u64`, what the accumulator and queue hold balances what the initial
/// demands, the forest's terminals and the forest's roots say.
pub open spec fn ledger_cond(
    init: Seq<Flow>,
    init_sth: Seq<Flow>,
    trees: Seq<ProcessingTree>,
    n: Seq<char>,
) -> bool {
    rate_of(init_sth, n) + rate_of(init, n) + crate::solution::forest_merge_sum(trees, n)
        + crate::solution::forest_src_sum(trees, n) <= u64::MAX
}

/// See [`ledger_cond`] for when the balance is claimed.
pub open spec fn ledger_ok(
    init: Seq<Flow>,
    init_sth: Seq<Flow>,
    trees: Seq<ProcessingTree>,
    sth: Seq<Flow>,
    tgt: Seq<Flow>,
) -> bool {
    forall|n: Seq<char>|
        #[trigger] ledger_cond(init, init_sth, trees, n) ==> rate_of(sth, n) + rate_of(tgt, n)
            + crate::solution::forest_root_sum(trees, n) == crate::solution::forest_src_sum(
            trees,
            n,
        ) + rate_of(init, n) + crate::solution::forest_merge_sum(trees, n) + rate_of(init_sth, n)
}

/// Why an item can be in the missing set: it was asked for initially, or
/// some tree draws it from outside, or some tree re-queued it.
pub open spec fn missing_evidence(
    init: Seq<Flow>,
    trees: Seq<ProcessingTree>,
    m: Seq<char>,
) -> bool {
    ||| flow_names(init).contains(m)
    ||| crate::solution::forest_has_src_terminal(trees, m)
    ||| crate::solution::forest_has_merge_terminal(trees, m)
}

/// Everything recorded missing really is missing and was really demanded.
pub open spec fn missing_sound(
    cfg: ResolveCfg,
    init: Seq<Flow>,
    init_mis: Seq<Seq<char>>,
    trees: Seq<ProcessingTree>,
    mis: Seq<Seq<char>>,
) -> bool {
    forall|m: Seq<char>|
        #[trigger] mis.contains(m) ==> init_mis.contains(m) || (cfg_missing(cfg, m)
            && missing_evidence(init, trees, m))
}

/// Every demanded missing item whose demand is no longer pending is
/// recorded.
pub open spec fn missing_complete(
    cfg: ResolveCfg,
    init: Seq<Flow>,
    trees: Seq<ProcessingTree>,
    mis: Seq<Seq<char>>,
    tgt: Seq<Flow>,
) -> bool {
    forall|m: Seq<char>|
        cfg_missing(cfg, m) && #[trigger] missing_evidence(init, trees, m) && !flow_names(
            tgt,
        ).contains(m) ==> mis.contains(m)
}

/// Every pending demand was asked for initially or re-queued by a tree.
pub open spec fn queue_from(
    init: Seq<Flow>,
    trees: Seq<ProcessingTree>,
    tgt: Seq<Flow>,
) -> bool {
    forall|m: Seq<char>|
        #[trigger] flow_names(tgt).contains(m) ==> flow_names(init).contains(m)
            || crate::solution::forest_has_merge_terminal(trees, m)
}

/// The resolver: drains demands in priority order and builds the plan.
pub struct Solver {
    pub(crate) targets: ItemThroughputs,
    pub(crate) recipe_set: RecipeSet,
    pub(crate) sources: SortedNames,
    pub(crate) merged: SortedNames,
    pub(crate) all_merged: bool,
    pub(crate) never_merged: SortedNames,
    pub(crate) processer_set: ProcSet,
    pub(crate) processer_choice: ProcesserChoice,
    pub(crate) source_throughputs: ItemThroughputs,
    pub(crate) tier_map: ItemThroughputs,
    pub(crate) missings: SortedNames,
}

impl Solver {
    /// The solver's read-only configuration.
    pub open(crate) spec fn cfg(&self) -> ResolveCfg {
        ResolveCfg {
            recipes: self.recipe_set.spec_recipes(),
            procs: self.processer_set.spec_processers(),
            choice: self.processer_choice,
            sources: self.sources.view(),
            merged: self.merged.view(),
            never_merged: self.never_merged.view(),
            all_merged: self.all_merged,
        }
    }

    /// The pending demands.
    pub open(crate) spec fn spec_targets(&self) -> Seq<Flow> {
        self.targets.view()
    }

    /// The accumulated raw-source rates.
    pub open(crate) spec fn spec_source_throughputs(&self) -> Seq<Flow> {
        self.source_throughputs.view()
    }

    /// The recorded missing items.
    pub open(crate) spec fn spec_missings(&self) -> Seq<Seq<char>> {
        self.missings.view()
    }

    /// The per-item tier table.
    pub open(crate) spec fn spec_tier_map(&self) -> Seq<Flow> {
        self.tier_map.view()
    }

    /// Every mutable part keeps its sorted, duplicate-free shape.
    pub open(crate) spec fn wf(&self) -> bool {
        &&& self.targets.wf()
        &&& self.source_throughputs.wf()
        &&& self.tier_map.wf()
        &&& self.sources.wf()
        &&& self.merged.wf()
        &&& self.never_merged.wf()
        &&& self.missings.wf()
    }

    /// The tier table maps every known item name to its tier.
    pub open(crate) spec fn tier_map_ok(&self) -> bool {
        forall|n: Seq<char>|
            #[trigger] rate_of(self.tier_map.view(), n) == if name_space(
                self.recipe_set.spec_recipes(),
            ).contains(n) {
                item_tier(
                    self.recipe_set.spec_recipes(),
                    self.sources.view().to_set(),
                    Set::<Seq<char>>::empty(),
                    n,
                )
            } else {
                0u64
            }
    }

    /// A fresh solver over the given catalogs, targets and policy.
    ///
    /// The demand queue starts with the accumulated targets; the tier of
    /// every item any recipe mentions is computed up front.
    pub fn new(
        recipe_set: RecipeSet,
        target_settings: &TargetSettings,
        processer_set: ProcSet,
        processer_choice: ProcesserChoice,
    ) -> (r: Solver)
        requires
            target_settings.wf(),
        ensures
            r.wf(),
            r.tier_map_ok(),
            r.cfg().recipes == recipe_set.spec_recipes(),
            r.cfg().procs == processer_set.spec_processers(),
            r.cfg().choice == processer_choice,
            forall|m: Seq<char>|
                #[trigger] r.cfg().sources.contains(m) == target_settings.spec_sources().contains(
                    m,
                ),
            forall|m: Seq<char>|
                #[trigger] r.cfg().merged.contains(m) == target_settings.spec_merged().contains(m),
            r.cfg().never_merged =~= Seq::<Seq<char>>::empty(),
            r.cfg().all_merged == false,
            r.spec_targets() =~= target_settings.spec_targets(),
            r.spec_source_throughputs() =~= Seq::<Flow>::empty(),
            r.spec_missings() =~= Seq::<Seq<char>>::empty(),
    {
        let sources = SortedNames::from_names(crate::strings::clone_names(
            target_settings.sources(),
        ));
        let merged = SortedNames::from_names(crate::strings::clone_names(target_settings.merged()));
        let tier_map = build_tier_map(&recipe_set, &sources);
        Solver {
            targets: target_settings.targets_map(),
            recipe_set,
            sources,
            merged,
            all_merged: false,
            never_merged: SortedNames::new(),
            processer_set,
            processer_choice,
            source_throughputs: ItemThroughputs::new(),
            tier_map,
            missings: SortedNames::new(),
        }
    }

    /// Turns merging every intermediate on or off.
    pub fn all_merged(&mut self, flag: bool)
        ensures
            final(self).cfg() == (ResolveCfg { all_merged: flag, ..old(self).cfg() }),
            final(self).spec_targets() == old(self).spec_targets(),
            final(self).spec_source_throughputs() == old(self).spec_source_throughputs(),
            final(self).spec_missings() == old(self).spec_missings(),
            final(self).spec_tier_map() == old(self).spec_tier_map(),
            final(self).wf() == old(self).wf(),
            old(self).tier_map_ok() ==> final(self).tier_map_ok(),
    {
        self.all_merged = flag;
        proof {
            if old(self).tier_map_ok() {
                assert forall|n: Seq<char>|
                    #[trigger] rate_of(self.tier_map.view(), n) == if name_space(
                        self.recipe_set.spec_recipes(),
                    ).contains(n) {
                        item_tier(
                            self.recipe_set.spec_recipes(),
                            self.sources.view().to_set(),
                            Set::<Seq<char>>::empty(),
                            n,
                        )
                    } else {
                        0u64
                    } by {
                    assert(rate_of(old(self).tier_map.view(), n) == if name_space(
                        old(self).recipe_set.spec_recipes(),
                    ).contains(n) {
                        item_tier(
                            old(self).recipe_set.spec_recipes(),
                            old(self).sources.view().to_set(),
                            Set::<Seq<char>>::empty(),
                            n,
                        )
                    } else {
                        0u64
                    });
                }
            }
        }
    }

    /// Declares the names whose demand must never merge, overriding both the
    /// global flag and the per-name declarations.
    pub fn never_merged(&mut self, names: Vec<String>)
        ensures
            forall|m: Seq<char>|
                #[trigger] final(self).cfg().never_merged.contains(m) == names@.map_values(
                    |s: String| s@,
                ).contains(m),
            final(self).cfg().recipes == old(self).cfg().recipes,
            final(self).cfg().procs == old(self).cfg().procs,
            final(self).cfg().choice == old(self).cfg().choice,
            final(self).cfg().sources == old(self).cfg().sources,
            final(self).cfg().merged == old(self).cfg().merged,
            final(self).cfg().all_merged == old(self).cfg().all_merged,
            final(self).spec_targets() == old(self).spec_targets(),
            final(self).spec_source_throughputs() == old(self).spec_source_throughputs(),
            final(self).spec_missings() == old(self).spec_missings(),
            final(self).spec_tier_map() == old(self).spec_tier_map(),
            old(self).wf() ==> final(self).wf(),
            old(self).tier_map_ok() ==> final(self).tier_map_ok(),
    {
        self.never_merged = SortedNames::from_names(names);
        proof {
            if old(self).tier_map_ok() {
                assert forall|n: Seq<char>|
                    #[trigger] rate_of(self.tier_map.view(), n) == if name_space(
                        self.recipe_set.spec_recipes(),
                    ).contains(n) {
                        item_tier(
                            self.recipe_set.spec_recipes(),
                            self.sources.view().to_set(),
                            Set::<Seq<char>>::empty(),
                            n,
                        )
                    } else {
                        0u64
                    } by {
                    assert(rate_of(old(self).tier_map.view(), n) == if name_space(
                        old(self).recipe_set.spec_recipes(),
                    ).contains(n) {
                        item_tier(
                            old(self).recipe_set.spec_recipes(),
                            old(self).sources.view().to_set(),
                            Set::<Seq<char>>::empty(),
                            n,
                        )
                    } else {
                        0u64
                    });
                }
            }
        }
    }

    /// Extraction order: non-merged items first, then deeper tiers, then the
    /// earlier name.
    pub open(crate) spec fn pick_le(&self, a: Seq<char>, b: Seq<char>) -> bool {
        let ma = self.merged.view().contains(a);
        let mb = self.merged.view().contains(b);
        if ma != mb {
            !ma
        } else {
            let ta = rate_of(self.tier_map.view(), a);
            let tb = rate_of(self.tier_map.view(), b);
            ta > tb || (ta == tb && (a == b || lex_lt(a, b)))
        }
    }

    /// Whether `a` is picked strictly before `b`.
    fn pick_before(&self, a: &str, b: &str) -> (r: bool)
        ensures
            r == (self.pick_le(a@, b@) && a@ != b@),
    {
        proof {
            lemma_lex_asym(a@, b@);
        }
        let ma = self.merged.contains(a);
        let mb = self.merged.contains(b);
        if ma != mb {
            return !ma;
        }
        let ta = self.tier_map.rate(a);
        let tb = self.tier_map.rate(b);
        if ta > tb {
            return true;
        }
        if ta < tb {
            return false;
        }
        crate::strings::str_lt(a, b)
    }

    /// Removes and returns the demand to resolve next, if any is pending:
    /// the least entry in extraction order.
    fn next_target(&mut self) -> (r: Option<Flow>)
        requires
            old(self).wf(),
        ensures
            final(self).wf(),
            match r {
                None => *final(self) == *old(self) && old(self).spec_targets().len() == 0,
                Some(f) => {
                    &&& flow_names(old(self).spec_targets()).contains(f.name@)
                    &&& f.throughput == rate_of(old(self).spec_targets(), f.name@)
                    &&& forall|m: Seq<char>|
                        #[trigger] flow_names(old(self).spec_targets()).contains(m) ==> old(
                            self,
                        ).pick_le(f.name@, m)
                    &&& forall|m: Seq<char>|
                        rate_of(final(self).spec_targets(), m) == if m == f.name@ {
                            0u64
                        } else {
                            rate_of(old(self).spec_targets(), m)
                        }
                    &&& forall|m: Seq<char>|
                        #[trigger] flow_names(final(self).spec_targets()).contains(m) == (
                        flow_names(old(self).spec_targets()).contains(m) && m != f.name@)
                    &&& final(self).recipe_set == old(self).recipe_set
                    &&& final(self).sources == old(self).sources
                    &&& final(self).merged == old(self).merged
                    &&& final(self).all_merged == old(self).all_merged
                    &&& final(self).never_merged == old(self).never_merged
                    &&& final(self).processer_set == old(self).processer_set
                    &&& final(self).processer_choice == old(self).processer_choice
                    &&& final(self).source_throughputs == old(self).source_throughputs
                    &&& final(self).tier_map == old(self).tier_map
                    &&& final(self).missings == old(self).missings
                },
            },
    {
        let n = self.targets.len();
        if n == 0 {
            return None;
        }
        let ghost ts = self.spec_targets();
        let mut best: usize = 0;
        let mut k: usize = 1;
        while k < n
            invariant
                1 <= k <= n,
                n == ts.len(),
                ts == self.spec_targets(),
                best < k,
                forall|j: int| 0 <= j < k ==> self.pick_le(ts[best as int].name@, #[trigger] ts[j].name@),
            decreases n - k,
        {
            if self.pick_before(self.targets.get(k).name.as_str(), self.targets.get(best).name.as_str()) {
                proof {
                    assert forall|j: int|
                        0 <= j < k + 1 implies self.pick_le(
                        ts[k as int].name@,
                        #[trigger] ts[j].name@,
                    ) by {
                        if j < k {
                            lemma_pick_trans(self, ts[k as int].name@, ts[best as int].name@, ts[j].name@);
                        } else {
                            lemma_pick_refl(self, ts[k as int].name@);
                        }
                    }
                }
                best = k;
            } else {
                proof {
                    lemma_pick_total(self, ts[best as int].name@, ts[k as int].name@);
                }
            }
            k = k + 1;
        }
        let best_name = self.targets.get(best).name.clone();
        proof {
            assert(flow_names(ts)[best as int] == best_name@);
            assert forall|m: Seq<char>|
                #[trigger] flow_names(ts).contains(m) implies self.pick_le(best_name@, m) by {
                let j = choose|j: int| 0 <= j < flow_names(ts).len() && flow_names(ts)[j] == m;
                assert(ts[j].name@ == m);
            }
        }
        let f = self.targets.take(best_name.as_str());
        proof {
            assert(f.name@ == best_name@);
            assert forall|m: Seq<char>|
                rate_of(self.spec_targets(), m) == (if m == f.name@ {
                    0u64
                } else {
                    rate_of(old(self).spec_targets(), m)
                }) by {
                assert(self.targets.spec_rate(m) == if m == f.name@ {
                    0u64
                } else {
                    old(self).targets.spec_rate(m)
                });
            }
            assert forall|m: Seq<char>| #[trigger]
                flow_names(self.spec_targets()).contains(m) == (flow_names(
                    old(self).spec_targets(),
                ).contains(m) && m != f.name@) by {
                assert(self.targets.spec_has(m) == (old(self).targets.spec_has(m) && m
                    != f.name@));
            }
        }
        Some(f)
    }
}

impl Solver {
    /// Resolves one demand into at most one crafting step.
    ///
    /// A raw source, or an item no recipe produces, only accumulates into the
    /// source throughputs (and, when unproducible, into the missing set) and
    /// yields no step.  Otherwise the first producing recipe is expanded: the
    /// best machine is chosen, the craft rate and machine count computed, and
    /// every ingredient re-demanded through [`Self::solve_source`].
    fn solve_one(&mut self, t: Flow, top: &str, fuel: u64, path: Ghost<Seq<Seq<char>>>) -> (r:
        Result<Option<Process>, SolveError>)
        requires
            old(self).wf(),
            path_ok(old(self).cfg(), top@, path@),
            path@.len() > 0 ==> crate::recipe::has_amount(
                cfg_first_recipe(old(self).cfg(), path@.last()).spec_ingredients(),
                t.name@,
            ) && !(cfg_is_merged(old(self).cfg(), t.name@) && t.name@ != top@),
            fuel + path@.len() >= sat64(spec_fuel(old(self).cfg().recipes)),
        ensures
            final(self).wf(),
            final(self).cfg() == old(self).cfg(),
            final(self).spec_tier_map() == old(self).spec_tier_map(),
            forall|m: Seq<char>|
                #[trigger] flow_names(final(self).spec_source_throughputs()).contains(m)
                    ==> flow_names(old(self).spec_source_throughputs()).contains(m)
                    || cfg_is_source(old(self).cfg(), m) || cfg_missing(old(self).cfg(), m),
            r matches Err(e) ==> (e == SolveError::NoProcesser
                ==> no_machine_for_some_recipe(old(self).cfg())) && (e
                == SolveError::ResolutionLimit ==> (exists|chain: Seq<Seq<char>>|
                expansion_cycle(old(self).cfg(), top@, chain)) || spec_fuel(
                old(self).cfg().recipes,
            ) > u64::MAX),
            match r {
                Err(_) => true,
                Ok(None) => {
                    &&& cfg_is_source(old(self).cfg(), t.name@) || cfg_missing(
                        old(self).cfg(),
                        t.name@,
                    )
                    &&& forall|m: Seq<char>|
                        rate_of(final(self).spec_source_throughputs(), m) == if m == t.name@ {
                            sat64(rate_of(old(self).spec_source_throughputs(), m) + t.throughput)
                        } else {
                            rate_of(old(self).spec_source_throughputs(), m)
                        }
                    &&& forall|m: Seq<char>|
                        #[trigger] flow_names(final(self).spec_source_throughputs()).contains(m)
                            == (flow_names(old(self).spec_source_throughputs()).contains(m) || m
                            == t.name@)
                    &&& final(self).spec_targets() == old(self).spec_targets()
                    &&& forall|m: Seq<char>|
                        #[trigger] final(self).spec_missings().contains(m) == (old(
                            self,
                        ).spec_missings().contains(m) || (m == t.name@ && cfg_missing(
                            old(self).cfg(),
                            m,
                        )))
                },
                Ok(Some(p)) => {
                    &&& !cfg_is_source(old(self).cfg(), t.name@)
                    &&& cfg_has_recipe(old(self).cfg(), t.name@)
                    &&& wf_tree(old(self).cfg(), p, top@)
                    &&& p.throughput.spec_name() == t.name@
                    &&& p.throughput.spec_rate() == t.throughput
                    &&& forall|m: Seq<char>|
                        rate_of(final(self).spec_source_throughputs(), m) == sat64(
                            rate_of(old(self).spec_source_throughputs(), m) + process_src_sum(
                                p,
                                m,
                            ),
                        )
                    &&& forall|m: Seq<char>|
                        #[trigger] flow_names(final(self).spec_source_throughputs()).contains(m)
                            == (flow_names(old(self).spec_source_throughputs()).contains(m)
                            || process_has_src_terminal(p, m))
                    &&& forall|m: Seq<char>|
                        rate_of(final(self).spec_targets(), m) == sat64(
                            rate_of(old(self).spec_targets(), m) + process_merge_sum(p, m),
                        )
                    &&& forall|m: Seq<char>|
                        #[trigger] flow_names(final(self).spec_targets()).contains(m) == (
                        flow_names(old(self).spec_targets()).contains(m)
                            || process_has_merge_terminal(p, m))
                    &&& forall|m: Seq<char>|
                        #[trigger] final(self).spec_missings().contains(m) == (old(
                            self,
                        ).spec_missings().contains(m) || (process_has_src_terminal(p, m)
                            && cfg_missing(old(self).cfg(), m)))
                },
            },
        decreases fuel, 0int,
    {
        let ghost cfg0 = self.cfg();
        if fuel == 0 {
            proof {
                lemma_long_path_has_cycle(cfg0, top@, path@);
            }
            return Err(SolveError::ResolutionLimit);
        }
        if self.sources.contains(t.name.as_str()) {
            let ghost tn = t.name@;
            let ghost trate = t.throughput;
            self.source_throughputs.add(t);
            proof {
                lemma_state_after_terminal(old(self), self, tn, trate);
            }
            return Ok(None);
        }
        let found = {
            let recipes = self.recipe_set.find_recipes(t.name.as_str());
            recipes.len() > 0
        };
        if !found {
            let ghost tn = t.name@;
            let ghost trate = t.throughput;
            self.missings.insert(t.name.clone());
            self.source_throughputs.add(t);
            proof {
                lemma_state_after_terminal(old(self), self, tn, trate);
                assert forall|m: Seq<char>|
                    #[trigger] self.spec_missings().contains(m) == (old(
                        self,
                    ).spec_missings().contains(m) || (m == tn && cfg_missing(
                        old(self).cfg(),
                        m,
                    ))) by {}
            }
            return Ok(None);
        }
        // Expand through the first recipe that produces the item.
        let (rtype, cost, material, ing_count, resnum, ings) = {
            let recipes = self.recipe_set.find_recipes(t.name.as_str());
            let r0 = recipes[0];
            proof {
                use_type_invariant(r0);
                assert(*r0 == cfg_first_recipe(cfg0, t.name@)) by {
                    assert(recipes@.map_values(|x: &Recipe| *x)[0] == *recipes@[0]);
                }
                crate::recipe::lemma_producing_members(cfg0.recipes, t.name@);
                assert(has_amount(r0.spec_results(), t.name@));
                crate::recipe::lemma_amount_positive(r0.spec_results(), t.name@);
            }
            (
                r0.recipe_type().to_owned(),
                r0.cost(),
                r0.is_material(),
                r0.ingredients_count(),
                r0.result_num(t.name.as_str()),
                crate::recipe::clone_amounts(r0.ingredients()),
            )
        };
        let ghost r_spec = cfg_first_recipe(cfg0, t.name@);
        let power = mul_div_floor(cost, t.throughput, resnum);
        let processer = {
            match self.processer_set.best_processer(
                rtype.as_str(),
                ing_count,
                material,
                power,
                &self.processer_choice,
            ) {
                Ok(p) => p.duplicate(),
                Err(e) => {
                    proof {
                        assert(no_machine_for_some_recipe(cfg0)) by {
                            assert(cfg_has_recipe(cfg0, t.name@));
                            assert(forall|i: int|
                                0 <= i < cfg0.procs.len() ==> !crate::processer::admissible(
                                    #[trigger] cfg0.procs[i],
                                    cfg_first_recipe(cfg0, t.name@).spec_type(),
                                    cfg_first_recipe(cfg0, t.name@).spec_ingredients().len() as int,
                                    cfg_first_recipe(cfg0, t.name@).spec_material(),
                                    cfg0.choice,
                                ));
                        }
                    }
                    return Err(e);
                },
            }
        };
        proof {
            use_type_invariant(&processer);
        }
        let ghost sel_i: int = choose|i: int|
            #[trigger] selected(
                cfg0.procs,
                rtype@,
                ing_count as int,
                material,
                cfg0.choice,
                power,
                i,
            ) && processer == cfg0.procs[i];
        proof {
            assert(selected(
                cfg0.procs,
                rtype@,
                ing_count as int,
                material,
                cfg0.choice,
                power,
                sel_i,
            ) && processer == cfg0.procs[sel_i]);
        }
        let craft = scaled_div2(t.throughput, processer.productivity(), resnum);
        let unit_count = scaled_div_ceil(cost, craft, processer.speed());
        let ghost path2 = path@.push(t.name@);
        proof {
            assert(path_ok(cfg0, top@, path2)) by {
                assert(forall|i: int| 0 <= i < path@.len() ==> #[trigger] path2[i] == path@[i]);
                assert(path2[path@.len() as int] == t.name@);
                if path@.len() > 0 {
                    assert(cycle_link(cfg0, top@, path@.last(), t.name@));
                    assert(path2[path@.len() - 1] == path@.last());
                }
            }
        }
        let n_ings = ings.len();
        let mut child_sources: Vec<Source> = Vec::new();
        let mut k: usize = 0;
        while k < n_ings
            invariant
                k <= n_ings,
                fuel >= 1,
                path2 == path@.push(t.name@),
                path_ok(cfg0, top@, path2),
                path2.last() == t.name@,
                r_spec == cfg_first_recipe(cfg0, t.name@),
                fuel - 1 + path2.len() >= sat64(spec_fuel(cfg0.recipes)),
                n_ings == ings@.len(),
                ings@ =~= r_spec.spec_ingredients(),
                self.wf(),
                self.cfg() == cfg0,
                cfg0 == old(self).cfg(),
                self.spec_tier_map() == old(self).spec_tier_map(),
                child_sources@.len() == k,
                forall|i: int|
                    0 <= i < k ==> wf_child(
                        cfg0,
                        r_spec.spec_ingredients()[i],
                        craft,
                        #[trigger] child_sources@[i],
                        top@,
                    ),
                forall|m: Seq<char>|
                    rate_of(self.spec_source_throughputs(), m) == sat64(
                        rate_of(old(self).spec_source_throughputs(), m) + sources_src_sum(
                            child_sources@,
                            m,
                        ),
                    ),
                forall|m: Seq<char>|
                    #[trigger] flow_names(self.spec_source_throughputs()).contains(m) == (
                    flow_names(old(self).spec_source_throughputs()).contains(m)
                        || sources_have_src_terminal(child_sources@, m)),
                forall|m: Seq<char>|
                    rate_of(self.spec_targets(), m) == sat64(
                        rate_of(old(self).spec_targets(), m) + sources_merge_sum(
                            child_sources@,
                            m,
                        ),
                    ),
                forall|m: Seq<char>|
                    #[trigger] flow_names(self.spec_targets()).contains(m) == (flow_names(
                        old(self).spec_targets(),
                    ).contains(m) || sources_have_merge_terminal(child_sources@, m)),
                forall|m: Seq<char>|
                    #[trigger] self.spec_missings().contains(m) == (old(
                        self,
                    ).spec_missings().contains(m) || (sources_have_src_terminal(child_sources@, m)
                        && cfg_missing(cfg0, m))),
                forall|m: Seq<char>|
                    #[trigger] flow_names(self.spec_source_throughputs()).contains(m)
                        ==> flow_names(old(self).spec_source_throughputs()).contains(m)
                        || cfg_is_source(cfg0, m) || cfg_missing(cfg0, m),
            decreases n_ings - k,
        {
            let child_rate = mul_div_floor(ings[k].num, craft, SCALE);
            let child = Flow { name: ings[k].name.clone(), throughput: child_rate };
            proof {
                assert(cfg_first_recipe(cfg0, path2.last()) == r_spec);
                assert(has_amount(r_spec.spec_ingredients(), child.name@)) by {
                    let names = crate::recipe::amount_names(r_spec.spec_ingredients());
                    assert(names[k as int] == r_spec.spec_ingredients()[k as int].name@);
                    assert(names[k as int] == child.name@);
                    assert(names.contains(child.name@));
                }
            }
            let ghost mid = *self;
            let ghost pre_sources = child_sources@;
            let s = match self.solve_source(child, top, fuel - 1, Ghost(path2)) {
                Ok(s) => s,
                Err(e) => {
                    return Err(e);
                },
            };
            proof {
                lemma_child_step(
                    old(self),
                    &mid,
                    self,
                    pre_sources,
                    s,
                    cfg0,
                    r_spec,
                    craft,
                    k as int,
                    top@,
                );
            }
            child_sources.push(s);
            k = k + 1;
        }
        let process = Process {
            throughput: Throughput::new(t.name, t.throughput),
            processer,
            processer_num: unit_count,
            craft_per_sec: craft,
            sources: child_sources,
        };
        proof {
            let n = process.throughput.spec_name();
            assert(n == t.name@);
            assert(process.throughput.spec_rate() == t.throughput);
            let rr = cfg_first_recipe(cfg0, n);
            assert(rr == r_spec);
            let resnum_s = amount_of(rr.spec_results(), n);
            assert(resnum_s == resnum);
            let power_s = sat64(rr.spec_cost() * process.throughput.spec_rate() / (
            resnum_s as int));
            assert(power_s == power);
            assert(rtype@ == rr.spec_type());
            assert(ing_count as int == rr.spec_ingredients().len() as int);
            assert(selected(
                cfg0.procs,
                rr.spec_type(),
                rr.spec_ingredients().len() as int,
                rr.spec_material(),
                cfg0.choice,
                power_s,
                sel_i,
            ) && process.processer == cfg0.procs[sel_i]);
            assert(exists|i: int|
                #[trigger] selected(
                    cfg0.procs,
                    rr.spec_type(),
                    rr.spec_ingredients().len() as int,
                    rr.spec_material(),
                    cfg0.choice,
                    power_s,
                    i,
                ) && process.processer == cfg0.procs[i]);
            assert(process.craft_per_sec == sat64(
                process.throughput.spec_rate() * SCALE * SCALE / (
                process.processer.spec_productivity() * resnum_s),
            ));
            assert(process.processer_num == sat64(
                div_ceil(rr.spec_cost() * process.craft_per_sec, SCALE * process.processer.spec_speed()),
            ));
            assert(process.sources@.len() == rr.spec_ingredients().len());
            assert(wf_tree(cfg0, process, top@));
        }
        Ok(Some(process))
    }

    /// Resolves every pending demand and returns the finished plan.
    ///
    /// Demands are drained in extraction order; each becomes one processing
    /// tree, or only accumulates when it is a raw source or unproducible.
    /// The result carries the trees, one throughput per accumulated
    /// raw-source item, and the missing items with name suggestions.
    ///
    /// A solve fails only for cause: when no machine passes the policy for
    /// some producible item's first recipe, when the recipe graph holds an
    /// expansion cycle no merge point breaks, or when merge points keep
    /// re-queueing one another past the step budget.
    pub fn solve(&mut self) -> (r: Result<Solution, SolveError>)
        requires
            old(self).wf(),
        ensures
            final(self).wf(),
            final(self).cfg() == old(self).cfg(),
            final(self).spec_tier_map() == old(self).spec_tier_map(),
            forall|m: Seq<char>|
                #[trigger] flow_names(final(self).spec_source_throughputs()).contains(m)
                    ==> flow_names(old(self).spec_source_throughputs()).contains(m)
                    || cfg_is_source(old(self).cfg(), m) || cfg_missing(old(self).cfg(), m),
            r matches Err(e) ==> (e == SolveError::NoProcesser
                ==> no_machine_for_some_recipe(old(self).cfg())) && (e
                == SolveError::ResolutionLimit ==> (exists|top: Seq<char>, chain: Seq<Seq<char>>|
                expansion_cycle(old(self).cfg(), top, chain)) || spec_fuel(
                old(self).cfg().recipes,
            ) > u64::MAX || (exists|m: Seq<char>|
                cfg_is_merged(old(self).cfg(), m) && #[trigger] flow_names(
                    final(self).spec_targets(),
                ).contains(m))),
            match r {
                Err(_) => true,
                Ok(sol) => {
                    &&& forall|i: int|
                        0 <= i < sol.trees@.len() ==> wf_tree(
                            old(self).cfg(),
                            (#[trigger] sol.trees@[i]).process,
                            sol.trees@[i].process.throughput.spec_name(),
                        )
                    &&& final(self).spec_targets().len() == 0
                    &&& forall|n: Seq<char>|
                        #[trigger] ledger_cond(
                            old(self).spec_targets(),
                            old(self).spec_source_throughputs(),
                            sol.trees@,
                            n,
                        ) ==> rate_of(final(self).spec_source_throughputs(), n)
                            == crate::solution::forest_src_sum(sol.trees@, n) + rate_of(
                            old(self).spec_targets(),
                            n,
                        ) + crate::solution::forest_merge_sum(sol.trees@, n) + rate_of(
                            old(self).spec_source_throughputs(),
                            n,
                        ) - crate::solution::forest_root_sum(sol.trees@, n)
                    &&& forall|m: Seq<char>|
                        #[trigger] final(self).spec_missings().contains(m) == (old(
                            self,
                        ).spec_missings().contains(m) || (cfg_missing(old(self).cfg(), m)
                            && missing_evidence(old(self).spec_targets(), sol.trees@, m)))
                    &&& forall|m: Seq<char>|
                        #[trigger] flow_names(final(self).spec_source_throughputs()).contains(m)
                            ==> flow_names(old(self).spec_source_throughputs()).contains(m)
                            || missing_evidence(old(self).spec_targets(), sol.trees@, m)
                    &&& sol.sources@.len() == final(self).spec_source_throughputs().len()
                    &&& forall|i: int|
                        0 <= i < sol.sources@.len() ==> throughput_is(
                            #[trigger] sol.sources@[i],
                            final(self).spec_source_throughputs()[i].name@,
                            final(self).spec_source_throughputs()[i].throughput,
                        )
                    &&& sol.missings@.len() == final(self).spec_missings().len()
                    &&& forall|i: int|
                        0 <= i < sol.missings@.len() ==> (#[trigger] sol.missings@[i]).name@
                            == final(self).spec_missings()[i]
                            && crate::near_name::suggestions_ok(
                            old(self).cfg().recipes,
                            sol.missings@[i].name@,
                            sol.missings@[i].candidates@,
                        )
                    &&& forall|i: int, j: int|
                        0 <= i < j < sol.missings@.len() ==> lex_lt(
                            (#[trigger] sol.missings@[i]).name@,
                            (#[trigger] sol.missings@[j]).name@,
                        )
                    &&& forall|i: int, j: int|
                        0 <= i < j < sol.sources@.len() ==> lex_lt(
                            (#[trigger] sol.sources@[i]).spec_name(),
                            (#[trigger] sol.sources@[j]).spec_name(),
                        )
                },
            },
    {
        let ghost cfg0 = self.cfg();
        let ghost init = self.spec_targets();
        let ghost init_sth = self.spec_source_throughputs();
        let ghost init_mis = self.spec_missings();
        let fuel = self.expansion_fuel();
        let mut steps: u64 = MAX_RESOLVE_STEPS;
        let mut trees: Vec<ProcessingTree> = Vec::new();
        loop
            invariant
                self.wf(),
                self.cfg() == cfg0,
                cfg0 == old(self).cfg(),
                init == old(self).spec_targets(),
                fuel == sat64(spec_fuel(cfg0.recipes)),
                self.spec_tier_map() == old(self).spec_tier_map(),
                forall|i: int|
                    0 <= i < trees@.len() ==> wf_tree(
                        cfg0,
                        (#[trigger] trees@[i]).process,
                        trees@[i].process.throughput.spec_name(),
                    ),
                init_sth == old(self).spec_source_throughputs(),
                init_mis == old(self).spec_missings(),
                ledger_ok(
                    init,
                    init_sth,
                    trees@,
                    self.spec_source_throughputs(),
                    self.spec_targets(),
                ),
                missing_sound(cfg0, init, init_mis, trees@, self.spec_missings()),
                missing_complete(cfg0, init, trees@, self.spec_missings(), self.spec_targets()),
                queue_from(init, trees@, self.spec_targets()),
                forall|m: Seq<char>|
                    #[trigger] init_mis.contains(m) ==> self.spec_missings().contains(m),
                forall|m: Seq<char>|
                    #[trigger] flow_names(self.spec_source_throughputs()).contains(m)
                        ==> flow_names(init_sth).contains(m) || cfg_is_source(cfg0, m)
                        || cfg_missing(cfg0, m),
                forall|m: Seq<char>|
                    #[trigger] flow_names(self.spec_source_throughputs()).contains(m)
                        ==> flow_names(init_sth).contains(m) || missing_evidence(
                        init,
                        trees@,
                        m,
                    ),
            decreases steps, unmerged_pending(cfg0, self.spec_targets()).len(),
        {
            let ghost it_entry = *self;
            let nt = self.next_target();
            match nt {
                None => {
                    // The queue is drained: assemble the plan.
                    proof {
                        assert(self.spec_targets().len() == 0);
                        assert forall|n: Seq<char>|
                            #[trigger] ledger_cond(init, init_sth, trees@, n) implies rate_of(
                            self.spec_source_throughputs(),
                            n,
                        ) == crate::solution::forest_src_sum(trees@, n) + rate_of(init, n)
                            + crate::solution::forest_merge_sum(trees@, n) + rate_of(init_sth, n)
                            - crate::solution::forest_root_sum(trees@, n) by {
                            assert(rate_of(self.spec_targets(), n) == 0);
                        }
                        assert forall|m: Seq<char>|
                            #[trigger] self.spec_missings().contains(m) == (init_mis.contains(m)
                                || (cfg_missing(cfg0, m) && missing_evidence(
                                init,
                                trees@,
                                m,
                            ))) by {
                            assert(!flow_names(self.spec_targets()).contains(m)) by {
                                if flow_names(self.spec_targets()).contains(m) {
                                    let k = choose|k: int|
                                        0 <= k < flow_names(self.spec_targets()).len()
                                            && flow_names(self.spec_targets())[k] == m;
                                }
                            }
                        }
                    }
                    let sources = self.collect_sources();
                    let missings = self.collect_missings();
                    return Ok(Solution { trees, sources, missings });
                },
                Some(f) => {
                    let ghost a = f.name@;
                    let v = f.throughput;
                    let merged_demand = self.is_merged(f.name.as_str());
                    if merged_demand {
                        // Only merged demands can come back once drained, so
                        // only they spend the step budget.
                        if steps == 0 {
                            self.targets.add(f);
                            proof {
                                assert(self.targets.spec_has(a));
                                assert(flow_names(self.spec_targets()).contains(a));
                                assert(cfg_is_merged(cfg0, a));
                            }
                            return Err(SolveError::ResolutionLimit);
                        }
                        steps = steps - 1;
                    }
                    let ghost mid = *self;
                    let top_name = f.name.clone();
                    match self.solve_one(f, top_name.as_str(), fuel, Ghost(Seq::empty())) {
                        Err(e) => {
                            return Err(e);
                        },
                        Ok(None) => {
                            proof {
                                lemma_loop_none(
                                    it_entry,
                                    mid,
                                    *self,
                                    cfg0,
                                    init,
                                    init_sth,
                                    init_mis,
                                    trees@,
                                    a,
                                    v,
                                );
                                assert(flow_names(it_entry.spec_targets()).contains(a));
                                assert(missing_evidence(init, trees@, a));
                                if !merged_demand {
                                    lemma_unmerged_shrinks(
                                        cfg0,
                                        it_entry.spec_targets(),
                                        self.spec_targets(),
                                        a,
                                    );
                                }
                            }
                        },
                        Ok(Some(p)) => {
                            let tree = ProcessingTree { process: p };
                            proof {
                                lemma_loop_some(
                                    it_entry,
                                    mid,
                                    *self,
                                    cfg0,
                                    init,
                                    init_sth,
                                    init_mis,
                                    trees@,
                                    tree,
                                    a,
                                    v,
                                );
                                assert(wf_tree(cfg0, tree.process, tree.process.throughput.spec_name()));
                                assert forall|i: int|
                                    0 <= i < trees@.push(tree).len() implies wf_tree(
                                    cfg0,
                                    (#[trigger] trees@.push(tree)[i]).process,
                                    trees@.push(tree)[i].process.throughput.spec_name(),
                                ) by {
                                    if i < trees@.len() {
                                        assert(trees@.push(tree)[i] == trees@[i]);
                                    }
                                }
                                if !merged_demand {
                                    assert forall|m: Seq<char>|
                                        #[trigger] flow_names(self.spec_targets()).contains(m)
                                            implies (flow_names(
                                        it_entry.spec_targets(),
                                    ).contains(m) && m != a) || cfg_is_merged(cfg0, m) by {
                                        if !flow_names(mid.spec_targets()).contains(m) {
                                            assert(process_has_merge_terminal(tree.process, m));
                                            lemma_terminal_names(cfg0, tree.process, a, m);
                                        }
                                    }
                                    lemma_unmerged_shrinks(
                                        cfg0,
                                        it_entry.spec_targets(),
                                        self.spec_targets(),
                                        a,
                                    );
                                }
                                assert forall|m: Seq<char>|
                                    #[trigger] flow_names(
                                        self.spec_source_throughputs(),
                                    ).contains(m) implies flow_names(init_sth).contains(m)
                                    || missing_evidence(init, trees@.push(tree), m) by {
                                    crate::solution::lemma_forest_push(trees@, tree, m);
                                    if !flow_names(mid.spec_source_throughputs()).contains(m) {
                                        assert(process_has_src_terminal(tree.process, m));
                                    }
                                }
                            }
                            trees.push(tree);
                        },
                    }
                },
            }
        }
    }

    /// The expansion budget the catalog earns: one more than its number of
    /// (recipe, result) pairs, which no repeat-free expansion chain reaches.
    fn expansion_fuel(&self) -> (r: u64)
        ensures
            r == sat64(spec_fuel(self.recipe_set.spec_recipes())),
    {
        let ghost rs = self.recipe_set.spec_recipes();
        let n = self.recipe_set.len();
        let mut total: u64 = 1;
        let mut i: usize = 0;
        while i < n
            invariant
                i <= n,
                n == rs.len(),
                rs == self.recipe_set.spec_recipes(),
                total == sat64(1 + crate::recipe::total_results(rs.subrange(0, i as int))),
            decreases n - i,
        {
            let more = self.recipe_set.recipes[i].results().len();
            let ghost before = 1 + crate::recipe::total_results(rs.subrange(0, i as int));
            total = crate::num::sat_add(total, more as u64);
            proof {
                let cur = rs.subrange(0, i + 1 as int);
                assert(cur.drop_last() =~= rs.subrange(0, i as int));
                assert(cur.last() == rs[i as int]);
                crate::recipe::lemma_total_results_nonneg(rs.subrange(0, i as int));
                crate::num::lemma_sat_collapse(before, more as int);
            }
            i = i + 1;
        }
        proof {
            assert(rs.subrange(0, n as int) =~= rs);
        }
        total
    }

    /// One throughput per accumulated raw-source item, in name order.
    fn collect_sources(&self) -> (r: Vec<Throughput>)
        ensures
            r@.len() == self.spec_source_throughputs().len(),
            forall|i: int|
                0 <= i < r@.len() ==> throughput_is(
                    #[trigger] r@[i],
                    self.spec_source_throughputs()[i].name@,
                    self.spec_source_throughputs()[i].throughput,
                ),
    {
        let n = self.source_throughputs.len();
        let mut out: Vec<Throughput> = Vec::new();
        let mut i: usize = 0;
        while i < n
            invariant
                i <= n,
                n == self.spec_source_throughputs().len(),
                out@.len() == i,
                forall|j: int|
                    0 <= j < i ==> throughput_is(
                        #[trigger] out@[j],
                        self.spec_source_throughputs()[j].name@,
                        self.spec_source_throughputs()[j].throughput,
                    ),
            decreases n - i,
        {
            let e = self.source_throughputs.get(i);
            out.push(Throughput::new(e.name.clone(), e.throughput));
            i = i + 1;
        }
        out
    }

    /// One record per missing item, in name order, with name suggestions.
    fn collect_missings(&self) -> (r: Vec<Missing>)
        ensures
            r@.len() == self.spec_missings().len(),
            forall|i: int|
                0 <= i < r@.len() ==> (#[trigger] r@[i]).name@ == self.spec_missings()[i]
                    && crate::near_name::suggestions_ok(
                    self.cfg().recipes,
                    r@[i].name@,
                    r@[i].candidates@,
                ),
    {
        let n = self.missings.len();
        let mut out: Vec<Missing> = Vec::new();
        let mut i: usize = 0;
        while i < n
            invariant
                i <= n,
                n == self.spec_missings().len(),
                out@.len() == i,
                forall|j: int|
                    0 <= j < i ==> (#[trigger] out@[j]).name@ == self.spec_missings()[j]
                        && crate::near_name::suggestions_ok(
                        self.cfg().recipes,
                        out@[j].name@,
                        out@[j].candidates@,
                    ),
            decreases n - i,
        {
            let name = self.missings.get(i).clone();
            let candidates = self.recipe_set.find_did_you_mean(name.as_str());
            out.push(Missing { name, candidates });
            i = i + 1;
        }
        out
    }

    /// Dispatches one ingredient demand: raw sources and unproducible items
    /// end as `Source` terminals, merge points (other than the tree's own
    /// top item) are re-queued as `Merged` terminals, and the rest recurse
    /// into [`Self::solve_one`].
    fn solve_source(&mut self, t: Flow, top: &str, fuel: u64, path: Ghost<Seq<Seq<char>>>) -> (r:
        Result<Source, SolveError>)
        requires
            old(self).wf(),
            path_ok(old(self).cfg(), top@, path@),
            path@.len() > 0 ==> crate::recipe::has_amount(
                cfg_first_recipe(old(self).cfg(), path@.last()).spec_ingredients(),
                t.name@,
            ),
            fuel + path@.len() >= sat64(spec_fuel(old(self).cfg().recipes)),
        ensures
            final(self).wf(),
            final(self).cfg() == old(self).cfg(),
            final(self).spec_tier_map() == old(self).spec_tier_map(),
            forall|m: Seq<char>|
                #[trigger] flow_names(final(self).spec_source_throughputs()).contains(m)
                    ==> flow_names(old(self).spec_source_throughputs()).contains(m)
                    || cfg_is_source(old(self).cfg(), m) || cfg_missing(old(self).cfg(), m),
            r matches Err(e) ==> (e == SolveError::NoProcesser
                ==> no_machine_for_some_recipe(old(self).cfg())) && (e
                == SolveError::ResolutionLimit ==> (exists|chain: Seq<Seq<char>>|
                expansion_cycle(old(self).cfg(), top@, chain)) || spec_fuel(
                old(self).cfg().recipes,
            ) > u64::MAX),
            match r {
                Err(_) => true,
                Ok(s) => {
                    &&& wf_dispatch(old(self).cfg(), t.name@, t.throughput, s, top@)
                    &&& forall|m: Seq<char>|
                        rate_of(final(self).spec_source_throughputs(), m) == sat64(
                            rate_of(old(self).spec_source_throughputs(), m) + source_src_sum(
                                s,
                                m,
                            ),
                        )
                    &&& forall|m: Seq<char>|
                        #[trigger] flow_names(final(self).spec_source_throughputs()).contains(m)
                            == (flow_names(old(self).spec_source_throughputs()).contains(m)
                            || source_has_src_terminal(s, m))
                    &&& forall|m: Seq<char>|
                        rate_of(final(self).spec_targets(), m) == sat64(
                            rate_of(old(self).spec_targets(), m) + source_merge_sum(s, m),
                        )
                    &&& forall|m: Seq<char>|
                        #[trigger] flow_names(final(self).spec_targets()).contains(m) == (
                        flow_names(old(self).spec_targets()).contains(m)
                            || source_has_merge_terminal(s, m))
                    &&& forall|m: Seq<char>|
                        #[trigger] final(self).spec_missings().contains(m) == (old(
                            self,
                        ).spec_missings().contains(m) || (source_has_src_terminal(s, m)
                            && cfg_missing(old(self).cfg(), m)))
                },
            },
        decreases fuel, 1int,
    {
        let ghost cfg0 = self.cfg();
        let tname = t.name.clone();
        let trate = t.throughput;
        if self.sources.contains(t.name.as_str()) {
            self.source_throughputs.add(t);
            let s = Source::Source(Throughput::new(tname, trate));
            proof {
                lemma_state_after_terminal(old(self), self, tname@, trate);
            }
            return Ok(s);
        }
        if self.is_merged(t.name.as_str()) && !crate::strings::str_eq(t.name.as_str(), top) {
            self.targets.add(t);
            let s = Source::Merged(Throughput::new(tname, trate));
            proof {
                assert forall|m: Seq<char>|
                    rate_of(self.spec_targets(), m) == sat64(
                        rate_of(old(self).spec_targets(), m) + source_merge_sum(s, m),
                    ) by {
                    assert(self.targets.spec_rate(m) == if m == tname@ {
                        sat64(old(self).targets.spec_rate(m) + trate)
                    } else {
                        old(self).targets.spec_rate(m)
                    });
                }
                assert forall|m: Seq<char>|
                    #[trigger] flow_names(self.spec_targets()).contains(m) == (flow_names(
                        old(self).spec_targets(),
                    ).contains(m) || source_has_merge_terminal(s, m)) by {
                    assert(self.targets.spec_has(m) == (old(self).targets.spec_has(m) || m
                        == tname@));
                }
            }
            return Ok(s);
        }
        match self.solve_one(t, top, fuel, path) {
            Ok(Some(p)) => Ok(Source::Process(p)),
            Ok(None) => {
                let s = Source::Source(Throughput::new(tname, trate));
                Ok(s)
            },
            Err(e) => Err(e),
        }
    }

    /// Whether demand for the item merges across trees.
    fn is_merged(&self, name: &str) -> (r: bool)
        ensures
            r == cfg_is_merged(self.cfg(), name@),
    {
        if self.never_merged.contains(name) {
            return false;
        }
        self.all_merged || self.merged.contains(name)
    }
}

/// After a terminal resolution, only the accumulated source rate for the
/// resolved item changed.
proof fn lemma_state_after_terminal(pre: &Solver, post: &Solver, tn: Seq<char>, trate: u64)
    requires
        pre.source_throughputs.wf(),
        forall|m: Seq<char>|
            post.source_throughputs.spec_rate(m) == if m == tn {
                sat64(pre.source_throughputs.spec_rate(m) + trate)
            } else {
                pre.source_throughputs.spec_rate(m)
            },
        forall|m: Seq<char>|
            #[trigger] post.source_throughputs.spec_has(m) == (pre.source_throughputs.spec_has(m)
                || m == tn),
    ensures
        forall|m: Seq<char>|
            rate_of(post.spec_source_throughputs(), m) == if m == tn {
                sat64(rate_of(pre.spec_source_throughputs(), m) + trate)
            } else {
                rate_of(pre.spec_source_throughputs(), m)
            },
        forall|m: Seq<char>|
            #[trigger] flow_names(post.spec_source_throughputs()).contains(m) == (flow_names(
                pre.spec_source_throughputs(),
            ).contains(m) || m == tn),
{
    assert forall|m: Seq<char>|
        rate_of(post.spec_source_throughputs(), m) == (if m == tn {
            sat64(rate_of(pre.spec_source_throughputs(), m) + trate)
        } else {
            rate_of(pre.spec_source_throughputs(), m)
        }) by {
        assert(post.source_throughputs.spec_rate(m) == if m == tn {
            sat64(pre.source_throughputs.spec_rate(m) + trate)
        } else {
            pre.source_throughputs.spec_rate(m)
        });
    }
    assert forall|m: Seq<char>| #[trigger]
        flow_names(post.spec_source_throughputs()).contains(m) == (flow_names(
            pre.spec_source_throughputs(),
        ).contains(m) || m == tn) by {
        assert(post.source_throughputs.spec_has(m) == (pre.source_throughputs.spec_has(m) || m
            == tn));
    }
}

/// One more resolved ingredient extends every running sum by its own.
#[verifier::rlimit(60)]
proof fn lemma_child_step(
    entry: &Solver,
    mid: &Solver,
    post: &Solver,
    pre_sources: Seq<Source>,
    s: Source,
    cfg0: ResolveCfg,
    r_spec: Recipe,
    craft: u64,
    k: int,
    top: Seq<char>,
)
    requires
        forall|m: Seq<char>|
            rate_of(mid.spec_source_throughputs(), m) == sat64(
                rate_of(entry.spec_source_throughputs(), m) + sources_src_sum(pre_sources, m),
            ),
        forall|m: Seq<char>|
            #[trigger] flow_names(mid.spec_source_throughputs()).contains(m) == (flow_names(
                entry.spec_source_throughputs(),
            ).contains(m) || sources_have_src_terminal(pre_sources, m)),
        forall|m: Seq<char>|
            rate_of(mid.spec_targets(), m) == sat64(
                rate_of(entry.spec_targets(), m) + sources_merge_sum(pre_sources, m),
            ),
        forall|m: Seq<char>|
            #[trigger] flow_names(mid.spec_targets()).contains(m) == (flow_names(
                entry.spec_targets(),
            ).contains(m) || sources_have_merge_terminal(pre_sources, m)),
        forall|m: Seq<char>|
            #[trigger] mid.spec_missings().contains(m) == (entry.spec_missings().contains(m) || (
            sources_have_src_terminal(pre_sources, m) && cfg_missing(cfg0, m))),
        forall|m: Seq<char>|
            rate_of(post.spec_source_throughputs(), m) == sat64(
                rate_of(mid.spec_source_throughputs(), m) + source_src_sum(s, m),
            ),
        forall|m: Seq<char>|
            #[trigger] flow_names(post.spec_source_throughputs()).contains(m) == (flow_names(
                mid.spec_source_throughputs(),
            ).contains(m) || source_has_src_terminal(s, m)),
        forall|m: Seq<char>|
            rate_of(post.spec_targets(), m) == sat64(
                rate_of(mid.spec_targets(), m) + source_merge_sum(s, m),
            ),
        forall|m: Seq<char>|
            #[trigger] flow_names(post.spec_targets()).contains(m) == (flow_names(
                mid.spec_targets(),
            ).contains(m) || source_has_merge_terminal(s, m)),
        forall|m: Seq<char>|
            #[trigger] post.spec_missings().contains(m) == (mid.spec_missings().contains(m) || (
            source_has_src_terminal(s, m) && cfg_missing(cfg0, m))),
    ensures
        forall|m: Seq<char>|
            rate_of(post.spec_source_throughputs(), m) == sat64(
                rate_of(entry.spec_source_throughputs(), m) + sources_src_sum(
                    pre_sources.push(s),
                    m,
                ),
            ),
        forall|m: Seq<char>|
            #[trigger] flow_names(post.spec_source_throughputs()).contains(m) == (flow_names(
                entry.spec_source_throughputs(),
            ).contains(m) || sources_have_src_terminal(pre_sources.push(s), m)),
        forall|m: Seq<char>|
            rate_of(post.spec_targets(), m) == sat64(
                rate_of(entry.spec_targets(), m) + sources_merge_sum(pre_sources.push(s), m),
            ),
        forall|m: Seq<char>|
            #[trigger] flow_names(post.spec_targets()).contains(m) == (flow_names(
                entry.spec_targets(),
            ).contains(m) || sources_have_merge_terminal(pre_sources.push(s), m)),
        forall|m: Seq<char>|
            #[trigger] post.spec_missings().contains(m) == (entry.spec_missings().contains(m) || (
            sources_have_src_terminal(pre_sources.push(s), m) && cfg_missing(cfg0, m))),
{
    assert forall|m: Seq<char>|
        rate_of(post.spec_source_throughputs(), m) == sat64(
            rate_of(entry.spec_source_throughputs(), m) + sources_src_sum(
                pre_sources.push(s),
                m,
            ),
        ) by {
        crate::solution::lemma_sums_push(pre_sources, s, m);
        crate::solution::lemma_sources_src_sum_nonneg(pre_sources, m);
        crate::solution::lemma_source_src_sum_nonneg(s, m);
        crate::num::lemma_sat_collapse(
            rate_of(entry.spec_source_throughputs(), m) + sources_src_sum(pre_sources, m),
            source_src_sum(s, m),
        );
    }
    assert forall|m: Seq<char>|
        rate_of(post.spec_targets(), m) == sat64(
            rate_of(entry.spec_targets(), m) + sources_merge_sum(pre_sources.push(s), m),
        ) by {
        crate::solution::lemma_sums_push(pre_sources, s, m);
        crate::solution::lemma_sources_merge_sum_nonneg(pre_sources, m);
        crate::solution::lemma_source_merge_sum_nonneg(s, m);
        crate::num::lemma_sat_collapse(
            rate_of(entry.spec_targets(), m) + sources_merge_sum(pre_sources, m),
            source_merge_sum(s, m),
        );
    }
    assert forall|m: Seq<char>|
        #[trigger] flow_names(post.spec_source_throughputs()).contains(m) == (flow_names(
            entry.spec_source_throughputs(),
        ).contains(m) || sources_have_src_terminal(pre_sources.push(s), m)) by {
        crate::solution::lemma_sums_push(pre_sources, s, m);
    }
    assert forall|m: Seq<char>|
        #[trigger] flow_names(post.spec_targets()).contains(m) == (flow_names(
            entry.spec_targets(),
        ).contains(m) || sources_have_merge_terminal(pre_sources.push(s), m)) by {
        crate::solution::lemma_sums_push(pre_sources, s, m);
    }
    assert forall|m: Seq<char>|
        #[trigger] post.spec_missings().contains(m) == (entry.spec_missings().contains(m) || (
        sources_have_src_terminal(pre_sources.push(s), m) && cfg_missing(cfg0, m))) by {
        crate::solution::lemma_sums_push(pre_sources, s, m);
    }
}

/// In a well-formed tree, `Source` terminals name raw sources or missing
/// items, and `Merged` terminals name merged items other than the tree top.
pub proof fn lemma_terminal_names(cfg: ResolveCfg, p: Process, top: Seq<char>, m: Seq<char>)
    requires
        wf_tree(cfg, p, top),
    ensures
        process_has_src_terminal(p, m) ==> cfg_is_source(cfg, m) || cfg_missing(cfg, m),
        process_has_merge_terminal(p, m) ==> cfg_is_merged(cfg, m) && m != top,
    decreases p, 0int,
{
    let n = p.throughput.spec_name();
    let r = cfg_first_recipe(cfg, n);
    if process_has_src_terminal(p, m) {
        let i = choose|i: int|
            0 <= i < p.sources@.len() && source_has_src_terminal(#[trigger] p.sources@[i], m);
        assert(wf_child(cfg, r.spec_ingredients()[i], p.craft_per_sec, p.sources@[i], top));
        lemma_terminal_names_child(
            cfg,
            r.spec_ingredients()[i],
            p.craft_per_sec,
            p.sources@[i],
            top,
            m,
        );
    }
    if process_has_merge_terminal(p, m) {
        let i = choose|i: int|
            0 <= i < p.sources@.len() && source_has_merge_terminal(#[trigger] p.sources@[i], m);
        assert(wf_child(cfg, r.spec_ingredients()[i], p.craft_per_sec, p.sources@[i], top));
        lemma_terminal_names_child(
            cfg,
            r.spec_ingredients()[i],
            p.craft_per_sec,
            p.sources@[i],
            top,
            m,
        );
    }
}

/// The same, for one ingredient source.
proof fn lemma_terminal_names_child(
    cfg: ResolveCfg,
    ing: crate::recipe::ItemAmount,
    craft: u64,
    s: Source,
    top: Seq<char>,
    m: Seq<char>,
)
    requires
        wf_child(cfg, ing, craft, s, top),
    ensures
        source_has_src_terminal(s, m) ==> cfg_is_source(cfg, m) || cfg_missing(cfg, m),
        source_has_merge_terminal(s, m) ==> cfg_is_merged(cfg, m) && m != top,
    decreases s, 1int,
{
    match s {
        Source::Process(p2) => {
            lemma_terminal_names(cfg, p2, top, m);
        },
        Source::Merged(_) => {},
        Source::Source(_) => {},
    }
}

/// An expansion path as long as the whole budget must revisit some item,
/// and the revisit closes an expansion cycle — unless the catalog is so
/// large that its budget itself left the `u64` range.
proof fn lemma_long_path_has_cycle(cfg: ResolveCfg, top: Seq<char>, path: Seq<Seq<char>>)
    requires
        path_ok(cfg, top, path),
        path.len() >= sat64(spec_fuel(cfg.recipes)),
    ensures
        (exists|chain: Seq<Seq<char>>| expansion_cycle(cfg, top, chain)) || spec_fuel(
            cfg.recipes,
        ) > u64::MAX,
{
    if spec_fuel(cfg.recipes) <= u64::MAX {
        let names = crate::recipe::result_names(cfg.recipes);
        let r = names.to_set();
        crate::recipe::lemma_result_names_len(cfg.recipes);
        vstd::seq_lib::seq_to_set_is_finite(names);
        names.lemma_cardinality_of_set();
        assert(path.len() > r.len());
        assert forall|i: int| 0 <= i < path.len() implies r.contains(#[trigger] path[i]) by {
            crate::recipe::lemma_has_recipe_in_result_names(cfg.recipes, path[i]);
        }
        lemma_pigeonhole(path, r);
        let (i, j) = choose|i: int, j: int| 0 <= i < j < path.len() && path[i] == path[j];
        let chain = path.subrange(i, j + 1);
        assert(expansion_cycle(cfg, top, chain)) by {
            assert(chain.len() == j + 1 - i >= 2);
            assert(chain[0] == path[i]);
            assert(chain.last() == path[j]);
            assert forall|k: int| 0 <= k < chain.len() - 1 implies cycle_link(
                cfg,
                top,
                #[trigger] chain[k],
                chain[k + 1],
            ) by {
                assert(chain[k] == path[i + k]);
                assert(chain[k + 1] == path[i + k + 1]);
                assert(cycle_link(cfg, top, path[i + k], path[i + k + 1]));
            }
        }
    }
}

/// A sequence longer than a finite set that holds all its elements must
/// repeat one of them.
proof fn lemma_pigeonhole(s: Seq<Seq<char>>, r: Set<Seq<char>>)
    requires
        r.finite(),
        forall|i: int| 0 <= i < s.len() ==> r.contains(#[trigger] s[i]),
        s.len() > r.len(),
    ensures
        exists|i: int, j: int| 0 <= i < j < s.len() && s[i] == s[j],
{
    if !(exists|i: int, j: int| 0 <= i < j < s.len() && s[i] == s[j]) {
        assert(s.no_duplicates()) by {
            assert forall|i: int, j: int|
                0 <= i < s.len() && 0 <= j < s.len() && i != j implies s[i] != s[j] by {
                if i < j && s[i] == s[j] {
                    assert(false);
                }
                if j < i && s[j] == s[i] {
                    assert(false);
                }
            }
        }
        s.unique_seq_to_set();
        assert(s.to_set().subset_of(r)) by {
            assert forall|x: Seq<char>| s.to_set().contains(x) implies r.contains(x) by {
                let k = choose|k: int| 0 <= k < s.len() && s[k] == x;
            }
        }
        vstd::set_lib::lemma_len_subset(s.to_set(), r);
        assert(false);
    }
}

/// Draining a never-merged demand strictly shrinks the set of pending
/// items that can never come back.
proof fn lemma_unmerged_shrinks(
    cfg: ResolveCfg,
    entry_tgt: Seq<Flow>,
    final_tgt: Seq<Flow>,
    a: Seq<char>,
)
    requires
        flow_names(entry_tgt).contains(a),
        !cfg_is_merged(cfg, a),
        forall|m: Seq<char>|
            #[trigger] flow_names(final_tgt).contains(m) ==> (flow_names(entry_tgt).contains(m)
                && m != a) || cfg_is_merged(cfg, m),
    ensures
        unmerged_pending(cfg, final_tgt).len() < unmerged_pending(cfg, entry_tgt).len(),
{
    let u0 = unmerged_pending(cfg, entry_tgt);
    let u1 = unmerged_pending(cfg, final_tgt);
    let all = flow_names(entry_tgt).to_set();
    vstd::seq_lib::seq_to_set_is_finite(flow_names(entry_tgt));
    assert(u0.subset_of(all));
    vstd::set_lib::lemma_len_subset(u0, all);
    assert(u0.contains(a));
    assert(u1.subset_of(u0.remove(a)));
    vstd::set_lib::lemma_len_subset(u1, u0.remove(a));
    assert(u0.remove(a).len() == u0.len() - 1);
}

/// Mass conservation, read off the solve contract for the common case: an
/// item that was not itself a target, that no tree re-queues and that no
/// tree is rooted at — a raw-source item demanded only inside trees — is
/// reported at exactly the sum of the branch rates that end in it.
pub proof fn lemma_mass_conservation(
    init: Seq<Flow>,
    init_sth: Seq<Flow>,
    trees: Seq<ProcessingTree>,
    sth: Seq<Flow>,
    n: Seq<char>,
)
    requires
        rate_of(init, n) == 0,
        rate_of(init_sth, n) == 0,
        crate::solution::forest_merge_sum(trees, n) == 0,
        crate::solution::forest_root_sum(trees, n) == 0,
        crate::solution::forest_src_sum(trees, n) <= u64::MAX,
        ledger_cond(init, init_sth, trees, n) ==> rate_of(sth, n)
            == crate::solution::forest_src_sum(trees, n) + rate_of(init, n)
            + crate::solution::forest_merge_sum(trees, n) + rate_of(init_sth, n)
            - crate::solution::forest_root_sum(trees, n),
    ensures
        rate_of(sth, n) == crate::solution::forest_src_sum(trees, n),
{
    crate::solution::lemma_forest_sums_nonneg(trees, n);
}

/// Draining one demand that resolved without a tree keeps every running
/// fact of the solve loop.
#[verifier::rlimit(100)]
proof fn lemma_loop_none(
    entry: Solver,
    mid: Solver,
    post: Solver,
    cfg0: ResolveCfg,
    init: Seq<Flow>,
    init_sth: Seq<Flow>,
    init_mis: Seq<Seq<char>>,
    trees: Seq<ProcessingTree>,
    a: Seq<char>,
    v: u64,
)
    requires
        ledger_ok(init, init_sth, trees, entry.spec_source_throughputs(), entry.spec_targets()),
        missing_sound(cfg0, init, init_mis, trees, entry.spec_missings()),
        missing_complete(cfg0, init, trees, entry.spec_missings(), entry.spec_targets()),
        queue_from(init, trees, entry.spec_targets()),
        forall|m: Seq<char>| #[trigger] init_mis.contains(m) ==> entry.spec_missings().contains(m),
        flow_names(entry.spec_targets()).contains(a),
        v == rate_of(entry.spec_targets(), a),
        forall|m: Seq<char>|
            rate_of(mid.spec_targets(), m) == if m == a {
                0u64
            } else {
                rate_of(entry.spec_targets(), m)
            },
        forall|m: Seq<char>|
            #[trigger] flow_names(mid.spec_targets()).contains(m) == (flow_names(
                entry.spec_targets(),
            ).contains(m) && m != a),
        mid.spec_source_throughputs() == entry.spec_source_throughputs(),
        mid.spec_missings() == entry.spec_missings(),
        cfg_is_source(cfg0, a) || cfg_missing(cfg0, a),
        forall|m: Seq<char>|
            rate_of(post.spec_source_throughputs(), m) == if m == a {
                sat64(rate_of(mid.spec_source_throughputs(), m) + v)
            } else {
                rate_of(mid.spec_source_throughputs(), m)
            },
        forall|m: Seq<char>|
            #[trigger] flow_names(post.spec_source_throughputs()).contains(m) == (flow_names(
                mid.spec_source_throughputs(),
            ).contains(m) || m == a),
        post.spec_targets() == mid.spec_targets(),
        forall|m: Seq<char>|
            #[trigger] post.spec_missings().contains(m) == (mid.spec_missings().contains(m) || (m
                == a && cfg_missing(cfg0, m))),
    ensures
        ledger_ok(init, init_sth, trees, post.spec_source_throughputs(), post.spec_targets()),
        missing_sound(cfg0, init, init_mis, trees, post.spec_missings()),
        missing_complete(cfg0, init, trees, post.spec_missings(), post.spec_targets()),
        queue_from(init, trees, post.spec_targets()),
        forall|m: Seq<char>| #[trigger] init_mis.contains(m) ==> post.spec_missings().contains(m),
{
    assert forall|n: Seq<char>|
        #[trigger] ledger_cond(init, init_sth, trees, n) implies rate_of(
        post.spec_source_throughputs(),
        n,
    ) + rate_of(post.spec_targets(), n) + crate::solution::forest_root_sum(trees, n)
        == crate::solution::forest_src_sum(trees, n) + rate_of(init, n)
        + crate::solution::forest_merge_sum(trees, n) + rate_of(init_sth, n) by {
        crate::solution::lemma_forest_sums_nonneg(trees, n);
        if n == a {
            assert(rate_of(entry.spec_source_throughputs(), a) + v
                + crate::solution::forest_root_sum(trees, a) == crate::solution::forest_src_sum(
                trees,
                a,
            ) + rate_of(init, a) + crate::solution::forest_merge_sum(trees, a) + rate_of(
                init_sth,
                a,
            ));
            assert(rate_of(entry.spec_source_throughputs(), a) + v <= u64::MAX);
        }
    }
    assert forall|m: Seq<char>| #[trigger]
        post.spec_missings().contains(m) implies init_mis.contains(m) || (cfg_missing(cfg0, m)
        && missing_evidence(init, trees, m)) by {
        if m == a && !mid.spec_missings().contains(m) {
            assert(cfg_missing(cfg0, a));
            assert(flow_names(init).contains(a) || crate::solution::forest_has_merge_terminal(
                trees,
                a,
            ));
        }
    }
    assert forall|m: Seq<char>|
        cfg_missing(cfg0, m) && #[trigger] missing_evidence(init, trees, m) && !flow_names(
            post.spec_targets(),
        ).contains(m) implies post.spec_missings().contains(m) by {
        if m == a {
            assert(post.spec_missings().contains(a));
        } else {
            assert(!flow_names(entry.spec_targets()).contains(m));
            assert(entry.spec_missings().contains(m));
        }
    }
}

/// Draining one demand that became a tree keeps every running fact of the
/// solve loop, with the tree appended to the forest.
#[verifier::rlimit(100)]
proof fn lemma_loop_some(
    entry: Solver,
    mid: Solver,
    post: Solver,
    cfg0: ResolveCfg,
    init: Seq<Flow>,
    init_sth: Seq<Flow>,
    init_mis: Seq<Seq<char>>,
    trees: Seq<ProcessingTree>,
    tree: ProcessingTree,
    a: Seq<char>,
    v: u64,
)
    requires
        ledger_ok(init, init_sth, trees, entry.spec_source_throughputs(), entry.spec_targets()),
        missing_sound(cfg0, init, init_mis, trees, entry.spec_missings()),
        missing_complete(cfg0, init, trees, entry.spec_missings(), entry.spec_targets()),
        queue_from(init, trees, entry.spec_targets()),
        forall|m: Seq<char>| #[trigger] init_mis.contains(m) ==> entry.spec_missings().contains(m),
        flow_names(entry.spec_targets()).contains(a),
        v == rate_of(entry.spec_targets(), a),
        forall|m: Seq<char>|
            rate_of(mid.spec_targets(), m) == if m == a {
                0u64
            } else {
                rate_of(entry.spec_targets(), m)
            },
        forall|m: Seq<char>|
            #[trigger] flow_names(mid.spec_targets()).contains(m) == (flow_names(
                entry.spec_targets(),
            ).contains(m) && m != a),
        mid.spec_source_throughputs() == entry.spec_source_throughputs(),
        mid.spec_missings() == entry.spec_missings(),
        cfg_has_recipe(cfg0, a),
        tree.process.throughput.spec_name() == a,
        tree.process.throughput.spec_rate() == v,
        forall|m: Seq<char>|
            rate_of(post.spec_source_throughputs(), m) == sat64(
                rate_of(mid.spec_source_throughputs(), m) + process_src_sum(tree.process, m),
            ),
        forall|m: Seq<char>|
            #[trigger] flow_names(post.spec_source_throughputs()).contains(m) == (flow_names(
                mid.spec_source_throughputs(),
            ).contains(m) || process_has_src_terminal(tree.process, m)),
        forall|m: Seq<char>|
            rate_of(post.spec_targets(), m) == sat64(
                rate_of(mid.spec_targets(), m) + process_merge_sum(tree.process, m),
            ),
        forall|m: Seq<char>|
            #[trigger] flow_names(post.spec_targets()).contains(m) == (flow_names(
                mid.spec_targets(),
            ).contains(m) || process_has_merge_terminal(tree.process, m)),
        forall|m: Seq<char>|
            #[trigger] post.spec_missings().contains(m) == (mid.spec_missings().contains(m) || (
            process_has_src_terminal(tree.process, m) && cfg_missing(cfg0, m))),
    ensures
        ledger_ok(
            init,
            init_sth,
            trees.push(tree),
            post.spec_source_throughputs(),
            post.spec_targets(),
        ),
        missing_sound(cfg0, init, init_mis, trees.push(tree), post.spec_missings()),
        missing_complete(
            cfg0,
            init,
            trees.push(tree),
            post.spec_missings(),
            post.spec_targets(),
        ),
        queue_from(init, trees.push(tree), post.spec_targets()),
        forall|m: Seq<char>| #[trigger] init_mis.contains(m) ==> post.spec_missings().contains(m),
{
    let trees1 = trees.push(tree);
    assert forall|n: Seq<char>|
        #[trigger] ledger_cond(init, init_sth, trees1, n) implies rate_of(
        post.spec_source_throughputs(),
        n,
    ) + rate_of(post.spec_targets(), n) + crate::solution::forest_root_sum(trees1, n)
        == crate::solution::forest_src_sum(trees1, n) + rate_of(init, n)
        + crate::solution::forest_merge_sum(trees1, n) + rate_of(init_sth, n) by {
        crate::solution::lemma_forest_push(trees, tree, n);
        crate::solution::lemma_forest_sums_nonneg(trees, n);
        crate::solution::lemma_src_sum_nonneg(tree.process, n);
        crate::solution::lemma_merge_sum_nonneg(tree.process, n);
        let se = rate_of(entry.spec_source_throughputs(), n) as int;
        let te = rate_of(entry.spec_targets(), n) as int;
        let tm = rate_of(mid.spec_targets(), n) as int;
        let psrc = process_src_sum(tree.process, n);
        let pmer = process_merge_sum(tree.process, n);
        assert(ledger_cond(init, init_sth, trees, n));
        assert(se + te + crate::solution::forest_root_sum(trees, n)
            == crate::solution::forest_src_sum(trees, n) + rate_of(init, n)
            + crate::solution::forest_merge_sum(trees, n) + rate_of(init_sth, n));
        assert(se + psrc <= u64::MAX);
        assert(rate_of(post.spec_source_throughputs(), n) == se + psrc);
        assert(tm + pmer <= u64::MAX);
        assert(rate_of(post.spec_targets(), n) == tm + pmer);
        if n == a {
            assert(tm == 0);
            assert(crate::solution::forest_root_sum(trees1, n)
                == crate::solution::forest_root_sum(trees, n) + v);
        } else {
            assert(tm == te);
            assert(crate::solution::forest_root_sum(trees1, n)
                == crate::solution::forest_root_sum(trees, n));
        }
    }
    assert forall|m: Seq<char>| #[trigger]
        post.spec_missings().contains(m) implies init_mis.contains(m) || (cfg_missing(cfg0, m)
        && missing_evidence(init, trees1, m)) by {
        crate::solution::lemma_forest_push(trees, tree, m);
        if mid.spec_missings().contains(m) {
            assert(init_mis.contains(m) || (cfg_missing(cfg0, m) && missing_evidence(
                init,
                trees,
                m,
            )));
        }
    }
    assert forall|m: Seq<char>|
        cfg_missing(cfg0, m) && #[trigger] missing_evidence(init, trees1, m) && !flow_names(
            post.spec_targets(),
        ).contains(m) implies post.spec_missings().contains(m) by {
        crate::solution::lemma_forest_push(trees, tree, m);
        if process_has_src_terminal(tree.process, m) {
            assert(post.spec_missings().contains(m));
        } else if process_has_merge_terminal(tree.process, m) {
            assert(flow_names(post.spec_targets()).contains(m));
        } else {
            assert(missing_evidence(init, trees, m));
            assert(!flow_names(mid.spec_targets()).contains(m));
            if m == a {
                assert(!cfg_missing(cfg0, a));
            } else {
                assert(!flow_names(entry.spec_targets()).contains(m));
                assert(entry.spec_missings().contains(m));
            }
        }
    }
    assert forall|m: Seq<char>|
        #[trigger] flow_names(post.spec_targets()).contains(m) implies flow_names(
        init,
    ).contains(m) || crate::solution::forest_has_merge_terminal(trees1, m) by {
        crate::solution::lemma_forest_push(trees, tree, m);
        if flow_names(mid.spec_targets()).contains(m) {
            assert(flow_names(entry.spec_targets()).contains(m));
        }
    }
}

/// Extraction order is reflexive.
proof fn lemma_pick_refl(slv: &Solver, a: Seq<char>)
    ensures
        slv.pick_le(a, a),
{
}

/// Extraction order is total.
proof fn lemma_pick_total(slv: &Solver, a: Seq<char>, b: Seq<char>)
    ensures
        slv.pick_le(a, b) || slv.pick_le(b, a),
{
    lemma_lex_total(a, b);
}

/// A strictly earlier pick stays earlier across a known bound.
proof fn lemma_pick_trans(slv: &Solver, a: Seq<char>, b: Seq<char>, c: Seq<char>)
    requires
        slv.pick_le(a, b),
        slv.pick_le(b, c),
    ensures
        slv.pick_le(a, c),
{
    if a != b && b != c {
        crate::strings::lemma_lex_asym(a, b);
        crate::strings::lemma_lex_asym(b, c);
        if slv.merged.view().contains(a) == slv.merged.view().contains(b)
            && slv.merged.view().contains(b) == slv.merged.view().contains(c) {
            let ta = rate_of(slv.tier_map.view(), a);
            let tb = rate_of(slv.tier_map.view(), b);
            let tc = rate_of(slv.tier_map.view(), c);
            if ta == tb && tb == tc && lex_lt(a, b) && lex_lt(b, c) {
                crate::strings::lemma_lex_trans(a, b, c);
            }
        }
    }
}

/// Builds the per-item tier table over every name the catalog mentions.
fn build_tier_map(recipe_set: &RecipeSet, sources: &SortedNames) -> (r: ItemThroughputs)
    ensures
        r.wf(),
        forall|n: Seq<char>|
            #[trigger] rate_of(r.view(), n) == if name_space(recipe_set.spec_recipes()).contains(
                n,
            ) {
                item_tier(
                    recipe_set.spec_recipes(),
                    sources.view().to_set(),
                    Set::<Seq<char>>::empty(),
                    n,
                )
            } else {
                0u64
            },
{
    let ghost rs = recipe_set.spec_recipes();
    let mut tm = ItemThroughputs::new();
    let n = recipe_set.len();
    let mut i: usize = 0;
    while i < n
        invariant
            i <= n,
            n == rs.len(),
            rs == recipe_set.spec_recipes(),
            tm.wf(),
            forall|m: Seq<char>|
                #[trigger] flow_names(tm.view()).contains(m) == crate::tier::all_names(
                    rs.subrange(0, i as int),
                ).contains(m),
            forall|m: Seq<char>|
                flow_names(tm.view()).contains(m) ==> #[trigger] rate_of(tm.view(), m)
                    == item_tier(rs, sources.view().to_set(), Set::<Seq<char>>::empty(), m),
        decreases n - i,
    {
        let ghost pre_names = crate::tier::all_names(rs.subrange(0, i as int));
        let ghost rec_names = crate::tier::recipe_names(rs[i as int]);
        let rec = &recipe_set.recipes[i];
        add_names_tiers(recipe_set, sources, &mut tm, rec.results(), Ghost(pre_names));
        proof {
            assert(crate::recipe::amount_names(rs[i as int].spec_results()).subrange(
                0,
                crate::recipe::amount_names(rs[i as int].spec_results()).len() as int,
            ) =~= crate::recipe::amount_names(rs[i as int].spec_results()));
        }
        let ghost mid_names = pre_names + crate::recipe::amount_names(rs[i as int].spec_results());
        add_names_tiers(recipe_set, sources, &mut tm, rec.ingredients(), Ghost(mid_names));
        proof {
            assert(crate::recipe::amount_names(rs[i as int].spec_ingredients()).subrange(
                0,
                crate::recipe::amount_names(rs[i as int].spec_ingredients()).len() as int,
            ) =~= crate::recipe::amount_names(rs[i as int].spec_ingredients()));
            let cur = rs.subrange(0, i + 1 as int);
            assert(cur.drop_last() =~= rs.subrange(0, i as int));
            assert(cur.last() == rs[i as int]);
            assert(crate::tier::all_names(cur) =~= mid_names + crate::recipe::amount_names(
                rs[i as int].spec_ingredients(),
            )) by {
                assert(crate::tier::all_names(cur) == crate::tier::all_names(cur.drop_last())
                    + crate::tier::recipe_names(cur.last()));
                assert(pre_names + (crate::recipe::amount_names(rs[i as int].spec_results())
                    + crate::recipe::amount_names(rs[i as int].spec_ingredients())) =~= mid_names
                    + crate::recipe::amount_names(rs[i as int].spec_ingredients()));
            }
        }
        i = i + 1;
    }
    proof {
        assert(rs.subrange(0, n as int) =~= rs);
        assert forall|m: Seq<char>|
            #[trigger] rate_of(tm.view(), m) == if name_space(rs).contains(m) {
                item_tier(rs, sources.view().to_set(), Set::<Seq<char>>::empty(), m)
            } else {
                0u64
            } by {
            if name_space(rs).contains(m) {
                assert(crate::tier::all_names(rs).contains(m));
                assert(flow_names(tm.view()).contains(m));
            } else {
                assert(!crate::tier::all_names(rs).contains(m));
                assert(!flow_names(tm.view()).contains(m));
                lemma_absent_rate_zero(&tm, m);
            }
        }
    }
    tm
}

/// An item the table does not list has rate zero.
proof fn lemma_absent_rate_zero(tm: &ItemThroughputs, m: Seq<char>)
    requires
        !flow_names(tm.view()).contains(m),
    ensures
        rate_of(tm.view(), m) == 0,
    decreases tm.view().len(),
{
    lemma_rate_zero_rec(tm.view(), m);
}

/// An item a demand list does not name has rate zero.
proof fn lemma_rate_zero_rec(s: Seq<Flow>, m: Seq<char>)
    requires
        !flow_names(s).contains(m),
    ensures
        rate_of(s, m) == 0,
    decreases s.len(),
{
    if s.len() > 0 {
        assert(flow_names(s)[0] == s[0].name@);
        assert(s[0].name@ != m);
        assert forall|j: int|
            0 <= j < s.drop_first().len() implies (#[trigger] s.drop_first()[j]).name@ != m by {
            assert(flow_names(s)[j + 1] == s[j + 1].name@);
        }
        if flow_names(s.drop_first()).contains(m) {
            let k = choose|k: int|
                0 <= k < flow_names(s.drop_first()).len() && flow_names(s.drop_first())[k] == m;
            assert(s.drop_first()[k].name@ == m);
        }
        lemma_rate_zero_rec(s.drop_first(), m);
    }
}

/// Adds the tiers of one name list to the table, skipping known names.
fn add_names_tiers(
    recipe_set: &RecipeSet,
    sources: &SortedNames,
    tm: &mut ItemThroughputs,
    names: &Vec<crate::recipe::ItemAmount>,
    done: Ghost<Seq<Seq<char>>>,
)
    requires
        old(tm).wf(),
        forall|m: Seq<char>|
            #[trigger] flow_names(old(tm).view()).contains(m) == done@.contains(m),
        forall|m: Seq<char>|
            flow_names(old(tm).view()).contains(m) ==> #[trigger] rate_of(old(tm).view(), m)
                == item_tier(
                recipe_set.spec_recipes(),
                sources.view().to_set(),
                Set::<Seq<char>>::empty(),
                m,
            ),
    ensures
        final(tm).wf(),
        forall|m: Seq<char>|
            #[trigger] flow_names(final(tm).view()).contains(m) == (done@ + crate::recipe::amount_names(
                names@,
            )).contains(m),
        forall|m: Seq<char>|
            flow_names(final(tm).view()).contains(m) ==> #[trigger] rate_of(final(tm).view(), m)
                == item_tier(
                recipe_set.spec_recipes(),
                sources.view().to_set(),
                Set::<Seq<char>>::empty(),
                m,
            ),
{
    let ghost all = crate::recipe::amount_names(names@);
    proof {
        assert(done@ + all.subrange(0, 0) =~= done@);
    }
    let n = names.len();
    let mut j: usize = 0;
    while j < n
        invariant
            j <= n,
            n == names@.len(),
            all == crate::recipe::amount_names(names@),
            tm.wf(),
            forall|m: Seq<char>|
                #[trigger] flow_names(tm.view()).contains(m) == (done@ + all.subrange(
                    0,
                    j as int,
                )).contains(m),
            forall|m: Seq<char>|
                flow_names(tm.view()).contains(m) ==> #[trigger] rate_of(tm.view(), m)
                    == item_tier(
                    recipe_set.spec_recipes(),
                    sources.view().to_set(),
                    Set::<Seq<char>>::empty(),
                    m,
                ),
        decreases n - j,
    {
        let ghost seen = done@ + all.subrange(0, j as int);
        let ghost seen2 = done@ + all.subrange(0, j + 1 as int);
        proof {
            assert(seen2 =~= seen.push(all[j as int]));
            assert(all[j as int] == names@[j as int].name@);
        }
        let name = &names[j].name;
        if !tm_has(tm, name.as_str()) {
            proof {
                lemma_rate_zero_rec(tm.view(), name@);
            }
            let ghost before = tm.view();
            let tier = recipe_set.tier_of(name.as_str(), sources);
            tm.add(Flow { name: name.clone(), throughput: tier });
            proof {
                assert(tm.spec_rate(name@) == sat64(rate_of(before, name@) + tier));
                assert(rate_of(tm.view(), name@) == tier);
                assert forall|m: Seq<char>|
                    flow_names(tm.view()).contains(m) implies #[trigger] rate_of(tm.view(), m)
                    == item_tier(
                    recipe_set.spec_recipes(),
                    sources.view().to_set(),
                    Set::<Seq<char>>::empty(),
                    m,
                ) by {
                    assert(tm.spec_has(m) == (flow_names(before).contains(m) || m == name@));
                    if m != name@ {
                        assert(tm.spec_rate(m) == rate_of(before, m));
                    }
                }
            }
        }
        proof {
            assert forall|m: Seq<char>| #[trigger]
                flow_names(tm.view()).contains(m) == seen2.contains(m) by {
                assert(tm.spec_has(m) == flow_names(tm.view()).contains(m));
                assert(seen2.contains(m) == (seen.contains(m) || m == all[j as int])) by {
                    if seen2.contains(m) {
                        let k = choose|k: int| 0 <= k < seen2.len() && seen2[k] == m;
                        if k < seen.len() {
                            assert(seen[k] == m);
                            assert(seen.contains(m));
                        }
                    }
                    if seen.contains(m) {
                        let k = choose|k: int| 0 <= k < seen.len() && seen[k] == m;
                        assert(seen2[k] == m);
                        assert(seen2.contains(m));
                    }
                    if m == all[j as int] {
                        assert(seen2[seen.len() as int] == m);
                        assert(seen2.contains(m));
                    }
                }
            }
        }
        j = j + 1;
    }
    proof {
        assert(all.subrange(0, n as int) =~= all);
        assert(done@ + all.subrange(0, n as int) =~= done@ + all);
    }
}

/// Whether the table lists the name.
fn tm_has(tm: &ItemThroughputs, name: &str) -> (r: bool)
    ensures
        r == flow_names(tm.view()).contains(name@),
{
    let n = tm.len();
    let mut i: usize = 0;
    while i < n
        invariant
            i <= n,
            n == tm.view().len(),
            forall|j: int| 0 <= j < i ==> (#[trigger] tm.view()[j]).name@ != name@,
        decreases n - i,
    {
        if crate::strings::str_eq(tm.get(i).name.as_str(), name) {
            assert(flow_names(tm.view())[i as int] == name@);
            return true;
        }
        i = i + 1;
    }
    proof {
        if flow_names(tm.view()).contains(name@) {
            let k = choose|k: int|
                0 <= k < flow_names(tm.view()).len() && flow_names(tm.view())[k] == name@;
            assert(tm.view()[k].name@ == name@);
        }
    }
    false
}

} // verus!
