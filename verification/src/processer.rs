//! Machine configurations and the constrained choice of the best one.
//!
//! A processer is one machine configuration: a process kind, a throughput
//! speed, an output multiplier, a module fingerprint and an ingredient-slot
//! capacity.  `best_processer` picks, among the configurations a policy
//! allows, the one with the highest output multiplier, then the fewest
//! machines, then the cheapest module footprint — with a final correction
//! that avoids one oversized machine where a smaller one already suffices.

use crate::error::SolveError;
use crate::num::{div_ceil, SCALE};
use vstd::prelude::*;

verus! {

/// One machine configuration.  `productivity` and `speed` are fixed-point
/// values scaled by [`crate::SCALE`]; both are positive.
#[derive(Debug, PartialEq)]
pub struct Processer {
    pub(crate) name: String,
    pub(crate) proc_type: String,
    pub(crate) productivity: u64,
    pub(crate) speed: u64,
    pub(crate) io: usize,
    pub(crate) tier: usize,
    pub(crate) speed_module: usize,
    pub(crate) productivity_module: usize,
    pub(crate) beacon: usize,
}

impl Processer {
    /// The configuration's display name.
    pub open(crate) spec fn spec_name(&self) -> Seq<char> {
        self.name@
    }

    /// The process kind this machine runs.
    pub open(crate) spec fn spec_type(&self) -> Seq<char> {
        self.proc_type@
    }

    /// The output multiplier, scaled by [`crate::SCALE`].
    pub open(crate) spec fn spec_productivity(&self) -> u64 {
        self.productivity
    }

    /// The craft capacity per second, scaled by [`crate::SCALE`].
    pub open(crate) spec fn spec_speed(&self) -> u64 {
        self.speed
    }

    /// The ingredient-slot capacity.
    pub open(crate) spec fn spec_io(&self) -> usize {
        self.io
    }

    /// The machine-tier ordinal.
    pub open(crate) spec fn spec_tier(&self) -> usize {
        self.tier
    }

    /// How many speed modules are fitted.
    pub open(crate) spec fn spec_speed_module(&self) -> usize {
        self.speed_module
    }

    /// How many productivity modules are fitted.
    pub open(crate) spec fn spec_prod_module(&self) -> usize {
        self.productivity_module
    }

    /// How many beacons are used.
    pub open(crate) spec fn spec_beacon(&self) -> usize {
        self.beacon
    }

    /// Every `Processer` has a positive speed and output multiplier.
    #[verifier::type_invariant]
    pub open(crate) spec fn inv(&self) -> bool {
        self.productivity > 0 && self.speed > 0
    }

    /// Builds a configuration; rejects a zero speed or output multiplier.
    pub fn new(
        name: String,
        proc_type: String,
        productivity: u64,
        speed: u64,
        io: usize,
        tier: usize,
        speed_module: usize,
        productivity_module: usize,
        beacon: usize,
    ) -> (r: Option<Processer>)
        ensures
            match r {
                Some(p) => {
                    &&& p.spec_name() == name@
                    &&& p.spec_type() == proc_type@
                    &&& p.spec_productivity() == productivity
                    &&& p.spec_speed() == speed
                    &&& p.spec_io() == io
                    &&& p.spec_tier() == tier
                    &&& p.spec_speed_module() == speed_module
                    &&& p.spec_prod_module() == productivity_module
                    &&& p.spec_beacon() == beacon
                },
                None => productivity == 0 || speed == 0,
            },
    {
        if productivity == 0 || speed == 0 {
            return None;
        }
        Some(
            Processer {
                name,
                proc_type,
                productivity,
                speed,
                io,
                tier,
                speed_module,
                productivity_module,
                beacon,
            },
        )
    }

    /// The configuration's display name.
    pub fn name(&self) -> (r: &str)
        ensures
            r@ == self.spec_name(),
    {
        self.name.as_str()
    }

    /// The output multiplier, scaled by [`crate::SCALE`].
    pub fn productivity(&self) -> (r: u64)
        ensures
            r == self.spec_productivity(),
    {
        self.productivity
    }

    /// The craft capacity per second, scaled by [`crate::SCALE`].
    pub fn speed(&self) -> (r: u64)
        ensures
            r == self.spec_speed(),
    {
        self.speed
    }

    /// Whether any productivity module is fitted.
    pub fn use_prod_module(&self) -> (r: bool)
        ensures
            r == (self.spec_prod_module() > 0),
    {
        self.productivity_module > 0
    }

    /// Whether any speed module is fitted.
    pub fn use_speed_module(&self) -> (r: bool)
        ensures
            r == (self.spec_speed_module() > 0),
    {
        self.speed_module > 0
    }

    /// Whether any beacon is used.
    pub fn use_beacon(&self) -> (r: bool)
        ensures
            r == (self.spec_beacon() > 0),
    {
        self.beacon > 0
    }

    /// An identical copy.
    pub fn duplicate(&self) -> (r: Processer)
        ensures
            r == *self,
    {
        proof {
            use_type_invariant(self);
        }
        let r = Processer {
            name: self.name.clone(),
            proc_type: self.proc_type.clone(),
            productivity: self.productivity,
            speed: self.speed,
            io: self.io,
            tier: self.tier,
            speed_module: self.speed_module,
            productivity_module: self.productivity_module,
            beacon: self.beacon,
        };
        r
    }
}

/// The module footprint's cost: productivity modules are cheap, speed
/// modules ten times dearer, beacons a hundred times.
pub open(crate) spec fn mod_cost(p: Processer) -> int {
    p.productivity_module + 10 * p.speed_module + 100 * p.beacon
}

/// The policy: which module classes a chosen machine may use.
#[derive(Debug, Clone, Copy)]
pub struct ProcesserChoice {
    pub allow_beacon: bool,
    pub allow_speed_module: bool,
    pub allow_productivity_module: bool,
    pub allow_speed_only_beacon: bool,
    pub max_tier: usize,
}

impl ProcesserChoice {
    /// The most permissive policy.
    pub fn new() -> (r: ProcesserChoice)
        ensures
            r.allow_beacon && r.allow_speed_module && r.allow_productivity_module
                && r.allow_speed_only_beacon && r.max_tier == usize::MAX,
    {
        ProcesserChoice {
            allow_beacon: true,
            allow_speed_module: true,
            allow_productivity_module: true,
            allow_speed_only_beacon: true,
            max_tier: usize::MAX,
        }
    }

    /// The same policy with beacons allowed or not.
    pub fn beacon(&self, allow: bool) -> (r: ProcesserChoice)
        ensures
            r == (ProcesserChoice { allow_beacon: allow, ..*self }),
    {
        ProcesserChoice { allow_beacon: allow, ..*self }
    }

    /// The same policy with speed modules allowed or not.
    pub fn speed_module(&self, allow: bool) -> (r: ProcesserChoice)
        ensures
            r == (ProcesserChoice { allow_speed_module: allow, ..*self }),
    {
        ProcesserChoice { allow_speed_module: allow, ..*self }
    }

    /// The same policy with productivity modules allowed or not.
    pub fn productivity_module(&self, allow: bool) -> (r: ProcesserChoice)
        ensures
            r == (ProcesserChoice { allow_productivity_module: allow, ..*self }),
    {
        ProcesserChoice { allow_productivity_module: allow, ..*self }
    }

    /// The same policy with the speed-only beacon combination allowed or not.
    pub fn speed_only_beacon(&self, allow: bool) -> (r: ProcesserChoice)
        ensures
            r == (ProcesserChoice { allow_speed_only_beacon: allow, ..*self }),
    {
        ProcesserChoice { allow_speed_only_beacon: allow, ..*self }
    }

    /// The same policy with another machine-tier ceiling.
    pub fn max_tier(&self, tier: usize) -> (r: ProcesserChoice)
        ensures
            r == (ProcesserChoice { max_tier: tier, ..*self }),
    {
        ProcesserChoice { max_tier: tier, ..*self }
    }
}

impl Default for ProcesserChoice {
    /// The most permissive policy.
    fn default() -> (r: ProcesserChoice)
        ensures
            r.allow_beacon && r.allow_speed_module && r.allow_productivity_module
                && r.allow_speed_only_beacon && r.max_tier == usize::MAX,
    {
        ProcesserChoice::new()
    }
}

/// Whether a machine passes every filter of the policy for a recipe of the
/// given kind, ingredient count and bulk-material flag.
pub open(crate) spec fn admissible(
    p: Processer,
    ptype: Seq<char>,
    ing_count: int,
    material: bool,
    c: ProcesserChoice,
) -> bool {
    &&& p.spec_type() == ptype
    &&& (material || p.productivity_module == 0)
    &&& (c.allow_productivity_module || p.productivity_module == 0)
    &&& (c.allow_speed_module || p.speed_module == 0)
    &&& (c.allow_beacon || p.beacon == 0)
    &&& (c.allow_speed_only_beacon || p.productivity_module > 0 || !(p.speed_module > 0
        && p.beacon > 0))
    &&& p.tier <= c.max_tier
    &&& p.io > ing_count
}

/// How many machines of this configuration the required crafting power needs.
pub open(crate) spec fn unit_est(p: Processer, power: u64) -> int {
    div_ceil(power as int, p.speed as int)
}

/// Position `i` is admissible with the highest output multiplier.
pub open(crate) spec fn prod_maximal(
    s: Seq<Processer>,
    ptype: Seq<char>,
    ing_count: int,
    material: bool,
    c: ProcesserChoice,
    i: int,
) -> bool {
    &&& 0 <= i < s.len()
    &&& admissible(s[i], ptype, ing_count, material, c)
    &&& forall|j: int|
        0 <= j < s.len() && admissible(#[trigger] s[j], ptype, ing_count, material, c)
            ==> s[j].productivity <= s[i].productivity
}

/// Ranking among equally productive machines: fewer machines first, then a
/// cheaper module footprint, then the earlier catalog position.
pub open(crate) spec fn key_le(s: Seq<Processer>, power: u64, i: int, j: int) -> bool {
    ||| unit_est(s[i], power) < unit_est(s[j], power)
    ||| (unit_est(s[i], power) == unit_est(s[j], power) && (mod_cost(s[i]) < mod_cost(s[j]) || (
    mod_cost(s[i]) == mod_cost(s[j]) && i <= j)))
}

/// Position `i` holds exactly the machine the selection rules pick.
pub open(crate) spec fn selected(
    s: Seq<Processer>,
    ptype: Seq<char>,
    ing_count: int,
    material: bool,
    c: ProcesserChoice,
    power: u64,
    i: int,
) -> bool {
    &&& prod_maximal(s, ptype, ing_count, material, c, i)
    &&& if exists|j: int|
        prod_maximal(s, ptype, ing_count, material, c, j) && #[trigger] s[j].speed > power {
        &&& s[i].speed > power
        &&& forall|j: int|
            prod_maximal(s, ptype, ing_count, material, c, j) && #[trigger] s[j].speed > power
                ==> key_le(s, power, i, j)
    } else {
        forall|j: int|
            #[trigger] prod_maximal(s, ptype, ing_count, material, c, j) ==> key_le(s, power, i, j)
    }
}

/// One machine shell a process kind offers: how many beacons surround it
/// and how many ingredient slots it feeds.
pub struct Configulation {
    pub beacon: usize,
    pub io: usize,
}

/// The productivity-module and speed-module counts worth generating for a
/// machine with the given module capacity: no modules, all productivity,
/// all-but-one productivity with one speed, and every pure-speed count.
pub open spec fn spec_ps_tuples(max: int) -> Seq<(usize, usize)> {
    if max <= 0 {
        seq![(0usize, 0usize)]
    } else {
        seq![(0usize, 0usize), (max as usize, 0usize)] + (if max >= 2 {
            seq![((max - 1) as usize, 1usize)]
        } else {
            Seq::empty()
        }) + Seq::new(max as nat, |i: int| (0usize, (i + 1) as usize))
    }
}

/// The module-count pairs to generate for a machine.
pub fn gen_ps_tuples(max: usize) -> (r: Vec<(usize, usize)>)
    ensures
        r@ =~= spec_ps_tuples(max as int),
{
    let mut res: Vec<(usize, usize)> = Vec::new();
    res.push((0, 0));
    if max > 0 {
        res.push((max, 0));
        if max >= 2 {
            res.push((max - 1, 1));
        }
        let ghost prefix = res@;
        let mut j: usize = 0;
        while j < max
            invariant
                j <= max,
                res@.len() == prefix.len() + j,
                forall|k: int| 0 <= k < prefix.len() ==> #[trigger] res@[k] == prefix[k],
                forall|k: int|
                    0 <= k < j ==> #[trigger] res@[prefix.len() + k] == (
                    0usize,
                    (k + 1) as usize,
                ),
            decreases max - j,
        {
            res.push((0, j + 1));
            j = j + 1;
        }
        proof {
            let want = spec_ps_tuples(max as int);
            assert(res@.len() == want.len());
            assert forall|k: int| 0 <= k < res@.len() implies res@[k] == want[k] by {
                if k >= prefix.len() {
                    assert(res@[prefix.len() + (k - prefix.len())] == (
                    0usize,
                    (k - prefix.len() + 1) as usize,
                    ));
                }
            }
            assert(res@ =~= want);
        }
    }
    res
}

/// The multiplier each productivity module adds to the output, scaled.
pub const PROD_MODULE_BONUS: u64 = 100_000;

/// The speed each productivity module costs, scaled.
pub const PROD_MODULE_DRAG: u64 = 150_000;

/// The speed each speed module or beacon adds, scaled.
pub const SPEED_MODULE_BONUS: u64 = 500_000;

/// Builds one machine configuration from its base machine, module counts
/// and shell; rejects combinations whose speed or output multiplier leaves
/// the representable range.
///
/// The name is the base name with `-p`, `-s` and `-b` counts appended for
/// whichever module kinds are fitted.
pub fn build_proc(
    base_name: &str,
    proc_type: &str,
    base_speed: u64,
    tier: usize,
    mods: &(usize, usize),
    conf: &Configulation,
) -> (r: Option<Processer>)
    ensures
        ({
            let proc_cnt = mods.0 as int;
            let speed_cnt = mods.1 as int;
            let prod = SCALE + proc_cnt * PROD_MODULE_BONUS;
            let mult = SCALE + speed_cnt * SPEED_MODULE_BONUS + conf.beacon * SPEED_MODULE_BONUS
                - proc_cnt * PROD_MODULE_DRAG;
            let spd = base_speed * mult / SCALE as int;
            match r {
                Some(p) => {
                    &&& p.spec_productivity() == prod
                    &&& p.spec_speed() == spd
                    &&& p.spec_type() == proc_type@
                    &&& p.spec_io() == conf.io
                    &&& p.spec_tier() == tier
                    &&& p.spec_speed_module() == mods.1
                    &&& p.spec_prod_module() == mods.0
                    &&& p.spec_beacon() == conf.beacon
                    &&& p.spec_name() == base_name@ + (if proc_cnt > 0 {
                        "-p"@ + crate::dec::dec_str(proc_cnt)
                    } else {
                        Seq::empty()
                    }) + (if speed_cnt > 0 {
                        "-s"@ + crate::dec::dec_str(speed_cnt)
                    } else {
                        Seq::empty()
                    }) + (if conf.beacon > 0 {
                        "-b"@ + crate::dec::dec_str(conf.beacon as int)
                    } else {
                        Seq::empty()
                    })
                },
                None => !(0 < prod <= u64::MAX && 0 < mult <= u64::MAX && 0 < spd <= u64::MAX),
            }
        }),
{
    let proc_cnt = mods.0;
    let speed_cnt = mods.1;
    let prod128: u128 = (SCALE as u128) + (proc_cnt as u128) * (PROD_MODULE_BONUS as u128);
    if prod128 > u64::MAX as u128 {
        return None;
    }
    let pos: u128 = (SCALE as u128) + (speed_cnt as u128) * (SPEED_MODULE_BONUS as u128) + (
    conf.beacon as u128) * (SPEED_MODULE_BONUS as u128);
    let neg: u128 = (proc_cnt as u128) * (PROD_MODULE_DRAG as u128);
    if pos <= neg {
        return None;
    }
    let mult: u128 = pos - neg;
    if mult > u64::MAX as u128 {
        return None;
    }
    proof {
        vstd::arithmetic::mul::lemma_mul_upper_bound(
            base_speed as int,
            u64::MAX as int,
            mult as int,
            u64::MAX as int,
        );
        vstd::arithmetic::mul::lemma_mul_nonnegative(base_speed as int, mult as int);
    }
    let spd128: u128 = (base_speed as u128) * mult / (SCALE as u128);
    if spd128 == 0 || spd128 > u64::MAX as u128 {
        proof {
            vstd::arithmetic::mul::lemma_mul_upper_bound(
                base_speed as int,
                u64::MAX as int,
                mult as int,
                u128::MAX as int,
            );
        }
        return None;
    }
    proof {
        reveal_strlit("-p");
        reveal_strlit("-s");
        reveal_strlit("-b");
    }
    let mut name = base_name.to_owned();
    if proc_cnt > 0 {
        name.append("-p");
        let d = crate::dec::u64_to_string(proc_cnt as u64);
        name.append(d.as_str());
    }
    if speed_cnt > 0 {
        name.append("-s");
        let d = crate::dec::u64_to_string(speed_cnt as u64);
        name.append(d.as_str());
    }
    if conf.beacon > 0 {
        name.append("-b");
        let d = crate::dec::u64_to_string(conf.beacon as u64);
        name.append(d.as_str());
    }
    let p = Processer {
        name,
        proc_type: proc_type.to_owned(),
        productivity: prod128 as u64,
        speed: spd128 as u64,
        io: conf.io,
        tier,
        speed_module: speed_cnt,
        productivity_module: proc_cnt,
        beacon: conf.beacon,
    };
    proof {
        assert(p.spec_name() == base_name@ + (if proc_cnt as int > 0 {
            "-p"@ + crate::dec::dec_str(proc_cnt as int)
        } else {
            Seq::<char>::empty()
        }) + (if speed_cnt as int > 0 {
            "-s"@ + crate::dec::dec_str(speed_cnt as int)
        } else {
            Seq::<char>::empty()
        }) + (if conf.beacon as int > 0 {
            "-b"@ + crate::dec::dec_str(conf.beacon as int)
        } else {
            Seq::<char>::empty()
        })) by {
            if proc_cnt == 0 && speed_cnt == 0 && conf.beacon == 0 {
                assert(p.spec_name() =~= base_name@ + Seq::<char>::empty() + Seq::<char>::empty()
                    + Seq::<char>::empty());
            }
        }
    }
    Some(p)
}

/// Raising the required crafting power, with the policy and candidate set
/// fixed, never lowers the chosen machine's output multiplier and never
/// lowers its machine count.
pub proof fn lemma_selection_monotone(
    s: Seq<Processer>,
    ptype: Seq<char>,
    ing_count: int,
    material: bool,
    c: ProcesserChoice,
    power1: u64,
    power2: u64,
    i1: int,
    i2: int,
)
    requires
        power1 <= power2,
        forall|k: int| 0 <= k < s.len() ==> (#[trigger] s[k]).spec_speed() > 0,
        selected(s, ptype, ing_count, material, c, power1, i1),
        selected(s, ptype, ing_count, material, c, power2, i2),
    ensures
        s[i1].spec_productivity() == s[i2].spec_productivity(),
        unit_est(s[i1], power1) <= unit_est(s[i2], power2),
{
    assert(s[i2].productivity <= s[i1].productivity);
    assert(s[i1].productivity <= s[i2].productivity);
    let sp1 = s[i1].speed as int;
    let sp2 = s[i2].speed as int;
    assert(sp1 > 0 && sp2 > 0);
    vstd::arithmetic::div_mod::lemma_div_is_ordered(
        power1 + sp2 - 1,
        power2 + sp2 - 1,
        sp2,
    );
    if exists|j: int|
        prod_maximal(s, ptype, ing_count, material, c, j) && #[trigger] s[j].speed > power2 {
        // Both selections right-size: the later pick still covers the
        // earlier, smaller demand.
        let j = choose|j: int|
            prod_maximal(s, ptype, ing_count, material, c, j) && #[trigger] s[j].speed > power2;
        assert(s[j].speed > power1);
        assert(s[i2].speed > power2 >= power1);
        assert(key_le(s, power1, i1, i2));
    } else {
        if exists|j: int|
            prod_maximal(s, ptype, ing_count, material, c, j) && #[trigger] s[j].speed > power1 {
            // The earlier pick is an over-capacity machine needing at most
            // one unit; the later pick needs at least one.
            assert(s[i1].speed > power1);
            assert(unit_est(s[i1], power1) <= 1) by {
                assert(power1 + sp1 - 1 < 2 * sp1);
                vstd::arithmetic::div_mod::lemma_div_is_ordered(
                    power1 + sp1 - 1,
                    2 * sp1 - 1,
                    sp1,
                );
                assert((2 * sp1 - 1) / sp1 == 1) by {
                    vstd::arithmetic::div_mod::lemma_fundamental_div_mod(2 * sp1 - 1, sp1);
                    vstd::arithmetic::div_mod::lemma_div_multiples_vanish_fancy(1, sp1 - 1, sp1);
                }
            }
            assert(s[i2].speed <= power2);
            assert(unit_est(s[i2], power2) >= 1) by {
                vstd::arithmetic::div_mod::lemma_div_is_ordered(sp2, power2 + sp2 - 1, sp2);
                vstd::arithmetic::div_mod::lemma_div_multiples_vanish_fancy(1, 0, sp2);
            }
        } else {
            assert(key_le(s, power1, i1, i2));
        }
    }
}

/// The machine catalog.
pub struct ProcSet {
    pub(crate) processers: Vec<Processer>,
}

impl ProcSet {
    /// The configurations, in catalog order.
    pub open(crate) spec fn spec_processers(&self) -> Seq<Processer> {
        self.processers@
    }

    /// A catalog from a list of configurations, kept in order.
    pub fn from_processers(processers: Vec<Processer>) -> (r: ProcSet)
        ensures
            r.spec_processers() == processers@,
    {
        ProcSet { processers }
    }

    /// How many configurations the catalog holds.
    pub fn len(&self) -> (r: usize)
        ensures
            r == self.spec_processers().len(),
    {
        self.processers.len()
    }

    /// The best machine for a process under the policy, or the error that no
    /// configuration passes the filters.
    pub fn best_processer(
        &self,
        proc_type: &str,
        ingredients_count: usize,
        is_material: bool,
        crafting_power: u64,
        processer_choice: &ProcesserChoice,
    ) -> (r: Result<&Processer, SolveError>)
        ensures
            match r {
                Ok(p) => exists|i: int|
                    #[trigger] selected(
                        self.spec_processers(),
                        proc_type@,
                        ingredients_count as int,
                        is_material,
                        *processer_choice,
                        crafting_power,
                        i,
                    ) && *p == self.spec_processers()[i],
                Err(e) => {
                    &&& e == SolveError::NoProcesser
                    &&& forall|i: int|
                        0 <= i < self.spec_processers().len() ==> !admissible(
                            #[trigger] self.spec_processers()[i],
                            proc_type@,
                            ingredients_count as int,
                            is_material,
                            *processer_choice,
                        )
                },
            },
    {
        let ghost s = self.spec_processers();
        let ghost ptype = proc_type@;
        let ghost ingc = ingredients_count as int;
        let ghost c = *processer_choice;
        let n = self.processers.len();

        // Highest output multiplier among the admissible configurations.
        let mut any: bool = false;
        let mut max_prod: u64 = 0;
        let mut i: usize = 0;
        while i < n
            invariant
                i <= n,
                n == s.len(),
                s == self.spec_processers(),
                ptype == proc_type@,
                ingc == ingredients_count as int,
                c == *processer_choice,
                any == exists|j: int|
                    0 <= j < i && admissible(#[trigger] s[j], ptype, ingc, is_material, c),
                any ==> exists|j: int|
                    0 <= j < i && admissible(#[trigger] s[j], ptype, ingc, is_material, c)
                        && s[j].productivity == max_prod,
                forall|j: int|
                    0 <= j < i && admissible(#[trigger] s[j], ptype, ingc, is_material, c)
                        ==> s[j].productivity <= max_prod,
            decreases n - i,
        {
            if self.check_admissible(i, proc_type, ingredients_count, is_material, processer_choice)
            {
                if !any || self.processers[i].productivity > max_prod {
                    max_prod = self.processers[i].productivity;
                }
                any = true;
            }
            i = i + 1;
        }
        if !any {
            return Err(SolveError::NoProcesser);
        }

        // The best-ranked machine among the most productive ones, and the
        // best-ranked one among those whose speed alone beats the demand.
        let mut best: usize = 0;
        let mut have_best: bool = false;
        let mut alt: usize = 0;
        let mut have_alt: bool = false;
        let mut i: usize = 0;
        while i < n
            invariant
                i <= n,
                n == s.len(),
                s == self.spec_processers(),
                ptype == proc_type@,
                ingc == ingredients_count as int,
                c == *processer_choice,
                forall|j: int|
                    0 <= j < s.len() && admissible(#[trigger] s[j], ptype, ingc, is_material, c)
                        ==> s[j].productivity <= max_prod,
                exists|j: int|
                    0 <= j < s.len() && admissible(#[trigger] s[j], ptype, ingc, is_material, c)
                        && s[j].productivity == max_prod,
                have_best == exists|j: int|
                    0 <= j < i && #[trigger] prod_maximal(s, ptype, ingc, is_material, c, j),
                have_best ==> 0 <= best < i && prod_maximal(s, ptype, ingc, is_material, c, best as int),
                have_best ==> forall|j: int|
                    0 <= j < i && #[trigger] prod_maximal(s, ptype, ingc, is_material, c, j)
                        ==> key_le(s, crafting_power, best as int, j),
                have_alt == exists|j: int|
                    0 <= j < i && #[trigger] prod_maximal(s, ptype, ingc, is_material, c, j)
                        && s[j].speed > crafting_power,
                have_alt ==> 0 <= alt < i && prod_maximal(s, ptype, ingc, is_material, c, alt as int)
                    && s[alt as int].speed > crafting_power,
                have_alt ==> forall|j: int|
                    0 <= j < i && #[trigger] prod_maximal(s, ptype, ingc, is_material, c, j)
                        && s[j].speed > crafting_power ==> key_le(s, crafting_power, alt as int, j),
            decreases n - i,
        {
            let adm = self.check_admissible(
                i,
                proc_type,
                ingredients_count,
                is_material,
                processer_choice,
            );
            if adm && self.processers[i].productivity == max_prod {
                assert(prod_maximal(s, ptype, ingc, is_material, c, i as int));
                if !have_best || self.rank_before(i, best, crafting_power) {
                    best = i;
                }
                have_best = true;
                if self.processers[i].speed > crafting_power {
                    if !have_alt || self.rank_before(i, alt, crafting_power) {
                        alt = i;
                    }
                    have_alt = true;
                }
            } else {
                assert(!prod_maximal(s, ptype, ingc, is_material, c, i as int));
            }
            i = i + 1;
        }
        proof {
            let j = choose|j: int|
                0 <= j < s.len() && admissible(#[trigger] s[j], ptype, ingc, is_material, c)
                    && s[j].productivity == max_prod;
            assert(prod_maximal(s, ptype, ingc, is_material, c, j));
        }
        assert(have_best);
        if have_alt {
            assert(selected(s, ptype, ingc, is_material, c, crafting_power, alt as int));
            Ok(&self.processers[alt])
        } else {
            assert(selected(s, ptype, ingc, is_material, c, crafting_power, best as int));
            Ok(&self.processers[best])
        }
    }

    /// Whether the machine at a position passes every policy filter.
    fn check_admissible(
        &self,
        i: usize,
        proc_type: &str,
        ingredients_count: usize,
        is_material: bool,
        c: &ProcesserChoice,
    ) -> (r: bool)
        requires
            i < self.spec_processers().len(),
        ensures
            r == admissible(
                self.spec_processers()[i as int],
                proc_type@,
                ingredients_count as int,
                is_material,
                *c,
            ),
    {
        let p = &self.processers[i];
        crate::strings::str_eq(p.proc_type.as_str(), proc_type) && (is_material
            || p.productivity_module == 0) && (c.allow_productivity_module || p.productivity_module
            == 0) && (c.allow_speed_module || p.speed_module == 0) && (c.allow_beacon || p.beacon
            == 0) && (c.allow_speed_only_beacon || p.productivity_module > 0 || !(p.speed_module > 0
            && p.beacon > 0)) && p.tier <= c.max_tier && p.io > ingredients_count
    }

    /// Whether position `i` ranks no worse than position `j`.
    fn rank_before(&self, i: usize, j: usize, power: u64) -> (r: bool)
        requires
            i < self.spec_processers().len(),
            j < self.spec_processers().len(),
        ensures
            r == key_le(self.spec_processers(), power, i as int, j as int),
    {
        let pi = &self.processers[i];
        let pj = &self.processers[j];
        proof {
            use_type_invariant(pi);
            use_type_invariant(pj);
        }
        let ui = crate::num::div_ceil_u64(power, pi.speed);
        let uj = crate::num::div_ceil_u64(power, pj.speed);
        if ui < uj {
            return true;
        }
        if ui > uj {
            return false;
        }
        let ci: u128 = (pi.productivity_module as u128) + 10 * (pi.speed_module as u128) + 100 * (
        pi.beacon as u128);
        let cj: u128 = (pj.productivity_module as u128) + 10 * (pj.speed_module as u128) + 100 * (
        pj.beacon as u128);
        if ci < cj {
            return true;
        }
        if ci > cj {
            return false;
        }
        i <= j
    }
}

} // verus!
