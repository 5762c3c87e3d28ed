//! Recipes and the recipe catalog.
//!
//! A recipe converts named ingredients into named results at fixed per-craft
//! quantities.  The catalog answers reverse lookups (which recipes produce an
//! item), the set of all producible items, and a recursive
//! distance-from-raw-source tier used to order resolution.

use crate::strings::{lex_lt, str_eq, SortedNames};
use vstd::prelude::*;

verus! {

/// A named per-craft quantity, in fixed-point units of [`crate::SCALE`].
pub struct ItemAmount {
    pub name: String,
    pub num: u64,
}

/// The names of an amount list, in order.
pub open spec fn amount_names(s: Seq<ItemAmount>) -> Seq<Seq<char>> {
    s.map_values(|e: ItemAmount| e.name@)
}

/// Whether an amount list names an item.
pub open spec fn has_amount(s: Seq<ItemAmount>, n: Seq<char>) -> bool {
    amount_names(s).contains(n)
}

/// The quantity an amount list holds for an item, zero when absent.
pub open spec fn amount_of(s: Seq<ItemAmount>, n: Seq<char>) -> u64
    decreases s.len(),
{
    if s.len() == 0 {
        0
    } else if s[0].name@ == n {
        s[0].num
    } else {
        amount_of(s.drop_first(), n)
    }
}

/// An amount list with strictly increasing names.
pub open spec fn amounts_sorted(s: Seq<ItemAmount>) -> bool {
    forall|i: int, j: int|
        0 <= i < j < s.len() ==> lex_lt(#[trigger] s[i].name@, #[trigger] s[j].name@)
}

/// A scan that stops at position `i` finds the stored quantity.
proof fn lemma_amount_of_at(s: Seq<ItemAmount>, n: Seq<char>, i: int)
    requires
        0 <= i < s.len(),
        s[i].name@ == n,
        forall|j: int| 0 <= j < i ==> s[j].name@ != n,
    ensures
        amount_of(s, n) == s[i].num,
        has_amount(s, n),
    decreases i,
{
    assert(amount_names(s)[i] == n);
    if i == 0 {
    } else {
        assert(forall|j: int| 0 <= j < i - 1 ==> s.drop_first()[j].name@ != n);
        lemma_amount_of_at(s.drop_first(), n, i - 1);
    }
}

/// A scan that finds nothing means the item is absent and its quantity zero.
proof fn lemma_amount_of_absent(s: Seq<ItemAmount>, n: Seq<char>)
    requires
        forall|j: int| 0 <= j < s.len() ==> s[j].name@ != n,
    ensures
        amount_of(s, n) == 0,
        !has_amount(s, n),
    decreases s.len(),
{
    if s.len() > 0 {
        assert(forall|j: int| 0 <= j < s.len() - 1 ==> s.drop_first()[j].name@ != n);
        lemma_amount_of_absent(s.drop_first(), n);
    }
    if has_amount(s, n) {
        let k = choose|k: int| 0 <= k < amount_names(s).len() && amount_names(s)[k] == n;
        assert(s[k].name@ == n);
    }
}

/// Adjacent order on an amount list extends to the full strict order.
proof fn lemma_amounts_sorted_from_adjacent(s: Seq<ItemAmount>)
    requires
        forall|i: int| 0 <= i < s.len() - 1 ==> lex_lt(#[trigger] s[i].name@, s[i + 1].name@),
    ensures
        amounts_sorted(s),
{
    assert forall|i: int, j: int| 0 <= i < j < s.len() implies lex_lt(
        #[trigger] s[i].name@,
        #[trigger] s[j].name@,
    ) by {
        lemma_amounts_sorted_range(s, i, j);
    }
}

/// Order between two positions, by stepping through the ones between.
proof fn lemma_amounts_sorted_range(s: Seq<ItemAmount>, i: int, j: int)
    requires
        forall|k: int| 0 <= k < s.len() - 1 ==> lex_lt(#[trigger] s[k].name@, s[k + 1].name@),
        0 <= i < j < s.len(),
    ensures
        lex_lt(s[i].name@, s[j].name@),
    decreases j - i,
{
    if j == i + 1 {
    } else {
        lemma_amounts_sorted_range(s, i, j - 1);
        assert(lex_lt(s[j - 1].name@, s[j].name@));
        crate::strings::lemma_lex_trans(s[i].name@, s[j - 1].name@, s[j].name@);
    }
}

/// Checks that an amount list has strictly increasing names.
fn check_amounts_sorted(s: &Vec<ItemAmount>) -> (r: bool)
    ensures
        r == amounts_sorted(s@),
{
    let n = s.len();
    if n == 0 {
        return true;
    }
    let mut i: usize = 0;
    while i < n - 1
        invariant
            n >= 1,
            i <= n - 1,
            n == s@.len(),
            forall|k: int| 0 <= k < i ==> lex_lt(#[trigger] s@[k].name@, s@[k + 1].name@),
        decreases n - i,
    {
        if !crate::strings::str_lt(s[i].name.as_str(), s[i + 1].name.as_str()) {
            assert(!lex_lt(s@[i as int].name@, s@[i + 1].name@));
            return false;
        }
        i = i + 1;
    }
    proof {
        lemma_amounts_sorted_from_adjacent(s@);
    }
    true
}

/// One conversion from ingredients to results.
///
/// Quantities, the cost and every other scalar are fixed-point values scaled
/// by [`crate::SCALE`].  Every result carries a positive quantity and a
/// recipe yields at least one result; name lists are strictly sorted.
pub struct Recipe {
    pub(crate) name: String,
    pub(crate) recipe_type: String,
    pub(crate) cost: u64,
    pub(crate) material: bool,
    pub(crate) results: Vec<ItemAmount>,
    pub(crate) ingredients: Vec<ItemAmount>,
}

impl Recipe {
    /// The recipe's own name, as a character sequence.
    pub open(crate) spec fn spec_name(&self) -> Seq<char> {
        self.name@
    }

    /// The process kind, as a character sequence.
    pub open(crate) spec fn spec_type(&self) -> Seq<char> {
        self.recipe_type@
    }

    /// The crafting cost of one craft.
    pub open(crate) spec fn spec_cost(&self) -> u64 {
        self.cost
    }

    /// Whether the recipe makes a bulk material.
    pub open(crate) spec fn spec_material(&self) -> bool {
        self.material
    }

    /// The result list.
    pub open(crate) spec fn spec_results(&self) -> Seq<ItemAmount> {
        self.results@
    }

    /// The ingredient list.
    pub open(crate) spec fn spec_ingredients(&self) -> Seq<ItemAmount> {
        self.ingredients@
    }

    /// Shape every `Recipe` value keeps for its whole life.
    #[verifier::type_invariant]
    pub open spec fn inv(&self) -> bool {
        &&& amounts_sorted(self.spec_results())
        &&& amounts_sorted(self.spec_ingredients())
        &&& self.spec_results().len() >= 1
        &&& forall|i: int|
            0 <= i < self.spec_results().len() ==> #[trigger] self.spec_results()[i].num > 0
    }

    /// Builds a recipe; rejects inputs that break the recipe shape.
    pub fn new(
        name: String,
        recipe_type: String,
        cost: u64,
        material: bool,
        results: Vec<ItemAmount>,
        ingredients: Vec<ItemAmount>,
    ) -> (r: Option<Recipe>)
        ensures
            match r {
                Some(rec) => {
                    &&& rec.spec_name() == name@
                    &&& rec.spec_type() == recipe_type@
                    &&& rec.spec_cost() == cost
                    &&& rec.spec_material() == material
                    &&& rec.spec_results() == results@
                    &&& rec.spec_ingredients() == ingredients@
                },
                None => !(amounts_sorted(results@) && amounts_sorted(ingredients@) && results@.len()
                    >= 1 && (forall|i: int|
                    0 <= i < results@.len() ==> #[trigger] results@[i].num > 0)),
            },
    {
        if results.len() == 0 {
            return None;
        }
        if !check_amounts_sorted(&results) || !check_amounts_sorted(&ingredients) {
            return None;
        }
        let n = results.len();
        let mut i: usize = 0;
        while i < n
            invariant
                i <= n,
                n == results@.len(),
                forall|k: int| 0 <= k < i ==> #[trigger] results@[k].num > 0,
            decreases n - i,
        {
            if results[i].num == 0 {
                return None;
            }
            i = i + 1;
        }
        Some(Recipe { name, recipe_type, cost, material, results, ingredients })
    }

    /// The recipe's own name.
    pub fn name(&self) -> (r: &str)
        ensures
            r@ == self.spec_name(),
    {
        self.name.as_str()
    }

    /// The process kind that runs this recipe.
    pub fn recipe_type(&self) -> (r: &str)
        ensures
            r@ == self.spec_type(),
    {
        self.recipe_type.as_str()
    }

    /// The crafting cost (energy) of one craft.
    pub fn cost(&self) -> (r: u64)
        ensures
            r == self.spec_cost(),
    {
        self.cost
    }

    /// Whether the recipe makes a bulk material.
    pub fn is_material(&self) -> (r: bool)
        ensures
            r == self.spec_material(),
    {
        self.material
    }

    /// Whether the recipe yields the named result.
    pub fn has_result(&self, result: &str) -> (r: bool)
        ensures
            r == has_amount(self.spec_results(), result@),
    {
        find_amount(&self.results, result).is_some()
    }

    /// The per-craft quantity of the named result, zero when absent.
    pub fn result_num(&self, result: &str) -> (r: u64)
        ensures
            r == amount_of(self.spec_results(), result@),
    {
        match find_amount(&self.results, result) {
            Some(n) => n,
            None => 0,
        }
    }

    /// The results, with per-craft quantities.
    pub fn results(&self) -> (r: &Vec<ItemAmount>)
        ensures
            r@ == self.spec_results(),
    {
        &self.results
    }

    /// The ingredients, with per-craft quantities.
    pub fn ingredients(&self) -> (r: &Vec<ItemAmount>)
        ensures
            r@ == self.spec_ingredients(),
    {
        &self.ingredients
    }

    /// How many distinct ingredients the recipe takes.
    pub fn ingredients_count(&self) -> (r: usize)
        ensures
            r == self.spec_ingredients().len(),
    {
        self.ingredients.len()
    }
}

/// A listed name whose quantities are all positive has a positive quantity.
pub proof fn lemma_amount_positive(s: Seq<ItemAmount>, n: Seq<char>)
    requires
        has_amount(s, n),
        forall|i: int| 0 <= i < s.len() ==> #[trigger] s[i].num > 0,
    ensures
        amount_of(s, n) > 0,
    decreases s.len(),
{
    if s.len() > 0 && s[0].name@ != n {
        assert(amount_names(s)[0] == s[0].name@);
        let k = choose|k: int| 0 <= k < amount_names(s).len() && amount_names(s)[k] == n;
        assert(s[k].name@ == n);
        assert(amount_names(s.drop_first())[k - 1] == n);
        lemma_amount_positive(s.drop_first(), n);
    }
}

/// A non-empty producing list's recipes each yield the item and come from
/// the catalog.
pub proof fn lemma_producing_members(rs: Seq<Recipe>, n: Seq<char>)
    ensures
        forall|k: int|
            0 <= k < producing(rs, n).len() ==> has_amount(
                (#[trigger] producing(rs, n)[k]).spec_results(),
                n,
            ) && rs.contains(producing(rs, n)[k]),
    decreases rs.len(),
{
    if rs.len() > 0 {
        lemma_producing_members(rs.drop_last(), n);
        let prefix = producing(rs.drop_last(), n);
        assert forall|k: int|
            0 <= k < producing(rs, n).len() implies has_amount(
            (#[trigger] producing(rs, n)[k]).spec_results(),
            n,
        ) && rs.contains(producing(rs, n)[k]) by {
            if k < prefix.len() {
                assert(producing(rs, n)[k] == prefix[k]);
                assert(rs.drop_last().contains(prefix[k]));
                let j = choose|j: int|
                    0 <= j < rs.drop_last().len() && rs.drop_last()[j] == prefix[k];
                assert(rs[j] == prefix[k]);
            } else {
                assert(producing(rs, n)[k] == rs.last());
                assert(rs[rs.len() - 1] == rs.last());
            }
        }
    }
}

/// A producible item's name appears among the catalog's result names.
pub proof fn lemma_has_recipe_in_result_names(rs: Seq<Recipe>, n: Seq<char>)
    requires
        producing(rs, n).len() > 0,
    ensures
        result_names(rs).contains(n),
    decreases rs.len(),
{
    if rs.len() > 0 {
        let prefix = producing(rs.drop_last(), n);
        if has_amount(rs.last().spec_results(), n) {
            let names = amount_names(rs.last().spec_results());
            let k = choose|k: int| 0 <= k < names.len() && names[k] == n;
            assert(result_names(rs)[result_names(rs.drop_last()).len() + k] == n);
        } else {
            lemma_has_recipe_in_result_names(rs.drop_last(), n);
            let k = choose|k: int|
                0 <= k < result_names(rs.drop_last()).len() && result_names(rs.drop_last())[k]
                    == n;
            assert(result_names(rs)[k] == n);
        }
    }
}

/// How many result names a catalog lists in all, counted per recipe.
pub proof fn lemma_result_names_len(rs: Seq<Recipe>)
    ensures
        result_names(rs).len() == total_results(rs),
    decreases rs.len(),
{
    if rs.len() > 0 {
        lemma_result_names_len(rs.drop_last());
    }
}

/// The total number of (recipe, result) pairs in a catalog.
pub open spec fn total_results(rs: Seq<Recipe>) -> int
    decreases rs.len(),
{
    if rs.len() == 0 {
        0
    } else {
        total_results(rs.drop_last()) + rs.last().spec_results().len()
    }
}

/// A catalog never has negatively many (recipe, result) pairs.
pub proof fn lemma_total_results_nonneg(rs: Seq<Recipe>)
    ensures
        total_results(rs) >= 0,
    decreases rs.len(),
{
    if rs.len() > 0 {
        lemma_total_results_nonneg(rs.drop_last());
    }
}

/// A copy of an amount list, element for element.
pub fn clone_amounts(v: &Vec<ItemAmount>) -> (r: Vec<ItemAmount>)
    ensures
        r@ =~= v@,
{
    let n = v.len();
    let mut out: Vec<ItemAmount> = Vec::new();
    let mut i: usize = 0;
    while i < n
        invariant
            i <= n,
            n == v@.len(),
            out@.len() == i,
            forall|j: int| 0 <= j < i ==> #[trigger] out@[j] == v@[j],
        decreases n - i,
    {
        out.push(ItemAmount { name: v[i].name.clone(), num: v[i].num });
        i = i + 1;
    }
    out
}

/// Finds the stored quantity for a name, if any.
fn find_amount(s: &Vec<ItemAmount>, name: &str) -> (r: Option<u64>)
    ensures
        match r {
            Some(v) => has_amount(s@, name@) && v == amount_of(s@, name@),
            None => !has_amount(s@, name@) && amount_of(s@, name@) == 0,
        },
{
    let n = s.len();
    let mut i: usize = 0;
    while i < n
        invariant
            i <= n,
            n == s@.len(),
            forall|j: int| 0 <= j < i ==> s@[j].name@ != name@,
        decreases n - i,
    {
        if str_eq(s[i].name.as_str(), name) {
            proof {
                lemma_amount_of_at(s@, name@, i as int);
            }
            return Some(s[i].num);
        }
        i = i + 1;
    }
    proof {
        lemma_amount_of_absent(s@, name@);
    }
    None
}

/// The sub-list of recipes that produce the named item, in catalog order.
pub open spec fn producing(rs: Seq<Recipe>, n: Seq<char>) -> Seq<Recipe>
    decreases rs.len(),
{
    if rs.len() == 0 {
        Seq::empty()
    } else {
        let prefix = producing(rs.drop_last(), n);
        if has_amount(rs.last().spec_results(), n) {
            prefix.push(rs.last())
        } else {
            prefix
        }
    }
}

/// The catalog: a flat, ordered list of recipes.
pub struct RecipeSet {
    pub(crate) recipes: Vec<Recipe>,
}

impl RecipeSet {
    /// The recipes, in catalog order.
    pub open(crate) spec fn spec_recipes(&self) -> Seq<Recipe> {
        self.recipes@
    }

    /// An empty catalog.
    pub fn new() -> (r: RecipeSet)
        ensures
            r.spec_recipes() =~= Seq::<Recipe>::empty(),
    {
        RecipeSet { recipes: Vec::new() }
    }

    /// Appends recipes at the end of the catalog, keeping their order.
    pub fn append_recipes(&mut self, recipes: Vec<Recipe>)
        ensures
            final(self).spec_recipes() =~= old(self).spec_recipes() + recipes@,
    {
        let mut rest = recipes;
        self.recipes.append(&mut rest);
    }

    /// How many recipes the catalog holds.
    pub fn len(&self) -> (r: usize)
        ensures
            r == self.spec_recipes().len(),
    {
        self.recipes.len()
    }

    /// Every recipe that yields the named item, in catalog order.
    pub fn find_recipes(&self, result: &str) -> (r: Vec<&Recipe>)
        ensures
            r@.map_values(|x: &Recipe| *x) =~= producing(self.spec_recipes(), result@),
    {
        let n = self.recipes.len();
        let mut out: Vec<&Recipe> = Vec::new();
        let mut i: usize = 0;
        while i < n
            invariant
                i <= n,
                n == self.recipes@.len(),
                out@.map_values(|x: &Recipe| *x) =~= producing(
                    self.recipes@.subrange(0, i as int),
                    result@,
                ),
            decreases n - i,
        {
            let ghost pre = self.recipes@.subrange(0, i as int);
            if self.recipes[i].has_result(result) {
                out.push(&self.recipes[i]);
            }
            proof {
                let cur = self.recipes@.subrange(0, i + 1 as int);
                assert(cur.drop_last() =~= pre);
                assert(cur.last() == self.recipes@[i as int]);
            }
            i = i + 1;
        }
        proof {
            assert(self.recipes@.subrange(0, n as int) =~= self.recipes@);
        }
        out
    }

    /// Every item name that appears as a result, sorted and duplicate-free.
    pub fn all_results(&self) -> (r: Vec<String>)
        ensures
            forall|m: Seq<char>|
                r@.map_values(|s: String| s@).contains(m) == #[trigger] result_names(
                    self.spec_recipes(),
                ).contains(m),
            forall|i: int, j: int|
                0 <= i < j < r@.len() ==> lex_lt(#[trigger] r@[i]@, #[trigger] r@[j]@),
    {
        let n = self.recipes.len();
        let mut acc = SortedNames::new();
        let mut i: usize = 0;
        while i < n
            invariant
                i <= n,
                n == self.recipes@.len(),
                acc.wf(),
                forall|m: Seq<char>|
                    #[trigger] acc.view().contains(m) == result_names(
                        self.recipes@.subrange(0, i as int),
                    ).contains(m),
            decreases n - i,
        {
            let ghost pre = self.recipes@.subrange(0, i as int);
            let results = self.recipes[i].results();
            let m = results.len();
            let mut j: usize = 0;
            while j < m
                invariant
                    j <= m,
                    m == self.recipes@[i as int].results@.len(),
                    i < n,
                    n == self.recipes@.len(),
                    pre == self.recipes@.subrange(0, i as int),
                    results@ == self.recipes@[i as int].results@,
                    acc.wf(),
                    forall|mm: Seq<char>|
                        #[trigger] acc.view().contains(mm) == (result_names(pre).contains(mm)
                            || amount_names(results@).subrange(0, j as int).contains(mm)),
                decreases m - j,
            {
                acc.insert(results[j].name.clone());
                proof {
                    let names = amount_names(results@);
                    let p1 = names.subrange(0, j as int);
                    let p2 = names.subrange(0, j + 1 as int);
                    assert(p2 =~= p1.push(names[j as int]));
                    assert(names[j as int] == results@[j as int].name@);
                    assert forall|mm: Seq<char>| #[trigger]
                        p2.contains(mm) == (p1.contains(mm) || mm == names[j as int]) by {
                        if p2.contains(mm) {
                            let k = choose|k: int| 0 <= k < p2.len() && p2[k] == mm;
                            if k < j {
                                assert(p1[k] == mm);
                                assert(p1.contains(mm));
                            }
                        }
                        if p1.contains(mm) {
                            let k = choose|k: int| 0 <= k < p1.len() && p1[k] == mm;
                            assert(p2[k] == mm);
                        }
                        if mm == names[j as int] {
                            assert(p2[j as int] == mm);
                        }
                    }
                }
                j = j + 1;
            }
            proof {
                let cur = self.recipes@.subrange(0, i + 1 as int);
                assert(cur.drop_last() =~= pre);
                assert(cur.last() == self.recipes@[i as int]);
                let names = amount_names(self.recipes@[i as int].results@);
                assert(names.subrange(0, names.len() as int) =~= names);
                assert forall|mm: Seq<char>| #[trigger]
                    result_names(cur).contains(mm) == (result_names(pre).contains(mm)
                        || names.contains(mm)) by {
                    lemma_result_names_last(cur, mm);
                }
            }
            i = i + 1;
        }
        proof {
            assert(self.recipes@.subrange(0, n as int) =~= self.recipes@);
        }
        let ghost accview = acc.view();
        let r = acc.into_vec();
        proof {
            assert forall|i: int, j: int| 0 <= i < j < r@.len() implies lex_lt(
                #[trigger] r@[i]@,
                #[trigger] r@[j]@,
            ) by {
                assert(r@.map_values(|s: String| s@)[i] == r@[i]@);
                assert(r@.map_values(|s: String| s@)[j] == r@[j]@);
            }
        }
        r
    }
}

/// Every result name over a recipe list, as one sequence.
pub open spec fn result_names(rs: Seq<Recipe>) -> Seq<Seq<char>>
    decreases rs.len(),
{
    if rs.len() == 0 {
        Seq::empty()
    } else {
        result_names(rs.drop_last()) + amount_names(rs.last().spec_results())
    }
}

/// Membership in the result names of a non-empty list splits on its last recipe.
proof fn lemma_result_names_last(rs: Seq<Recipe>, m: Seq<char>)
    requires
        rs.len() > 0,
    ensures
        result_names(rs).contains(m) == (result_names(rs.drop_last()).contains(m) || amount_names(
            rs.last().spec_results(),
        ).contains(m)),
{
    let a = result_names(rs.drop_last());
    let b = amount_names(rs.last().spec_results());
    if (a + b).contains(m) {
        let k = choose|k: int| 0 <= k < (a + b).len() && (a + b)[k] == m;
        if k < a.len() {
            assert(a[k] == m);
            assert(a.contains(m));
        } else {
            assert(b[k - a.len()] == m);
            assert(b.contains(m));
        }
    }
    if a.contains(m) {
        let k = choose|k: int| 0 <= k < a.len() && a[k] == m;
        assert((a + b)[k] == m);
        assert((a + b).contains(m));
    }
    if b.contains(m) {
        let k = choose|k: int| 0 <= k < b.len() && b[k] == m;
        assert((a + b)[k + a.len()] == m);
        assert((a + b).contains(m));
    }
}

} // verus!
