//! The recipe-dependency tier: how many crafting stages separate an item
//! from the raw sources.
//!
//! A raw source sits at tier zero.  An item with recipes sits one stage above
//! the deepest ingredient of its deepest recipe.  A chain that closes on
//! itself is cut by a per-path set of items currently being expanded: an
//! ingredient already on the path contributes nothing, so the recursion
//! always bottoms out.

use core::cmp::Ordering;
use crate::recipe::{amount_names, has_amount, Recipe, RecipeSet};
use crate::strings::SortedNames;
use vstd::prelude::*;
use vstd::seq_lib::seq_to_set_is_finite;
use vstd::set::axiom_set_insert_len;
use vstd::set_lib::lemma_len_subset;

verus! {

/// Every name a recipe mentions, results first.
pub open spec fn recipe_names(r: Recipe) -> Seq<Seq<char>> {
    amount_names(r.spec_results()) + amount_names(r.spec_ingredients())
}

/// Every name any recipe of the list mentions.
pub open spec fn all_names(rs: Seq<Recipe>) -> Seq<Seq<char>>
    decreases rs.len(),
{
    if rs.len() == 0 {
        Seq::empty()
    } else {
        all_names(rs.drop_last()) + recipe_names(rs.last())
    }
}

/// The (finite) set of names the recipe list mentions.
pub open spec fn name_space(rs: Seq<Recipe>) -> Set<Seq<char>> {
    all_names(rs).to_set()
}

/// How much room is left before the cycle guard must stop the recursion.
pub open spec fn tier_room(rs: Seq<Recipe>, checking: Set<Seq<char>>) -> int {
    name_space(rs).len() - checking.len()
}

/// A name mentioned by one recipe is in the whole list's name space.
pub proof fn lemma_name_in_space(rs: Seq<Recipe>, i: int, n: Seq<char>)
    requires
        0 <= i < rs.len(),
        recipe_names(rs[i]).contains(n),
    ensures
        name_space(rs).contains(n),
    decreases rs.len(),
{
    if i == rs.len() - 1 {
        let k = choose|k: int| 0 <= k < recipe_names(rs[i]).len() && recipe_names(rs[i])[k] == n;
        assert(all_names(rs)[all_names(rs.drop_last()).len() + k] == n);
        assert(all_names(rs).contains(n));
    } else {
        assert(rs.drop_last()[i] == rs[i]);
        lemma_name_in_space(rs.drop_last(), i, n);
        let k = choose|k: int|
            0 <= k < all_names(rs.drop_last()).len() && all_names(rs.drop_last())[k] == n;
        assert(all_names(rs)[k] == n);
        assert(all_names(rs).contains(n));
    }
}

/// The tier of an item: zero for raw sources, else the best over its recipes.
pub open spec fn item_tier(
    rs: Seq<Recipe>,
    sources: Set<Seq<char>>,
    checking: Set<Seq<char>>,
    item: Seq<char>,
) -> u64
    decreases tier_room(rs, checking), 2int, 0int,
        when checking.finite() && checking.subset_of(name_space(rs))
{
    if sources.contains(item) {
        0
    } else {
        recipes_tier(rs, sources, checking, item, rs.len() as int)
    }
}

/// The largest recipe tier over the first `k` recipes that produce the item.
pub open spec fn recipes_tier(
    rs: Seq<Recipe>,
    sources: Set<Seq<char>>,
    checking: Set<Seq<char>>,
    item: Seq<char>,
    k: int,
) -> u64
    decreases tier_room(rs, checking), 1int, k,
        when 0 <= k <= rs.len() && checking.finite() && checking.subset_of(name_space(rs))
{
    if k <= 0 {
        0
    } else {
        let prev = recipes_tier(rs, sources, checking, item, k - 1);
        if has_amount(rs[k - 1].spec_results(), item) {
            let rt = ingredients_tier(
                rs,
                sources,
                checking,
                k - 1,
                rs[k - 1].spec_ingredients().len() as int,
            );
            if rt > prev {
                rt
            } else {
                prev
            }
        } else {
            prev
        }
    }
}

/// One above the deepest of the first `k` ingredients of one recipe, where
/// ingredients already being expanded are passed over.
pub open spec fn ingredients_tier(
    rs: Seq<Recipe>,
    sources: Set<Seq<char>>,
    checking: Set<Seq<char>>,
    ri: int,
    k: int,
) -> u64
    decreases tier_room(rs, checking), 0int, k,
        when 0 <= ri < rs.len() && 0 <= k <= rs[ri].spec_ingredients().len() && checking.finite()
            && checking.subset_of(name_space(rs))
        via ingredients_tier_decreases
{
    if k <= 0 {
        1
    } else {
        let prev = ingredients_tier(rs, sources, checking, ri, k - 1);
        let ing = rs[ri].spec_ingredients()[k - 1].name@;
        if checking.contains(ing) {
            prev
        } else {
            let sub = item_tier(rs, sources, checking.insert(ing), ing);
            let cand = if sub == u64::MAX {
                u64::MAX
            } else {
                (sub + 1) as u64
            };
            if cand > prev {
                cand
            } else {
                prev
            }
        }
    }
}

#[via_fn]
proof fn ingredients_tier_decreases(
    rs: Seq<Recipe>,
    sources: Set<Seq<char>>,
    checking: Set<Seq<char>>,
    ri: int,
    k: int,
) {
    if 0 < k {
        let ing = rs[ri].spec_ingredients()[k - 1].name@;
        if !checking.contains(ing) {
            lemma_room_shrinks(rs, checking, ri, k - 1);
        }
    }
}

/// Putting an unvisited ingredient on the path leaves strictly less room.
proof fn lemma_room_shrinks(rs: Seq<Recipe>, checking: Set<Seq<char>>, ri: int, j: int)
    requires
        0 <= ri < rs.len(),
        0 <= j < rs[ri].spec_ingredients().len(),
        checking.finite(),
        checking.subset_of(name_space(rs)),
        !checking.contains(rs[ri].spec_ingredients()[j].name@),
    ensures
        ({
            let ing = rs[ri].spec_ingredients()[j].name@;
            &&& name_space(rs).contains(ing)
            &&& checking.insert(ing).finite()
            &&& checking.insert(ing).subset_of(name_space(rs))
            &&& 0 <= tier_room(rs, checking.insert(ing)) < tier_room(rs, checking)
        }),
{
    let ing = rs[ri].spec_ingredients()[j].name@;
    assert(recipe_names(rs[ri]).contains(ing)) by {
        let names = recipe_names(rs[ri]);
        assert(names[amount_names(rs[ri].spec_results()).len() + j] == ing);
    }
    lemma_name_in_space(rs, ri, ing);
    seq_to_set_is_finite(all_names(rs));
    axiom_set_insert_len(checking, ing);
    lemma_len_subset(checking.insert(ing), name_space(rs));
}

impl RecipeSet {
    /// The tier of an item over this catalog, given the raw-source names.
    pub fn tier_of(&self, item: &str, sources: &SortedNames) -> (r: u64)
        ensures
            r == item_tier(
                self.spec_recipes(),
                sources.view().to_set(),
                Set::<Seq<char>>::empty(),
                item@,
            ),
    {
        let checking = SortedNames::new();
        proof {
            assert(checking.view().to_set() =~= Set::<Seq<char>>::empty());
        }
        self.tier_rec(item, sources, &checking)
    }

    /// Orders two items for resolution: deeper tier first, then by name.
    pub fn compare(&self, left: &str, right: &str, sources: &SortedNames) -> (r: Ordering)
        ensures
            ({
                let lt = item_tier(
                    self.spec_recipes(),
                    sources.view().to_set(),
                    Set::<Seq<char>>::empty(),
                    left@,
                );
                let rt = item_tier(
                    self.spec_recipes(),
                    sources.view().to_set(),
                    Set::<Seq<char>>::empty(),
                    right@,
                );
                &&& (r == Ordering::Less <==> (lt > rt || (lt == rt && crate::strings::lex_lt(
                    left@,
                    right@,
                ))))
                &&& (r == Ordering::Greater <==> (lt < rt || (lt == rt && crate::strings::lex_lt(
                    right@,
                    left@,
                ))))
                &&& (r == Ordering::Equal <==> (lt == rt && left@ == right@))
            }),
    {
        let lt = self.tier_of(left, sources);
        let rt = self.tier_of(right, sources);
        if lt > rt {
            Ordering::Less
        } else if lt < rt {
            Ordering::Greater
        } else if crate::strings::str_lt(left, right) {
            proof {
                crate::strings::lemma_lex_asym(left@, right@);
            }
            Ordering::Less
        } else if crate::strings::str_lt(right, left) {
            proof {
                crate::strings::lemma_lex_asym(right@, left@);
            }
            Ordering::Greater
        } else {
            proof {
                crate::strings::lemma_lex_total(left@, right@);
            }
            Ordering::Equal
        }
    }

    /// The tier computation, carrying the set of items on the current path.
    fn tier_rec(&self, item: &str, sources: &SortedNames, checking: &SortedNames) -> (r: u64)
        requires
            checking.wf(),
            forall|j: int|
                0 <= j < checking.view().len() ==> name_space(self.spec_recipes()).contains(
                    #[trigger] checking.view()[j],
                ),
        ensures
            r == item_tier(
                self.spec_recipes(),
                sources.view().to_set(),
                checking.view().to_set(),
                item@,
            ),
        decreases tier_room(self.spec_recipes(), checking.view().to_set()),
    {
        let ghost rs = self.spec_recipes();
        let ghost srcs = sources.view().to_set();
        let ghost chk = checking.view().to_set();
        proof {
            lemma_checking_set(self, checking);
        }
        if sources.contains(item) {
            return 0;
        }
        let n = self.recipes.len();
        let mut best: u64 = 0;
        let mut i: usize = 0;
        while i < n
            invariant
                i <= n,
                n == rs.len(),
                rs == self.spec_recipes(),
                srcs == sources.view().to_set(),
                chk == checking.view().to_set(),
                checking.wf(),
                forall|j: int|
                    0 <= j < checking.view().len() ==> name_space(self.spec_recipes()).contains(
                        #[trigger] checking.view()[j],
                    ),
                chk.finite(),
                chk.subset_of(name_space(rs)),
                !srcs.contains(item@),
                best == recipes_tier(rs, srcs, chk, item@, i as int),
            decreases n - i,
        {
            if self.recipes[i].has_result(item) {
                let ings = self.recipes[i].ingredients();
                let m = ings.len();
                let mut rt: u64 = 1;
                let mut j: usize = 0;
                while j < m
                    invariant
                        j <= m,
                        i < n,
                        n == rs.len(),
                        rs == self.spec_recipes(),
                        srcs == sources.view().to_set(),
                        chk == checking.view().to_set(),
                        checking.wf(),
                        forall|jj: int|
                            0 <= jj < checking.view().len() ==> name_space(
                                self.spec_recipes(),
                            ).contains(#[trigger] checking.view()[jj]),
                        chk.finite(),
                        chk.subset_of(name_space(rs)),
                        ings@ == rs[i as int].spec_ingredients(),
                        m == ings@.len(),
                        rt == ingredients_tier(rs, srcs, chk, i as int, j as int),
                    decreases m - j,
                {
                    let ghost ing_view = ings@[j as int].name@;
                    if !checking.contains(ings[j].name.as_str()) {
                        proof {
                            lemma_room_shrinks(rs, chk, i as int, j as int);
                        }
                        let mut chk2 = checking.duplicate();
                        chk2.insert(ings[j].name.clone());
                        proof {
                            assert(chk2.view().to_set() =~= chk.insert(ing_view));
                            assert forall|jj: int|
                                0 <= jj < chk2.view().len() implies name_space(
                                self.spec_recipes(),
                            ).contains(#[trigger] chk2.view()[jj]) by {
                                assert(chk2.view().contains(chk2.view()[jj]));
                                assert(chk.insert(ing_view).contains(chk2.view()[jj]));
                            }
                        }
                        let sub = self.tier_rec(ings[j].name.as_str(), sources, &chk2);
                        let cand: u64 = if sub == u64::MAX {
                            u64::MAX
                        } else {
                            sub + 1
                        };
                        if cand > rt {
                            rt = cand;
                        }
                    }
                    j = j + 1;
                }
                if rt > best {
                    best = rt;
                }
            }
            i = i + 1;
        }
        best
    }
}

/// A well-formed checking list names a finite subset of the name space.
proof fn lemma_checking_set(rset: &RecipeSet, checking: &SortedNames)
    requires
        checking.wf(),
        forall|j: int|
            0 <= j < checking.view().len() ==> name_space(rset.spec_recipes()).contains(
                #[trigger] checking.view()[j],
            ),
    ensures
        checking.view().to_set().finite(),
        checking.view().to_set().subset_of(name_space(rset.spec_recipes())),
{
    seq_to_set_is_finite(checking.view());
    assert forall|x: Seq<char>|
        checking.view().to_set().contains(x) implies name_space(rset.spec_recipes()).contains(
        x,
    ) by {
        let k = choose|k: int| 0 <= k < checking.view().len() && checking.view()[k] == x;
    }
}

} // verus!
