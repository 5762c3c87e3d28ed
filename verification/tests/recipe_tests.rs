//! The recipe catalog: lookups, ordering and name suggestions.

use core::cmp::Ordering;
use factory_planner::recipe::{ItemAmount, Recipe, RecipeSet};
use factory_planner::strings::SortedNames;
use factory_planner::SCALE;

fn amount(name: &str, num: u64) -> ItemAmount {
    ItemAmount { name: name.to_string(), num }
}

fn simple_recipe(name: &str, cost: u64, results: Vec<ItemAmount>, ingredients: Vec<ItemAmount>) -> Recipe {
    Recipe::new(name.to_string(), "assembler".to_string(), cost, false, results, ingredients)
        .expect("recipe inputs are sorted and positive")
}

#[test]
fn should_find_recipe_with_result() {
    let mut recipe_set = RecipeSet::new();
    recipe_set.append_recipes(vec![
        simple_recipe(
            "iron-gear-wheel",
            SCALE / 2,
            vec![amount("iron-gear-wheel", SCALE)],
            vec![amount("iron-plate", 2 * SCALE)],
        ),
        simple_recipe(
            "electronic-circuit",
            SCALE / 2,
            vec![amount("electronic-circuit", SCALE)],
            vec![amount("copper-cable", 3 * SCALE), amount("iron-plate", SCALE)],
        ),
    ]);

    let gear_recipes = recipe_set.find_recipes("iron-gear-wheel");

    assert_eq!(gear_recipes.len(), 1);
    assert_eq!(gear_recipes[0].recipe_type(), "assembler");
    assert_eq!(gear_recipes[0].cost(), SCALE / 2);
    assert_eq!(gear_recipes[0].result_num("iron-gear-wheel"), SCALE);
    assert_eq!(gear_recipes[0].ingredients()[0].name, "iron-plate");
    assert_eq!(gear_recipes[0].ingredients()[0].num, 2 * SCALE);
}

#[test]
fn compare_should_be_tranisitive() {
    let mut recipe_set = RecipeSet::new();
    recipe_set.append_recipes(vec![
        simple_recipe("ba", SCALE / 2, vec![amount("ba", SCALE)], vec![amount("aa", SCALE)]),
        simple_recipe("bb", SCALE / 2, vec![amount("bb", SCALE)], vec![amount("aa", SCALE)]),
        simple_recipe("ca", SCALE / 2, vec![amount("ca", SCALE)], vec![amount("ba", SCALE)]),
    ]);
    let sources = SortedNames::from_names(vec![]);

    assert_eq!(recipe_set.compare("ba", "aa", &sources), Ordering::Less);
    assert_eq!(recipe_set.compare("bb", "aa", &sources), Ordering::Less);

    assert_eq!(recipe_set.compare("ba", "bb", &sources), Ordering::Less);

    assert_eq!(recipe_set.compare("ca", "ba", &sources), Ordering::Less);
    assert_eq!(recipe_set.compare("ca", "aa", &sources), Ordering::Less);

    assert_eq!(recipe_set.compare("ca", "bb", &sources), Ordering::Less);
}

#[test]
fn tier_counts_stages_from_raw_sources() {
    let mut recipe_set = RecipeSet::new();
    recipe_set.append_recipes(vec![
        simple_recipe("gear", SCALE, vec![amount("gear", SCALE)], vec![amount("plate", 2 * SCALE)]),
        simple_recipe("belt", SCALE, vec![amount("belt", SCALE)], vec![amount("gear", SCALE), amount("plate", SCALE)]),
    ]);
    let sources = SortedNames::from_names(vec!["plate".to_string()]);

    assert_eq!(recipe_set.tier_of("plate", &sources), 0);
    assert_eq!(recipe_set.tier_of("gear", &sources), 1);
    assert_eq!(recipe_set.tier_of("belt", &sources), 2);
    assert_eq!(recipe_set.tier_of("unknown-item", &sources), 0);
}

#[test]
fn tier_survives_recipe_cycles() {
    // Each item consumes the other: the per-path guard cuts the loop.
    let mut recipe_set = RecipeSet::new();
    recipe_set.append_recipes(vec![
        simple_recipe("loop-a", SCALE, vec![amount("loop-a", SCALE)], vec![amount("loop-b", SCALE)]),
        simple_recipe("loop-b", SCALE, vec![amount("loop-b", SCALE)], vec![amount("loop-a", SCALE)]),
    ]);
    let sources = SortedNames::from_names(vec![]);

    assert_eq!(recipe_set.tier_of("loop-a", &sources), 3);
    assert_eq!(recipe_set.tier_of("loop-b", &sources), 3);
}

#[test]
fn rejects_unsorted_or_empty_recipes() {
    // No results at all.
    assert!(Recipe::new(
        "empty".to_string(),
        "assembler".to_string(),
        SCALE,
        false,
        vec![],
        vec![],
    )
    .is_none());
    // A zero result quantity.
    assert!(Recipe::new(
        "zero".to_string(),
        "assembler".to_string(),
        SCALE,
        false,
        vec![amount("zero", 0)],
        vec![],
    )
    .is_none());
    // Ingredients out of order.
    assert!(Recipe::new(
        "unsorted".to_string(),
        "assembler".to_string(),
        SCALE,
        false,
        vec![amount("unsorted", SCALE)],
        vec![amount("b", SCALE), amount("a", SCALE)],
    )
    .is_none());
}

#[test]
fn find_did_you_mean_suggests_near_results() {
    let mut recipe_set = RecipeSet::new();
    recipe_set.append_recipes(vec![
        simple_recipe(
            "copper-plate",
            SCALE,
            vec![amount("copper-plate", SCALE)],
            vec![amount("copper-ore", SCALE)],
        ),
        simple_recipe("gear", SCALE, vec![amount("gear", SCALE)], vec![amount("plate", SCALE)]),
    ]);

    // One edit away: the real name must come back.
    let suggestions = recipe_set.find_did_you_mean("coper-plate");
    assert_eq!(suggestions, vec!["copper-plate".to_string()]);

    // Far from everything: nothing to offer.
    let none = recipe_set.find_did_you_mean("zzzzzzzzzzzz");
    assert!(none.is_empty());
}

#[test]
fn all_results_is_sorted_and_complete() {
    let mut recipe_set = RecipeSet::new();
    recipe_set.append_recipes(vec![
        simple_recipe("gear", SCALE, vec![amount("gear", SCALE)], vec![amount("plate", SCALE)]),
        simple_recipe("belt", SCALE, vec![amount("belt", SCALE)], vec![amount("gear", SCALE)]),
    ]);
    let results = recipe_set.all_results();
    assert_eq!(results, vec!["belt".to_string(), "gear".to_string()]);
}
