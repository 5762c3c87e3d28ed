//! The supporting pieces: rendering, configuration files and lookups.

use factory_planner::cfg_file::Cfg;
use factory_planner::config::Config;
use factory_planner::dec::u64_to_string;
use factory_planner::graph::{name_escape, Counter, GraphFormatter};
use factory_planner::near_name::NameSet;
use factory_planner::processer::{ProcSet, Processer, ProcesserChoice};
use factory_planner::recipe::{ItemAmount, Recipe, RecipeSet};
use factory_planner::solver::Solver;
use factory_planner::sources::SourceSets;
use factory_planner::stack::StackDict;
use factory_planner::target::TargetSettings;
use factory_planner::technology::{Array, Empty, LocalisedName};
use factory_planner::text::{format_rate2, TextFormatter};
use factory_planner::SCALE;

#[test]
fn numbers_print_in_decimal() {
    assert_eq!(u64_to_string(0), "0");
    assert_eq!(u64_to_string(7), "7");
    assert_eq!(u64_to_string(123), "123");
    assert_eq!(u64_to_string(1_000_000), "1000000");
}

#[test]
fn rates_round_up_to_two_places() {
    assert_eq!(format_rate2(2 * SCALE), "2.00");
    assert_eq!(format_rate2(SCALE / 2), "0.50");
    assert_eq!(format_rate2(1_234_567), "1.24");
}

#[test]
fn name_escape_replaces_hyphens() {
    assert_eq!(name_escape("iron-gear-wheel"), "iron_gear_wheel");
    assert_eq!(name_escape("water"), "water");
}

#[test]
fn counter_hands_out_increasing_numbers() {
    let mut c = Counter::new();
    assert_eq!(c.next_mid(), 0);
    assert_eq!(c.next_mid(), 1);
    assert_eq!(c.next_mid(), 2);
}

fn gear_solution() -> factory_planner::solution::Solution {
    let mut recipes = RecipeSet::new();
    recipes.append_recipes(vec![Recipe::new(
        "gear".to_string(),
        "assembler".to_string(),
        SCALE,
        false,
        vec![ItemAmount { name: "gear".to_string(), num: SCALE }],
        vec![ItemAmount { name: "plate".to_string(), num: 2 * SCALE }],
    )
    .unwrap()]);
    let mut targets = TargetSettings::new();
    targets.add_target("gear".to_string(), 2 * SCALE);
    targets.add_source("plate".to_string());
    let procs = ProcSet::from_processers(vec![Processer::new(
        "assembler".to_string(),
        "assembler".to_string(),
        SCALE,
        1_250_000,
        8,
        0,
        0,
        0,
        0,
    )
    .unwrap()]);
    let mut solver = Solver::new(recipes, &targets, procs, ProcesserChoice::new());
    solver.solve().unwrap()
}

#[test]
fn text_format_shows_the_whole_plan() {
    let solution = gear_solution();
    let text = TextFormatter::new().format(&solution);
    assert!(text.contains("[ ] Processing tree [gear]:"));
    assert!(text.contains("gear: 2.00 item/s"));
    assert!(text.contains("assembler 2 units, 2.00 craft/s"));
    assert!(text.contains("source of plate: 4.00 item/s"));
    assert!(text.contains("Source throughputs:"));
}

#[test]
fn graph_format_needs_a_clean_plan() {
    let solution = gear_solution();
    let dot = GraphFormatter::new().format(&solution).expect("nothing is missing");
    assert!(dot.contains("digraph solution {"));
    assert!(dot.contains("source_plate -> proc_gear"));
    // A plan with missing items cannot become a graph.
    let recipes = RecipeSet::new();
    let mut targets = TargetSettings::new();
    targets.add_target("mystery".to_string(), SCALE);
    let mut solver = Solver::new(
        recipes,
        &targets,
        ProcSet::from_processers(vec![]),
        ProcesserChoice::new(),
    );
    let broken = solver.solve().unwrap();
    assert!(GraphFormatter::new().format(&broken).is_none());
}

#[test]
fn cfg_lines_parse_into_prefixed_keys() {
    let lines = vec![
        "[item-name]".to_string(),
        "iron-plate=Iron plate".to_string(),
        "  gear=Gear  ".to_string(),
        "no separator line".to_string(),
        "[other]".to_string(),
        "iron-plate=Other plate".to_string(),
    ];
    let cfg = Cfg::parse_lines(&lines);
    assert_eq!(cfg.get("item-name.iron-plate"), Some("Iron plate"));
    assert_eq!(cfg.get("item-name.gear"), Some("Gear"));
    assert_eq!(cfg.get("other.iron-plate"), Some("Other plate"));
    assert_eq!(cfg.get("item-name.missing"), None);
}

#[test]
fn config_builds_the_locale_path() {
    let config = Config::new("/games/base".to_string(), "en".to_string());
    assert_eq!(
        config.base_mod_locale_path(),
        "/games/base/data/base/locale/en/base.cfg"
    );
}

#[test]
fn source_sets_look_up_by_name_or_suggest() {
    let sets = SourceSets::from_pairs(
        vec!["basic".to_string(), "none".to_string()],
        vec![vec!["iron-plate".to_string(), "water".to_string()], vec![]],
    )
    .unwrap();
    assert_eq!(
        sets.get("basic").unwrap(),
        &vec!["iron-plate".to_string(), "water".to_string()]
    );
    let err = sets.get("basik").unwrap_err();
    assert_eq!(err.name, "basik");
    assert_eq!(err.candidates, vec!["basic".to_string()]);
}

#[test]
fn stack_dict_stores_sizes() {
    let dict = StackDict::from_pairs(vec![
        ("iron-plate".to_string(), 100),
        ("gear".to_string(), 50),
    ]);
    assert_eq!(dict.get("iron-plate"), Some(100));
    assert_eq!(dict.get("gear"), Some(50));
    assert_eq!(dict.get("water"), None);
    assert_eq!(dict.names(), vec!["iron-plate".to_string(), "gear".to_string()]);
}

#[test]
fn name_set_finds_the_nearest_names() {
    let mut names = NameSet::new();
    names.add_names(vec![
        "iron-plate".to_string(),
        "iron-gear".to_string(),
        "copper-plate".to_string(),
    ]);
    // The single closest name, ranked ahead of the farther one.
    let found = names.find_nearest_names("iron-plat", 2);
    assert_eq!(found[0], "iron-plate");
    // A bound of zero returns nothing.
    assert!(names.find_nearest_names("iron-plat", 0).is_empty());
}

#[test]
fn localised_names_resolve_through_the_locale() {
    let mut locale = Cfg::new();
    locale.insert("item-name.gear".to_string(), "Gear wheel".to_string());
    let name = LocalisedName::List(vec![LocalisedName::Single("item-name.gear".to_string())]);
    assert_eq!(name.apply_locale(&locale), "Gear wheel");
    let joined = LocalisedName::List(vec![
        LocalisedName::Single("a".to_string()),
        LocalisedName::Single("b".to_string()),
    ]);
    assert_eq!(joined.apply_locale(&locale), "ab");
}

#[test]
fn arrays_iterate_their_elements() {
    let filled: Array<u64> = Array::Filled(vec![1, 2, 3]);
    let mut it = filled.iter();
    assert_eq!(it.next(), Some(&1));
    assert_eq!(it.next(), Some(&2));
    assert_eq!(it.next(), Some(&3));
    assert_eq!(it.next(), None);
    let empty: Array<u64> = Array::Empty(Empty {});
    assert_eq!(empty.iter().next(), None);
}
