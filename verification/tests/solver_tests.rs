//! The resolver: full solves over small catalogs.

use factory_planner::error::SolveError;
use factory_planner::processer::{ProcSet, Processer, ProcesserChoice};
use factory_planner::recipe::{ItemAmount, Recipe, RecipeSet};
use factory_planner::solution::{Solution, Source, Throughput};
use factory_planner::solver::Solver;
use factory_planner::target::TargetSettings;
use factory_planner::SCALE;

fn amount(name: &str, num: u64) -> ItemAmount {
    ItemAmount { name: name.to_string(), num }
}

fn recipe(name: &str, cost: u64, results: Vec<ItemAmount>, ingredients: Vec<ItemAmount>) -> Recipe {
    Recipe::new(name.to_string(), "assembler".to_string(), cost, false, results, ingredients)
        .expect("recipe inputs are sorted and positive")
}

fn one_assembler() -> ProcSet {
    ProcSet::from_processers(vec![Processer::new(
        "assembler".to_string(),
        "assembler".to_string(),
        SCALE,
        1_250_000,
        8,
        0,
        0,
        0,
        0,
    )
    .unwrap()])
}

fn rate_for(solution: &Solution, name: &str) -> Option<u64> {
    for t in &solution.sources {
        if t.name() == name {
            return Some(t.throughput());
        }
    }
    None
}

#[test]
fn gear_from_plates() {
    // One recipe, one raw source, one target at two per second.
    let mut recipes = RecipeSet::new();
    recipes.append_recipes(vec![recipe(
        "gear",
        SCALE,
        vec![amount("gear", SCALE)],
        vec![amount("plate", 2 * SCALE)],
    )]);
    let mut targets = TargetSettings::new();
    targets.add_target("gear".to_string(), 2 * SCALE);
    targets.add_source("plate".to_string());

    let mut solver = Solver::new(recipes, &targets, one_assembler(), ProcesserChoice::new());
    let solution = solver.solve().expect("the catalog has an assembler");

    assert_eq!(solution.trees.len(), 1);
    let process = &solution.trees[0].process;
    assert_eq!(process.throughput.name(), "gear");
    assert_eq!(process.throughput.throughput(), 2 * SCALE);
    // craft rate = 2 / (1.0 productivity x 1 yield) = 2/s.
    assert_eq!(process.craft_per_sec, 2 * SCALE);
    // machines = ceil(cost 1.0 x craft 2.0 / speed 1.25) = 2.
    assert_eq!(process.processer_num, 2);
    // One Source terminal: plate at 2 x craft = 4/s.
    assert_eq!(process.sources.len(), 1);
    match &process.sources[0] {
        Source::Source(t) => {
            assert_eq!(t.name(), "plate");
            assert_eq!(t.throughput(), 4 * SCALE);
        },
        other => panic!("expected a raw-source terminal, got {:?}", other),
    }
    // The report totals exactly that draw, and nothing is missing.
    assert_eq!(rate_for(&solution, "plate"), Some(4 * SCALE));
    assert_eq!(solution.sources.len(), 1);
    assert!(solution.missings.is_empty());
}

#[test]
fn productivity_divides_the_craft_rate() {
    // A 1.4x machine crafts 5 times per second to emit 7 items per second.
    let mut recipes = RecipeSet::new();
    recipes.append_recipes(vec![Recipe::new(
        "gear".to_string(),
        "assembler".to_string(),
        SCALE,
        true,
        vec![amount("gear", SCALE)],
        vec![amount("plate", 2 * SCALE)],
    )
    .unwrap()]);
    let mut targets = TargetSettings::new();
    targets.add_target("gear".to_string(), 7 * SCALE);
    targets.add_source("plate".to_string());
    let procs = ProcSet::from_processers(vec![Processer::new(
        "assembler-prod".to_string(),
        "assembler".to_string(),
        1_400_000,
        1_250_000,
        8,
        0,
        0,
        2,
        0,
    )
    .unwrap()]);

    let mut solver = Solver::new(recipes, &targets, procs, ProcesserChoice::new());
    let solution = solver.solve().unwrap();

    let process = &solution.trees[0].process;
    assert_eq!(process.craft_per_sec, 5 * SCALE);
    // Ten plates per second feed those five crafts.
    assert_eq!(rate_for(&solution, "plate"), Some(10 * SCALE));
    // machines = ceil(cost 1.0 x craft 5.0 / speed 1.25) = 4.
    assert_eq!(process.processer_num, 4);
}

#[test]
fn unknown_target_degrades_to_source() {
    let recipes = RecipeSet::new();
    let mut targets = TargetSettings::new();
    targets.add_target("mystery-item".to_string(), 3 * SCALE);

    let mut solver = Solver::new(recipes, &targets, one_assembler(), ProcesserChoice::new());
    let solution = solver.solve().unwrap();

    assert_eq!(solution.trees.len(), 0);
    // Exactly one accumulation: the requested rate under the missing name.
    assert_eq!(solution.sources.len(), 1);
    assert_eq!(rate_for(&solution, "mystery-item"), Some(3 * SCALE));
    assert_eq!(solution.missings.len(), 1);
    assert_eq!(solution.missings[0].name, "mystery-item");
}

#[test]
fn merge_point_is_solved_once_at_the_combined_rate() {
    // Two targets both need the merge point; it gets one shared tree.
    let mut recipes = RecipeSet::new();
    recipes.append_recipes(vec![
        recipe("alpha", SCALE, vec![amount("alpha", SCALE)], vec![amount("shared", SCALE)]),
        recipe("beta", SCALE, vec![amount("beta", SCALE)], vec![amount("shared", SCALE)]),
        recipe("shared", SCALE, vec![amount("shared", SCALE)], vec![amount("plate", SCALE)]),
    ]);
    let mut targets = TargetSettings::new();
    targets.add_target("alpha".to_string(), SCALE);
    targets.add_target("beta".to_string(), SCALE);
    targets.add_source("plate".to_string());
    targets.add_mergeds(vec!["shared".to_string()]);

    let mut solver = Solver::new(recipes, &targets, one_assembler(), ProcesserChoice::new());
    let solution = solver.solve().unwrap();

    assert_eq!(solution.trees.len(), 3);
    let mut merged_terminals = 0;
    let mut shared_roots = 0;
    for tree in &solution.trees {
        for s in &tree.process.sources {
            if let Source::Merged(t) = s {
                assert_eq!(t.name(), "shared");
                assert_eq!(t.throughput(), SCALE);
                merged_terminals += 1;
            }
        }
        if tree.process.throughput.name() == "shared" {
            shared_roots += 1;
            // Both demands merged before the shared tree was expanded.
            assert_eq!(tree.process.throughput.throughput(), 2 * SCALE);
        }
    }
    assert_eq!(merged_terminals, 2);
    assert_eq!(shared_roots, 1);
    assert_eq!(rate_for(&solution, "plate"), Some(2 * SCALE));
}

#[test]
fn missing_item_appears_once_but_sums_all_branches() {
    // Two branches demand an unproducible item at different rates.
    let mut recipes = RecipeSet::new();
    recipes.append_recipes(vec![
        recipe("alpha", SCALE, vec![amount("alpha", SCALE)], vec![amount("mystery", SCALE)]),
        recipe("beta", SCALE, vec![amount("beta", SCALE)], vec![amount("mystery", 2 * SCALE)]),
    ]);
    let mut targets = TargetSettings::new();
    targets.add_target("alpha".to_string(), SCALE);
    targets.add_target("beta".to_string(), SCALE);

    let mut solver = Solver::new(recipes, &targets, one_assembler(), ProcesserChoice::new());
    let solution = solver.solve().unwrap();

    assert_eq!(solution.missings.len(), 1);
    assert_eq!(solution.missings[0].name, "mystery");
    // 1 x alpha craft + 2 x beta craft = 3/s in total.
    assert_eq!(rate_for(&solution, "mystery"), Some(3 * SCALE));
}

#[test]
fn liquids_are_tagged_in_the_report() {
    let mut recipes = RecipeSet::new();
    recipes.append_recipes(vec![recipe(
        "sulfur",
        SCALE,
        vec![amount("sulfur", SCALE)],
        vec![amount("petroleum-gas", 3 * SCALE)],
    )]);
    let mut targets = TargetSettings::new();
    targets.add_target("sulfur".to_string(), SCALE);
    targets.add_source("petroleum-gas".to_string());

    let mut solver = Solver::new(recipes, &targets, one_assembler(), ProcesserChoice::new());
    let solution = solver.solve().unwrap();

    assert_eq!(solution.sources.len(), 1);
    match &solution.sources[0] {
        Throughput::Liquid(n, t) => {
            assert_eq!(n, "petroleum-gas");
            assert_eq!(*t, 3 * SCALE);
        },
        other => panic!("expected a liquid, got {:?}", other),
    }
}

#[test]
fn missing_processer_aborts_the_solve() {
    let mut recipes = RecipeSet::new();
    recipes.append_recipes(vec![recipe(
        "gear",
        SCALE,
        vec![amount("gear", SCALE)],
        vec![amount("plate", SCALE)],
    )]);
    let mut targets = TargetSettings::new();
    targets.add_target("gear".to_string(), SCALE);
    targets.add_source("plate".to_string());
    let empty_set = ProcSet::from_processers(vec![]);

    let mut solver = Solver::new(recipes, &targets, empty_set, ProcesserChoice::new());
    assert_eq!(solver.solve().unwrap_err(), SolveError::NoProcesser);
}

#[test]
fn unbounded_self_recursion_hits_the_budget() {
    // An item that consumes itself, with no merge point to break the loop.
    let mut recipes = RecipeSet::new();
    recipes.append_recipes(vec![recipe(
        "ouroboros",
        SCALE,
        vec![amount("ouroboros", SCALE)],
        vec![amount("ouroboros", SCALE)],
    )]);
    let mut targets = TargetSettings::new();
    targets.add_target("ouroboros".to_string(), SCALE);

    let mut solver = Solver::new(recipes, &targets, one_assembler(), ProcesserChoice::new());
    assert_eq!(solver.solve().unwrap_err(), SolveError::ResolutionLimit);
}

#[test]
fn merge_ping_pong_hits_the_step_budget() {
    // Two merge points that each re-queue the other can never settle.
    let mut recipes = RecipeSet::new();
    recipes.append_recipes(vec![
        recipe("ping", SCALE, vec![amount("ping", SCALE)], vec![amount("pong", SCALE)]),
        recipe("pong", SCALE, vec![amount("pong", SCALE)], vec![amount("ping", SCALE)]),
    ]);
    let mut targets = TargetSettings::new();
    targets.add_target("ping".to_string(), SCALE);
    targets.add_mergeds(vec!["ping".to_string(), "pong".to_string()]);

    let mut solver = Solver::new(recipes, &targets, one_assembler(), ProcesserChoice::new());
    assert_eq!(solver.solve().unwrap_err(), SolveError::ResolutionLimit);
}

#[test]
fn solving_twice_gives_identical_solutions() {
    let build = || {
        let mut recipes = RecipeSet::new();
        recipes.append_recipes(vec![
            recipe("gear", SCALE, vec![amount("gear", SCALE)], vec![amount("plate", 2 * SCALE)]),
            recipe("belt", SCALE, vec![amount("belt", SCALE)], vec![
                amount("gear", SCALE),
                amount("plate", SCALE),
            ]),
        ]);
        let mut targets = TargetSettings::new();
        targets.add_target("belt".to_string(), 3 * SCALE);
        targets.add_source("plate".to_string());
        Solver::new(recipes, &targets, one_assembler(), ProcesserChoice::new())
    };
    let first = build().solve().unwrap();
    let second = build().solve().unwrap();
    assert_eq!(first, second);
}

#[test]
fn all_merged_turns_every_intermediate_into_a_merge_point() {
    let mut recipes = RecipeSet::new();
    recipes.append_recipes(vec![
        recipe("gear", SCALE, vec![amount("gear", SCALE)], vec![amount("plate", 2 * SCALE)]),
        recipe("belt", SCALE, vec![amount("belt", SCALE)], vec![
            amount("gear", SCALE),
            amount("plate", SCALE),
        ]),
    ]);
    let mut targets = TargetSettings::new();
    targets.add_target("belt".to_string(), SCALE);
    targets.add_source("plate".to_string());

    let mut solver = Solver::new(recipes, &targets, one_assembler(), ProcesserChoice::new());
    solver.all_merged(true);
    let solution = solver.solve().unwrap();
    // The gear demand leaves the belt tree and gets its own.
    assert_eq!(solution.trees.len(), 2);

    // The never-merge override wins over the global flag.
    let mut recipes2 = RecipeSet::new();
    recipes2.append_recipes(vec![
        recipe("gear", SCALE, vec![amount("gear", SCALE)], vec![amount("plate", 2 * SCALE)]),
        recipe("belt", SCALE, vec![amount("belt", SCALE)], vec![
            amount("gear", SCALE),
            amount("plate", SCALE),
        ]),
    ]);
    let mut targets2 = TargetSettings::new();
    targets2.add_target("belt".to_string(), SCALE);
    targets2.add_source("plate".to_string());
    let mut solver2 = Solver::new(recipes2, &targets2, one_assembler(), ProcesserChoice::new());
    solver2.all_merged(true);
    solver2.never_merged(vec!["gear".to_string()]);
    let solution2 = solver2.solve().unwrap();
    assert_eq!(solution2.trees.len(), 1);
}

#[test]
fn multiply_scales_every_target() {
    let mut targets = TargetSettings::new();
    targets.add_target("gear".to_string(), 2 * SCALE);
    targets.add_target("belt".to_string(), SCALE);
    targets.multiply(SCALE / 2);
    let flows = targets.targets();
    for f in &flows {
        if f.name == "gear" {
            assert_eq!(f.throughput, SCALE);
        } else {
            assert_eq!(f.name, "belt");
            assert_eq!(f.throughput, SCALE / 2);
        }
    }
    assert_eq!(flows.len(), 2);
}
