//! Machine building and the constrained best-machine choice.

use factory_planner::error::SolveError;
use factory_planner::processer::{
    build_proc, gen_ps_tuples, Configulation, ProcSet, Processer, ProcesserChoice,
};
use factory_planner::SCALE;

const NO_BEACON: Configulation = Configulation { beacon: 0, io: 8 };
const BEACON4: Configulation = Configulation { beacon: 4, io: 6 };
const BEACON8: Configulation = Configulation { beacon: 8, io: 4 };

#[test]
fn with_assembler() {
    let samples = [
        ((0usize, 0usize), &NO_BEACON, 1_000_000u64, 1_250_000u64),
        ((1, 0), &NO_BEACON, 1_100_000, 1_062_500),
        ((3, 1), &NO_BEACON, 1_300_000, 1_312_500),
        ((4, 0), &BEACON4, 1_400_000, 3_000_000),
        ((4, 0), &BEACON8, 1_400_000, 5_500_000),
    ];

    for (mods, conf, prod_tobe, speed_tobe) in &samples {
        let p = build_proc("assembler3", "assembler", 1_250_000, 3, mods, conf)
            .expect("combination is representable");

        assert_eq!(
            p.productivity(),
            *prod_tobe,
            "mismatch prod with (p, s) = {:?}, beacon = {}",
            mods,
            conf.beacon
        );
        assert_eq!(
            p.speed(),
            *speed_tobe,
            "mismatch speed with (p, s) = {:?}, beacon = {}",
            mods,
            conf.beacon
        );
    }
}

#[test]
fn with_furnace() {
    let samples = [
        ((0usize, 0usize), &NO_BEACON, 1_000_000u64, 2_000_000u64),
        ((1, 0), &NO_BEACON, 1_100_000, 1_700_000),
        ((1, 1), &NO_BEACON, 1_100_000, 2_700_000),
        ((2, 0), &NO_BEACON, 1_200_000, 1_400_000),
        ((2, 0), &BEACON4, 1_200_000, 5_400_000),
        ((2, 0), &BEACON8, 1_200_000, 9_400_000),
    ];

    for (mods, conf, prod_tobe, speed_tobe) in &samples {
        let p = build_proc("furnace", "furnace", 2_000_000, 0, mods, conf)
            .expect("combination is representable");

        assert_eq!(
            p.productivity(),
            *prod_tobe,
            "mismatch prod with (p, s) = {:?}, beacon = {}",
            mods,
            conf.beacon
        );
        assert_eq!(
            p.speed(),
            *speed_tobe,
            "mismatch speed with (p, s) = {:?}, beacon = {}",
            mods,
            conf.beacon
        );
    }
}

#[test]
fn build_proc_names_the_modules() {
    let p = build_proc("assembler3", "assembler", 1_250_000, 3, &(3, 1), &BEACON4).unwrap();
    assert_eq!(p.name(), "assembler3-p3-s1-b4");
    let plain = build_proc("furnace", "furnace", 2_000_000, 0, &(0, 0), &NO_BEACON).unwrap();
    assert_eq!(plain.name(), "furnace");
}

#[test]
fn gen_ps_tuples_lists_the_layouts() {
    assert_eq!(gen_ps_tuples(0), vec![(0, 0)]);
    assert_eq!(
        gen_ps_tuples(3),
        vec![(0, 0), (3, 0), (2, 1), (0, 1), (0, 2), (0, 3)]
    );
}

fn mk(name: &str, kind: &str, prod: u64, speed: u64, io: usize, tier: usize, sm: usize, pm: usize, b: usize) -> Processer {
    Processer::new(name.to_string(), kind.to_string(), prod, speed, io, tier, sm, pm, b)
        .expect("positive speed and productivity")
}

fn open_choice() -> ProcesserChoice {
    ProcesserChoice::new()
}

#[test]
fn best_processer_prefers_productivity_then_fewer_machines() {
    let set = ProcSet::from_processers(vec![
        mk("assembler", "assembler", SCALE, 1_250_000, 4, 0, 0, 0, 0),
        mk("assembler-p2", "assembler", 1_200_000, 1_000_000, 4, 0, 0, 2, 0),
        mk("assembler-s2", "assembler", SCALE, 2_500_000, 4, 0, 2, 0, 0),
    ]);
    // Productivity dominates: the slower but more productive machine wins.
    let p = set
        .best_processer("assembler", 2, true, 10 * SCALE, &open_choice())
        .unwrap();
    assert_eq!(p.name(), "assembler-p2");
}

#[test]
fn best_processer_respects_the_policy() {
    let set = ProcSet::from_processers(vec![
        mk("assembler", "assembler", SCALE, 1_250_000, 4, 0, 0, 0, 0),
        mk("assembler-p2", "assembler", 1_200_000, 1_000_000, 4, 0, 0, 2, 0),
    ]);
    // Productivity modules forbidden: the plain machine is chosen.
    let choice = open_choice().productivity_module(false);
    let p = set
        .best_processer("assembler", 2, true, 10 * SCALE, &choice)
        .unwrap();
    assert_eq!(p.name(), "assembler");
    // Productivity modules on a non-material recipe are out too.
    let p2 = set
        .best_processer("assembler", 2, false, 10 * SCALE, &open_choice())
        .unwrap();
    assert_eq!(p2.name(), "assembler");
}

#[test]
fn best_processer_fails_without_candidates() {
    let set = ProcSet::from_processers(vec![
        mk("assembler", "assembler", SCALE, 1_250_000, 2, 0, 0, 0, 0),
    ]);
    // No machine runs this process kind.
    let err = set.best_processer("furnace", 1, true, SCALE, &open_choice());
    assert_eq!(err.unwrap_err(), SolveError::NoProcesser);
    // The only machine has too few ingredient slots.
    let err2 = set.best_processer("assembler", 2, true, SCALE, &open_choice());
    assert_eq!(err2.unwrap_err(), SolveError::NoProcesser);
}

#[test]
fn best_processer_right_sizes_small_demands() {
    let set = ProcSet::from_processers(vec![
        mk("small", "assembler", SCALE, SCALE, 4, 0, 0, 0, 0),
        mk("large", "assembler", SCALE, 10 * SCALE, 4, 0, 0, 0, 0),
    ]);
    // Half a unit of work: the small machine alone suffices, so the big one
    // is not taken even though both need one unit.
    let p = set
        .best_processer("assembler", 2, true, SCALE / 2, &open_choice())
        .unwrap();
    assert_eq!(p.name(), "small");
    // Twenty units of work: now real counts decide, and the big machine
    // needs far fewer units.
    let p2 = set
        .best_processer("assembler", 2, true, 20 * SCALE, &open_choice())
        .unwrap();
    assert_eq!(p2.name(), "large");
}

#[test]
fn machine_count_grows_with_demand() {
    let set = ProcSet::from_processers(vec![
        mk("assembler", "assembler", SCALE, 1_250_000, 4, 0, 0, 0, 0),
    ]);
    let mut last: u64 = 0;
    for mult in 1u64..6 {
        let power = mult * SCALE;
        let p = set
            .best_processer("assembler", 2, true, power, &open_choice())
            .unwrap();
        let units = power.div_ceil(p.speed());
        assert!(units >= last, "count shrank when demand grew");
        last = units;
    }
}
