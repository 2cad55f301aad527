use evoflow::evotrainer::crossover::{
    PrimeParentStrategy, RouletteStrategy, Strategies, TournamentStrategy,
};
use evoflow::evotrainer::crossover::tournament_round;
use evoflow::evotrainer::evotrainer::{
    crossover_count, dead_count, plan_generation, rank_population,
};
use evoflow::RATE_SCALE;

#[test]
fn dead_count_full_survival_is_noop() {
    assert_eq!(dead_count(2, RATE_SCALE), 0);
    assert_eq!(dead_count(1000, RATE_SCALE), 0);
}

#[test]
fn dead_count_rounds_down() {
    // 10 * (1 - 0.6) = 4
    assert_eq!(dead_count(10, 600_000), 4);
    // 7 * (1 - 0.5) = 3.5 -> 3
    assert_eq!(dead_count(7, 500_000), 3);
    // survival 0 kills everything
    assert_eq!(dead_count(9, 0), 9);
}

#[test]
fn crossover_count_splits_dead_slots() {
    assert_eq!(crossover_count(4, RATE_SCALE), 4);
    assert_eq!(crossover_count(4, 0), 0);
    // 5 * 0.5 = 2.5 -> 2
    assert_eq!(crossover_count(5, 500_000), 2);
}

fn scores_0_to_9() -> Vec<i64> {
    vec![9, 0, 8, 1, 7, 2, 6, 3, 5, 4]
}

#[test]
fn plan_marks_worst_slots_for_crossover() {
    let scores = scores_0_to_9();
    let strategies = vec![Strategies::PrimeParent(PrimeParentStrategy {
        weight: 1,
        rate: 200_000,
    })];
    let plan = plan_generation(&scores, 600_000, RATE_SCALE, &strategies);
    // dead = 4, all of them crossover, one strategy takes every slot.
    assert_eq!(plan.families.len(), 4);
    assert_eq!(plan.copies.len(), 0);
    // The four lowest scores sit at slots 1, 3, 5, 7.
    let children: Vec<usize> = plan.families.iter().map(|f| f.child_index).collect();
    assert_eq!(children, vec![1, 3, 5, 7]);
    // Elite window of 10 * 0.2 = 2: parents are the top two slots (0 and 2),
    // distinct within each family.
    for fam in plan.families.iter() {
        assert!(fam.parent_a_index == 0 || fam.parent_a_index == 2);
        assert!(fam.parent_b_index == 0 || fam.parent_b_index == 2);
        assert_ne!(fam.parent_a_index, fam.parent_b_index);
        assert!(fam.parent_a_fitness == 9 || fam.parent_a_fitness == 8);
        assert!(fam.parent_b_fitness == 9 || fam.parent_b_fitness == 8);
    }
}

#[test]
fn plan_zero_crossover_rate_routes_all_to_copy() {
    let scores = scores_0_to_9();
    let strategies = vec![Strategies::Tournement(TournamentStrategy {
        weight: 3,
        rounds: 2,
    })];
    let plan = plan_generation(&scores, 600_000, 0, &strategies);
    assert_eq!(plan.families.len(), 0);
    assert_eq!(plan.copies.len(), 4);
    let children: Vec<usize> = plan.copies.iter().map(|c| c.child_index).collect();
    assert_eq!(children, vec![1, 3, 5, 7]);
    // Parents cycle through the elite window (the 6 survivors), from the
    // best downward: offsets 1, 2, 3, 4, 5 then back to 1.
    let parents: Vec<usize> = plan.copies.iter().map(|c| c.parent_index).collect();
    let ranked = rank_population(&scores);
    assert_eq!(parents[0], ranked[9].index);
    assert_eq!(parents[1], ranked[8].index);
    assert_eq!(parents[2], ranked[7].index);
    assert_eq!(parents[3], ranked[6].index);
}

#[test]
fn plan_empty_strategy_list_never_crosses() {
    // The builder forces the crossover rate to zero when no strategy is
    // configured, so the plan routes every replaced slot to the copy
    // phase and invokes no strategy at all.
    let mut b = evoflow::evotrainer::trainer_builder::TrainerBuilder::new();
    b.set_population_size(10);
    b.set_architecture(vec![2, 2, 1]);
    b.set_survival_rate(600_000);
    b.set_crossover_rate(RATE_SCALE);
    let cfg = b.build().expect("builds");
    assert_eq!(cfg.crossover_rate, 0);
    let scores = scores_0_to_9();
    let plan = plan_generation(&scores, cfg.survival_rate, cfg.crossover_rate, &cfg.strategies);
    assert_eq!(plan.families.len(), 0);
    assert_eq!(plan.copies.len(), 4);
}

#[test]
fn plan_full_survival_replaces_nothing() {
    let scores = scores_0_to_9();
    let strategies = vec![Strategies::Tournement(TournamentStrategy {
        weight: 1,
        rounds: 3,
    })];
    let plan = plan_generation(&scores, RATE_SCALE, RATE_SCALE, &strategies);
    assert_eq!(plan.families.len(), 0);
    assert_eq!(plan.copies.len(), 0);
}

#[test]
fn plan_share_rounding_leaves_residue_unassigned() {
    // 10 slots die, all crossover; two strategies of equal weight get
    // floor(5) = 2... here: cc = 5, shares 2 and 2, one slot unassigned.
    let scores: Vec<i64> = vec![0, 1, 2, 3, 4, 5, 6, 7, 8, 9];
    let strategies = vec![
        Strategies::Tournement(TournamentStrategy { weight: 1, rounds: 2 }),
        Strategies::PrimeParent(PrimeParentStrategy { weight: 1, rate: 500_000 }),
    ];
    let plan = plan_generation(&scores, 500_000, RATE_SCALE, &strategies);
    // dead = 5, cc = 5, each strategy floor(1/2 * 5) = 2.
    assert_eq!(plan.families.len(), 4);
    assert_eq!(plan.copies.len(), 0);
    let children: Vec<usize> = plan.families.iter().map(|f| f.child_index).collect();
    assert_eq!(children, vec![0, 1, 2, 3]);
}

#[test]
fn plan_weights_share_proportionally() {
    let scores: Vec<i64> = (0..20).collect();
    let strategies = vec![
        Strategies::Tournement(TournamentStrategy { weight: 3, rounds: 2 }),
        Strategies::PrimeParent(PrimeParentStrategy { weight: 1, rate: 500_000 }),
    ];
    // dead = 10, cc = 10; tournament floor(3/4 * 10) = 7, prime floor(1/4 * 10) = 2.
    let plan = plan_generation(&scores, 500_000, RATE_SCALE, &strategies);
    assert_eq!(plan.families.len(), 9);
}

#[test]
fn tournament_offspring_covers_targets() {
    let scores = scores_0_to_9();
    let ranked = rank_population(&scores);
    let strat = TournamentStrategy { weight: 1, rounds: 4 };
    let targets: Vec<_> = ranked[0..3].to_vec();
    let fams = strat.create_offspring(&ranked, &targets);
    assert_eq!(fams.len(), 3);
    for (fam, target) in fams.iter().zip(targets.iter()) {
        assert_eq!(fam.child_index, target.index);
        assert!(fam.parent_a_index < 10);
        assert!(fam.parent_b_index < 10);
        assert_eq!(fam.parent_a_fitness, scores[fam.parent_a_index]);
        assert_eq!(fam.parent_b_fitness, scores[fam.parent_b_index]);
    }
}

#[test]
fn prime_parent_offspring_draws_from_elite_window() {
    let scores = scores_0_to_9();
    let ranked = rank_population(&scores);
    let strat = PrimeParentStrategy { weight: 1, rate: 300_000 };
    let targets: Vec<_> = ranked[0..5].to_vec();
    let fams = strat.create_offspring(&ranked, &targets);
    assert_eq!(fams.len(), 5);
    for fam in fams.iter() {
        // window = floor(10 * 0.3) = 3: the top three scores are 9, 8, 7.
        assert!(fam.parent_a_fitness >= 7);
        assert!(fam.parent_b_fitness >= 7);
        assert_ne!(fam.parent_a_index, fam.parent_b_index);
    }
}

#[test]
fn prime_parent_window_of_one_allows_equal_parents() {
    let scores: Vec<i64> = vec![1, 2, 3, 4];
    let ranked = rank_population(&scores);
    let strat = PrimeParentStrategy { weight: 1, rate: 0 };
    let targets: Vec<_> = ranked[0..2].to_vec();
    let fams = strat.create_offspring(&ranked, &targets);
    for fam in fams.iter() {
        // A window of one entry leaves only the best slot for both parents.
        assert_eq!(fam.parent_a_index, 3);
        assert_eq!(fam.parent_b_index, 3);
    }
}

#[test]
fn roulette_offspring_stays_in_pool() {
    let scores: Vec<i64> = vec![5, 1, 3, 7, 2, 6];
    let ranked = rank_population(&scores);
    let strat = RouletteStrategy { weight: 2 };
    let targets: Vec<_> = ranked[0..4].to_vec();
    let fams = strat.create_offspring(&ranked, &targets);
    assert_eq!(fams.len(), 4);
    for (fam, target) in fams.iter().zip(targets.iter()) {
        assert_eq!(fam.child_index, target.index);
        assert!(fam.parent_a_index < 6);
        assert!(fam.parent_b_index < 6);
        assert_eq!(fam.parent_a_fitness, scores[fam.parent_a_index]);
        assert_eq!(fam.parent_b_fitness, scores[fam.parent_b_index]);
    }
}

#[test]
fn tournament_round_keeps_ties_with_the_standing_winner() {
    let scores: Vec<i64> = vec![3, 5, 5, 1];
    let ranked = rank_population(&scores);
    // ranked ascending: slots 3, 0, 1, 2 with fitness 1, 3, 5, 5.
    assert_eq!(tournament_round(&ranked, 0, 1), 1);
    assert_eq!(tournament_round(&ranked, 1, 0), 1);
    assert_eq!(tournament_round(&ranked, 2, 3), 2);
    assert_eq!(tournament_round(&ranked, 3, 2), 3);
}

#[test]
fn strategy_weights_are_reported() {
    assert_eq!(
        Strategies::Tournement(TournamentStrategy { weight: 4, rounds: 2 }).get_weight(),
        4
    );
    assert_eq!(
        Strategies::PrimeParent(PrimeParentStrategy { weight: 5, rate: 0 }).get_weight(),
        5
    );
    assert_eq!(Strategies::Roulette(RouletteStrategy { weight: 6 }).get_weight(), 6);
}
