use evoflow::evotrainer::crossover::{
    PrimeParentStrategy, RouletteStrategy, Strategies, TournamentStrategy,
};
use evoflow::evotrainer::trainer_builder::{TrainerBuildError, TrainerBuilder};
use evoflow::RATE_SCALE;

fn full_builder() -> TrainerBuilder {
    let mut b = TrainerBuilder::new();
    b.set_population_size(50);
    b.set_architecture(vec![2, 2, 1]);
    b.set_survival_rate(600_000);
    b.set_crossover_rate(RATE_SCALE);
    b.set_mutation_rate(50_000);
    b.add_parent_selection_strategy(Strategies::PrimeParent(PrimeParentStrategy {
        weight: 1,
        rate: 200_000,
    }));
    b
}

#[test]
fn build_without_population_size_reports_it() {
    let b = TrainerBuilder::new();
    match b.build() {
        Err(TrainerBuildError::VariableNotSet(m)) => assert_eq!(m, "population_size not set"),
        _ => panic!("expected VariableNotSet"),
    }
}

#[test]
fn build_without_architecture_reports_it() {
    let mut b = TrainerBuilder::new();
    b.set_population_size(10);
    match b.build() {
        Err(TrainerBuildError::VariableNotSet(m)) => assert_eq!(m, "architecture not set"),
        _ => panic!("expected VariableNotSet"),
    }
}

#[test]
fn build_rejects_tiny_population() {
    let mut b = full_builder();
    b.set_population_size(1);
    match b.build() {
        Err(TrainerBuildError::ValidationError(m)) => {
            assert_eq!(m, "population_size must be greater than 1")
        }
        _ => panic!("expected ValidationError"),
    }
}

#[test]
fn build_rejects_zero_width_layer() {
    let mut b = full_builder();
    b.set_architecture(vec![2, 0, 1]);
    match b.build() {
        Err(TrainerBuildError::ValidationError(m)) => {
            assert_eq!(m, "architecure cannot contain 0's")
        }
        _ => panic!("expected ValidationError"),
    }
}

#[test]
fn build_rejects_short_architecture() {
    let mut b = full_builder();
    b.set_architecture(vec![3]);
    assert!(matches!(b.build(), Err(TrainerBuildError::ValidationError(_))));
}

#[test]
fn build_rejects_out_of_range_rates() {
    let mut b = full_builder();
    b.set_survival_rate(RATE_SCALE + 1);
    match b.build() {
        Err(TrainerBuildError::ValidationError(m)) => {
            assert_eq!(m, "survival_rate must be between 0.0..=1.0")
        }
        _ => panic!("expected ValidationError"),
    }
    let mut b = full_builder();
    b.set_crossover_rate(RATE_SCALE + 1);
    match b.build() {
        Err(TrainerBuildError::ValidationError(m)) => {
            assert_eq!(m, "crossover_rate must be between 0.0..=1.0")
        }
        _ => panic!("expected ValidationError"),
    }
    let mut b = full_builder();
    b.set_mutation_rate(RATE_SCALE + 1);
    match b.build() {
        Err(TrainerBuildError::ValidationError(m)) => {
            assert_eq!(m, "mutation_rate must be between 0.0..=1.0")
        }
        _ => panic!("expected ValidationError"),
    }
}

#[test]
fn build_rejects_out_of_range_prime_parent_rate() {
    let mut b = full_builder();
    b.add_parent_selection_strategy(Strategies::PrimeParent(PrimeParentStrategy {
        weight: 1,
        rate: RATE_SCALE + 1,
    }));
    assert!(matches!(b.build(), Err(TrainerBuildError::ValidationError(_))));
}

#[test]
fn build_carries_the_parameters_over() {
    let cfg = full_builder().build().expect("builds");
    assert_eq!(cfg.population_size, 50);
    assert_eq!(cfg.architecture, vec![2, 2, 1]);
    assert_eq!(cfg.survival_rate, 600_000);
    assert_eq!(cfg.crossover_rate, RATE_SCALE);
    assert_eq!(cfg.mutation_rate, 50_000);
    assert_eq!(cfg.strategies.len(), 1);
}

#[test]
fn build_unset_rates_default_to_zero() {
    let mut b = TrainerBuilder::new();
    b.set_population_size(4);
    b.set_architecture(vec![2, 1]);
    let cfg = b.build().expect("builds");
    assert_eq!(cfg.survival_rate, 0);
    assert_eq!(cfg.crossover_rate, 0);
    assert_eq!(cfg.mutation_rate, 0);
}

#[test]
fn build_empty_strategy_list_forces_crossover_to_zero() {
    let mut b = TrainerBuilder::new();
    b.set_population_size(10);
    b.set_architecture(vec![2, 1]);
    b.set_crossover_rate(RATE_SCALE);
    let cfg = b.build().expect("builds");
    assert_eq!(cfg.crossover_rate, 0);
    assert_eq!(cfg.strategies.len(), 0);
}

#[test]
fn strategies_deduplicate_by_variant() {
    let mut b = TrainerBuilder::new();
    b.add_parent_selection_strategy(Strategies::Tournement(TournamentStrategy {
        weight: 1,
        rounds: 2,
    }));
    b.add_parent_selection_strategy(Strategies::Roulette(RouletteStrategy { weight: 3 }));
    // A second tournament configuration overwrites the first in place.
    b.add_parent_selection_strategy(Strategies::Tournement(TournamentStrategy {
        weight: 9,
        rounds: 5,
    }));
    assert_eq!(b.parent_strategies.len(), 2);
    match &b.parent_strategies[0] {
        Strategies::Tournement(t) => {
            assert_eq!(t.weight, 9);
            assert_eq!(t.rounds, 5);
        }
        _ => panic!("expected the tournament strategy first"),
    }
    assert!(matches!(&b.parent_strategies[1], Strategies::Roulette(_)));
}

#[test]
fn strategy_equality_is_by_variant() {
    let a = Strategies::Tournement(TournamentStrategy { weight: 1, rounds: 2 });
    let b = Strategies::Tournement(TournamentStrategy { weight: 7, rounds: 9 });
    let c = Strategies::Roulette(RouletteStrategy { weight: 1 });
    assert!(a == b);
    assert!(a != c);
}
