use evoflow::evotrainer::evotrainer::{best_index, rank_population};

#[test]
fn rank_ascending_lowest_first() {
    let scores: Vec<i64> = vec![3, 1, 2, 0];
    let ranked = rank_population(&scores);
    assert_eq!(ranked.len(), 4);
    let order: Vec<usize> = ranked.iter().map(|p| p.index).collect();
    assert_eq!(order, vec![3, 1, 2, 0]);
    let fits: Vec<i64> = ranked.iter().map(|p| p.fitness).collect();
    assert_eq!(fits, vec![0, 1, 2, 3]);
}

#[test]
fn rank_ties_keep_slot_order() {
    let scores: Vec<i64> = vec![5, 2, 5, 2];
    let ranked = rank_population(&scores);
    let order: Vec<usize> = ranked.iter().map(|p| p.index).collect();
    assert_eq!(order, vec![1, 3, 0, 2]);
}

#[test]
fn rank_stable_under_repeated_calls() {
    let scores: Vec<i64> = vec![7, -3, 7, 0, -3, 12];
    let first = rank_population(&scores);
    let second = rank_population(&scores);
    assert_eq!(first.len(), second.len());
    for (a, b) in first.iter().zip(second.iter()) {
        assert_eq!(a.index, b.index);
        assert_eq!(a.fitness, b.fitness);
    }
}

#[test]
fn rank_handles_negative_scores() {
    let scores: Vec<i64> = vec![-4, 4, -2, 0];
    let ranked = rank_population(&scores);
    let order: Vec<usize> = ranked.iter().map(|p| p.index).collect();
    assert_eq!(order, vec![0, 2, 3, 1]);
}

#[test]
fn fitness_pair_equality_is_by_slot() {
    let scores: Vec<i64> = vec![1, 1];
    let ranked = rank_population(&scores);
    assert!(ranked[0] != ranked[1]);
    let again = rank_population(&scores);
    assert!(ranked[0] == again[0]);
}

#[test]
fn best_index_picks_highest() {
    let scores: Vec<i64> = vec![3, 9, -1, 9, 2];
    assert_eq!(best_index(&scores), 1);
}

#[test]
fn best_index_single_element() {
    let scores: Vec<i64> = vec![-7];
    assert_eq!(best_index(&scores), 0);
}
