use evoflow::genome::{mutation_mask, recombination_mask, takes_parent_b};
use evoflow::RATE_SCALE;

fn shape_of(mask: &Vec<Vec<Vec<bool>>>) -> Vec<Vec<usize>> {
    mask.iter()
        .map(|layer| layer.iter().map(|row| row.len()).collect())
        .collect()
}

#[test]
fn masks_mirror_the_architecture() {
    let arch: Vec<usize> = vec![2, 2, 1];
    let mask = mutation_mask(&arch, 500_000);
    assert_eq!(mask.len(), 2);
    assert_eq!(mask[0].len(), 2);
    assert_eq!(mask[1].len(), 1);
    // Each row has one column per input plus the bias column.
    assert_eq!(shape_of(&mask), vec![vec![3, 3], vec![3]]);
}

#[test]
fn mutation_frequency_zero_touches_nothing() {
    let arch: Vec<usize> = vec![3, 4, 2];
    for _ in 0..20 {
        let mask = mutation_mask(&arch, 0);
        for layer in mask.iter() {
            for row in layer.iter() {
                for &entry in row.iter() {
                    assert!(!entry);
                }
            }
        }
    }
}

#[test]
fn mutation_frequency_one_touches_everything() {
    let arch: Vec<usize> = vec![3, 4, 2];
    for _ in 0..20 {
        let mask = mutation_mask(&arch, RATE_SCALE);
        for layer in mask.iter() {
            for row in layer.iter() {
                for &entry in row.iter() {
                    assert!(entry);
                }
            }
        }
    }
}

#[test]
fn recombination_all_fitness_on_parent_a_keeps_parent_a() {
    let arch: Vec<usize> = vec![2, 2, 1];
    for _ in 0..50 {
        let mask = recombination_mask(&arch, 1_000_000, 0);
        for layer in mask.iter() {
            for row in layer.iter() {
                for &takes_b in row.iter() {
                    assert!(!takes_b);
                }
            }
        }
    }
}

#[test]
fn recombination_equal_fitness_splits_roughly_in_half() {
    // A wide architecture gives plenty of weight positions to count.
    let arch: Vec<usize> = vec![60, 60, 40];
    let mask = recombination_mask(&arch, 5, 5);
    let mut total: usize = 0;
    let mut from_b: usize = 0;
    for layer in mask.iter() {
        for row in layer.iter() {
            for &takes_b in row.iter() {
                total += 1;
                if takes_b {
                    from_b += 1;
                }
            }
        }
    }
    assert_eq!(total, 60 * 61 + 40 * 61);
    let share = from_b as f64 / total as f64;
    assert!(share > 0.4 && share < 0.6, "share from parent B was {}", share);
}

#[test]
fn per_weight_rule_threshold_is_exact() {
    // ratio = 3 / (3 + 1) = 0.75 on the fixed-point scale.
    assert!(!takes_parent_b(750_000, 3, 1));
    assert!(takes_parent_b(750_001, 3, 1));
    // All the fitness on parent B: every positive draw goes to B.
    assert!(takes_parent_b(1, 0, 5));
    assert!(!takes_parent_b(0, 0, 5));
    // Negative sums flip the comparison the way the real-valued ratio
    // does: the ratio is 0.5, so the upper half of the draws goes to B.
    assert!(!takes_parent_b(0, -1, -1));
    assert!(takes_parent_b(1_000_000, -1, -1));
    // A zero sum degenerates to the sign of parent A's fitness.
    assert!(!takes_parent_b(400_000, 4, -4));
    assert!(takes_parent_b(400_000, -4, 4));
    assert!(!takes_parent_b(400_000, 0, 0));
}
