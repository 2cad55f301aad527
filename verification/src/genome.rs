//! Per-weight decisions of the genome: which parent a child's weight is
//! taken from during recombination, and which weights a round of mutation
//! touches.  The weight values themselves are floating-point and belong to
//! the caller; this module fixes the shape of every weight matrix and the
//! boolean choice made at each position.

use vstd::prelude::*;
use crate::rng::rand_below;
use crate::{FITNESS_LIMIT, RATE_SCALE};

verus! {

/// A network architecture is the declared width of each layer of neurons,
/// input first, output last: at least input and output, every layer with
/// at least one neuron, and narrow enough that a bias column can be added.
pub open spec fn valid_architecture(arch: Seq<usize>) -> bool {
    &&& arch.len() >= 2
    &&& forall|i: int| 0 <= i < arch.len() ==> 0 < #[trigger] arch[i] < usize::MAX
}

/// A fitness score the recombination rules can work with.
pub open spec fn fitness_in_range(f: i64) -> bool {
    -FITNESS_LIMIT <= f <= FITNESS_LIMIT
}

/// Whether a weight position is inherited from parent B rather than
/// parent A, given the uniform draw `u` (on the scale `0..=RATE_SCALE`)
/// and the parents' fitness scores.  This is the exact integer form of
/// the rule "take B when the draw exceeds `fa / (fa + fb)`": the
/// comparison is multiplied out by `fa + fb`, flipping when that sum is
/// negative.  When the sum is zero the ratio degenerates to a signed
/// infinity, so the choice falls to whichever parent's score has the
/// matching sign: B exactly when `fa` is negative.
pub open spec fn prefers_parent_b(u: int, fa: int, fb: int) -> bool {
    let sum = fa + fb;
    if sum > 0 {
        u * sum > fa * (RATE_SCALE as int)
    } else if sum < 0 {
        u * sum < fa * (RATE_SCALE as int)
    } else {
        fa < 0
    }
}

/// When parent A carries all of the pair's fitness, no draw prefers
/// parent B: the child is parent A at every position.
pub proof fn lemma_sole_fit_parent_keeps_a(u: int, fa: int)
    requires
        0 <= u <= RATE_SCALE,
        fa > 0,
    ensures
        !prefers_parent_b(u, fa, 0),
{
    assert(u * fa <= RATE_SCALE * fa) by (nonlinear_arith)
        requires 0 <= u <= RATE_SCALE && fa > 0;
}

/// With equally fit parents the rule is an even coin: parent B is taken
/// exactly when the draw lands in the upper half of the scale.
pub proof fn lemma_equal_fitness_even_split(u: int, f: int)
    requires
        f > 0,
    ensures
        prefers_parent_b(u, f, f) <==> 2 * u > RATE_SCALE,
{
    assert(u * (f + f) > f * (RATE_SCALE as int) <==> 2 * u > RATE_SCALE) by (nonlinear_arith)
        requires f > 0;
}

/// A uniform draw on the closed probability scale `0..=RATE_SCALE`.
fn rand_unit() -> (u: u32)
    ensures
        u <= RATE_SCALE,
{
    let u = rand_below(RATE_SCALE as u64 + 1);
    u as u32
}

/// A uniform draw on the positive probability scale `1..=RATE_SCALE`:
/// a probability of zero is then hit by no draw at all, and a
/// probability of one by every draw.
fn rand_unit_pos() -> (u: u32)
    ensures
        1 <= u <= RATE_SCALE,
{
    let u = rand_below(RATE_SCALE as u64);
    1 + u as u32
}

/// The mask mirrors the genome's weight matrices: one entry per layer,
/// per neuron, per input column (bias column included).
pub open spec fn mask_shape_ok(m: Vec<Vec<Vec<bool>>>, arch: Seq<usize>) -> bool {
    &&& m@.len() == arch.len() - 1
    &&& forall|i: int| 0 <= i < m@.len() ==> (#[trigger] m@[i])@.len() == arch[i + 1]
    &&& forall|i: int, j: int|
        0 <= i < m@.len() && 0 <= j < m@[i]@.len() ==> (#[trigger] m@[i]@[j])@.len() == arch[i] + 1
}

/// Every entry of the mask is `b`.
pub open spec fn mask_uniform(m: Vec<Vec<Vec<bool>>>, b: bool) -> bool {
    forall|i: int, j: int, k: int|
        0 <= i < m@.len() && 0 <= j < m@[i]@.len() && 0 <= k < m@[i]@[j]@.len()
            ==> #[trigger] m@[i]@[j]@[k] == b
}

/// Runs the recombination rule on one weight position.
pub fn takes_parent_b(u: u32, fa: i64, fb: i64) -> (r: bool)
    requires
        u <= RATE_SCALE,
        fitness_in_range(fa),
        fitness_in_range(fb),
    ensures
        r == prefers_parent_b(u as int, fa as int, fb as int),
{
    let sum: i64 = fa + fb;
    proof {
        assert(-2_000_000_000_000_000_000 <= (u as int) * (sum as int) <= 2_000_000_000_000_000_000)
            by (nonlinear_arith)
            requires 0 <= u <= 1_000_000 && -2_000_000_000_000 <= sum <= 2_000_000_000_000;
        assert(-1_000_000_000_000_000_000 <= (fa as int) * 1_000_000 <= 1_000_000_000_000_000_000)
            by (nonlinear_arith)
            requires -1_000_000_000_000 <= fa <= 1_000_000_000_000;
    }
    if sum > 0 {
        (u as i64) * sum > fa * (RATE_SCALE as i64)
    } else if sum < 0 {
        (u as i64) * sum < fa * (RATE_SCALE as i64)
    } else {
        fa < 0
    }
}

/// Draws the per-weight choices for one recombination: an entry is true
/// where the child takes parent B's weight, false where it keeps parent
/// A's.  A parent pair whose fitness is all on parent A yields the
/// all-false mask: the child is exactly parent A.
pub fn recombination_mask(arch: &Vec<usize>, fa: i64, fb: i64) -> (m: Vec<Vec<Vec<bool>>>)
    requires
        valid_architecture(arch@),
        fitness_in_range(fa),
        fitness_in_range(fb),
    ensures
        mask_shape_ok(m, arch@),
        fb == 0 && fa > 0 ==> mask_uniform(m, false),
{
    let mut m: Vec<Vec<Vec<bool>>> = Vec::new();
    let mut l: usize = 1;
    while l < arch.len()
        invariant
            1 <= l <= arch@.len(),
            valid_architecture(arch@),
            fitness_in_range(fa),
            fitness_in_range(fb),
            m@.len() == l - 1,
            forall|i: int| 0 <= i < m@.len() ==> (#[trigger] m@[i])@.len() == arch@[i + 1],
            forall|i: int, j: int|
                0 <= i < m@.len() && 0 <= j < m@[i]@.len() ==> (#[trigger] m@[i]@[j])@.len() == arch@[i]
                    + 1,
            fb == 0 && fa > 0 ==> mask_uniform(m, false),
        decreases arch@.len() - l,
    {
        let rows = arch[l];
        let cols = arch[l - 1] + 1;
        let mut layer: Vec<Vec<bool>> = Vec::new();
        let mut r: usize = 0;
        while r < rows
            invariant
                r <= rows,
                fitness_in_range(fa),
                fitness_in_range(fb),
                layer@.len() == r,
                forall|j: int| 0 <= j < r ==> (#[trigger] layer@[j])@.len() == cols,
                fb == 0 && fa > 0 ==> forall|j: int, k: int|
                    0 <= j < r && 0 <= k < layer@[j]@.len() ==> #[trigger] layer@[j]@[k] == false,
            decreases rows - r,
        {
            let mut row: Vec<bool> = Vec::new();
            let mut c: usize = 0;
            while c < cols
                invariant
                    c <= cols,
                    fitness_in_range(fa),
                    fitness_in_range(fb),
                    row@.len() == c,
                    fb == 0 && fa > 0 ==> forall|k: int| 0 <= k < c ==> #[trigger] row@[k] == false,
                decreases cols - c,
            {
                let u = rand_unit();
                proof {
                    if fb == 0 && fa > 0 {
                        lemma_sole_fit_parent_keeps_a(u as int, fa as int);
                    }
                }
                row.push(takes_parent_b(u, fa, fb));
                c = c + 1;
            }
            layer.push(row);
            r = r + 1;
        }
        m.push(layer);
        l = l + 1;
    }
    m
}

/// Draws the per-weight choices for one round of mutation: an entry is
/// true where the weight is to be perturbed, drawn independently with
/// probability `frequency` on the scale of [`RATE_SCALE`].  A frequency
/// of zero touches no weight at all; a full frequency touches every
/// weight.
pub fn mutation_mask(arch: &Vec<usize>, frequency: u32) -> (m: Vec<Vec<Vec<bool>>>)
    requires
        valid_architecture(arch@),
        frequency <= RATE_SCALE,
    ensures
        mask_shape_ok(m, arch@),
        frequency == 0 ==> mask_uniform(m, false),
        frequency == RATE_SCALE ==> mask_uniform(m, true),
{
    let mut m: Vec<Vec<Vec<bool>>> = Vec::new();
    let mut l: usize = 1;
    while l < arch.len()
        invariant
            1 <= l <= arch@.len(),
            valid_architecture(arch@),
            frequency <= RATE_SCALE,
            m@.len() == l - 1,
            forall|i: int| 0 <= i < m@.len() ==> (#[trigger] m@[i])@.len() == arch@[i + 1],
            forall|i: int, j: int|
                0 <= i < m@.len() && 0 <= j < m@[i]@.len() ==> (#[trigger] m@[i]@[j])@.len() == arch@[i]
                    + 1,
            frequency == 0 ==> mask_uniform(m, false),
            frequency == RATE_SCALE ==> mask_uniform(m, true),
        decreases arch@.len() - l,
    {
        let rows = arch[l];
        let cols = arch[l - 1] + 1;
        let mut layer: Vec<Vec<bool>> = Vec::new();
        let mut r: usize = 0;
        while r < rows
            invariant
                r <= rows,
                frequency <= RATE_SCALE,
                layer@.len() == r,
                forall|j: int| 0 <= j < r ==> (#[trigger] layer@[j])@.len() == cols,
                frequency == 0 ==> forall|j: int, k: int|
                    0 <= j < r && 0 <= k < layer@[j]@.len() ==> #[trigger] layer@[j]@[k] == false,
                frequency == RATE_SCALE ==> forall|j: int, k: int|
                    0 <= j < r && 0 <= k < layer@[j]@.len() ==> #[trigger] layer@[j]@[k] == true,
            decreases rows - r,
        {
            let mut row: Vec<bool> = Vec::new();
            let mut c: usize = 0;
            while c < cols
                invariant
                    c <= cols,
                    frequency <= RATE_SCALE,
                    row@.len() == c,
                    frequency == 0 ==> forall|k: int| 0 <= k < c ==> #[trigger] row@[k] == false,
                    frequency == RATE_SCALE ==> forall|k: int| 0 <= k < c ==> #[trigger] row@[k] == true,
                decreases cols - c,
            {
                let u = rand_unit_pos();
                row.push(u <= frequency);
                c = c + 1;
            }
            layer.push(row);
            r = r + 1;
        }
        m.push(layer);
        l = l + 1;
    }
    m
}

} // verus!
