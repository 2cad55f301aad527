//! Fitness ranking and the per-generation plan: which slots die, which
//! are refilled by crossover under which strategy, which are refilled by
//! copying an elite survivor, and which genome is the population's best.

use vstd::prelude::*;
use vstd::arithmetic::div_mod::*;
use crate::evotrainer::crossover::{lemma_pool_sum_lower_bound, CrossoverFamily, Strategies};
use crate::{FITNESS_LIMIT, RATE_SCALE};

verus! {

/// One slot of the population together with the fitness score it held
/// when the ranking was taken.  Ordering of pairs goes by fitness alone;
/// equality goes by slot, so two pairs are the same exactly when they
/// name the same member of the population.
#[derive(Clone, Copy, Debug)]
pub struct FitnessPair {
    pub fitness: i64,
    pub index: usize,
}

impl PartialEq for FitnessPair {
    fn eq(&self, other: &Self) -> (r: bool) {
        self.index == other.index
    }
}

impl Eq for FitnessPair {}

impl vstd::std_specs::cmp::PartialEqSpecImpl for FitnessPair {
    open spec fn obeys_eq_spec() -> bool {
        true
    }

    open spec fn eq_spec(&self, other: &Self) -> bool {
        self.index == other.index
    }
}

/// The order of the ranking: by fitness first, then, among equal fitness
/// scores, by population slot, so that the order on distinct slots is
/// strict and total and ties cannot reorder between calls.
pub open spec fn pair_lex_below(a: FitnessPair, b: FitnessPair) -> bool {
    a.fitness < b.fitness || (a.fitness == b.fitness && a.index < b.index)
}

/// Whether some entry of the ranking names population slot `i`.
pub open spec fn slot_present(r: Seq<FitnessPair>, i: int) -> bool {
    exists|k: int| 0 <= k < r.len() && (#[trigger] r[k]).index == i
}

/// What it means for `r` to rank the population whose fitness scores are
/// `scores`: one entry per slot, each carrying that slot's score, in
/// ascending order.  Together the clauses pin `r` down completely
/// ([`lemma_ranking_unique`]).
pub open spec fn ranks_population(scores: Seq<i64>, r: Seq<FitnessPair>) -> bool {
    &&& r.len() == scores.len()
    &&& forall|k: int|
        0 <= k < r.len() ==> (#[trigger] r[k]).index < scores.len() && r[k].fitness == scores[r[k].index as int]
    &&& forall|k1: int, k2: int| 0 <= k1 < k2 < r.len() ==> pair_lex_below(#[trigger] r[k1], #[trigger] r[k2])
    &&& forall|i: int| 0 <= i < scores.len() ==> #[trigger] slot_present(r, i)
}

/// A pool in which no population slot appears twice, as every ranking is.
pub open spec fn distinct_slots(pool: Seq<FitnessPair>) -> bool {
    forall|k1: int, k2: int|
        0 <= k1 < k2 < pool.len() ==> (#[trigger] pool[k1]).index != (#[trigger] pool[k2]).index
}

/// A ranking has no slot twice: ascending order is strict on distinct
/// slots, so two positions with the same slot would also have to share
/// their fitness, which `pair_lex_below` rules out.
pub proof fn lemma_ranking_injective(scores: Seq<i64>, r: Seq<FitnessPair>)
    requires
        ranks_population(scores, r),
    ensures
        distinct_slots(r),
{
    assert forall|k1: int, k2: int| 0 <= k1 < k2 < r.len() implies (#[trigger] r[k1]).index
        != (#[trigger] r[k2]).index by {
        assert(pair_lex_below(r[k1], r[k2]));
    }
}

/// Evaluating an unchanged population ranks it the same way every time:
/// any two sequences that both rank the same scores are equal.  With the
/// contract of [`rank_population`], repeated calls on the same scores
/// therefore return the same ascending order and the same fitness values.
pub proof fn lemma_ranking_unique(scores: Seq<i64>, r1: Seq<FitnessPair>, r2: Seq<FitnessPair>)
    requires
        ranks_population(scores, r1),
        ranks_population(scores, r2),
    ensures
        r1 =~= r2,
{
    assert forall|k: int| 0 <= k < r1.len() implies r1[k] == r2[k] by {
        lemma_ranking_prefix_agrees(scores, r1, r2, k);
    }
}

/// Positions below `k` agreeing forces position `k` to agree as well:
/// the entry of `r1` at `k` sits somewhere in `r2`, and the strict order
/// leaves only position `k` for it (and symmetrically).
proof fn lemma_ranking_prefix_agrees(scores: Seq<i64>, r1: Seq<FitnessPair>, r2: Seq<FitnessPair>, k: int)
    requires
        ranks_population(scores, r1),
        ranks_population(scores, r2),
        0 <= k < r1.len(),
    ensures
        r1[k] == r2[k],
    decreases k,
{
    if k > 0 {
        lemma_ranking_prefix_agrees(scores, r1, r2, k - 1);
    }
    lemma_ranking_injective(scores, r1);
    lemma_ranking_injective(scores, r2);
    // Where each ranking keeps the slot that the other has at position k.
    assert(slot_present(r2, r1[k].index as int));
    assert(slot_present(r1, r2[k].index as int));
    let j2 = choose|j: int| 0 <= j < r2.len() && (#[trigger] r2[j]).index == r1[k].index;
    let j1 = choose|j: int| 0 <= j < r1.len() && (#[trigger] r1[j]).index == r2[k].index;
    // Entries are determined by their slot, so r2[j2] == r1[k] and r1[j1] == r2[k].
    assert(r2[j2].fitness == r1[k].fitness);
    assert(r1[j1].fitness == r2[k].fitness);
    if j2 < k {
        // r1 would hold r1[k]'s slot twice in its first k + 1 positions.
        assert(forall|j: int| 0 <= j < k ==> r1[j] == r2[j]) by {
            assert forall|j: int| 0 <= j < k implies r1[j] == r2[j] by {
                lemma_ranking_prefix_agrees(scores, r1, r2, j);
            }
        }
        assert(r1[j2].index == r1[k].index);
        assert(false);
    }
    if j1 < k {
        assert(forall|j: int| 0 <= j < k ==> r1[j] == r2[j]) by {
            assert forall|j: int| 0 <= j < k implies r1[j] == r2[j] by {
                lemma_ranking_prefix_agrees(scores, r1, r2, j);
            }
        }
        assert(r2[j1].index == r2[k].index);
        assert(false);
    }
    if j2 > k {
        assert(pair_lex_below(r2[k], r2[j2]));
    }
    if j1 > k {
        assert(pair_lex_below(r1[k], r1[j1]));
    }
    // Now j1 == k and j2 == k, and both entries carry the same slot and score.
    if r1[k].index != r2[k].index {
        assert(pair_lex_below(r1[k], r2[k]) || pair_lex_below(r2[k], r1[k]));
        assert(false);
    }
}

/// Ranks a population by its fitness scores: one [`FitnessPair`] per
/// slot, sorted ascending, lowest fitness first, ties in slot order.
/// The result is a function of the scores alone, so ranking an unchanged
/// population twice gives the same list both times.
pub fn rank_population(scores: &Vec<i64>) -> (r: Vec<FitnessPair>)
    ensures
        ranks_population(scores@, r@),
{
    let mut r: Vec<FitnessPair> = Vec::new();
    let mut m: usize = 0;
    while m < scores.len()
        invariant
            m <= scores.len(),
            r@.len() == m,
            forall|k: int|
                0 <= k < m ==> (#[trigger] r@[k]).index < m && r@[k].fitness == scores@[r@[k].index as int],
            forall|k1: int, k2: int| 0 <= k1 < k2 < m ==> pair_lex_below(#[trigger] r@[k1], #[trigger] r@[k2]),
            forall|i: int| 0 <= i < m ==> #[trigger] slot_present(r@, i),
        decreases scores.len() - m,
    {
        let pair = FitnessPair { fitness: scores[m], index: m };
        let ghost old_r = r@;
        let mut pos: usize = r.len();
        while pos > 0 && pair.fitness < r[pos - 1].fitness
            invariant
                pos <= r@.len() == m <= scores@.len(),
                pair.fitness == scores@[m as int] && pair.index == m,
                forall|k: int|
                    0 <= k < m ==> (#[trigger] r@[k]).index < m && r@[k].fitness == scores@[r@[k].index as int],
                forall|k: int| pos <= k < m ==> pair.fitness < (#[trigger] r@[k]).fitness,
            decreases pos,
        {
            pos = pos - 1;
        }
        r.insert(pos, pair);
        proof {
            old_r.insert_ensures(pos as int, pair);
            // Ascending order survives the insertion.
            assert forall|k1: int, k2: int| 0 <= k1 < k2 < m + 1 implies pair_lex_below(
                #[trigger] r@[k1],
                #[trigger] r@[k2],
            ) by {
                if k1 == pos {
                    assert(r@[k2] == old_r[k2 - 1]);
                } else if k2 == pos {
                    assert(r@[k1] == old_r[k1]);
                } else if k1 < pos && k2 > pos {
                    assert(r@[k1] == old_r[k1] && r@[k2] == old_r[k2 - 1]);
                    if k2 - 1 > k1 {
                    } else {
                        assert(r@[k1] == r@[k2]);
                        assert(pos > 0 && !(pair.fitness < old_r[pos - 1].fitness));
                    }
                }
            }
            // Every slot seen so far still appears.
            assert forall|i: int| 0 <= i < m + 1 implies #[trigger] slot_present(r@, i) by {
                if i == m {
                    assert(r@[pos as int].index == i);
                } else {
                    assert(slot_present(old_r, i));
                    let k = choose|k: int| 0 <= k < old_r.len() && (#[trigger] old_r[k]).index == i;
                    if k < pos {
                        assert(r@[k].index == i);
                    } else {
                        assert(r@[k + 1].index == i);
                    }
                }
            }
        }
        m = m + 1;
    }
    r
}

/// How many of the lowest-ranked slots one generation replaces: the
/// non-surviving share of the population, rounded down.
pub open spec fn dead_count_spec(pool: int, survival_rate: int) -> int {
    pool * (RATE_SCALE - survival_rate) / (RATE_SCALE as int)
}

/// How many of the replaced slots are refilled by crossover; the rest
/// are refilled by copying.
pub open spec fn crossover_count_spec(dead: int, crossover_rate: int) -> int {
    dead * crossover_rate / (RATE_SCALE as int)
}

/// Computes [`dead_count_spec`].  A full survival rate replaces nothing.
pub fn dead_count(pool_size: usize, survival_rate: u32) -> (d: usize)
    requires
        survival_rate <= RATE_SCALE,
    ensures
        d == dead_count_spec(pool_size as int, survival_rate as int),
        d <= pool_size,
        survival_rate == RATE_SCALE ==> d == 0,
{
    proof {
        assert(pool_size * (RATE_SCALE - survival_rate) / (RATE_SCALE as int) <= pool_size
            && pool_size * (RATE_SCALE - survival_rate) >= 0) by (nonlinear_arith)
            requires 0 <= survival_rate <= RATE_SCALE && pool_size >= 0;
        if survival_rate == RATE_SCALE {
            assert(pool_size * (RATE_SCALE - survival_rate) == 0) by (nonlinear_arith)
                requires survival_rate == RATE_SCALE;
        }
    }
    ((pool_size as u128 * (RATE_SCALE - survival_rate) as u128) / (RATE_SCALE as u128)) as usize
}

/// Computes [`crossover_count_spec`].  A zero crossover rate sends every
/// replaced slot to the copy phase.
pub fn crossover_count(dead: usize, crossover_rate: u32) -> (c: usize)
    requires
        crossover_rate <= RATE_SCALE,
    ensures
        c == crossover_count_spec(dead as int, crossover_rate as int),
        c <= dead,
        crossover_rate == 0 ==> c == 0,
{
    proof {
        assert(dead * crossover_rate / (RATE_SCALE as int) <= dead && dead * crossover_rate >= 0)
            by (nonlinear_arith)
            requires 0 <= crossover_rate <= RATE_SCALE && dead >= 0;
        if crossover_rate == 0 {
            assert(dead * (crossover_rate as int) == 0) by (nonlinear_arith)
                requires crossover_rate == 0;
        }
    }
    ((dead as u128 * crossover_rate as u128) / (RATE_SCALE as u128)) as usize
}

/// A replaced slot refilled by copying: the elite survivor at
/// `parent_index` is cloned, mutated, and written to `child_index`.
#[derive(Clone, Copy, Debug)]
pub struct CopyAssignment {
    pub child_index: usize,
    pub parent_index: usize,
}

/// The elite window the copy phase clones from: the survivors of the
/// generation, and at least one genome when nothing survives.
pub open spec fn copy_window(n: int, dead: int) -> int {
    if n - dead < 1 {
        1
    } else {
        n - dead
    }
}

/// Which elite parent the `k`-th copy slot is cloned from, counted from
/// the top of the ranking: the offsets cycle 1, 2, ..., window - 1 and
/// wrap, so consecutive copy slots clone distinct elites while the
/// window lasts.
pub open spec fn copy_cycle_offset(window: int, k: int) -> int {
    if window <= 1 {
        1
    } else {
        1 + k % (window - 1)
    }
}

/// Plans the copy phase: the replaced slots `ranked[cc..dead]` are each
/// assigned an elite parent, cycling from the best downward through the
/// window.
pub fn plan_copies(ranked: &Vec<FitnessPair>, cc: usize, dead: usize, window: usize) -> (copies: Vec<
    CopyAssignment,
>)
    requires
        cc <= dead <= ranked@.len(),
        cc < dead ==> 1 <= window <= ranked@.len(),
    ensures
        copies@.len() == dead - cc,
        forall|k: int|
            0 <= k < copies@.len() ==> (#[trigger] copies@[k]).child_index == ranked@[cc + k].index
                && copies@[k].parent_index == ranked@[ranked@.len() - copy_cycle_offset(
                window as int,
                k,
            )].index,
{
    let n = ranked.len();
    let mut copies: Vec<CopyAssignment> = Vec::new();
    let mut k: usize = 0;
    let mut off: usize = 1;
    while k < dead - cc
        invariant
            cc <= dead <= n == ranked@.len(),
            cc < dead ==> 1 <= window <= n,
            k <= dead - cc,
            copies@.len() == k,
            off == copy_cycle_offset(window as int, k as int),
            1 <= off,
            window <= 1 ==> off == 1,
            window >= 2 ==> off <= window - 1,
            forall|j: int|
                0 <= j < k ==> (#[trigger] copies@[j]).child_index == ranked@[cc + j].index
                    && copies@[j].parent_index == ranked@[n - copy_cycle_offset(window as int, j)].index,
        decreases dead - cc - k,
    {
        proof {
            if window >= 2 {
                lemma_mod_bound(k as int, window - 1);
            }
        }
        copies.push(
            CopyAssignment { child_index: ranked[cc + k].index, parent_index: ranked[n - off].index },
        );
        proof {
            if window >= 2 {
                let w1 = window - 1;
                let r = (k as int) % w1;
                lemma_fundamental_div_mod(k as int, w1);
                lemma_mod_bound(k as int, w1);
                if r + 1 < w1 {
                    lemma_fundamental_div_mod_converse((k + 1) as int, w1, (k as int) / w1, r + 1);
                } else {
                    assert(((k as int) / w1 + 1) * w1 == (k as int) / w1 * w1 + w1) by (nonlinear_arith);
                    lemma_fundamental_div_mod_converse((k + 1) as int, w1, (k as int) / w1 + 1, 0);
                }
            }
        }
        off = off + 1;
        if off >= window {
            off = 1;
        }
        k = k + 1;
    }
    copies
}

/// Sum of the weights of the first `s` configured strategies.
pub open spec fn prefix_weight(strategies: Seq<Strategies>, s: int) -> int
    decreases s,
{
    if s <= 0 {
        0
    } else {
        prefix_weight(strategies, s - 1) + strategies[s - 1].spec_weight()
    }
}

/// Sum of all configured strategies' weights: the denominator of every
/// strategy's share of the crossover slots.
pub open spec fn total_weight(strategies: Seq<Strategies>) -> int {
    prefix_weight(strategies, strategies.len() as int)
}

/// How many of the `cc` crossover slots strategy `s` is granted: its
/// weight's proportional share, rounded down independently of the other
/// strategies, and nothing when no weight is configured at all.
pub open spec fn strategy_share(strategies: Seq<Strategies>, cc: int, s: int) -> int {
    let tw = total_weight(strategies);
    if tw == 0 {
        0
    } else {
        strategies[s].spec_weight() * cc / tw
    }
}

/// The cursor into the crossover slots at which strategy `s`'s slice
/// begins: the shares of the earlier strategies, in configuration
/// order.  At `s == strategies.len()` this is the count of all assigned
/// slots; rounding may leave trailing slots assigned to no strategy.
pub open spec fn share_start(strategies: Seq<Strategies>, cc: int, s: int) -> int
    decreases s,
{
    if s <= 0 {
        0
    } else {
        share_start(strategies, cc, s - 1) + strategy_share(strategies, cc, s - 1)
    }
}

/// Floor division loses at most the remainder: two floors of a common
/// divisor never exceed the floor of the sum.
proof fn lemma_div_superadditive(a: int, b: int, d: int)
    requires
        a >= 0,
        b >= 0,
        0 < d,
    ensures
        a / d + b / d <= (a + b) / d,
{
    lemma_mod_adds(a, b, d);
    lemma_mod_bound(a, d);
    lemma_mod_bound(b, d);
    lemma_div_pos_is_pos(a % d + b % d, d);
    let carry = (a % d + b % d) / d;
    assert(d * carry >= 0) by (nonlinear_arith)
        requires d > 0 && carry >= 0;
    lemma_dividing_sums(a, b, d, a % d + b % d - (a + b) % d);
    assert(d * ((a + b) / d) >= d * (a / d + b / d)) by (nonlinear_arith)
        requires d * ((a + b) / d) - (d * carry) == d * (a / d) + d * (b / d) && d * carry >= 0;
    assert((a + b) / d >= a / d + b / d) by (nonlinear_arith)
        requires d * ((a + b) / d) >= d * (a / d + b / d) && d > 0;
}

proof fn lemma_prefix_weight_nonneg(strategies: Seq<Strategies>, s: int)
    ensures
        prefix_weight(strategies, s) >= 0,
    decreases s,
{
    if s > 0 {
        lemma_prefix_weight_nonneg(strategies, s - 1);
    }
}

/// Earlier prefixes of the weight sum never exceed later ones.
proof fn lemma_prefix_weight_monotone(strategies: Seq<Strategies>, s1: int, s2: int)
    requires
        0 <= s1 <= s2,
    ensures
        prefix_weight(strategies, s1) <= prefix_weight(strategies, s2),
    decreases s2 - s1,
{
    if s1 < s2 {
        lemma_prefix_weight_monotone(strategies, s1, s2 - 1);
    }
}

/// No strategy's slice starts or ends beyond the crossover slots: the
/// cumulative shares stay within `cc`.
pub proof fn lemma_share_start_le_cc(strategies: Seq<Strategies>, cc: int, s: int)
    requires
        0 <= s <= strategies.len(),
        cc >= 0,
    ensures
        0 <= share_start(strategies, cc, s) <= cc,
    decreases s,
{
    let tw = total_weight(strategies);
    lemma_prefix_weight_nonneg(strategies, strategies.len() as int);
    if tw == 0 {
        lemma_share_start_zero_total(strategies, cc, s);
    } else {
        lemma_share_start_le_weighted(strategies, cc, s);
        lemma_prefix_weight_monotone(strategies, s, strategies.len() as int);
        lemma_prefix_weight_nonneg(strategies, s);
        assert(prefix_weight(strategies, s) * cc <= tw * cc) by (nonlinear_arith)
            requires 0 <= prefix_weight(strategies, s) <= tw && cc >= 0;
        lemma_div_is_ordered(prefix_weight(strategies, s) * cc, tw * cc, tw);
        lemma_div_by_multiple(cc, tw);
        assert(cc * tw == tw * cc) by (nonlinear_arith);
        lemma_div_pos_is_pos(prefix_weight(strategies, s) * cc, tw);
        assert(prefix_weight(strategies, s) * cc >= 0) by (nonlinear_arith)
            requires prefix_weight(strategies, s) >= 0 && cc >= 0;
    }
}

proof fn lemma_share_start_zero_total(strategies: Seq<Strategies>, cc: int, s: int)
    requires
        total_weight(strategies) == 0,
    ensures
        share_start(strategies, cc, s) == 0,
    decreases s,
{
    if s > 0 {
        lemma_share_start_zero_total(strategies, cc, s - 1);
    }
}

/// With a positive weight total, the cumulative shares are bounded by
/// the share the prefix's whole weight would get.
proof fn lemma_share_start_le_weighted(strategies: Seq<Strategies>, cc: int, s: int)
    requires
        cc >= 0,
        total_weight(strategies) > 0,
    ensures
        0 <= share_start(strategies, cc, s) <= prefix_weight(strategies, s) * cc / total_weight(
            strategies,
        ),
    decreases s,
{
    let tw = total_weight(strategies);
    if s <= 0 {
        lemma_prefix_weight_nonneg(strategies, s);
        assert(prefix_weight(strategies, s) * cc / tw >= 0) by {
            assert(prefix_weight(strategies, s) * cc >= 0) by (nonlinear_arith)
                requires prefix_weight(strategies, s) >= 0 && cc >= 0;
            lemma_div_pos_is_pos(prefix_weight(strategies, s) * cc, tw);
        }
    } else {
        lemma_share_start_le_weighted(strategies, cc, s - 1);
        let pw = prefix_weight(strategies, s - 1);
        let w = strategies[s - 1].spec_weight() as int;
        lemma_prefix_weight_nonneg(strategies, s - 1);
        assert(pw * cc >= 0 && w * cc >= 0) by (nonlinear_arith)
            requires pw >= 0 && w >= 0 && cc >= 0;
        lemma_div_superadditive(pw * cc, w * cc, tw);
        assert(pw * cc + w * cc == (pw + w) * cc) by (nonlinear_arith);
        lemma_div_pos_is_pos(w * cc, tw);
    }
}

/// The cursor only moves forward: slices of later strategies start no
/// earlier than those of earlier ones.
pub proof fn lemma_share_start_monotone(strategies: Seq<Strategies>, cc: int, s1: int, s2: int)
    requires
        cc >= 0,
        0 <= s1 <= s2,
    ensures
        share_start(strategies, cc, s1) <= share_start(strategies, cc, s2),
    decreases s2 - s1,
{
    if s1 < s2 {
        lemma_share_start_monotone(strategies, cc, s1, s2 - 1);
        let tw = total_weight(strategies);
        if tw != 0 {
            let w = strategies[s2 - 1].spec_weight() as int;
            lemma_prefix_weight_nonneg(strategies, strategies.len() as int);
            assert(w * cc >= 0) by (nonlinear_arith)
                requires w >= 0 && cc >= 0;
            lemma_div_pos_is_pos(w * cc, tw);
        }
    }
}

/// Adds up the configured strategies' weights.
fn total_strategy_weight(strategies: &Vec<Strategies>) -> (t: u128)
    ensures
        t == total_weight(strategies@),
{
    let mut t: u128 = 0;
    let mut s: usize = 0;
    while s < strategies.len()
        invariant
            s <= strategies@.len(),
            t == prefix_weight(strategies@, s as int),
            t <= s * 0xffff_ffff_ffff_ffffu128,
        decreases strategies.len() - s,
    {
        proof {
            assert((s + 1) * 0xffff_ffff_ffff_ffff == s * 0xffff_ffff_ffff_ffff
                + 0xffff_ffff_ffff_ffff) by (nonlinear_arith);
            assert(s * 0xffff_ffff_ffff_ffff <= 0xffff_ffff_ffff_ffffu128 * 0xffff_ffff_ffff_ffffu128)
                by (nonlinear_arith)
                requires 0 <= s <= 0xffff_ffff_ffff_ffffu128;
        }
        t = t + strategies[s].get_weight() as u128;
        s = s + 1;
    }
    t
}

/// One generation, fully resolved before anything is written back:
/// the ranking taken at the start, the crossover families (parents fixed
/// with their pre-generation fitness), and the copy assignments.
pub struct GenerationPlan {
    pub ranked: Vec<FitnessPair>,
    pub families: Vec<CrossoverFamily>,
    pub copies: Vec<CopyAssignment>,
}

/// Whether any roulette strategy is configured, in which case fitness
/// must behave as the roulette draw assumes.
pub open spec fn roulette_configured(strategies: Seq<Strategies>) -> bool {
    exists|s: int| 0 <= s < strategies.len() && (#[trigger] strategies[s]) is Roulette
}

/// What the roulette draw assumes of the population's scores: all
/// non-negative and bounded, with at least one genome scoring above
/// zero so that the draw's scale is positive.
pub open spec fn roulette_scores_ok(scores: Seq<i64>) -> bool {
    &&& scores.len() <= 1_000_000
    &&& forall|i: int| 0 <= i < scores.len() ==> 0 <= #[trigger] scores[i] <= FITNESS_LIMIT
    &&& exists|i: int| 0 <= i < scores.len() && #[trigger] scores[i] > 0
}

/// What a generation plan guarantees, given the scores the generation
/// opened with: the ranking is the scores' ranking; the crossover slots
/// are the worst-ranked prefix, sliced to the strategies by their
/// cumulative weighted shares, each slice's families meeting its
/// strategy's own guarantee; and the remaining replaced slots are
/// copy-filled from the elite window, cycling from the best downward.
pub open spec fn plan_ok(
    scores: Seq<i64>,
    survival_rate: int,
    crossover_rate: int,
    strategies: Seq<Strategies>,
    plan: GenerationPlan,
) -> bool {
    let n = scores.len() as int;
    let dead = dead_count_spec(n, survival_rate);
    let cc = crossover_count_spec(dead, crossover_rate);
    let window = copy_window(n, dead);
    &&& ranks_population(scores, plan.ranked@)
    &&& plan.families@.len() == share_start(strategies, cc, strategies.len() as int)
    &&& plan.families@.len() <= cc
    &&& forall|s: int|
        0 <= s < strategies.len() ==> (#[trigger] strategies[s]).offspring_ok(
            plan.ranked@,
            plan.ranked@.subrange(share_start(strategies, cc, s), share_start(strategies, cc, s + 1)),
            plan.families@.subrange(
                share_start(strategies, cc, s),
                share_start(strategies, cc, s + 1),
            ),
        )
    &&& plan.copies@.len() == dead - cc
    &&& forall|k: int|
        0 <= k < plan.copies@.len() ==> (#[trigger] plan.copies@[k]).child_index == plan.ranked@[cc
            + k].index && plan.copies@[k].parent_index == plan.ranked@[n - copy_cycle_offset(
            window,
            k,
        )].index
}

/// Plans one generation from the population's fitness scores: rank,
/// mark the worst `dead` slots for replacement, give the first share of
/// them to the strategies in proportion to their weights, and assign
/// the rest an elite parent to copy.  Rounding may leave trailing
/// crossover slots unassigned; a strategy whose share is empty is never
/// invoked, so a zero crossover rate or an empty strategy list plans no
/// crossover at all, and a full survival rate plans nothing.
pub fn plan_generation(
    scores: &Vec<i64>,
    survival_rate: u32,
    crossover_rate: u32,
    strategies: &Vec<Strategies>,
) -> (plan: GenerationPlan)
    requires
        survival_rate <= RATE_SCALE,
        crossover_rate <= RATE_SCALE,
        forall|s: int| 0 <= s < strategies@.len() ==> (#[trigger] strategies@[s]).valid_config(),
        roulette_configured(strategies@) ==> roulette_scores_ok(scores@),
    ensures
        plan_ok(scores@, survival_rate as int, crossover_rate as int, strategies@, plan),
        crossover_rate == 0 ==> plan.families@.len() == 0,
        strategies@.len() == 0 ==> plan.families@.len() == 0,
        survival_rate == RATE_SCALE ==> plan.families@.len() == 0 && plan.copies@.len() == 0,
{
    let n = scores.len();
    let ranked = rank_population(scores);
    let dead = dead_count(n, survival_rate);
    let cc = crossover_count(dead, crossover_rate);
    let total = total_strategy_weight(strategies);
    let ghost gcc = cc as int;
    let mut families: Vec<CrossoverFamily> = Vec::new();
    let mut s: usize = 0;
    let mut cursor: usize = 0;
    while s < strategies.len()
        invariant
            s <= strategies@.len(),
            n == scores@.len() == ranked@.len(),
            ranks_population(scores@, ranked@),
            dead == dead_count_spec(n as int, survival_rate as int),
            dead <= n,
            cc == crossover_count_spec(dead as int, crossover_rate as int),
            cc <= dead,
            gcc == cc as int,
            total == total_weight(strategies@),
            cursor == share_start(strategies@, gcc, s as int),
            cursor <= cc,
            families@.len() == cursor,
            forall|s2: int| 0 <= s2 < strategies@.len() ==> (#[trigger] strategies@[s2]).valid_config(),
            roulette_configured(strategies@) ==> roulette_scores_ok(scores@),
            forall|j: int|
                0 <= j < s ==> (#[trigger] strategies@[j]).offspring_ok(
                    ranked@,
                    ranked@.subrange(share_start(strategies@, gcc, j), share_start(strategies@, gcc, j + 1)),
                    families@.subrange(
                        share_start(strategies@, gcc, j),
                        share_start(strategies@, gcc, j + 1),
                    ),
                ),
        decreases strategies@.len() - s,
    {
        let ghost old_families = families@;
        let w = strategies[s].get_weight();
        proof {
            lemma_share_start_le_cc(strategies@, gcc, s as int + 1);
            lemma_prefix_weight_nonneg(strategies@, s as int);
            lemma_prefix_weight_monotone(strategies@, s as int + 1, strategies@.len() as int);
            if total != 0 {
                // The strategy's own weight never exceeds the total.
                assert(prefix_weight(strategies@, s as int + 1) == prefix_weight(strategies@, s as int)
                    + w);
                assert(w * gcc >= 0 && w * gcc <= total_weight(strategies@) * gcc) by (nonlinear_arith)
                    requires 0 <= w <= total_weight(strategies@) && gcc >= 0;
                assert((w as int) * gcc <= 0xffff_ffff_ffff_ffffu128 * 0xffff_ffff_ffff_ffffu128)
                    by (nonlinear_arith)
                    requires 0 <= w <= 0xffff_ffff_ffff_ffffu128 && 0 <= gcc <= 0xffff_ffff_ffff_ffffu128;
                lemma_div_is_ordered(w * gcc, total_weight(strategies@) * gcc, total_weight(strategies@));
                lemma_div_by_multiple(gcc, total_weight(strategies@));
                assert(gcc * total_weight(strategies@) == total_weight(strategies@) * gcc)
                    by (nonlinear_arith);
                lemma_div_pos_is_pos(w * gcc, total_weight(strategies@));
            }
        }
        let share: usize = if total == 0 {
            0
        } else {
            ((w as u128 * cc as u128) / total) as usize
        };
        assert(share == strategy_share(strategies@, gcc, s as int));
        assert(cursor + share == share_start(strategies@, gcc, s as int + 1));
        assert(cursor + share <= cc);
        if share > 0 {
            // A positive share means crossover slots exist, so the pool
            // is not empty.
            assert(cc >= 1 && n >= 1);
            let mut targets: Vec<FitnessPair> = Vec::new();
            let mut t: usize = 0;
            while t < share
                invariant
                    t <= share,
                    cursor + share <= cc <= n == ranked@.len(),
                    targets@ =~= ranked@.subrange(cursor as int, cursor as int + t as int),
                decreases share - t,
            {
                targets.push(ranked[cursor + t]);
                proof {
                    assert(targets@ =~= ranked@.subrange(cursor as int, cursor as int + t as int + 1));
                }
                t = t + 1;
            }
            proof {
                if strategies@[s as int] is Roulette {
                    assert(roulette_configured(strategies@));
                    let i = choose|i: int| 0 <= i < scores@.len() && #[trigger] scores@[i] > 0;
                    assert(slot_present(ranked@, i));
                    let k = choose|k: int| 0 <= k < ranked@.len() && (#[trigger] ranked@[k]).index == i;
                    assert(forall|p: int|
                        0 <= p < ranked@.len() ==> (#[trigger] ranked@[p]).fitness >= 0);
                    lemma_pool_sum_lower_bound(ranked@, k);
                }
                assert(strategies@[s as int].offspring_pre(ranked@));
            }
            let mut fams = strategies[s].create_offspring(&ranked, &targets);
            let ghost fams_view = fams@;
            families.append(&mut fams);
            proof {
                assert(families@ == old_families + fams_view);
                assert(families@.subrange(cursor as int, cursor as int + share as int) =~= fams_view);
            }
        }
        proof {
            if share == 0 {
                assert(families@.subrange(cursor as int, cursor as int) =~= Seq::<
                    CrossoverFamily,
                >::empty());
                assert(ranked@.subrange(cursor as int, cursor as int) =~= Seq::<FitnessPair>::empty());
                assert(strategies@[s as int].offspring_ok(
                    ranked@,
                    ranked@.subrange(cursor as int, cursor as int),
                    families@.subrange(cursor as int, cursor as int),
                ));
            }
            // The slices already granted to earlier strategies are a
            // stable prefix.
            assert forall|j: int| 0 <= j < s + 1 implies (#[trigger] strategies@[j]).offspring_ok(
                ranked@,
                ranked@.subrange(share_start(strategies@, gcc, j), share_start(strategies@, gcc, j + 1)),
                families@.subrange(
                    share_start(strategies@, gcc, j),
                    share_start(strategies@, gcc, j + 1),
                ),
            ) by {
                if j < s {
                    lemma_share_start_monotone(strategies@, gcc, j + 1, s as int);
                    lemma_share_start_le_cc(strategies@, gcc, j as int);
                    lemma_share_start_monotone(strategies@, gcc, j, j + 1);
                    assert(families@.subrange(
                        share_start(strategies@, gcc, j),
                        share_start(strategies@, gcc, j + 1),
                    ) =~= old_families.subrange(
                        share_start(strategies@, gcc, j),
                        share_start(strategies@, gcc, j + 1),
                    ));
                }
            }
        }
        cursor = cursor + share;
        s = s + 1;
    }
    let window0 = n - dead;
    let window = if window0 < 1 {
        1
    } else {
        window0
    };
    let copies = plan_copies(&ranked, cc, dead, window);
    GenerationPlan { ranked, families, copies }
}

/// Every family the plan holds writes its child to the slot that its
/// own position's ranking entry names: globally, family `k` replaces
/// `ranked[k]`, because the strategies' slices tile the assigned
/// prefix of the crossover slots in order.
#[verifier::rlimit(100)]
#[verifier::spinoff_prover]
pub proof fn lemma_families_replace_ranked_prefix(
    scores: Seq<i64>,
    survival_rate: int,
    crossover_rate: int,
    strategies: Seq<Strategies>,
    plan: GenerationPlan,
)
    requires
        0 <= survival_rate <= RATE_SCALE,
        0 <= crossover_rate <= RATE_SCALE,
        plan_ok(scores, survival_rate, crossover_rate, strategies, plan),
    ensures
        forall|k: int|
            0 <= k < plan.families@.len() ==> (#[trigger] plan.families@[k]).child_index
                == plan.ranked@[k].index,
{
    let n = scores.len() as int;
    let dead = dead_count_spec(n, survival_rate);
    let cc = crossover_count_spec(dead, crossover_rate);
    assert(0 <= dead <= n && dead * crossover_rate / (RATE_SCALE as int) <= dead) by (nonlinear_arith)
        requires
            n >= 0 && 0 <= survival_rate <= RATE_SCALE && 0 <= crossover_rate <= RATE_SCALE
                && dead == n * (RATE_SCALE - survival_rate) / (RATE_SCALE as int);
    lemma_div_pos_is_pos(dead * crossover_rate, RATE_SCALE as int);
    assert(dead * crossover_rate >= 0) by (nonlinear_arith)
        requires dead >= 0 && crossover_rate >= 0;
    assert forall|k: int| 0 <= k < plan.families@.len() implies (#[trigger] plan.families@[k]).child_index
        == plan.ranked@[k].index by {
        lemma_slice_of_position(strategies, cc, k, strategies.len() as int);
        let j = choose|j: int|
            0 <= j < strategies.len() && #[trigger] share_start(strategies, cc, j) <= k < share_start(
                strategies,
                cc,
                j + 1,
            );
        assert(strategies[j].offspring_ok(
            plan.ranked@,
            plan.ranked@.subrange(share_start(strategies, cc, j), share_start(strategies, cc, j + 1)),
            plan.families@.subrange(share_start(strategies, cc, j), share_start(strategies, cc, j + 1)),
        ));
        lemma_share_start_le_cc(strategies, cc, j);
        lemma_share_start_le_cc(strategies, cc, j + 1);
        lemma_share_start_monotone(strategies, cc, j + 1, strategies.len() as int);
        let lo = share_start(strategies, cc, j);
        let hi = share_start(strategies, cc, j + 1);
        assert(0 <= lo <= k < hi <= plan.families@.len());
        assert(hi <= cc <= plan.ranked@.len());
        assert(plan.families@.subrange(lo, hi)[k - lo] == plan.families@[k]);
        assert(plan.ranked@.subrange(lo, hi)[k - lo] == plan.ranked@[k]);
    }
}

/// A position below the assigned share count falls in exactly one
/// strategy's slice.
proof fn lemma_slice_of_position(strategies: Seq<Strategies>, cc: int, k: int, s: int)
    requires
        0 <= s <= strategies.len(),
        cc >= 0,
        0 <= k < share_start(strategies, cc, s),
    ensures
        exists|j: int|
            0 <= j < strategies.len() && #[trigger] share_start(strategies, cc, j) <= k < share_start(
                strategies,
                cc,
                j + 1,
            ),
    decreases s,
{
    if k >= share_start(strategies, cc, s - 1) {
        assert(share_start(strategies, cc, s - 1) <= k < share_start(strategies, cc, s));
    } else {
        lemma_slice_of_position(strategies, cc, k, s - 1);
    }
}

/// No slot is replaced twice within a generation, and no survivor is
/// replaced at all: the plan's write targets, crossover and copy alike,
/// are pairwise distinct slots from the replaced prefix of the ranking,
/// and every slot ranked at or above the replacement line stays.
pub proof fn lemma_plan_targets_disjoint(
    scores: Seq<i64>,
    survival_rate: int,
    crossover_rate: int,
    strategies: Seq<Strategies>,
    plan: GenerationPlan,
)
    requires
        0 <= survival_rate <= RATE_SCALE,
        0 <= crossover_rate <= RATE_SCALE,
        plan_ok(scores, survival_rate, crossover_rate, strategies, plan),
    ensures
        forall|k1: int, k2: int|
            0 <= k1 < k2 < plan.families@.len() ==> (#[trigger] plan.families@[k1]).child_index != (
            #[trigger] plan.families@[k2]).child_index,
        forall|k1: int, k2: int|
            0 <= k1 < k2 < plan.copies@.len() ==> (#[trigger] plan.copies@[k1]).child_index != (
            #[trigger] plan.copies@[k2]).child_index,
        forall|k1: int, k2: int|
            0 <= k1 < plan.families@.len() && 0 <= k2 < plan.copies@.len() ==> (
            #[trigger] plan.families@[k1]).child_index != (#[trigger] plan.copies@[k2]).child_index,
        forall|p: int, k: int|
            dead_count_spec(scores.len() as int, survival_rate) <= p < scores.len() && 0 <= k
                < plan.families@.len() ==> (#[trigger] plan.ranked@[p]).index != (
            #[trigger] plan.families@[k]).child_index,
        forall|p: int, k: int|
            dead_count_spec(scores.len() as int, survival_rate) <= p < scores.len() && 0 <= k
                < plan.copies@.len() ==> (#[trigger] plan.ranked@[p]).index != (
            #[trigger] plan.copies@[k]).child_index,
{
    let n = scores.len() as int;
    let dead = dead_count_spec(n, survival_rate);
    let cc = crossover_count_spec(dead, crossover_rate);
    assert(0 <= dead <= n && dead * crossover_rate / (RATE_SCALE as int) <= dead) by (nonlinear_arith)
        requires
            n >= 0 && 0 <= survival_rate <= RATE_SCALE && 0 <= crossover_rate <= RATE_SCALE
                && dead == n * (RATE_SCALE - survival_rate) / (RATE_SCALE as int);
    lemma_ranking_injective(scores, plan.ranked@);
    lemma_families_replace_ranked_prefix(scores, survival_rate, crossover_rate, strategies, plan);
}

/// Replacing slots in place: each write overwrites one slot of the
/// population with one child, first write first.
pub open spec fn apply_replacements<A>(pop: Seq<A>, writes: Seq<(usize, A)>) -> Seq<A>
    decreases writes.len(),
{
    if writes.len() == 0 {
        pop
    } else {
        apply_replacements(
            pop.update(writes[0].0 as int, writes[0].1),
            writes.subrange(1, writes.len() as int),
        )
    }
}

/// The population's size is invariant under a generation's writes:
/// replacement overwrites slots in place and never grows or shrinks the
/// population, however many generations run.
pub proof fn lemma_replacement_preserves_population_size<A>(pop: Seq<A>, writes: Seq<(usize, A)>)
    requires
        forall|k: int| 0 <= k < writes.len() ==> (#[trigger] writes[k]).0 < pop.len(),
    ensures
        apply_replacements(pop, writes).len() == pop.len(),
    decreases writes.len(),
{
    if writes.len() > 0 {
        let pop2 = pop.update(writes[0].0 as int, writes[0].1);
        let rest = writes.subrange(1, writes.len() as int);
        assert(forall|k: int| 0 <= k < rest.len() ==> rest[k] == writes[k + 1]);
        lemma_replacement_preserves_population_size(pop2, rest);
    }
}

/// A slot no write names keeps its genome: survivors are never
/// overwritten during replacement.
pub proof fn lemma_replacement_spares_untargeted<A>(pop: Seq<A>, writes: Seq<(usize, A)>, i: int)
    requires
        0 <= i < pop.len(),
        forall|k: int| 0 <= k < writes.len() ==> (#[trigger] writes[k]).0 < pop.len(),
        forall|k: int| 0 <= k < writes.len() ==> (#[trigger] writes[k]).0 != i,
    ensures
        apply_replacements(pop, writes)[i] == pop[i],
    decreases writes.len(),
{
    if writes.len() > 0 {
        let pop2 = pop.update(writes[0].0 as int, writes[0].1);
        let rest = writes.subrange(1, writes.len() as int);
        assert(forall|k: int| 0 <= k < rest.len() ==> rest[k] == writes[k + 1]);
        lemma_replacement_spares_untargeted(pop2, rest, i);
    }
}

/// Population size is invariant across a generation, and survivors are
/// left alone: writing each planned child (families first, then copies)
/// to its slot keeps the population's length, however the children were
/// materialized, and a slot ranked at or above the replacement line
/// still holds the genome it held before.  Applied generation after
/// generation, the population never grows or shrinks.
pub proof fn lemma_generation_preserves_population<A>(
    scores: Seq<i64>,
    survival_rate: int,
    crossover_rate: int,
    strategies: Seq<Strategies>,
    plan: GenerationPlan,
    pop: Seq<A>,
    writes: Seq<(usize, A)>,
)
    requires
        0 <= survival_rate <= RATE_SCALE,
        0 <= crossover_rate <= RATE_SCALE,
        plan_ok(scores, survival_rate, crossover_rate, strategies, plan),
        pop.len() == scores.len(),
        writes.len() == plan.families@.len() + plan.copies@.len(),
        forall|k: int|
            0 <= k < plan.families@.len() ==> (#[trigger] writes[k]).0 == plan.families@[k].child_index,
        forall|k: int|
            0 <= k < plan.copies@.len() ==> writes[plan.families@.len() + k].0 == (
            #[trigger] plan.copies@[k]).child_index,
    ensures
        apply_replacements(pop, writes).len() == pop.len(),
        forall|p: int|
            dead_count_spec(scores.len() as int, survival_rate) <= p < scores.len()
                ==> apply_replacements(pop, writes)[(#[trigger] plan.ranked@[p]).index as int] == pop[plan.ranked@[p].index as int],
{
    let n = scores.len() as int;
    let dead = dead_count_spec(n, survival_rate);
    let cc = crossover_count_spec(dead, crossover_rate);
    let fl = plan.families@.len() as int;
    assert(0 <= dead <= n && cc <= dead && 0 <= cc) by (nonlinear_arith)
        requires
            n >= 0 && 0 <= survival_rate <= RATE_SCALE && 0 <= crossover_rate <= RATE_SCALE
                && dead == n * (RATE_SCALE - survival_rate) / (RATE_SCALE as int)
                && cc == dead * crossover_rate / (RATE_SCALE as int);
    lemma_families_replace_ranked_prefix(scores, survival_rate, crossover_rate, strategies, plan);
    lemma_plan_targets_disjoint(scores, survival_rate, crossover_rate, strategies, plan);
    // Every write lands on a replaced slot, which is in range.
    assert forall|k: int| 0 <= k < writes.len() implies (#[trigger] writes[k]).0 < pop.len() by {
        if k < fl {
            assert(writes[k].0 == plan.families@[k].child_index);
            assert(plan.families@[k].child_index == plan.ranked@[k].index);
        } else {
            assert(writes[k].0 == plan.copies@[k - fl].child_index);
            assert(plan.copies@[k - fl].child_index == plan.ranked@[cc + (k - fl)].index);
        }
    }
    lemma_replacement_preserves_population_size(pop, writes);
    assert forall|p: int|
        dead <= p < n implies apply_replacements(pop, writes)[(#[trigger] plan.ranked@[p]).index as int]
        == pop[plan.ranked@[p].index as int] by {
        let i = plan.ranked@[p].index as int;
        assert(i < pop.len());
        assert forall|k: int| 0 <= k < writes.len() implies (#[trigger] writes[k]).0 != i by {
            if k < fl {
                assert(writes[k].0 == plan.families@[k].child_index);
                assert(plan.ranked@[p].index != plan.families@[k].child_index);
            } else {
                assert(writes[k].0 == plan.copies@[k - fl].child_index);
                assert(plan.ranked@[p].index != plan.copies@[k - fl].child_index);
            }
        }
        lemma_replacement_spares_untargeted(pop, writes, i);
    }
}

/// The population slot holding the highest fitness, the first such slot
/// when several tie.
pub fn best_index(scores: &Vec<i64>) -> (b: usize)
    requires
        scores@.len() >= 1,
    ensures
        b < scores@.len(),
        forall|i: int| 0 <= i < scores@.len() ==> scores@[i] <= scores@[b as int],
        forall|i: int| 0 <= i < b ==> scores@[i] < scores@[b as int],
{
    let mut best: usize = 0;
    let mut i: usize = 1;
    while i < scores.len()
        invariant
            best < i <= scores@.len(),
            forall|j: int| 0 <= j < i ==> scores@[j] <= scores@[best as int],
            forall|j: int| 0 <= j < best ==> scores@[j] < scores@[best as int],
        decreases scores.len() - i,
    {
        if scores[i] > scores[best] {
            best = i;
        }
        i = i + 1;
    }
    best
}

} // verus!
