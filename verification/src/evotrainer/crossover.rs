//! Parent-selection strategies: given the ranked population and the slots
//! to be replaced, each strategy assigns a pair of parents to every slot.

use vstd::prelude::*;
use crate::evotrainer::evotrainer::{distinct_slots, FitnessPair};
use crate::rng::rand_below;
use crate::{FITNESS_LIMIT, RATE_SCALE};

verus! {

/// A fully resolved crossover assignment: the population slot the child
/// will be written to, the slots of its two parents, and the fitness the
/// parents held when the generation's ranking was taken.
#[derive(Clone, Copy, Debug)]
pub struct CrossoverFamily {
    pub child_index: usize,
    pub parent_a_index: usize,
    pub parent_b_index: usize,
    pub parent_a_fitness: i64,
    pub parent_b_fitness: i64,
}

/// Picks parents by running two independent tournaments per slot over
/// the whole ranked pool, each of `rounds` rounds.
#[derive(Clone, Copy, Debug)]
pub struct TournamentStrategy {
    pub weight: usize,
    pub rounds: usize,
}

/// Picks both parents uniformly from the elite window: the top share of
/// the ranked pool whose size is `rate` (fixed-point) of the pool, and
/// at least one.
#[derive(Clone, Copy, Debug)]
pub struct PrimeParentStrategy {
    pub weight: usize,
    pub rate: u32,
}

/// Picks parents by a draw against the pool's total fitness.
#[derive(Clone, Copy, Debug)]
pub struct RouletteStrategy {
    pub weight: usize,
}

/// The closed set of parent-selection strategies a trainer can employ.
#[derive(Clone, Copy, Debug)]
pub enum Strategies {
    Tournement(TournamentStrategy),
    PrimeParent(PrimeParentStrategy),
    Roulette(RouletteStrategy),
}

/// Two configurations are the same strategy when they are the same
/// variant, whatever their knobs: a trainer keeps at most one
/// configuration per variant.
pub open spec fn same_variant(a: Strategies, b: Strategies) -> bool {
    match (a, b) {
        (Strategies::Tournement(_), Strategies::Tournement(_)) => true,
        (Strategies::PrimeParent(_), Strategies::PrimeParent(_)) => true,
        (Strategies::Roulette(_), Strategies::Roulette(_)) => true,
        _ => false,
    }
}

impl PartialEq for Strategies {
    fn eq(&self, other: &Self) -> (r: bool) {
        match (self, other) {
            (Strategies::Tournement(_), Strategies::Tournement(_)) => true,
            (Strategies::PrimeParent(_), Strategies::PrimeParent(_)) => true,
            (Strategies::Roulette(_), Strategies::Roulette(_)) => true,
            _ => false,
        }
    }
}

impl vstd::std_specs::cmp::PartialEqSpecImpl for Strategies {
    open spec fn obeys_eq_spec() -> bool {
        true
    }

    open spec fn eq_spec(&self, other: &Self) -> bool {
        same_variant(*self, *other)
    }
}

/// Whether some position of the pool at or after `lo` carries population
/// slot `idx` with fitness `fit`.
pub open spec fn pool_has_parent(pool: Seq<FitnessPair>, idx: int, fit: int, lo: int) -> bool {
    exists|p: int|
        lo <= p < pool.len() && (#[trigger] pool[p]).index == idx && pool[p].fitness == fit
}

/// One family per replacement slot, each child written to the slot it
/// was asked for, in order.
pub open spec fn children_match_targets(targets: Seq<FitnessPair>, fams: Seq<CrossoverFamily>) -> bool {
    &&& fams.len() == targets.len()
    &&& forall|k: int|
        0 <= k < fams.len() ==> (#[trigger] fams[k]).child_index == targets[k].index
}

/// Every parent of every family names a pool position at or after `lo`,
/// with the fitness the pool holds there.
pub open spec fn parents_from_pool(pool: Seq<FitnessPair>, fams: Seq<CrossoverFamily>, lo: int) -> bool {
    forall|k: int|
        0 <= k < fams.len() ==> pool_has_parent(
            pool,
            (#[trigger] fams[k]).parent_a_index as int,
            fams[k].parent_a_fitness as int,
            lo,
        ) && pool_has_parent(pool, fams[k].parent_b_index as int, fams[k].parent_b_fitness as int, lo)
}

/// Size of the elite window the prime-parent strategy draws from: the
/// `rate` share of the pool, rounded down, and at least one.
pub open spec fn prime_window(pool_len: int, rate: int) -> int {
    let w = pool_len * rate / (RATE_SCALE as int);
    if w < 1 {
        1
    } else {
        w
    }
}

/// Total fitness of the pool, the scale of the roulette draw.
pub open spec fn pool_fitness_sum(pool: Seq<FitnessPair>) -> int
    decreases pool.len(),
{
    if pool.len() == 0 {
        0
    } else {
        pool_fitness_sum(pool.drop_last()) + pool.last().fitness
    }
}

/// A pool of non-negative fitness has a non-negative total.
pub proof fn lemma_pool_sum_nonneg(pool: Seq<FitnessPair>)
    requires
        forall|p: int| 0 <= p < pool.len() ==> (#[trigger] pool[p]).fitness >= 0,
    ensures
        pool_fitness_sum(pool) >= 0,
    decreases pool.len(),
{
    if pool.len() > 0 {
        lemma_pool_sum_nonneg(pool.drop_last());
    }
}

/// In a pool of non-negative fitness, the total is at least any single
/// entry; a pool with one positive entry has a positive total.
pub proof fn lemma_pool_sum_lower_bound(pool: Seq<FitnessPair>, k: int)
    requires
        forall|p: int| 0 <= p < pool.len() ==> (#[trigger] pool[p]).fitness >= 0,
        0 <= k < pool.len(),
    ensures
        pool_fitness_sum(pool) >= pool[k].fitness,
    decreases pool.len(),
{
    if k == pool.len() - 1 {
        lemma_pool_sum_nonneg(pool.drop_last());
    } else {
        lemma_pool_sum_lower_bound(pool.drop_last(), k);
    }
}

/// A uniformly random position of a pool of `n` entries.
fn rand_position(n: usize) -> (r: usize)
    requires
        n >= 1,
    ensures
        r < n,
{
    let r = rand_below(n as u64);
    r as usize
}

/// One round of a tournament: the challenger takes the standing
/// winner's place exactly when its fitness is strictly higher, so the
/// standing winner keeps ties.
pub fn tournament_round(pool: &Vec<FitnessPair>, standing: usize, challenger: usize) -> (win: usize)
    requires
        standing < pool@.len(),
        challenger < pool@.len(),
    ensures
        win == (if pool@[challenger as int].fitness > pool@[standing as int].fitness {
            challenger
        } else {
            standing
        }),
{
    if pool[challenger].fitness > pool[standing].fitness {
        challenger
    } else {
        standing
    }
}

/// Runs one tournament: an opening draw from the whole pool, then
/// `rounds - 1` challenger draws, each keeping whichever of the standing
/// winner and the challenger ranks higher by fitness.
fn run_tournament(pool: &Vec<FitnessPair>, rounds: usize) -> (win: usize)
    requires
        pool@.len() >= 1,
    ensures
        win < pool@.len(),
{
    let mut win = rand_position(pool.len());
    let mut t: usize = 1;
    while t < rounds
        invariant
            win < pool@.len(),
            pool@.len() >= 1,
        decreases rounds - t,
    {
        let challenger = rand_position(pool.len());
        win = tournament_round(pool, win, challenger);
        t = t + 1;
    }
    win
}

impl TournamentStrategy {
    pub fn get_weight(&self) -> (w: usize)
        ensures
            w == self.weight,
    {
        self.weight
    }

    /// Assigns parents to every slot of `crossover_pop` by two
    /// independent tournaments per slot over the whole ranked pool; a
    /// slot may draw the same parent twice.
    pub fn create_offspring(
        &self,
        parent_fitness_pairs: &Vec<FitnessPair>,
        crossover_pop: &Vec<FitnessPair>,
    ) -> (children: Vec<CrossoverFamily>)
        requires
            parent_fitness_pairs@.len() >= 1,
        ensures
            children_match_targets(crossover_pop@, children@),
            parents_from_pool(parent_fitness_pairs@, children@, 0),
    {
        let mut children: Vec<CrossoverFamily> = Vec::new();
        let mut k: usize = 0;
        while k < crossover_pop.len()
            invariant
                k <= crossover_pop@.len(),
                parent_fitness_pairs@.len() >= 1,
                children@.len() == k,
                forall|j: int|
                    0 <= j < k ==> (#[trigger] children@[j]).child_index == crossover_pop@[j].index,
                parents_from_pool(parent_fitness_pairs@, children@, 0),
            decreases crossover_pop.len() - k,
        {
            let p_a_i = run_tournament(parent_fitness_pairs, self.rounds);
            let p_b_i = run_tournament(parent_fitness_pairs, self.rounds);
            let p_a = parent_fitness_pairs[p_a_i];
            let p_b = parent_fitness_pairs[p_b_i];
            children.push(
                CrossoverFamily {
                    child_index: crossover_pop[k].index,
                    parent_a_index: p_a.index,
                    parent_b_index: p_b.index,
                    parent_a_fitness: p_a.fitness,
                    parent_b_fitness: p_b.fitness,
                },
            );
            k = k + 1;
        }
        children
    }
}

impl PrimeParentStrategy {
    pub fn get_weight(&self) -> (w: usize)
        ensures
            w == self.weight,
    {
        self.weight
    }

    /// The size of this strategy's elite window over a pool of
    /// `pool_len` entries.
    pub fn window(&self, pool_len: usize) -> (w: usize)
        requires
            self.rate <= RATE_SCALE,
            pool_len >= 1,
        ensures
            w == prime_window(pool_len as int, self.rate as int),
            1 <= w <= pool_len,
    {
        proof {
            assert(pool_len * self.rate / (RATE_SCALE as int) <= pool_len) by (nonlinear_arith)
                requires 0 <= self.rate <= RATE_SCALE && pool_len >= 1;
            assert(pool_len * self.rate >= 0) by (nonlinear_arith)
                requires self.rate >= 0 && pool_len >= 0;
        }
        let w = ((pool_len as u128 * self.rate as u128) / (RATE_SCALE as u128)) as usize;
        if w < 1 {
            1
        } else {
            w
        }
    }

    /// Assigns parents to every slot of `crossover_pop`, both drawn
    /// uniformly from the elite window at the top of the ranked pool.
    /// When the window has at least two entries the second parent is
    /// drawn from the window without the first, so the parents are
    /// distinct; a window of one entry falls back to equal parents
    /// rather than redrawing forever.
    pub fn create_offspring(
        &self,
        parent_fitness_pairs: &Vec<FitnessPair>,
        crossover_pop: &Vec<FitnessPair>,
    ) -> (children: Vec<CrossoverFamily>)
        requires
            parent_fitness_pairs@.len() >= 1,
            self.rate <= RATE_SCALE,
        ensures
            children_match_targets(crossover_pop@, children@),
            parents_from_pool(
                parent_fitness_pairs@,
                children@,
                parent_fitness_pairs@.len() - prime_window(
                    parent_fitness_pairs@.len() as int,
                    self.rate as int,
                ),
            ),
            distinct_slots(parent_fitness_pairs@) && prime_window(
                parent_fitness_pairs@.len() as int,
                self.rate as int,
            ) >= 2 ==> forall|k: int|
                0 <= k < children@.len() ==> (#[trigger] children@[k]).parent_a_index
                    != children@[k].parent_b_index,
    {
        let n = parent_fitness_pairs.len();
        let window = self.window(n);
        let base = n - window;
        let ghost lo = base as int;
        let mut children: Vec<CrossoverFamily> = Vec::new();
        let mut k: usize = 0;
        while k < crossover_pop.len()
            invariant
                k <= crossover_pop@.len(),
                n == parent_fitness_pairs@.len(),
                1 <= window <= n,
                base == n - window,
                lo == base as int,
                children@.len() == k,
                forall|j: int|
                    0 <= j < k ==> (#[trigger] children@[j]).child_index == crossover_pop@[j].index,
                parents_from_pool(parent_fitness_pairs@, children@, lo),
                distinct_slots(parent_fitness_pairs@) && window >= 2 ==> forall|j: int|
                    0 <= j < k ==> (#[trigger] children@[j]).parent_a_index
                        != children@[j].parent_b_index,
            decreases crossover_pop.len() - k,
        {
            let a_off = rand_position(window);
            let b_off = if window >= 2 {
                let r = rand_position(window - 1);
                if r >= a_off {
                    r + 1
                } else {
                    r
                }
            } else {
                a_off
            };
            assert(a_off < window && b_off < window);
            assert(base + a_off < parent_fitness_pairs@.len());
            assert(base + b_off < parent_fitness_pairs@.len());
            let p_a = parent_fitness_pairs[base + a_off];
            let p_b = parent_fitness_pairs[base + b_off];
            children.push(
                CrossoverFamily {
                    child_index: crossover_pop[k].index,
                    parent_a_index: p_a.index,
                    parent_b_index: p_b.index,
                    parent_a_fitness: p_a.fitness,
                    parent_b_fitness: p_b.fitness,
                },
            );
            k = k + 1;
        }
        children
    }
}

/// Maps a roulette draw `u` below the pool's fitness total onto a pool
/// position: the draw is scaled by the pool size against the total and
/// rounded down, which always lands inside the pool.
fn roulette_position(u: u64, sum: u64, len: usize) -> (r: usize)
    requires
        u < sum,
        1 <= len,
        sum <= 0x7fff_ffff_ffff_ffff,
    ensures
        r == (u as int) * (len as int) / (sum as int),
        r < len,
{
    proof {
        assert((u as int) * (len as int) / (sum as int) < len) by (nonlinear_arith)
            requires 0 <= u < sum && 1 <= len;
        assert((u as int) * (len as int) >= 0 && (u as int) * (len as int)
            <= 0x8000_0000_0000_0000 * 0x1_0000_0000_0000_0000) by (nonlinear_arith)
            requires 0 <= u <= 0x8000_0000_0000_0000 && 0 <= len <= 0x1_0000_0000_0000_0000;
    }
    ((u as u128 * len as u128) / (sum as u128)) as usize
}

impl RouletteStrategy {
    pub fn get_weight(&self) -> (w: usize)
        ensures
            w == self.weight,
    {
        self.weight
    }

    /// Assigns parents to every slot of `crossover_pop`, each chosen by
    /// an independent draw below the pool's total fitness, scaled onto
    /// the pool.  The pool's fitness must be non-negative with a
    /// positive total for the draw to be meaningful.
    pub fn create_offspring(
        &self,
        parent_fitness_pairs: &Vec<FitnessPair>,
        crossover_pop: &Vec<FitnessPair>,
    ) -> (children: Vec<CrossoverFamily>)
        requires
            1 <= parent_fitness_pairs@.len() <= 1_000_000,
            forall|p: int|
                0 <= p < parent_fitness_pairs@.len() ==> 0 <= (#[trigger] parent_fitness_pairs@[p]).fitness
                    <= FITNESS_LIMIT,
            pool_fitness_sum(parent_fitness_pairs@) > 0,
        ensures
            children_match_targets(crossover_pop@, children@),
            parents_from_pool(parent_fitness_pairs@, children@, 0),
    {
        let sum = sum_pool_fitness(parent_fitness_pairs);
        let mut children: Vec<CrossoverFamily> = Vec::new();
        let mut k: usize = 0;
        while k < crossover_pop.len()
            invariant
                k <= crossover_pop@.len(),
                1 <= parent_fitness_pairs@.len(),
                0 < sum <= 1_000_000_000_000_000_000,
                children@.len() == k,
                forall|j: int|
                    0 <= j < k ==> (#[trigger] children@[j]).child_index == crossover_pop@[j].index,
                parents_from_pool(parent_fitness_pairs@, children@, 0),
            decreases crossover_pop.len() - k,
        {
            let u_a = rand_below(sum as u64);
            let u_b = rand_below(sum as u64);
            let p_a_i = roulette_position(u_a, sum as u64, parent_fitness_pairs.len());
            let p_b_i = roulette_position(u_b, sum as u64, parent_fitness_pairs.len());
            let p_a = parent_fitness_pairs[p_a_i];
            let p_b = parent_fitness_pairs[p_b_i];
            children.push(
                CrossoverFamily {
                    child_index: crossover_pop[k].index,
                    parent_a_index: p_a.index,
                    parent_b_index: p_b.index,
                    parent_a_fitness: p_a.fitness,
                    parent_b_fitness: p_b.fitness,
                },
            );
            k = k + 1;
        }
        children
    }
}

/// Adds up the pool's fitness scores.
fn sum_pool_fitness(pool: &Vec<FitnessPair>) -> (sum: i64)
    requires
        pool@.len() <= 1_000_000,
        forall|p: int| 0 <= p < pool@.len() ==> 0 <= (#[trigger] pool@[p]).fitness <= FITNESS_LIMIT,
    ensures
        sum == pool_fitness_sum(pool@),
        0 <= sum <= 1_000_000_000_000_000_000,
{
    let mut sum: i64 = 0;
    let mut p: usize = 0;
    while p < pool.len()
        invariant
            p <= pool@.len() <= 1_000_000,
            forall|j: int| 0 <= j < pool@.len() ==> 0 <= (#[trigger] pool@[j]).fitness <= FITNESS_LIMIT,
            sum == pool_fitness_sum(pool@.subrange(0, p as int)),
            0 <= sum <= p * FITNESS_LIMIT,
        decreases pool.len() - p,
    {
        proof {
            assert(pool@.subrange(0, p + 1).drop_last() =~= pool@.subrange(0, p as int));
            assert((p + 1) * FITNESS_LIMIT == p * FITNESS_LIMIT + FITNESS_LIMIT) by (nonlinear_arith);
        }
        sum = sum + pool[p].fitness;
        p = p + 1;
    }
    proof {
        assert(pool@.subrange(0, pool@.len() as int) =~= pool@);
        assert(pool@.len() * FITNESS_LIMIT <= 1_000_000 * FITNESS_LIMIT) by (nonlinear_arith)
            requires pool@.len() <= 1_000_000;
    }
    sum
}

impl Strategies {
    /// The configured relative influence of this strategy.
    pub open spec fn spec_weight(self) -> usize {
        match self {
            Strategies::Tournement(t) => t.weight,
            Strategies::PrimeParent(p) => p.weight,
            Strategies::Roulette(r) => r.weight,
        }
    }

    pub fn get_weight(&self) -> (w: usize)
        ensures
            w == self.spec_weight(),
    {
        match self {
            Strategies::Tournement(t) => t.get_weight(),
            Strategies::PrimeParent(p) => p.get_weight(),
            Strategies::Roulette(r) => r.get_weight(),
        }
    }

    /// What must hold of a strategy's knobs for it to be usable at all:
    /// the builder establishes this once at construction.
    pub open spec fn valid_config(self) -> bool {
        match self {
            Strategies::PrimeParent(p) => p.rate <= RATE_SCALE,
            _ => true,
        }
    }

    /// What a strategy asks of the ranked pool it draws parents from.
    pub open spec fn offspring_pre(self, pool: Seq<FitnessPair>) -> bool {
        &&& pool.len() >= 1
        &&& match self {
            Strategies::Tournement(_) => true,
            Strategies::PrimeParent(p) => p.rate <= RATE_SCALE,
            Strategies::Roulette(_) => {
                &&& pool.len() <= 1_000_000
                &&& forall|p: int| 0 <= p < pool.len() ==> 0 <= (#[trigger] pool[p]).fitness <= FITNESS_LIMIT
                &&& pool_fitness_sum(pool) > 0
            },
        }
    }

    /// What a strategy promises of the families it returns: one child
    /// per slot in order, and parents taken from wherever in the pool
    /// the strategy draws (the whole pool, or its elite window).
    pub open spec fn offspring_ok(
        self,
        pool: Seq<FitnessPair>,
        targets: Seq<FitnessPair>,
        fams: Seq<CrossoverFamily>,
    ) -> bool {
        &&& children_match_targets(targets, fams)
        &&& match self {
            Strategies::Tournement(_) => parents_from_pool(pool, fams, 0),
            Strategies::PrimeParent(p) => {
                &&& parents_from_pool(pool, fams, pool.len() - prime_window(pool.len() as int, p.rate as int))
                &&& (distinct_slots(pool) && prime_window(pool.len() as int, p.rate as int) >= 2
                    ==> forall|k: int|
                        0 <= k < fams.len() ==> (#[trigger] fams[k]).parent_a_index != fams[k].parent_b_index)
            },
            Strategies::Roulette(_) => parents_from_pool(pool, fams, 0),
        }
    }

    /// Dispatches to the configured strategy: the strategy set is
    /// closed, so the dispatch is exhaustive.
    pub fn create_offspring(
        &self,
        parent_fitness_pairs: &Vec<FitnessPair>,
        crossover_pop: &Vec<FitnessPair>,
    ) -> (children: Vec<CrossoverFamily>)
        requires
            self.offspring_pre(parent_fitness_pairs@),
        ensures
            self.offspring_ok(parent_fitness_pairs@, crossover_pop@, children@),
    {
        match self {
            Strategies::Tournement(t) => t.create_offspring(parent_fitness_pairs, crossover_pop),
            Strategies::PrimeParent(p) => p.create_offspring(parent_fitness_pairs, crossover_pop),
            Strategies::Roulette(r) => r.create_offspring(parent_fitness_pairs, crossover_pop),
        }
    }
}

} // verus!
