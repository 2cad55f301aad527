//! Assembles and validates a trainer configuration before any training
//! runs: out-of-range parameters are rejected here, once, so that the
//! generation pipeline can assume them sound ever after.

use vstd::prelude::*;
use crate::evotrainer::crossover::{same_variant, Strategies};
use crate::genome::valid_architecture;
use crate::RATE_SCALE;

verus! {

/// Why a configuration could not be built: a required field was never
/// set, or a field held an out-of-range value.
#[derive(Debug)]
pub enum TrainerBuildError {
    ValidationError(String),
    VariableNotSet(String),
}

/// A validated trainer configuration: everything a generation needs
/// except the caller's fitness function and the population itself.
pub struct TrainerConfig {
    pub population_size: usize,
    pub architecture: Vec<usize>,
    pub survival_rate: u32,
    pub crossover_rate: u32,
    pub mutation_rate: u32,
    pub strategies: Vec<Strategies>,
}

impl TrainerConfig {
    /// What [`TrainerBuilder::build`] establishes and every generation
    /// may assume: a population worth ranking, a network shape worth
    /// evaluating, every rate on the probability scale, and a crossover
    /// rate forced to zero when no strategy could serve it.
    pub open spec fn wf(self) -> bool {
        &&& self.population_size > 1
        &&& valid_architecture(self.architecture@)
        &&& self.survival_rate <= RATE_SCALE
        &&& self.crossover_rate <= RATE_SCALE
        &&& self.mutation_rate <= RATE_SCALE
        &&& forall|s: int|
            0 <= s < self.strategies@.len() ==> (#[trigger] self.strategies@[s]).valid_config()
        &&& self.strategies@.len() == 0 ==> self.crossover_rate == 0
    }
}

/// A rate that was either never set (treated as zero) or set on the
/// probability scale.
pub open spec fn rate_opt_ok(r: Option<u32>) -> bool {
    match r {
        Option::None => true,
        Option::Some(v) => v <= RATE_SCALE,
    }
}

/// The rate a configuration takes from an optional field.
pub open spec fn rate_or_zero(r: Option<u32>) -> u32 {
    match r {
        Option::None => 0u32,
        Option::Some(v) => v,
    }
}

/// Whether `j` is the first configured strategy of `s`'s variant.
pub open spec fn variant_match_at(ss: Seq<Strategies>, s: Strategies, j: int) -> bool {
    &&& 0 <= j < ss.len()
    &&& same_variant(ss[j], s)
    &&& forall|i: int| 0 <= i < j ==> !same_variant(#[trigger] ss[i], s)
}

/// Collects the trainer's parameters one by one; [`TrainerBuilder::build`]
/// validates them together.
pub struct TrainerBuilder {
    pub parent_strategies: Vec<Strategies>,
    pub population_size: Option<usize>,
    pub survival_rate: Option<u32>,
    pub crossover_rate: Option<u32>,
    pub mutation_rate: Option<u32>,
    pub architecture: Option<Vec<usize>>,
}

/// When building succeeds: the required fields are set and every
/// parameter is within its range.
pub open spec fn build_ok(b: TrainerBuilder) -> bool {
    &&& b.population_size is Some
    &&& b.architecture is Some
    &&& b.population_size->Some_0 > 1
    &&& valid_architecture(b.architecture->Some_0@)
    &&& rate_opt_ok(b.survival_rate)
    &&& rate_opt_ok(b.crossover_rate)
    &&& rate_opt_ok(b.mutation_rate)
    &&& forall|s: int|
        0 <= s < b.parent_strategies@.len() ==> (#[trigger] b.parent_strategies@[s]).valid_config()
}

impl TrainerBuilder {
    /// A builder with nothing set: rates left unset build as zero.
    pub fn new() -> (b: Self)
        ensures
            b.parent_strategies@.len() == 0,
            b.population_size is None,
            b.survival_rate is None,
            b.crossover_rate is None,
            b.mutation_rate is None,
            b.architecture is None,
    {
        Self {
            parent_strategies: Vec::new(),
            population_size: Option::None,
            survival_rate: Option::None,
            crossover_rate: Option::None,
            mutation_rate: Option::None,
            architecture: Option::None,
        }
    }

    pub fn set_population_size(&mut self, size: usize)
        ensures
            *final(self) == (TrainerBuilder { population_size: Option::Some(size), ..*old(self) }),
    {
        self.population_size = Option::Some(size);
    }

    pub fn set_architecture(&mut self, architecture: Vec<usize>)
        ensures
            *final(self) == (TrainerBuilder { architecture: Option::Some(architecture), ..*old(self) }),
    {
        self.architecture = Option::Some(architecture);
    }

    pub fn set_survival_rate(&mut self, rate: u32)
        ensures
            *final(self) == (TrainerBuilder { survival_rate: Option::Some(rate), ..*old(self) }),
    {
        self.survival_rate = Option::Some(rate);
    }

    pub fn set_crossover_rate(&mut self, rate: u32)
        ensures
            *final(self) == (TrainerBuilder { crossover_rate: Option::Some(rate), ..*old(self) }),
    {
        self.crossover_rate = Option::Some(rate);
    }

    pub fn set_mutation_rate(&mut self, rate: u32)
        ensures
            *final(self) == (TrainerBuilder { mutation_rate: Option::Some(rate), ..*old(self) }),
    {
        self.mutation_rate = Option::Some(rate);
    }

    /// Adds a strategy, keeping at most one configuration per variant:
    /// a strategy of a variant already configured overwrites the
    /// earlier configuration in place, any other is appended.
    #[verifier::loop_isolation(false)]
    pub fn add_parent_selection_strategy(&mut self, strategy: Strategies)
        ensures
            final(self).population_size == old(self).population_size,
            final(self).survival_rate == old(self).survival_rate,
            final(self).crossover_rate == old(self).crossover_rate,
            final(self).mutation_rate == old(self).mutation_rate,
            final(self).architecture == old(self).architecture,
            (forall|j: int|
                0 <= j < old(self).parent_strategies@.len() ==> !same_variant(
                    #[trigger] old(self).parent_strategies@[j],
                    strategy,
                )) ==> final(self).parent_strategies@ == old(self).parent_strategies@.push(strategy),
            forall|j: int|
                variant_match_at(old(self).parent_strategies@, strategy, j)
                    ==> final(self).parent_strategies@ == old(self).parent_strategies@.update(
                    j,
                    strategy,
                ),
    {
        let ghost old_ss = self.parent_strategies@;
        let mut i: usize = 0;
        while i < self.parent_strategies.len()
            invariant
                i <= self.parent_strategies@.len(),
                *self == (TrainerBuilder { parent_strategies: self.parent_strategies, ..*old(self) }),
                self.parent_strategies@ == old_ss,
                forall|j: int| 0 <= j < i ==> !same_variant(#[trigger] old_ss[j], strategy),
            decreases self.parent_strategies@.len() - i,
        {
            if self.parent_strategies[i] == strategy {
                self.parent_strategies.set(i, strategy);
                proof {
                    assert(same_variant(old(self).parent_strategies@[i as int], strategy));
                    assert(variant_match_at(old_ss, strategy, i as int));
                    assert forall|j: int|
                        variant_match_at(old_ss, strategy, j) implies self.parent_strategies@
                        == old_ss.update(j, strategy) by {
                        if j < i {
                            assert(!same_variant(old_ss[j], strategy));
                        } else if j > i {
                            assert(!same_variant(old_ss[i as int], strategy));
                        }
                    }
                }
                return ;
            }
            i = i + 1;
        }
        self.parent_strategies.push(strategy);
        proof {
            assert forall|j: int|
                variant_match_at(old_ss, strategy, j) implies self.parent_strategies@ == old_ss.update(
                j,
                strategy,
            ) by {
                assert(!same_variant(old_ss[j], strategy));
            }
        }
    }

    /// Validates the collected parameters and hands back the
    /// configuration a trainer runs on.  A missing population size or
    /// architecture is reported as that variable not set; every
    /// out-of-range parameter as a validation failure.  A rate never
    /// set counts as zero, and with no strategy configured the
    /// crossover rate is forced to zero, so every replaced slot would
    /// go to the copy phase.
    #[verifier::loop_isolation(false)]
    pub fn build(&self) -> (r: Result<TrainerConfig, TrainerBuildError>)
        ensures
            r is Ok <==> build_ok(*self),
            r matches Ok(cfg) ==> {
                &&& cfg.wf()
                &&& cfg.population_size == self.population_size->Some_0
                &&& cfg.architecture@ == self.architecture->Some_0@
                &&& cfg.survival_rate == rate_or_zero(self.survival_rate)
                &&& cfg.mutation_rate == rate_or_zero(self.mutation_rate)
                &&& cfg.strategies@ == self.parent_strategies@
                &&& cfg.crossover_rate == (if self.parent_strategies@.len() == 0 {
                    0u32
                } else {
                    rate_or_zero(self.crossover_rate)
                })
            },
            r matches Err(e) ==> ((e is VariableNotSet) <==> (self.population_size is None
                || self.architecture is None)),
            self.population_size is None ==> (r matches Err(e) && e matches
                TrainerBuildError::VariableNotSet(m) && m@ == "population_size not set"@),
            self.population_size is Some && self.architecture is None ==> (r matches Err(e) && e
                matches TrainerBuildError::VariableNotSet(m) && m@ == "architecture not set"@),
    {
        if self.population_size.is_none() {
            return Result::Err(
                TrainerBuildError::VariableNotSet("population_size not set".to_owned()),
            );
        }
        if self.architecture.is_none() {
            return Result::Err(TrainerBuildError::VariableNotSet("architecture not set".to_owned()));
        }
        let pop_size = match self.population_size {
            Option::Some(p) => p,
            Option::None => 0,
        };
        let arch = match &self.architecture {
            Option::Some(a) => a,
            Option::None => {
                return Result::Err(TrainerBuildError::VariableNotSet("architecture not set".to_owned()));
            },
        };
        if pop_size <= 1 {
            return Result::Err(
                TrainerBuildError::ValidationError("population_size must be greater than 1".to_owned()),
            );
        }
        let mut i: usize = 0;
        while i < arch.len()
            invariant
                i <= arch@.len(),
                forall|j: int| 0 <= j < i ==> 0 < #[trigger] arch@[j] < usize::MAX,
            decreases arch@.len() - i,
        {
            if arch[i] == 0 {
                return Result::Err(
                    TrainerBuildError::ValidationError("architecure cannot contain 0's".to_owned()),
                );
            }
            if arch[i] == usize::MAX {
                return Result::Err(
                    TrainerBuildError::ValidationError("architecture width too large".to_owned()),
                );
            }
            i = i + 1;
        }
        if arch.len() < 2 {
            return Result::Err(
                TrainerBuildError::ValidationError(
                    "architecture needs an input and an output width".to_owned(),
                ),
            );
        }
        let surv_rate = match &self.survival_rate {
            Option::Some(v) => *v,
            Option::None => 0,
        };
        let mut cross_rate = match &self.crossover_rate {
            Option::Some(v) => *v,
            Option::None => 0,
        };
        let mut_rate = match &self.mutation_rate {
            Option::Some(v) => *v,
            Option::None => 0,
        };
        if surv_rate > RATE_SCALE {
            return Result::Err(
                TrainerBuildError::ValidationError("survival_rate must be between 0.0..=1.0".to_owned()),
            );
        }
        if cross_rate > RATE_SCALE {
            return Result::Err(
                TrainerBuildError::ValidationError(
                    "crossover_rate must be between 0.0..=1.0".to_owned(),
                ),
            );
        }
        if mut_rate > RATE_SCALE {
            return Result::Err(
                TrainerBuildError::ValidationError("mutation_rate must be between 0.0..=1.0".to_owned()),
            );
        }
        let mut s: usize = 0;
        while s < self.parent_strategies.len()
            invariant
                s <= self.parent_strategies@.len(),
                forall|j: int|
                    0 <= j < s ==> (#[trigger] self.parent_strategies@[j]).valid_config(),
            decreases self.parent_strategies@.len() - s,
        {
            let ok = match &self.parent_strategies[s] {
                Strategies::PrimeParent(p) => p.rate <= RATE_SCALE,
                _ => true,
            };
            if !ok {
                return Result::Err(
                    TrainerBuildError::ValidationError(
                        "prime parent rate must be between 0.0..=1.0".to_owned(),
                    ),
                );
            }
            s = s + 1;
        }
        if self.parent_strategies.len() == 0 {
            cross_rate = 0;
        }
        let arch_copy = copy_widths(arch);
        let strategies = copy_strategies(&self.parent_strategies);
        Result::Ok(
            TrainerConfig {
                population_size: pop_size,
                architecture: arch_copy,
                survival_rate: surv_rate,
                crossover_rate: cross_rate,
                mutation_rate: mut_rate,
                strategies,
            },
        )
    }
}

/// A fresh vector with the same widths.
fn copy_widths(arch: &Vec<usize>) -> (r: Vec<usize>)
    ensures
        r@ == arch@,
{
    let mut r: Vec<usize> = Vec::new();
    let mut i: usize = 0;
    while i < arch.len()
        invariant
            i <= arch@.len(),
            r@ =~= arch@.subrange(0, i as int),
        decreases arch@.len() - i,
    {
        r.push(arch[i]);
        proof {
            assert(r@ =~= arch@.subrange(0, i as int + 1));
        }
        i = i + 1;
    }
    proof {
        assert(r@ =~= arch@);
    }
    r
}

/// A fresh vector with the same strategy configurations.
fn copy_strategies(ss: &Vec<Strategies>) -> (r: Vec<Strategies>)
    ensures
        r@ == ss@,
{
    let mut r: Vec<Strategies> = Vec::new();
    let mut i: usize = 0;
    while i < ss.len()
        invariant
            i <= ss@.len(),
            r@ =~= ss@.subrange(0, i as int),
        decreases ss@.len() - i,
    {
        r.push(ss[i]);
        proof {
            assert(r@ =~= ss@.subrange(0, i as int + 1));
        }
        i = i + 1;
    }
    proof {
        assert(r@ =~= ss@);
    }
    r
}

} // verus!
