pub mod crossover;
pub mod evotrainer;
pub mod trainer_builder;
