//! A rank-selection evolutionary search engine.
//!
//! The engine evolves a population of candidate solutions ("individuals")
//! under a caller-supplied fitness function: each generation it evaluates,
//! ranks, selects, recombines and mutates the population.  Two genotype
//! families are served: continuous gene vectors and integer permutations.
//!
//! Real-valued genes and fitness scores are carried as opaque 64-bit *order
//! words*: the engine copies them and compares them as unsigned integers,
//! and never does arithmetic on them.  Callers map real values to words with
//! any order-preserving encoding (such as the IEEE-754 sign-flip total-order
//! key) and map them back when reading results.

pub mod config;
pub mod crossover;
pub mod ga;
pub mod init;
pub mod individual;
pub mod mutate;
pub mod population;
pub mod random;
pub mod select;
