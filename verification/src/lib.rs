//! Target-seeking arithmetic search engine with a multi-tier result cache.
//!
//! Values are fixed-point numbers in hundredth units (`314` stands for
//! `3.14`): the engine enumerates a bounded grammar of arithmetic
//! expressions over a list of input values, scores each candidate against a
//! target by an accuracy metric, remembers every attempt per named variable,
//! and keeps discovered solutions in a layered cache (an LRU hot tier, a
//! FIFO warm tier, and a cold tier with a compact binary record format, a
//! probabilistic membership filter and a three-way range-partitioned index).

pub mod expression;
pub mod fixed;
pub mod equation_solver;
pub mod function_builder;
pub mod function_executor;
pub mod grammar;
pub mod laws;
pub mod loop_executor;
pub mod math_engine;
pub mod memory;
pub mod text;
pub mod types;
pub mod universe;
