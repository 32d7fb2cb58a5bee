//! Distributes a parameterized experiment sweep across remote compute hosts.
//!
//! The sweep is described by a [`config::Config`]: named argument lists whose
//! Cartesian product, replicated `repeat` times, yields the set of
//! [`config::Permutation`]s to run.  Completed permutations are recognized on
//! disk and skipped on resume, pending ones are drained from a shared bounded
//! queue by per-host workers, and each attempt leaves a durable result record.

pub mod decimal;
pub mod ids;
pub mod config;
pub mod generate;
pub mod distinct;
pub mod schedule;
pub mod resume;
pub mod outcome;
pub mod queue;
