//! A small coverage-guided fuzzing engine: coverage maps, feedback,
//! corpora, scheduling, mutation, minimization and the decisions of the
//! execution backends, each stated and proved against a mathematical model.

pub mod coverage;
pub mod target;
pub mod executor;
pub mod feedback;
pub mod corpus;
pub mod scheduler;
pub mod minimizer;
mod random;
mod clock;
pub mod mutation;
pub mod session;
pub mod fuzzer;
pub mod backend;
pub mod share;
