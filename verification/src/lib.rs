//! A coverage-guided fuzzer core: byte-level sample mutation, a corpus
//! deduplicated by execution trace signature, software-breakpoint word
//! patching, and the supervisor state machine for a traced child process.

pub mod child;
pub mod config;
pub mod hex;
pub mod mutator;
pub mod parent;
pub mod rng;
pub mod sys;
