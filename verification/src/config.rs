//! The immutable inputs of one fuzzing run, as the surrounding tooling
//! hands them to the core.

use vstd::prelude::*;

verus! {

/// The runtime configuration: the target program, the initial corpus of
/// byte buffers, and the breakpoint offsets relative to the target's load
/// base.
pub struct RuntimeConfig {
    pub prog_name: String,
    pub corpus: Vec<Vec<u8>>,
    pub breakpoint_map: Vec<u64>,
}

} // verus!
