use vstd::prelude::*;

verus! {

/// Contains the various error types the low-level compilation can produce.
#[derive(Clone, Copy, Debug)]
pub enum RegError {
    BadPattern,
    NoMatch,
}

/// Settings that steer how a pattern is read.
#[derive(Clone, Copy, Debug)]
pub struct CompileFlags {
    /// Whether the extended syntax is in force.
    pub extended: bool,
    /// Whether letter case is ignored.
    pub ignore_case: bool,
}

} // verus!
