//! The families of mutation a condition can be scheduled for, and the
//! outcome of running the target on one candidate input.

use vstd::prelude::*;

verus! {

/// The family of mutation strategies that applies to a condition.
#[derive(Clone, Copy, Debug, PartialEq, Eq, Structural)]
pub enum FuzzType {
    ExploreFuzz,
    ExploitFuzz,
    CmpFnFuzz,
    LenFuzz,
    AFLFuzz,
    OtherFuzz,
}

impl Default for FuzzType {
    fn default() -> (t: Self)
        ensures
            t == FuzzType::OtherFuzz,
    {
        FuzzType::OtherFuzz
    }
}

/// How one execution of the target ended.
#[derive(Clone, Copy, Debug, PartialEq, Eq, Structural)]
pub enum StatusType {
    Normal,
    Timeout,
    Crash,
    Skip,
    Error,
}

} // verus!
