//! The driver's decisions: what to do with a queue entry, whether reuse is
//! tried first, and which strategy follows when reuse did not solve the
//! condition.

use crate::cond::{CondState, CondStmt, CondView, NextState};
use crate::fuzz_type::FuzzType;
use vstd::prelude::*;

verus! {

/// The number of candidates one reuse attempt may hand out.
pub const REUSE_ITERATIONS: usize = 100;

/// The search strategy chosen for conditions in a search state.
#[derive(Clone, Copy, Debug, PartialEq, Eq, Structural)]
pub enum SearchMethod {
    Gd,
    Random,
    Cbh,
    Mb,
}

/// What the driver does with an entry of the work queue.
#[derive(Clone, Copy, Debug, PartialEq, Eq, Structural)]
pub enum EntryAction {
    /// Leave the loop: the queue has nothing left that is worth the work.
    Stop,
    /// Hand the condition back as it is: it is solved.
    PutBack,
    /// Work on the condition.
    Fuzz,
}

/// A strategy, named by what it does to the input.
#[derive(Clone, Copy, Debug, PartialEq, Eq, Structural)]
pub enum Strategy {
    /// Nothing is left to try in this round.
    Nothing,
    OneByte,
    Deterministic,
    Gradient,
    Random,
    Cbh,
    MagicBytes,
    Exploit,
    Afl,
    Len,
    CmpFn,
}

/// What follows a reuse attempt.
#[derive(Clone, Copy, Debug, PartialEq, Eq, Structural)]
pub struct Plan {
    pub strategy: Strategy,
    /// The condition is to be marked unsolvable once the strategy has run.
    pub retire: bool,
}

/// What is done with a queue entry: the loop ends on an entry whose
/// priority says that all is done; a solved condition is handed back; any
/// other is worked on.
pub open spec fn entry_action(priority_done: bool, cond: CondView) -> EntryAction {
    if priority_done {
        EntryAction::Stop
    } else if cond.done() {
        EntryAction::PutBack
    } else {
        EntryAction::Fuzz
    }
}

/// Reuse is tried first on conditions that are explored or exploited.
pub open spec fn reuse_first(t: FuzzType) -> bool {
    t == FuzzType::ExploreFuzz || t == FuzzType::ExploitFuzz
}

/// The strategy for an explored condition in a given state.
pub open spec fn explore_strategy(state: CondState, method: SearchMethod) -> Strategy {
    if state == CondState::OneByte {
        Strategy::OneByte
    } else if state == CondState::Deterministic {
        Strategy::Deterministic
    } else {
        match method {
            SearchMethod::Gd => Strategy::Gradient,
            SearchMethod::Random => Strategy::Random,
            SearchMethod::Cbh => Strategy::Cbh,
            SearchMethod::Mb => Strategy::MagicBytes,
        }
    }
}

/// The condition as the strategy after reuse finds it: an explored condition
/// that reuse did not solve and whose time in its state has expired moves to
/// its next state first; any other stays as it is.
pub open spec fn cond_after_reuse(cond: CondView, solved_by_reusing: bool) -> CondView {
    if cond.fuzz_type == FuzzType::ExploreFuzz && !solved_by_reusing && cond.time_expired() {
        cond.after_expiry()
    } else {
        cond
    }
}

/// What follows reuse on a condition. Where reuse solved it, nothing. An
/// explored condition gets the strategy of the state it is then in; an
/// exploited one in state `OneByte` gets the one-byte strategy and is retired
/// after it, any other exploited one the exploit strategy. The other
/// families have one strategy each, whatever reuse would have done.
pub open spec fn plan_after_reuse(cond: CondView, method: SearchMethod, solved_by_reusing: bool) -> Plan {
    match cond.fuzz_type {
        FuzzType::ExploreFuzz => if solved_by_reusing {
            Plan { strategy: Strategy::Nothing, retire: false }
        } else {
            Plan {
                strategy: explore_strategy(cond_after_reuse(cond, solved_by_reusing).state, method),
                retire: false,
            }
        },
        FuzzType::ExploitFuzz => if solved_by_reusing {
            Plan { strategy: Strategy::Nothing, retire: false }
        } else if cond.state == CondState::OneByte {
            Plan { strategy: Strategy::OneByte, retire: true }
        } else {
            Plan { strategy: Strategy::Exploit, retire: false }
        },
        FuzzType::AFLFuzz => Plan { strategy: Strategy::Afl, retire: false },
        FuzzType::LenFuzz => Plan { strategy: Strategy::Len, retire: false },
        FuzzType::CmpFnFuzz => Plan { strategy: Strategy::CmpFn, retire: false },
        FuzzType::OtherFuzz => Plan { strategy: Strategy::Nothing, retire: false },
    }
}

/// Decides what is done with a queue entry.
pub fn classify_entry(priority_done: bool, cond: &CondStmt) -> (action: EntryAction)
    ensures
        action == entry_action(priority_done, cond@),
{
    if priority_done {
        EntryAction::Stop
    } else if cond.is_done() {
        EntryAction::PutBack
    } else {
        EntryAction::Fuzz
    }
}

/// Whether reuse is tried before any other strategy.
pub fn tries_reuse_first(fuzz_type: FuzzType) -> (r: bool)
    ensures
        r == reuse_first(fuzz_type),
{
    match fuzz_type {
        FuzzType::ExploreFuzz => true,
        FuzzType::ExploitFuzz => true,
        _ => false,
    }
}

/// Chooses the strategy that follows reuse, and moves an explored condition
/// whose time has expired to its next state.
pub fn select_strategy(cond: &mut CondStmt, method: SearchMethod, solved_by_reusing: bool) -> (plan:
    Plan)
    ensures
        plan == plan_after_reuse(old(cond)@, method, solved_by_reusing),
        final(cond)@ == cond_after_reuse(old(cond)@, solved_by_reusing),
{
    match cond.get_fuzz_type() {
        FuzzType::ExploreFuzz => {
            if solved_by_reusing {
                return Plan { strategy: Strategy::Nothing, retire: false };
            }
            if cond.is_time_expired() {
                cond.next_state();
            }
            let strategy = if cond.state.is_one_byte() {
                Strategy::OneByte
            } else if cond.state.is_det() {
                Strategy::Deterministic
            } else {
                match method {
                    SearchMethod::Gd => Strategy::Gradient,
                    SearchMethod::Random => Strategy::Random,
                    SearchMethod::Cbh => Strategy::Cbh,
                    SearchMethod::Mb => Strategy::MagicBytes,
                }
            };
            Plan { strategy, retire: false }
        },
        FuzzType::ExploitFuzz => {
            if solved_by_reusing {
                Plan { strategy: Strategy::Nothing, retire: false }
            } else if cond.state.is_one_byte() {
                Plan { strategy: Strategy::OneByte, retire: true }
            } else {
                Plan { strategy: Strategy::Exploit, retire: false }
            }
        },
        FuzzType::AFLFuzz => Plan { strategy: Strategy::Afl, retire: false },
        FuzzType::LenFuzz => Plan { strategy: Strategy::Len, retire: false },
        FuzzType::CmpFnFuzz => Plan { strategy: Strategy::CmpFn, retire: false },
        FuzzType::OtherFuzz => Plan { strategy: Strategy::Nothing, retire: false },
    }
}

} // verus!
