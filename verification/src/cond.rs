//! A branch condition under solving: its taint offsets, its resumable reuse
//! cursors and the state machine that decides which family of strategies is
//! tried on it next.

use crate::fuzz_type::FuzzType;
use crate::segment::{combined, merge_continuous_segments, merge_offsets, merged, TagSeg};
use vstd::prelude::*;

verus! {

/// Number of attempts after which a condition counts as fuzzed for long.
pub const LONG_FUZZ_TIME: usize = 8;

/// The scheduling weight of the slowest tier.
pub const SLOW_SPEED: u32 = 888888;

/// The value of `CondStmtBase::condition` that marks a solved condition.
pub const COND_DONE_ST: u32 = 2;

/// The solving state of a condition.
#[derive(Clone, Copy, Debug, PartialEq, Eq, Structural)]
pub enum CondState {
    Offset,
    OffsetOpt,
    OffsetAll,
    OffsetAllEnd,
    OneByte,
    Unsolvable,
    Deterministic,
    Reusing,
    Timeout,
}

impl Default for CondState {
    fn default() -> (s: Self)
        ensures
            s == CondState::Offset,
    {
        CondState::Offset
    }
}

impl CondState {
    /// A condition starts in `Offset`; `OneByte` counts as initial too.
    pub fn is_initial(&self) -> (r: bool)
        ensures
            r == (*self == CondState::Offset || *self == CondState::OneByte),
    {
        match self {
            CondState::Offset => true,
            CondState::OneByte => true,
            _ => false,
        }
    }

    /// The state in which the deterministic strategy is tried.
    pub fn is_det(&self) -> (r: bool)
        ensures
            r == (*self == CondState::Deterministic),
    {
        match self {
            CondState::Deterministic => true,
            _ => false,
        }
    }

    /// The state of a condition that depends on a single byte.
    pub fn is_one_byte(&self) -> (r: bool)
        ensures
            r == (*self == CondState::OneByte),
    {
        match self {
            CondState::OneByte => true,
            _ => false,
        }
    }

    /// The state of a condition that was given up.
    pub fn is_unsolvable(&self) -> (r: bool)
        ensures
            r == (*self == CondState::Unsolvable),
    {
        match self {
            CondState::Unsolvable => true,
            _ => false,
        }
    }

    /// The state of a condition whose runs time out.
    pub fn is_timeout(&self) -> (r: bool)
        ensures
            r == (*self == CondState::Timeout),
    {
        match self {
            CondState::Timeout => true,
            _ => false,
        }
    }
}

/// The identity of a condition and its last observed outcome.
#[derive(Clone, Copy, Debug, PartialEq, Eq, Structural)]
pub struct CondStmtBase {
    pub cmpid: u32,
    pub context: u32,
    pub order: u32,
    /// The input in which the condition was observed.
    pub belong: u32,
    pub condition: u32,
}

/// Where an observation comes from: the condition that executed and the
/// input in which it did.
#[derive(Clone, Copy, Debug, PartialEq, Eq, Structural)]
pub struct Origin {
    pub cmpid: u32,
    pub belong: u32,
}

/// The identity of a condition.
#[derive(Clone, Copy, Debug, PartialEq, Eq, Structural)]
pub struct CondKey {
    pub cmpid: u32,
    pub context: u32,
    pub order: u32,
}

/// A condition as the driver holds it between attempts.
#[derive(Clone, Debug)]
pub struct CondStmt {
    pub base: CondStmtBase,
    /// Taint offsets of the primary operand.
    pub offsets: Vec<TagSeg>,
    /// Taint offsets of the secondary operand, if it is tainted too.
    pub offsets_opt: Vec<TagSeg>,
    pub fuzz_type: FuzzType,
    pub speed: u32,
    /// Attempts made on the condition, the current one included.
    pub fuzz_times: usize,
    pub state: CondState,
    /// Position in the condition's fingerprint bucket up to which stored
    /// records were already replayed.
    pub reusing_record_index: usize,
    /// One recombination cursor per merged segment.
    pub reusing_segment_index: Vec<usize>,
}

/// The mathematical value of a condition.
pub struct CondView {
    pub base: CondStmtBase,
    pub offsets: Seq<TagSeg>,
    pub offsets_opt: Seq<TagSeg>,
    pub fuzz_type: FuzzType,
    pub speed: u32,
    pub fuzz_times: usize,
    pub state: CondState,
    pub reusing_record_index: usize,
    pub reusing_segment_index: Seq<usize>,
}

impl View for CondStmt {
    type V = CondView;

    open spec fn view(&self) -> CondView {
        CondView {
            base: self.base,
            offsets: self.offsets@,
            offsets_opt: self.offsets_opt@,
            fuzz_type: self.fuzz_type,
            speed: self.speed,
            fuzz_times: self.fuzz_times,
            state: self.state,
            reusing_record_index: self.reusing_record_index,
            reusing_segment_index: self.reusing_segment_index@,
        }
    }
}

/// `n` cursors, all at the start.
pub open spec fn zero_cursors(n: nat) -> Seq<usize> {
    Seq::new(n, |i: int| 0usize)
}

impl CondView {
    /// The condition has reached its solved outcome.
    pub open spec fn done(self) -> bool {
        self.base.condition == COND_DONE_ST
    }

    /// The origin that observations of this condition carry.
    pub open spec fn origin(self) -> Origin {
        Origin { cmpid: self.base.cmpid, belong: self.base.belong }
    }

    /// The identity under which the condition's attempts are counted.
    pub open spec fn key(self) -> CondKey {
        CondKey { cmpid: self.base.cmpid, context: self.base.context, order: self.base.order }
    }

    /// The current attempt is the first made on the condition.
    pub open spec fn first_time(self) -> bool {
        self.fuzz_times == 1
    }

    /// The condition has used up its time in the current state: it is in
    /// `Deterministic` or `OneByte` and was attempted before, or it has been
    /// attempted `LONG_FUZZ_TIME` times.
    pub open spec fn time_expired(self) -> bool {
        ((self.state == CondState::Deterministic || self.state == CondState::OneByte)
            && !self.first_time()) || self.fuzz_times >= LONG_FUZZ_TIME
    }

    /// Entering `OffsetOpt` exchanges the primary and secondary offsets.
    pub open spec fn in_offsets_opt(self) -> CondView {
        CondView {
            state: CondState::OffsetOpt,
            offsets: self.offsets_opt,
            offsets_opt: self.offsets,
            ..self
        }
    }

    /// Entering `OffsetAll` combines both operands' offsets into the primary
    /// list and empties the secondary one.
    pub open spec fn in_offsets_all(self) -> CondView {
        CondView {
            state: CondState::OffsetAll,
            offsets: combined(self.offsets, self.offsets_opt),
            offsets_opt: Seq::empty(),
            ..self
        }
    }

    /// The condition in `OffsetAllEnd`.
    pub open spec fn in_offsets_all_end(self) -> CondView {
        CondView { state: CondState::OffsetAllEnd, ..self }
    }

    /// The condition in `Deterministic`.
    pub open spec fn in_det(self) -> CondView {
        CondView { state: CondState::Deterministic, ..self }
    }

    /// The condition in `Unsolvable`.
    pub open spec fn in_unsolvable(self) -> CondView {
        CondView { state: CondState::Unsolvable, ..self }
    }

    /// The primary offsets with which a condition enters `Reusing`: the
    /// secondary offsets that remain are taken in.
    pub open spec fn reusing_offsets(self) -> Seq<TagSeg> {
        if self.offsets_opt.len() > 0 {
            combined(self.offsets, self.offsets_opt)
        } else {
            self.offsets
        }
    }

    /// Entering `Reusing` takes the remaining secondary offsets into the
    /// primary list and starts one recombination cursor per merged segment.
    /// The secondary list is left as it was.
    pub open spec fn in_reusing(self) -> CondView {
        CondView {
            state: CondState::Reusing,
            offsets: self.reusing_offsets(),
            reusing_segment_index: zero_cursors(merged(self.reusing_offsets()).len()),
            ..self
        }
    }

    /// Entering `Timeout` moves the condition to the slowest scheduling tier.
    pub open spec fn in_timeout(self) -> CondView {
        CondView { state: CondState::Timeout, speed: SLOW_SPEED, ..self }
    }

    /// The condition after the transition that follows the expiry of its
    /// time in the current state. `OffsetAllEnd`, `Unsolvable`, `Reusing` and
    /// `Timeout` have no successor.
    pub open spec fn after_expiry(self) -> CondView {
        match self.state {
            CondState::Offset => if self.offsets_opt.len() > 0 {
                self.in_offsets_opt()
            } else {
                self.in_det()
            },
            CondState::OneByte => if self.offsets_opt.len() > 0 {
                self.in_offsets_opt()
            } else {
                self.in_reusing()
            },
            CondState::OffsetOpt => self.in_offsets_all(),
            CondState::OffsetAll => self.in_det(),
            CondState::Deterministic => self.in_reusing(),
            _ => self,
        }
    }
}

impl CondStmt {
    /// A fresh condition: no offsets, no attempts, in the initial state.
    pub fn new() -> (cond: CondStmt)
        ensures
            cond@ == (CondView {
                base: CondStmtBase { cmpid: 0, context: 0, order: 0, belong: 0, condition: 0 },
                offsets: Seq::empty(),
                offsets_opt: Seq::empty(),
                fuzz_type: FuzzType::OtherFuzz,
                speed: 0,
                fuzz_times: 0,
                state: CondState::Offset,
                reusing_record_index: 0,
                reusing_segment_index: Seq::empty(),
            }),
    {
        CondStmt {
            base: CondStmtBase { cmpid: 0, context: 0, order: 0, belong: 0, condition: 0 },
            offsets: Vec::new(),
            offsets_opt: Vec::new(),
            fuzz_type: FuzzType::OtherFuzz,
            speed: 0,
            fuzz_times: 0,
            state: CondState::Offset,
            reusing_record_index: 0,
            reusing_segment_index: Vec::new(),
        }
    }

    /// The origin that observations of this condition carry.
    pub fn origin(&self) -> (o: Origin)
        ensures
            o == self@.origin(),
    {
        Origin { cmpid: self.base.cmpid, belong: self.base.belong }
    }

    /// The identity under which the condition's attempts are counted.
    pub fn key(&self) -> (k: CondKey)
        ensures
            k == self@.key(),
    {
        CondKey { cmpid: self.base.cmpid, context: self.base.context, order: self.base.order }
    }

    /// Whether the condition is solved.
    pub fn is_done(&self) -> (r: bool)
        ensures
            r == self@.done(),
    {
        self.base.condition == COND_DONE_ST
    }

    /// Whether the current attempt is the first made on the condition.
    pub fn is_first_time(&self) -> (r: bool)
        ensures
            r == self@.first_time(),
    {
        self.fuzz_times == 1
    }

    /// The family of strategies that applies to the condition.
    pub fn get_fuzz_type(&self) -> (t: FuzzType)
        ensures
            t == self.fuzz_type,
    {
        self.fuzz_type
    }

    /// Whether the condition is due for a state transition.
    pub fn is_time_expired(&self) -> (r: bool)
        ensures
            r == self@.time_expired(),
    {
        ((self.state.is_det() || self.state.is_one_byte()) && !self.is_first_time())
            || self.fuzz_times >= LONG_FUZZ_TIME
    }
}

/// The transitions of a condition's solving state.
pub trait NextState {
    fn next_state(&mut self);

    fn to_offsets_opt(&mut self);

    fn to_offsets_all(&mut self);

    fn to_offsets_all_end(&mut self);

    fn to_det(&mut self);

    fn to_unsolvable(&mut self);

    fn to_reusing(&mut self);

    fn to_timeout(&mut self);
}

impl NextState for CondStmt {
    /// Moves the condition to the state that follows the current one once
    /// its time there has expired.
    fn next_state(&mut self)
        ensures
            final(self)@ == old(self)@.after_expiry(),
    {
        match self.state {
            CondState::Offset => {
                if self.offsets_opt.len() > 0 {
                    self.to_offsets_opt();
                } else {
                    self.to_det();
                }
            },
            CondState::OneByte => {
                if self.offsets_opt.len() > 0 {
                    self.to_offsets_opt();
                } else {
                    self.to_reusing();
                }
            },
            CondState::OffsetOpt => {
                self.to_offsets_all();
            },
            CondState::OffsetAll => {
                self.to_det();
            },
            CondState::Deterministic => {
                self.to_reusing();
            },
            _ => {},
        }
    }

    fn to_offsets_opt(&mut self)
        ensures
            final(self)@ == old(self)@.in_offsets_opt(),
    {
        self.state = CondState::OffsetOpt;
        std::mem::swap(&mut self.offsets, &mut self.offsets_opt);
    }

    fn to_offsets_all(&mut self)
        ensures
            final(self)@ == old(self)@.in_offsets_all(),
    {
        self.state = CondState::OffsetAll;
        self.offsets = merge_offsets(&self.offsets, &self.offsets_opt);
        self.offsets_opt.clear();
    }

    fn to_det(&mut self)
        ensures
            final(self)@ == old(self)@.in_det(),
    {
        self.state = CondState::Deterministic;
    }

    fn to_offsets_all_end(&mut self)
        ensures
            final(self)@ == old(self)@.in_offsets_all_end(),
    {
        self.state = CondState::OffsetAllEnd;
    }

    fn to_unsolvable(&mut self)
        ensures
            final(self)@ == old(self)@.in_unsolvable(),
    {
        self.state = CondState::Unsolvable;
    }

    fn to_reusing(&mut self)
        ensures
            final(self)@ == old(self)@.in_reusing(),
            final(self)@.reusing_segment_index.len() == merged(final(self)@.offsets).len(),
    {
        if self.offsets_opt.len() > 0 {
            self.offsets = merge_offsets(&self.offsets, &self.offsets_opt);
        }
        let merged_segments = merge_continuous_segments(&self.offsets);
        let mut cursors: Vec<usize> = Vec::new();
        let mut i: usize = 0;
        while i < merged_segments.len()
            invariant
                i <= merged_segments.len(),
                cursors@ == zero_cursors(i as nat),
            decreases merged_segments.len() - i,
        {
            cursors.push(0);
            assert(cursors@ =~= zero_cursors((i + 1) as nat));
            i += 1;
        }
        self.reusing_segment_index = cursors;
        self.state = CondState::Reusing;
    }

    fn to_timeout(&mut self)
        ensures
            final(self)@ == old(self)@.in_timeout(),
    {
        self.speed = SLOW_SPEED;
        self.state = CondState::Timeout;
    }
}

} // verus!
