//! What a search strategy works on: the condition, the candidate input and
//! the accounting of the executions it asks for.

use crate::cond::{CondStmt, CondView};
use crate::segment::TagSeg;
use crate::stats::LocalStats;
use crate::store::copy_segments;
use vstd::prelude::*;

verus! {

/// The working state of one strategy run on one condition. The execution
/// service runs `buf`, counts in `local_stats`, marks the condition when it
/// is solved and raises `skip` when the run should end; `running` is cleared
/// when the whole process is asked to stop.
pub struct SearchHandler {
    pub running: bool,
    pub cond: CondStmt,
    pub buf: Vec<u8>,
    pub local_stats: LocalStats,
    pub has_new_path: bool,
    pub skip: bool,
    /// The byte offsets that strategies have mutated so far.
    pub mutated_offsets: Vec<usize>,
}

/// The mathematical value of a handler.
pub struct HandlerView {
    pub running: bool,
    pub cond: CondView,
    pub buf: Seq<u8>,
    pub local_stats: LocalStats,
    pub has_new_path: bool,
    pub skip: bool,
    pub mutated_offsets: Seq<usize>,
}

impl View for SearchHandler {
    type V = HandlerView;

    open spec fn view(&self) -> HandlerView {
        HandlerView {
            running: self.running,
            cond: self.cond@,
            buf: self.buf@,
            local_stats: self.local_stats,
            has_new_path: self.has_new_path,
            skip: self.skip,
            mutated_offsets: self.mutated_offsets@,
        }
    }
}

/// The byte offsets of the range `[begin, end)`; none where it is empty.
pub open spec fn offsets_of_range(begin: int, end: int) -> Seq<usize> {
    if begin < end {
        Seq::new((end - begin) as nat, |k: int| (begin + k) as usize)
    } else {
        Seq::empty()
    }
}

impl SearchHandler {
    /// A handler for a condition and its input, with fresh accounting.
    pub fn new(cond: CondStmt, buf: Vec<u8>) -> (handler: SearchHandler)
        ensures
            handler.running,
            !handler.skip,
            !handler.has_new_path,
            handler.cond == cond,
            handler.buf == buf,
            handler.mutated_offsets@ == Seq::<usize>::empty(),
            handler.local_stats.fuzz_type == cond.fuzz_type,
            handler.local_stats.tally() == crate::stats::Tally::zero(),
    {
        let mut local_stats = LocalStats::default();
        local_stats.register(&cond);
        SearchHandler {
            running: true,
            cond,
            buf,
            local_stats,
            has_new_path: false,
            skip: false,
            mutated_offsets: Vec::new(),
        }
    }

    /// The run should end: the process is stopping or the run was told to
    /// skip the rest.
    pub open spec fn stopped_or_skip(&self) -> bool {
        !self.running || self.skip
    }

    /// Whether the run should end.
    pub fn is_stopped_or_skip(&self) -> (r: bool)
        ensures
            r == self.stopped_or_skip(),
    {
        !self.running || self.skip
    }

    /// Notes that the bytes of `[begin, end)` were mutated.
    pub fn record_mutated_range(&mut self, begin: usize, end: usize)
        ensures
            final(self).mutated_offsets@ == old(self).mutated_offsets@ + offsets_of_range(
                begin as int,
                end as int,
            ),
            final(self).running == old(self).running,
            final(self).cond == old(self).cond,
            final(self).buf == old(self).buf,
            final(self).local_stats == old(self).local_stats,
            final(self).has_new_path == old(self).has_new_path,
            final(self).skip == old(self).skip,
    {
        let mut pos: usize = begin;
        proof {
            assert(old(self).mutated_offsets@ + offsets_of_range(begin as int, begin as int)
                =~= old(self).mutated_offsets@);
        }
        while pos < end
            invariant
                begin <= pos,
                begin < end ==> pos <= end,
                begin >= end ==> pos == begin,
                self.mutated_offsets@ == old(self).mutated_offsets@ + offsets_of_range(
                    begin as int,
                    pos as int,
                ),
                self.running == old(self).running,
                self.cond == old(self).cond,
                self.buf == old(self).buf,
                self.local_stats == old(self).local_stats,
                self.has_new_path == old(self).has_new_path,
                self.skip == old(self).skip,
            decreases end - pos,
        {
            self.mutated_offsets.push(pos);
            proof {
                assert(self.mutated_offsets@ =~= old(self).mutated_offsets@ + offsets_of_range(
                    begin as int,
                    pos + 1,
                ));
            }
            pos += 1;
        }
        proof {
            if begin >= end {
                assert(offsets_of_range(begin as int, pos as int) =~= offsets_of_range(
                    begin as int,
                    end as int,
                ));
            }
        }
    }
}

/// The byte offsets of every segment of the list, segment after segment.
pub open spec fn ranges_of(segs: Seq<TagSeg>) -> Seq<usize>
    decreases segs.len(),
{
    if segs.len() == 0 {
        Seq::empty()
    } else {
        ranges_of(segs.drop_last()) + offsets_of_range(
            segs.last().begin as int,
            segs.last().end as int,
        )
    }
}

impl SearchHandler {
    /// Notes that a strategy mutates the bytes of all the condition's
    /// primary taint offsets.
    pub fn record_mutated_offsets(&mut self)
        ensures
            final(self)@ == (HandlerView {
                mutated_offsets: old(self)@.mutated_offsets + ranges_of(old(self)@.cond.offsets),
                ..old(self)@
            }),
    {
        let offsets = copy_segments(&self.cond.offsets);
        let mut i: usize = 0;
        proof {
            assert(offsets@.take(0) =~= Seq::<TagSeg>::empty());
            assert(old(self)@.mutated_offsets + ranges_of(offsets@.take(0))
                =~= old(self)@.mutated_offsets);
        }
        while i < offsets.len()
            invariant
                i <= offsets@.len(),
                offsets@ == old(self)@.cond.offsets,
                self@ == (HandlerView {
                    mutated_offsets: old(self)@.mutated_offsets + ranges_of(
                        offsets@.take(i as int),
                    ),
                    ..old(self)@
                }),
            decreases offsets.len() - i,
        {
            let seg = offsets[i];
            self.record_mutated_range(seg.begin as usize, seg.end as usize);
            proof {
                assert(offsets@.take(i + 1).drop_last() =~= offsets@.take(i as int));
                assert(self@.mutated_offsets =~= old(self)@.mutated_offsets + ranges_of(
                    offsets@.take(i + 1),
                ));
            }
            i += 1;
        }
        assert(offsets@.take(i as int) =~= offsets@);
    }
}

/// What a search asks of its caller next.
#[derive(Clone, Copy, Debug, PartialEq, Eq, Structural)]
pub enum SearchAction {
    /// Give the input the condition's magic bytes and run it.
    MagicBytes,
    /// Put the value back that the input had at first, randomize all of it and run
    /// it.
    Randomize,
    /// The search is over.
    Stop,
}

/// Random search: the bytes at the condition's taint offsets are randomized
/// again and again until the run is stopped.
pub struct RandomSearch {
    pub handler: SearchHandler,
    /// The search has noted which bytes it mutates.
    pub started: bool,
}

/// Random search that tries the condition's magic bytes first.
pub struct MbSearch {
    pub handler: SearchHandler,
    /// The search has noted which bytes it mutates and asked for the magic
    /// bytes.
    pub started: bool,
}

/// The handler once a search has noted the bytes it mutates.
pub open spec fn noted(h: HandlerView) -> HandlerView {
    HandlerView { mutated_offsets: h.mutated_offsets + ranges_of(h.cond.offsets), ..h }
}

impl RandomSearch {
    /// A search that has not taken a step yet.
    pub fn new(handler: SearchHandler) -> (search: RandomSearch)
        ensures
            search.handler == handler,
            !search.started,
    {
        RandomSearch { handler, started: false }
    }

    /// One step of the search. The first step notes the bytes that the
    /// search mutates. Every step asks for one more randomized input, unless
    /// the run is stopped.
    pub fn run(&mut self) -> (action: SearchAction)
        ensures
            final(self).started,
            final(self).handler@ == if old(self).started {
                old(self).handler@
            } else {
                noted(old(self).handler@)
            },
            action == if old(self).handler.stopped_or_skip() {
                SearchAction::Stop
            } else {
                SearchAction::Randomize
            },
    {
        if !self.started {
            self.handler.record_mutated_offsets();
            self.started = true;
        }
        if self.handler.is_stopped_or_skip() {
            SearchAction::Stop
        } else {
            SearchAction::Randomize
        }
    }
}

impl MbSearch {
    /// A search that has not taken a step yet.
    pub fn new(handler: SearchHandler) -> (search: MbSearch)
        ensures
            search.handler == handler,
            !search.started,
    {
        MbSearch { handler, started: false }
    }

    /// One step of the search. The first step notes the bytes that the
    /// search mutates and asks for the magic bytes, whether the run is
    /// stopped or not. Every later step asks for one more randomized input,
    /// unless the run is stopped.
    pub fn run(&mut self) -> (action: SearchAction)
        ensures
            final(self).started,
            final(self).handler@ == if old(self).started {
                old(self).handler@
            } else {
                noted(old(self).handler@)
            },
            action == if !old(self).started {
                SearchAction::MagicBytes
            } else if old(self).handler.stopped_or_skip() {
                SearchAction::Stop
            } else {
                SearchAction::Randomize
            },
    {
        if !self.started {
            self.handler.record_mutated_offsets();
            self.started = true;
            return SearchAction::MagicBytes;
        }
        if self.handler.is_stopped_or_skip() {
            SearchAction::Stop
        } else {
            SearchAction::Randomize
        }
    }
}

} // verus!
