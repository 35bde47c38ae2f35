//! The reuse engine: replays stored values against a condition and, where a
//! fingerprint has several segments, recombines values that were seen for
//! the single segments. The engine hands out one candidate input at a time;
//! running the candidate is the caller's part.

use crate::cond::CondView;
use crate::pick::{all_filled, pick_values, selection};
use crate::search::{HandlerView, SearchHandler};
use crate::segment::{
    all_wf, extract_pattern_merged, fingerprint, lemma_bytes_deep_view, lemma_merged_basics,
    merge_continuous_segments, merged, spans, TagSeg,
};
use crate::splice::{
    grow, grown, insert_critical_value_with_merged, max_end, reach, splice_values, spliced,
};
use crate::stats::{
    can_settle, check_can_settle, settle_counters, settled, LocalStatsSnapshot, ReusingStats,
};
use crate::store::{
    copy_bytes, fits, next_batch, records_from, records_of, records_view, CondRecord,
    PatternStore, RecordView, StoreMap,
};
use crate::usage::{
    update_condstmt_stats, update_pattern_stats, with_attempt, with_cond_attempt, AttemptOutcome,
    UsageStats,
};
use vstd::prelude::*;

verus! {

/// Where an attempt stands.
#[derive(Clone, Copy, Debug, PartialEq, Eq, Structural)]
pub enum ReusePhase {
    /// No attempt is under way.
    Idle,
    /// Stage 1: stored records of the condition's fingerprint are replayed.
    Replay,
    /// Stage 2: values of the single segments are recombined.
    Combine,
}

/// What the caller is to do next.
#[derive(Clone, Copy, Debug, PartialEq, Eq, Structural)]
pub enum ReuseStep {
    /// Run the handler's input, then ask again.
    Execute,
    /// The attempt is over; the flag says whether the condition is solved.
    Done(bool),
}

/// The state of an attempt between two candidates. Its value is read
/// through its view and the methods below; only the engine changes it.
pub struct ReuseSession {
    phase: ReusePhase,
    iterations: usize,
    snapshot: LocalStatsSnapshot,
    buf_backup: Vec<u8>,
    pattern: Vec<u32>,
    merged_offsets: Vec<TagSeg>,
    start: usize,
    records: Vec<CondRecord>,
    next_record: usize,
    pools: Vec<Vec<Vec<u8>>>,
    combined_values: Vec<Vec<u8>>,
    replayed: usize,
    combined: usize,
}

/// The mathematical value of a session.
pub struct SessionView {
    pub phase: ReusePhase,
    /// The number of candidates the attempt may hand out.
    pub iterations: usize,
    /// The execution counts when the attempt began.
    pub snapshot: LocalStatsSnapshot,
    /// The handler's input when the attempt began.
    pub buf_backup: Seq<u8>,
    /// The condition's fingerprint.
    pub pattern: Seq<u32>,
    /// The condition's merged segments, at which values are spliced.
    pub merged_offsets: Seq<TagSeg>,
    /// The condition's replay cursor when the attempt began.
    pub start: usize,
    /// The records that stage 1 replays, in insertion order: those that the
    /// store holds from `start` on.
    pub records: Seq<RecordView>,
    /// The position in `records` at which stage 1 goes on.
    pub next_record: usize,
    /// For every merged segment the values that stage 2 picks from.
    pub pools: Seq<Seq<Seq<u8>>>,
    /// The values of the last recombined candidate.
    pub combined_values: Seq<Seq<u8>>,
    /// Candidates that stage 1 has handed out.
    pub replayed: usize,
    /// Candidates that stage 2 has handed out.
    pub combined: usize,
}

impl View for ReuseSession {
    type V = SessionView;

    closed spec fn view(&self) -> SessionView {
        SessionView {
            phase: self.phase,
            iterations: self.iterations,
            snapshot: self.snapshot,
            buf_backup: self.buf_backup@,
            pattern: self.pattern@,
            merged_offsets: self.merged_offsets@,
            start: self.start,
            records: records_view(self.records@),
            next_record: self.next_record,
            pools: self.pools.deep_view(),
            combined_values: self.combined_values.deep_view(),
            replayed: self.replayed,
            combined: self.combined,
        }
    }
}

impl SessionView {
    /// What holds of a session while an attempt is under way: the merged
    /// segments are well formed and the fingerprint is theirs; stage 1 has
    /// handed out no more candidates than it has passed records, and has no
    /// more records than the attempt may hand out candidates; the cursor can
    /// be moved past all of them; in stage 2 there is a filled pool for every
    /// segment, and the candidates of both stages are within what the attempt
    /// may hand out.
    pub open spec fn wf(self) -> bool {
        self.phase != ReusePhase::Idle ==> {
            &&& all_wf(self.merged_offsets)
            &&& self.pattern == spans(self.merged_offsets)
            &&& self.replayed <= self.next_record <= self.records.len() <= self.iterations
            &&& self.start + self.records.len() <= usize::MAX
            &&& self.phase == ReusePhase::Combine ==> {
                &&& self.pools.len() == self.merged_offsets.len()
                &&& all_filled(self.pools)
                &&& self.replayed + self.combined <= self.iterations
            }
        }
    }
}

/// The first value of every record that has one, in the records' order.
pub open spec fn first_values(records: Seq<RecordView>) -> Seq<Seq<u8>>
    decreases records.len(),
{
    if records.len() == 0 {
        Seq::empty()
    } else {
        let init = first_values(records.drop_last());
        if records.last().critical_values.len() > 0 {
            init.push(records.last().critical_values[0])
        } else {
            init
        }
    }
}

/// The values that were seen for single segments of the given length.
pub open spec fn pool_for(store: StoreMap, size: u32) -> Seq<Seq<u8>> {
    first_values(records_of(store, seq![size]))
}

/// For every segment of a fingerprint the values seen for single segments of
/// its length.
pub open spec fn pools_for(store: StoreMap, pattern: Seq<u32>) -> Seq<Seq<Seq<u8>>> {
    Seq::new(pattern.len(), |i: int| pool_for(store, pattern[i]))
}

/// The attempt is to hand out no further candidate for now: the condition
/// is solved, or the caller has called a halt.
pub open spec fn stop_requested(h: HandlerView) -> bool {
    h.cond.done() || !h.running || h.skip
}

/// An attempt is made at all: the condition is not yet solved and has taint
/// offsets to take a fingerprint from.
pub open spec fn starts(h: HandlerView) -> bool {
    !h.cond.done() && h.cond.offsets.len() > 0
}

/// The session right after an attempt began: the execution counts and the
/// input are kept in it, the records that the condition has not yet replayed
/// are taken from the store, up to as many as the attempt may hand out, and
/// the merged segments are noted. The handler is not touched.
pub open spec fn begun(h: HandlerView, store: StoreMap, iterations: usize) -> SessionView {
    let fp = fingerprint(h.cond.offsets);
    let batch = next_batch(
        records_of(store, fp),
        h.cond.reusing_record_index as int,
        iterations as int,
    );
    SessionView {
        phase: ReusePhase::Replay,
        iterations,
        snapshot: h.local_stats.snapshot_of(),
        buf_backup: h.buf,
        pattern: fp,
        merged_offsets: merged(h.cond.offsets),
        start: h.cond.reusing_record_index,
        records: match batch {
            Some((b, _)) => b,
            None => Seq::empty(),
        },
        next_record: 0,
        pools: Seq::empty(),
        combined_values: Seq::empty(),
        replayed: 0,
        combined: 0,
    }
}

/// The handler with the condition's replay cursor moved up to the given
/// position. A cursor that stands further on already stays: cursors never
/// move back.
pub open spec fn with_cursor(h: HandlerView, cursor: int) -> HandlerView {
    if cursor > h.cond.reusing_record_index {
        HandlerView { cond: CondView { reusing_record_index: cursor as usize, ..h.cond }, ..h }
    } else {
        h
    }
}

/// The position of the first record from `from` on that holds one value per
/// segment; the number of records where there is none.
pub open spec fn next_fitting(records: Seq<RecordView>, segments: nat, from: int) -> int
    decreases records.len() - from,
{
    if from < 0 || from >= records.len() {
        records.len() as int
    } else if records[from].critical_values.len() == segments {
        from
    } else {
        next_fitting(records, segments, from + 1)
    }
}

/// Stage 1 has a candidate to hand out.
pub open spec fn replay_ready(h: HandlerView, s: SessionView) -> bool {
    !stop_requested(h) && next_fitting(s.records, s.merged_offsets.len(), s.next_record as int)
        < s.records.len()
}

/// The next candidate of stage 1: the values of the next fitting record,
/// spliced into the input at the condition's merged segments. The
/// condition's cursor moves past that record.
pub open spec fn replay_step(h: HandlerView, s: SessionView) -> (HandlerView, SessionView) {
    let j = next_fitting(s.records, s.merged_offsets.len(), s.next_record as int);
    (
        HandlerView {
            buf: spliced(h.buf, s.merged_offsets, s.records[j].critical_values),
            ..with_cursor(h, s.start + j + 1)
        },
        SessionView { next_record: (j + 1) as usize, replayed: (s.replayed + 1) as usize, ..s },
    )
}

/// The handler and the session when stage 1 ends without a candidate: on a
/// halt both stay where they are; otherwise the remaining records did not
/// fit, and the session and the condition's cursor move past them.
pub open spec fn replay_over(h: HandlerView, s: SessionView) -> (HandlerView, SessionView) {
    if stop_requested(h) {
        (h, s)
    } else {
        (
            with_cursor(h, s.start + s.records.len()),
            SessionView { next_record: s.records.len() as usize, ..s },
        )
    }
}

/// Stage 2 takes place: stage 1 has left part of what the attempt may hand
/// out, the fingerprint has two segments or more, and for every segment
/// some value was seen alone.
pub open spec fn combine_opens(s: SessionView, store: StoreMap) -> bool {
    s.replayed < s.iterations && s.pattern.len() >= 2 && all_filled(pools_for(store, s.pattern))
}

/// The handler and the session at the start of stage 2: the pools are
/// taken from the store, and the input is extended to hold every segment.
pub open spec fn combine_opened(h: HandlerView, s: SessionView, store: StoreMap) -> (
    HandlerView,
    SessionView,
) {
    (
        HandlerView { buf: grown(h.buf, reach(s.merged_offsets)), ..h },
        SessionView {
            phase: ReusePhase::Combine,
            pools: pools_for(store, s.pattern),
            combined: 0,
            ..s
        },
    )
}

/// Stage 2 has a candidate to hand out.
pub open spec fn combine_ready(h: HandlerView, s: SessionView) -> bool {
    s.combined < s.iterations - s.replayed && !stop_requested(h)
}

/// The next candidate of stage 2: the picked values, one per segment,
/// spliced into the input at the condition's merged segments.
pub open spec fn combine_step(h: HandlerView, s: SessionView, picked: Seq<Seq<u8>>) -> (
    HandlerView,
    SessionView,
) {
    (
        HandlerView { buf: spliced(h.buf, s.merged_offsets, picked), ..h },
        SessionView { combined: (s.combined + 1) as usize, combined_values: picked, ..s },
    )
}

/// A step of stage 1: the handler and the session after it, and whether a
/// candidate is ready in the handler's input.
pub open spec fn stage1_step(h: HandlerView, s: SessionView) -> (HandlerView, SessionView, bool) {
    if replay_ready(h, s) {
        let next = replay_step(h, s);
        (next.0, next.1, true)
    } else {
        let over = replay_over(h, s);
        (over.0, over.1, false)
    }
}

/// A step of stage 2: the handler and the session after it, and whether a
/// candidate is ready in the handler's input. The step that comes from stage
/// 1 opens stage 2 first, if it takes place. `picked` stands for the values
/// that chance picks if the step hands out a candidate.
pub open spec fn stage2_step(h: HandlerView, s: SessionView, store: StoreMap, picked: Seq<Seq<u8>>) -> (
    HandlerView,
    SessionView,
    bool,
) {
    if s.phase == ReusePhase::Replay && !combine_opens(s, store) {
        (h, s, false)
    } else {
        let opened = if s.phase == ReusePhase::Replay {
            combine_opened(h, s, store)
        } else {
            (h, s)
        };
        if combine_ready(opened.0, opened.1) {
            let next = combine_step(opened.0, opened.1, picked);
            (next.0, next.1, true)
        } else {
            (opened.0, opened.1, false)
        }
    }
}

/// One step of an attempt that is under way: the handler and the session
/// after it, and whether a candidate is ready in the handler's input. Stage 1
/// comes first; stage 2 follows when stage 1 has no further candidate.
pub open spec fn advanced(h: HandlerView, s: SessionView, store: StoreMap, picked: Seq<Seq<u8>>) -> (
    HandlerView,
    SessionView,
    bool,
) {
    if s.phase == ReusePhase::Replay {
        let first = stage1_step(h, s);
        if first.2 {
            first
        } else {
            stage2_step(first.0, first.1, store, picked)
        }
    } else {
        stage2_step(h, s, store, picked)
    }
}

/// What an attempt that ends contributes to the usage statistics.
pub open spec fn outcome_of(h: HandlerView, s: SessionView, store: StoreMap) -> AttemptOutcome {
    AttemptOutcome {
        total_records: records_of(store, s.pattern).len() as usize,
        cursor: h.cond.reusing_record_index,
        stage1: s.replayed,
        stage2: s.combined,
        solved: h.cond.done(),
    }
}

/// The handler after an attempt ended: its input and its execution counts
/// are those from before the attempt.
pub open spec fn closed_handler(h: HandlerView, s: SessionView) -> HandlerView {
    HandlerView { buf: s.buf_backup, local_stats: h.local_stats.restored(s.snapshot), ..h }
}

/// The reuse aggregate after an attempt ended: it has grown by what was
/// executed and found since the attempt began. Where that cannot be told,
/// because a count stands below the snapshot or the sum would not fit, the
/// aggregate stays as it was.
pub open spec fn closed_aggregate(h: HandlerView, s: SessionView, aggregate: ReusingStats) -> crate::stats::Tally {
    if can_settle(h.local_stats.tally(), s.snapshot.tally(), aggregate.tally()) {
        settled(h.local_stats.tally(), s.snapshot.tally(), aggregate.tally()).1
    } else {
        aggregate.tally()
    }
}

/// The handler and the session with which a step starts, and whether there
/// is an attempt to go on with: a session that is idle begins an attempt if
/// one is to be made; a session under way goes on.
pub open spec fn entered(h: HandlerView, s: SessionView, store: StoreMap, iterations: usize) -> (
    HandlerView,
    SessionView,
    bool,
) {
    if s.phase == ReusePhase::Idle {
        if starts(h) {
            (h, begun(h, store, iterations), true)
        } else {
            (h, s, false)
        }
    } else {
        (h, s, true)
    }
}

/// The session before its first attempt.
pub open spec fn idle_session() -> SessionView {
    SessionView {
        phase: ReusePhase::Idle,
        iterations: 0,
        snapshot: LocalStatsSnapshot {
            num_exec: crate::stats::Counter(0),
            num_inputs: crate::stats::Counter(0),
            num_hangs: crate::stats::Counter(0),
            num_crashes: crate::stats::Counter(0),
        },
        buf_backup: Seq::empty(),
        pattern: Seq::empty(),
        merged_offsets: Seq::empty(),
        start: 0,
        records: Seq::empty(),
        next_record: 0,
        pools: Seq::empty(),
        combined_values: Seq::empty(),
        replayed: 0,
        combined: 0,
    }
}

/// The session of an attempt that has ended.
pub open spec fn closed_session(s: SessionView) -> SessionView {
    SessionView { phase: ReusePhase::Idle, ..s }
}

impl ReuseSession {
    /// A session in which no attempt is under way.
    pub fn new() -> (session: ReuseSession)
        ensures
            session@ == idle_session(),
            session@.wf(),
    {
        let session = ReuseSession {
            phase: ReusePhase::Idle,
            iterations: 0,
            snapshot: LocalStatsSnapshot {
                num_exec: crate::stats::Counter(0),
                num_inputs: crate::stats::Counter(0),
                num_hangs: crate::stats::Counter(0),
                num_crashes: crate::stats::Counter(0),
            },
            buf_backup: Vec::new(),
            pattern: Vec::new(),
            merged_offsets: Vec::new(),
            start: 0,
            records: Vec::new(),
            next_record: 0,
            pools: Vec::new(),
            combined_values: Vec::new(),
            replayed: 0,
            combined: 0,
        };
        proof {
            assert(session.pools.deep_view() =~= Seq::<Seq<Seq<u8>>>::empty());
            assert(session.combined_values.deep_view() =~= Seq::<Seq<u8>>::empty());
            assert(records_view(session.records@) =~= Seq::<RecordView>::empty());
        }
        session
    }
}

impl ReuseSession {
    /// Where the attempt stands.
    pub fn phase(&self) -> (phase: ReusePhase)
        ensures
            phase == self@.phase,
    {
        self.phase
    }

    /// The condition's fingerprint in the attempt.
    pub fn pattern(&self) -> (pattern: &Vec<u32>)
        ensures
            pattern@ == self@.pattern,
    {
        &self.pattern
    }

    /// The merged segments at which the attempt splices.
    pub fn merged_offsets(&self) -> (segs: &Vec<TagSeg>)
        ensures
            segs@ == self@.merged_offsets,
    {
        &self.merged_offsets
    }

    /// The condition's replay cursor when the attempt began.
    pub fn start(&self) -> (start: usize)
        ensures
            start == self@.start,
    {
        self.start
    }

    /// The records that stage 1 replays.
    pub fn records(&self) -> (records: &Vec<CondRecord>)
        ensures
            records_view(records@) == self@.records,
    {
        &self.records
    }

    /// The position in the records at which stage 1 goes on.
    pub fn next_record(&self) -> (next: usize)
        ensures
            next == self@.next_record,
    {
        self.next_record
    }

    /// The values of the last recombined candidate.
    pub fn combined_values(&self) -> (values: &Vec<Vec<u8>>)
        ensures
            values.deep_view() == self@.combined_values,
    {
        &self.combined_values
    }

    /// Candidates that stage 1 has handed out.
    pub fn replayed(&self) -> (n: usize)
        ensures
            n == self@.replayed,
    {
        self.replayed
    }

    /// Candidates that stage 2 has handed out.
    pub fn combined(&self) -> (n: usize)
        ensures
            n == self@.combined,
    {
        self.combined
    }
}

proof fn lemma_first_values_push(records: Seq<RecordView>, r: RecordView)
    ensures
        first_values(records.push(r)) == if r.critical_values.len() > 0 {
            first_values(records).push(r.critical_values[0])
        } else {
            first_values(records)
        },
{
    assert(records.push(r).drop_last() =~= records);
}

/// The values that were seen for single segments, for every segment length
/// of a fingerprint.
pub fn segment_pools(store: &PatternStore, pattern: &Vec<u32>) -> (pools: Vec<Vec<Vec<u8>>>)
    requires
        store.wf(),
    ensures
        pools.deep_view() == pools_for(store@, pattern@),
{
    let mut pools: Vec<Vec<Vec<u8>>> = Vec::new();
    let mut i: usize = 0;
    while i < pattern.len()
        invariant
            i <= pattern@.len(),
            store.wf(),
            pools@.len() == i,
            forall|k: int|
                0 <= k < i ==> (#[trigger] pools@[k]).deep_view() == pool_for(store@, pattern@[k]),
        decreases pattern.len() - i,
    {
        let mut single_pattern: Vec<u32> = Vec::new();
        single_pattern.push(pattern[i]);
        assert(single_pattern@ =~= seq![pattern@[i as int]]);
        let records = store.records(&single_pattern);
        let mut pool: Vec<Vec<u8>> = Vec::new();
        let mut k: usize = 0;
        assert(records_view(records@).take(0) =~= Seq::<RecordView>::empty());
        assert(pool.deep_view() =~= Seq::<Seq<u8>>::empty());
        while k < records.len()
            invariant
                k <= records@.len(),
                pool.deep_view() == first_values(records_view(records@).take(k as int)),
            decreases records.len() - k,
        {
            let ghost before = pool;
            proof {
                let all = records_view(records@);
                assert(all.take(k + 1) =~= all.take(k as int).push(all[k as int]));
                lemma_first_values_push(all.take(k as int), all[k as int]);
                assert(all[k as int].critical_values.len() == records@[k as int].critical_values@.len());
            }
            if records[k].critical_values.len() > 0 {
                let value = copy_bytes(&records[k].critical_values[0]);
                proof {
                    lemma_bytes_deep_view(records@[k as int].critical_values@[0]);
                    lemma_bytes_deep_view(value);
                }
                pool.push(value);
                assert(pool.deep_view() =~= before.deep_view().push(value.deep_view()));
            }
            k += 1;
        }
        assert(records_view(records@).take(k as int) =~= records_view(records@));
        pools.push(pool);
        i += 1;
    }
    assert(pools.deep_view() =~= pools_for(store@, pattern@));
    pools
}

/// Whether every pool holds a value.
pub fn pools_filled(pools: &Vec<Vec<Vec<u8>>>) -> (filled: bool)
    ensures
        filled == all_filled(pools.deep_view()),
{
    let mut i: usize = 0;
    while i < pools.len()
        invariant
            i <= pools@.len(),
            forall|k: int| 0 <= k < i ==> (#[trigger] pools.deep_view()[k]).len() > 0,
        decreases pools.len() - i,
    {
        assert(pools.deep_view()[i as int].len() == pools@[i as int]@.len());
        if pools[i].len() == 0 {
            return false;
        }
        i += 1;
    }
    true
}

/// Begins an attempt, if one is to be made: none is made on a condition
/// that is solved already or has no taint offsets, and then nothing changes.
pub fn begin_reusing(
    handler: &SearchHandler,
    session: &mut ReuseSession,
    store: &PatternStore,
    iterations: usize,
) -> (started: bool)
    requires
        store.wf(),
        all_wf(handler.cond.offsets@),
    ensures
        started == starts(handler@),
        !started ==> final(session)@ == old(session)@,
        started ==> final(session)@ == begun(handler@, store@, iterations),
        started ==> final(session)@.wf(),
{
    if handler.cond.is_done() {
        return false;
    }
    let pattern = extract_pattern_merged(&handler.cond.offsets);
    proof {
        lemma_merged_basics(handler.cond.offsets@);
    }
    if pattern.len() == 0 {
        return false;
    }
    let snapshot = handler.local_stats.snapshot();
    let buf_backup = copy_bytes(&handler.buf);
    let merged_offsets = merge_continuous_segments(&handler.cond.offsets);
    let start = handler.cond.reusing_record_index;
    let selected = records_from(store, &pattern, start, iterations);
    let records = match selected {
        Some(v) => v,
        None => Vec::new(),
    };
    session.phase = ReusePhase::Replay;
    session.iterations = iterations;
    session.snapshot = snapshot;
    session.buf_backup = buf_backup;
    session.pattern = pattern;
    session.merged_offsets = merged_offsets;
    session.start = start;
    session.records = records;
    session.next_record = 0;
    session.pools = Vec::new();
    session.combined_values = Vec::new();
    session.replayed = 0;
    session.combined = 0;
    proof {
        assert(session.pools.deep_view() =~= Seq::<Seq<Seq<u8>>>::empty());
        assert(session.combined_values.deep_view() =~= Seq::<Seq<u8>>::empty());
        assert(records_view(session.records@) =~= begun(handler@, store@, iterations).records);
        assert(records_view(session.records@).len() == session.records@.len());
    }
    true
}

proof fn lemma_next_fitting_skip(records: Seq<RecordView>, segments: nat, from: int, j: int)
    requires
        0 <= from <= j <= records.len(),
        forall|k: int| from <= k < j ==> (#[trigger] records[k]).critical_values.len() != segments,
    ensures
        next_fitting(records, segments, from) == next_fitting(records, segments, j),
    decreases j - from,
{
    if from < j {
        lemma_next_fitting_skip(records, segments, from + 1, j);
    }
}

/// Stage 1 passes over no record that fits the fingerprint it stands under:
/// where the records fit the fingerprint of the condition's segments, the next
/// record to be replayed is the next record.
pub proof fn lemma_fitting_records_are_replayed(
    records: Seq<RecordView>,
    segs: Seq<TagSeg>,
    from: int,
)
    requires
        forall|i: int| 0 <= i < records.len() ==> fits(spans(segs), #[trigger] records[i]),
        0 <= from < records.len(),
    ensures
        next_fitting(records, segs.len(), from) == from,
{
    let r = records[from];
    assert(fits(spans(segs), r));
    assert(spans(merged(r.offsets)).len() == merged(r.offsets).len());
}

/// Stage 1, one step: makes the next stored record that fits the
/// condition's segments a candidate, in the order of the records, unless the
/// run is to stop.
pub fn replay_next_record(handler: &mut SearchHandler, session: &mut ReuseSession) -> (ready: bool)
    requires
        old(session)@.wf(),
        old(session)@.phase == ReusePhase::Replay,
    ensures
        final(session)@.wf(),
        final(session)@.phase == ReusePhase::Replay,
        (final(handler)@, final(session)@, ready) == stage1_step(old(handler)@, old(session)@),
        final(handler).cond.reusing_record_index >= old(handler).cond.reusing_record_index,
{
    if handler.cond.is_done() || handler.is_stopped_or_skip() {
        return false;
    }
    let mut j: usize = session.next_record;
    while j < session.records.len() && session.records[j].critical_values.len()
        != session.merged_offsets.len()
        invariant
            *session == *old(session),
            session.next_record <= j <= session.records@.len(),
            forall|k: int|
                session.next_record <= k < j ==> (#[trigger] records_view(
                    session.records@,
                )[k]).critical_values.len() != session.merged_offsets@.len(),
        decreases session.records@.len() - j,
    {
        j += 1;
    }
    proof {
        lemma_next_fitting_skip(
            records_view(session.records@),
            session.merged_offsets@.len(),
            session.next_record as int,
            j as int,
        );
    }
    let ready = j < session.records.len();
    if ready {
        insert_critical_value_with_merged(handler, &session.records[j], &session.merged_offsets);
        session.replayed = session.replayed + 1;
        j = j + 1;
    }
    session.next_record = j;
    if session.start + j > handler.cond.reusing_record_index {
        handler.cond.reusing_record_index = session.start + j;
    }
    ready
}

/// Stage 2, one step: makes a candidate of values that were seen for the
/// single segments, one picked at random for every segment. Coming from
/// stage 1, the step first sees whether stage 2 takes place at all.
pub fn try_combined_segments(
    handler: &mut SearchHandler,
    session: &mut ReuseSession,
    store: &PatternStore,
) -> (ready: bool)
    requires
        old(session)@.wf(),
        old(session)@.phase != ReusePhase::Idle,
        store.wf(),
    ensures
        final(session)@.wf(),
        final(session)@.phase != ReusePhase::Idle,
        (final(handler)@, final(session)@, ready) == stage2_step(
            old(handler)@,
            old(session)@,
            store@,
            final(session)@.combined_values,
        ),
        ready ==> selection(final(session)@.pools, final(session)@.combined_values),
        final(handler).cond == old(handler).cond,
{
    if session.phase == ReusePhase::Replay {
        if !(session.replayed < session.iterations && session.pattern.len() >= 2) {
            return false;
        }
        let pools = segment_pools(store, &session.pattern);
        if !pools_filled(&pools) {
            return false;
        }
        let end = max_end(&session.merged_offsets);
        grow(&mut handler.buf, end);
        session.pools = pools;
        session.combined = 0;
        session.phase = ReusePhase::Combine;
    }
    if session.combined >= session.iterations - session.replayed || handler.cond.is_done()
        || handler.is_stopped_or_skip() {
        return false;
    }
    let picked = pick_values(&session.pools);
    splice_values(&mut handler.buf, &session.merged_offsets, &picked);
    session.combined_values = picked;
    session.combined = session.combined + 1;
    true
}

/// Makes the next candidate of the attempt under way ready in the handler's
/// input, if there is one: first the candidates of stage 1, then those of
/// stage 2. Without a candidate the attempt is to be ended.
pub fn next_candidate(
    handler: &mut SearchHandler,
    session: &mut ReuseSession,
    store: &PatternStore,
) -> (ready: bool)
    requires
        old(session)@.wf(),
        old(session)@.phase != ReusePhase::Idle,
        store.wf(),
    ensures
        final(session)@.wf(),
        final(session)@.phase != ReusePhase::Idle,
        (final(handler)@, final(session)@, ready) == advanced(
            old(handler)@,
            old(session)@,
            store@,
            final(session)@.combined_values,
        ),
        ready && final(session)@.phase == ReusePhase::Combine ==> selection(
            final(session)@.pools,
            final(session)@.combined_values,
        ),
        final(handler).cond.reusing_record_index >= old(handler).cond.reusing_record_index,
{
    if session.phase == ReusePhase::Replay {
        if replay_next_record(handler, session) {
            return true;
        }
    }
    try_combined_segments(handler, session, store)
}

/// Ends the attempt under way. What was executed and found since it began
/// moves from the execution counts to the reuse aggregate, the handler's
/// input and execution counts are put back to what they were when the
/// attempt began, and the attempt is noted in the usage statistics of its
/// fingerprint and of its condition, whether it solved the condition or
/// not. The answer says whether the condition is solved.
pub fn finish_reusing(
    handler: &mut SearchHandler,
    session: &mut ReuseSession,
    store: &PatternStore,
    reusing_stats: &mut ReusingStats,
    usage: &mut UsageStats,
) -> (solved: bool)
    requires
        old(session)@.phase != ReusePhase::Idle,
        store.wf(),
        old(usage).wf(),
    ensures
        solved == old(handler)@.cond.done(),
        final(handler)@ == closed_handler(old(handler)@, old(session)@),
        final(session)@ == closed_session(old(session)@),
        final(reusing_stats).tally() == closed_aggregate(
            old(handler)@,
            old(session)@,
            *old(reusing_stats),
        ),
        final(usage).wf(),
        final(usage).pattern_view() == with_attempt(
            old(usage).pattern_view(),
            old(session)@.pattern,
            outcome_of(old(handler)@, old(session)@, store@),
        ),
        final(usage).cond_view() == with_cond_attempt(
            old(usage).cond_view(),
            old(handler)@.cond.key(),
            old(session)@.pattern,
            old(session)@.replayed,
            old(session)@.combined,
        ),
{
    if check_can_settle(&handler.local_stats, &session.snapshot, reusing_stats) {
        settle_counters(&mut handler.local_stats, &session.snapshot, reusing_stats);
    } else {
        handler.local_stats.restore(&session.snapshot);
    }
    handler.buf = copy_bytes(&session.buf_backup);
    let solved = handler.cond.is_done();
    let outcome = AttemptOutcome {
        total_records: store.record_count(&session.pattern),
        cursor: handler.cond.reusing_record_index,
        stage1: session.replayed,
        stage2: session.combined,
        solved,
    };
    update_pattern_stats(usage, &session.pattern, outcome);
    update_condstmt_stats(
        usage,
        handler.cond.key(),
        &session.pattern,
        session.replayed,
        session.combined,
    );
    session.phase = ReusePhase::Idle;
    solved
}

/// How one step of reuse relates what it found to what it left: handler,
/// session, reuse aggregate and usage statistics before (`h`, `s`, `agg`,
/// `pu`, `cu`) and after (`h2`, `s2`, `agg2`, `pu2`, `cu2`), and the step it
/// answered.
///
/// A step on an idle session begins an attempt, unless the condition is
/// solved or has no taint offsets: then the answer is `Done(false)` and
/// nothing has changed. In an attempt the step makes the next candidate
/// ready and answers `Execute`; nothing but the handler's input and the
/// session has changed then. When there is no further candidate, the step
/// ends the attempt and answers `Done` with whether the condition is solved.
pub open spec fn reuse_stepped(
    h: HandlerView,
    s: SessionView,
    store: StoreMap,
    iterations: usize,
    agg: ReusingStats,
    pu: crate::usage::PatternUsage,
    cu: crate::usage::CondUsage,
    h2: HandlerView,
    s2: SessionView,
    agg2: ReusingStats,
    pu2: crate::usage::PatternUsage,
    cu2: crate::usage::CondUsage,
    step: ReuseStep,
) -> bool {
    let e = entered(h, s, store, iterations);
    let a = advanced(e.0, e.1, store, s2.combined_values);
    if !e.2 {
        &&& step == ReuseStep::Done(false)
        &&& h2 == h
        &&& s2 == s
        &&& agg2 == agg
        &&& pu2 == pu
        &&& cu2 == cu
    } else if a.2 {
        &&& step == ReuseStep::Execute
        &&& h2 == a.0
        &&& s2 == a.1
        &&& agg2 == agg
        &&& pu2 == pu
        &&& cu2 == cu
        &&& s2.phase == ReusePhase::Combine ==> selection(s2.pools, s2.combined_values)
    } else {
        &&& step == ReuseStep::Done(a.0.cond.done())
        &&& h2 == closed_handler(a.0, a.1)
        &&& s2 == closed_session(a.1)
        &&& agg2.tally() == closed_aggregate(a.0, a.1, agg)
        &&& pu2 == with_attempt(pu, a.1.pattern, outcome_of(a.0, a.1, store))
        &&& cu2 == with_cond_attempt(cu, a.0.cond.key(), a.1.pattern, a.1.replayed, a.1.combined)
    }
}

/// One step of reuse on a condition. The caller runs the handler's input
/// whenever the answer is `Execute` and asks again, with the same session,
/// until the answer is `Done`; `iterations` bounds the candidates of the
/// attempt and is read when the attempt begins.
pub fn apply_reusing_mutation(
    handler: &mut SearchHandler,
    session: &mut ReuseSession,
    store: &PatternStore,
    reusing_stats: &mut ReusingStats,
    usage: &mut UsageStats,
    iterations: usize,
) -> (step: ReuseStep)
    requires
        old(session)@.wf(),
        store.wf(),
        old(usage).wf(),
        old(session)@.phase == ReusePhase::Idle ==> all_wf(old(handler).cond.offsets@),
    ensures
        final(session)@.wf(),
        final(usage).wf(),
        reuse_stepped(
            old(handler)@,
            old(session)@,
            store@,
            iterations,
            *old(reusing_stats),
            old(usage).pattern_view(),
            old(usage).cond_view(),
            final(handler)@,
            final(session)@,
            *final(reusing_stats),
            final(usage).pattern_view(),
            final(usage).cond_view(),
            step,
        ),
        final(handler).cond.reusing_record_index >= old(handler).cond.reusing_record_index,
{
    if session.phase == ReusePhase::Idle {
        if !begin_reusing(&*handler, session, store, iterations) {
            return ReuseStep::Done(false);
        }
    }
    if next_candidate(handler, session, store) {
        return ReuseStep::Execute;
    }
    let solved = finish_reusing(handler, session, store, reusing_stats, usage);
    ReuseStep::Done(solved)
}

} // verus!
