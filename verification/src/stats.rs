//! Execution accounting: the counters every execution feeds, the separate
//! aggregate for what reuse attempts executed, and the snapshot by which an
//! attempt keeps its executions out of the former.

use crate::cond::CondStmt;
use crate::fuzz_type::{FuzzType, StatusType};
use vstd::prelude::*;

verus! {

/// A monotonic event counter.
#[derive(Clone, Copy, Debug, PartialEq, Eq, Structural)]
pub struct Counter(pub usize);

impl Default for Counter {
    fn default() -> (c: Self)
        ensures
            c.0 == 0,
    {
        Counter(0)
    }
}

impl Counter {
    /// Counts one more event.
    pub fn count(&mut self)
        requires
            old(self).0 < usize::MAX,
        ensures
            final(self).0 == old(self).0 + 1,
    {
        self.0 = self.0 + 1;
    }
}

/// The four execution counts as mathematical integers.
pub struct Tally {
    pub execs: int,
    pub inputs: int,
    pub hangs: int,
    pub crashes: int,
}

impl Tally {
    /// Nothing counted.
    pub open spec fn zero() -> Tally {
        Tally { execs: 0, inputs: 0, hangs: 0, crashes: 0 }
    }

    /// The counts of both, added count by count.
    pub open spec fn plus(self, other: Tally) -> Tally {
        Tally {
            execs: self.execs + other.execs,
            inputs: self.inputs + other.inputs,
            hangs: self.hangs + other.hangs,
            crashes: self.crashes + other.crashes,
        }
    }

    /// The counts of `self` less those of `other`, count by count.
    pub open spec fn minus(self, other: Tally) -> Tally {
        Tally {
            execs: self.execs - other.execs,
            inputs: self.inputs - other.inputs,
            hangs: self.hangs - other.hangs,
            crashes: self.crashes - other.crashes,
        }
    }

    /// No count of `self` is below the same count of `other`.
    pub open spec fn at_least(self, other: Tally) -> bool {
        &&& self.execs >= other.execs
        &&& self.inputs >= other.inputs
        &&& self.hangs >= other.hangs
        &&& self.crashes >= other.crashes
    }

    /// Every count fits a counter.
    pub open spec fn fits(self) -> bool {
        &&& 0 <= self.execs <= usize::MAX
        &&& 0 <= self.inputs <= usize::MAX
        &&& 0 <= self.hangs <= usize::MAX
        &&& 0 <= self.crashes <= usize::MAX
    }
}

/// The counters of the execution service for the condition in work. Every
/// execution counts here, whichever strategy asked for it.
#[derive(Clone, Copy, Debug)]
pub struct LocalStats {
    pub fuzz_type: FuzzType,
    pub num_exec: Counter,
    pub num_inputs: Counter,
    pub num_hangs: Counter,
    pub num_crashes: Counter,
}

/// The counts of a `LocalStats` at one moment.
#[derive(Clone, Copy, Debug)]
pub struct LocalStatsSnapshot {
    pub num_exec: Counter,
    pub num_inputs: Counter,
    pub num_hangs: Counter,
    pub num_crashes: Counter,
}

/// What reuse attempts executed and found, kept apart from the counters of
/// the execution service.
#[derive(Clone, Copy, Debug)]
pub struct ReusingStats {
    pub num_exec: Counter,
    pub num_inputs: Counter,
    pub num_hangs: Counter,
    pub num_crashes: Counter,
}

impl Default for LocalStats {
    fn default() -> (s: Self)
        ensures
            s.fuzz_type == FuzzType::OtherFuzz,
            s.tally() == Tally::zero(),
    {
        LocalStats {
            fuzz_type: FuzzType::OtherFuzz,
            num_exec: Counter(0),
            num_inputs: Counter(0),
            num_hangs: Counter(0),
            num_crashes: Counter(0),
        }
    }
}

impl LocalStatsSnapshot {
    /// The four counts as integers.
    pub open spec fn tally(&self) -> Tally {
        Tally {
            execs: self.num_exec.0 as int,
            inputs: self.num_inputs.0 as int,
            hangs: self.num_hangs.0 as int,
            crashes: self.num_crashes.0 as int,
        }
    }
}

impl LocalStats {
    /// The four counts as integers.
    pub open spec fn tally(&self) -> Tally {
        Tally {
            execs: self.num_exec.0 as int,
            inputs: self.num_inputs.0 as int,
            hangs: self.num_hangs.0 as int,
            crashes: self.num_crashes.0 as int,
        }
    }

    /// What the given outcome adds to the counts when an execution found
    /// something new: a normal run is a new input, a timeout a hang, a crash
    /// a crash; other outcomes add nothing.
    pub open spec fn found(status: StatusType) -> Tally {
        match status {
            StatusType::Normal => Tally { execs: 0, inputs: 1, hangs: 0, crashes: 0 },
            StatusType::Timeout => Tally { execs: 0, inputs: 0, hangs: 1, crashes: 0 },
            StatusType::Crash => Tally { execs: 0, inputs: 0, hangs: 0, crashes: 1 },
            _ => Tally::zero(),
        }
    }

    /// Starts the accounting for a condition: takes over its strategy family
    /// and resets the counts.
    pub fn register(&mut self, cond: &CondStmt)
        ensures
            final(self).fuzz_type == cond.fuzz_type,
            final(self).tally() == Tally::zero(),
    {
        self.fuzz_type = cond.get_fuzz_type();
        self.clear();
    }

    /// Resets the counts.
    pub fn clear(&mut self)
        ensures
            final(self).fuzz_type == old(self).fuzz_type,
            final(self).tally() == Tally::zero(),
    {
        self.num_exec = Counter(0);
        self.num_inputs = Counter(0);
        self.num_hangs = Counter(0);
        self.num_crashes = Counter(0);
    }

    /// Counts what an execution with the given outcome found.
    pub fn find_new(&mut self, status: &StatusType)
        requires
            old(self).tally().plus(Self::found(*status)).fits(),
        ensures
            final(self).fuzz_type == old(self).fuzz_type,
            final(self).tally() == old(self).tally().plus(Self::found(*status)),
    {
        match status {
            StatusType::Normal => {
                self.num_inputs.count();
            },
            StatusType::Timeout => {
                self.num_hangs.count();
            },
            StatusType::Crash => {
                self.num_crashes.count();
            },
            _ => {},
        }
    }

    /// The snapshot that holds the counts as they stand.
    pub open spec fn snapshot_of(&self) -> LocalStatsSnapshot {
        LocalStatsSnapshot {
            num_exec: self.num_exec,
            num_inputs: self.num_inputs,
            num_hangs: self.num_hangs,
            num_crashes: self.num_crashes,
        }
    }

    /// The statistics with the counts of the snapshot.
    pub open spec fn restored(&self, snapshot: LocalStatsSnapshot) -> LocalStats {
        LocalStats {
            fuzz_type: self.fuzz_type,
            num_exec: snapshot.num_exec,
            num_inputs: snapshot.num_inputs,
            num_hangs: snapshot.num_hangs,
            num_crashes: snapshot.num_crashes,
        }
    }

    /// The counts as they stand.
    pub fn snapshot(&self) -> (snap: LocalStatsSnapshot)
        ensures
            snap == self.snapshot_of(),
            snap.tally() == self.tally(),
    {
        LocalStatsSnapshot {
            num_exec: self.num_exec,
            num_inputs: self.num_inputs,
            num_hangs: self.num_hangs,
            num_crashes: self.num_crashes,
        }
    }

    /// Puts the counts back to those of the snapshot.
    pub fn restore(&mut self, snapshot: &LocalStatsSnapshot)
        ensures
            *final(self) == old(self).restored(*snapshot),
            final(self).fuzz_type == old(self).fuzz_type,
            final(self).tally() == snapshot.tally(),
    {
        self.num_exec = snapshot.num_exec;
        self.num_inputs = snapshot.num_inputs;
        self.num_hangs = snapshot.num_hangs;
        self.num_crashes = snapshot.num_crashes;
    }
}

impl Default for ReusingStats {
    fn default() -> (s: Self)
        ensures
            s.tally() == Tally::zero(),
    {
        ReusingStats {
            num_exec: Counter(0),
            num_inputs: Counter(0),
            num_hangs: Counter(0),
            num_crashes: Counter(0),
        }
    }
}

impl ReusingStats {
    /// The four counts as integers.
    pub open spec fn tally(&self) -> Tally {
        Tally {
            execs: self.num_exec.0 as int,
            inputs: self.num_inputs.0 as int,
            hangs: self.num_hangs.0 as int,
            crashes: self.num_crashes.0 as int,
        }
    }

    /// An aggregate that has seen nothing.
    pub fn new() -> (s: Self)
        ensures
            s.tally() == Tally::zero(),
    {
        ReusingStats {
            num_exec: Counter(0),
            num_inputs: Counter(0),
            num_hangs: Counter(0),
            num_crashes: Counter(0),
        }
    }
}

/// The counters of the execution service and the reuse aggregate after an
/// attempt is settled: the service's counters are back at the snapshot, and
/// what was counted since the snapshot has moved to the aggregate.
pub open spec fn settled(counted: Tally, snapshot: Tally, aggregate: Tally) -> (Tally, Tally) {
    (snapshot, aggregate.plus(counted.minus(snapshot)))
}

/// Whether an attempt can be settled: the service's counters have not gone
/// below the snapshot, and the aggregate has room for what was counted since.
pub open spec fn can_settle(counted: Tally, snapshot: Tally, aggregate: Tally) -> bool {
    &&& counted.at_least(snapshot)
    &&& aggregate.plus(counted.minus(snapshot)).fits()
}

/// Tests whether `settle_counters` may be called on these values.
pub fn check_can_settle(
    local: &LocalStats,
    snapshot: &LocalStatsSnapshot,
    aggregate: &ReusingStats,
) -> (ok: bool)
    ensures
        ok == can_settle(local.tally(), snapshot.tally(), aggregate.tally()),
{
    local.num_exec.0 >= snapshot.num_exec.0 && local.num_inputs.0 >= snapshot.num_inputs.0
        && local.num_hangs.0 >= snapshot.num_hangs.0 && local.num_crashes.0
        >= snapshot.num_crashes.0 && local.num_exec.0 - snapshot.num_exec.0 <= usize::MAX
        - aggregate.num_exec.0 && local.num_inputs.0 - snapshot.num_inputs.0 <= usize::MAX
        - aggregate.num_inputs.0 && local.num_hangs.0 - snapshot.num_hangs.0 <= usize::MAX
        - aggregate.num_hangs.0 && local.num_crashes.0 - snapshot.num_crashes.0 <= usize::MAX
        - aggregate.num_crashes.0
}

/// Closes the accounting of one attempt: what the execution service counted
/// since the snapshot is added to the aggregate, and the service's counters
/// are put back to the snapshot.
pub fn settle_counters(
    local: &mut LocalStats,
    snapshot: &LocalStatsSnapshot,
    aggregate: &mut ReusingStats,
)
    requires
        can_settle(old(local).tally(), snapshot.tally(), old(aggregate).tally()),
    ensures
        *final(local) == old(local).restored(*snapshot),
        final(local).fuzz_type == old(local).fuzz_type,
        (final(local).tally(), final(aggregate).tally()) == settled(
            old(local).tally(),
            snapshot.tally(),
            old(aggregate).tally(),
        ),
{
    let exec_delta = local.num_exec.0 - snapshot.num_exec.0;
    let inputs_delta = local.num_inputs.0 - snapshot.num_inputs.0;
    let hangs_delta = local.num_hangs.0 - snapshot.num_hangs.0;
    let crashes_delta = local.num_crashes.0 - snapshot.num_crashes.0;
    aggregate.num_exec = Counter(aggregate.num_exec.0 + exec_delta);
    aggregate.num_inputs = Counter(aggregate.num_inputs.0 + inputs_delta);
    aggregate.num_hangs = Counter(aggregate.num_hangs.0 + hangs_delta);
    aggregate.num_crashes = Counter(aggregate.num_crashes.0 + crashes_delta);
    local.restore(snapshot);
}

/// The sum of the given tallies.
pub open spec fn total(work: Seq<Tally>) -> Tally
    decreases work.len(),
{
    if work.len() == 0 {
        Tally::zero()
    } else {
        total(work.drop_last()).plus(work.last())
    }
}

/// The service's counters and the aggregate after a sequence of attempts,
/// where `work[i]` is what the execution service counted during attempt `i`:
/// each attempt takes a snapshot, lets the service count, and is settled.
pub open spec fn after_attempts(service: Tally, aggregate: Tally, work: Seq<Tally>) -> (
    Tally,
    Tally,
)
    decreases work.len(),
{
    if work.len() == 0 {
        (service, aggregate)
    } else {
        let before = after_attempts(service, aggregate, work.drop_last());
        settled(before.0.plus(work.last()), before.0, before.1)
    }
}

/// Whatever a sequence of reuse attempts executes, the counters of the
/// execution service stand after it where they stood before it, and the
/// reuse aggregate has grown by exactly what was counted during the attempts.
pub proof fn lemma_counter_isolation(service: Tally, aggregate: Tally, work: Seq<Tally>)
    ensures
        after_attempts(service, aggregate, work).0 == service,
        after_attempts(service, aggregate, work).1 == aggregate.plus(total(work)),
    decreases work.len(),
{
    if work.len() > 0 {
        lemma_counter_isolation(service, aggregate, work.drop_last());
    }
}

} // verus!
