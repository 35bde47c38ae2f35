//! Usage statistics of reuse: what was tried and what succeeded, for every
//! fingerprint and for every condition.

use crate::arrange::{arranges, lemma_arranges_insert, lemma_ordered_insert, ordered};
use crate::cond::CondKey;
use crate::count::{add_clamped, clamped};
use crate::keyed::{keyed, lemma_index_of, lemma_keyed_insert, lemma_keyed_update, lemma_push_distinct};
use crate::order::{
    lemma_lex_asymmetric, lemma_lex_total, lemma_lex_transitive, lex_less, rank_patterns, Rank,
};
use crate::store::copy_pattern;
use vstd::prelude::*;

verus! {

/// What is known of the reuse of one fingerprint.
#[derive(Clone, Copy, Debug, PartialEq, Eq, Structural)]
pub struct PatternCounts {
    /// Records the pattern store held for the fingerprint at the last attempt.
    pub total_records: usize,
    /// The furthest any condition's replay cursor got.
    pub max_cursor: usize,
    /// Attempts made with the fingerprint.
    pub executions: usize,
    /// Candidates that replayed a stored record.
    pub stage1_attempts: usize,
    /// Candidates that recombined values of single segments.
    pub stage2_attempts: usize,
    /// Attempts that ended with the condition solved.
    pub successes: usize,
    /// Successes that came after recombined candidates had been tried.
    pub combined_successes: usize,
}

/// One row of the per-fingerprint statistics.
#[derive(Clone, Debug)]
pub struct ReusingPatternStats {
    pub pattern: Vec<u32>,
    pub counts: PatternCounts,
}

/// One row of the per-condition statistics.
#[derive(Clone, Debug)]
pub struct CondStmtReusingStats {
    pub key: CondKey,
    /// The fingerprint of the condition's last attempt.
    pub pattern: Vec<u32>,
    pub stage1_attempts: usize,
    pub stage2_attempts: usize,
}

/// What is known of the reuse attempts on one condition.
pub struct CondCounts {
    pub pattern: Seq<u32>,
    pub stage1_attempts: usize,
    pub stage2_attempts: usize,
}

/// What one attempt contributes to the statistics.
#[derive(Clone, Copy, Debug, PartialEq, Eq, Structural)]
pub struct AttemptOutcome {
    /// Records the pattern store holds for the fingerprint.
    pub total_records: usize,
    /// The condition's replay cursor after the attempt.
    pub cursor: usize,
    /// Candidates of stage 1 that were handed out.
    pub stage1: usize,
    /// Candidates of stage 2 that were handed out.
    pub stage2: usize,
    pub solved: bool,
}

impl View for ReusingPatternStats {
    type V = (Seq<u32>, PatternCounts);

    open spec fn view(&self) -> (Seq<u32>, PatternCounts) {
        (self.pattern@, self.counts)
    }
}

impl View for CondStmtReusingStats {
    type V = (CondKey, CondCounts);

    open spec fn view(&self) -> (CondKey, CondCounts) {
        (
            self.key,
            CondCounts {
                pattern: self.pattern@,
                stage1_attempts: self.stage1_attempts,
                stage2_attempts: self.stage2_attempts,
            },
        )
    }
}

/// The counts of every fingerprint that was tried.
pub type PatternUsage = Map<Seq<u32>, PatternCounts>;

/// The counts of every condition that was tried.
pub type CondUsage = Map<CondKey, CondCounts>;

/// The counts of a fingerprint that was never tried.
pub open spec fn no_counts() -> PatternCounts {
    PatternCounts {
        total_records: 0,
        max_cursor: 0,
        executions: 0,
        stage1_attempts: 0,
        stage2_attempts: 0,
        successes: 0,
        combined_successes: 0,
    }
}

/// The counts of a fingerprint after one more attempt. The number of known
/// records is taken over as it is; the cursor mark only rises; all other
/// counts only grow, and stop at `usize::MAX`. A success counts as one of
/// recombination where the attempt had handed out recombined candidates.
pub open spec fn counted(before: PatternCounts, a: AttemptOutcome) -> PatternCounts {
    PatternCounts {
        total_records: a.total_records,
        max_cursor: if a.cursor > before.max_cursor {
            a.cursor
        } else {
            before.max_cursor
        },
        executions: clamped(before.executions + 1),
        stage1_attempts: clamped(before.stage1_attempts + a.stage1),
        stage2_attempts: clamped(before.stage2_attempts + a.stage2),
        successes: if a.solved {
            clamped(before.successes + 1)
        } else {
            before.successes
        },
        combined_successes: if a.solved && a.stage2 > 0 {
            clamped(before.combined_successes + 1)
        } else {
            before.combined_successes
        },
    }
}

/// Counting an attempt lets no count fall, but for the number of known
/// records, which is taken over from the store as it is.
pub proof fn lemma_counts_grow(before: PatternCounts, a: AttemptOutcome)
    ensures
        counted(before, a).max_cursor >= before.max_cursor,
        counted(before, a).executions >= before.executions,
        counted(before, a).stage1_attempts >= before.stage1_attempts,
        counted(before, a).stage2_attempts >= before.stage2_attempts,
        counted(before, a).successes >= before.successes,
        counted(before, a).combined_successes >= before.combined_successes,
{
}

/// The counts of a fingerprint; those of an untried one where the
/// statistics do not know it.
pub open spec fn counts_of(m: PatternUsage, fp: Seq<u32>) -> PatternCounts {
    if m.dom().contains(fp) {
        m[fp]
    } else {
        no_counts()
    }
}

/// The per-fingerprint statistics after an attempt with fingerprint `fp`.
pub open spec fn with_attempt(m: PatternUsage, fp: Seq<u32>, a: AttemptOutcome) -> PatternUsage {
    m.insert(fp, counted(counts_of(m, fp), a))
}

/// The per-condition statistics after an attempt on condition `key`: its
/// candidate counts grow and the fingerprint is noted as the last one used.
pub open spec fn with_cond_attempt(
    m: CondUsage,
    key: CondKey,
    fp: Seq<u32>,
    stage1: usize,
    stage2: usize,
) -> CondUsage {
    let s1: int = if m.dom().contains(key) {
        m[key].stage1_attempts as int
    } else {
        0
    };
    let s2: int = if m.dom().contains(key) {
        m[key].stage2_attempts as int
    } else {
        0
    };
    m.insert(
        key,
        CondCounts {
            pattern: fp,
            stage1_attempts: clamped(s1 + stage1),
            stage2_attempts: clamped(s2 + stage2),
        },
    )
}

/// The order of the per-fingerprint report: more successes first; among
/// equal successes the lexicographically smaller fingerprint first.
pub open spec fn pattern_row_before(
    a: (Seq<u32>, PatternCounts),
    b: (Seq<u32>, PatternCounts),
) -> bool {
    a.1.successes > b.1.successes || (a.1.successes == b.1.successes && lex_less(a.0, b.0))
}

/// The order of condition identities: by their three numbers in turn.
pub open spec fn key_less(a: CondKey, b: CondKey) -> bool {
    a.cmpid < b.cmpid || (a.cmpid == b.cmpid && (a.context < b.context || (a.context == b.context
        && a.order < b.order)))
}

/// All candidates tried on a condition.
pub open spec fn attempts(c: CondCounts) -> int {
    c.stage1_attempts + c.stage2_attempts
}

/// The order of the per-condition report: more candidates tried first;
/// among equal numbers the smaller identity first.
pub open spec fn cond_row_before(a: (CondKey, CondCounts), b: (CondKey, CondCounts)) -> bool {
    attempts(a.1) > attempts(b.1) || (attempts(a.1) == attempts(b.1) && key_less(a.0, b.0))
}

fn key_before(a: &CondKey, b: &CondKey) -> (r: bool)
    ensures
        r == key_less(*a, *b),
{
    a.cmpid < b.cmpid || (a.cmpid == b.cmpid && (a.context < b.context || (a.context == b.context
        && a.order < b.order)))
}

/// 0 where the first pair sums to more, 1 where both sum to the same, 2
/// where the second sums to more.
fn rank_sums(a1: usize, a2: usize, b1: usize, b2: usize) -> (r: u8)
    ensures
        r == 0 <==> a1 + a2 > b1 + b2,
        r == 1 <==> a1 + a2 == b1 + b2,
        r == 2 <==> a1 + a2 < b1 + b2,
{
    let a: u128 = a1 as u128 + a2 as u128;
    let b: u128 = b1 as u128 + b2 as u128;
    if a > b {
        0
    } else if a == b {
        1
    } else {
        2
    }
}

fn cond_row_precedes(a: &CondStmtReusingStats, b: &CondStmtReusingStats) -> (r: bool)
    ensures
        r == cond_row_before(a@, b@),
{
    let sums = rank_sums(a.stage1_attempts, a.stage2_attempts, b.stage1_attempts, b.stage2_attempts);
    sums == 0 || (sums == 1 && key_before(&a.key, &b.key))
}

fn pattern_row_precedes(a: &ReusingPatternStats, b: &ReusingPatternStats) -> (r: bool)
    ensures
        r == pattern_row_before(a@, b@),
{
    if a.counts.successes > b.counts.successes {
        true
    } else if a.counts.successes == b.counts.successes {
        match rank_patterns(&a.pattern, &b.pattern) {
            Rank::Before => true,
            _ => false,
        }
    } else {
        false
    }
}

fn copy_pattern_row(r: &ReusingPatternStats) -> (out: ReusingPatternStats)
    ensures
        out@ == r@,
{
    ReusingPatternStats { pattern: copy_pattern(&r.pattern), counts: r.counts }
}

fn copy_cond_row(r: &CondStmtReusingStats) -> (out: CondStmtReusingStats)
    ensures
        out@ == r@,
{
    CondStmtReusingStats {
        key: r.key,
        pattern: copy_pattern(&r.pattern),
        stage1_attempts: r.stage1_attempts,
        stage2_attempts: r.stage2_attempts,
    }
}

/// The usage statistics of reuse. Counts only grow; nothing is ever removed.
pub struct UsageStats {
    patterns: Vec<ReusingPatternStats>,
    conds: Vec<CondStmtReusingStats>,
}

impl UsageStats {
    spec fn pattern_keys(&self) -> Seq<Seq<u32>> {
        Seq::new(self.patterns@.len(), |i: int| self.patterns@[i].pattern@)
    }

    spec fn pattern_values(&self) -> Seq<PatternCounts> {
        Seq::new(self.patterns@.len(), |i: int| self.patterns@[i].counts)
    }

    spec fn cond_keys(&self) -> Seq<CondKey> {
        Seq::new(self.conds@.len(), |i: int| self.conds@[i].key)
    }

    spec fn cond_values(&self) -> Seq<CondCounts> {
        Seq::new(self.conds@.len(), |i: int| self.conds@[i]@.1)
    }

    /// The counts of every fingerprint that was tried.
    pub closed spec fn pattern_view(&self) -> PatternUsage {
        keyed(self.pattern_keys(), self.pattern_values())
    }

    /// The counts of every condition that was tried.
    pub closed spec fn cond_view(&self) -> CondUsage {
        keyed(self.cond_keys(), self.cond_values())
    }

    /// The invariant of the statistics: every fingerprint and every
    /// condition has one row.
    pub closed spec fn wf(&self) -> bool {
        self.pattern_keys().no_duplicates() && self.cond_keys().no_duplicates()
    }

    /// Statistics that have seen no attempt.
    pub fn new() -> (usage: UsageStats)
        ensures
            usage.wf(),
            usage.pattern_view() == Map::<Seq<u32>, PatternCounts>::empty(),
            usage.cond_view() == Map::<CondKey, CondCounts>::empty(),
    {
        let usage = UsageStats { patterns: Vec::new(), conds: Vec::new() };
        assert(usage.pattern_view() =~= Map::<Seq<u32>, PatternCounts>::empty());
        assert(usage.cond_view() =~= Map::<CondKey, CondCounts>::empty());
        usage
    }

    fn find_pattern(&self, pattern: &Vec<u32>) -> (r: Option<usize>)
        requires
            self.wf(),
        ensures
            match r {
                Some(i) => i < self.patterns@.len() && self.patterns@[i as int].pattern@
                    == pattern@ && self.pattern_view().dom().contains(pattern@)
                    && self.pattern_view()[pattern@] == self.patterns@[i as int].counts,
                None => !self.pattern_keys().contains(pattern@) && !self.pattern_view().dom().contains(
                    pattern@,
                ),
            },
    {
        let mut i: usize = 0;
        while i < self.patterns.len()
            invariant
                i <= self.patterns@.len(),
                self.wf(),
                forall|k: int| 0 <= k < i ==> #[trigger] self.pattern_keys()[k] != pattern@,
            decreases self.patterns.len() - i,
        {
            assert(self.pattern_keys()[i as int] == self.patterns@[i as int].pattern@);
            match rank_patterns(&self.patterns[i].pattern, pattern) {
                Rank::Same => {
                    proof {
                        lemma_index_of(self.pattern_keys(), i as int);
                    }
                    return Some(i);
                },
                _ => {},
            }
            i += 1;
        }
        None
    }

    fn find_cond(&self, key: &CondKey) -> (r: Option<usize>)
        requires
            self.wf(),
        ensures
            match r {
                Some(i) => i < self.conds@.len() && self.conds@[i as int].key == *key
                    && self.cond_view().dom().contains(*key) && self.cond_view()[*key]
                    == self.conds@[i as int]@.1,
                None => !self.cond_keys().contains(*key) && !self.cond_view().dom().contains(*key),
            },
    {
        let mut i: usize = 0;
        while i < self.conds.len()
            invariant
                i <= self.conds@.len(),
                self.wf(),
                forall|k: int| 0 <= k < i ==> #[trigger] self.cond_keys()[k] != *key,
            decreases self.conds.len() - i,
        {
            assert(self.cond_keys()[i as int] == self.conds@[i as int].key);
            if self.conds[i].key == *key {
                proof {
                    lemma_index_of(self.cond_keys(), i as int);
                }
                return Some(i);
            }
            i += 1;
        }
        None
    }
}

/// Notes one attempt in the statistics of its fingerprint.
pub fn update_pattern_stats(usage: &mut UsageStats, pattern: &Vec<u32>, outcome: AttemptOutcome)
    requires
        old(usage).wf(),
    ensures
        final(usage).wf(),
        final(usage).pattern_view() == with_attempt(old(usage).pattern_view(), pattern@, outcome),
        final(usage).cond_view() == old(usage).cond_view(),
{
    let found = usage.find_pattern(pattern);
    let before = match found {
        Some(i) => usage.patterns[i].counts,
        None => PatternCounts {
            total_records: 0,
            max_cursor: 0,
            executions: 0,
            stage1_attempts: 0,
            stage2_attempts: 0,
            successes: 0,
            combined_successes: 0,
        },
    };
    let counts = PatternCounts {
        total_records: outcome.total_records,
        max_cursor: if outcome.cursor > before.max_cursor {
            outcome.cursor
        } else {
            before.max_cursor
        },
        executions: add_clamped(before.executions, 1),
        stage1_attempts: add_clamped(before.stage1_attempts, outcome.stage1),
        stage2_attempts: add_clamped(before.stage2_attempts, outcome.stage2),
        successes: if outcome.solved {
            add_clamped(before.successes, 1)
        } else {
            before.successes
        },
        combined_successes: if outcome.solved && outcome.stage2 > 0 {
            add_clamped(before.combined_successes, 1)
        } else {
            before.combined_successes
        },
    };
    let row = ReusingPatternStats { pattern: copy_pattern(pattern), counts };
    let ghost start = *usage;
    match found {
        Some(i) => {
            usage.patterns.set(i, row);
            proof {
                assert(usage.pattern_keys() =~= start.pattern_keys());
                assert(usage.pattern_values() =~= start.pattern_values().update(i as int, counts));
                lemma_keyed_update(start.pattern_keys(), start.pattern_values(), i as int, counts);
                assert(start.pattern_keys()[i as int] == pattern@);
            }
        },
        None => {
            usage.patterns.push(row);
            proof {
                let n = start.patterns@.len() as int;
                lemma_push_distinct(start.pattern_keys(), pattern@);
                assert(usage.pattern_keys() =~= start.pattern_keys().push(pattern@));
                assert(usage.pattern_values() =~= start.pattern_values().insert(n, counts));
                lemma_keyed_insert(start.pattern_keys(), start.pattern_values(), n, pattern@, counts);
            }
        },
    }
    proof {
        assert(usage.cond_keys() =~= start.cond_keys());
        assert(usage.cond_values() =~= start.cond_values());
    }
}

/// Notes one attempt in the statistics of its condition.
pub fn update_condstmt_stats(
    usage: &mut UsageStats,
    key: CondKey,
    pattern: &Vec<u32>,
    stage1: usize,
    stage2: usize,
)
    requires
        old(usage).wf(),
    ensures
        final(usage).wf(),
        final(usage).cond_view() == with_cond_attempt(
            old(usage).cond_view(),
            key,
            pattern@,
            stage1,
            stage2,
        ),
        final(usage).pattern_view() == old(usage).pattern_view(),
{
    let found = usage.find_cond(&key);
    let mut s1: usize = 0;
    let mut s2: usize = 0;
    match found {
        Some(i) => {
            s1 = usage.conds[i].stage1_attempts;
            s2 = usage.conds[i].stage2_attempts;
        },
        None => {},
    }
    let row = CondStmtReusingStats {
        key,
        pattern: copy_pattern(pattern),
        stage1_attempts: add_clamped(s1, stage1),
        stage2_attempts: add_clamped(s2, stage2),
    };
    let ghost counts = row@.1;
    let ghost start = *usage;
    match found {
        Some(i) => {
            usage.conds.set(i, row);
            proof {
                assert(usage.cond_keys() =~= start.cond_keys());
                assert(usage.cond_values() =~= start.cond_values().update(i as int, counts));
                lemma_keyed_update(start.cond_keys(), start.cond_values(), i as int, counts);
                assert(start.cond_keys()[i as int] == key);
            }
        },
        None => {
            usage.conds.push(row);
            proof {
                let n = start.conds@.len() as int;
                lemma_push_distinct(start.cond_keys(), key);
                assert(usage.cond_keys() =~= start.cond_keys().push(key));
                assert(usage.cond_values() =~= start.cond_values().insert(n, counts));
                lemma_keyed_insert(start.cond_keys(), start.cond_values(), n, key, counts);
            }
        },
    }
    proof {
        assert(usage.pattern_keys() =~= start.pattern_keys());
        assert(usage.pattern_values() =~= start.pattern_values());
    }
}

/// The values of a list of per-fingerprint rows.
pub open spec fn pattern_row_views(rows: Seq<ReusingPatternStats>) -> Seq<
    (Seq<u32>, PatternCounts),
> {
    Seq::new(rows.len(), |i: int| rows[i]@)
}

/// The values of a list of per-condition rows.
pub open spec fn cond_row_views(rows: Seq<CondStmtReusingStats>) -> Seq<(CondKey, CondCounts)> {
    Seq::new(rows.len(), |i: int| rows[i]@)
}

/// The rows stand in the order of the per-fingerprint report.
pub open spec fn pattern_rows_sorted(rows: Seq<ReusingPatternStats>) -> bool {
    ordered(
        pattern_row_views(rows),
        |a: (Seq<u32>, PatternCounts), b: (Seq<u32>, PatternCounts)| pattern_row_before(a, b),
    )
}

/// The rows stand in the order of the per-condition report.
pub open spec fn cond_rows_sorted(rows: Seq<CondStmtReusingStats>) -> bool {
    ordered(
        cond_row_views(rows),
        |a: (CondKey, CondCounts), b: (CondKey, CondCounts)| cond_row_before(a, b),
    )
}

/// The report order of fingerprints is transitive, and of two rows with
/// different fingerprints exactly one stands before the other.
pub proof fn lemma_pattern_row_order(
    a: (Seq<u32>, PatternCounts),
    b: (Seq<u32>, PatternCounts),
    c: (Seq<u32>, PatternCounts),
)
    ensures
        pattern_row_before(a, b) && pattern_row_before(b, c) ==> pattern_row_before(a, c),
        a.0 != b.0 ==> pattern_row_before(a, b) || pattern_row_before(b, a),
        !(pattern_row_before(a, b) && pattern_row_before(b, a)),
{
    if lex_less(a.0, b.0) && lex_less(b.0, c.0) {
        lemma_lex_transitive(a.0, b.0, c.0);
    }
    lemma_lex_total(a.0, b.0);
    if lex_less(a.0, b.0) {
        lemma_lex_asymmetric(a.0, b.0);
    }
}

/// The report order of conditions is transitive, and of two rows with
/// different identities exactly one stands before the other.
pub proof fn lemma_cond_row_order(
    a: (CondKey, CondCounts),
    b: (CondKey, CondCounts),
    c: (CondKey, CondCounts),
)
    ensures
        cond_row_before(a, b) && cond_row_before(b, c) ==> cond_row_before(a, c),
        a.0 != b.0 ==> cond_row_before(a, b) || cond_row_before(b, a),
        !(cond_row_before(a, b) && cond_row_before(b, a)),
{
}

/// Puts a row into rows that stand in report order, at its place.
fn place_pattern_row(rows: &mut Vec<ReusingPatternStats>, row: ReusingPatternStats) -> (p: usize)
    requires
        pattern_rows_sorted(old(rows)@),
        forall|q: int| 0 <= q < old(rows)@.len() ==> (#[trigger] old(rows)@[q]).pattern@ != row.pattern@,
    ensures
        pattern_rows_sorted(final(rows)@),
        p <= old(rows)@.len(),
        final(rows)@ == old(rows)@.insert(p as int, row),
{
    let mut p: usize = 0;
    while p < rows.len() && pattern_row_precedes(&rows[p], &row)
        invariant
            *rows == *old(rows),
            p <= rows@.len(),
            forall|q: int| 0 <= q < p ==> pattern_row_before((#[trigger] rows@[q])@, row@),
        decreases rows@.len() - p,
    {
        p += 1;
    }
    let ghost views = pattern_row_views(rows@);
    let ghost order = |a: (Seq<u32>, PatternCounts), b: (Seq<u32>, PatternCounts)|
        pattern_row_before(a, b);
    proof {
        assert forall|q: int| 0 <= q < p implies order(#[trigger] views[q], row@) by {
            assert(pattern_row_before(rows@[q]@, row@));
        }
        assert forall|q: int| p <= q < views.len() implies order(row@, #[trigger] views[q]) by {
            assert(rows@[p as int].pattern@ != row.pattern@);
            if q > p {
                assert(order(views[p as int], views[q]));
            }
            lemma_pattern_row_order(row@, views[p as int], views[q]);
        }
        lemma_ordered_insert(views, order, p as int, row@);
    }
    rows.insert(p, row);
    assert(pattern_row_views(rows@) =~= views.insert(p as int, row@));
    p
}

/// Puts a row into rows that stand in report order, at its place.
fn place_cond_row(rows: &mut Vec<CondStmtReusingStats>, row: CondStmtReusingStats) -> (p: usize)
    requires
        cond_rows_sorted(old(rows)@),
        forall|q: int| 0 <= q < old(rows)@.len() ==> (#[trigger] old(rows)@[q]).key != row.key,
    ensures
        cond_rows_sorted(final(rows)@),
        p <= old(rows)@.len(),
        final(rows)@ == old(rows)@.insert(p as int, row),
{
    let mut p: usize = 0;
    while p < rows.len() && cond_row_precedes(&rows[p], &row)
        invariant
            *rows == *old(rows),
            p <= rows@.len(),
            forall|q: int| 0 <= q < p ==> cond_row_before((#[trigger] rows@[q])@, row@),
        decreases rows@.len() - p,
    {
        p += 1;
    }
    let ghost views = cond_row_views(rows@);
    let ghost order = |a: (CondKey, CondCounts), b: (CondKey, CondCounts)| cond_row_before(a, b);
    proof {
        assert forall|q: int| 0 <= q < p implies order(#[trigger] views[q], row@) by {
            assert(cond_row_before(rows@[q]@, row@));
        }
        assert forall|q: int| p <= q < views.len() implies order(row@, #[trigger] views[q]) by {
            assert(rows@[p as int].key != row.key);
            if q > p {
                assert(order(views[p as int], views[q]));
            }
            lemma_cond_row_order(row@, views[p as int], views[q]);
        }
        lemma_ordered_insert(views, order, p as int, row@);
    }
    rows.insert(p, row);
    assert(cond_row_views(rows@) =~= views.insert(p as int, row@));
    p
}

impl UsageStats {
    /// The rows of the per-fingerprint report, one for every fingerprint
    /// that was tried: those with more successes first, and among equal
    /// successes the lexicographically smaller fingerprint first.
    pub fn pattern_rows(&self) -> (rows: Vec<ReusingPatternStats>)
        requires
            self.wf(),
        ensures
            rows@.len() == self.pattern_view().dom().len(),
            forall|j: int|
                0 <= j < rows@.len() ==> self.pattern_view().dom().contains(
                    (#[trigger] rows@[j]).pattern@,
                ) && self.pattern_view()[rows@[j].pattern@] == rows@[j].counts,
            forall|fp: Seq<u32>| #[trigger]
                self.pattern_view().dom().contains(fp) ==> exists|j: int|
                    0 <= j < rows@.len() && (#[trigger] rows@[j]).pattern@ == fp,
            pattern_rows_sorted(rows@),
    {
        let mut rows: Vec<ReusingPatternStats> = Vec::new();
        let mut i: usize = 0;
        let ghost src = pattern_row_views(self.patterns@);
        assert(pattern_row_views(rows@) =~= src.take(0));
        while i < self.patterns.len()
            invariant
                i <= self.patterns@.len(),
                self.wf(),
                src == pattern_row_views(self.patterns@),
                arranges(pattern_row_views(rows@), src.take(i as int)),
                pattern_rows_sorted(rows@),
            decreases self.patterns.len() - i,
        {
            let row = copy_pattern_row(&self.patterns[i]);
            let ghost before = rows@;
            proof {
                assert forall|q: int| 0 <= q < rows@.len() implies (#[trigger] rows@[q]).pattern@
                    != row.pattern@ by {
                    let v = pattern_row_views(rows@)[q];
                    assert(src.take(i as int).contains(v));
                    let k = src.take(i as int).index_of(v);
                    assert(src[k] == v);
                    assert(self.pattern_keys()[k] != self.pattern_keys()[i as int]);
                }
            }
            let p = place_pattern_row(&mut rows, row);
            proof {
                assert(pattern_row_views(rows@) =~= pattern_row_views(before).insert(
                    p as int,
                    src[i as int],
                ));
                lemma_arranges_insert(
                    pattern_row_views(before),
                    src.take(i as int),
                    p as int,
                    src[i as int],
                );
                assert(src.take(i + 1) =~= src.take(i as int).push(src[i as int]));
            }
            i += 1;
        }
        proof {
            assert(src.take(i as int) =~= src);
            let views = pattern_row_views(rows@);
            self.pattern_keys().unique_seq_to_set();
            assert(self.pattern_view().dom() =~= self.pattern_keys().to_set());
            assert forall|j: int| 0 <= j < rows@.len() implies self.pattern_view().dom().contains(
                (#[trigger] rows@[j]).pattern@,
            ) && self.pattern_view()[rows@[j].pattern@] == rows@[j].counts by {
                assert(src.contains(views[j]));
                let k = src.index_of(views[j]);
                assert(src[k] == rows@[j]@);
                assert(self.pattern_keys()[k] == rows@[j].pattern@);
                lemma_index_of(self.pattern_keys(), k);
            }
            assert forall|fp: Seq<u32>| #[trigger]
                self.pattern_view().dom().contains(fp) implies exists|j: int|
                0 <= j < rows@.len() && (#[trigger] rows@[j]).pattern@ == fp by {
                let k = self.pattern_keys().index_of(fp);
                assert(0 <= k < self.pattern_keys().len() && self.pattern_keys()[k] == fp);
                assert(views.contains(src[k]));
                let j = views.index_of(src[k]);
                assert(rows@[j]@ == src[k]);
                assert(rows@[j].pattern@ == fp);
            }
        }
        rows
    }

    /// The rows of the per-condition report, one for every condition that
    /// was tried: those with more candidates tried first, and among equal
    /// numbers the smaller identity first.
    pub fn cond_rows(&self) -> (rows: Vec<CondStmtReusingStats>)
        requires
            self.wf(),
        ensures
            rows@.len() == self.cond_view().dom().len(),
            forall|j: int|
                0 <= j < rows@.len() ==> self.cond_view().dom().contains((#[trigger] rows@[j]).key)
                    && self.cond_view()[rows@[j].key] == rows@[j]@.1,
            forall|key: CondKey| #[trigger]
                self.cond_view().dom().contains(key) ==> exists|j: int|
                    0 <= j < rows@.len() && (#[trigger] rows@[j]).key == key,
            cond_rows_sorted(rows@),
    {
        let mut rows: Vec<CondStmtReusingStats> = Vec::new();
        let mut i: usize = 0;
        let ghost src = cond_row_views(self.conds@);
        assert(cond_row_views(rows@) =~= src.take(0));
        while i < self.conds.len()
            invariant
                i <= self.conds@.len(),
                self.wf(),
                src == cond_row_views(self.conds@),
                arranges(cond_row_views(rows@), src.take(i as int)),
                cond_rows_sorted(rows@),
            decreases self.conds.len() - i,
        {
            let row = copy_cond_row(&self.conds[i]);
            let ghost before = rows@;
            proof {
                assert forall|q: int| 0 <= q < rows@.len() implies (#[trigger] rows@[q]).key
                    != row.key by {
                    let v = cond_row_views(rows@)[q];
                    assert(src.take(i as int).contains(v));
                    let k = src.take(i as int).index_of(v);
                    assert(src[k] == v);
                    assert(self.cond_keys()[k] != self.cond_keys()[i as int]);
                }
            }
            let p = place_cond_row(&mut rows, row);
            proof {
                assert(cond_row_views(rows@) =~= cond_row_views(before).insert(
                    p as int,
                    src[i as int],
                ));
                lemma_arranges_insert(
                    cond_row_views(before),
                    src.take(i as int),
                    p as int,
                    src[i as int],
                );
                assert(src.take(i + 1) =~= src.take(i as int).push(src[i as int]));
            }
            i += 1;
        }
        proof {
            assert(src.take(i as int) =~= src);
            let views = cond_row_views(rows@);
            self.cond_keys().unique_seq_to_set();
            assert(self.cond_view().dom() =~= self.cond_keys().to_set());
            assert forall|j: int| 0 <= j < rows@.len() implies self.cond_view().dom().contains(
                (#[trigger] rows@[j]).key,
            ) && self.cond_view()[rows@[j].key] == rows@[j]@.1 by {
                assert(src.contains(views[j]));
                let k = src.index_of(views[j]);
                assert(src[k] == rows@[j]@);
                assert(self.cond_keys()[k] == rows@[j].key);
                lemma_index_of(self.cond_keys(), k);
            }
            assert forall|key: CondKey| #[trigger]
                self.cond_view().dom().contains(key) implies exists|j: int|
                0 <= j < rows@.len() && (#[trigger] rows@[j]).key == key by {
                let k = self.cond_keys().index_of(key);
                assert(0 <= k < self.cond_keys().len() && self.cond_keys()[k] == key);
                assert(views.contains(src[k]));
                let j = views.index_of(src[k]);
                assert(rows@[j]@ == src[k]);
                assert(rows@[j].key == key);
            }
        }
        rows
    }
}

} // verus!
