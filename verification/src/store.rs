//! The pattern store: for every fingerprint the values that were seen to
//! occupy segments of that shape, in the order in which they were first seen.

use crate::cond::{CondStmt, CondView, Origin};
use crate::count::{add_clamped, clamped, lemma_clamped_sum};
use crate::keyed::{keyed, lemma_index_of, lemma_keyed_insert, lemma_keyed_update};
use crate::order::{
    lemma_ascending_distinct, lemma_lex_asymmetric, lemma_lex_transitive, lex_less, rank_patterns,
    strictly_ascending, Rank,
};
use crate::segment::{
    all_wf, extract_pattern_merged, extract_value_from_label, extracted_values, fingerprint,
    lemma_bytes_deep_view, lemma_merged_basics, merge_continuous_segments, merged, TagSeg,
};
use vstd::prelude::*;

verus! {

/// One observation: the values that the merged segments of `offsets` held in
/// the input `belong` when condition `cmpid` executed.
#[derive(Clone, Debug, PartialEq, Eq)]
pub struct CondRecord {
    pub cmpid: u32,
    pub belong: u32,
    pub offsets: Vec<TagSeg>,
    pub critical_values: Vec<Vec<u8>>,
}

/// The mathematical value of a record.
pub struct RecordView {
    pub cmpid: u32,
    pub belong: u32,
    pub offsets: Seq<TagSeg>,
    pub critical_values: Seq<Seq<u8>>,
}

impl View for CondRecord {
    type V = RecordView;

    open spec fn view(&self) -> RecordView {
        RecordView {
            cmpid: self.cmpid,
            belong: self.belong,
            offsets: self.offsets@,
            critical_values: self.critical_values.deep_view(),
        }
    }
}

/// The values of a list of records.
pub open spec fn records_view(records: Seq<CondRecord>) -> Seq<RecordView> {
    Seq::new(records.len(), |i: int| records[i]@)
}

/// What a store holds: for each fingerprint that has records, its records in
/// insertion order.
pub type StoreMap = Map<Seq<u32>, Seq<RecordView>>;

/// The records under a fingerprint; none where the store does not know it.
pub open spec fn records_of(m: StoreMap, fp: Seq<u32>) -> Seq<RecordView> {
    if m.dom().contains(fp) {
        m[fp]
    } else {
        Seq::empty()
    }
}

/// Some record of the list holds exactly these values.
pub open spec fn has_values(records: Seq<RecordView>, values: Seq<Seq<u8>>) -> bool {
    exists|i: int| 0 <= i < records.len() && (#[trigger] records[i]).critical_values == values
}

/// No two records of the list hold the same values.
pub open spec fn distinct_values(records: Seq<RecordView>) -> bool {
    forall|i: int, j: int|
        0 <= i < j < records.len() ==> (#[trigger] records[i]).critical_values
            != (#[trigger] records[j]).critical_values
}

/// How many records of the list hold exactly these values.
pub open spec fn count_values(records: Seq<RecordView>, values: Seq<Seq<u8>>) -> nat
    decreases records.len(),
{
    if records.len() == 0 {
        0
    } else {
        count_values(records.drop_last(), values) + if records.last().critical_values == values {
            1nat
        } else {
            0nat
        }
    }
}

/// The store after a record is offered under a fingerprint: the record is
/// appended to the fingerprint's list unless a record with the same values
/// is already there, in which case nothing changes.
pub open spec fn added(m: StoreMap, fp: Seq<u32>, r: RecordView) -> StoreMap {
    if has_values(records_of(m, fp), r.critical_values) {
        m
    } else {
        m.insert(fp, records_of(m, fp).push(r))
    }
}

/// The record of an observation: where it comes from, the taint offsets it
/// was taken at, and the values found there.
pub open spec fn recorded(origin: Origin, offsets: Seq<TagSeg>, values: Seq<Seq<u8>>) -> RecordView {
    RecordView {
        cmpid: origin.cmpid,
        belong: origin.belong,
        offsets: offsets,
        critical_values: values,
    }
}

/// The store after the first `n` merged segments were each offered alone,
/// under the fingerprint that holds only that segment's length.
pub open spec fn with_singles(
    m: StoreMap,
    segs: Seq<TagSeg>,
    values: Seq<Seq<u8>>,
    origin: Origin,
    n: nat,
) -> StoreMap
    decreases n,
{
    if n == 0 {
        m
    } else {
        let i = n - 1;
        added(
            with_singles(m, segs, values, origin, i as nat),
            seq![segs[i].span()],
            recorded(origin, seq![segs[i]], seq![values[i]]),
        )
    }
}

/// The store after the taint offsets of one operand were harvested from a
/// buffer. Nothing happens for an empty list. Otherwise the values of the
/// merged segments are offered under the list's fingerprint, and where the
/// fingerprint has two or more segments, each merged segment is then offered
/// alone as well, in order.
pub open spec fn with_offsets(
    m: StoreMap,
    offsets: Seq<TagSeg>,
    buf: Seq<u8>,
    origin: Origin,
) -> StoreMap {
    if offsets.len() == 0 {
        m
    } else {
        let segs = merged(offsets);
        let values = extracted_values(offsets, buf);
        let whole = added(m, fingerprint(offsets), recorded(origin, offsets, values));
        if segs.len() > 1 {
            with_singles(whole, segs, values, origin, segs.len())
        } else {
            whole
        }
    }
}

/// The store after a condition was harvested: first its primary offsets,
/// then its secondary ones. A condition without taint offsets changes
/// nothing.
pub open spec fn with_cond(
    m: StoreMap,
    primary: Seq<TagSeg>,
    secondary: Seq<TagSeg>,
    buf: Seq<u8>,
    origin: Origin,
) -> StoreMap {
    with_offsets(with_offsets(m, primary, buf, origin), secondary, buf, origin)
}

/// Some given byte offset lies in some given segment.
pub open spec fn overlaps(segs: Seq<TagSeg>, mutated: Seq<usize>) -> bool {
    exists|i: int, j: int|
        0 <= i < segs.len() && 0 <= j < mutated.len() && (#[trigger] segs[i]).covers(
            #[trigger] mutated[j] as int,
        )
}

/// Whether a harvest filtered by the mutated byte offsets takes place: an
/// empty set of offsets filters nothing; otherwise one of the condition's
/// taint segments, primary or secondary, must hold a mutated byte.
pub open spec fn passes_filter(
    primary: Seq<TagSeg>,
    secondary: Seq<TagSeg>,
    mutated: Seq<usize>,
) -> bool {
    mutated.len() == 0 || overlaps(primary, mutated) || overlaps(secondary, mutated)
}

/// The number of records under the listed fingerprints.
pub open spec fn record_total(patterns: Seq<Seq<u32>>, m: StoreMap) -> nat
    decreases patterns.len(),
{
    if patterns.len() == 0 {
        0
    } else {
        record_total(patterns.drop_last(), m) + records_of(m, patterns.last()).len()
    }
}

/// What a condition gets when it asks for up to `count` records it has not
/// yet replayed: nothing once its cursor has reached the end of the list;
/// otherwise the records from the cursor on, at most `count` of them, and the
/// position after the last of them as the new cursor.
pub open spec fn next_batch(records: Seq<RecordView>, cursor: int, count: int) -> Option<
    (Seq<RecordView>, int),
> {
    if cursor >= records.len() {
        None
    } else {
        let end = if cursor + count < records.len() {
            cursor + count
        } else {
            records.len() as int
        };
        Some((records.subrange(cursor, end), end))
    }
}

/// All the records a condition gets when it keeps asking for `count` more
/// from cursor position `cursor` until it gets nothing.
pub open spec fn drained(records: Seq<RecordView>, cursor: int, count: int) -> Seq<RecordView>
    decreases records.len() - cursor,
{
    if count <= 0 || cursor < 0 {
        Seq::empty()
    } else {
        match next_batch(records, cursor, count) {
            None => Seq::empty(),
            Some((batch, end)) => batch + drained(records, end, count),
        }
    }
}

/// Offering the same values twice under one fingerprint stores them once:
/// the second offer changes nothing, whatever origin it names, and where the
/// fingerprint's list held no values twice before, as every list of a store
/// does, exactly one of its records holds the values afterwards.
pub proof fn lemma_add_idempotent(m: StoreMap, fp: Seq<u32>, first: RecordView, second: RecordView)
    requires
        first.critical_values == second.critical_values,
    ensures
        added(added(m, fp, first), fp, second) == added(m, fp, first),
        has_values(records_of(added(m, fp, first), fp), first.critical_values),
        distinct_values(records_of(m, fp)) ==> distinct_values(
            records_of(added(added(m, fp, first), fp, second), fp),
        ) && count_values(
            records_of(added(added(m, fp, first), fp, second), fp),
            first.critical_values,
        ) == 1,
{
    let before = records_of(m, fp);
    let once = added(m, fp, first);
    if !has_values(before, first.critical_values) {
        let list = before.push(first);
        assert(records_of(once, fp) == list);
        assert(list[list.len() - 1].critical_values == first.critical_values);
        assert(list.drop_last() =~= before);
        if distinct_values(before) {
            assert forall|i: int, j: int| 0 <= i < j < list.len() implies (
            #[trigger] list[i]).critical_values != (#[trigger] list[j]).critical_values by {
                if j < before.len() {
                    assert(before[i].critical_values != before[j].critical_values);
                } else {
                    assert(before[i].critical_values != first.critical_values);
                }
            }
        }
    }
    lemma_count_positive(records_of(once, fp), first.critical_values);
    if distinct_values(before) {
        lemma_count_distinct(records_of(once, fp), first.critical_values);
    }
}

/// A list that holds no values twice holds any values at most once.
pub proof fn lemma_count_distinct(records: Seq<RecordView>, values: Seq<Seq<u8>>)
    requires
        distinct_values(records),
    ensures
        count_values(records, values) <= 1,
    decreases records.len(),
{
    if records.len() > 0 {
        let front = records.drop_last();
        assert(distinct_values(front)) by {
            assert forall|i: int, j: int| 0 <= i < j < front.len() implies (
            #[trigger] front[i]).critical_values != (#[trigger] front[j]).critical_values by {
                assert(records[i].critical_values != records[j].critical_values);
            }
        }
        lemma_count_distinct(front, values);
        if records.last().critical_values == values {
            lemma_count_positive(front, values);
            if has_values(front, values) {
                let i = choose|i: int|
                    0 <= i < front.len() && (#[trigger] front[i]).critical_values == values;
                assert(records[i].critical_values != records[records.len() - 1].critical_values);
            }
        }
    }
}

/// A list holds some values exactly when it holds them at least once.
pub proof fn lemma_count_positive(records: Seq<RecordView>, values: Seq<Seq<u8>>)
    ensures
        has_values(records, values) <==> count_values(records, values) > 0,
    decreases records.len(),
{
    if records.len() > 0 {
        let front = records.drop_last();
        lemma_count_positive(front, values);
        if has_values(records, values) {
            let i = choose|i: int|
                0 <= i < records.len() && (#[trigger] records[i]).critical_values == values;
            if i < front.len() {
                assert(front[i].critical_values == values);
            }
        }
        if has_values(front, values) {
            let i = choose|i: int|
                0 <= i < front.len() && (#[trigger] front[i]).critical_values == values;
            assert(records[i].critical_values == values);
        }
        if records.last().critical_values == values {
            assert(records[records.len() - 1].critical_values == values);
        }
    }
}

proof fn lemma_drained(records: Seq<RecordView>, cursor: int, count: int)
    requires
        0 <= cursor <= records.len(),
        count > 0,
    ensures
        drained(records, cursor, count) == records.skip(cursor),
    decreases records.len() - cursor,
{
    if cursor < records.len() {
        let end = if cursor + count < records.len() {
            cursor + count
        } else {
            records.len() as int
        };
        lemma_drained(records, end, count);
        assert(records.subrange(cursor, end) + records.skip(end) =~= records.skip(cursor));
    } else {
        assert(records.skip(cursor) =~= Seq::<RecordView>::empty());
    }
}

/// Asking again and again with the same positive count visits every record
/// from the cursor on exactly once and in insertion order; from a cursor at
/// the start that is the whole list. Once the cursor stands at the end, the
/// next request gets nothing.
pub proof fn lemma_resumable(records: Seq<RecordView>, cursor: int, count: int)
    requires
        0 <= cursor <= records.len(),
        count > 0,
    ensures
        drained(records, cursor, count) == records.skip(cursor),
        drained(records, 0, count) == records,
        next_batch(records, records.len() as int, count) is None,
{
    lemma_drained(records, cursor, count);
    lemma_drained(records, 0, count);
    assert(records.skip(0) =~= records);
}

/// A record fits a fingerprint: its offsets have that fingerprint, and it
/// holds one value for every merged segment of its offsets, each as long as
/// the segment.
pub open spec fn fits(fp: Seq<u32>, r: RecordView) -> bool {
    &&& fingerprint(r.offsets) == fp
    &&& r.critical_values.len() == merged(r.offsets).len()
    &&& forall|k: int| 0 <= k < fp.len() ==> (#[trigger] r.critical_values[k]).len() == fp[k]
}

/// Every record of the store fits the fingerprint it stands under.
pub open spec fn all_fit(m: StoreMap) -> bool {
    forall|fp: Seq<u32>, i: int|
        m.dom().contains(fp) && 0 <= i < m[fp].len() ==> fits(fp, #[trigger] m[fp][i])
}

/// A store of fitting records stays one when a fitting record is offered.
pub proof fn lemma_added_fits(m: StoreMap, fp: Seq<u32>, r: RecordView)
    requires
        all_fit(m),
        fits(fp, r),
    ensures
        all_fit(added(m, fp, r)),
{
    let m2 = added(m, fp, r);
    assert forall|g: Seq<u32>, i: int| m2.dom().contains(g) && 0 <= i < m2[g].len() implies fits(
        g,
        #[trigger] m2[g][i],
    ) by {
        if m2 != m && g == fp {
            if i < records_of(m, fp).len() {
                assert(m2[g][i] == m[fp][i]);
            }
        } else {
            assert(m2[g][i] == m[g][i]);
        }
    }
}

proof fn lemma_singles_fit(
    m: StoreMap,
    segs: Seq<TagSeg>,
    buf: Seq<u8>,
    origin: Origin,
    n: nat,
)
    requires
        all_fit(m),
        all_wf(segs),
        n <= segs.len(),
    ensures
        all_fit(with_singles(m, segs, crate::segment::values_of(segs, buf), origin, n)),
    decreases n,
{
    if n > 0 {
        let i = n - 1;
        let values = crate::segment::values_of(segs, buf);
        lemma_singles_fit(m, segs, buf, origin, i as nat);
        let r = recorded(origin, seq![segs[i]], seq![values[i]]);
        assert(fits(seq![segs[i].span()], r)) by {
            let one = seq![segs[i]];
            assert(one.drop_last() =~= Seq::<TagSeg>::empty());
            assert(merged(one.drop_last()) =~= Seq::<TagSeg>::empty());
            assert(merged(one) =~= one);
            assert(fingerprint(one) =~= seq![segs[i].span()]);
            assert(segs[i].wf());
        }
        lemma_added_fits(
            with_singles(m, segs, values, origin, i as nat),
            seq![segs[i].span()],
            r,
        );
    }
}

/// Only fitting records come from a harvest: if every record of the store
/// fits its fingerprint before the taint offsets of an operand are harvested,
/// every record does so afterwards.
pub proof fn lemma_harvest_fits(m: StoreMap, offsets: Seq<TagSeg>, buf: Seq<u8>, origin: Origin)
    requires
        all_fit(m),
        all_wf(offsets),
    ensures
        all_fit(with_offsets(m, offsets, buf, origin)),
{
    if offsets.len() > 0 {
        let segs = merged(offsets);
        let values = extracted_values(offsets, buf);
        lemma_merged_basics(offsets);
        let whole = recorded(origin, offsets, values);
        assert(fits(fingerprint(offsets), whole)) by {
            assert forall|k: int| 0 <= k < fingerprint(offsets).len() implies (
            #[trigger] whole.critical_values[k]).len() == fingerprint(offsets)[k] by {
                assert(segs[k].wf());
            }
        }
        lemma_added_fits(m, fingerprint(offsets), whole);
        lemma_singles_fit(added(m, fingerprint(offsets), whole), segs, buf, origin, segs.len());
    }
}

/// Only fitting records come from the harvest of a condition.
pub proof fn lemma_cond_harvest_fits(
    m: StoreMap,
    primary: Seq<TagSeg>,
    secondary: Seq<TagSeg>,
    buf: Seq<u8>,
    origin: Origin,
)
    requires
        all_fit(m),
        all_wf(primary),
        all_wf(secondary),
    ensures
        all_fit(with_cond(m, primary, secondary, buf, origin)),
{
    lemma_harvest_fits(m, primary, buf, origin);
    lemma_harvest_fits(with_offsets(m, primary, buf, origin), secondary, buf, origin);
}

/// Copies a byte vector.
pub fn copy_bytes(v: &Vec<u8>) -> (out: Vec<u8>)
    ensures
        out@ == v@,
{
    let mut out: Vec<u8> = Vec::new();
    let mut i: usize = 0;
    while i < v.len()
        invariant
            i <= v.len(),
            out@ == v@.take(i as int),
        decreases v.len() - i,
    {
        out.push(v[i]);
        assert(out@ =~= v@.take(i + 1));
        i += 1;
    }
    assert(v@.take(i as int) =~= v@);
    out
}

/// Copies a list of values.
pub fn copy_values(v: &Vec<Vec<u8>>) -> (out: Vec<Vec<u8>>)
    ensures
        out.deep_view() == v.deep_view(),
{
    let mut out: Vec<Vec<u8>> = Vec::new();
    let mut i: usize = 0;
    while i < v.len()
        invariant
            i <= v.len(),
            out@.len() == i,
            forall|k: int| 0 <= k < i ==> (#[trigger] out@[k])@ == v@[k]@,
        decreases v.len() - i,
    {
        out.push(copy_bytes(&v[i]));
        i += 1;
    }
    proof {
        assert forall|k: int| 0 <= k < v@.len() implies #[trigger] out.deep_view()[k]
            == v.deep_view()[k] by {
            lemma_bytes_deep_view(out@[k]);
            lemma_bytes_deep_view(v@[k]);
        }
        assert(out.deep_view() =~= v.deep_view());
    }
    out
}

/// Copies a segment list.
pub fn copy_segments(v: &Vec<TagSeg>) -> (out: Vec<TagSeg>)
    ensures
        out@ == v@,
{
    let mut out: Vec<TagSeg> = Vec::new();
    let mut i: usize = 0;
    while i < v.len()
        invariant
            i <= v.len(),
            out@ == v@.take(i as int),
        decreases v.len() - i,
    {
        out.push(v[i]);
        assert(out@ =~= v@.take(i + 1));
        i += 1;
    }
    assert(v@.take(i as int) =~= v@);
    out
}

/// Copies a fingerprint.
pub fn copy_pattern(v: &Vec<u32>) -> (out: Vec<u32>)
    ensures
        out@ == v@,
{
    let mut out: Vec<u32> = Vec::new();
    let mut i: usize = 0;
    while i < v.len()
        invariant
            i <= v.len(),
            out@ == v@.take(i as int),
        decreases v.len() - i,
    {
        out.push(v[i]);
        assert(out@ =~= v@.take(i + 1));
        i += 1;
    }
    assert(v@.take(i as int) =~= v@);
    out
}

/// Copies a record.
pub fn copy_record(r: &CondRecord) -> (out: CondRecord)
    ensures
        out@ == r@,
{
    CondRecord {
        cmpid: r.cmpid,
        belong: r.belong,
        offsets: copy_segments(&r.offsets),
        critical_values: copy_values(&r.critical_values),
    }
}

/// Makes the record of an observation.
pub fn make_record(origin: Origin, offsets: &Vec<TagSeg>, values: &Vec<Vec<u8>>) -> (out:
    CondRecord)
    ensures
        out@ == recorded(origin, offsets@, values.deep_view()),
{
    CondRecord {
        cmpid: origin.cmpid,
        belong: origin.belong,
        offsets: copy_segments(offsets),
        critical_values: copy_values(values),
    }
}

/// Whether two byte vectors hold the same bytes.
pub fn bytes_equal(a: &Vec<u8>, b: &Vec<u8>) -> (eq: bool)
    ensures
        eq == (a@ == b@),
{
    if a.len() != b.len() {
        return false;
    }
    let mut i: usize = 0;
    while i < a.len()
        invariant
            i <= a.len(),
            a.len() == b.len(),
            a@.take(i as int) == b@.take(i as int),
        decreases a.len() - i,
    {
        if a[i] != b[i] {
            return false;
        }
        assert(a@.take(i + 1) =~= a@.take(i as int).push(a@[i as int]));
        assert(b@.take(i + 1) =~= b@.take(i as int).push(b@[i as int]));
        i += 1;
    }
    assert(a@.take(i as int) =~= a@);
    assert(b@.take(i as int) =~= b@);
    true
}

/// Whether two lists of values are equal, value by value.
pub fn values_equal(a: &Vec<Vec<u8>>, b: &Vec<Vec<u8>>) -> (eq: bool)
    ensures
        eq == (a.deep_view() == b.deep_view()),
{
    if a.len() != b.len() {
        assert(a.deep_view().len() != b.deep_view().len());
        return false;
    }
    let mut i: usize = 0;
    while i < a.len()
        invariant
            i <= a.len(),
            a.len() == b.len(),
            forall|k: int| 0 <= k < i ==> (#[trigger] a@[k])@ == b@[k]@,
        decreases a.len() - i,
    {
        if !bytes_equal(&a[i], &b[i]) {
            proof {
                lemma_bytes_deep_view(a@[i as int]);
                lemma_bytes_deep_view(b@[i as int]);
                assert(a.deep_view()[i as int] != b.deep_view()[i as int]);
            }
            return false;
        }
        i += 1;
    }
    proof {
        assert forall|k: int| 0 <= k < a@.len() implies #[trigger] a.deep_view()[k]
            == b.deep_view()[k] by {
            lemma_bytes_deep_view(a@[k]);
            lemma_bytes_deep_view(b@[k]);
        }
        assert(a.deep_view() =~= b.deep_view());
    }
    true
}

/// Whether one of the byte offsets lies in one of the segments.
pub fn touches(segs: &Vec<TagSeg>, mutated: &Vec<usize>) -> (hit: bool)
    ensures
        hit == overlaps(segs@, mutated@),
{
    let mut i: usize = 0;
    while i < segs.len()
        invariant
            i <= segs.len(),
            forall|a: int, b: int|
                0 <= a < i && 0 <= b < mutated@.len() ==> !(#[trigger] segs@[a]).covers(
                    #[trigger] mutated@[b] as int,
                ),
        decreases segs.len() - i,
    {
        let seg = segs[i];
        let mut j: usize = 0;
        while j < mutated.len()
            invariant
                j <= mutated.len(),
                i < segs.len(),
                seg == segs@[i as int],
                forall|b: int| 0 <= b < j ==> !seg.covers(#[trigger] mutated@[b] as int),
            decreases mutated.len() - j,
        {
            let o = mutated[j];
            if seg.begin as usize <= o && o < seg.end as usize {
                assert(segs@[i as int].covers(mutated@[j as int] as int));
                return true;
            }
            j += 1;
        }
        i += 1;
    }
    false
}

struct Bucket {
    pattern: Vec<u32>,
    records: Vec<CondRecord>,
}

/// The pattern store. It only grows: records are appended, never changed or
/// removed, and no fingerprint's list holds the same values twice.
pub struct PatternStore {
    buckets: Vec<Bucket>,
}

impl PatternStore {
    /// The fingerprints that have records, in ascending lexicographic
    /// order.
    pub closed spec fn patterns(&self) -> Seq<Seq<u32>> {
        Seq::new(self.buckets@.len(), |i: int| self.buckets@[i].pattern@)
    }

    spec fn lists(&self) -> Seq<Seq<RecordView>> {
        Seq::new(self.buckets@.len(), |i: int| records_view(self.buckets@[i].records@))
    }

    /// The records of every fingerprint, in insertion order.
    pub closed spec fn view(&self) -> StoreMap {
        keyed(self.patterns(), self.lists())
    }

    /// The store's invariant: its fingerprints are listed in strictly
    /// ascending order, each has at least one record, and no list holds the
    /// same values twice.
    pub closed spec fn wf(&self) -> bool {
        &&& strictly_ascending(self.patterns())
        &&& forall|i: int|
            0 <= i < self.buckets@.len() ==> (#[trigger] self.lists()[i]).len() > 0
                && distinct_values(self.lists()[i])
    }

    /// What the invariant says of the store's value: `patterns` lists the
    /// fingerprints that have records, each once and in ascending order; every
    /// list is non-empty and free of repeated values.
    pub proof fn lemma_wf(&self)
        requires
            self.wf(),
        ensures
            strictly_ascending(self.patterns()),
            self.patterns().no_duplicates(),
            self@.dom() == self.patterns().to_set(),
            self@.dom().finite(),
            self@.dom().len() == self.patterns().len(),
            forall|fp: Seq<u32>|
                self@.dom().contains(fp) ==> (#[trigger] self@[fp]).len() > 0 && distinct_values(
                    self@[fp],
                ),
    {
        lemma_ascending_distinct(self.patterns());
        assert(self@.dom() =~= self.patterns().to_set());
        self.patterns().unique_seq_to_set();
        vstd::seq_lib::seq_to_set_is_finite(self.patterns());
        assert forall|fp: Seq<u32>| self@.dom().contains(fp) implies (#[trigger] self@[fp]).len()
            > 0 && distinct_values(self@[fp]) by {
            let j = self.patterns().index_of(fp);
            assert(0 <= j < self.patterns().len() && self.patterns()[j] == fp);
            assert(self@[fp] == self.lists()[j]);
        }
    }

    proof fn lemma_at(&self, i: int)
        requires
            self.wf(),
            0 <= i < self.buckets@.len(),
        ensures
            self@.dom().contains(self.buckets@[i].pattern@),
            self@[self.buckets@[i].pattern@] == records_view(self.buckets@[i].records@),
            records_of(self@, self.buckets@[i].pattern@) == records_view(self.buckets@[i].records@),
    {
        lemma_ascending_distinct(self.patterns());
        assert(self.patterns()[i] == self.buckets@[i].pattern@);
        lemma_index_of(self.patterns(), i);
    }

    /// An empty store.
    pub fn new() -> (store: PatternStore)
        ensures
            store.wf(),
            store@ == Map::<Seq<u32>, Seq<RecordView>>::empty(),
            store.patterns() == Seq::<Seq<u32>>::empty(),
    {
        let store = PatternStore { buckets: Vec::new() };
        assert(store@ =~= Map::<Seq<u32>, Seq<RecordView>>::empty());
        assert(store.patterns() =~= Seq::<Seq<u32>>::empty());
        store
    }

    /// Where a fingerprint stands in the listing: whether it is there, and
    /// the position at which it is or would have to be.
    fn locate(&self, pattern: &Vec<u32>) -> (r: (bool, usize))
        requires
            self.wf(),
        ensures
            r.1 <= self.buckets@.len(),
            forall|i: int| 0 <= i < r.1 ==> lex_less(#[trigger] self.patterns()[i], pattern@),
            r.0 ==> r.1 < self.buckets@.len() && self.patterns()[r.1 as int] == pattern@,
            !r.0 ==> forall|i: int|
                r.1 <= i < self.buckets@.len() ==> lex_less(pattern@, #[trigger] self.patterns()[i]),
            r.0 == self@.dom().contains(pattern@),
            r.0 == self.patterns().contains(pattern@),
    {
        let mut i: usize = 0;
        while i < self.buckets.len()
            invariant
                i <= self.buckets@.len(),
                self.wf(),
                forall|k: int| 0 <= k < i ==> lex_less(#[trigger] self.patterns()[k], pattern@),
            decreases self.buckets.len() - i,
        {
            let rank = rank_patterns(&self.buckets[i].pattern, pattern);
            assert(self.patterns()[i as int] == self.buckets@[i as int].pattern@);
            match rank {
                Rank::Before => {},
                Rank::Same => {
                    proof {
                        assert(self.patterns().contains(pattern@));
                    }
                    return (true, i);
                },
                Rank::After => {
                    proof {
                        assert forall|k: int| i <= k < self.buckets@.len() implies lex_less(
                            pattern@,
                            #[trigger] self.patterns()[k],
                        ) by {
                            if k > i {
                                lemma_lex_transitive(
                                    pattern@,
                                    self.patterns()[i as int],
                                    self.patterns()[k],
                                );
                            }
                        }
                        self.lemma_absent(pattern@, i as int);
                    }
                    return (false, i);
                },
            }
            i += 1;
        }
        proof {
            self.lemma_absent(pattern@, i as int);
        }
        (false, i)
    }

    proof fn lemma_absent(&self, fp: Seq<u32>, pos: int)
        requires
            0 <= pos <= self.buckets@.len(),
            forall|i: int| 0 <= i < pos ==> lex_less(#[trigger] self.patterns()[i], fp),
            forall|i: int|
                pos <= i < self.buckets@.len() ==> lex_less(fp, #[trigger] self.patterns()[i]),
        ensures
            !self.patterns().contains(fp),
            !self@.dom().contains(fp),
    {
        if self.patterns().contains(fp) {
            let j = self.patterns().index_of(fp);
            assert(0 <= j < self.patterns().len() && self.patterns()[j] == fp);
            if j < pos {
                lemma_lex_asymmetric(self.patterns()[j], fp);
            } else {
                lemma_lex_asymmetric(fp, self.patterns()[j]);
            }
        }
    }
}

/// Offers one record under a fingerprint. The record is appended to the
/// fingerprint's list unless the list already holds a record with exactly
/// these values; an existing record is never changed.
pub fn create_single_record(
    store: &mut PatternStore,
    pattern: &Vec<u32>,
    offsets: &Vec<TagSeg>,
    critical_values: &Vec<Vec<u8>>,
    cond: &CondStmt,
)
    requires
        old(store).wf(),
    ensures
        final(store).wf(),
        final(store)@ == added(
            old(store)@,
            pattern@,
            recorded(cond@.origin(), offsets@, critical_values.deep_view()),
        ),
{
    let ghost rv = recorded(cond@.origin(), offsets@, critical_values.deep_view());
    let (found, pos) = store.locate(pattern);
    if found {
        proof {
            store.lemma_at(pos as int);
        }
        let mut k: usize = 0;
        while k < store.buckets[pos].records.len()
            invariant
                *store == *old(store),
                store.wf(),
                rv == recorded(cond@.origin(), offsets@, critical_values.deep_view()),
                records_of(store@, pattern@) == records_view(
                    store.buckets@[pos as int].records@,
                ),
                pos < store.buckets@.len(),
                k <= store.buckets@[pos as int].records@.len(),
                forall|j: int|
                    0 <= j < k ==> (#[trigger] store.buckets@[pos as int].records@[j])@.critical_values
                        != critical_values.deep_view(),
            decreases store.buckets@[pos as int].records@.len() - k,
        {
            if values_equal(&store.buckets[pos].records[k].critical_values, critical_values) {
                proof {
                    let list = records_of(store@, pattern@);
                    assert(list[k as int].critical_values == rv.critical_values);
                }
                return ;
            }
            k += 1;
        }
        let record = make_record(cond.origin(), offsets, critical_values);
        let ghost before = *store;
        let ghost old_list = records_view(store.buckets@[pos as int].records@);
        proof {
            assert(!has_values(old_list, rv.critical_values)) by {
                if has_values(old_list, rv.critical_values) {
                    let j = choose|j: int|
                        0 <= j < old_list.len() && (#[trigger] old_list[j]).critical_values
                            == rv.critical_values;
                    assert(store.buckets@[pos as int].records@[j]@.critical_values
                        == rv.critical_values);
                }
            }
        }
        let mut bucket = store.buckets.remove(pos);
        bucket.records.push(record);
        store.buckets.insert(pos, bucket);
        proof {
            let new_list = old_list.push(rv);
            assert(records_view(store.buckets@[pos as int].records@) =~= new_list);
            assert(store.patterns() =~= before.patterns());
            assert(store.lists() =~= before.lists().update(pos as int, new_list));
            lemma_ascending_distinct(before.patterns());
            lemma_keyed_update(before.patterns(), before.lists(), pos as int, new_list);
            assert(before.lists()[pos as int] == old_list);
            assert(distinct_values(new_list)) by {
                assert forall|i: int, j: int| 0 <= i < j < new_list.len() implies (
                #[trigger] new_list[i]).critical_values != (
                #[trigger] new_list[j]).critical_values by {
                    if j < old_list.len() {
                        assert(old_list[i].critical_values != old_list[j].critical_values);
                    } else {
                        assert(old_list[i].critical_values != rv.critical_values);
                    }
                }
            }
            assert forall|i: int| 0 <= i < store.buckets@.len() implies (
            #[trigger] store.lists()[i]).len() > 0 && distinct_values(store.lists()[i]) by {
                if i != pos {
                    assert(store.lists()[i] == before.lists()[i]);
                }
            }
        }
    } else {
        let record = make_record(cond.origin(), offsets, critical_values);
        let mut records: Vec<CondRecord> = Vec::new();
        records.push(record);
        let bucket = Bucket { pattern: copy_pattern(pattern), records };
        let ghost before = *store;
        store.buckets.insert(pos, bucket);
        proof {
            let new_list = seq![rv];
            assert(records_view(store.buckets@[pos as int].records@) =~= new_list);
            assert(store.patterns() =~= before.patterns().insert(pos as int, pattern@));
            assert(store.lists() =~= before.lists().insert(pos as int, new_list));
            assert(strictly_ascending(store.patterns())) by {
                assert forall|i: int, j: int| 0 <= i < j < store.patterns().len() implies lex_less(
                    #[trigger] store.patterns()[i],
                    #[trigger] store.patterns()[j],
                ) by {
                    let a = if i < pos {
                        i
                    } else {
                        i - 1
                    };
                    let b = if j < pos {
                        j
                    } else {
                        j - 1
                    };
                    if i != pos && j != pos {
                        assert(lex_less(before.patterns()[a], before.patterns()[b]));
                    } else if i == pos {
                        assert(lex_less(pattern@, before.patterns()[b]));
                    } else {
                        assert(lex_less(before.patterns()[a], pattern@));
                    }
                }
            }
            lemma_ascending_distinct(before.patterns());
            lemma_ascending_distinct(store.patterns());
            lemma_keyed_insert(
                before.patterns(),
                before.lists(),
                pos as int,
                pattern@,
                new_list,
            );
            assert(records_of(before@, pattern@) =~= Seq::<RecordView>::empty());
            assert(seq![rv] =~= Seq::<RecordView>::empty().push(rv));
            assert forall|i: int| 0 <= i < store.buckets@.len() implies (
            #[trigger] store.lists()[i]).len() > 0 && distinct_values(store.lists()[i]) by {
                if i < pos {
                    assert(store.lists()[i] == before.lists()[i]);
                } else if i > pos {
                    assert(store.lists()[i] == before.lists()[i - 1]);
                }
            }
        }
    }
}

proof fn lemma_single_values(values: Vec<Vec<u8>>, i: int, single: Vec<Vec<u8>>)
    requires
        0 <= i < values@.len(),
        single@.len() == 1,
        single@[0]@ == values@[i]@,
    ensures
        single.deep_view() == seq![values.deep_view()[i]],
{
    lemma_bytes_deep_view(single@[0]);
    lemma_bytes_deep_view(values@[i]);
    assert(single.deep_view() =~= seq![values.deep_view()[i]]);
}

/// Harvests the taint offsets of one operand from the buffer they refer to.
/// For an empty list nothing happens. Otherwise the values of the merged
/// segments are offered under the list's fingerprint; where the fingerprint
/// has two or more segments, every merged segment is offered alone as well,
/// under the fingerprint made of its own length.
pub fn create_record_for_offsets(
    store: &mut PatternStore,
    offsets: &Vec<TagSeg>,
    cond: &CondStmt,
    input_buf: &Vec<u8>,
)
    requires
        old(store).wf(),
        all_wf(offsets@),
    ensures
        final(store).wf(),
        final(store)@ == with_offsets(old(store)@, offsets@, input_buf@, cond@.origin()),
{
    if offsets.len() == 0 {
        return ;
    }
    let merged_offsets = merge_continuous_segments(offsets);
    let pattern = extract_pattern_merged(offsets);
    let critical_values = extract_value_from_label(offsets, input_buf);
    proof {
        lemma_merged_basics(offsets@);
    }
    create_single_record(store, &pattern, offsets, &critical_values, cond);
    if merged_offsets.len() > 1 {
        let ghost whole = store@;
        assert(critical_values@.len() == merged_offsets@.len()) by {
            assert(critical_values.deep_view().len() == critical_values@.len());
        }
        let mut i: usize = 0;
        while i < merged_offsets.len()
            invariant
                i <= merged_offsets.len(),
                store.wf(),
                merged_offsets@ == merged(offsets@),
                all_wf(merged_offsets@),
                critical_values.deep_view() == extracted_values(offsets@, input_buf@),
                critical_values@.len() == merged_offsets@.len(),
                store@ == with_singles(
                    whole,
                    merged_offsets@,
                    critical_values.deep_view(),
                    cond@.origin(),
                    i as nat,
                ),
            decreases merged_offsets.len() - i,
        {
            let seg = merged_offsets[i];
            assert(merged_offsets@[i as int].wf());
            let mut single_segment: Vec<TagSeg> = Vec::new();
            single_segment.push(seg);
            let mut single_pattern: Vec<u32> = Vec::new();
            single_pattern.push(seg.end - seg.begin);
            let mut single_values: Vec<Vec<u8>> = Vec::new();
            single_values.push(copy_bytes(&critical_values[i]));
            proof {
                lemma_single_values(critical_values, i as int, single_values);
                assert(single_segment@ =~= seq![seg]);
                assert(single_pattern@ =~= seq![seg.span()]);
            }
            create_single_record(store, &single_pattern, &single_segment, &single_values, cond);
            i += 1;
        }
    }
}

/// Harvests a condition of which one operand is tainted.
pub fn add_single_label_record(store: &mut PatternStore, cond: &CondStmt, input_buf: &Vec<u8>)
    requires
        old(store).wf(),
        all_wf(cond.offsets@),
    ensures
        final(store).wf(),
        final(store)@ == with_offsets(old(store)@, cond.offsets@, input_buf@, cond@.origin()),
{
    create_record_for_offsets(store, &cond.offsets, cond, input_buf);
}

/// Harvests a condition of which both operands are tainted: the secondary
/// offsets are harvested after the primary ones and stand under their own
/// fingerprint. Without secondary offsets nothing happens.
pub fn add_dual_label_records(store: &mut PatternStore, cond: &CondStmt, input_buf: &Vec<u8>)
    requires
        old(store).wf(),
        all_wf(cond.offsets@),
        all_wf(cond.offsets_opt@),
    ensures
        final(store).wf(),
        final(store)@ == if cond.offsets_opt@.len() == 0 {
            old(store)@
        } else {
            with_cond(old(store)@, cond.offsets@, cond.offsets_opt@, input_buf@, cond@.origin())
        },
{
    if cond.offsets_opt.len() == 0 {
        return ;
    }
    create_record_for_offsets(store, &cond.offsets, cond, input_buf);
    create_record_for_offsets(store, &cond.offsets_opt, cond, input_buf);
}

/// Feeds the store with what a condition's taint offsets hold in the input
/// buffer: the primary offsets, and where the secondary operand is tainted
/// too, its offsets as a second observation of their own. A condition
/// without taint offsets leaves the store as it is.
pub fn add_cond_to_pattern_map(store: &mut PatternStore, cond: &CondStmt, input_buf: &Vec<u8>)
    requires
        old(store).wf(),
        all_wf(cond.offsets@),
        all_wf(cond.offsets_opt@),
    ensures
        final(store).wf(),
        final(store)@ == with_cond(
            old(store)@,
            cond.offsets@,
            cond.offsets_opt@,
            input_buf@,
            cond@.origin(),
        ),
{
    if cond.offsets_opt.len() == 0 {
        add_single_label_record(store, cond, input_buf);
    } else {
        add_dual_label_records(store, cond, input_buf);
    }
}

/// As `add_cond_to_pattern_map`, but only where the condition's taint offsets
/// hold one of the mutated byte offsets, so that values which had no part in
/// a mutation's effect stay out of the store. No mutated offsets at all means
/// no filter.
pub fn add_cond_to_pattern_map_filtered(
    store: &mut PatternStore,
    cond: &CondStmt,
    input_buf: &Vec<u8>,
    mutated_offsets: &Vec<usize>,
)
    requires
        old(store).wf(),
        all_wf(cond.offsets@),
        all_wf(cond.offsets_opt@),
    ensures
        final(store).wf(),
        final(store)@ == if passes_filter(cond.offsets@, cond.offsets_opt@, mutated_offsets@) {
            with_cond(old(store)@, cond.offsets@, cond.offsets_opt@, input_buf@, cond@.origin())
        } else {
            old(store)@
        },
{
    if mutated_offsets.len() == 0 || touches(&cond.offsets, mutated_offsets) || touches(
        &cond.offsets_opt,
        mutated_offsets,
    ) {
        add_cond_to_pattern_map(store, cond, input_buf);
    }
}

/// The number of fingerprints that have records and the number of records
/// under all of them. A number of records too large for a `usize` is given
/// as `usize::MAX`.
pub fn get_stats(store: &PatternStore) -> (r: (usize, usize))
    requires
        store.wf(),
    ensures
        r.0 == store.patterns().len(),
        r.0 == store@.dom().len(),
        r.1 == clamped(record_total(store.patterns(), store@) as int),
{
    let num_patterns = store.buckets.len();
    let mut num_records: usize = 0;
    let mut i: usize = 0;
    proof {
        store.lemma_wf();
        assert(store.patterns().take(0) =~= Seq::<Seq<u32>>::empty());
    }
    while i < store.buckets.len()
        invariant
            i <= store.buckets@.len(),
            store.wf(),
            store.patterns().len() == store.buckets@.len(),
            num_records == clamped(record_total(store.patterns().take(i as int), store@) as int),
        decreases store.buckets.len() - i,
    {
        proof {
            store.lemma_at(i as int);
            assert(store.patterns().take(i + 1).drop_last() =~= store.patterns().take(i as int));
            assert(store.patterns().take(i + 1).last() == store.buckets@[i as int].pattern@);
            lemma_clamped_sum(
                record_total(store.patterns().take(i as int), store@) as int,
                store.buckets@[i as int].records@.len() as int,
            );
        }
        num_records = add_clamped(num_records, store.buckets[i].records.len());
        i += 1;
    }
    assert(store.patterns().take(i as int) =~= store.patterns());
    (num_patterns, num_records)
}

/// The records of a fingerprint from position `start` on, at most `count`
/// of them and in insertion order; nothing where `start` is at or past the
/// end of the fingerprint's records, or where the store does not know the
/// fingerprint.
pub fn records_from(store: &PatternStore, pattern: &Vec<u32>, start: usize, count: usize) -> (out:
    Option<Vec<CondRecord>>)
    requires
        store.wf(),
    ensures
        match next_batch(records_of(store@, pattern@), start as int, count as int) {
            None => out is None,
            Some((batch, end)) => out is Some && records_view(out.unwrap()@) == batch,
        },
        records_of(store@, pattern@).len() <= usize::MAX,
{
    let (found, pos) = store.locate(pattern);
    if !found {
        return None;
    }
    proof {
        store.lemma_at(pos as int);
    }
    let records = &store.buckets[pos].records;
    let total = records.len();
    if start >= total {
        return None;
    }
    let end = if count < total - start {
        start + count
    } else {
        total
    };
    let mut selected: Vec<CondRecord> = Vec::new();
    let mut i: usize = start;
    while i < end
        invariant
            start <= i <= end <= records@.len(),
            selected@.len() == i - start,
            forall|k: int| 0 <= k < selected@.len() ==> (#[trigger] selected@[k])@ == records@[start + k]@,
        decreases end - i,
    {
        selected.push(copy_record(&records[i]));
        i += 1;
    }
    assert(records_view(selected@) =~= records_view(records@).subrange(start as int, end as int));
    Some(selected)
}

/// Hands a condition the next records of a fingerprint that it has not yet
/// replayed, at most `iterations` of them and in insertion order, and moves
/// the condition's cursor past them. Once the cursor has reached the end of
/// the fingerprint's records, or where the store does not know the
/// fingerprint, the condition gets nothing and stays as it is.
pub fn get_next_records(
    store: &PatternStore,
    cond: &mut CondStmt,
    pattern: &Vec<u32>,
    iterations: usize,
) -> (out: Option<Vec<CondRecord>>)
    requires
        store.wf(),
    ensures
        match next_batch(
            records_of(store@, pattern@),
            old(cond).reusing_record_index as int,
            iterations as int,
        ) {
            None => out is None && *final(cond) == *old(cond),
            Some((batch, end)) => {
                &&& out is Some
                &&& records_view(out.unwrap()@) == batch
                &&& final(cond).reusing_record_index == end
                &&& final(cond)@ == (CondView {
                    reusing_record_index: final(cond).reusing_record_index,
                    ..old(cond)@
                })
            },
        },
        final(cond).reusing_record_index >= old(cond).reusing_record_index,
{
    let selected = records_from(store, pattern, cond.reusing_record_index, iterations);
    match &selected {
        Some(batch) => {
            assert(records_view(batch@).len() == batch@.len());
            cond.reusing_record_index = cond.reusing_record_index + batch.len();
        },
        None => {},
    }
    selected
}

impl PatternStore {
    /// The fingerprints that have records, in ascending lexicographic order.
    pub fn sorted_patterns(&self) -> (out: Vec<Vec<u32>>)
        requires
            self.wf(),
        ensures
            out.deep_view() == self.patterns(),
            strictly_ascending(out.deep_view()),
            out.deep_view().to_set() == self@.dom(),
    {
        let mut out: Vec<Vec<u32>> = Vec::new();
        let mut i: usize = 0;
        while i < self.buckets.len()
            invariant
                i <= self.buckets@.len(),
                out@.len() == i,
                forall|k: int| 0 <= k < i ==> (#[trigger] out@[k])@ == self.buckets@[k].pattern@,
            decreases self.buckets.len() - i,
        {
            out.push(copy_pattern(&self.buckets[i].pattern));
            i += 1;
        }
        proof {
            assert forall|k: int| 0 <= k < out@.len() implies #[trigger] out.deep_view()[k]
                == self.patterns()[k] by {
                assert(out@[k].deep_view() =~= out@[k]@);
            }
            assert(out.deep_view() =~= self.patterns());
            self.lemma_wf();
        }
        out
    }

    /// The number of records under a fingerprint.
    pub fn record_count(&self, pattern: &Vec<u32>) -> (n: usize)
        requires
            self.wf(),
        ensures
            n == records_of(self@, pattern@).len(),
    {
        let (found, pos) = self.locate(pattern);
        if !found {
            return 0;
        }
        proof {
            self.lemma_at(pos as int);
        }
        self.buckets[pos].records.len()
    }

    /// A copy of the records under a fingerprint, in insertion order; empty
    /// where the store does not know the fingerprint.
    pub fn records(&self, pattern: &Vec<u32>) -> (out: Vec<CondRecord>)
        requires
            self.wf(),
        ensures
            records_view(out@) == records_of(self@, pattern@),
    {
        let mut out: Vec<CondRecord> = Vec::new();
        let (found, pos) = self.locate(pattern);
        if !found {
            assert(records_view(out@) =~= records_of(self@, pattern@));
            return out;
        }
        proof {
            self.lemma_at(pos as int);
        }
        let records = &self.buckets[pos].records;
        let mut i: usize = 0;
        while i < records.len()
            invariant
                i <= records@.len(),
                out@.len() == i,
                forall|k: int| 0 <= k < i ==> (#[trigger] out@[k])@ == records@[k]@,
            decreases records.len() - i,
        {
            out.push(copy_record(&records[i]));
            i += 1;
        }
        assert(records_view(out@) =~= records_view(records@));
        out
    }
}

} // verus!
