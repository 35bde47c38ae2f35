//! Splicing stored values into a candidate input at a condition's merged
//! segments.

use crate::search::SearchHandler;
use crate::segment::{all_wf, lemma_bytes_deep_view, TagSeg};
use crate::store::CondRecord;
use vstd::prelude::*;

verus! {

/// The largest end of any segment of the list; zero for an empty list.
pub open spec fn reach(segs: Seq<TagSeg>) -> nat
    decreases segs.len(),
{
    if segs.len() == 0 {
        0
    } else {
        let r = reach(segs.drop_last());
        if segs.last().end > r {
            segs.last().end as nat
        } else {
            r
        }
    }
}

/// The buffer extended with zeros to the given length; unchanged where it is
/// that long already.
pub open spec fn grown(buf: Seq<u8>, len: nat) -> Seq<u8> {
    if len <= buf.len() {
        buf
    } else {
        buf + Seq::new((len - buf.len()) as nat, |i: int| 0u8)
    }
}

/// How many bytes of a value go into a segment: all of them, or as many as
/// the segment is long where the value is longer.
pub open spec fn copy_len(value: Seq<u8>, seg: TagSeg) -> nat {
    if value.len() <= seg.span() {
        value.len()
    } else {
        seg.span() as nat
    }
}

/// Position `p` is one that splicing `value` at `seg` writes.
pub open spec fn writes(seg: TagSeg, value: Seq<u8>, p: int) -> bool {
    seg.begin <= p < seg.begin + copy_len(value, seg)
}

/// The buffer with the value written at the segment's begin.
pub open spec fn overwritten(buf: Seq<u8>, seg: TagSeg, value: Seq<u8>) -> Seq<u8> {
    Seq::new(
        buf.len(),
        |p: int|
            if writes(seg, value, p) {
                value[p - seg.begin]
            } else {
                buf[p]
            },
    )
}

/// The buffer after the first `n` values were written at their segments, in
/// order.
pub open spec fn written(buf: Seq<u8>, segs: Seq<TagSeg>, values: Seq<Seq<u8>>, n: nat) -> Seq<u8>
    decreases n,
{
    if n == 0 {
        buf
    } else {
        overwritten(written(buf, segs, values, (n - 1) as nat), segs[n - 1], values[n - 1])
    }
}

/// The candidate that splicing makes of a buffer: the buffer is first
/// extended with zeros so that every segment lies within it, then each value
/// is written at the begin of its segment, in order, cut to the segment's
/// length where it is longer.
pub open spec fn spliced(buf: Seq<u8>, segs: Seq<TagSeg>, values: Seq<Seq<u8>>) -> Seq<u8> {
    written(grown(buf, reach(segs)), segs, values, segs.len())
}

/// No segment ends beyond the reach of its list.
pub proof fn lemma_reach(segs: Seq<TagSeg>, i: int)
    requires
        0 <= i < segs.len(),
    ensures
        segs[i].end <= reach(segs),
    decreases segs.len(),
{
    if i < segs.len() - 1 {
        lemma_reach(segs.drop_last(), i);
    }
}

proof fn lemma_reach_take(segs: Seq<TagSeg>, i: int)
    requires
        0 <= i < segs.len(),
    ensures
        reach(segs.take(i + 1)) == if segs[i].end > reach(segs.take(i)) {
            segs[i].end as nat
        } else {
            reach(segs.take(i))
        },
{
    assert(segs.take(i + 1).drop_last() =~= segs.take(i));
}

proof fn lemma_written(buf: Seq<u8>, segs: Seq<TagSeg>, values: Seq<Seq<u8>>, n: nat)
    requires
        n <= segs.len() <= values.len(),
    ensures
        written(buf, segs, values, n).len() == buf.len(),
        forall|p: int|
            0 <= p < buf.len() && (forall|k: int| 0 <= k < n ==> !writes(segs[k], values[k], p))
                ==> #[trigger] written(buf, segs, values, n)[p] == buf[p],
        forall|j: int, p: int|
            0 <= j < n && 0 <= p < buf.len() && #[trigger] writes(segs[j], values[j], p) && (
            forall|k: int| j < k < n ==> !writes(segs[k], values[k], p)) ==> written(
                buf,
                segs,
                values,
                n,
            )[p] == values[j][p - segs[j].begin],
    decreases n,
{
    if n > 0 {
        let m = (n - 1) as nat;
        lemma_written(buf, segs, values, m);
        let after = written(buf, segs, values, n);
        assert forall|p: int|
            0 <= p < buf.len() && (forall|k: int|
                0 <= k < n ==> !writes(segs[k], values[k], p)) implies #[trigger] after[p]
            == buf[p] by {
            assert(!writes(segs[m as int], values[m as int], p));
            assert forall|k: int| 0 <= k < m implies !writes(segs[k], values[k], p) by {}
        }
        assert forall|j: int, p: int|
            0 <= j < n && 0 <= p < buf.len() && #[trigger] writes(segs[j], values[j], p) && (
            forall|k: int| j < k < n ==> !writes(segs[k], values[k], p)) implies after[p]
            == values[j][p - segs[j].begin] by {
            if j < m {
                assert(!writes(segs[m as int], values[m as int], p));
                assert forall|k: int| j < k < m implies !writes(segs[k], values[k], p) by {}
            }
        }
    }
}

/// What splicing yields, position by position. The candidate is as long as
/// the longer of the buffer and the reach of the segments, so every segment
/// lies within it. A position that no value is written to keeps the byte of
/// the buffer, or is zero where the buffer did not reach. A position that is
/// written to holds the byte of the last value written there; where no later
/// segment writes into it, a segment holds its value from its begin on.
pub proof fn lemma_spliced(buf: Seq<u8>, segs: Seq<TagSeg>, values: Seq<Seq<u8>>)
    requires
        segs.len() == values.len(),
    ensures
        spliced(buf, segs, values).len() == if reach(segs) <= buf.len() {
            buf.len()
        } else {
            reach(segs)
        },
        forall|j: int| 0 <= j < segs.len() ==> (#[trigger] segs[j]).end <= spliced(buf, segs, values).len(),
        forall|p: int|
            0 <= p < spliced(buf, segs, values).len() && (forall|k: int|
                0 <= k < segs.len() ==> !writes(segs[k], values[k], p)) ==> #[trigger] spliced(
                buf,
                segs,
                values,
            )[p] == if p < buf.len() {
                buf[p]
            } else {
                0u8
            },
        forall|j: int, p: int|
            0 <= j < segs.len() && 0 <= p < spliced(buf, segs, values).len() && #[trigger] writes(
                segs[j],
                values[j],
                p,
            ) && (forall|k: int| j < k < segs.len() ==> !writes(segs[k], values[k], p)) ==> spliced(
                buf,
                segs,
                values,
            )[p] == values[j][p - segs[j].begin],
{
    let base = grown(buf, reach(segs));
    lemma_written(base, segs, values, segs.len());
    assert forall|j: int| 0 <= j < segs.len() implies (#[trigger] segs[j]).end <= spliced(
        buf,
        segs,
        values,
    ).len() by {
        lemma_reach(segs, j);
    }
}

/// The largest end of any of the segments.
pub fn max_end(segs: &Vec<TagSeg>) -> (r: usize)
    ensures
        r == reach(segs@),
{
    let mut r: usize = 0;
    let mut i: usize = 0;
    assert(segs@.take(0) =~= Seq::<TagSeg>::empty());
    while i < segs.len()
        invariant
            i <= segs.len(),
            r == reach(segs@.take(i as int)),
        decreases segs.len() - i,
    {
        proof {
            lemma_reach_take(segs@, i as int);
        }
        let end = segs[i].end as usize;
        if end > r {
            r = end;
        }
        i += 1;
    }
    assert(segs@.take(i as int) =~= segs@);
    r
}

/// Extends the buffer with zeros to the given length.
pub fn grow(buf: &mut Vec<u8>, len: usize)
    ensures
        final(buf)@ == grown(old(buf)@, len as nat),
{
    while buf.len() < len
        invariant
            old(buf)@.len() <= buf@.len(),
            old(buf)@.len() < len ==> buf@.len() <= len,
            old(buf)@.len() >= len ==> buf@.len() == old(buf)@.len(),
            buf@ == old(buf)@ + Seq::new((buf@.len() - old(buf)@.len()) as nat, |i: int| 0u8),
        decreases len - buf.len(),
    {
        buf.push(0u8);
        assert(buf@ =~= old(buf)@ + Seq::new((buf@.len() - old(buf)@.len()) as nat, |i: int| 0u8));
    }
    assert(buf@ =~= grown(old(buf)@, len as nat));
}

/// Writes a value at the begin of a segment that lies within the buffer: as
/// many of its bytes as the segment is long.
pub fn write_value(buf: &mut Vec<u8>, seg: TagSeg, value: &Vec<u8>)
    requires
        seg.wf(),
        seg.end <= old(buf)@.len(),
    ensures
        final(buf)@ == overwritten(old(buf)@, seg, value@),
{
    let begin = seg.begin as usize;
    let span = (seg.end - seg.begin) as usize;
    let n = if value.len() < span {
        value.len()
    } else {
        span
    };
    let mut k: usize = 0;
    while k < n
        invariant
            k <= n,
            n == copy_len(value@, seg),
            begin == seg.begin,
            seg.wf(),
            seg.end <= buf@.len(),
            buf@.len() == old(buf)@.len(),
            forall|p: int|
                0 <= p < buf@.len() ==> #[trigger] buf@[p] == if begin <= p < begin + k {
                    value@[p - begin]
                } else {
                    old(buf)@[p]
                },
        decreases n - k,
    {
        buf.set(begin + k, value[k]);
        k += 1;
    }
    assert(buf@ =~= overwritten(old(buf)@, seg, value@));
}

/// Splices one value per segment into the buffer. Where the number of
/// values differs from the number of segments nothing is written and the
/// answer is `false`.
pub fn splice_values(buf: &mut Vec<u8>, segs: &Vec<TagSeg>, values: &Vec<Vec<u8>>) -> (ok: bool)
    requires
        all_wf(segs@),
    ensures
        ok == (segs@.len() == values@.len()),
        ok ==> final(buf)@ == spliced(old(buf)@, segs@, values.deep_view()),
        !ok ==> final(buf)@ == old(buf)@,
{
    if segs.len() != values.len() {
        return false;
    }
    let end = max_end(segs);
    grow(buf, end);
    let ghost base = buf@;
    let mut i: usize = 0;
    while i < segs.len()
        invariant
            i <= segs.len(),
            segs@.len() == values@.len(),
            all_wf(segs@),
            base.len() >= reach(segs@),
            buf@ == written(base, segs@, values.deep_view(), i as nat),
        decreases segs.len() - i,
    {
        proof {
            lemma_reach(segs@, i as int);
            lemma_written(base, segs@, values.deep_view(), i as nat);
            lemma_bytes_deep_view(values@[i as int]);
            assert(segs@[i as int].wf());
        }
        write_value(buf, segs[i], &values[i]);
        i += 1;
    }
    true
}

/// Splices the values of a stored record into the handler's input at the
/// given merged segments: where the values were observed plays no part. A
/// record that does not hold one value per segment is left out: nothing is
/// written and the answer is `false`.
pub fn insert_critical_value_with_merged(
    handler: &mut SearchHandler,
    record: &CondRecord,
    merged_offsets: &Vec<TagSeg>,
) -> (ok: bool)
    requires
        all_wf(merged_offsets@),
    ensures
        ok == (merged_offsets@.len() == record@.critical_values.len()),
        ok ==> final(handler).buf@ == spliced(
            old(handler).buf@,
            merged_offsets@,
            record@.critical_values,
        ),
        !ok ==> final(handler).buf@ == old(handler).buf@,
        final(handler).running == old(handler).running,
        final(handler).cond == old(handler).cond,
        final(handler).local_stats == old(handler).local_stats,
        final(handler).has_new_path == old(handler).has_new_path,
        final(handler).skip == old(handler).skip,
        final(handler).mutated_offsets == old(handler).mutated_offsets,
{
    splice_values(&mut handler.buf, merged_offsets, &record.critical_values)
}

} // verus!
