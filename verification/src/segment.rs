//! Tainted byte segments: merging of adjacent ranges, structural
//! fingerprints and extraction of the bytes a segment list covers.

use vstd::prelude::*;

verus! {

/// A half-open byte range `[begin, end)` of an input buffer that taint
/// tracking found relevant to a condition. `sign` is an optional marker that
/// travels with the range and takes no part in merging.
#[derive(Clone, Copy, Debug, PartialEq, Eq, Structural)]
pub struct TagSeg {
    pub sign: bool,
    pub begin: u32,
    pub end: u32,
}

/// The structural fingerprint of a segment list: the lengths of its merged
/// segments, in order.
pub type LabelPattern = Vec<u32>;

impl TagSeg {
    /// A segment is well formed when it does not end before it begins.
    pub open spec fn wf(&self) -> bool {
        self.begin <= self.end
    }

    /// Number of bytes in the range.
    pub open spec fn span(&self) -> u32 {
        (self.end - self.begin) as u32
    }

    /// Whether byte offset `o` lies in the range.
    pub open spec fn covers(&self, o: int) -> bool {
        self.begin <= o < self.end
    }
}

/// Every segment of the list is well formed.
pub open spec fn all_wf(s: Seq<TagSeg>) -> bool {
    forall|i: int| 0 <= i < s.len() ==> (#[trigger] s[i]).wf()
}

/// The set of byte offsets that some segment of the list covers.
pub open spec fn covered(s: Seq<TagSeg>) -> Set<int> {
    Set::new(|o: int| exists|i: int| 0 <= i < s.len() && (#[trigger] s[i]).covers(o))
}

/// The segment that continues `a` up to the end of `b`.
pub open spec fn joined(a: TagSeg, b: TagSeg) -> TagSeg {
    TagSeg { sign: a.sign, begin: a.begin, end: b.end }
}

/// Segments in traversal order with every maximal run of strictly adjacent
/// segments (one ends exactly where the next begins) joined into one. The
/// list is never sorted: only neighbours in the given order are joined.
pub open spec fn merged(s: Seq<TagSeg>) -> Seq<TagSeg>
    decreases s.len(),
{
    if s.len() == 0 {
        Seq::empty()
    } else {
        let init = merged(s.drop_last());
        let x = s.last();
        if init.len() > 0 && init.last().end == x.begin {
            init.drop_last().push(joined(init.last(), x))
        } else {
            init.push(x)
        }
    }
}

/// The length of every segment, in order.
pub open spec fn spans(s: Seq<TagSeg>) -> Seq<u32> {
    Seq::new(s.len(), |i: int| s[i].span())
}

/// The fingerprint of a segment list: the lengths of its merged segments.
pub open spec fn fingerprint(s: Seq<TagSeg>) -> Seq<u32> {
    spans(merged(s))
}

/// The bytes a segment takes from a buffer: byte `k` of the value is the
/// buffer's byte at `begin + k` where the buffer reaches that far, and zero
/// beyond its end. The value always has the segment's length.
pub open spec fn segment_value(seg: TagSeg, buf: Seq<u8>) -> Seq<u8> {
    Seq::new(
        seg.span() as nat,
        |k: int|
            if seg.begin + k < buf.len() {
                buf[seg.begin + k]
            } else {
                0u8
            },
    )
}

/// One value per given segment, each taken from the buffer.
pub open spec fn values_of(segs: Seq<TagSeg>, buf: Seq<u8>) -> Seq<Seq<u8>> {
    Seq::new(segs.len(), |i: int| segment_value(segs[i], buf))
}

/// The critical values of a segment list in a buffer: one value per merged
/// segment.
pub open spec fn extracted_values(s: Seq<TagSeg>, buf: Seq<u8>) -> Seq<Seq<u8>> {
    values_of(merged(s), buf)
}

/// Every segment of the list ends exactly where its successor begins.
pub open spec fn continuous(s: Seq<TagSeg>) -> bool {
    forall|i: int| 0 <= i < s.len() - 1 ==> (#[trigger] s[i]).end == s[i + 1].begin
}

/// Index of the maximal run of adjacent segments that input segment `i`
/// belongs to, counting runs from the front of the list.
pub open spec fn run_index(s: Seq<TagSeg>, i: int) -> int
    decreases i,
{
    if i <= 0 {
        0
    } else if s[i - 1].end == s[i].begin {
        run_index(s, i - 1)
    } else {
        run_index(s, i - 1) + 1
    }
}

/// Two segment lists have the same shape when they have the same number of
/// segments, equal lengths position by position, and are adjacent at exactly
/// the same positions.
pub open spec fn same_shape(s: Seq<TagSeg>, t: Seq<TagSeg>) -> bool {
    &&& s.len() == t.len()
    &&& forall|i: int| 0 <= i < s.len() ==> (#[trigger] s[i]).span() == t[i].span()
    &&& forall|i: int|
        0 <= i < s.len() - 1 ==> ((#[trigger] s[i]).end == s[i + 1].begin <==> t[i].end == t[i
            + 1].begin)
}

/// The list with every offset moved up by `d`.
pub open spec fn shifted(s: Seq<TagSeg>, d: u32) -> Seq<TagSeg> {
    Seq::new(
        s.len(),
        |i: int|
            TagSeg { sign: s[i].sign, begin: (s[i].begin + d) as u32, end: (s[i].end + d) as u32 },
    )
}

proof fn lemma_merged_push(s: Seq<TagSeg>, x: TagSeg)
    ensures
        merged(s.push(x)) == if merged(s).len() > 0 && merged(s).last().end == x.begin {
            merged(s).drop_last().push(joined(merged(s).last(), x))
        } else {
            merged(s).push(x)
        },
{
    assert(s.push(x).drop_last() =~= s);
}

/// Merging keeps segments well formed, yields no more segments than it was
/// given and at least one for a non-empty list, and its last segment ends
/// where the last input segment ends.
pub proof fn lemma_merged_basics(s: Seq<TagSeg>)
    requires
        all_wf(s),
    ensures
        all_wf(merged(s)),
        merged(s).len() <= s.len(),
        s.len() > 0 ==> merged(s).len() > 0 && merged(s).last().end == s.last().end,
        s.len() > 0 ==> merged(s)[0].begin == s[0].begin && merged(s)[0].sign == s[0].sign,
    decreases s.len(),
{
    if s.len() > 0 {
        lemma_merged_basics(s.drop_last());
        if s.len() > 1 {
            assert(s.drop_last()[0] == s[0]);
        }
    }
}

proof fn lemma_covered_push(s: Seq<TagSeg>, x: TagSeg)
    ensures
        covered(s.push(x)) == covered(s).union(Set::new(|o: int| x.covers(o))),
{
    let lhs = covered(s.push(x));
    let rhs = covered(s).union(Set::new(|o: int| x.covers(o)));
    assert forall|o: int| lhs.contains(o) implies rhs.contains(o) by {
        let i = choose|i: int| 0 <= i < s.push(x).len() && (#[trigger] s.push(x)[i]).covers(o);
        if i < s.len() {
            assert(s[i].covers(o));
        }
    }
    assert forall|o: int| rhs.contains(o) implies lhs.contains(o) by {
        if covered(s).contains(o) {
            let i = choose|i: int| 0 <= i < s.len() && (#[trigger] s[i]).covers(o);
            assert(s.push(x)[i].covers(o));
        } else {
            assert(s.push(x)[s.len() as int].covers(o));
        }
    }
    assert(lhs =~= rhs);
}

proof fn lemma_covered_merged(s: Seq<TagSeg>)
    requires
        all_wf(s),
    ensures
        covered(merged(s)) == covered(s),
    decreases s.len(),
{
    if s.len() == 0 {
        assert(covered(merged(s)) =~= covered(s));
    } else {
        let front = s.drop_last();
        let x = s.last();
        let init = merged(front);
        lemma_covered_merged(front);
        lemma_merged_basics(front);
        assert(s =~= front.push(x));
        lemma_covered_push(front, x);
        if init.len() > 0 && init.last().end == x.begin {
            let y = joined(init.last(), x);
            lemma_covered_push(init.drop_last(), y);
            lemma_covered_push(init.drop_last(), init.last());
            assert(init =~= init.drop_last().push(init.last()));
            assert(init.last().wf());
            assert(x.wf());
            assert(covered(merged(s)) =~= covered(s));
        } else {
            lemma_covered_push(init, x);
        }
    }
}

proof fn lemma_merged_maximal(s: Seq<TagSeg>)
    ensures
        forall|j: int|
            0 <= j < merged(s).len() - 1 ==> (#[trigger] merged(s)[j]).end != merged(s)[j
                + 1].begin,
    decreases s.len(),
{
    if s.len() > 0 {
        lemma_merged_maximal(s.drop_last());
        let init = merged(s.drop_last());
        let x = s.last();
        let out = merged(s);
        assert forall|j: int| 0 <= j < out.len() - 1 implies (#[trigger] out[j]).end != out[j
            + 1].begin by {
            if init.len() > 0 && init.last().end == x.begin {
                assert(out[j] == init[j]);
                assert(out[j + 1].begin == init[j + 1].begin);
            } else if j + 1 < init.len() {
                assert(out[j] == init[j]);
                assert(out[j + 1] == init[j + 1]);
            }
        }
    }
}

proof fn lemma_run_index_prefix(s: Seq<TagSeg>, n: int, i: int)
    requires
        0 <= i < n <= s.len(),
    ensures
        run_index(s.take(n), i) == run_index(s, i),
    decreases i,
{
    if i > 0 {
        lemma_run_index_prefix(s, n, i - 1);
    }
}

proof fn lemma_run_index_bounds(s: Seq<TagSeg>, i: int, j: int)
    requires
        0 <= i <= j < s.len(),
    ensures
        0 <= run_index(s, i) <= run_index(s, j) <= j,
        run_index(s, j) - run_index(s, i) <= j - i,
    decreases j,
{
    if j > i {
        lemma_run_index_bounds(s, i, j - 1);
    } else if i > 0 {
        lemma_run_index_bounds(s, i - 1, i - 1);
    }
}

proof fn lemma_merged_runs(s: Seq<TagSeg>)
    requires
        all_wf(s),
        s.len() > 0,
    ensures
        merged(s).len() == run_index(s, s.len() - 1) + 1,
        forall|i: int|
            0 <= i < s.len() ==> {
                let m = merged(s)[#[trigger] run_index(s, i)];
                &&& 0 <= run_index(s, i) < merged(s).len()
                &&& m.begin <= s[i].begin
                &&& s[i].end <= m.end
                &&& (i == 0 || s[i - 1].end != s[i].begin) ==> m.begin == s[i].begin && m.sign
                    == s[i].sign
                &&& (i == s.len() - 1 || s[i].end != s[i + 1].begin) ==> m.end == s[i].end
            },
    decreases s.len(),
{
    let n = s.len() as int;
    if n == 1 {
        assert(merged(s.drop_last()) =~= Seq::<TagSeg>::empty());
        assert(merged(s) =~= seq![s[0]]);
    } else {
        let front = s.drop_last();
        let x = s.last();
        let init = merged(front);
        lemma_merged_runs(front);
        lemma_merged_basics(front);
        assert(front =~= s.take(n - 1));
        assert forall|i: int| 0 <= i < n - 1 implies run_index(front, i) == run_index(s, i) by {
            lemma_run_index_prefix(s, n - 1, i);
        }
        assert forall|i: int| 0 <= i < n implies {
            let m = merged(s)[#[trigger] run_index(s, i)];
            &&& 0 <= run_index(s, i) < merged(s).len()
            &&& m.begin <= s[i].begin
            &&& s[i].end <= m.end
            &&& (i == 0 || s[i - 1].end != s[i].begin) ==> m.begin == s[i].begin && m.sign
                == s[i].sign
            &&& (i == n - 1 || s[i].end != s[i + 1].begin) ==> m.end == s[i].end
        } by {
            let r = run_index(s, i);
            let last_run = run_index(front, n - 2);
            lemma_run_index_bounds(s, i, n - 1);
            assert(init.len() == last_run + 1);
            assert(front.last() == s[n - 2]);
            assert(init.last().end == s[n - 2].end);
            if i < n - 1 {
                lemma_run_index_bounds(front, i, n - 2);
                assert(front[i] == s[i]);
                assert(r == run_index(front, i));
                let m0 = init[run_index(front, i)];
                assert(m0.begin <= front[i].begin && front[i].end <= m0.end);
                if i > 0 {
                    assert(front[i - 1] == s[i - 1]);
                }
                if i < n - 2 {
                    assert(front[i + 1] == s[i + 1]);
                    lemma_run_index_bounds(front, i + 1, n - 2);
                    assert(run_index(front, i + 1) == if front[i].end == front[i + 1].begin {
                        run_index(front, i)
                    } else {
                        run_index(front, i) + 1
                    });
                }
                if s[n - 2].end == x.begin {
                    if r == last_run {
                        assert(merged(s)[r] == joined(init.last(), x));
                        assert(x.wf());
                    } else {
                        assert(merged(s)[r] == init[r]);
                    }
                } else {
                    assert(merged(s)[r] == init[r]);
                }
            } else {
                if s[n - 2].end == x.begin {
                    assert(r == last_run);
                    assert(merged(s)[r] == joined(init.last(), x));
                    assert(init.last().wf());
                    let m0 = init[run_index(front, n - 2)];
                    assert(front[n - 2].end <= m0.end);
                } else {
                    assert(r == last_run + 1);
                    assert(merged(s)[r] == x);
                }
            }
        }
    }
}

/// Merging a non-empty list of well-formed segments covers exactly the bytes
/// the input covers, leaves no two neighbouring output segments adjacent, and
/// keeps the input order: input segment `i` lies inside output segment
/// `run_index(s, i)`, which grows with `i`, begins where the first segment
/// of its run begins and ends where the last one ends.
pub proof fn lemma_merge_law(s: Seq<TagSeg>)
    requires
        s.len() > 0,
        all_wf(s),
    ensures
        covered(merged(s)) == covered(s),
        forall|j: int|
            0 <= j < merged(s).len() - 1 ==> (#[trigger] merged(s)[j]).end != merged(s)[j
                + 1].begin,
        merged(s).len() == run_index(s, s.len() - 1) + 1,
        forall|i: int, j: int|
            0 <= i <= j < s.len() ==> 0 <= #[trigger] run_index(s, i) <= #[trigger] run_index(
                s,
                j,
            ) < merged(s).len(),
        forall|i: int|
            0 <= i < s.len() ==> {
                let m = merged(s)[#[trigger] run_index(s, i)];
                &&& 0 <= run_index(s, i) < merged(s).len()
                &&& m.begin <= s[i].begin
                &&& s[i].end <= m.end
                &&& (i == 0 || s[i - 1].end != s[i].begin) ==> m.begin == s[i].begin && m.sign
                    == s[i].sign
                &&& (i == s.len() - 1 || s[i].end != s[i + 1].begin) ==> m.end == s[i].end
            },
{
    lemma_covered_merged(s);
    lemma_merged_maximal(s);
    lemma_merged_runs(s);
    assert forall|i: int, j: int| 0 <= i <= j < s.len() implies 0 <= #[trigger] run_index(s, i)
        <= #[trigger] run_index(s, j) < merged(s).len() by {
        lemma_run_index_bounds(s, i, j);
        lemma_run_index_bounds(s, j, s.len() - 1);
    }
}

proof fn lemma_same_shape_merged(s: Seq<TagSeg>, t: Seq<TagSeg>)
    requires
        all_wf(s),
        all_wf(t),
        same_shape(s, t),
    ensures
        merged(s).len() == merged(t).len(),
        forall|j: int| 0 <= j < merged(s).len() ==> (#[trigger] merged(s)[j]).span() == merged(t)[j].span(),
    decreases s.len(),
{
    if s.len() > 0 {
        let sf = s.drop_last();
        let tf = t.drop_last();
        assert(same_shape(sf, tf)) by {
            assert forall|i: int| 0 <= i < sf.len() implies (#[trigger] sf[i]).span()
                == tf[i].span() by {
                assert(s[i].span() == t[i].span());
            }
            assert forall|i: int| 0 <= i < sf.len() - 1 implies ((#[trigger] sf[i]).end == sf[i
                + 1].begin <==> tf[i].end == tf[i + 1].begin) by {
                assert(s[i].end == s[i + 1].begin <==> t[i].end == t[i + 1].begin);
            }
        }
        lemma_same_shape_merged(sf, tf);
        lemma_merged_basics(sf);
        lemma_merged_basics(tf);
        let n = s.len() as int;
        assert(s[n - 1].span() == t[n - 1].span());
        if n > 1 {
            assert(sf.last() == s[n - 2]);
            assert(tf.last() == t[n - 2]);
            assert(s[n - 2].end == s[n - 2 + 1].begin <==> t[n - 2].end == t[n - 2 + 1].begin);
            let si = merged(sf);
            let ti = merged(tf);
            assert(si.last().span() == ti.last().span());
            assert(si.last().wf() && ti.last().wf());
            assert(s[n - 1].wf() && t[n - 1].wf());
        }
    }
}

/// The fingerprint depends only on the shape of a segment list: two lists of
/// well-formed segments with equal lengths position by position and the same
/// adjacency pattern have the same fingerprint, wherever they lie.
pub proof fn lemma_fingerprint_shape(s: Seq<TagSeg>, t: Seq<TagSeg>)
    requires
        all_wf(s),
        all_wf(t),
        same_shape(s, t),
    ensures
        fingerprint(s) == fingerprint(t),
{
    lemma_same_shape_merged(s, t);
    assert(fingerprint(s) =~= fingerprint(t));
}

/// Moving every offset of a list up by the same amount, as far as the
/// offsets still fit, does not change its fingerprint.
pub proof fn lemma_fingerprint_shift(s: Seq<TagSeg>, d: u32)
    requires
        all_wf(s),
        forall|i: int| 0 <= i < s.len() ==> (#[trigger] s[i]).end + d <= u32::MAX,
    ensures
        all_wf(shifted(s, d)),
        fingerprint(shifted(s, d)) == fingerprint(s),
{
    let t = shifted(s, d);
    assert forall|i: int| 0 <= i < s.len() implies (#[trigger] t[i]).wf() && t[i].span()
        == s[i].span() by {
        assert(s[i].wf());
        assert(s[i].end + d <= u32::MAX);
    }
    assert forall|i: int| 0 <= i < t.len() - 1 implies ((#[trigger] t[i]).end == t[i + 1].begin
        <==> s[i].end == s[i + 1].begin) by {
        assert(s[i].wf() && s[i + 1].wf());
        assert(s[i].end + d <= u32::MAX);
        assert(s[i + 1].end + d <= u32::MAX);
    }
    lemma_fingerprint_shape(t, s);
}

/// A byte vector is its own deep view.
pub proof fn lemma_bytes_deep_view(v: Vec<u8>)
    ensures
        v.deep_view() == v@,
{
    assert(v.deep_view() =~= v@);
}

/// The lengths of the given segments, one per segment and without merging.
pub fn extract_pattern(offsets: &Vec<TagSeg>) -> (pattern: LabelPattern)
    requires
        all_wf(offsets@),
    ensures
        pattern@ == spans(offsets@),
{
    let mut pattern: Vec<u32> = Vec::new();
    let mut i: usize = 0;
    while i < offsets.len()
        invariant
            i <= offsets.len(),
            all_wf(offsets@),
            pattern@ == spans(offsets@.take(i as int)),
        decreases offsets.len() - i,
    {
        let seg = offsets[i];
        assert(offsets@[i as int].wf());
        pattern.push(seg.end - seg.begin);
        assert(pattern@ =~= spans(offsets@.take(i + 1)));
        i += 1;
    }
    assert(offsets@.take(i as int) =~= offsets@);
    pattern
}

/// Joins every maximal run of strictly adjacent segments into one segment,
/// keeping the order in which the segments were given.
pub fn merge_continuous_segments(offsets: &Vec<TagSeg>) -> (out: Vec<TagSeg>)
    ensures
        out@ == merged(offsets@),
{
    let mut out: Vec<TagSeg> = Vec::new();
    if offsets.len() == 0 {
        return out;
    }
    let mut current = offsets[0];
    proof {
        assert(offsets@.take(1) =~= Seq::<TagSeg>::empty().push(current));
        lemma_merged_push(Seq::<TagSeg>::empty(), current);
        assert(out@.push(current) =~= merged(offsets@.take(1)));
    }
    let mut i: usize = 1;
    while i < offsets.len()
        invariant
            1 <= i <= offsets.len(),
            out@.push(current) == merged(offsets@.take(i as int)),
        decreases offsets.len() - i,
    {
        let next = offsets[i];
        proof {
            assert(offsets@.take(i + 1) =~= offsets@.take(i as int).push(next));
            lemma_merged_push(offsets@.take(i as int), next);
            assert(out@.push(current).drop_last() =~= out@);
        }
        if current.end == next.begin {
            current.end = next.end;
        } else {
            out.push(current);
            current = next;
        }
        i += 1;
    }
    assert(offsets@.take(i as int) =~= offsets@);
    out.push(current);
    out
}

/// The fingerprint of a segment list: the lengths of its merged segments.
pub fn extract_pattern_merged(offsets: &Vec<TagSeg>) -> (pattern: LabelPattern)
    requires
        all_wf(offsets@),
    ensures
        pattern@ == fingerprint(offsets@),
{
    let merged_offsets = merge_continuous_segments(offsets);
    proof {
        lemma_merged_basics(offsets@);
    }
    extract_pattern(&merged_offsets)
}

/// The bytes one segment takes from a buffer, zero-filled where the buffer
/// is too short.
pub fn extract_segment_value(seg: TagSeg, input_buf: &Vec<u8>) -> (bytes: Vec<u8>)
    requires
        seg.wf(),
    ensures
        bytes@ == segment_value(seg, input_buf@),
{
    let begin = seg.begin as usize;
    let end = seg.end as usize;
    let mut bytes: Vec<u8> = Vec::new();
    let mut pos: usize = begin;
    while pos < end
        invariant
            begin <= pos <= end,
            begin == seg.begin,
            end == seg.end,
            bytes@.len() == pos - begin,
            forall|k: int|
                0 <= k < bytes@.len() ==> bytes@[k] == segment_value(seg, input_buf@)[k],
        decreases end - pos,
    {
        let b: u8 = if pos < input_buf.len() {
            input_buf[pos]
        } else {
            0u8
        };
        bytes.push(b);
        pos += 1;
    }
    assert(bytes@ =~= segment_value(seg, input_buf@));
    bytes
}

/// The critical values of a segment list: for each merged segment the bytes
/// of the buffer in its range. A segment that reaches beyond the buffer gets
/// what the buffer holds and zeros after it; one wholly beyond it gets zeros.
pub fn extract_value_from_label(offsets: &Vec<TagSeg>, input_buf: &Vec<u8>) -> (values: Vec<
    Vec<u8>,
>)
    requires
        all_wf(offsets@),
    ensures
        values.deep_view() == extracted_values(offsets@, input_buf@),
{
    let merged_offsets = merge_continuous_segments(offsets);
    proof {
        lemma_merged_basics(offsets@);
    }
    let mut values: Vec<Vec<u8>> = Vec::new();
    let mut i: usize = 0;
    while i < merged_offsets.len()
        invariant
            i <= merged_offsets.len(),
            all_wf(merged_offsets@),
            values@.len() == i,
            forall|k: int|
                0 <= k < i ==> (#[trigger] values@[k])@ == segment_value(
                    merged_offsets@[k],
                    input_buf@,
                ),
        decreases merged_offsets.len() - i,
    {
        assert(merged_offsets@[i as int].wf());
        let bytes = extract_segment_value(merged_offsets[i], input_buf);
        values.push(bytes);
        i += 1;
    }
    proof {
        assert forall|k: int| 0 <= k < values@.len() implies #[trigger] values.deep_view()[k]
            == extracted_values(offsets@, input_buf@)[k] by {
            lemma_bytes_deep_view(values@[k]);
        }
        assert(values.deep_view() =~= extracted_values(offsets@, input_buf@));
    }
    values
}

/// Whether no segment ends before it begins.
pub fn segments_well_formed(offsets: &Vec<TagSeg>) -> (ok: bool)
    ensures
        ok == all_wf(offsets@),
{
    let mut i: usize = 0;
    while i < offsets.len()
        invariant
            i <= offsets.len(),
            forall|k: int| 0 <= k < i ==> (#[trigger] offsets@[k]).wf(),
        decreases offsets.len() - i,
    {
        if offsets[i].begin > offsets[i].end {
            return false;
        }
        i += 1;
    }
    true
}

/// Whether every segment ends exactly where its successor begins.
pub fn check_continuous(offsets: &Vec<TagSeg>) -> (ok: bool)
    ensures
        ok == continuous(offsets@),
{
    if offsets.len() <= 1 {
        return true;
    }
    let mut i: usize = 0;
    while i < offsets.len() - 1
        invariant
            offsets.len() > 1,
            i <= offsets.len() - 1,
            forall|k: int| 0 <= k < i ==> (#[trigger] offsets@[k]).end == offsets@[k + 1].begin,
        decreases offsets.len() - i,
    {
        if offsets[i].end != offsets[i + 1].begin {
            return false;
        }
        i += 1;
    }
    true
}

/// The taint offsets of both operands as one list: the secondary segments
/// follow the primary ones, each list in its own traversal order.
pub open spec fn combined(primary: Seq<TagSeg>, secondary: Seq<TagSeg>) -> Seq<TagSeg> {
    primary + secondary
}

/// The combined list covers the bytes that either list covers.
pub proof fn lemma_combined_covers(primary: Seq<TagSeg>, secondary: Seq<TagSeg>)
    ensures
        covered(combined(primary, secondary)) == covered(primary).union(covered(secondary)),
{
    let both = combined(primary, secondary);
    let lhs = covered(both);
    let rhs = covered(primary).union(covered(secondary));
    assert forall|o: int| lhs.contains(o) implies rhs.contains(o) by {
        let i = choose|i: int| 0 <= i < both.len() && (#[trigger] both[i]).covers(o);
        if i < primary.len() {
            assert(primary[i].covers(o));
        } else {
            assert(secondary[i - primary.len()].covers(o));
        }
    }
    assert forall|o: int| rhs.contains(o) implies lhs.contains(o) by {
        if covered(primary).contains(o) {
            let i = choose|i: int| 0 <= i < primary.len() && (#[trigger] primary[i]).covers(o);
            assert(both[i].covers(o));
        } else {
            let i = choose|i: int| 0 <= i < secondary.len() && (#[trigger] secondary[i]).covers(o);
            assert(both[primary.len() + i].covers(o));
        }
    }
    assert(lhs =~= rhs);
}

/// Combines the taint offsets of two operands into one list. Nothing is
/// sorted or dropped: the covered bytes are those of both lists.
pub fn merge_offsets(primary: &Vec<TagSeg>, secondary: &Vec<TagSeg>) -> (out: Vec<TagSeg>)
    ensures
        out@ == combined(primary@, secondary@),
{
    let mut out: Vec<TagSeg> = Vec::new();
    let mut i: usize = 0;
    while i < primary.len()
        invariant
            i <= primary.len(),
            out@ == primary@.take(i as int),
        decreases primary.len() - i,
    {
        out.push(primary[i]);
        assert(out@ =~= primary@.take(i + 1));
        i += 1;
    }
    assert(primary@.take(i as int) =~= primary@);
    let mut j: usize = 0;
    while j < secondary.len()
        invariant
            j <= secondary.len(),
            out@ == primary@ + secondary@.take(j as int),
        decreases secondary.len() - j,
    {
        out.push(secondary[j]);
        assert(out@ =~= primary@ + secondary@.take(j + 1));
        j += 1;
    }
    assert(secondary@.take(j as int) =~= secondary@);
    out
}

/// A run of adjacent segments merges into at most one segment.
pub proof fn lemma_continuous_merges_to_one(s: Seq<TagSeg>)
    requires
        continuous(s),
        all_wf(s),
    ensures
        merged(s).len() == if s.len() == 0 { 0nat } else { 1nat },
    decreases s.len(),
{
    if s.len() > 0 {
        let front = s.drop_last();
        assert(continuous(front)) by {
            assert forall|i: int| 0 <= i < front.len() - 1 implies (#[trigger] front[i]).end
                == front[i + 1].begin by {
                assert(s[i].end == s[i + 1].begin);
            }
        }
        lemma_continuous_merges_to_one(front);
        lemma_merged_basics(front);
        if front.len() > 0 {
            assert(front.last() == s[s.len() - 2]);
            assert(s[s.len() - 2].end == s[s.len() - 2 + 1].begin);
        }
    }
}

} // verus!
