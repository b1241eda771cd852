//! Maintains the list of byte ranges of the main binary buffer that make up
//! the scene's index buffer. Each primitive's index range is merged into the
//! list with [`define_index_ranges`]: the ranges it overlaps or touches are
//! fused with it, so that the index data that primitives share is kept once.
use std::ops::Range;
use vstd::prelude::*;

verus! {

/// How a primitive's index range relates to one range already in the list.
#[derive(Debug, Clone, Copy)]
pub enum IndexResult {
    StrictlyGreater,
    StrictlyLess,
    FullyContained,
    FullyCover,
    LeftOverlap,
    RightOverlap,
    ExactlyEqual,
}

/// The classification of `p` (the primitive's range) against `c` (a range of
/// the list) that [`get_index_result`] makes, in the order in which the tests
/// are made. `None` stands for the inputs on which the classification fails:
/// an end of `usize::MAX` that would be incremented, or a pair that matches
/// none of the cases.
///
/// Two ranges with the same start are `ExactlyEqual`, whatever their ends;
/// [`define_index_ranges`] likewise leaves the list as it is for a range
/// that starts where the first range it reaches starts.
pub open spec fn classify(c: Range<usize>, p: Range<usize>) -> Option<IndexResult> {
    if p.start == c.start {
        Some(IndexResult::ExactlyEqual)
    } else if c.end == usize::MAX {
        None
    } else if p.start > c.end + 1 {
        Some(IndexResult::StrictlyGreater)
    } else if p.end == usize::MAX {
        None
    } else if p.end + 1 < c.start {
        Some(IndexResult::StrictlyLess)
    } else if p.start == c.end + 1 {
        Some(IndexResult::RightOverlap)
    } else if p.end + 1 == c.start {
        Some(IndexResult::LeftOverlap)
    } else if p.start > c.start && p.end > c.end {
        Some(IndexResult::RightOverlap)
    } else if p.start < c.start && p.end < c.end {
        Some(IndexResult::LeftOverlap)
    } else if p.start > c.start && p.end < c.end {
        Some(IndexResult::FullyContained)
    } else if p.start < c.start && p.end > c.end {
        Some(IndexResult::FullyCover)
    } else {
        None
    }
}

/// The smaller of two indices.
pub open spec fn min_usize(a: usize, b: usize) -> usize {
    if a < b { a } else { b }
}

/// The larger of two indices.
pub open spec fn max_usize(a: usize, b: usize) -> usize {
    if a > b { a } else { b }
}

/// `rs` with the ranges at positions `a .. b` replaced by one range that
/// starts at the smaller of `p.start` and `rs[a].start` and ends at the larger
/// of `p.end` and `rs[b - 1].end`.
pub open spec fn splice(rs: Seq<Range<usize>>, p: Range<usize>, a: int, b: int) -> Seq<
    Range<usize>,
> {
    rs.subrange(0, a).push(
        Range { start: min_usize(p.start, rs[a].start), end: max_usize(p.end, rs[b - 1].end) },
    ) + rs.subrange(b, rs.len() as int)
}

/// Range `r` ends more than one index before `p` starts: it neither
/// overlaps nor touches `p`.
pub open spec fn ends_before(r: Range<usize>, p: Range<usize>) -> bool {
    r.end + 1 < p.start
}

/// Range `r` starts more than one index after `p` ends.
pub open spec fn starts_after(r: Range<usize>, p: Range<usize>) -> bool {
    r.start > p.end + 1
}

/// The first position from `i` on whose range does not end before `p`; the
/// length of the list where there is none.
pub open spec fn first_not_before(rs: Seq<Range<usize>>, p: Range<usize>, i: int) -> int
    decreases rs.len() - i,
{
    if i >= rs.len() {
        rs.len() as int
    } else if !ends_before(rs[i], p) {
        i
    } else {
        first_not_before(rs, p, i + 1)
    }
}

/// The first position from `i` on whose range starts after `p`; the length
/// of the list where there is none.
pub open spec fn first_after(rs: Seq<Range<usize>>, p: Range<usize>, i: int) -> int
    decreases rs.len() - i,
{
    if i >= rs.len() {
        rs.len() as int
    } else if starts_after(rs[i], p) {
        i
    } else {
        first_after(rs, p, i + 1)
    }
}

/// What merging `p` into the list `rs` gives. The first range that does not
/// end before `p` decides: where it starts where `p` starts, the two are
/// taken as the same range and the list is left as it is. Otherwise the
/// ranges from it up to the first one that starts after `p` are fused with
/// `p` into one range; where there is no such range, `p` is inserted at that
/// place.
pub open spec fn merged_ranges(rs: Seq<Range<usize>>, p: Range<usize>) -> Seq<Range<usize>> {
    let a = first_not_before(rs, p, 0);
    let b = first_after(rs, p, a);
    if a < rs.len() && rs[a].start == p.start {
        rs
    } else if a < b {
        splice(rs, p, a, b)
    } else {
        rs.insert(a, p)
    }
}

proof fn lemma_first_not_before(rs: Seq<Range<usize>>, p: Range<usize>, i: int)
    requires
        0 <= i <= rs.len(),
    ensures
        i <= first_not_before(rs, p, i) <= rs.len(),
        forall|j: int| i <= j < first_not_before(rs, p, i) ==> ends_before(#[trigger] rs[j], p),
        first_not_before(rs, p, i) < rs.len() ==> !ends_before(rs[first_not_before(rs, p, i)], p),
    decreases rs.len() - i,
{
    if i < rs.len() && ends_before(rs[i], p) {
        lemma_first_not_before(rs, p, i + 1);
    }
}

proof fn lemma_first_after(rs: Seq<Range<usize>>, p: Range<usize>, i: int)
    requires
        0 <= i <= rs.len(),
    ensures
        i <= first_after(rs, p, i) <= rs.len(),
        forall|j: int| i <= j < first_after(rs, p, i) ==> !starts_after(#[trigger] rs[j], p),
        first_after(rs, p, i) < rs.len() ==> starts_after(rs[first_after(rs, p, i)], p),
    decreases rs.len() - i,
{
    if i < rs.len() && !starts_after(rs[i], p) {
        lemma_first_after(rs, p, i + 1);
    }
}

/// Classifies `primitive_indices_range` against `current_range`.
pub fn get_index_result(current_range: &Range<usize>, primitive_indices_range: &Range<usize>) -> (r:
    IndexResult)
    requires
        classify(*current_range, *primitive_indices_range) is Some,
    ensures
        classify(*current_range, *primitive_indices_range) == Some(r),
{
    let c = current_range;
    let p = primitive_indices_range;
    if p.start == c.start {
        IndexResult::ExactlyEqual
    } else if p.start > c.end + 1 {
        IndexResult::StrictlyGreater
    } else if p.end + 1 < c.start {
        IndexResult::StrictlyLess
    } else if p.start == c.end + 1 {
        IndexResult::RightOverlap
    } else if p.end + 1 == c.start {
        IndexResult::LeftOverlap
    } else if p.start > c.start && p.end > c.end {
        IndexResult::RightOverlap
    } else if p.start < c.start && p.end < c.end {
        IndexResult::LeftOverlap
    } else if p.start > c.start && p.end < c.end {
        IndexResult::FullyContained
    } else {
        IndexResult::FullyCover
    }
}

/// Replaces the ranges at positions `start_idx .. end_idx` with one range
/// that spans them and `primitive_indices_range`.
pub fn splice_range(
    range_vec: &mut Vec<Range<usize>>,
    primitive_indices_range: &Range<usize>,
    start_idx: usize,
    end_idx: usize,
)
    requires
        start_idx < end_idx <= old(range_vec).len(),
    ensures
        final(range_vec)@ == splice(old(range_vec)@, *primitive_indices_range, start_idx as int, end_idx as int),
{
    let p = primitive_indices_range;
    let first_start = range_vec[start_idx].start;
    let last_end = range_vec[end_idx - 1].end;
    let left = if p.start < first_start { p.start } else { first_start };
    let right = if p.end > last_end { p.end } else { last_end };
    let mut tail = range_vec.split_off(end_idx);
    range_vec.truncate(start_idx);
    range_vec.push(Range { start: left, end: right });
    range_vec.append(&mut tail);
}

/// Merges `primitive_indices_range` into the list of ranges `range_vec`, as
/// [`merged_ranges`] says: the ranges that overlap it or lie within one
/// index of it are fused with it; a range that already holds it, or that
/// starts where it starts, is left as it is; where it touches no range it is
/// inserted in its place.
pub fn define_index_ranges(
    range_vec: &mut Vec<Range<usize>>,
    primitive_indices_range: &Range<usize>,
)
    ensures
        final(range_vec)@ == merged_ranges(old(range_vec)@, *primitive_indices_range),
{
    let p = primitive_indices_range;
    let ghost rs = range_vec@;
    let len = range_vec.len();
    let mut a: usize = 0;
    while a < len && range_vec[a].end < p.start && p.start - range_vec[a].end > 1
        invariant
            a <= len,
            len == rs.len(),
            range_vec@ == rs,
            *p == *primitive_indices_range,
            first_not_before(rs, *p, 0) == first_not_before(rs, *p, a as int),
        decreases len - a,
    {
        a += 1;
    }
    let mut b: usize = a;
    while b < len && !(range_vec[b].start > p.end && range_vec[b].start - p.end > 1)
        invariant
            a <= b <= len,
            len == rs.len(),
            range_vec@ == rs,
            *p == *primitive_indices_range,
            a == first_not_before(rs, *p, 0),
            first_after(rs, *p, a as int) == first_after(rs, *p, b as int),
        decreases len - b,
    {
        b += 1;
    }
    if a < len && range_vec[a].start == p.start {
        return;
    }
    if a < b {
        splice_range(range_vec, p, a, b);
    } else {
        range_vec.insert(a, Range { start: p.start, end: p.end });
    }
}

/// The range at position `k` ends more than one index before the next one
/// starts.
pub open spec fn gap_after(rs: Seq<Range<usize>>, k: int) -> bool {
    rs[k].end + 1 < rs[k + 1].start
}

/// Every range is non-empty, and each ends more than one index before the
/// next one starts.
pub open spec fn well_formed(rs: Seq<Range<usize>>) -> bool {
    &&& forall|k: int| 0 <= k < rs.len() ==> (#[trigger] rs[k]).start < rs[k].end
    &&& forall|k: int| 0 <= k < rs.len() - 1 ==> #[trigger] gap_after(rs, k)
}

/// Indices `lo .. hi` lie within one range of `rs`.
pub open spec fn contained(rs: Seq<Range<usize>>, lo: int, hi: int) -> bool {
    exists|k: int| 0 <= k < rs.len() && #[trigger] rs[k].start <= lo && hi <= rs[k].end
}

proof fn lemma_well_formed_apart(rs: Seq<Range<usize>>, i: int, j: int)
    requires
        well_formed(rs),
        0 <= i < j < rs.len(),
    ensures
        rs[i].end + 1 < rs[j].start,
    decreases j - i,
{
    assert(gap_after(rs, j - 1));
    if j > i + 1 {
        lemma_well_formed_apart(rs, i, j - 1);
        assert(rs[j - 1].start < rs[j - 1].end);
    }
}

/// `r`, the merge of `p` into `rs`, is well formed; every old range lies
/// within one of its ranges; each of its ranges is an old range or holds
/// `p`; and it has at most one range more.
pub open spec fn merge_keeps_shape(rs: Seq<Range<usize>>, p: Range<usize>, r: Seq<Range<usize>>) -> bool {
    &&& well_formed(r)
    &&& forall|k: int| 0 <= k < rs.len() ==> contained(r, #[trigger] rs[k].start as int, rs[k].end as int)
    &&& forall|j: int|
        0 <= j < r.len() ==> (exists|k: int| 0 <= k < rs.len() && #[trigger] r[j] == rs[k]) || (
        r[j].start <= p.start && p.end <= r[j].end)
    &&& r.len() <= rs.len() + 1
}

proof fn lemma_fused_holds(rs: Seq<Range<usize>>, p: Range<usize>, a: int, b: int)
    requires
        well_formed(rs),
        0 <= a < b <= rs.len(),
    ensures
        forall|k: int|
            a <= k < b ==> min_usize(p.start, rs[a].start) <= #[trigger] rs[k].start && rs[k].end
                <= max_usize(p.end, rs[b - 1].end),
{
    assert forall|k: int| a <= k < b implies min_usize(p.start, rs[a].start) <= #[trigger] rs[k].start
        && rs[k].end <= max_usize(p.end, rs[b - 1].end) by {
        if k > a {
            lemma_well_formed_apart(rs, a, k);
        }
        if k < b - 1 {
            lemma_well_formed_apart(rs, k, b - 1);
        }
    }
}

proof fn lemma_fused_well_formed(rs: Seq<Range<usize>>, p: Range<usize>, a: int, b: int)
    requires
        well_formed(rs),
        p.start < p.end,
        0 <= a < b <= rs.len(),
        a > 0 ==> ends_before(rs[a - 1], p),
        b < rs.len() ==> starts_after(rs[b], p),
    ensures
        well_formed(splice(rs, p, a, b)),
{
    let r = splice(rs, p, a, b);
    lemma_splice_shape(rs, p, a, b);
    assert forall|k: int| 0 <= k < r.len() implies (#[trigger] r[k]).start < r[k].end by {
        if k > a {
            assert(r[k] == rs[k + (b - a) - 1]);
        } else if k < a {
            assert(r[k] == rs[k]);
        }
    }
    assert forall|k: int| 0 <= k < r.len() - 1 implies #[trigger] gap_after(r, k) by {
        if k + 1 < a {
            assert(r[k] == rs[k] && r[k + 1] == rs[k + 1]);
            assert(gap_after(rs, k));
        } else if k + 1 == a {
            assert(r[a - 1] == rs[a - 1]);
            assert(gap_after(rs, a - 1));
        } else if k == a {
            assert(r[a + 1] == rs[b]);
            assert(gap_after(rs, b - 1));
        } else {
            assert(r[k] == rs[k + (b - a) - 1]);
            assert(r[k + 1] == rs[k + 1 + (b - a) - 1]);
            assert(gap_after(rs, k + (b - a) - 1));
        }
    }
}

proof fn lemma_fused_unchanged(rs: Seq<Range<usize>>, p: Range<usize>, a: int, b: int)
    requires
        well_formed(rs),
        p.start < p.end,
        0 <= a < b <= rs.len(),
        forall|j: int| 0 <= j < a ==> ends_before(#[trigger] rs[j], p),
        !ends_before(rs[a], p),
        forall|j: int| a <= j < b ==> !starts_after(#[trigger] rs[j], p),
        contained(rs, p.start as int, p.end as int),
    ensures
        splice(rs, p, a, b) == rs,
{
    let r = splice(rs, p, a, b);
    lemma_splice_shape(rs, p, a, b);
    let k = choose|k: int| 0 <= k < rs.len() && #[trigger] rs[k].start <= p.start && p.end <= rs[k].end;
    if k < a {
        assert(ends_before(rs[k], p));
    }
    if k > a {
        lemma_well_formed_apart(rs, a, k);
    }
    assert(k == a);
    if b > a + 1 {
        lemma_well_formed_apart(rs, a, a + 1);
        assert(!starts_after(rs[a + 1], p));
    }
    assert(b == a + 1);
    assert(r =~= rs);
}

proof fn lemma_merge_fused(rs: Seq<Range<usize>>, p: Range<usize>, a: int, b: int)
    requires
        well_formed(rs),
        p.start < p.end,
        0 <= a < b <= rs.len(),
        forall|j: int| 0 <= j < a ==> ends_before(#[trigger] rs[j], p),
        !ends_before(rs[a], p),
        forall|j: int| a <= j < b ==> !starts_after(#[trigger] rs[j], p),
        b < rs.len() ==> starts_after(rs[b], p),
    ensures
        merge_keeps_shape(rs, p, splice(rs, p, a, b)),
        contained(splice(rs, p, a, b), p.start as int, p.end as int),
        contained(rs, p.start as int, p.end as int) ==> splice(rs, p, a, b) == rs,
{
    let r = splice(rs, p, a, b);
    lemma_splice_shape(rs, p, a, b);
    lemma_fused_holds(rs, p, a, b);
    lemma_fused_well_formed(rs, p, a, b);
    assert forall|k: int| 0 <= k < rs.len() implies contained(r, #[trigger] rs[k].start as int, rs[k].end as int) by {
        if k < a {
            assert(r[k] == rs[k]);
        } else if k >= b {
            assert(r[k - (b - a) + 1] == rs[k]);
        } else {
            assert(r[a].start <= rs[k].start && rs[k].end <= r[a].end);
        }
    }
    assert(r[a].start <= p.start && p.end <= r[a].end);
    assert forall|j: int| 0 <= j < r.len() implies (exists|k: int| 0 <= k < rs.len() && #[trigger] r[j] == rs[k]) || (
        r[j].start <= p.start && p.end <= r[j].end) by {
        if j < a {
            assert(r[j] == rs[j]);
        } else if j > a {
            assert(r[j] == rs[j + (b - a) - 1]);
        }
    }
    if contained(rs, p.start as int, p.end as int) {
        lemma_fused_unchanged(rs, p, a, b);
    }
}

proof fn lemma_merge_inserted(rs: Seq<Range<usize>>, p: Range<usize>, a: int)
    requires
        well_formed(rs),
        p.start < p.end,
        0 <= a <= rs.len(),
        forall|j: int| 0 <= j < a ==> ends_before(#[trigger] rs[j], p),
        a < rs.len() ==> starts_after(rs[a], p),
    ensures
        merge_keeps_shape(rs, p, rs.insert(a, p)),
        contained(rs.insert(a, p), p.start as int, p.end as int),
        !contained(rs, p.start as int, p.end as int),
{
    let r = rs.insert(a, p);
    assert forall|k: int| 0 <= k < r.len() implies #[trigger] r[k] == if k < a {
        rs[k]
    } else if k == a {
        p
    } else {
        rs[k - 1]
    } by {}
    assert forall|k: int| 0 <= k < r.len() implies (#[trigger] r[k]).start < r[k].end by {
        if k > a {
            assert(r[k] == rs[k - 1]);
        }
    }
    assert forall|k: int| 0 <= k < r.len() - 1 implies #[trigger] gap_after(r, k) by {
        if k + 1 < a {
            assert(gap_after(rs, k));
        } else if k + 1 == a {
            assert(ends_before(rs[a - 1], p));
        } else if k == a {
            assert(starts_after(rs[a], p));
        } else {
            assert(r[k] == rs[k - 1]);
            assert(r[k + 1] == rs[k]);
            assert(gap_after(rs, k - 1));
        }
    }
    assert forall|k: int| 0 <= k < rs.len() implies contained(r, #[trigger] rs[k].start as int, rs[k].end as int) by {
        if k < a {
            assert(r[k] == rs[k]);
        } else {
            assert(r[k + 1] == rs[k]);
        }
    }
    assert(r[a] == p);
    assert forall|j: int| 0 <= j < r.len() implies (exists|k: int| 0 <= k < rs.len() && #[trigger] r[j] == rs[k]) || (
        r[j].start <= p.start && p.end <= r[j].end) by {
        if j < a {
            assert(r[j] == rs[j]);
        } else if j > a {
            assert(r[j] == rs[j - 1]);
        }
    }
    if contained(rs, p.start as int, p.end as int) {
        let k = choose|k: int| 0 <= k < rs.len() && #[trigger] rs[k].start <= p.start && p.end <= rs[k].end;
        if k < a {
            assert(ends_before(rs[k], p));
        } else {
            if k > a {
                lemma_well_formed_apart(rs, a, k);
            }
            assert(starts_after(rs[a], p));
        }
    }
}

proof fn lemma_same_start_decides(rs: Seq<Range<usize>>, p: Range<usize>, k: int)
    requires
        well_formed(rs),
        0 <= k < rs.len(),
        rs[k].start == p.start,
    ensures
        first_not_before(rs, p, 0) == k,
{
    let a = first_not_before(rs, p, 0);
    lemma_first_not_before(rs, p, 0);
    if a < k {
        lemma_well_formed_apart(rs, a, k);
    }
    if a > k {
        assert(ends_before(rs[k], p));
    }
}

/// Merging a non-empty range into a well-formed list keeps it well formed;
/// every old range lies within one range of the merged list; every merged
/// range is an old range or holds the new one; the list grows by at most one
/// range. A range that one range already holds, or that starts where one
/// range starts, leaves the list as it is; any other lies within one range of
/// the merged list.
pub proof fn lemma_merged_ranges_well_formed(rs: Seq<Range<usize>>, p: Range<usize>)
    requires
        well_formed(rs),
        p.start < p.end,
    ensures
        merge_keeps_shape(rs, p, merged_ranges(rs, p)),
        contained(rs, p.start as int, p.end as int) ==> merged_ranges(rs, p) == rs,
        (exists|k: int| 0 <= k < rs.len() && #[trigger] rs[k].start == p.start) ==> merged_ranges(
            rs,
            p,
        ) == rs,
        (forall|k: int| 0 <= k < rs.len() ==> #[trigger] rs[k].start != p.start) ==> contained(
            merged_ranges(rs, p),
            p.start as int,
            p.end as int,
        ),
{
    let a = first_not_before(rs, p, 0);
    lemma_first_not_before(rs, p, 0);
    let b = first_after(rs, p, a);
    lemma_first_after(rs, p, a);
    if exists|k: int| 0 <= k < rs.len() && #[trigger] rs[k].start == p.start {
        let k = choose|k: int| 0 <= k < rs.len() && #[trigger] rs[k].start == p.start;
        lemma_same_start_decides(rs, p, k);
    }
    if a < rs.len() && rs[a].start == p.start {
        assert forall|k: int| 0 <= k < rs.len() implies contained(rs, #[trigger] rs[k].start as int, rs[k].end as int) by {
            assert(rs[k].start <= rs[k].start && rs[k].end <= rs[k].end);
        }
        assert forall|j: int| 0 <= j < rs.len() implies (exists|k: int| 0 <= k < rs.len() && #[trigger] rs[j] == rs[k]) || (
            rs[j].start <= p.start && p.end <= rs[j].end) by {
            assert(rs[j] == rs[j]);
        }
    } else if a < b {
        lemma_merge_fused(rs, p, a, b);
    } else {
        lemma_merge_inserted(rs, p, a);
    }
}

proof fn lemma_splice_shape(rs: Seq<Range<usize>>, p: Range<usize>, a: int, b: int)
    requires
        0 <= a < b <= rs.len(),
    ensures
        splice(rs, p, a, b).len() == rs.len() - (b - a) + 1,
        forall|j: int| 0 <= j < a ==> #[trigger] splice(rs, p, a, b)[j] == rs[j],
        splice(rs, p, a, b)[a] == (Range {
            start: min_usize(p.start, rs[a].start),
            end: max_usize(p.end, rs[b - 1].end),
        }),
        forall|j: int|
            b <= j < rs.len() ==> #[trigger] splice(rs, p, a, b)[j - (b - a) + 1] == rs[j],
{
    let s = splice(rs, p, a, b);
    assert forall|j: int| b <= j < rs.len() implies #[trigger] s[j - (b - a) + 1] == rs[j] by {
        assert(s[j - (b - a) + 1] == rs.subrange(b, rs.len() as int)[j - b]);
    }
}

} // verus!
