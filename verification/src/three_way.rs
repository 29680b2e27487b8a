//! Three-way merge view: the changes of the left and of the right text
//! against the base are grouped into blocks where they touch or overlap;
//! each block is classified (changed on one side, changed alike on both,
//! or in conflict) and laid out with ghost lines so that the three panes
//! stay aligned.

use vstd::prelude::*;
use crate::models::{ThreeWayLine, ThreeWayResult, ThreeWayStatus};
use crate::text::lines_of;
use crate::sequence_diff::{slice_diff, spans_all_equal, spans_cover, spec_slice_diff, DiffSpan, SpanTag};

verus! {

/// A changed region of one side against the base: base lines
/// `old_start..old_end` became side lines `new_start..new_end`.
#[derive(Debug, Clone, Copy)]
pub struct Hunk {
    pub old_start: usize,
    pub old_end: usize,
    pub new_start: usize,
    pub new_end: usize,
}

/// How far the side's line numbers run ahead of the base's after the first
/// `k` hunks.
pub open spec fn hoff(h: Seq<Hunk>, k: int) -> int {
    if k <= 0 {
        0
    } else {
        h[k - 1].new_end - h[k - 1].old_end
    }
}

/// The hunks of a side of `side_len` lines against a base of `base_len`
/// lines, in order, with unchanged stretches of equal length between them.
pub open spec fn valid_hunks(h: Seq<Hunk>, base_len: int, side_len: int) -> bool {
    &&& forall|k: int|
        0 <= k < h.len() ==> (#[trigger] h[k]).old_start <= h[k].old_end && h[k].new_start
            <= h[k].new_end
    &&& forall|k: int|
        #![trigger h[k], h[k + 1]]
        0 <= k < h.len() - 1 ==> h[k + 1].old_start >= h[k].old_end && h[k + 1].new_start >= h[k].new_end
    &&& forall|k: int| 0 <= k < h.len() ==> (#[trigger] h[k]).new_start - h[k].old_start == hoff(h, k)
    &&& hoff(h, h.len() as int) == side_len - base_len
    &&& h.len() > 0 ==> h.last().old_end <= base_len
}

/// The changed spans of a slice diff, as hunks.
pub open spec fn hunks_of(spans: Seq<DiffSpan>) -> Seq<Hunk>
    decreases spans.len(),
{
    if spans.len() == 0 {
        seq![]
    } else {
        let prev = hunks_of(spans.drop_last());
        let s = spans.last();
        if s.tag == SpanTag::Equal {
            prev
        } else {
            prev.push(Hunk { old_start: s.old_start, old_end: s.old_end, new_start: s.new_start, new_end: s.new_end })
        }
    }
}

pub open spec fn pos_old(spans: Seq<DiffSpan>, j: int, base_len: int) -> int {
    if j < spans.len() {
        spans[j].old_start as int
    } else {
        base_len
    }
}

pub open spec fn pos_new(spans: Seq<DiffSpan>, j: int, side_len: int) -> int {
    if j < spans.len() {
        spans[j].new_start as int
    } else {
        side_len
    }
}

/// Base line `p`, in the stretch after the first `i` hunks, is the side's
/// line at the offset those hunks give.
pub open spec fn gap_ok(h: Seq<Hunk>, base: Seq<Seq<char>>, side: Seq<Seq<char>>, i: int, p: int) -> bool {
    base[p] == side[p + hoff(h, i)]
}

/// The lines between the hunks of a side are the base's lines: each base
/// line outside the hunks is the side's line at the offset the hunks before
/// it give.
pub open spec fn gaps_equal(h: Seq<Hunk>, base: Seq<Seq<char>>, side: Seq<Seq<char>>) -> bool {
    forall|i: int, p: int|
        0 <= i <= h.len() && (i > 0 ==> h[i - 1].old_end <= p) && (i < h.len() ==> p < h[i].old_start) && 0 <= p < base.len()
            ==> #[trigger] gap_ok(h, base, side, i, p)
}

/// Every span of an edit script ends within both sequences.
proof fn lemma_spans_within<T>(spans: Seq<DiffSpan>, old: Seq<T>, new: Seq<T>, k: int)
    requires
        spans_cover(spans, old, new),
        0 <= k <= spans.len(),
    ensures
        forall|m: int| k <= m < spans.len() ==> (#[trigger] spans[m]).old_end <= old.len() && spans[m].new_end <= new.len(),
    decreases spans.len() - k,
{
    if k < spans.len() {
        lemma_spans_within(spans, old, new, k + 1);
        if k + 1 < spans.len() {
            assert(spans[k + 1].old_start == spans[k].old_end);
            assert(spans[k + 1].old_start <= spans[k + 1].old_end);
            assert(spans[k + 1].new_start <= spans[k + 1].new_end);
        }
    }
}

/// The hunks of a list that is ordered between neighbours are ordered
/// between any two.
proof fn lemma_hunks_prefix_ordered(h: Seq<Hunk>, i: int, n: int)
    requires
        0 <= i <= n < h.len(),
        forall|k: int| 0 <= k < h.len() ==> (#[trigger] h[k]).old_start <= h[k].old_end,
        forall|k: int| #![trigger h[k], h[k + 1]] 0 <= k < h.len() - 1 ==> h[k + 1].old_start >= h[k].old_end,
    ensures
        h[i].old_start <= h[n].old_end,
    decreases n - i,
{
    if i < n {
        lemma_hunks_prefix_ordered(h, i + 1, n);
        assert(h[i + 1].old_start >= h[i].old_end);
    }
}

/// The changed spans of a diff, in order.
fn extract_hunks(spans: &Vec<DiffSpan>, Ghost(base): Ghost<Seq<Seq<char>>>, Ghost(side): Ghost<Seq<Seq<char>>>) -> (h: Vec<Hunk>)
    requires
        spans_cover(spans@, base, side),
    ensures
        h@ == hunks_of(spans@),
        valid_hunks(h@, base.len() as int, side.len() as int),
        gaps_equal(h@, base, side),
{
    let ghost base_len = base.len() as int;
    let ghost side_len = side.len() as int;
    let mut h: Vec<Hunk> = Vec::new();
    let mut j: usize = 0;
    proof {
        assert(spans@.take(0) =~= Seq::<DiffSpan>::empty());
        lemma_spans_within(spans@, base, side, 0);
    }
    while j < spans.len()
        invariant
            j <= spans@.len(),
            base_len == base.len(),
            side_len == side.len(),
            spans_cover(spans@, base, side),
            forall|k: int| 0 <= k < spans@.len() ==> (#[trigger] spans@[k]).old_end <= base_len && spans@[k].new_end <= side_len,
            forall|i: int, p: int|
                0 <= i <= h@.len() && (i > 0 ==> h@[i - 1].old_end <= p) && (i < h@.len() ==> p < h@[i].old_start) && 0 <= p
                    < pos_old(spans@, j as int, base_len) ==> #[trigger] gap_ok(h@, base, side, i, p),
            h@ == hunks_of(spans@.take(j as int)),
            forall|k: int|
                0 <= k < h@.len() ==> (#[trigger] h@[k]).old_start <= h@[k].old_end && h@[k].new_start
                    <= h@[k].new_end,
            forall|k: int|
                #![trigger h@[k], h@[k + 1]]
                0 <= k < h@.len() - 1 ==> h@[k + 1].old_start >= h@[k].old_end && h@[k + 1].new_start >= h@[k].new_end,
            forall|k: int| 0 <= k < h@.len() ==> (#[trigger] h@[k]).new_start - h@[k].old_start == hoff(h@, k),
            pos_new(spans@, j as int, side_len) - pos_old(spans@, j as int, base_len) == hoff(h@, h@.len() as int),
            h@.len() > 0 ==> h@.last().old_end <= pos_old(spans@, j as int, base_len)
                && h@.last().new_end <= pos_new(spans@, j as int, side_len),
        decreases spans@.len() - j,
    {
        let sp = spans[j];
        let ghost h0 = h@;
        proof {
            assert(spans@.take(j + 1).drop_last() =~= spans@.take(j as int));
            assert(spans@[j as int] == sp);
            if j + 1 < spans@.len() {
                assert(spans@[j + 1].old_start == sp.old_end);
            }
            if j > 0 {
                assert(spans@[j - 1 + 1].old_start == spans@[j - 1].old_end);
            }
            assert(pos_old(spans@, j as int, base_len) == sp.old_start);
        }
        if sp.tag != SpanTag::Equal {
            let hk = Hunk { old_start: sp.old_start, old_end: sp.old_end, new_start: sp.new_start, new_end: sp.new_end };
            h.push(hk);
            proof {
                assert forall|i: int, p: int|
                    0 <= i <= h@.len() && (i > 0 ==> h@[i - 1].old_end <= p) && (i < h@.len() ==> p < h@[i].old_start) && 0
                        <= p < pos_old(spans@, j + 1, base_len) implies #[trigger] gap_ok(h@, base, side, i, p) by {
                    if i < h@.len() {
                        assert(h@[i] == h0[i] || i == h0.len());
                        if i > 0 {
                            assert(h@[i - 1] == h0[i - 1]);
                        }
                        assert(hoff(h@, i) == hoff(h0, i));
                        if i < h0.len() {
                            lemma_hunks_prefix_ordered(h0, i, h0.len() - 1);
                        }
                        assert(p < pos_old(spans@, j as int, base_len));
                        assert(gap_ok(h0, base, side, i, p));
                    } else {
                        assert(h@[i - 1] == hk);
                        assert(false);
                    }
                }
            }
        } else {
            proof {
                let n = h@.len() as int;
                assert forall|i: int, p: int|
                    0 <= i <= h@.len() && (i > 0 ==> h@[i - 1].old_end <= p) && (i < h@.len() ==> p < h@[i].old_start) && 0
                        <= p < pos_old(spans@, j + 1, base_len) implies #[trigger] gap_ok(h@, base, side, i, p) by {
                    if p < sp.old_start {
                        assert(gap_ok(h0, base, side, i, p));
                    } else {
                        if i < n {
                            if n > 0 {
                                assert(h@[n - 1].old_end <= sp.old_start);
                            }
                            lemma_hunks_prefix_ordered(h@, i, n - 1);
                            assert(false);
                        }
                        assert(i == n);
                        let q = p - sp.old_start;
                        assert(base.subrange(sp.old_start as int, sp.old_end as int)[q]
                            == side.subrange(sp.new_start as int, sp.new_end as int)[q]);
                        assert(sp.new_start - sp.old_start == hoff(h@, n));
                    }
                }
            }
        }
        j = j + 1;
    }
    proof {
        assert(spans@.take(spans@.len() as int) =~= spans@);
        assert forall|i: int, p: int|
            0 <= i <= h@.len() && (i > 0 ==> h@[i - 1].old_end <= p) && (i < h@.len() ==> p < h@[i].old_start) && 0 <= p
                < base.len() implies #[trigger] gap_ok(h@, base, side, i, p) by {
            assert(pos_old(spans@, spans@.len() as int, base_len) == base_len);
        }
    }
    h
}

/// Hunks of a valid list are ordered on both sides, all of them, and lie
/// within both texts.
pub proof fn lemma_hunks_ordered(h: Seq<Hunk>, base_len: int, side_len: int)
    requires
        valid_hunks(h, base_len, side_len),
    ensures
        forall|i: int, j: int|
            0 <= i < j < h.len() ==> (#[trigger] h[i]).old_end <= (#[trigger] h[j]).old_start
                && h[i].new_end <= h[j].new_start,
        forall|k: int| 0 <= k < h.len() ==> (#[trigger] h[k]).old_end <= base_len && h[k].new_end <= side_len,
{
    assert forall|i: int, j: int| 0 <= i < j < h.len() implies (#[trigger] h[i]).old_end <= (#[trigger] h[j]).old_start
        && h[i].new_end <= h[j].new_start by {
        lemma_chain(h, base_len, side_len, i, j);
    }
    assert forall|k: int| 0 <= k < h.len() implies (#[trigger] h[k]).old_end <= base_len && h[k].new_end <= side_len by {
        lemma_within(h, base_len, side_len, k);
    }
}

proof fn lemma_within(h: Seq<Hunk>, base_len: int, side_len: int, k: int)
    requires
        valid_hunks(h, base_len, side_len),
        0 <= k < h.len(),
    ensures
        h[k].old_end <= base_len,
        h[k].new_end <= side_len,
{
    let n = h.len() - 1;
    assert(hoff(h, h.len() as int) == h[n].new_end - h[n].old_end);
    if k < n {
        lemma_chain(h, base_len, side_len, k, n);
        assert(h[n].old_start <= h[n].old_end);
        assert(h[n].new_start <= h[n].new_end);
    }
}

proof fn lemma_chain(h: Seq<Hunk>, base_len: int, side_len: int, i: int, j: int)
    requires
        valid_hunks(h, base_len, side_len),
        0 <= i < j < h.len(),
    ensures
        h[i].old_end <= h[j].old_start,
        h[i].new_end <= h[j].new_start,
    decreases j - i,
{
    assert(h[j - 1 + 1].old_start >= h[j - 1].old_end);
    if i < j - 1 {
        lemma_chain(h, base_len, side_len, i, j - 1);
    }
}

/// The growth of the side against the base over hunks `a..b`.
pub open spec fn net(h: Seq<Hunk>, a: int, b: int) -> int
    decreases b - a,
{
    if b <= a {
        0
    } else {
        net(h, a, b - 1) + ((h[b - 1].new_end - h[b - 1].new_start) - (h[b - 1].old_end - h[b - 1].old_start))
    }
}

pub proof fn lemma_net(h: Seq<Hunk>, base_len: int, side_len: int, a: int, b: int)
    requires
        valid_hunks(h, base_len, side_len),
        0 <= a <= b <= h.len(),
    ensures
        net(h, a, b) == hoff(h, b) - hoff(h, a),
    decreases b - a,
{
    if a < b {
        lemma_net(h, base_len, side_len, a, b - 1);
        assert(h[b - 1].new_start - h[b - 1].old_start == hoff(h, b - 1));
    }
}

pub open spec fn expand_measure(lh: Seq<Hunk>, rh: Seq<Hunk>, li: int, ri: int) -> int {
    (if 0 <= li < lh.len() { lh.len() - li } else { 0 }) + (if 0 <= ri < rh.len() { rh.len() - ri } else { 0 })
}

/// Grows a group of hunks: while the next left or the next right hunk
/// starts at or before the group's end in the base, it joins the group.
/// Gives the next unconsumed hunks, the group's end and which sides it has.
pub open spec fn expand(lh: Seq<Hunk>, rh: Seq<Hunk>, li: int, ri: int, end: int, hl: bool, hr: bool) -> (int, int, int, bool, bool)
    decreases expand_measure(lh, rh, li, ri),
{
    let take_l = 0 <= li < lh.len() && lh[li].old_start <= end;
    let end1 = if take_l && lh[li].old_end > end { lh[li].old_end as int } else { end };
    let li1 = if take_l { li + 1 } else { li };
    let take_r = 0 <= ri < rh.len() && rh[ri].old_start <= end1;
    let end2 = if take_r && rh[ri].old_end > end1 { rh[ri].old_end as int } else { end1 };
    let ri1 = if take_r { ri + 1 } else { ri };
    if !take_l && !take_r {
        (li, ri, end, hl, hr)
    } else {
        expand(lh, rh, li1, ri1, end2, hl || take_l, hr || take_r)
    }
}

pub proof fn lemma_expand(lh: Seq<Hunk>, rh: Seq<Hunk>, li: int, ri: int, end: int, hl: bool, hr: bool, base_len: int)
    requires
        0 <= li <= lh.len(),
        0 <= ri <= rh.len(),
        end <= base_len,
        forall|k: int| 0 <= k < lh.len() ==> (#[trigger] lh[k]).old_end <= base_len,
        forall|k: int| 0 <= k < rh.len() ==> (#[trigger] rh[k]).old_end <= base_len,
    ensures
        ({
            let (li2, ri2, end2, hl2, hr2) = expand(lh, rh, li, ri, end, hl, hr);
            &&& li <= li2 <= lh.len()
            &&& ri <= ri2 <= rh.len()
            &&& end <= end2 <= base_len
            &&& forall|k: int| li <= k < li2 ==> (#[trigger] lh[k]).old_end <= end2
            &&& forall|k: int| ri <= k < ri2 ==> (#[trigger] rh[k]).old_end <= end2
            &&& li2 < lh.len() ==> lh[li2].old_start > end2
            &&& ri2 < rh.len() ==> rh[ri2].old_start > end2
            &&& hl2 == (hl || li2 > li)
            &&& hr2 == (hr || ri2 > ri)
        }),
    decreases expand_measure(lh, rh, li, ri),
{
    let take_l = 0 <= li < lh.len() && lh[li].old_start <= end;
    let end1 = if take_l && lh[li].old_end > end { lh[li].old_end as int } else { end };
    let li1 = if take_l { li + 1 } else { li };
    let take_r = 0 <= ri < rh.len() && rh[ri].old_start <= end1;
    let end2 = if take_r && rh[ri].old_end > end1 { rh[ri].old_end as int } else { end1 };
    let ri1 = if take_r { ri + 1 } else { ri };
    if take_l || take_r {
        lemma_expand(lh, rh, li1, ri1, end2, hl || take_l, hr || take_r, base_len);
    }
}

/// The end of a side's range in a block: the base's extent shifted by the
/// side's net growth, kept within the side.
pub open spec fn side_end(pos: int, base_count: int, present: bool, growth: int, len: int) -> int {
    if !present {
        pos + base_count
    } else {
        let e = pos + base_count + growth;
        let e0 = if e < 0 { 0 } else { e };
        if e0 < len { e0 } else { len }
    }
}

/// A block of the merge view: aligned ranges of the three texts.
#[derive(Debug, Clone, Copy)]
pub struct DiffBlock {
    pub left_start: usize,
    pub left_end: usize,
    pub base_start: usize,
    pub base_end: usize,
    pub right_start: usize,
    pub right_end: usize,
    pub status: ThreeWayStatus,
}

pub open spec fn merge_measure(lh: Seq<Hunk>, rh: Seq<Hunk>, li: int, ri: int) -> int {
    expand_measure(lh, rh, li, ri)
}

/// Where the next hunk of a side starts in the base; past the last hunk,
/// the largest index.
pub open spec fn next_start(h: Seq<Hunk>, i: int) -> int {
    if 0 <= i < h.len() {
        h[i].old_start as int
    } else {
        usize::MAX as int
    }
}

/// The next block of the merge of the left hunks from `li` and the right
/// hunks from `ri`, the previous block having ended at base line `bp`, left
/// line `lp` and right line `rp`; with the next unconsumed hunks of each
/// side. The block starts at the earliest next hunk, grows over all hunks
/// that touch it, takes on each side the base's extent shifted by that
/// side's growth, and is marked by the sides it holds; when it holds both,
/// by whether both give the same lines.
pub open spec fn next_block(
    lh: Seq<Hunk>,
    rh: Seq<Hunk>,
    li: int,
    ri: int,
    bp: int,
    lp: int,
    rp: int,
    left: Seq<Seq<char>>,
    right: Seq<Seq<char>>,
) -> (DiffBlock, int, int) {
    let ls = next_start(lh, li);
    let rs = next_start(rh, ri);
    let first = if ls <= rs { ls } else { rs };
    let lp1 = lp + (first - bp);
    let rp1 = rp + (first - bp);
    let seed_left = ls <= rs;
    let li1 = if seed_left { li + 1 } else { li };
    let ri1 = if seed_left { ri } else { ri + 1 };
    let end0 = if seed_left { lh[li].old_end as int } else { rh[ri].old_end as int };
    let ex = expand(lh, rh, li1, ri1, end0, seed_left, !seed_left);
    let li2 = ex.0;
    let ri2 = ex.1;
    let end = ex.2;
    let hl = ex.3;
    let hr = ex.4;
    let bc = end - first;
    let le = side_end(lp1, bc, hl, net(lh, li, li2), left.len() as int);
    let re = side_end(rp1, bc, hr, net(rh, ri, ri2), right.len() as int);
    let status = if hl && hr {
        if left.subrange(lp1, le) == right.subrange(rp1, re) {
            ThreeWayStatus::BothChanged
        } else {
            ThreeWayStatus::Conflict
        }
    } else if hl {
        ThreeWayStatus::LeftChanged
    } else {
        ThreeWayStatus::RightChanged
    };
    let block = DiffBlock {
        left_start: lp1 as usize,
        left_end: le as usize,
        base_start: first as usize,
        base_end: end as usize,
        right_start: rp1 as usize,
        right_end: re as usize,
        status,
    };
    (block, li2, ri2)
}

/// The blocks of the merge of the left hunks from `li` and the right hunks
/// from `ri`, the previous block having ended at base line `bp`, left line
/// `lp` and right line `rp` (see `next_block`).
pub open spec fn merge_from(
    lh: Seq<Hunk>,
    rh: Seq<Hunk>,
    li: int,
    ri: int,
    bp: int,
    lp: int,
    rp: int,
    left: Seq<Seq<char>>,
    right: Seq<Seq<char>>,
) -> Seq<DiffBlock>
    decreases merge_measure(lh, rh, li, ri),
{
    if li < 0 || ri < 0 || (li >= lh.len() && ri >= rh.len()) {
        seq![]
    } else {
        let (block, li2, ri2) = next_block(lh, rh, li, ri, bp, lp, rp, left, right);
        if li2 >= 0 && ri2 >= 0 && merge_measure(lh, rh, li2, ri2) < merge_measure(lh, rh, li, ri) {
            seq![block] + merge_from(
                lh,
                rh,
                li2,
                ri2,
                block.base_end as int,
                block.left_end as int,
                block.right_end as int,
                left,
                right,
            )
        } else {
            seq![block]
        }
    }
}

pub proof fn lemma_expand_advances(lh: Seq<Hunk>, rh: Seq<Hunk>, li: int, ri: int, end: int, hl: bool, hr: bool)
    ensures
        expand(lh, rh, li, ri, end, hl, hr).0 >= li,
        expand(lh, rh, li, ri, end, hl, hr).1 >= ri,
    decreases expand_measure(lh, rh, li, ri),
{
    let take_l = 0 <= li < lh.len() && lh[li].old_start <= end;
    let end1 = if take_l && lh[li].old_end > end { lh[li].old_end as int } else { end };
    let li1 = if take_l { li + 1 } else { li };
    let take_r = 0 <= ri < rh.len() && rh[ri].old_start <= end1;
    let end2 = if take_r && rh[ri].old_end > end1 { rh[ri].old_end as int } else { end1 };
    let ri1 = if take_r { ri + 1 } else { ri };
    if take_l || take_r {
        lemma_expand_advances(lh, rh, li1, ri1, end2, hl || take_l, hr || take_r);
    }
}

/// Where the block before block `k` ended in the base, left and right.
pub open spec fn prev_ends(blocks: Seq<DiffBlock>, k: int) -> (int, int, int) {
    if k <= 0 {
        (0, 0, 0)
    } else {
        (blocks[k - 1].base_end as int, blocks[k - 1].left_end as int, blocks[k - 1].right_end as int)
    }
}

/// Block `k` lies within the three texts, after the block before it, with
/// stretches of equal length on all three texts before it.
pub open spec fn block_aligned(blocks: Seq<DiffBlock>, k: int, base_len: int, left_len: int, right_len: int) -> bool {
    let (pb, pl, pr) = prev_ends(blocks, k);
    let b = blocks[k];
    &&& pb <= b.base_start <= b.base_end <= base_len
    &&& k > 0 ==> pb < b.base_start
    &&& pl <= b.left_start <= b.left_end <= left_len
    &&& pr <= b.right_start <= b.right_end <= right_len
    &&& b.base_start - pb == b.left_start - pl
    &&& b.base_start - pb == b.right_start - pr
}

/// The blocks keep the three texts aligned: each block is aligned, and
/// after the last one the same number of lines is left of each text.
pub open spec fn blocks_aligned(blocks: Seq<DiffBlock>, base_len: int, left_len: int, right_len: int) -> bool {
    &&& forall|k: int| 0 <= k < blocks.len() ==> #[trigger] block_aligned(blocks, k, base_len, left_len, right_len)
    &&& ({
        let (pb, pl, pr) = prev_ends(blocks, blocks.len() as int);
        base_len - pb == left_len - pl && base_len - pb == right_len - pr
    })
}

/// Where a side's range in a block ends: the base's end shifted by the
/// side's offset after the block's hunks; never before the range's start
/// and never past the side's end, so the clamping in `side_end` is idle.
#[verifier::rlimit(60)]
proof fn lemma_side_end(
    h: Seq<Hunk>,
    base_len: int,
    side_len: int,
    i: int,
    i2: int,
    bp: int,
    p: int,
    first: int,
    end: int,
    present: bool,
)
    requires
        valid_hunks(h, base_len, side_len),
        0 <= i <= i2 <= h.len(),
        0 <= bp <= first <= end <= base_len,
        p == bp + hoff(h, i),
        i < h.len() ==> first <= h[i].old_start,
        i > 0 ==> h[i - 1].old_end <= bp,
        forall|k: int| i <= k < i2 ==> (#[trigger] h[k]).old_end <= end,
        i2 < h.len() ==> h[i2].old_start > end,
        present == (i2 > i),
    ensures
        p + (first - bp) + (end - first) + (if present { net(h, i, i2) } else { 0 }) == end + hoff(h, i2),
        side_end(p + (first - bp), end - first, present, net(h, i, i2), side_len) == end + hoff(h, i2),
        0 <= p <= p + (first - bp) <= end + hoff(h, i2) <= side_len,
        i2 > 0 ==> h[i2 - 1].old_end <= end,
{
    lemma_hunks_ordered(h, base_len, side_len);
    lemma_net(h, base_len, side_len, i, i2);
    if i > 0 {
        assert(h[i - 1].new_start <= h[i - 1].new_end);
    }
    if i2 > i {
        assert(h[i2 - 1].old_end <= end);
        if i < i2 - 1 {
            assert(h[i].new_end <= h[i2 - 1].new_start);
        }
        assert(h[i].new_start <= h[i].new_end);
        assert(h[i2 - 1].new_start <= h[i2 - 1].new_end);
    }
    if i2 < h.len() {
        assert(h[i2].new_start <= h[i2].new_end);
        assert(h[i2].new_start - h[i2].old_start == hoff(h, i2));
    }
    if i < h.len() {
        assert(h[i].new_start - h[i].old_start == hoff(h, i));
    }
}

/// Every hunk ends within the base.
proof fn lemma_ends_within(h: Seq<Hunk>, base_len: int, side_len: int)
    requires
        valid_hunks(h, base_len, side_len),
    ensures
        forall|k: int| 0 <= k < h.len() ==> (#[trigger] h[k]).old_end <= base_len,
{
    assert forall|k: int| 0 <= k < h.len() implies (#[trigger] h[k]).old_end <= base_len by {
        lemma_within(h, base_len, side_len, k);
    }
}

/// The merge between blocks: `li` and `ri` are the next unconsumed hunks,
/// the last block ended at base line `bp`, and left line `lp` and right
/// line `rp` are where the base's line `bp` stands on each side.
pub open spec fn merge_state(
    lh: Seq<Hunk>,
    rh: Seq<Hunk>,
    li: int,
    ri: int,
    bp: int,
    lp: int,
    rp: int,
    base_len: int,
    left_len: int,
    right_len: int,
) -> bool {
    &&& valid_hunks(lh, base_len, left_len)
    &&& valid_hunks(rh, base_len, right_len)
    &&& 0 <= li <= lh.len()
    &&& 0 <= ri <= rh.len()
    &&& 0 <= bp <= base_len
    &&& lp == bp + hoff(lh, li)
    &&& rp == bp + hoff(rh, ri)
    &&& li < lh.len() ==> bp <= lh[li].old_start
    &&& ri < rh.len() ==> bp <= rh[ri].old_start
    &&& li > 0 ==> lh[li - 1].old_end <= bp
    &&& ri > 0 ==> rh[ri - 1].old_end <= bp
}

/// Grows a group of hunks (see `expand`).
fn grow_group(lh: &Vec<Hunk>, rh: &Vec<Hunk>, li: usize, ri: usize, end: usize, hl: bool, hr: bool) -> (res: (usize, usize, usize, bool, bool))
    requires
        li <= lh@.len(),
        ri <= rh@.len(),
    ensures
        res.0 as int == expand(lh@, rh@, li as int, ri as int, end as int, hl, hr).0,
        res.1 as int == expand(lh@, rh@, li as int, ri as int, end as int, hl, hr).1,
        res.2 as int == expand(lh@, rh@, li as int, ri as int, end as int, hl, hr).2,
        res.3 == expand(lh@, rh@, li as int, ri as int, end as int, hl, hr).3,
        res.4 == expand(lh@, rh@, li as int, ri as int, end as int, hl, hr).4,
{
    let mut li = li;
    let mut ri = ri;
    let mut end = end;
    let mut hl = hl;
    let mut hr = hr;
    let ghost target = expand(lh@, rh@, li as int, ri as int, end as int, hl, hr);
    loop
        invariant
            li <= lh@.len(),
            ri <= rh@.len(),
            expand(lh@, rh@, li as int, ri as int, end as int, hl, hr) == target,
        ensures
            target == (li as int, ri as int, end as int, hl, hr),
        decreases expand_measure(lh@, rh@, li as int, ri as int),
    {
        let mut expanded = false;
        let ghost (li0, ri0, end0, hl0, hr0) = (li as int, ri as int, end as int, hl, hr);
        if li < lh.len() && lh[li].old_start <= end {
            hl = true;
            if lh[li].old_end > end {
                end = lh[li].old_end;
            }
            li = li + 1;
            expanded = true;
        }
        if ri < rh.len() && rh[ri].old_start <= end {
            hr = true;
            if rh[ri].old_end > end {
                end = rh[ri].old_end;
            }
            ri = ri + 1;
            expanded = true;
        }
        if !expanded {
            proof {
                assert(expand(lh@, rh@, li as int, ri as int, end as int, hl, hr) == (li as int, ri as int, end as int, hl, hr));
            }
            break;
        }
        proof {
            assert(expand(lh@, rh@, li0, ri0, end0, hl0, hr0) == expand(lh@, rh@, li as int, ri as int, end as int, hl, hr));
        }
    }
    (li, ri, end, hl, hr)
}

/// The growth of a side over hunks `a..b`.
fn net_growth(h: &Vec<Hunk>, a: usize, b: usize, Ghost(base_len): Ghost<int>, Ghost(side_len): Ghost<int>) -> (n: i64)
    requires
        valid_hunks(h@, base_len, side_len),
        a <= b <= h@.len(),
        0 <= base_len <= u32::MAX,
        0 <= side_len <= u32::MAX,
    ensures
        n as int == net(h@, a as int, b as int),
{
    let mut n: i64 = 0;
    let mut k: usize = a;
    proof {
        lemma_hunks_ordered(h@, base_len, side_len);
    }
    while k < b
        invariant
            a <= k <= b <= h@.len(),
            valid_hunks(h@, base_len, side_len),
            0 <= base_len <= u32::MAX,
            0 <= side_len <= u32::MAX,
            forall|j: int| 0 <= j < h@.len() ==> (#[trigger] h@[j]).old_end <= base_len && h@[j].new_end <= side_len,
            n as int == net(h@, a as int, k as int),
        decreases b - k,
    {
        let hk = h[k];
        proof {
            lemma_net(h@, base_len, side_len, a as int, k + 1);
            lemma_net(h@, base_len, side_len, a as int, k as int);
            assert(h@[k as int] == hk);
            if a > 0 {
                assert(h@[a - 1].old_end <= base_len);
            }
        }
        n = n + ((hk.new_end - hk.new_start) as i64 - (hk.old_end - hk.old_start) as i64);
        k = k + 1;
    }
    n
}

/// Whether two line ranges hold the same lines.
fn ranges_equal(a: &Vec<String>, a_start: usize, a_end: usize, b: &Vec<String>, b_start: usize, b_end: usize) -> (eq: bool)
    requires
        a_start <= a_end <= a@.len(),
        b_start <= b_end <= b@.len(),
    ensures
        eq == (lines_of(a@).subrange(a_start as int, a_end as int) == lines_of(b@).subrange(b_start as int, b_end as int)),
{
    if a_end - a_start != b_end - b_start {
        proof {
            assert(lines_of(a@).subrange(a_start as int, a_end as int).len() != lines_of(b@).subrange(b_start as int, b_end as int).len());
        }
        return false;
    }
    let n = a_end - a_start;
    let mut k: usize = 0;
    while k < n
        invariant
            n == a_end - a_start,
            n == b_end - b_start,
            a_start <= a_end <= a@.len(),
            b_start <= b_end <= b@.len(),
            k <= n,
            forall|j: int| 0 <= j < k ==> lines_of(a@).subrange(a_start as int, a_end as int)[j] == #[trigger] lines_of(b@).subrange(b_start as int, b_end as int)[j],
        decreases n - k,
    {
        if a[a_start + k] != b[b_start + k] {
            proof {
                assert(lines_of(a@).subrange(a_start as int, a_end as int)[k as int] != lines_of(b@).subrange(b_start as int, b_end as int)[k as int]);
            }
            return false;
        }
        k = k + 1;
    }
    proof {
        assert(lines_of(a@).subrange(a_start as int, a_end as int) =~= lines_of(b@).subrange(b_start as int, b_end as int));
    }
    true
}

/// The end of a side's range in a block (see `side_end`).
fn range_end(
    h: &Vec<Hunk>,
    a: usize,
    b: usize,
    pos: usize,
    base_count: usize,
    present: bool,
    len: usize,
    Ghost(base_len): Ghost<int>,
) -> (e: usize)
    requires
        valid_hunks(h@, base_len, len as int),
        a <= b <= h@.len(),
        0 <= base_len <= u32::MAX,
        len <= u32::MAX,
        pos <= len,
        base_count <= base_len,
        present ==> 0 <= pos + base_count + net(h@, a as int, b as int) <= len,
        !present ==> pos + base_count <= len,
    ensures
        e as int == side_end(pos as int, base_count as int, present, net(h@, a as int, b as int), len as int),
{
    if !present {
        pos + base_count
    } else {
        let n = net_growth(h, a, b, Ghost(base_len), Ghost(len as int));
        let e: i64 = pos as i64 + base_count as i64 + n;
        let e0: i64 = if e < 0 { 0 } else { e };
        if e0 < len as i64 { e0 as usize } else { len }
    }
}

/// The next block is seeded by a hunk that exists: the side whose next
/// hunk starts first, the left one on a tie.
proof fn lemma_seed(lh: Seq<Hunk>, rh: Seq<Hunk>, li: int, ri: int, bp: int, lp: int, rp: int, base_len: int, left_len: int, right_len: int)
    requires
        merge_state(lh, rh, li, ri, bp, lp, rp, base_len, left_len, right_len),
        li < lh.len() || ri < rh.len(),
        base_len < u32::MAX,
    ensures
        next_start(lh, li) <= next_start(rh, ri) ==> li < lh.len(),
        next_start(lh, li) > next_start(rh, ri) ==> ri < rh.len(),
        li < lh.len() ==> lh[li].old_start <= lh[li].old_end <= base_len,
        ri < rh.len() ==> rh[ri].old_start <= rh[ri].old_end <= base_len,
{
    lemma_hunks_ordered(lh, base_len, left_len);
    lemma_hunks_ordered(rh, base_len, right_len);
    if li < lh.len() {
        assert(lh[li].old_start <= lh[li].old_end);
    }
    if ri < rh.len() {
        assert(rh[ri].old_start <= rh[ri].old_end);
    }
}

/// The parts of the next block: the block lies after the previous one and
/// within the three texts, consumes at least one hunk, and leaves the merge
/// in a state from which the following block starts strictly later.
#[verifier::spinoff_prover]
#[verifier::rlimit(30)]
proof fn lemma_block_parts(
    lh: Seq<Hunk>,
    rh: Seq<Hunk>,
    li: int,
    ri: int,
    bp: int,
    lp: int,
    rp: int,
    base_len: int,
    left_len: int,
    right_len: int,
    seed_left: bool,
    first: int,
    li2: int,
    ri2: int,
    end: int,
    hl: bool,
    hr: bool,
)
    requires
        merge_state(lh, rh, li, ri, bp, lp, rp, base_len, left_len, right_len),
        li < lh.len() || ri < rh.len(),
        base_len < u32::MAX,
        seed_left == (next_start(lh, li) <= next_start(rh, ri)),
        first == (if seed_left { next_start(lh, li) } else { next_start(rh, ri) }),
        (li2, ri2, end, hl, hr) == expand(
            lh,
            rh,
            if seed_left { li + 1 } else { li },
            if seed_left { ri } else { ri + 1 },
            if seed_left { lh[li].old_end as int } else { rh[ri].old_end as int },
            seed_left,
            !seed_left,
        ),
    ensures
        bp <= first <= end <= base_len,
        seed_left ==> li < lh.len(),
        !seed_left ==> ri < rh.len(),
        li <= li2 <= lh.len(),
        ri <= ri2 <= rh.len(),
        merge_measure(lh, rh, li2, ri2) < merge_measure(lh, rh, li, ri),
        hl == (li2 > li),
        hr == (ri2 > ri),
        lp + (first - bp) + (end - first) + (if hl { net(lh, li, li2) } else { 0 }) == end + hoff(lh, li2),
        rp + (first - bp) + (end - first) + (if hr { net(rh, ri, ri2) } else { 0 }) == end + hoff(rh, ri2),
        side_end(lp + (first - bp), end - first, hl, net(lh, li, li2), left_len) == end + hoff(lh, li2),
        side_end(rp + (first - bp), end - first, hr, net(rh, ri, ri2), right_len) == end + hoff(rh, ri2),
        0 <= lp <= lp + (first - bp) <= end + hoff(lh, li2) <= left_len,
        0 <= rp <= rp + (first - bp) <= end + hoff(rh, ri2) <= right_len,
        merge_state(lh, rh, li2, ri2, end, end + hoff(lh, li2), end + hoff(rh, ri2), base_len, left_len, right_len),
        li2 < lh.len() ==> end < lh[li2].old_start,
        ri2 < rh.len() ==> end < rh[ri2].old_start,
{
    lemma_seed(lh, rh, li, ri, bp, lp, rp, base_len, left_len, right_len);
    lemma_ends_within(lh, base_len, left_len);
    lemma_ends_within(rh, base_len, right_len);
    if seed_left {
        lemma_expand(lh, rh, li + 1, ri, lh[li].old_end as int, true, false, base_len);
        assert(lh[li].old_start <= lh[li].old_end);
    } else {
        lemma_expand(lh, rh, li, ri + 1, rh[ri].old_end as int, false, true, base_len);
        assert(rh[ri].old_start <= rh[ri].old_end);
    }
    assert(first <= end);
    assert(hl == (li2 > li));
    assert(hr == (ri2 > ri));
    lemma_side_end(lh, base_len, left_len, li, li2, bp, lp, first, end, hl);
    lemma_side_end(rh, base_len, right_len, ri, ri2, bp, rp, first, end, hr);
}

/// One step of the merge from a state: the block lies after the previous
/// one (strictly, when the next hunks start strictly after it) and within
/// the three texts, with equal stretches before it on all three; at least
/// one hunk is consumed, and the merge is left in a state from which the
/// following block starts strictly later.
pub open spec fn block_step(
    lh: Seq<Hunk>,
    rh: Seq<Hunk>,
    li: int,
    ri: int,
    bp: int,
    lp: int,
    rp: int,
    base_len: int,
    left_len: int,
    right_len: int,
    nb: (DiffBlock, int, int),
) -> bool {
    let block = nb.0;
    let li2 = nb.1;
    let ri2 = nb.2;
    &&& merge_state(lh, rh, li2, ri2, block.base_end as int, block.left_end as int, block.right_end as int, base_len, left_len, right_len)
    &&& li2 < lh.len() ==> block.base_end < lh[li2].old_start
    &&& ri2 < rh.len() ==> block.base_end < rh[ri2].old_start
    &&& 0 <= li2 && 0 <= ri2
    &&& merge_measure(lh, rh, li2, ri2) < merge_measure(lh, rh, li, ri)
    &&& bp <= block.base_start <= block.base_end <= base_len
    &&& lp <= block.left_start <= block.left_end <= left_len
    &&& rp <= block.right_start <= block.right_end <= right_len
    &&& block.base_start - bp == block.left_start - lp
    &&& block.base_start - bp == block.right_start - rp
    &&& ((li < lh.len() ==> bp < lh[li].old_start) && (ri < rh.len() ==> bp < rh[ri].old_start)) ==> bp < block.base_start
}

proof fn lemma_next_block(
    lh: Seq<Hunk>,
    rh: Seq<Hunk>,
    li: int,
    ri: int,
    bp: int,
    lp: int,
    rp: int,
    base_len: int,
    left: Seq<Seq<char>>,
    right: Seq<Seq<char>>,
)
    requires
        merge_state(lh, rh, li, ri, bp, lp, rp, base_len, left.len() as int, right.len() as int),
        li < lh.len() || ri < rh.len(),
        base_len < u32::MAX,
        left.len() <= u32::MAX,
        right.len() <= u32::MAX,
    ensures
        block_step(lh, rh, li, ri, bp, lp, rp, base_len, left.len() as int, right.len() as int,
            next_block(lh, rh, li, ri, bp, lp, rp, left, right)),
{
    let ls = next_start(lh, li);
    let rs = next_start(rh, ri);
    let seed_left = ls <= rs;
    let first = if seed_left { ls } else { rs };
    let ex = expand(
        lh,
        rh,
        if seed_left { li + 1 } else { li },
        if seed_left { ri } else { ri + 1 },
        if seed_left { lh[li].old_end as int } else { rh[ri].old_end as int },
        seed_left,
        !seed_left,
    );
    lemma_block_parts(
        lh, rh, li, ri, bp, lp, rp, base_len, left.len() as int, right.len() as int, seed_left, first,
        ex.0, ex.1, ex.2, ex.3, ex.4,
    );
}

/// A block marked as changed on one side only shows the other side's
/// lines as the base's.
pub open spec fn block_sides_ok(b: DiffBlock, base: Seq<Seq<char>>, left: Seq<Seq<char>>, right: Seq<Seq<char>>) -> bool {
    let bs = base.subrange(b.base_start as int, b.base_end as int);
    &&& b.status == ThreeWayStatus::LeftChanged ==> right.subrange(b.right_start as int, b.right_end as int) == bs
    &&& b.status == ThreeWayStatus::RightChanged ==> left.subrange(b.left_start as int, b.left_end as int) == bs
}

/// Every block is marked as `block_sides_ok` says.
pub open spec fn blocks_sides_ok(blocks: Seq<DiffBlock>, base: Seq<Seq<char>>, left: Seq<Seq<char>>, right: Seq<Seq<char>>) -> bool {
    forall|k: int| 0 <= k < blocks.len() ==> #[trigger] block_sides_ok(blocks[k], base, left, right)
}

/// The next block, when changed on one side only, shows the other side's
/// lines as the base's: no hunk of that side lies in it.
#[verifier::rlimit(80)]
proof fn lemma_one_sided_block(
    lh: Seq<Hunk>,
    rh: Seq<Hunk>,
    li: int,
    ri: int,
    bp: int,
    lp: int,
    rp: int,
    base: Seq<Seq<char>>,
    left: Seq<Seq<char>>,
    right: Seq<Seq<char>>,
)
    requires
        merge_state(lh, rh, li, ri, bp, lp, rp, base.len() as int, left.len() as int, right.len() as int),
        li < lh.len() || ri < rh.len(),
        base.len() < u32::MAX,
        left.len() <= u32::MAX,
        right.len() <= u32::MAX,
        gaps_equal(lh, base, left),
        gaps_equal(rh, base, right),
    ensures
        block_sides_ok(next_block(lh, rh, li, ri, bp, lp, rp, left, right).0, base, left, right),
{
    let bl = base.len() as int;
    let ls = next_start(lh, li);
    let rs = next_start(rh, ri);
    let seed_left = ls <= rs;
    let first = if seed_left { ls } else { rs };
    let ex = expand(
        lh,
        rh,
        if seed_left { li + 1 } else { li },
        if seed_left { ri } else { ri + 1 },
        if seed_left { lh[li].old_end as int } else { rh[ri].old_end as int },
        seed_left,
        !seed_left,
    );
    lemma_block_parts(
        lh, rh, li, ri, bp, lp, rp, bl, left.len() as int, right.len() as int, seed_left, first,
        ex.0, ex.1, ex.2, ex.3, ex.4,
    );
    let blk = next_block(lh, rh, li, ri, bp, lp, rp, left, right).0;
    let end = ex.2;
    let bc = end - first;
    assert(blk.base_start as int == first);
    assert(blk.base_end as int == end);
    if blk.status == ThreeWayStatus::LeftChanged {
        assert(!ex.4);
        assert(ex.1 == ri);
        let rp1 = rp + (first - bp);
        assert(blk.right_start as int == rp1);
        assert(blk.right_end as int == rp1 + bc);
        assert(rp1 == first + hoff(rh, ri));
        assert forall|j: int| 0 <= j < bc implies #[trigger] right[rp1 + j] == base[first + j] by {
            assert(gap_ok(rh, base, right, ri, first + j));
        }
        assert(0 <= rp1 && rp1 + bc <= right.len());
        assert(0 <= first && end <= bl);
        assert forall|j: int| 0 <= j < bc implies #[trigger] right.subrange(rp1, rp1 + bc)[j] == base.subrange(first, end)[j] by {
            assert(right[rp1 + j] == base[first + j]);
        }
        assert(right.subrange(rp1, rp1 + bc) =~= base.subrange(first, end));
    }
    if blk.status == ThreeWayStatus::RightChanged {
        assert(!ex.3);
        assert(ex.0 == li);
        let lp1 = lp + (first - bp);
        assert(blk.left_start as int == lp1);
        assert(blk.left_end as int == lp1 + bc);
        assert(lp1 == first + hoff(lh, li));
        assert forall|j: int| 0 <= j < bc implies #[trigger] left[lp1 + j] == base[first + j] by {
            assert(gap_ok(lh, base, left, li, first + j));
        }
        assert(0 <= lp1 && lp1 + bc <= left.len());
        assert(0 <= first && end <= bl);
        assert forall|j: int| 0 <= j < bc implies #[trigger] left.subrange(lp1, lp1 + bc)[j] == base.subrange(first, end)[j] by {
            assert(left[lp1 + j] == base[first + j]);
        }
        assert(left.subrange(lp1, lp1 + bc) =~= base.subrange(first, end));
    }
}

/// A block changed on both sides is marked as both changed only when its
/// lines on the left are its lines on the right, and as a conflict only
/// when they are not.
pub open spec fn block_status_ok(b: DiffBlock, left: Seq<Seq<char>>, right: Seq<Seq<char>>) -> bool {
    let same = left.subrange(b.left_start as int, b.left_end as int) == right.subrange(b.right_start as int, b.right_end as int);
    &&& b.status == ThreeWayStatus::BothChanged ==> same
    &&& b.status == ThreeWayStatus::Conflict ==> !same
}

/// Every block is marked as `block_status_ok` says.
pub open spec fn blocks_status_ok(blocks: Seq<DiffBlock>, left: Seq<Seq<char>>, right: Seq<Seq<char>>) -> bool {
    forall|k: int| 0 <= k < blocks.len() ==> #[trigger] block_status_ok(blocks[k], left, right)
}

/// Builds the next block of the merge (see `next_block`).
#[verifier::rlimit(30)]
fn make_block(
    lh: &Vec<Hunk>,
    rh: &Vec<Hunk>,
    left: &Vec<String>,
    right: &Vec<String>,
    li: usize,
    ri: usize,
    bp: usize,
    lp: usize,
    rp: usize,
    Ghost(base_len): Ghost<int>,
) -> (res: (DiffBlock, usize, usize))
    requires
        merge_state(lh@, rh@, li as int, ri as int, bp as int, lp as int, rp as int, base_len, left@.len() as int, right@.len() as int),
        li < lh@.len() || ri < rh@.len(),
        base_len < u32::MAX,
        left@.len() <= u32::MAX,
        right@.len() <= u32::MAX,
    ensures
        ({
            let nb = next_block(lh@, rh@, li as int, ri as int, bp as int, lp as int, rp as int, lines_of(left@), lines_of(right@));
            &&& res.0 == nb.0
            &&& res.1 as int == nb.1
            &&& res.2 as int == nb.2
        }),
        block_status_ok(res.0, lines_of(left@), lines_of(right@)),
{
    let ghost b = base_len;
    let ls: usize = if li < lh.len() { lh[li].old_start } else { usize::MAX };
    let rs: usize = if ri < rh.len() { rh[ri].old_start } else { usize::MAX };
    let seed_left = ls <= rs;
    let first: usize = if seed_left { ls } else { rs };
    proof {
        lemma_seed(lh@, rh@, li as int, ri as int, bp as int, lp as int, rp as int, b, left@.len() as int, right@.len() as int);
    }
    let (li1, ri1, end0) = if seed_left {
        (li + 1, ri, lh[li].old_end)
    } else {
        (li, ri + 1, rh[ri].old_end)
    };
    let (li2, ri2, end, hl, hr) = grow_group(lh, rh, li1, ri1, end0, seed_left, !seed_left);
    proof {
        lemma_block_parts(
            lh@, rh@, li as int, ri as int, bp as int, lp as int, rp as int, b, left@.len() as int,
            right@.len() as int, seed_left, first as int, li2 as int, ri2 as int, end as int, hl, hr,
        );
    }
    let skip = first - bp;
    let lp1 = lp + skip;
    let rp1 = rp + skip;
    let base_count = end - first;
    let left_end = range_end(lh, li, li2, lp1, base_count, hl, left.len(), Ghost(b));
    let right_end = range_end(rh, ri, ri2, rp1, base_count, hr, right.len(), Ghost(b));
    let status = if hl && hr {
        if ranges_equal(left, lp1, left_end, right, rp1, right_end) {
            ThreeWayStatus::BothChanged
        } else {
            ThreeWayStatus::Conflict
        }
    } else if hl {
        ThreeWayStatus::LeftChanged
    } else {
        ThreeWayStatus::RightChanged
    };
    let block = DiffBlock {
        left_start: lp1,
        left_end,
        base_start: first,
        base_end: end,
        right_start: rp1,
        right_end,
        status,
    };
    (block, li2, ri2)
}

/// Appending a block that starts after the last one's end (strictly, but
/// for the first block), with equal stretches before it on the three texts,
/// keeps the blocks aligned.
proof fn lemma_aligned_push(blocks: Seq<DiffBlock>, block: DiffBlock, base_len: int, left_len: int, right_len: int)
    requires
        forall|k: int| 0 <= k < blocks.len() ==> #[trigger] block_aligned(blocks, k, base_len, left_len, right_len),
        ({
            let (pb, pl, pr) = prev_ends(blocks, blocks.len() as int);
            &&& pb <= block.base_start <= block.base_end <= base_len
            &&& blocks.len() > 0 ==> pb < block.base_start
            &&& pl <= block.left_start <= block.left_end <= left_len
            &&& pr <= block.right_start <= block.right_end <= right_len
            &&& block.base_start - pb == block.left_start - pl
            &&& block.base_start - pb == block.right_start - pr
        }),
    ensures
        forall|k: int|
            0 <= k < blocks.len() + 1 ==> #[trigger] block_aligned(blocks.push(block), k, base_len, left_len, right_len),
{
    let nb = blocks.push(block);
    assert forall|k: int| 0 <= k < blocks.len() + 1 implies #[trigger] block_aligned(nb, k, base_len, left_len, right_len) by {
        if k < blocks.len() {
            assert(block_aligned(blocks, k, base_len, left_len, right_len));
            assert(nb[k] == blocks[k]);
            if k > 0 {
                assert(nb[k - 1] == blocks[k - 1]);
            }
        } else {
            assert(nb[k] == block);
            if k > 0 {
                assert(nb[k - 1] == blocks[k - 1]);
            }
        }
    }
}

/// Lines `b + j`, `l + j` and `r + j` of the base, left and right texts
/// are the same.
pub open spec fn lines_match_at(base: Seq<Seq<char>>, left: Seq<Seq<char>>, right: Seq<Seq<char>>, b: int, l: int, r: int, j: int) -> bool {
    base[b + j] == left[l + j] && base[b + j] == right[r + j]
}

/// The `n` lines from base line `b`, left line `l` and right line `r` are
/// the same on the three texts.
pub open spec fn stretch_equal(base: Seq<Seq<char>>, left: Seq<Seq<char>>, right: Seq<Seq<char>>, b: int, l: int, r: int, n: int) -> bool {
    forall|j: int| 0 <= j < n ==> #[trigger] lines_match_at(base, left, right, b, l, r, j)
}

/// The length of the stretch before block `k` (after the last block, up to
/// the end of the base).
pub open spec fn stretch_len(blocks: Seq<DiffBlock>, k: int, base_len: int) -> int {
    if k < blocks.len() {
        blocks[k].base_start - prev_ends(blocks, k).0
    } else {
        base_len - prev_ends(blocks, k).0
    }
}

/// The stretch before block `k` is the same on the three texts.
pub open spec fn stretch_ok(blocks: Seq<DiffBlock>, base: Seq<Seq<char>>, left: Seq<Seq<char>>, right: Seq<Seq<char>>, k: int) -> bool {
    let (pb, pl, pr) = prev_ends(blocks, k);
    stretch_equal(base, left, right, pb, pl, pr, stretch_len(blocks, k, base.len() as int))
}

/// Groups the hunks of both sides into the blocks of the merge view.
#[verifier::rlimit(40)]
fn merge_hunks(
    lh: &Vec<Hunk>,
    rh: &Vec<Hunk>,
    left: &Vec<String>,
    right: &Vec<String>,
    Ghost(base): Ghost<Seq<Seq<char>>>,
) -> (blocks: Vec<DiffBlock>)
    requires
        valid_hunks(lh@, base.len() as int, left@.len() as int),
        valid_hunks(rh@, base.len() as int, right@.len() as int),
        gaps_equal(lh@, base, lines_of(left@)),
        gaps_equal(rh@, base, lines_of(right@)),
        base.len() < u32::MAX,
        left@.len() <= u32::MAX,
        right@.len() <= u32::MAX,
    ensures
        blocks@ == merge_from(lh@, rh@, 0, 0, 0, 0, 0, lines_of(left@), lines_of(right@)),
        blocks_aligned(blocks@, base.len() as int, left@.len() as int, right@.len() as int),
        blocks@.len() <= base.len() + 1,
        forall|k: int| 0 <= k <= blocks@.len() ==> #[trigger] stretch_ok(blocks@, base, lines_of(left@), lines_of(right@), k),
        forall|k: int| 0 <= k < blocks@.len() ==> (#[trigger] blocks@[k]).status != ThreeWayStatus::Equal,
        blocks_status_ok(blocks@, lines_of(left@), lines_of(right@)),
        blocks_sides_ok(blocks@, base, lines_of(left@), lines_of(right@)),
{
    let ghost base_len = base.len() as int;
    let ghost lo = lines_of(left@);
    let ghost ro = lines_of(right@);
    let ghost whole = merge_from(lh@, rh@, 0, 0, 0, 0, 0, lo, ro);
    let ghost b = base_len;
    let ghost ll = left@.len() as int;
    let ghost rl = right@.len() as int;
    let mut blocks: Vec<DiffBlock> = Vec::new();
    let mut li: usize = 0;
    let mut ri: usize = 0;
    let mut bp: usize = 0;
    let mut lp: usize = 0;
    let mut rp: usize = 0;
    proof {
        assert(whole =~= blocks@ + merge_from(lh@, rh@, 0, 0, 0, 0, 0, lo, ro));
    }
    while li < lh.len() || ri < rh.len()
        invariant
            merge_state(lh@, rh@, li as int, ri as int, bp as int, lp as int, rp as int, b, ll, rl),
            b < u32::MAX,
            ll <= u32::MAX,
            rl <= u32::MAX,
            lo == lines_of(left@),
            ro == lines_of(right@),
            ll == left@.len(),
            rl == right@.len(),
            blocks@.len() > 0 ==> (li < lh@.len() ==> bp < lh@[li as int].old_start),
            blocks@.len() > 0 ==> (ri < rh@.len() ==> bp < rh@[ri as int].old_start),
            blocks@.len() <= bp + 1,
            whole == blocks@ + merge_from(lh@, rh@, li as int, ri as int, bp as int, lp as int, rp as int, lo, ro),
            forall|k: int| 0 <= k < blocks@.len() ==> #[trigger] block_aligned(blocks@, k, b, ll, rl),
            prev_ends(blocks@, blocks@.len() as int) == (bp as int, lp as int, rp as int),
            base_len == base.len(),
            b == base_len,
            gaps_equal(lh@, base, lo),
            gaps_equal(rh@, base, ro),
            forall|k: int| 0 <= k < blocks@.len() ==> #[trigger] stretch_ok(blocks@, base, lo, ro, k),
            forall|k: int| 0 <= k < blocks@.len() ==> (#[trigger] blocks@[k]).status != ThreeWayStatus::Equal,
            blocks_status_ok(blocks@, lo, ro),
            blocks_sides_ok(blocks@, base, lo, ro),
        decreases merge_measure(lh@, rh@, li as int, ri as int),
    {
        let (block, li2, ri2) = make_block(lh, rh, left, right, li, ri, bp, lp, rp, Ghost(b));
        let ghost before = blocks@;
        proof {
            lemma_next_block(lh@, rh@, li as int, ri as int, bp as int, lp as int, rp as int, b, lo, ro);
            assert(merge_from(lh@, rh@, li as int, ri as int, bp as int, lp as int, rp as int, lo, ro)
                == seq![block] + merge_from(lh@, rh@, li2 as int, ri2 as int, block.base_end as int, block.left_end as int, block.right_end as int, lo, ro));
            lemma_stretch_before_block(lh@, rh@, li as int, ri as int, bp as int, lp as int, rp as int, base, lo, ro, block);
            lemma_one_sided_block(lh@, rh@, li as int, ri as int, bp as int, lp as int, rp as int, base, lo, ro);
        }
        blocks.push(block);
        proof {
            assert(whole =~= blocks@ + merge_from(lh@, rh@, li2 as int, ri2 as int, block.base_end as int, block.left_end as int, block.right_end as int, lo, ro));
            lemma_aligned_push(before, block, b, ll, rl);
            assert forall|k: int| 0 <= k < blocks@.len() implies #[trigger] stretch_ok(blocks@, base, lo, ro, k) by {
                if k < before.len() {
                    assert(stretch_ok(before, base, lo, ro, k));
                    assert(blocks@[k] == before[k]);
                    if k > 0 {
                        assert(blocks@[k - 1] == before[k - 1]);
                    }
                } else {
                    assert(blocks@[k] == block);
                    if k > 0 {
                        assert(blocks@[k - 1] == before[k - 1]);
                    }
                }
            }
            assert forall|k: int| 0 <= k < blocks@.len() implies (#[trigger] blocks@[k]).status != ThreeWayStatus::Equal by {
                if k < before.len() {
                    assert(blocks@[k] == before[k]);
                }
            }
            assert forall|k: int| 0 <= k < blocks@.len() implies #[trigger] block_status_ok(blocks@[k], lo, ro) by {
                if k < before.len() {
                    assert(blocks@[k] == before[k]);
                }
            }
            assert forall|k: int| 0 <= k < blocks@.len() implies #[trigger] block_sides_ok(blocks@[k], base, lo, ro) by {
                if k < before.len() {
                    assert(blocks@[k] == before[k]);
                }
            }
        }
        li = li2;
        ri = ri2;
        bp = block.base_end;
        lp = block.left_end;
        rp = block.right_end;
    }
    proof {
        assert(blocks@ + seq![] =~= blocks@);
        assert(hoff(lh@, lh@.len() as int) == ll - b);
        let n = blocks@.len() as int;
        assert forall|j: int| 0 <= j < base_len - bp implies #[trigger] lines_match_at(base, lo, ro, bp as int, lp as int, rp as int, j) by {
            assert(gap_ok(lh@, base, lo, lh@.len() as int, bp + j));
            assert(gap_ok(rh@, base, ro, rh@.len() as int, bp + j));
        }
        assert(stretch_ok(blocks@, base, lo, ro, n));
    }
    blocks
}

/// The stretch before the next block is the same on the three texts: no
/// hunk of either side lies in it.
proof fn lemma_stretch_before_block(
    lh: Seq<Hunk>,
    rh: Seq<Hunk>,
    li: int,
    ri: int,
    bp: int,
    lp: int,
    rp: int,
    base: Seq<Seq<char>>,
    left: Seq<Seq<char>>,
    right: Seq<Seq<char>>,
    block: DiffBlock,
)
    requires
        merge_state(lh, rh, li, ri, bp, lp, rp, base.len() as int, left.len() as int, right.len() as int),
        li < lh.len() || ri < rh.len(),
        base.len() < u32::MAX,
        gaps_equal(lh, base, left),
        gaps_equal(rh, base, right),
        block == next_block(lh, rh, li, ri, bp, lp, rp, left, right).0,
        block.base_start <= base.len(),
    ensures
        stretch_equal(base, left, right, bp, lp, rp, block.base_start - bp),
        block.status != ThreeWayStatus::Equal,
{
    let first = block.base_start as int;
    assert(first == if next_start(lh, li) <= next_start(rh, ri) { next_start(lh, li) } else { next_start(rh, ri) });
    assert forall|j: int| 0 <= j < first - bp implies #[trigger] lines_match_at(base, left, right, bp, lp, rp, j) by {
        assert(gap_ok(lh, base, left, li, bp + j));
        assert(gap_ok(rh, base, right, ri, bp + j));
    }
}

/// `n` rows equal on all three texts, from base line `b`, left line `l` and
/// right line `r` (counted from 0).
pub open spec fn equal_rows(b: int, l: int, r: int, n: int) -> Seq<ThreeWayLine> {
    Seq::new(
        n as nat,
        |j: int|
            ThreeWayLine {
                status: ThreeWayStatus::Equal,
                base_line_no: Some((b + j + 1) as u32),
                left_line_no: Some((l + j + 1) as u32),
                right_line_no: Some((r + j + 1) as u32),
            },
    )
}

pub open spec fn max3(a: int, b: int, c: int) -> int {
    let m = if a < b { b } else { a };
    if m < c { c } else { m }
}

/// The number shown in row `j` of a block for a range of `count` lines from
/// line `start`: a ghost line past the range's end.
pub open spec fn number_at(start: int, count: int, j: int) -> Option<u32> {
    if j < count {
        Some((start + j + 1) as u32)
    } else {
        None
    }
}

/// The rows of a block: as many as its longest range.
pub open spec fn block_rows(blk: DiffBlock) -> Seq<ThreeWayLine> {
    let lc = blk.left_end - blk.left_start;
    let bc = blk.base_end - blk.base_start;
    let rc = blk.right_end - blk.right_start;
    Seq::new(
        max3(lc, bc, rc) as nat,
        |j: int|
            ThreeWayLine {
                status: blk.status,
                base_line_no: number_at(blk.base_start as int, bc, j),
                left_line_no: number_at(blk.left_start as int, lc, j),
                right_line_no: number_at(blk.right_start as int, rc, j),
            },
    )
}

/// The rows of the first `k` blocks, each preceded by the equal stretch
/// before it.
pub open spec fn rows_upto(blocks: Seq<DiffBlock>, k: int) -> Seq<ThreeWayLine>
    decreases k,
{
    if k <= 0 {
        seq![]
    } else {
        let (pb, pl, pr) = prev_ends(blocks, k - 1);
        rows_upto(blocks, k - 1) + equal_rows(pb, pl, pr, blocks[k - 1].base_start - pb) + block_rows(blocks[k - 1])
    }
}

/// The row at which the rows of block `k` start.
pub open spec fn block_row(blocks: Seq<DiffBlock>, k: int) -> int {
    rows_upto(blocks, k).len() + blocks[k].base_start - prev_ends(blocks, k).0
}

/// All rows: those of the blocks, then the equal stretch after the last.
pub open spec fn merge_rows(blocks: Seq<DiffBlock>, base_len: int) -> Seq<ThreeWayLine> {
    let (pb, pl, pr) = prev_ends(blocks, blocks.len() as int);
    rows_upto(blocks, blocks.len() as int) + equal_rows(pb, pl, pr, base_len - pb)
}

/// A row marked equal shows a line of each text, the same line on all
/// three.
pub open spec fn row_lines_equal(row: ThreeWayLine, base: Seq<Seq<char>>, left: Seq<Seq<char>>, right: Seq<Seq<char>>) -> bool {
    row.status == ThreeWayStatus::Equal ==> (row.base_line_no matches Some(b) && row.left_line_no matches Some(l)
        && row.right_line_no matches Some(r) && base[b - 1] == left[l - 1] && base[b - 1] == right[r - 1])
}

/// Every row marked equal shows the same line on the three texts.
pub open spec fn equal_rows_agree(rows: Seq<ThreeWayLine>, base: Seq<Seq<char>>, left: Seq<Seq<char>>, right: Seq<Seq<char>>) -> bool {
    forall|q: int| 0 <= q < rows.len() ==> #[trigger] row_lines_equal(rows[q], base, left, right)
}

proof fn lemma_equal_stretch_agrees(b: int, l: int, r: int, n: int, base: Seq<Seq<char>>, left: Seq<Seq<char>>, right: Seq<Seq<char>>)
    requires
        stretch_equal(base, left, right, b, l, r, n),
        0 <= n,
        0 <= b,
        0 <= l,
        0 <= r,
        b + n < u32::MAX,
        l + n <= u32::MAX,
        r + n <= u32::MAX,
    ensures
        equal_rows_agree(equal_rows(b, l, r, n), base, left, right),
{
    let rows = equal_rows(b, l, r, n);
    assert forall|q: int| 0 <= q < rows.len() implies #[trigger] row_lines_equal(rows[q], base, left, right) by {
        assert(lines_match_at(base, left, right, b, l, r, q));
    }
}

proof fn lemma_block_agrees(blk: DiffBlock, base: Seq<Seq<char>>, left: Seq<Seq<char>>, right: Seq<Seq<char>>)
    requires
        blk.status != ThreeWayStatus::Equal,
    ensures
        equal_rows_agree(block_rows(blk), base, left, right),
{
}

proof fn lemma_agree_concat(a: Seq<ThreeWayLine>, b: Seq<ThreeWayLine>, base: Seq<Seq<char>>, left: Seq<Seq<char>>, right: Seq<Seq<char>>)
    requires
        equal_rows_agree(a, base, left, right),
        equal_rows_agree(b, base, left, right),
    ensures
        equal_rows_agree(a + b, base, left, right),
{
    assert forall|q: int| 0 <= q < (a + b).len() implies #[trigger] row_lines_equal((a + b)[q], base, left, right) by {
        if q < a.len() {
            assert((a + b)[q] == a[q]);
            assert(row_lines_equal(a[q], base, left, right));
        } else {
            assert((a + b)[q] == b[q - a.len()]);
            assert(row_lines_equal(b[q - a.len()], base, left, right));
        }
    }
}

/// The rows of the first `k` blocks agree where marked equal: the stretches
/// before the blocks are the same on the three texts, and no block is
/// marked equal.
proof fn lemma_rows_upto_agree(blocks: Seq<DiffBlock>, k: int, base: Seq<Seq<char>>, left: Seq<Seq<char>>, right: Seq<Seq<char>>)
    requires
        0 <= k <= blocks.len(),
        blocks_aligned(blocks, base.len() as int, left.len() as int, right.len() as int),
        forall|m: int| 0 <= m <= blocks.len() ==> #[trigger] stretch_ok(blocks, base, left, right, m),
        forall|m: int| 0 <= m < blocks.len() ==> (#[trigger] blocks[m]).status != ThreeWayStatus::Equal,
        base.len() < u32::MAX,
        left.len() <= u32::MAX,
        right.len() <= u32::MAX,
    ensures
        equal_rows_agree(rows_upto(blocks, k), base, left, right),
    decreases k,
{
    if k > 0 {
        lemma_rows_upto_agree(blocks, k - 1, base, left, right);
        let (pb, pl, pr) = prev_ends(blocks, k - 1);
        assert(block_aligned(blocks, k - 1, base.len() as int, left.len() as int, right.len() as int));
        assert(stretch_ok(blocks, base, left, right, k - 1));
        assert(blocks[k - 1].status != ThreeWayStatus::Equal);
        if k - 1 > 0 {
            assert(block_aligned(blocks, k - 2, base.len() as int, left.len() as int, right.len() as int));
        }
        lemma_equal_stretch_agrees(pb, pl, pr, blocks[k - 1].base_start - pb, base, left, right);
        lemma_block_agrees(blocks[k - 1], base, left, right);
        lemma_agree_concat(rows_upto(blocks, k - 1), equal_rows(pb, pl, pr, blocks[k - 1].base_start - pb), base, left, right);
        lemma_agree_concat(
            rows_upto(blocks, k - 1) + equal_rows(pb, pl, pr, blocks[k - 1].base_start - pb),
            block_rows(blocks[k - 1]),
            base,
            left,
            right,
        );
    }
}

/// All rows agree where marked equal (see `lemma_rows_upto_agree`).
proof fn lemma_merge_rows_agree(blocks: Seq<DiffBlock>, base: Seq<Seq<char>>, left: Seq<Seq<char>>, right: Seq<Seq<char>>)
    requires
        blocks_aligned(blocks, base.len() as int, left.len() as int, right.len() as int),
        forall|m: int| 0 <= m <= blocks.len() ==> #[trigger] stretch_ok(blocks, base, left, right, m),
        forall|m: int| 0 <= m < blocks.len() ==> (#[trigger] blocks[m]).status != ThreeWayStatus::Equal,
        base.len() < u32::MAX,
        left.len() <= u32::MAX,
        right.len() <= u32::MAX,
    ensures
        equal_rows_agree(merge_rows(blocks, base.len() as int), base, left, right),
{
    let n = blocks.len() as int;
    lemma_rows_upto_agree(blocks, n, base, left, right);
    let (pb, pl, pr) = prev_ends(blocks, n);
    assert(stretch_ok(blocks, base, left, right, n));
    if n > 0 {
        assert(block_aligned(blocks, n - 1, base.len() as int, left.len() as int, right.len() as int));
    }
    lemma_equal_stretch_agrees(pb, pl, pr, base.len() - pb, base, left, right);
    lemma_agree_concat(rows_upto(blocks, n), equal_rows(pb, pl, pr, base.len() - pb), base, left, right);
}

/// The number of conflicting blocks among the first `k`.
pub open spec fn conflicts(blocks: Seq<DiffBlock>, k: int) -> nat
    decreases k,
{
    if k <= 0 {
        0
    } else {
        conflicts(blocks, k - 1) + if blocks[k - 1].status == ThreeWayStatus::Conflict {
            1nat
        } else {
            0nat
        }
    }
}

/// `r` shows the blocks over a base of `base_len` lines: its rows, the
/// number of conflicting blocks, and the row at which each block starts.
pub open spec fn is_view_of(r: ThreeWayResult, blocks: Seq<DiffBlock>, base_len: int) -> bool {
    &&& r.lines@ == merge_rows(blocks, base_len)
    &&& r.conflict_count == conflicts(blocks, blocks.len() as int)
    &&& r.diff_positions@.len() == blocks.len()
    &&& forall|k: int| 0 <= k < blocks.len() ==> r.diff_positions@[k] == block_row(blocks, k)
}

/// Appends `n` rows equal on all three texts.
fn push_equal_rows(rows: &mut Vec<ThreeWayLine>, b: usize, l: usize, r: usize, n: usize)
    requires
        b + n < u32::MAX,
        l + n <= u32::MAX,
        r + n <= u32::MAX,
    ensures
        final(rows)@ == old(rows)@ + equal_rows(b as int, l as int, r as int, n as int),
{
    let ghost start = rows@;
    let mut j: usize = 0;
    while j < n
        invariant
            j <= n,
            b + n < u32::MAX,
            l + n <= u32::MAX,
            r + n <= u32::MAX,
            rows@ == start + equal_rows(b as int, l as int, r as int, j as int),
        decreases n - j,
    {
        rows.push(ThreeWayLine {
            status: ThreeWayStatus::Equal,
            left_line_no: Some((l + j) as u32 + 1),
            base_line_no: Some((b + j) as u32 + 1),
            right_line_no: Some((r + j) as u32 + 1),
        });
        j = j + 1;
        proof {
            assert(rows@ =~= start + equal_rows(b as int, l as int, r as int, j as int));
        }
    }
}

/// The number shown for row `j` of a range of `count` lines from `start`.
fn number_in(start: usize, count: usize, j: usize) -> (r: Option<u32>)
    requires
        start + count <= u32::MAX,
    ensures
        r == number_at(start as int, count as int, j as int),
{
    if j < count {
        Some((start + j) as u32 + 1)
    } else {
        None
    }
}

/// Appends the rows of a block.
fn push_block_rows(rows: &mut Vec<ThreeWayLine>, blk: DiffBlock)
    requires
        blk.base_start <= blk.base_end < u32::MAX,
        blk.left_start <= blk.left_end <= u32::MAX,
        blk.right_start <= blk.right_end <= u32::MAX,
    ensures
        final(rows)@ == old(rows)@ + block_rows(blk),
{
    let ghost start = rows@;
    let lc = blk.left_end - blk.left_start;
    let bc = blk.base_end - blk.base_start;
    let rc = blk.right_end - blk.right_start;
    let m1 = if lc < bc { bc } else { lc };
    let m = if m1 < rc { rc } else { m1 };
    let mut j: usize = 0;
    while j < m
        invariant
            j <= m,
            m == max3(lc as int, bc as int, rc as int),
            lc == blk.left_end - blk.left_start,
            bc == blk.base_end - blk.base_start,
            rc == blk.right_end - blk.right_start,
            blk.base_start <= blk.base_end < u32::MAX,
            blk.left_start <= blk.left_end <= u32::MAX,
            blk.right_start <= blk.right_end <= u32::MAX,
            rows@ == start + block_rows(blk).take(j as int),
        decreases m - j,
    {
        let row = ThreeWayLine {
            status: blk.status,
            left_line_no: number_in(blk.left_start, lc, j),
            base_line_no: number_in(blk.base_start, bc, j),
            right_line_no: number_in(blk.right_start, rc, j),
        };
        rows.push(row);
        proof {
            assert(block_rows(blk)[j as int] == row);
            assert(block_rows(blk).take(j + 1) =~= block_rows(blk).take(j as int).push(row));
        }
        j = j + 1;
        proof {
            assert(rows@ =~= start + block_rows(blk).take(j as int));
        }
    }
    proof {
        assert(block_rows(blk).take(m as int) =~= block_rows(blk));
    }
}

/// Lays the blocks out as rows, with equal stretches between them.
fn build_result_lines(blocks: &Vec<DiffBlock>, base_len: usize, left_len: usize, right_len: usize) -> (r: ThreeWayResult)
    requires
        blocks_aligned(blocks@, base_len as int, left_len as int, right_len as int),
        base_len < u32::MAX,
        left_len <= u32::MAX,
        right_len <= u32::MAX,
        blocks@.len() <= base_len + 1,
    ensures
        is_view_of(r, blocks@, base_len as int),
{
    let mut lines: Vec<ThreeWayLine> = Vec::new();
    let mut positions: Vec<usize> = Vec::new();
    let mut conflict_count: u32 = 0;
    let mut bp: usize = 0;
    let mut lp: usize = 0;
    let mut rp: usize = 0;
    let mut k: usize = 0;
    while k < blocks.len()
        invariant
            k <= blocks@.len(),
            blocks_aligned(blocks@, base_len as int, left_len as int, right_len as int),
            base_len < u32::MAX,
            left_len <= u32::MAX,
            right_len <= u32::MAX,
            blocks@.len() <= base_len + 1,
            lines@ == rows_upto(blocks@, k as int),
            conflict_count == conflicts(blocks@, k as int),
            conflicts(blocks@, k as int) <= k,
            positions@.len() == k,
            forall|i: int| 0 <= i < k ==> positions@[i] == block_row(blocks@, i),
            (bp as int, lp as int, rp as int) == prev_ends(blocks@, k as int),
        decreases blocks@.len() - k,
    {
        let blk = blocks[k];
        proof {
            assert(block_aligned(blocks@, k as int, base_len as int, left_len as int, right_len as int));
        }
        let gap = blk.base_start - bp;
        push_equal_rows(&mut lines, bp, lp, rp, gap);
        positions.push(lines.len());
        if blk.status == ThreeWayStatus::Conflict {
            conflict_count = conflict_count + 1;
        }
        push_block_rows(&mut lines, blk);
        bp = blk.base_end;
        lp = blk.left_end;
        rp = blk.right_end;
        k = k + 1;
    }
    proof {
        if k > 0 {
            assert(block_aligned(blocks@, k - 1, base_len as int, left_len as int, right_len as int));
        }
    }
    push_equal_rows(&mut lines, bp, lp, rp, base_len - bp);
    ThreeWayResult { lines, conflict_count, diff_positions: positions }
}

/// One of the three panes of the merge view.
#[derive(Debug, Clone, Copy, PartialEq, Eq, Structural)]
pub enum Pane {
    Left,
    Base,
    Right,
}

/// The line number a row shows in a pane.
pub open spec fn number_in_pane(row: ThreeWayLine, pane: Pane) -> Option<u32> {
    match pane {
        Pane::Left => row.left_line_no,
        Pane::Base => row.base_line_no,
        Pane::Right => row.right_line_no,
    }
}

/// The line numbers a pane shows, top to bottom, ghost lines left out.
pub open spec fn shown(rows: Seq<ThreeWayLine>, pane: Pane) -> Seq<int>
    decreases rows.len(),
{
    if rows.len() == 0 {
        seq![]
    } else {
        let prev = shown(rows.drop_last(), pane);
        match number_in_pane(rows.last(), pane) {
            Some(n) => prev.push(n as int),
            None => prev,
        }
    }
}

/// The line numbers `a + 1` to `b`.
pub open spec fn numbers_between(a: int, b: int) -> Seq<int> {
    Seq::new(if a <= b { (b - a) as nat } else { 0 }, |i: int| a + i + 1)
}

proof fn lemma_between_concat(a: int, b: int, c: int)
    requires
        a <= b <= c,
    ensures
        numbers_between(a, b) + numbers_between(b, c) == numbers_between(a, c),
{
    assert(numbers_between(a, b) + numbers_between(b, c) =~= numbers_between(a, c));
}

proof fn lemma_shown_append(a: Seq<ThreeWayLine>, b: Seq<ThreeWayLine>, pane: Pane)
    ensures
        shown(a + b, pane) == shown(a, pane) + shown(b, pane),
    decreases b.len(),
{
    if b.len() == 0 {
        assert(a + b =~= a);
        assert(shown(a, pane) + shown(b, pane) =~= shown(a, pane));
    } else {
        lemma_shown_append(a, b.drop_last(), pane);
        assert((a + b).drop_last() =~= a + b.drop_last());
        assert((a + b).last() == b.last());
        match number_in_pane(b.last(), pane) {
            Some(n) => {
                assert(shown(a, pane) + shown(b, pane) =~= (shown(a, pane) + shown(b.drop_last(), pane)).push(n as int));
            },
            None => {},
        }
    }
}

/// The position a pane starts from, of three.
pub open spec fn pick(pane: Pane, l: int, b: int, r: int) -> int {
    match pane {
        Pane::Left => l,
        Pane::Base => b,
        Pane::Right => r,
    }
}

proof fn lemma_shown_equal(b: int, l: int, r: int, n: int, pane: Pane)
    requires
        0 <= n,
        0 <= b,
        0 <= l,
        0 <= r,
        b + n <= u32::MAX,
        l + n <= u32::MAX,
        r + n <= u32::MAX,
    ensures
        shown(equal_rows(b, l, r, n), pane) == numbers_between(pick(pane, l, b, r), pick(pane, l, b, r) + n),
    decreases n,
{
    let x = pick(pane, l, b, r);
    if n == 0 {
        assert(equal_rows(b, l, r, n) =~= seq![]);
        assert(numbers_between(x, x) =~= seq![]);
    } else {
        lemma_shown_equal(b, l, r, n - 1, pane);
        assert(equal_rows(b, l, r, n).drop_last() =~= equal_rows(b, l, r, n - 1));
        assert(numbers_between(x, x + n) =~= numbers_between(x, x + n - 1).push(x + n));
    }
}

/// The first `j` rows of a block show, in a pane, the first lines of the
/// pane's range.
proof fn lemma_shown_block_prefix(blk: DiffBlock, pane: Pane, j: int)
    requires
        blk.base_start <= blk.base_end < u32::MAX,
        blk.left_start <= blk.left_end <= u32::MAX,
        blk.right_start <= blk.right_end <= u32::MAX,
        0 <= j <= block_rows(blk).len(),
    ensures
        ({
            let s = pick(pane, blk.left_start as int, blk.base_start as int, blk.right_start as int);
            let e = pick(pane, blk.left_end as int, blk.base_end as int, blk.right_end as int);
            shown(block_rows(blk).take(j), pane) == numbers_between(s, if s + j < e { s + j } else { e })
        }),
    decreases j,
{
    let s = pick(pane, blk.left_start as int, blk.base_start as int, blk.right_start as int);
    let e = pick(pane, blk.left_end as int, blk.base_end as int, blk.right_end as int);
    if j == 0 {
        assert(block_rows(blk).take(0) =~= seq![]);
        assert(numbers_between(s, s) =~= seq![]);
    } else {
        lemma_shown_block_prefix(blk, pane, j - 1);
        assert(block_rows(blk).take(j).drop_last() =~= block_rows(blk).take(j - 1));
        let row = block_rows(blk)[j - 1];
        assert(block_rows(blk).take(j).last() == row);
        if s + j <= e {
            assert(number_in_pane(row, pane) == Some((s + j) as u32));
            assert(numbers_between(s, s + j) =~= numbers_between(s, s + j - 1).push(s + j));
        } else {
            assert(number_in_pane(row, pane) is None);
        }
    }
}

/// The rows of the first `k` blocks show, in each pane, the lines before
/// where the `k`-th block ended.
proof fn lemma_shown_upto(blocks: Seq<DiffBlock>, k: int, base_len: int, left_len: int, right_len: int, pane: Pane)
    requires
        blocks_aligned(blocks, base_len, left_len, right_len),
        base_len < u32::MAX,
        left_len <= u32::MAX,
        right_len <= u32::MAX,
        0 <= k <= blocks.len(),
    ensures
        ({
            let (pb, pl, pr) = prev_ends(blocks, k);
            shown(rows_upto(blocks, k), pane) == numbers_between(0, pick(pane, pl, pb, pr))
        }),
    decreases k,
{
    if k == 0 {
        assert(numbers_between(0, 0) =~= seq![]);
    } else {
        lemma_shown_upto(blocks, k - 1, base_len, left_len, right_len, pane);
        assert(block_aligned(blocks, k - 1, base_len, left_len, right_len));
        if k > 1 {
            assert(block_aligned(blocks, k - 2, base_len, left_len, right_len));
        }
        let (pb, pl, pr) = prev_ends(blocks, k - 1);
        let blk = blocks[k - 1];
        let gap = blk.base_start - pb;
        let x = pick(pane, pl, pb, pr);
        lemma_shown_append(rows_upto(blocks, k - 1), equal_rows(pb, pl, pr, gap), pane);
        lemma_shown_append(rows_upto(blocks, k - 1) + equal_rows(pb, pl, pr, gap), block_rows(blk), pane);
        lemma_shown_equal(pb, pl, pr, gap, pane);
        lemma_shown_block_prefix(blk, pane, block_rows(blk).len() as int);
        assert(block_rows(blk).take(block_rows(blk).len() as int) =~= block_rows(blk));
        let s = pick(pane, blk.left_start as int, blk.base_start as int, blk.right_start as int);
        let e = pick(pane, blk.left_end as int, blk.base_end as int, blk.right_end as int);
        assert(s == x + gap);
        lemma_between_concat(0, x, s);
        lemma_between_concat(0, s, e);
    }
}

/// Each pane of the merge view shows its text whole and in order.
proof fn lemma_panes_complete(blocks: Seq<DiffBlock>, base_len: int, left_len: int, right_len: int, pane: Pane)
    requires
        blocks_aligned(blocks, base_len, left_len, right_len),
        0 <= base_len < u32::MAX,
        left_len <= u32::MAX,
        right_len <= u32::MAX,
    ensures
        shown(merge_rows(blocks, base_len), pane) == numbers_between(0, pick(pane, left_len, base_len, right_len)),
{
    let n = blocks.len() as int;
    lemma_shown_upto(blocks, n, base_len, left_len, right_len, pane);
    let (pb, pl, pr) = prev_ends(blocks, n);
    if n > 0 {
        assert(block_aligned(blocks, n - 1, base_len, left_len, right_len));
    }
    let x = pick(pane, pl, pb, pr);
    lemma_shown_append(rows_upto(blocks, n), equal_rows(pb, pl, pr, base_len - pb), pane);
    lemma_shown_equal(pb, pl, pr, base_len - pb, pane);
    lemma_between_concat(0, x, x + base_len - pb);
}

/// A row's line number in a pane is among the numbers the pane shows.
proof fn lemma_shown_has(rows: Seq<ThreeWayLine>, pane: Pane, k: int)
    requires
        0 <= k < rows.len(),
        number_in_pane(rows[k], pane) is Some,
    ensures
        shown(rows, pane).contains(number_in_pane(rows[k], pane)->0 as int),
    decreases rows.len(),
{
    let n = number_in_pane(rows[k], pane)->0 as int;
    if k == rows.len() - 1 {
        let prev = shown(rows.drop_last(), pane);
        assert(shown(rows, pane) == prev.push(n));
        assert(shown(rows, pane)[prev.len() as int] == n);
    } else {
        lemma_shown_has(rows.drop_last(), pane, k);
        assert(rows.drop_last()[k] == rows[k]);
        let prev = shown(rows.drop_last(), pane);
        let j = choose|j: int| 0 <= j < prev.len() && prev[j] == n;
        match number_in_pane(rows.last(), pane) {
            Some(m) => {
                assert(shown(rows, pane)[j] == n);
            },
            None => {},
        }
    }
}

/// Every line number a row shows names a line of its text.
pub open spec fn numbers_in_range(rows: Seq<ThreeWayLine>, base_len: int, left_len: int, right_len: int) -> bool {
    forall|k: int|
        0 <= k < rows.len() ==> {
            let row = #[trigger] rows[k];
            &&& (row.base_line_no matches Some(n) ==> 1 <= n <= base_len)
            &&& (row.left_line_no matches Some(n) ==> 1 <= n <= left_len)
            &&& (row.right_line_no matches Some(n) ==> 1 <= n <= right_len)
        }
}

proof fn lemma_between_contains(a: int, b: int, n: int)
    requires
        numbers_between(a, b).contains(n),
    ensures
        a < n <= b,
{
    let j = choose|j: int| 0 <= j < numbers_between(a, b).len() && numbers_between(a, b)[j] == n;
    assert(numbers_between(a, b)[j] == a + j + 1);
}

proof fn lemma_numbers_in_range(rows: Seq<ThreeWayLine>, base_len: int, left_len: int, right_len: int)
    requires
        shown(rows, Pane::Base) == numbers_between(0, base_len),
        shown(rows, Pane::Left) == numbers_between(0, left_len),
        shown(rows, Pane::Right) == numbers_between(0, right_len),
    ensures
        numbers_in_range(rows, base_len, left_len, right_len),
{
    assert forall|k: int| 0 <= k < rows.len() implies {
        let row = #[trigger] rows[k];
        &&& (row.base_line_no matches Some(n) ==> 1 <= n <= base_len)
        &&& (row.left_line_no matches Some(n) ==> 1 <= n <= left_len)
        &&& (row.right_line_no matches Some(n) ==> 1 <= n <= right_len)
    } by {
        if rows[k].base_line_no is Some {
            lemma_shown_has(rows, Pane::Base, k);
            lemma_between_contains(0, base_len, rows[k].base_line_no->0 as int);
        }
        if rows[k].left_line_no is Some {
            lemma_shown_has(rows, Pane::Left, k);
            lemma_between_contains(0, left_len, rows[k].left_line_no->0 as int);
        }
        if rows[k].right_line_no is Some {
            lemma_shown_has(rows, Pane::Right, k);
            lemma_between_contains(0, right_len, rows[k].right_line_no->0 as int);
        }
    }
}

/// The rows of the first `k` blocks are a prefix of those of the first `m`.
proof fn lemma_rows_upto_grow(blocks: Seq<DiffBlock>, k: int, m: int)
    requires
        0 <= k <= m <= blocks.len(),
    ensures
        rows_upto(blocks, k).len() <= rows_upto(blocks, m).len(),
    decreases m - k,
{
    if k < m {
        lemma_rows_upto_grow(blocks, k, m - 1);
    }
}

/// Every block starts at a row of the view, or just past the last row.
proof fn lemma_block_rows_within(blocks: Seq<DiffBlock>, base_len: int, left_len: int, right_len: int)
    requires
        blocks_aligned(blocks, base_len, left_len, right_len),
    ensures
        forall|k: int| 0 <= k < blocks.len() ==> #[trigger] block_row(blocks, k) <= merge_rows(blocks, base_len).len(),
{
    assert forall|k: int| 0 <= k < blocks.len() implies #[trigger] block_row(blocks, k) <= merge_rows(blocks, base_len).len() by {
        lemma_rows_upto_grow(blocks, k + 1, blocks.len() as int);
        assert(block_aligned(blocks, k, base_len, left_len, right_len));
    }
}

/// The rows of the first `k` blocks begin the rows of the first `m`.
proof fn lemma_rows_upto_prefix(blocks: Seq<DiffBlock>, k: int, m: int, i: int)
    requires
        0 <= k <= m <= blocks.len(),
        0 <= i < rows_upto(blocks, k).len(),
    ensures
        i < rows_upto(blocks, m).len(),
        rows_upto(blocks, m)[i] == rows_upto(blocks, k)[i],
    decreases m - k,
{
    if k < m {
        lemma_rows_upto_prefix(blocks, k, m - 1, i);
        let (pb, pl, pr) = prev_ends(blocks, m - 1);
        let a = rows_upto(blocks, m - 1);
        let e = equal_rows(pb, pl, pr, blocks[m - 1].base_start - pb);
        assert(rows_upto(blocks, m) == a + e + block_rows(blocks[m - 1]));
        assert((a + e + block_rows(blocks[m - 1]))[i] == a[i]);
    }
}

/// Row `j` of block `k` stands at row `block_row(blocks, k) + j` of the
/// view.
pub proof fn lemma_block_row_at(blocks: Seq<DiffBlock>, base_len: int, left_len: int, right_len: int, k: int, j: int)
    requires
        blocks_aligned(blocks, base_len, left_len, right_len),
        0 <= k < blocks.len(),
        0 <= j < block_rows(blocks[k]).len(),
    ensures
        block_row(blocks, k) + j < merge_rows(blocks, base_len).len(),
        merge_rows(blocks, base_len)[block_row(blocks, k) + j] == block_rows(blocks[k])[j],
{
    assert(block_aligned(blocks, k, base_len, left_len, right_len));
    let (pb, pl, pr) = prev_ends(blocks, k);
    let a = rows_upto(blocks, k);
    let e = equal_rows(pb, pl, pr, blocks[k].base_start - pb);
    let br = block_rows(blocks[k]);
    assert(rows_upto(blocks, k + 1) == a + e + br);
    let i = block_row(blocks, k) + j;
    assert(i == a.len() + e.len() + j);
    assert((a + e + br)[i] == br[j]);
    lemma_rows_upto_prefix(blocks, k + 1, blocks.len() as int, i);
    let (qb, ql, qr) = prev_ends(blocks, blocks.len() as int);
    let all = rows_upto(blocks, blocks.len() as int);
    assert(merge_rows(blocks, base_len) == all + equal_rows(qb, ql, qr, base_len - qb));
}

/// A row of a part of the view that is not marked equal is a row of one
/// of its blocks: gives the block and the row within it.
proof fn lemma_locate_in_upto(blocks: Seq<DiffBlock>, base_len: int, left_len: int, right_len: int, m: int, q: int) -> (kj: (int, int))
    requires
        blocks_aligned(blocks, base_len, left_len, right_len),
        0 <= m <= blocks.len(),
        0 <= q < rows_upto(blocks, m).len(),
        rows_upto(blocks, m)[q].status != ThreeWayStatus::Equal,
    ensures
        0 <= kj.0 < m,
        0 <= kj.1 < block_rows(blocks[kj.0]).len(),
        q == block_row(blocks, kj.0) + kj.1,
        rows_upto(blocks, m)[q] == block_rows(blocks[kj.0])[kj.1],
    decreases m,
{
    let (pb, pl, pr) = prev_ends(blocks, m - 1);
    let a = rows_upto(blocks, m - 1);
    let e = equal_rows(pb, pl, pr, blocks[m - 1].base_start - pb);
    let br = block_rows(blocks[m - 1]);
    assert(rows_upto(blocks, m) == a + e + br);
    assert(block_aligned(blocks, m - 1, base_len, left_len, right_len));
    if q < a.len() {
        assert((a + e + br)[q] == a[q]);
        lemma_locate_in_upto(blocks, base_len, left_len, right_len, m - 1, q)
    } else if q < a.len() + e.len() {
        assert((a + e + br)[q] == e[q - a.len()]);
        assert(false);
        (0, 0)
    } else {
        let j = q - a.len() - e.len();
        assert((a + e + br)[q] == br[j]);
        (m - 1, j)
    }
}

/// A row of the view not marked equal is a row of one of its blocks.
pub proof fn lemma_locate_row(blocks: Seq<DiffBlock>, base_len: int, left_len: int, right_len: int, q: int) -> (kj: (int, int))
    requires
        blocks_aligned(blocks, base_len, left_len, right_len),
        0 <= q < merge_rows(blocks, base_len).len(),
        merge_rows(blocks, base_len)[q].status != ThreeWayStatus::Equal,
    ensures
        0 <= kj.0 < blocks.len(),
        0 <= kj.1 < block_rows(blocks[kj.0]).len(),
        q == block_row(blocks, kj.0) + kj.1,
        merge_rows(blocks, base_len)[q] == block_rows(blocks[kj.0])[kj.1],
{
    let (qb, ql, qr) = prev_ends(blocks, blocks.len() as int);
    let all = rows_upto(blocks, blocks.len() as int);
    let e = equal_rows(qb, ql, qr, base_len - qb);
    assert(merge_rows(blocks, base_len) == all + e);
    if q < all.len() {
        assert((all + e)[q] == all[q]);
        lemma_locate_in_upto(blocks, base_len, left_len, right_len, blocks.len() as int, q)
    } else {
        assert((all + e)[q] == e[q - all.len()]);
        assert(false);
        (0, 0)
    }
}

/// A row shows, on the left and on the right, either no line on both or
/// the same line on both.
pub open spec fn row_sides_agree(row: ThreeWayLine, left: Seq<Seq<char>>, right: Seq<Seq<char>>) -> bool {
    &&& (row.left_line_no is Some) == (row.right_line_no is Some)
    &&& (row.left_line_no is Some && row.right_line_no is Some) ==> left[row.left_line_no->0 - 1] == right[row.right_line_no->0 - 1]
}

/// A row of a block: what it shows of the left and right texts is the
/// block's left and right line at that row, or no line past a range's end.
proof fn lemma_block_row_sides(blk: DiffBlock, left: Seq<Seq<char>>, right: Seq<Seq<char>>, j: int)
    requires
        0 <= blk.left_start <= blk.left_end <= left.len() <= u32::MAX,
        0 <= blk.right_start <= blk.right_end <= right.len() <= u32::MAX,
        0 <= j < block_rows(blk).len(),
    ensures
        ({
            let row = block_rows(blk)[j];
            let lc = blk.left_end - blk.left_start;
            let rc = blk.right_end - blk.right_start;
            &&& row.status == blk.status
            &&& (row.left_line_no is Some) == (j < lc)
            &&& (row.right_line_no is Some) == (j < rc)
            &&& (j < lc ==> row.left_line_no->0 as int == blk.left_start + j + 1)
            &&& (j < rc ==> row.right_line_no->0 as int == blk.right_start + j + 1)
        }),
{
}

/// In a merge view, every row of a block marked as changed the same way on
/// both sides shows the same on the left and on the right.
pub proof fn lemma_both_changed_rows_agree(r: ThreeWayResult, base: Seq<Seq<char>>, left: Seq<Seq<char>>, right: Seq<Seq<char>>, q: int)
    requires
        is_merge_view(r, base, left, right),
        left.len() <= u32::MAX,
        right.len() <= u32::MAX,
        0 <= q < r.lines@.len(),
        r.lines@[q].status == ThreeWayStatus::BothChanged,
    ensures
        row_sides_agree(r.lines@[q], left, right),
{
    let blocks = merge_blocks(spec_slice_diff(base, left), spec_slice_diff(base, right), left, right);
    let (k, j) = lemma_locate_row(blocks, base.len() as int, left.len() as int, right.len() as int, q);
    let blk = blocks[k];
    assert(block_aligned(blocks, k, base.len() as int, left.len() as int, right.len() as int));
    assert(block_status_ok(blk, left, right));
    lemma_block_row_sides(blk, left, right, j);
    let ls = blk.left_start as int;
    let rs = blk.right_start as int;
    let sl = left.subrange(ls, blk.left_end as int);
    let sr = right.subrange(rs, blk.right_end as int);
    assert(r.lines@ == merge_rows(blocks, base.len() as int));
    let row = block_rows(blk)[j];
    assert(r.lines@[q] == row);
    assert(sl == sr);
    assert(sl.len() == sr.len());
    if j < sl.len() {
        assert(sl[j] == left[ls + j]);
        assert(sr[j] == right[rs + j]);
        assert(row.left_line_no->0 - 1 == ls + j);
        assert(row.right_line_no->0 - 1 == rs + j);
    }
}

/// What a row shows of a side is what it shows of the base: a line on
/// both, and the same line, or none on either.
pub open spec fn row_shows_base(row: ThreeWayLine, pane: Pane, base: Seq<Seq<char>>, side: Seq<Seq<char>>) -> bool {
    &&& (number_in_pane(row, pane) is Some) == (row.base_line_no is Some)
    &&& (number_in_pane(row, pane) is Some && row.base_line_no is Some) ==> side[number_in_pane(row, pane)->0 - 1] == base[row.base_line_no->0 - 1]
}

/// In a merge view, a row of a block marked as changed on the left only
/// shows on the right what it shows of the base, and one changed on the
/// right only shows on the left what it shows of the base.
pub proof fn lemma_one_sided_rows(r: ThreeWayResult, base: Seq<Seq<char>>, left: Seq<Seq<char>>, right: Seq<Seq<char>>, q: int)
    requires
        is_merge_view(r, base, left, right),
        base.len() <= u32::MAX,
        left.len() <= u32::MAX,
        right.len() <= u32::MAX,
        0 <= q < r.lines@.len(),
    ensures
        r.lines@[q].status == ThreeWayStatus::LeftChanged ==> row_shows_base(r.lines@[q], Pane::Right, base, right),
        r.lines@[q].status == ThreeWayStatus::RightChanged ==> row_shows_base(r.lines@[q], Pane::Left, base, left),
{
    let st = r.lines@[q].status;
    if st == ThreeWayStatus::LeftChanged || st == ThreeWayStatus::RightChanged {
        let bl = base.len() as int;
        let blocks = merge_blocks(spec_slice_diff(base, left), spec_slice_diff(base, right), left, right);
        assert(r.lines@ == merge_rows(blocks, bl));
        let (k, j) = lemma_locate_row(blocks, bl, left.len() as int, right.len() as int, q);
        let blk = blocks[k];
        assert(block_aligned(blocks, k, bl, left.len() as int, right.len() as int));
        assert(block_sides_ok(blk, base, left, right));
        lemma_block_row_sides(blk, left, right, j);
        let row = block_rows(blk)[j];
        assert(r.lines@[q] == row);
        let bs = blk.base_start as int;
        let bc = blk.base_end - blk.base_start;
        let sb = base.subrange(bs, blk.base_end as int);
        assert((row.base_line_no is Some) == (j < bc));
        if j < bc {
            assert(row.base_line_no->0 as int == bs + j + 1);
            assert(sb[j] == base[bs + j]);
        }
        if st == ThreeWayStatus::LeftChanged {
            let rs = blk.right_start as int;
            let sr = right.subrange(rs, blk.right_end as int);
            assert(sr == sb);
            if j < sr.len() {
                assert(sr[j] == right[rs + j]);
            }
        } else {
            let ls = blk.left_start as int;
            let sl = left.subrange(ls, blk.left_end as int);
            assert(sl == sb);
            if j < sl.len() {
                assert(sl[j] == left[ls + j]);
            }
        }
    }
}

/// In a merge view, every row of a block marked as a conflict lies in a
/// run of conflict rows holding a row that shows something different on
/// the left and on the right.
pub proof fn lemma_conflict_rows_differ(r: ThreeWayResult, base: Seq<Seq<char>>, left: Seq<Seq<char>>, right: Seq<Seq<char>>, q: int) -> (q2: int)
    requires
        is_merge_view(r, base, left, right),
        left.len() <= u32::MAX,
        right.len() <= u32::MAX,
        0 <= q < r.lines@.len(),
        r.lines@[q].status == ThreeWayStatus::Conflict,
    ensures
        0 <= q2 < r.lines@.len(),
        !row_sides_agree(r.lines@[q2], left, right),
        forall|i: int| (q <= i <= q2 || q2 <= i <= q) ==> (#[trigger] r.lines@[i]).status == ThreeWayStatus::Conflict,
{
    let bl = base.len() as int;
    let blocks = merge_blocks(spec_slice_diff(base, left), spec_slice_diff(base, right), left, right);
    let (k, j) = lemma_locate_row(blocks, bl, left.len() as int, right.len() as int, q);
    let blk = blocks[k];
    assert(block_aligned(blocks, k, bl, left.len() as int, right.len() as int));
    assert(block_status_ok(blk, left, right));
    let ls = blk.left_start as int;
    let rs = blk.right_start as int;
    let lc = blk.left_end - blk.left_start;
    let rc = blk.right_end - blk.right_start;
    let sl = left.subrange(ls, blk.left_end as int);
    let sr = right.subrange(rs, blk.right_end as int);
    assert(sl != sr);
    let j2: int = if lc != rc {
        if lc < rc { lc } else { rc }
    } else {
        assert(!(sl =~= sr));
        let i = choose|i: int| 0 <= i < sl.len() && sl[i] != sr[i];
        i
    };
    let n = block_rows(blk).len();
    assert(j2 < n);
    lemma_block_row_sides(blk, left, right, j2);
    lemma_block_row_at(blocks, bl, left.len() as int, right.len() as int, k, j2);
    let q2 = block_row(blocks, k) + j2;
    if lc == rc {
        assert(sl[j2] == left[ls + j2]);
        assert(sr[j2] == right[rs + j2]);
    }
    assert forall|i: int| (q <= i <= q2 || q2 <= i <= q) implies (#[trigger] r.lines@[i]).status == ThreeWayStatus::Conflict by {
        let ji = i - block_row(blocks, k);
        lemma_block_row_at(blocks, bl, left.len() as int, right.len() as int, k, ji);
        lemma_block_row_sides(blk, left, right, ji);
    }
    q2
}

/// The blocks of the merge of two diffs against the base: `left_spans`
/// takes the base to the left text, `right_spans` takes it to the right.
pub open spec fn merge_blocks(
    left_spans: Seq<DiffSpan>,
    right_spans: Seq<DiffSpan>,
    left: Seq<Seq<char>>,
    right: Seq<Seq<char>>,
) -> Seq<DiffBlock> {
    merge_from(hunks_of(left_spans), hunks_of(right_spans), 0, 0, 0, 0, 0, left, right)
}

/// The three-way merge view of `base`, `left` and `right`, given the diff
/// of the base against each side.
pub fn three_way_from_spans(
    base: &Vec<String>,
    left: &Vec<String>,
    right: &Vec<String>,
    left_spans: &Vec<DiffSpan>,
    right_spans: &Vec<DiffSpan>,
) -> (r: ThreeWayResult)
    requires
        spans_cover(left_spans@, lines_of(base@), lines_of(left@)),
        spans_cover(right_spans@, lines_of(base@), lines_of(right@)),
        base@.len() < u32::MAX,
        left@.len() <= u32::MAX,
        right@.len() <= u32::MAX,
    ensures
        is_view_of(
            r,
            merge_blocks(left_spans@, right_spans@, lines_of(left@), lines_of(right@)),
            base@.len() as int,
        ),
        shown(r.lines@, Pane::Base) == numbers_between(0, base@.len() as int),
        shown(r.lines@, Pane::Left) == numbers_between(0, left@.len() as int),
        shown(r.lines@, Pane::Right) == numbers_between(0, right@.len() as int),
        numbers_in_range(r.lines@, base@.len() as int, left@.len() as int, right@.len() as int),
        r.diff_positions@.len() <= base@.len() + 1,
        forall|k: int| 0 <= k < r.diff_positions@.len() ==> r.diff_positions@[k] <= r.lines@.len(),
        equal_rows_agree(r.lines@, lines_of(base@), lines_of(left@), lines_of(right@)),
        blocks_status_ok(merge_blocks(left_spans@, right_spans@, lines_of(left@), lines_of(right@)), lines_of(left@), lines_of(right@)),
        blocks_sides_ok(merge_blocks(left_spans@, right_spans@, lines_of(left@), lines_of(right@)), lines_of(base@), lines_of(left@), lines_of(right@)),
        blocks_aligned(merge_blocks(left_spans@, right_spans@, lines_of(left@), lines_of(right@)), base@.len() as int, left@.len() as int, right@.len() as int),
{
    let ghost bl = lines_of(base@);
    let ghost ll = lines_of(left@);
    let ghost rl = lines_of(right@);
    proof {
        assert(bl.len() == base@.len() && ll.len() == left@.len() && spans_cover(left_spans@, bl, ll));
        assert(bl.len() == base@.len() && rl.len() == right@.len() && spans_cover(right_spans@, bl, rl));
    }
    let lh = extract_hunks(left_spans, Ghost(bl), Ghost(ll));
    let rh = extract_hunks(right_spans, Ghost(bl), Ghost(rl));
    let blocks = merge_hunks(&lh, &rh, left, right, Ghost(bl));
    proof {
        lemma_panes_complete(blocks@, base@.len() as int, left@.len() as int, right@.len() as int, Pane::Base);
        lemma_panes_complete(blocks@, base@.len() as int, left@.len() as int, right@.len() as int, Pane::Left);
        lemma_panes_complete(blocks@, base@.len() as int, left@.len() as int, right@.len() as int, Pane::Right);
        lemma_numbers_in_range(merge_rows(blocks@, base@.len() as int), base@.len() as int, left@.len() as int, right@.len() as int);
        lemma_block_rows_within(blocks@, base@.len() as int, left@.len() as int, right@.len() as int);
        lemma_merge_rows_agree(blocks@, bl, ll, rl);
    }
    let r = build_result_lines(&blocks, base.len(), left.len(), right.len());
    proof {
        assert forall|k: int| 0 <= k < r.diff_positions@.len() implies r.diff_positions@[k] <= r.lines@.len() by {
            assert(r.diff_positions@[k] == block_row(blocks@, k));
        }
    }
    r
}

/// `r` is the merge view of `base`, `left` and `right`: the view of the
/// blocks of the Myers diffs of each side against the base, showing each
/// text whole and in order, every line number naming a line of its text,
/// each block starting at a row, and every row marked equal showing the
/// same line on the three texts.
pub open spec fn is_merge_view(r: ThreeWayResult, base: Seq<Seq<char>>, left: Seq<Seq<char>>, right: Seq<Seq<char>>) -> bool {
    &&& is_view_of(
        r,
        merge_blocks(spec_slice_diff(base, left), spec_slice_diff(base, right), left, right),
        base.len() as int,
    )
    &&& shown(r.lines@, Pane::Base) == numbers_between(0, base.len() as int)
    &&& shown(r.lines@, Pane::Left) == numbers_between(0, left.len() as int)
    &&& shown(r.lines@, Pane::Right) == numbers_between(0, right.len() as int)
    &&& numbers_in_range(r.lines@, base.len() as int, left.len() as int, right.len() as int)
    &&& r.diff_positions@.len() <= base.len() + 1
    &&& forall|k: int| 0 <= k < r.diff_positions@.len() ==> r.diff_positions@[k] <= r.lines@.len()
    &&& equal_rows_agree(r.lines@, base, left, right)
    &&& (base == left ==> spans_all_equal(spec_slice_diff(base, left)))
    &&& (base == right ==> spans_all_equal(spec_slice_diff(base, right)))
    &&& blocks_status_ok(merge_blocks(spec_slice_diff(base, left), spec_slice_diff(base, right), left, right), left, right)
    &&& blocks_sides_ok(merge_blocks(spec_slice_diff(base, left), spec_slice_diff(base, right), left, right), base, left, right)
    &&& blocks_aligned(
        merge_blocks(spec_slice_diff(base, left), spec_slice_diff(base, right), left, right),
        base.len() as int,
        left.len() as int,
        right.len() as int,
    )
}

/// A diff of equal operations only has no hunks.
proof fn lemma_no_hunks(spans: Seq<DiffSpan>)
    requires
        spans_all_equal(spans),
    ensures
        hunks_of(spans).len() == 0,
    decreases spans.len(),
{
    if spans.len() > 0 {
        let d = spans.drop_last();
        assert forall|k: int| 0 <= k < d.len() implies (#[trigger] d[k]).tag == SpanTag::Equal by {
            assert(d[k] == spans[k]);
        }
        lemma_no_hunks(d);
        assert(spans[spans.len() - 1].tag == SpanTag::Equal);
    }
}

/// Three equal texts have a merge view without differences or conflicts.
pub proof fn lemma_equal_texts_no_blocks3(r: ThreeWayResult, base: Seq<Seq<char>>, left: Seq<Seq<char>>, right: Seq<Seq<char>>)
    requires
        is_merge_view(r, base, left, right),
        base == left,
        base == right,
    ensures
        r.diff_positions@.len() == 0,
        r.conflict_count == 0,
{
    lemma_no_hunks(spec_slice_diff(base, left));
    lemma_no_hunks(spec_slice_diff(base, right));
    assert(hunks_of(spec_slice_diff(base, left)) =~= Seq::<Hunk>::empty());
    assert(hunks_of(spec_slice_diff(base, right)) =~= Seq::<Hunk>::empty());
    assert(merge_blocks(spec_slice_diff(base, left), spec_slice_diff(base, right), left, right).len() == 0);
}

/// The three-way merge view of `base`, `left` and `right`: each side is
/// diffed against the base with `similar`'s Myers slice diff, the changes
/// of both sides are grouped into blocks where they touch or overlap, and
/// the blocks are laid out between equal stretches.
pub fn compute_three_way_diff(base_lines: &Vec<String>, left_lines: &Vec<String>, right_lines: &Vec<String>) -> (r: ThreeWayResult)
    requires
        base_lines@.len() < u32::MAX,
        left_lines@.len() <= u32::MAX,
        right_lines@.len() <= u32::MAX,
    ensures
        is_merge_view(r, lines_of(base_lines@), lines_of(left_lines@), lines_of(right_lines@)),
{
    let left_spans = slice_diff(base_lines, left_lines);
    let right_spans = slice_diff(base_lines, right_lines);
    proof {
        assert(base_lines@.map_values(|l: String| l@) == lines_of(base_lines@));
        assert(left_lines@.map_values(|l: String| l@) == lines_of(left_lines@));
        assert(right_lines@.map_values(|l: String| l@) == lines_of(right_lines@));
    }
    three_way_from_spans(base_lines, left_lines, right_lines, &left_spans, &right_spans)
}

} // verus!
