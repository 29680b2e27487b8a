//! Copying one difference block from a pane to another: in a two-way diff
//! the block's lines replace those of the other side; in a three-way merge
//! the lines of one side replace the block's lines of the base.

use vstd::prelude::*;
use crate::models::{DiffLine, LineStatus, ThreeWayLine, ThreeWayStatus};
use crate::text::copy_lines;
use crate::three_way::{number_in_pane, shown, Pane};

verus! {

/// `v` with `src` inserted at position `pos`, or at the end when `pos` is
/// past it.
pub open spec fn insert_lines<T>(v: Seq<T>, pos: int, src: Seq<T>) -> Seq<T> {
    let p = if pos < v.len() { pos } else { v.len() as int };
    v.take(p) + src + v.skip(p)
}

/// Inserts `src` into `v` at `pos` (at the end when `pos` is past it).
fn insert_all(v: &mut Vec<String>, pos: usize, src: &Vec<String>)
    ensures
        final(v)@ == insert_lines(old(v)@, pos as int, src@),
{
    let ghost orig = v@;
    let p = if pos < v.len() { pos } else { v.len() };
    let mut i: usize = 0;
    proof {
        assert(orig.take(p as int) + src@.take(0) + orig.skip(p as int) =~= orig);
    }
    while i < src.len()
        invariant
            i <= src@.len(),
            p <= orig.len(),
            v@ == orig.take(p as int) + src@.take(i as int) + orig.skip(p as int),
        decreases src@.len() - i,
    {
        let line = src[i].clone();
        let ghost before = v@;
        assert(p + i <= v.len());
        v.insert(p + i, line);
        proof {
            assert(v@ =~= orig.take(p as int) + src@.take(i + 1) + orig.skip(p as int));
        }
        i = i + 1;
    }
    proof {
        assert(src@.take(src@.len() as int) =~= src@);
    }
}

/// The row after the last of the block that starts at row `start`: the
/// first equal row from `start` on, or the end.
pub open spec fn block_end(lines: Seq<DiffLine>, start: int) -> int
    decreases lines.len() - start,
{
    if start < 0 || start >= lines.len() || lines[start].status == LineStatus::Equal {
        start
    } else {
        block_end(lines, start + 1)
    }
}

/// The line number a row gives the left side (`left`) or the right side.
pub open spec fn side_no(l: DiffLine, left: bool) -> Option<u32> {
    if left {
        l.left_line_no
    } else {
        l.right_line_no
    }
}

/// The line numbers the rows show on one side, in row order.
pub open spec fn shown_side(rows: Seq<DiffLine>, left: bool) -> Seq<int>
    decreases rows.len(),
{
    if rows.len() == 0 {
        seq![]
    } else {
        let prev = shown_side(rows.drop_last(), left);
        match side_no(rows.last(), left) {
            Some(n) => prev.push(n as int),
            None => prev,
        }
    }
}

/// The side copied to after copying the block at row `start` of a two-way
/// diff (`to_right`: from the left): the lines the block shows of the side
/// copied from, in row order, take the place of the lines from the first to
/// the last the block shows of the side copied to, so that the block of
/// the side copied to becomes that of the side copied from. A block that
/// shows no line of the side copied to has them inserted after the last
/// line of that side shown above it.
pub open spec fn block_copied<T>(lines: Seq<DiffLine>, start: int, src: Seq<T>, tgt: Seq<T>, to_right: bool) -> Seq<T> {
    let rows = lines.subrange(start, block_end(lines, start));
    let source = lines_numbered(src, shown_side(rows, to_right));
    let tn = shown_side(rows, !to_right);
    if tn.len() > 0 {
        let bs = seq_min(tn) - 1;
        let be = if seq_max(tn) < tgt.len() { seq_max(tn) } else { tgt.len() as int };
        tgt.take(bs) + source + tgt.skip(be)
    } else {
        let p = if start > 0 { seq_max(shown_side(lines.take(start), !to_right)) } else { 0 };
        insert_lines(tgt, p, source)
    }
}

/// Every line number of the rows names a line of its side.
pub open spec fn lines_within(lines: Seq<DiffLine>, left_len: nat, right_len: nat) -> bool {
    forall|k: int|
        0 <= k < lines.len() ==> {
            let line = #[trigger] lines[k];
            &&& (line.left_line_no matches Some(n) ==> 1 <= n <= left_len)
            &&& (line.right_line_no matches Some(n) ==> 1 <= n <= right_len)
        }
}

proof fn lemma_shown_side_push(rows: Seq<DiffLine>, j: int, left: bool)
    requires
        0 <= j < rows.len(),
    ensures
        shown_side(rows.take(j + 1), left) == match side_no(rows[j], left) {
            Some(n) => shown_side(rows.take(j), left).push(n as int),
            None => shown_side(rows.take(j), left),
        },
{
    assert(rows.take(j + 1).drop_last() =~= rows.take(j));
    assert(rows.take(j + 1).last() == rows[j]);
}

/// The numbers some rows show on a side lie within its lines when every
/// row's number does.
proof fn lemma_shown_side_bounds(rows: Seq<DiffLine>, left: bool, len: int)
    requires
        forall|k: int| 0 <= k < rows.len() ==> (#[trigger] side_no(rows[k], left) matches Some(n) ==> 1 <= n <= len),
    ensures
        forall|k: int| 0 <= k < shown_side(rows, left).len() ==> 1 <= #[trigger] shown_side(rows, left)[k] <= len,
    decreases rows.len(),
{
    if rows.len() > 0 {
        assert forall|k: int| 0 <= k < rows.drop_last().len() implies (#[trigger] side_no(rows.drop_last()[k], left) matches Some(n) ==> 1 <= n <= len) by {
            assert(rows.drop_last()[k] == rows[k]);
        }
        lemma_shown_side_bounds(rows.drop_last(), left, len);
        assert(side_no(rows[rows.len() - 1], left) matches Some(n) ==> 1 <= n <= len);
        let prev = shown_side(rows.drop_last(), left);
        assert forall|k: int| 0 <= k < shown_side(rows, left).len() implies 1 <= #[trigger] shown_side(rows, left)[k] <= len by {
            if k < prev.len() {
                assert(shown_side(rows, left)[k] == prev[k]);
            }
        }
    }
}

/// `base` with its lines from `bs` up to `be` replaced by `source`.
fn splice(base: &Vec<String>, bs: usize, be: usize, source: &Vec<String>) -> (out: Vec<String>)
    requires
        bs <= be <= base@.len(),
    ensures
        out@ == base@.take(bs as int) + source@ + base@.skip(be as int),
{
    let mut out: Vec<String> = Vec::new();
    let mut i: usize = 0;
    while i < bs
        invariant
            i <= bs <= base@.len(),
            out@ == base@.take(i as int),
        decreases bs - i,
    {
        out.push(base[i].clone());
        i = i + 1;
        proof {
            assert(out@ =~= base@.take(i as int));
        }
    }
    let ghost mid = out@;
    let mut i: usize = 0;
    while i < source.len()
        invariant
            i <= source@.len(),
            out@ == mid + source@.take(i as int),
        decreases source@.len() - i,
    {
        out.push(source[i].clone());
        i = i + 1;
        proof {
            assert(out@ =~= mid + source@.take(i as int));
        }
    }
    let ghost mid2 = out@;
    let mut i: usize = be;
    while i < base.len()
        invariant
            be <= i <= base@.len(),
            out@ == mid2 + base@.subrange(be as int, i as int),
        decreases base@.len() - i,
    {
        out.push(base[i].clone());
        i = i + 1;
        proof {
            assert(out@ =~= mid2 + base@.subrange(be as int, i as int));
        }
    }
    proof {
        assert(source@.take(source@.len() as int) =~= source@);
        assert(base@.subrange(be as int, base@.len() as int) =~= base@.skip(be as int));
    }
    out
}

/// Copies the block that starts at row `start` of a two-way diff from one
/// side to the other (`to_right`: from the left to the right), giving the
/// new lines of the side copied to.
pub fn copy_block_two_way(lines: &Vec<DiffLine>, start: usize, src: &Vec<String>, tgt: &Vec<String>, to_right: bool) -> (r: Vec<String>)
    requires
        start < lines@.len(),
        to_right ==> lines_within(lines@, src@.len(), tgt@.len()),
        !to_right ==> lines_within(lines@, tgt@.len(), src@.len()),
    ensures
        r@ == block_copied(lines@, start as int, src@, tgt@, to_right),
{
    let mut end: usize = start;
    while end < lines.len() && lines[end].status != LineStatus::Equal
        invariant
            start <= end <= lines@.len(),
            block_end(lines@, start as int) == block_end(lines@, end as int),
        decreases lines@.len() - end,
    {
        end = end + 1;
    }
    let ghost rows = lines@.subrange(start as int, end as int);
    proof {
        assert forall|k: int| 0 <= k < lines@.len() implies {
            &&& (#[trigger] side_no(lines@[k], to_right) matches Some(n) ==> 1 <= n <= src@.len())
            &&& (side_no(lines@[k], !to_right) matches Some(n) ==> 1 <= n <= tgt@.len())
        } by {
            let line = lines@[k];
            if to_right {
                assert(lines_within(lines@, src@.len(), tgt@.len()));
            } else {
                assert(lines_within(lines@, tgt@.len(), src@.len()));
            }
        }
    }
    let mut source: Vec<String> = Vec::new();
    let mut tmin: u32 = 0;
    let mut tmax: u32 = 0;
    let mut seen = false;
    let mut k: usize = start;
    proof {
        assert(rows.take(0) =~= Seq::<DiffLine>::empty());
        assert(source@ =~= lines_numbered(src@, shown_side(rows.take(0), to_right)));
    }
    while k < end
        invariant
            start <= k <= end <= lines@.len(),
            rows == lines@.subrange(start as int, end as int),
            forall|k: int| 0 <= k < lines@.len() ==> (#[trigger] side_no(lines@[k], to_right) matches Some(n) ==> 1 <= n <= src@.len()),
            source@ == lines_numbered(src@, shown_side(rows.take(k - start), to_right)),
            seen == (shown_side(rows.take(k - start), !to_right).len() > 0),
            seen ==> tmin == seq_min(shown_side(rows.take(k - start), !to_right)),
            seen ==> tmax == seq_max(shown_side(rows.take(k - start), !to_right)),
        decreases end - k,
    {
        let ghost j = k - start;
        let row = &lines[k];
        let sn = if to_right { row.left_line_no } else { row.right_line_no };
        let tn = if to_right { row.right_line_no } else { row.left_line_no };
        proof {
            assert(rows[j] == lines@[k as int]);
            lemma_shown_side_push(rows, j, to_right);
            lemma_shown_side_push(rows, j, !to_right);
            lemma_min_max_push(shown_side(rows.take(j), !to_right), tn->0 as int);
            assert(side_no(lines@[k as int], to_right) == sn);
        }
        if let Some(x) = sn {
            let l = src[(x - 1) as usize].clone();
            source.push(l);
            proof {
                assert(source@ =~= lines_numbered(src@, shown_side(rows.take(j + 1), to_right)));
            }
        }
        if let Some(b) = tn {
            if !seen || b < tmin {
                tmin = b;
            }
            if !seen || b > tmax {
                tmax = b;
            }
            seen = true;
        }
        k = k + 1;
    }
    proof {
        assert(rows.take(end - start) =~= rows);
        assert(block_end(lines@, start as int) == end);
    }
    if seen {
        proof {
            let tl = !to_right;
            assert forall|k: int| 0 <= k < rows.len() implies (#[trigger] side_no(rows[k], tl) matches Some(n) ==> 1 <= n <= tgt@.len()) by {
                assert(rows[k] == lines@[start + k]);
            }
            lemma_shown_side_bounds(rows, tl, tgt@.len() as int);
            lemma_min_max_bounds(shown_side(rows, tl), 1, tgt@.len() as int);
        }
        let bs = (tmin - 1) as usize;
        let be = if (tmax as usize) < tgt.len() { tmax as usize } else { tgt.len() };
        splice(tgt, bs, be, &source)
    } else {
        let mut at: u32 = 0;
        let mut have = false;
        if start > 0 {
            let mut k: usize = 0;
            proof {
                assert(lines@.take(0) =~= Seq::<DiffLine>::empty());
            }
            while k < start
                invariant
                    k <= start <= lines@.len(),
                    have == (shown_side(lines@.take(k as int), !to_right).len() > 0),
                    have ==> at == seq_max(shown_side(lines@.take(k as int), !to_right)),
                    !have ==> at == 0,
                decreases start - k,
            {
                let tn = if to_right { lines[k].right_line_no } else { lines[k].left_line_no };
                proof {
                    lemma_shown_side_push(lines@, k as int, !to_right);
                    lemma_min_max_push(shown_side(lines@.take(k as int), !to_right), tn->0 as int);
                }
                if let Some(b) = tn {
                    if !have || b > at {
                        at = b;
                    }
                    have = true;
                }
                k = k + 1;
            }
        }
        let mut out = copy_lines(tgt);
        insert_all(&mut out, at as usize, &source);
        out
    }
}

/// The largest of some numbers; 0 for none.
pub open spec fn seq_max(s: Seq<int>) -> int
    decreases s.len(),
{
    if s.len() == 0 {
        0
    } else if s.len() == 1 {
        s[0]
    } else {
        let m = seq_max(s.drop_last());
        if s.last() > m {
            s.last()
        } else {
            m
        }
    }
}

/// The smallest of some numbers; 0 for none.
pub open spec fn seq_min(s: Seq<int>) -> int
    decreases s.len(),
{
    if s.len() == 0 {
        0
    } else if s.len() == 1 {
        s[0]
    } else {
        let m = seq_min(s.drop_last());
        if s.last() < m {
            s.last()
        } else {
            m
        }
    }
}

/// The row after the last of the three-way block that starts at row
/// `start`.
pub open spec fn block_end3(lines: Seq<ThreeWayLine>, start: int) -> int
    decreases lines.len() - start,
{
    if start < 0 || start >= lines.len() || lines[start].status == ThreeWayStatus::Equal {
        start
    } else {
        block_end3(lines, start + 1)
    }
}

/// A three-way block ends at or after its start, within the rows.
pub(crate) proof fn lemma_block_end3_bounds(lines: Seq<ThreeWayLine>, start: int)
    requires
        0 <= start <= lines.len(),
    ensures
        start <= block_end3(lines, start) <= lines.len(),
    decreases lines.len() - start,
{
    if start < lines.len() && lines[start].status != ThreeWayStatus::Equal {
        lemma_block_end3_bounds(lines, start + 1);
    }
}

/// The lines with the given numbers (from 1).
pub open spec fn lines_numbered<T>(src: Seq<T>, nos: Seq<int>) -> Seq<T> {
    nos.map_values(|n: int| src[n - 1])
}

/// The base after copying the block at row `start` of a three-way merge
/// from the side `from` (left or right): the block's lines of that side
/// replace the base's lines from the first to the last the block shows;
/// a block that shows no base line has them inserted after the last base
/// line shown above it.
pub open spec fn copy_block3<T>(lines: Seq<ThreeWayLine>, start: int, from: Pane, src: Seq<T>, base: Seq<T>) -> Seq<T> {
    let rows = lines.subrange(start, block_end3(lines, start));
    let source = lines_numbered(src, shown(rows, from));
    let bn = shown(rows, Pane::Base);
    if bn.len() > 0 {
        let bs = seq_min(bn) - 1;
        let be = if seq_max(bn) < base.len() { seq_max(bn) } else { base.len() as int };
        base.take(bs) + source + base.skip(be)
    } else {
        let p = if start > 0 { seq_max(shown(lines.take(start), Pane::Base)) } else { 0 };
        insert_lines(base, p, source)
    }
}

proof fn lemma_shown_push(rows: Seq<ThreeWayLine>, j: int, pane: Pane)
    requires
        0 <= j < rows.len(),
    ensures
        shown(rows.take(j + 1), pane) == match number_in_pane(rows[j], pane) {
            Some(n) => shown(rows.take(j), pane).push(n as int),
            None => shown(rows.take(j), pane),
        },
{
    assert(rows.take(j + 1).drop_last() =~= rows.take(j));
    assert(rows.take(j + 1).last() == rows[j]);
}

proof fn lemma_min_max_push(s: Seq<int>, x: int)
    ensures
        seq_max(s.push(x)) == if s.len() == 0 || x > seq_max(s) { x } else { seq_max(s) },
        seq_min(s.push(x)) == if s.len() == 0 || x < seq_min(s) { x } else { seq_min(s) },
{
    assert(s.push(x).drop_last() =~= s);
}

pub(crate) proof fn lemma_min_max_bounds(s: Seq<int>, lo: int, hi: int)
    requires
        s.len() > 0,
        forall|k: int| 0 <= k < s.len() ==> lo <= #[trigger] s[k] <= hi,
    ensures
        lo <= seq_min(s) <= seq_max(s) <= hi,
    decreases s.len(),
{
    if s.len() > 1 {
        lemma_min_max_bounds(s.drop_last(), lo, hi);
        assert(s.drop_last()[0] == s[0]);
        assert(s[s.len() - 1] == s.last());
    }
}

/// The numbers a pane shows in some rows lie within the pane's lines when
/// every row's number does.
pub(crate) proof fn lemma_shown_bounds(rows: Seq<ThreeWayLine>, pane: Pane, len: int)
    requires
        forall|k: int| 0 <= k < rows.len() ==> (#[trigger] number_in_pane(rows[k], pane) matches Some(n) ==> 1 <= n <= len),
    ensures
        forall|k: int| 0 <= k < shown(rows, pane).len() ==> 1 <= #[trigger] shown(rows, pane)[k] <= len,
    decreases rows.len(),
{
    if rows.len() > 0 {
        assert forall|k: int| 0 <= k < rows.drop_last().len() implies (#[trigger] number_in_pane(rows.drop_last()[k], pane) matches Some(n) ==> 1 <= n <= len) by {
            assert(rows.drop_last()[k] == rows[k]);
        }
        lemma_shown_bounds(rows.drop_last(), pane, len);
        assert(number_in_pane(rows[rows.len() - 1], pane) matches Some(n) ==> 1 <= n <= len);
        let prev = shown(rows.drop_last(), pane);
        assert forall|k: int| 0 <= k < shown(rows, pane).len() implies 1 <= #[trigger] shown(rows, pane)[k] <= len by {
            if k < prev.len() {
                assert(shown(rows, pane)[k] == prev[k]);
            }
        }
    }
}

/// The number a row shows in a pane.
fn row_number(row: &ThreeWayLine, pane: Pane) -> (r: Option<u32>)
    ensures
        r == number_in_pane(*row, pane),
{
    match pane {
        Pane::Left => row.left_line_no,
        Pane::Base => row.base_line_no,
        Pane::Right => row.right_line_no,
    }
}

/// The rows' numbers in a pane stay within its lines.
pub open spec fn pane_within(lines: Seq<ThreeWayLine>, pane: Pane, len: int) -> bool {
    forall|k: int| 0 <= k < lines.len() ==> (#[trigger] number_in_pane(lines[k], pane) matches Some(n) ==> 1 <= n <= len)
}

/// Copies the block that starts at row `start` of a three-way merge from
/// the side `from` into the base, giving the new base.
pub fn copy_block_three_way(lines: &Vec<ThreeWayLine>, start: usize, from: Pane, src: &Vec<String>, base: &Vec<String>) -> (r: Vec<String>)
    requires
        start <= lines@.len(),
        from != Pane::Base,
        pane_within(lines@, from, src@.len() as int),
        pane_within(lines@, Pane::Base, base@.len() as int),
    ensures
        r@ == copy_block3(lines@, start as int, from, src@, base@),
{
    let mut end: usize = start;
    while end < lines.len() && lines[end].status != ThreeWayStatus::Equal
        invariant
            start <= end <= lines@.len(),
            block_end3(lines@, start as int) == block_end3(lines@, end as int),
        decreases lines@.len() - end,
    {
        end = end + 1;
    }
    let ghost rows = lines@.subrange(start as int, end as int);
    let mut source: Vec<String> = Vec::new();
    let mut bmin: u32 = 0;
    let mut bmax: u32 = 0;
    let mut seen = false;
    let mut k: usize = start;
    proof {
        assert(rows.take(0) =~= Seq::<ThreeWayLine>::empty());
        assert(source@ =~= lines_numbered(src@, shown(rows.take(0), from)));
    }
    while k < end
        invariant
            start <= k <= end <= lines@.len(),
            rows == lines@.subrange(start as int, end as int),
            pane_within(lines@, from, src@.len() as int),
            source@ == lines_numbered(src@, shown(rows.take(k - start), from)),
            seen == (shown(rows.take(k - start), Pane::Base).len() > 0),
            seen ==> bmin == seq_min(shown(rows.take(k - start), Pane::Base)),
            seen ==> bmax == seq_max(shown(rows.take(k - start), Pane::Base)),
        decreases end - k,
    {
        let ghost j = k - start;
        let row = &lines[k];
        proof {
            assert(rows[j] == lines@[k as int]);
            lemma_shown_push(rows, j, from);
            lemma_shown_push(rows, j, Pane::Base);
            lemma_min_max_push(shown(rows.take(j), Pane::Base), row.base_line_no->0 as int);
        }
        let n = row_number(row, from);
        if let Some(x) = n {
            let l = src[(x - 1) as usize].clone();
            let ghost before = source@;
            source.push(l);
            proof {
                assert(source@ =~= lines_numbered(src@, shown(rows.take(j + 1), from)));
            }
        }
        if let Some(b) = row.base_line_no {
            if !seen || b < bmin {
                bmin = b;
            }
            if !seen || b > bmax {
                bmax = b;
            }
            seen = true;
        }
        k = k + 1;
    }
    proof {
        assert(rows.take(end - start) =~= rows);
        assert(block_end3(lines@, start as int) == end);
    }
    if seen {
        proof {
            assert forall|k: int| 0 <= k < rows.len() implies (#[trigger] number_in_pane(rows[k], Pane::Base) matches Some(n) ==> 1 <= n <= base@.len()) by {
                assert(rows[k] == lines@[start + k]);
            }
            lemma_shown_bounds(rows, Pane::Base, base@.len() as int);
            lemma_min_max_bounds(shown(rows, Pane::Base), 1, base@.len() as int);
        }
        let bs = (bmin - 1) as usize;
        let be = if (bmax as usize) < base.len() { bmax as usize } else { base.len() };
        let mut out: Vec<String> = Vec::new();
        let mut i: usize = 0;
        while i < bs
            invariant
                i <= bs <= base@.len(),
                out@ == base@.take(i as int),
            decreases bs - i,
        {
            out.push(base[i].clone());
            i = i + 1;
            proof {
                assert(out@ =~= base@.take(i as int));
            }
        }
        let ghost mid = out@;
        let mut i: usize = 0;
        while i < source.len()
            invariant
                i <= source@.len(),
                out@ == mid + source@.take(i as int),
            decreases source@.len() - i,
        {
            out.push(source[i].clone());
            i = i + 1;
            proof {
                assert(out@ =~= mid + source@.take(i as int));
            }
        }
        let ghost mid2 = out@;
        let mut i: usize = be;
        while i < base.len()
            invariant
                be <= i <= base@.len(),
                out@ == mid2 + base@.subrange(be as int, i as int),
            decreases base@.len() - i,
        {
            out.push(base[i].clone());
            i = i + 1;
            proof {
                assert(out@ =~= mid2 + base@.subrange(be as int, i as int));
            }
        }
        proof {
            assert(source@.take(source@.len() as int) =~= source@);
            assert(base@.subrange(be as int, base@.len() as int) =~= base@.skip(be as int));
        }
        out
    } else {
        let mut at: u32 = 0;
        let mut have = false;
        if start > 0 {
            let mut k: usize = 0;
            proof {
                assert(lines@.take(0) =~= Seq::<ThreeWayLine>::empty());
            }
            while k < start
                invariant
                    k <= start <= lines@.len(),
                    have == (shown(lines@.take(k as int), Pane::Base).len() > 0),
                    have ==> at == seq_max(shown(lines@.take(k as int), Pane::Base)),
                    !have ==> at == 0,
                decreases start - k,
            {
                proof {
                    lemma_shown_push(lines@, k as int, Pane::Base);
                    lemma_min_max_push(shown(lines@.take(k as int), Pane::Base), lines@[k as int].base_line_no->0 as int);
                }
                if let Some(b) = lines[k].base_line_no {
                    if !have || b > at {
                        at = b;
                    }
                    have = true;
                }
                k = k + 1;
            }
        }
        let mut out = copy_lines(base);
        insert_all(&mut out, at as usize, &source);
        out
    }
}

} // verus!
