//! How an edit script between two line lists becomes the rows of a
//! side-by-side view: equal lines face each other; in each run of changes
//! the deleted and inserted lines are paired as modified rows, and the
//! rest of the longer side follows as removed or added rows.

use vstd::prelude::*;
use crate::models::LineStatus;
use crate::sequence_diff::{ChangeKind, old_taken, new_taken};

verus! {

/// A displayed row: its status and its 1-based line numbers on each side.
pub struct RowSpec {
    pub status: LineStatus,
    pub left: Option<int>,
    pub right: Option<int>,
}

/// Number of leading changes that are not equal.
pub open spec fn run_len(tags: Seq<ChangeKind>) -> nat
    decreases tags.len(),
{
    if tags.len() == 0 || tags[0] == ChangeKind::Equal {
        0
    } else {
        1 + run_len(tags.drop_first())
    }
}

/// The rows of one run of changes that deletes `d` lines after left line
/// `l` and inserts `i` lines after right line `r`.
pub open spec fn block_rows(l: int, r: int, d: nat, i: nat) -> Seq<RowSpec> {
    let n = if d < i { d } else { i };
    let m = if d < i { i } else { d };
    Seq::new(
        m,
        |j: int|
            if j < n {
                RowSpec { status: LineStatus::Modified, left: Some(l + j + 1), right: Some(r + j + 1) }
            } else if d > i {
                RowSpec { status: LineStatus::Removed, left: Some(l + j + 1), right: None }
            } else {
                RowSpec { status: LineStatus::Added, left: None, right: Some(r + j + 1) }
            },
    )
}

/// The rows of an edit script whose first change comes after left line `l`
/// and right line `r`.
pub open spec fn layout_from(tags: Seq<ChangeKind>, l: int, r: int) -> Seq<RowSpec>
    decreases tags.len(),
{
    if tags.len() == 0 {
        seq![]
    } else if tags[0] == ChangeKind::Equal {
        seq![RowSpec { status: LineStatus::Equal, left: Some(l + 1), right: Some(r + 1) }]
            + layout_from(tags.drop_first(), l + 1, r + 1)
    } else {
        let k = run_len(tags);
        proof {
            lemma_run_len_bounds(tags);
        }
        let d = old_taken(tags.take(k as int));
        let i = new_taken(tags.take(k as int));
        block_rows(l, r, d, i) + layout_from(tags.skip(k as int), l + d, r + i)
    }
}

/// The rows of an edit script.
pub open spec fn spec_layout(tags: Seq<ChangeKind>) -> Seq<RowSpec> {
    layout_from(tags, 0, 0)
}

pub proof fn lemma_run_len_bounds(tags: Seq<ChangeKind>)
    ensures
        run_len(tags) <= tags.len(),
        tags.len() > 0 && tags[0] != ChangeKind::Equal ==> run_len(tags) >= 1,
        forall|k: int| 0 <= k < run_len(tags) ==> tags[k] != ChangeKind::Equal,
        run_len(tags) < tags.len() ==> tags[run_len(tags) as int] == ChangeKind::Equal,
    decreases tags.len(),
{
    if tags.len() > 0 && tags[0] != ChangeKind::Equal {
        lemma_run_len_bounds(tags.drop_first());
        assert forall|k: int| 0 <= k < run_len(tags) implies tags[k] != ChangeKind::Equal by {
            if k > 0 {
                assert(tags[k] == tags.drop_first()[k - 1]);
            }
        }
        if run_len(tags) < tags.len() {
            assert(tags[run_len(tags) as int] == tags.drop_first()[run_len(tags) - 1]);
        }
    }
}

/// `run_len` is the position of the first equal change, when every change
/// between the start and `j` is not equal.
pub proof fn lemma_run_len_is(tags: Seq<ChangeKind>, j: int)
    requires
        0 <= j <= tags.len(),
        forall|k: int| 0 <= k < j ==> tags[k] != ChangeKind::Equal,
        j == tags.len() || tags[j] == ChangeKind::Equal,
    ensures
        run_len(tags) == j,
    decreases j,
{
    if j > 0 {
        lemma_run_len_is(tags.drop_first(), j - 1);
    }
}

pub proof fn lemma_taken_push(tags: Seq<ChangeKind>, t: ChangeKind)
    ensures
        old_taken(tags.push(t)) == old_taken(tags) + if t != ChangeKind::Insert {
            1nat
        } else {
            0nat
        },
        new_taken(tags.push(t)) == new_taken(tags) + if t != ChangeKind::Delete {
            1nat
        } else {
            0nat
        },
{
    assert(tags.push(t).drop_last() =~= tags);
}

/// Consuming counts add up over concatenation.
pub proof fn lemma_taken_add(a: Seq<ChangeKind>, b: Seq<ChangeKind>)
    ensures
        old_taken(a + b) == old_taken(a) + old_taken(b),
        new_taken(a + b) == new_taken(a) + new_taken(b),
    decreases b.len(),
{
    if b.len() > 0 {
        lemma_taken_add(a, b.drop_last());
        assert((a + b).drop_last() =~= a + b.drop_last());
    } else {
        assert(a + b =~= a);
    }
}

/// Consuming counts never exceed the number of changes.
pub proof fn lemma_taken_le(tags: Seq<ChangeKind>)
    ensures
        old_taken(tags) <= tags.len(),
        new_taken(tags) <= tags.len(),
    decreases tags.len(),
{
    if tags.len() > 0 {
        lemma_taken_le(tags.drop_last());
    }
}

/// A line number as a mathematical integer.
pub open spec fn opt_int(o: Option<u32>) -> Option<int> {
    match o {
        Some(n) => Some(n as int),
        None => None,
    }
}

/// A displayed row with machine line numbers.
#[derive(Debug, Clone, Copy)]
pub struct Row {
    pub status: LineStatus,
    pub left: Option<u32>,
    pub right: Option<u32>,
}

pub open spec fn row_spec(row: Row) -> RowSpec {
    RowSpec { status: row.status, left: opt_int(row.left), right: opt_int(row.right) }
}

pub open spec fn rows_spec(rows: Seq<Row>) -> Seq<RowSpec> {
    rows.map_values(|row: Row| row_spec(row))
}

/// Bounds of the consumed counts of a prefix.
pub proof fn lemma_prefix_taken_le(tags: Seq<ChangeKind>, i: int)
    requires
        0 <= i <= tags.len(),
    ensures
        old_taken(tags.take(i)) <= old_taken(tags),
        new_taken(tags.take(i)) <= new_taken(tags),
{
    lemma_taken_add(tags.take(i), tags.skip(i));
    assert(tags.take(i) + tags.skip(i) =~= tags);
}

/// The end of the run of changes that starts at `i`, with the number of
/// lines it deletes and inserts.
fn scan_run(tags: &Vec<ChangeKind>, i: usize) -> (res: (usize, u32, u32))
    requires
        i < tags@.len(),
        tags@[i as int] != ChangeKind::Equal,
        old_taken(tags@) <= u32::MAX,
        new_taken(tags@) <= u32::MAX,
    ensures
        i < res.0 <= tags@.len(),
        run_len(tags@.skip(i as int)) == res.0 - i,
        res.1 as nat == old_taken(tags@.subrange(i as int, res.0 as int)),
        res.2 as nat == new_taken(tags@.subrange(i as int, res.0 as int)),
        old_taken(tags@.take(res.0 as int)) == old_taken(tags@.take(i as int)) + res.1,
        new_taken(tags@.take(res.0 as int)) == new_taken(tags@.take(i as int)) + res.2,
{
    let n = tags.len();
    let mut j: usize = i;
    let mut d: u32 = 0;
    let mut ins: u32 = 0;
    proof {
        assert(tags@.subrange(i as int, i as int) =~= Seq::<ChangeKind>::empty());
    }
    while j < n && tags[j] != ChangeKind::Equal
        invariant
            n == tags@.len(),
            i <= j <= n,
            old_taken(tags@) <= u32::MAX,
            new_taken(tags@) <= u32::MAX,
            forall|k: int| i <= k < j ==> tags@[k] != ChangeKind::Equal,
            d as nat == old_taken(tags@.subrange(i as int, j as int)),
            ins as nat == new_taken(tags@.subrange(i as int, j as int)),
            old_taken(tags@.take(j as int)) == old_taken(tags@.take(i as int)) + d,
            new_taken(tags@.take(j as int)) == new_taken(tags@.take(i as int)) + ins,
        decreases n - j,
    {
        proof {
            lemma_taken_push(tags@.subrange(i as int, j as int), tags@[j as int]);
            assert(tags@.subrange(i as int, j + 1) =~= tags@.subrange(i as int, j as int).push(tags@[j as int]));
            lemma_taken_push(tags@.take(j as int), tags@[j as int]);
            assert(tags@.take(j + 1) =~= tags@.take(j as int).push(tags@[j as int]));
            lemma_prefix_taken_le(tags@, j + 1);
        }
        if tags[j] == ChangeKind::Delete {
            d = d + 1;
        } else {
            ins = ins + 1;
        }
        j = j + 1;
    }
    proof {
        let rest = tags@.skip(i as int);
        lemma_run_len_is(rest, j - i);
    }
    (j, d, ins)
}

/// Appends the rows of one run of changes.
fn push_block(rows: &mut Vec<Row>, l: u32, r: u32, d: u32, ins: u32)
    requires
        l as int + d as int <= u32::MAX,
        r as int + ins as int <= u32::MAX,
    ensures
        rows_spec(final(rows)@) == rows_spec(old(rows)@) + block_rows(l as int, r as int, d as nat, ins as nat),
{
    let npairs = if d < ins { d } else { ins };
    let total = if d < ins { ins } else { d };
    let ghost before = rows@;
    let mut k: u32 = 0;
    while k < total
        invariant
            k <= total,
            npairs == (if d < ins { d } else { ins }),
            total == (if d < ins { ins } else { d }),
            l as int + d as int <= u32::MAX,
            r as int + ins as int <= u32::MAX,
            rows_spec(rows@) == rows_spec(before) + block_rows(l as int, r as int, d as nat, ins as nat).take(k as int),
        decreases total - k,
    {
        let row = if k < npairs {
            Row { status: LineStatus::Modified, left: Some(l + k + 1), right: Some(r + k + 1) }
        } else if d > ins {
            Row { status: LineStatus::Removed, left: Some(l + k + 1), right: None }
        } else {
            Row { status: LineStatus::Added, left: None, right: Some(r + k + 1) }
        };
        let ghost mid = rows@;
        rows.push(row);
        proof {
            assert(rows_spec(rows@) =~= rows_spec(mid).push(row_spec(row)));
            assert(block_rows(l as int, r as int, d as nat, ins as nat).take(k + 1)
                =~= block_rows(l as int, r as int, d as nat, ins as nat).take(k as int).push(row_spec(row)));
        }
        k = k + 1;
    }
    proof {
        assert(block_rows(l as int, r as int, d as nat, ins as nat).take(total as int)
            =~= block_rows(l as int, r as int, d as nat, ins as nat));
    }
}

/// Lays out the rows of an edit script.
pub fn layout_rows(tags: &Vec<ChangeKind>) -> (rows: Vec<Row>)
    requires
        old_taken(tags@) <= u32::MAX,
        new_taken(tags@) <= u32::MAX,
    ensures
        rows_spec(rows@) == spec_layout(tags@),
{
    let n = tags.len();
    let mut rows: Vec<Row> = Vec::new();
    let mut i: usize = 0;
    let mut l: u32 = 0;
    let mut r: u32 = 0;
    proof {
        assert(tags@.skip(0) =~= tags@);
        assert(tags@.take(0) =~= Seq::<ChangeKind>::empty());
    }
    while i < n
        invariant
            n == tags@.len(),
            i <= n,
            old_taken(tags@) <= u32::MAX,
            new_taken(tags@) <= u32::MAX,
            l as nat == old_taken(tags@.take(i as int)),
            r as nat == new_taken(tags@.take(i as int)),
            rows_spec(rows@) + layout_from(tags@.skip(i as int), l as int, r as int) == spec_layout(tags@),
        decreases n - i,
    {
        let ghost rest = tags@.skip(i as int);
        if tags[i] == ChangeKind::Equal {
            proof {
                lemma_taken_push(tags@.take(i as int), tags@[i as int]);
                assert(tags@.take(i + 1) =~= tags@.take(i as int).push(tags@[i as int]));
                lemma_prefix_taken_le(tags@, i + 1);
            }
            let row = Row { status: LineStatus::Equal, left: Some(l + 1), right: Some(r + 1) };
            let ghost before = rows@;
            rows.push(row);
            proof {
                assert(rest.drop_first() =~= tags@.skip(i + 1));
                assert(rows_spec(rows@) =~= rows_spec(before).push(row_spec(row)));
                assert(rows_spec(rows@) + layout_from(tags@.skip(i + 1), l + 1, r + 1)
                    =~= rows_spec(before) + layout_from(rest, l as int, r as int));
            }
            l = l + 1;
            r = r + 1;
            i = i + 1;
        } else {
            let (j, d, ins) = scan_run(tags, i);
            proof {
                lemma_prefix_taken_le(tags@, j as int);
                assert(rest.take(j - i) =~= tags@.subrange(i as int, j as int));
                assert(rest.skip(j - i) =~= tags@.skip(j as int));
            }
            let ghost before = rows@;
            push_block(&mut rows, l, r, d, ins);
            proof {
                assert(rows_spec(rows@) + layout_from(tags@.skip(j as int), l + d, r + ins)
                    =~= rows_spec(before) + layout_from(rest, l as int, r as int));
            }
            l = l + d;
            r = r + ins;
            i = j;
        }
    }
    proof {
        assert(tags@.skip(n as int) =~= Seq::<ChangeKind>::empty());
        assert(rows_spec(rows@) + layout_from(tags@.skip(n as int), l as int, r as int) =~= rows_spec(rows@));
    }
    rows
}

/// The layout has at most as many rows as lines consumed on both sides.
pub proof fn lemma_layout_len(tags: Seq<ChangeKind>, l: int, r: int)
    ensures
        layout_from(tags, l, r).len() <= old_taken(tags) + new_taken(tags),
    decreases tags.len(),
{
    if tags.len() > 0 {
        if tags[0] == ChangeKind::Equal {
            lemma_layout_len(tags.drop_first(), l + 1, r + 1);
            lemma_taken_add(seq![tags[0]], tags.drop_first());
            assert(seq![tags[0]] + tags.drop_first() =~= tags);
            assert(seq![tags[0]].drop_last() =~= Seq::<ChangeKind>::empty());
        } else {
            let k = run_len(tags);
            lemma_run_len_bounds(tags);
            let d = old_taken(tags.take(k as int));
            let i = new_taken(tags.take(k as int));
            lemma_layout_len(tags.skip(k as int), l + d, r + i);
            lemma_taken_add(tags.take(k as int), tags.skip(k as int));
            assert(tags.take(k as int) + tags.skip(k as int) =~= tags);
        }
    }
}

/// Every row's line numbers lie past `l` and `r` and within the lines the
/// script consumes.
pub proof fn lemma_layout_bounds(tags: Seq<ChangeKind>, l: int, r: int)
    ensures
        forall|k: int|
            0 <= k < layout_from(tags, l, r).len() ==> {
                let row = #[trigger] layout_from(tags, l, r)[k];
                &&& (row.left matches Some(n) ==> l < n <= l + old_taken(tags))
                &&& (row.right matches Some(n) ==> r < n <= r + new_taken(tags))
            },
    decreases tags.len(),
{
    if tags.len() > 0 {
        if tags[0] == ChangeKind::Equal {
            lemma_layout_bounds(tags.drop_first(), l + 1, r + 1);
            lemma_taken_add(seq![tags[0]], tags.drop_first());
            assert(seq![tags[0]] + tags.drop_first() =~= tags);
            assert(seq![tags[0]].drop_last() =~= Seq::<ChangeKind>::empty());
            let rest = layout_from(tags.drop_first(), l + 1, r + 1);
            assert forall|k: int| 0 <= k < layout_from(tags, l, r).len() implies {
                let row = #[trigger] layout_from(tags, l, r)[k];
                &&& (row.left matches Some(n) ==> l < n <= l + old_taken(tags))
                &&& (row.right matches Some(n) ==> r < n <= r + new_taken(tags))
            } by {
                if k > 0 {
                    assert(layout_from(tags, l, r)[k] == rest[k - 1]);
                }
            }
        } else {
            let k = run_len(tags);
            lemma_run_len_bounds(tags);
            let d = old_taken(tags.take(k as int));
            let i = new_taken(tags.take(k as int));
            lemma_layout_bounds(tags.skip(k as int), l + d, r + i);
            lemma_taken_add(tags.take(k as int), tags.skip(k as int));
            assert(tags.take(k as int) + tags.skip(k as int) =~= tags);
            let b = block_rows(l, r, d, i);
            let rest = layout_from(tags.skip(k as int), l + d, r + i);
            assert forall|j: int| 0 <= j < layout_from(tags, l, r).len() implies {
                let row = #[trigger] layout_from(tags, l, r)[j];
                &&& (row.left matches Some(n) ==> l < n <= l + old_taken(tags))
                &&& (row.right matches Some(n) ==> r < n <= r + new_taken(tags))
            } by {
                if j >= b.len() {
                    assert(layout_from(tags, l, r)[j] == rest[j - b.len()]);
                } else {
                    assert(layout_from(tags, l, r)[j] == b[j]);
                }
            }
        }
    }
}

/// The line numbers one side shows in rows, top to bottom, ghost lines
/// left out.
pub open spec fn side_shown(rows: Seq<RowSpec>, left: bool) -> Seq<int>
    decreases rows.len(),
{
    if rows.len() == 0 {
        seq![]
    } else {
        let prev = side_shown(rows.drop_last(), left);
        match if left { rows.last().left } else { rows.last().right } {
            Some(n) => prev.push(n),
            None => prev,
        }
    }
}

/// The line numbers `a + 1` to `b`.
pub open spec fn count_from(a: int, b: int) -> Seq<int> {
    Seq::new(if a <= b { (b - a) as nat } else { 0 }, |i: int| a + i + 1)
}

proof fn lemma_count_concat(a: int, b: int, c: int)
    requires
        a <= b <= c,
    ensures
        count_from(a, b) + count_from(b, c) == count_from(a, c),
{
    assert(count_from(a, b) + count_from(b, c) =~= count_from(a, c));
}

proof fn lemma_side_shown_append(a: Seq<RowSpec>, b: Seq<RowSpec>, left: bool)
    ensures
        side_shown(a + b, left) == side_shown(a, left) + side_shown(b, left),
    decreases b.len(),
{
    if b.len() == 0 {
        assert(a + b =~= a);
        assert(side_shown(a, left) + side_shown(b, left) =~= side_shown(a, left));
    } else {
        lemma_side_shown_append(a, b.drop_last(), left);
        assert((a + b).drop_last() =~= a + b.drop_last());
        assert((a + b).last() == b.last());
        match if left { b.last().left } else { b.last().right } {
            Some(n) => {
                assert(side_shown(a, left) + side_shown(b, left) =~= (side_shown(a, left) + side_shown(
                    b.drop_last(),
                    left,
                )).push(n));
            },
            None => {},
        }
    }
}

/// The first `j` rows of a block show, on each side, that side's first
/// lines of the block.
proof fn lemma_block_shown(l: int, r: int, d: nat, i: nat, j: int, left: bool)
    requires
        0 <= j <= block_rows(l, r, d, i).len(),
    ensures
        ({
            let s = if left { l } else { r };
            let n = if left { d as int } else { i as int };
            side_shown(block_rows(l, r, d, i).take(j), left) == count_from(s, if s + j < s + n { s + j } else { s + n })
        }),
    decreases j,
{
    let s = if left { l } else { r };
    let n = if left { d as int } else { i as int };
    let rows = block_rows(l, r, d, i);
    if j == 0 {
        assert(rows.take(0) =~= Seq::<RowSpec>::empty());
        assert(count_from(s, s) =~= Seq::<int>::empty());
    } else {
        lemma_block_shown(l, r, d, i, j - 1, left);
        assert(rows.take(j).drop_last() =~= rows.take(j - 1));
        assert(rows.take(j).last() == rows[j - 1]);
        if j <= n {
            assert(count_from(s, s + j) =~= count_from(s, s + j - 1).push(s + j));
        }
    }
}

/// The rows of an edit script show each side's consumed lines, each once
/// and in order.
pub proof fn lemma_layout_shown(tags: Seq<ChangeKind>, l: int, r: int)
    ensures
        side_shown(layout_from(tags, l, r), true) == count_from(l, l + old_taken(tags)),
        side_shown(layout_from(tags, l, r), false) == count_from(r, r + new_taken(tags)),
    decreases tags.len(),
{
    if tags.len() == 0 {
        assert(count_from(l, l) =~= Seq::<int>::empty());
        assert(count_from(r, r) =~= Seq::<int>::empty());
    } else if tags[0] == ChangeKind::Equal {
        let rest = tags.drop_first();
        let row = seq![RowSpec { status: LineStatus::Equal, left: Some(l + 1), right: Some(r + 1) }];
        lemma_layout_shown(rest, l + 1, r + 1);
        lemma_taken_add(seq![tags[0]], rest);
        assert(seq![tags[0]] + rest =~= tags);
        assert(seq![tags[0]].drop_last() =~= Seq::<ChangeKind>::empty());
        lemma_side_shown_append(row, layout_from(rest, l + 1, r + 1), true);
        lemma_side_shown_append(row, layout_from(rest, l + 1, r + 1), false);
        assert(row.drop_last() =~= Seq::<RowSpec>::empty());
        assert(side_shown(Seq::<RowSpec>::empty(), true) =~= Seq::<int>::empty());
        assert(side_shown(Seq::<RowSpec>::empty(), false) =~= Seq::<int>::empty());
        assert(row.last() == row[0]);
        assert(side_shown(row, true) =~= seq![l + 1]);
        assert(side_shown(row, false) =~= seq![r + 1]);
        assert(seq![l + 1] =~= count_from(l, l + 1));
        assert(seq![r + 1] =~= count_from(r, r + 1));
        lemma_taken_push(Seq::<ChangeKind>::empty(), tags[0]);
        assert(Seq::<ChangeKind>::empty().push(tags[0]) =~= seq![tags[0]]);
        assert(old_taken(Seq::<ChangeKind>::empty()) == 0);
        assert(old_taken(seq![tags[0]]) == 1);
        assert(new_taken(seq![tags[0]]) == 1);
        lemma_count_concat(l, l + 1, l + old_taken(tags));
        lemma_count_concat(r, r + 1, r + new_taken(tags));
        assert(layout_from(tags, l, r) == row + layout_from(rest, l + 1, r + 1));
    } else {
        let k = run_len(tags);
        lemma_run_len_bounds(tags);
        let d = old_taken(tags.take(k as int));
        let i = new_taken(tags.take(k as int));
        let b = block_rows(l, r, d, i);
        let rest = layout_from(tags.skip(k as int), l + d, r + i);
        lemma_layout_shown(tags.skip(k as int), l + d, r + i);
        lemma_taken_add(tags.take(k as int), tags.skip(k as int));
        assert(tags.take(k as int) + tags.skip(k as int) =~= tags);
        lemma_side_shown_append(b, rest, true);
        lemma_side_shown_append(b, rest, false);
        lemma_block_shown(l, r, d, i, b.len() as int, true);
        lemma_block_shown(l, r, d, i, b.len() as int, false);
        assert(b.take(b.len() as int) =~= b);
        lemma_taken_le(tags.take(k as int));
        lemma_prefix_taken_le(tags, k as int);
        lemma_count_concat(l, l + d, l + old_taken(tags));
        lemma_count_concat(r, r + i, r + new_taken(tags));
        assert(layout_from(tags, l, r) == b + rest);
        assert(side_shown(b, true) == count_from(l, l + d));
        assert(side_shown(b, false) == count_from(r, r + i));
    }
}

/// An equal row of the layout pairs the old and new elements that an
/// equal change of the script takes: the row's numbers are one past what
/// the changes before it consume.
pub proof fn lemma_layout_equal_rows(tags: Seq<ChangeKind>, l: int, r: int)
    ensures
        forall|k: int|
            0 <= k < layout_from(tags, l, r).len() && (#[trigger] layout_from(tags, l, r)[k]).status
                == LineStatus::Equal ==> exists|j: int|
                0 <= j < tags.len() && tags[j] == ChangeKind::Equal && layout_from(tags, l, r)[k].left == Some(
                    l + old_taken(#[trigger] tags.take(j)) + 1,
                ) && layout_from(tags, l, r)[k].right == Some(r + new_taken(tags.take(j)) + 1),
    decreases tags.len(),
{
    let rows = layout_from(tags, l, r);
    if tags.len() == 0 {
    } else if tags[0] == ChangeKind::Equal {
        let rest = tags.drop_first();
        lemma_layout_equal_rows(rest, l + 1, r + 1);
        let tail = layout_from(rest, l + 1, r + 1);
        assert forall|k: int| 0 <= k < rows.len() && (#[trigger] rows[k]).status == LineStatus::Equal implies exists|j: int|
            0 <= j < tags.len() && tags[j] == ChangeKind::Equal && rows[k].left == Some(l + old_taken(#[trigger] tags.take(j)) + 1)
                && rows[k].right == Some(r + new_taken(tags.take(j)) + 1) by {
            if k == 0 {
                assert(tags.take(0) =~= Seq::<ChangeKind>::empty());
                assert(rows[0].left == Some(l + old_taken(tags.take(0)) + 1));
            } else {
                assert(rows[k] == tail[k - 1]);
                let j0 = choose|j: int| 0 <= j < rest.len() && rest[j] == ChangeKind::Equal && tail[k - 1].left == Some(
                    (l + 1) + old_taken(#[trigger] rest.take(j)) + 1,
                ) && tail[k - 1].right == Some((r + 1) + new_taken(rest.take(j)) + 1);
                lemma_taken_add(seq![tags[0]], rest.take(j0));
                assert(seq![tags[0]] + rest.take(j0) =~= tags.take(j0 + 1));
                assert(seq![tags[0]].drop_last() =~= Seq::<ChangeKind>::empty());
                assert(seq![tags[0]].last() == ChangeKind::Equal);
                assert(old_taken(seq![tags[0]]) == old_taken(Seq::<ChangeKind>::empty()) + 1);
                assert(new_taken(seq![tags[0]]) == new_taken(Seq::<ChangeKind>::empty()) + 1);
                assert(old_taken(tags.take(j0 + 1)) == 1 + old_taken(rest.take(j0)));
                assert(new_taken(tags.take(j0 + 1)) == 1 + new_taken(rest.take(j0)));
                assert(tags[j0 + 1] == rest[j0]);
                assert(rows[k].left == Some(l + old_taken(tags.take(j0 + 1)) + 1));
            }
        }
    } else {
        let m = run_len(tags);
        lemma_run_len_bounds(tags);
        let d = old_taken(tags.take(m as int));
        let i = new_taken(tags.take(m as int));
        let rest = tags.skip(m as int);
        let head = block_rows(l, r, d, i);
        lemma_layout_equal_rows(rest, l + d, r + i);
        let tail = layout_from(rest, l + d, r + i);
        assert(rows == head + tail);
        assert forall|k: int| 0 <= k < rows.len() && (#[trigger] rows[k]).status == LineStatus::Equal implies exists|j: int|
            0 <= j < tags.len() && tags[j] == ChangeKind::Equal && rows[k].left == Some(l + old_taken(#[trigger] tags.take(j)) + 1)
                && rows[k].right == Some(r + new_taken(tags.take(j)) + 1) by {
            if k < head.len() {
                assert(rows[k] == head[k]);
            } else {
                assert(rows[k] == tail[k - head.len()]);
                let j0 = choose|j: int| 0 <= j < rest.len() && rest[j] == ChangeKind::Equal && tail[k - head.len()].left
                    == Some((l + d) + old_taken(#[trigger] rest.take(j)) + 1) && tail[k - head.len()].right == Some(
                    (r + i) + new_taken(rest.take(j)) + 1,
                );
                lemma_taken_add(tags.take(m as int), rest.take(j0));
                assert(tags.take(m as int) + rest.take(j0) =~= tags.take(m + j0));
                assert(tags[m + j0] == rest[j0]);
                assert(rows[k].left == Some(l + old_taken(tags.take(m + j0)) + 1));
            }
        }
    }
}

} // verus!
