//! Two-way line diff: normalizing lines by the user's options, diffing the
//! normalized lines, laying the result out as side-by-side rows, marking the
//! changed characters of modified rows, and locating the difference blocks.

use vstd::prelude::*;
use crate::layout::{
    count_from, lemma_layout_bounds, lemma_layout_len, lemma_layout_shown, lemma_prefix_taken_le, lemma_taken_push, layout_from,
    layout_rows, opt_int, row_spec, rows_spec,
    side_shown, spec_layout, Row, RowSpec,
};
use crate::models::{DiffLine, DiffResult, LineStatus, WordDiffSegment};
use crate::sequence_diff::{
    all_equal, change_tags, char_changes_view, char_diff, char_diff_ok, carries_chars, is_edit_script, line_diff_tags, new_taken, old_taken, spec_char_diff,
    ChangeKind, CharChange, LineAlgorithm,
};
use crate::text::{
    collapse_whitespace, collapse_ws, concat_str, is_blank, lines_of, lowercase, spec_lines, spec_lowercase,
    str_is_blank, text_lines,
};

verus! {

/// Above this many lines on the longer side the patience algorithm is used.
pub const LARGE_FILE_THRESHOLD: usize = 10_000;

/// Seconds after which the line diff stops refining its result.
pub const DIFF_TIMEOUT_SECS: u64 = 5;

/// Up to this many lines on the longer side, modified rows get character
/// level highlighting.
pub const WORD_DIFF_LINE_LIMIT: usize = 20_000;

/// What the comparison ignores.
#[derive(Debug, Clone, Copy)]
pub struct DiffOptions {
    pub ignore_whitespace: bool,
    pub ignore_case: bool,
    pub ignore_blank_lines: bool,
}

impl Default for DiffOptions {
    fn default() -> (r: Self)
        ensures
            !r.ignore_whitespace && !r.ignore_case && !r.ignore_blank_lines,
    {
        DiffOptions { ignore_whitespace: false, ignore_case: false, ignore_blank_lines: false }
    }
}

/// A line as the comparison sees it.
pub open spec fn normalize_line(l: Seq<char>, o: DiffOptions) -> Seq<char> {
    let a = if o.ignore_whitespace {
        collapse_whitespace(l)
    } else {
        l
    };
    if o.ignore_case {
        spec_lowercase(a)
    } else {
        a
    }
}

/// The lines as the comparison sees them; blank lines are left out when
/// they are ignored.
pub open spec fn normalize_lines(ls: Seq<Seq<char>>, o: DiffOptions) -> Seq<Seq<char>>
    decreases ls.len(),
{
    if ls.len() == 0 {
        seq![]
    } else {
        let prev = normalize_lines(ls.drop_last(), o);
        if o.ignore_blank_lines && is_blank(ls.last()) {
            prev
        } else {
            prev.push(normalize_line(ls.last(), o))
        }
    }
}

pub proof fn lemma_normalize_len(ls: Seq<Seq<char>>, o: DiffOptions)
    ensures
        normalize_lines(ls, o).len() <= ls.len(),
    decreases ls.len(),
{
    if ls.len() > 0 {
        lemma_normalize_len(ls.drop_last(), o);
    }
}

/// Without ignoring blank lines, normalizing keeps every line.
pub proof fn lemma_normalize_keeps_count(ls: Seq<Seq<char>>, o: DiffOptions)
    requires
        !o.ignore_blank_lines,
    ensures
        normalize_lines(ls, o).len() == ls.len(),
    decreases ls.len(),
{
    if ls.len() > 0 {
        lemma_normalize_keeps_count(ls.drop_last(), o);
    }
}

/// With no option on, normalizing changes nothing.
pub proof fn lemma_normalize_plain(ls: Seq<Seq<char>>, o: DiffOptions)
    requires
        !o.ignore_whitespace,
        !o.ignore_case,
        !o.ignore_blank_lines,
    ensures
        normalize_lines(ls, o) == ls,
    decreases ls.len(),
{
    if ls.len() > 0 {
        lemma_normalize_plain(ls.drop_last(), o);
        assert(ls.drop_last().push(ls.last()) =~= ls);
    }
}

/// Normalizes one line.
fn normalize_one(line: &String, options: &DiffOptions) -> (r: String)
    ensures
        r@ == normalize_line(line@, *options),
{
    let a = if options.ignore_whitespace {
        collapse_ws(line.as_str())
    } else {
        line.clone()
    };
    if options.ignore_case {
        lowercase(a.as_str())
    } else {
        a
    }
}

/// Normalizes lines for comparison.
pub fn normalize_text(lines: &Vec<String>, options: &DiffOptions) -> (r: Vec<String>)
    ensures
        lines_of(r@) == normalize_lines(lines_of(lines@), *options),
{
    let mut out: Vec<String> = Vec::new();
    let mut i: usize = 0;
    proof {
        assert(lines_of(lines@).take(0) =~= Seq::<Seq<char>>::empty());
        assert(lines_of(out@) =~= Seq::<Seq<char>>::empty());
    }
    while i < lines.len()
        invariant
            i <= lines@.len(),
            lines_of(out@) == normalize_lines(lines_of(lines@).take(i as int), *options),
        decreases lines@.len() - i,
    {
        proof {
            assert(lines_of(lines@).take(i + 1).drop_last() =~= lines_of(lines@).take(i as int));
        }
        if options.ignore_blank_lines && str_is_blank(lines[i].as_str()) {
        } else {
            let l = normalize_one(&lines[i], options);
            let ghost before = out@;
            out.push(l);
            proof {
                assert(lines_of(out@) =~= lines_of(before).push(l@));
            }
        }
        i = i + 1;
    }
    proof {
        assert(lines_of(lines@).take(lines@.len() as int) =~= lines_of(lines@));
    }
    out
}

// ---------------------------------------------------------------------------
// Character highlighting of modified rows
// ---------------------------------------------------------------------------

/// Appends a text to a segment list, joining it to the last segment when
/// both are marked alike.
pub open spec fn push_seg(segs: Seq<(Seq<char>, bool)>, text: Seq<char>, changed: bool) -> Seq<(Seq<char>, bool)> {
    if segs.len() > 0 && segs.last().1 == changed {
        segs.drop_last().push((segs.last().0 + text, changed))
    } else {
        segs.push((text, changed))
    }
}

/// The segments of one side of a character diff: equal characters
/// unmarked, the side's own deleted (left) or inserted (right) characters
/// marked, runs of like marking joined.
pub open spec fn side_segments(changes: Seq<(ChangeKind, Seq<char>)>, left: bool) -> Seq<(Seq<char>, bool)>
    decreases changes.len(),
{
    if changes.len() == 0 {
        seq![]
    } else {
        let prev = side_segments(changes.drop_last(), left);
        let c = changes.last();
        if c.0 == ChangeKind::Equal {
            push_seg(prev, c.1, false)
        } else if (c.0 == ChangeKind::Delete) == left {
            push_seg(prev, c.1, true)
        } else {
            prev
        }
    }
}

pub open spec fn segs_view(v: Seq<WordDiffSegment>) -> Seq<(Seq<char>, bool)> {
    v.map_values(|s: WordDiffSegment| (s.text@, s.changed))
}

fn push_segment(segs: &mut Vec<WordDiffSegment>, text: &str, changed: bool)
    ensures
        segs_view(final(segs)@) == push_seg(segs_view(old(segs)@), text@, changed),
{
    let ghost before = segs_view(segs@);
    let n = segs.len();
    if n > 0 && segs[n - 1].changed == changed {
        let last = segs.pop().unwrap();
        let joined = concat_str(last.text.as_str(), text);
        segs.push(WordDiffSegment { text: joined, changed });
        proof {
            assert(segs_view(segs@) =~= before.drop_last().push((before.last().0 + text@, changed)));
        }
    } else {
        let t = String::from_str(text);
        segs.push(WordDiffSegment { text: t, changed });
        proof {
            assert(segs_view(segs@) =~= before.push((text@, changed)));
        }
    }
}

/// The highlighted segments of both sides, from the changes of a character
/// diff.
pub fn word_segments(changes: &Vec<CharChange>) -> (r: (Vec<WordDiffSegment>, Vec<WordDiffSegment>))
    ensures
        segs_view(r.0@) == side_segments(char_changes_view(changes@), true),
        segs_view(r.1@) == side_segments(char_changes_view(changes@), false),
{
    let mut left: Vec<WordDiffSegment> = Vec::new();
    let mut right: Vec<WordDiffSegment> = Vec::new();
    let ghost cv = char_changes_view(changes@);
    let mut i: usize = 0;
    proof {
        assert(cv.take(0) =~= Seq::<(ChangeKind, Seq<char>)>::empty());
        assert(segs_view(left@) =~= Seq::<(Seq<char>, bool)>::empty());
        assert(segs_view(right@) =~= Seq::<(Seq<char>, bool)>::empty());
    }
    while i < changes.len()
        invariant
            i <= changes@.len(),
            cv == char_changes_view(changes@),
            segs_view(left@) == side_segments(cv.take(i as int), true),
            segs_view(right@) == side_segments(cv.take(i as int), false),
        decreases changes@.len() - i,
    {
        proof {
            assert(cv.take(i + 1).drop_last() =~= cv.take(i as int));
            assert(cv.take(i + 1).last() == cv[i as int]);
        }
        let c = &changes[i];
        match c.tag {
            ChangeKind::Equal => {
                push_segment(&mut left, c.text.as_str(), false);
                push_segment(&mut right, c.text.as_str(), false);
            },
            ChangeKind::Delete => {
                push_segment(&mut left, c.text.as_str(), true);
            },
            ChangeKind::Insert => {
                push_segment(&mut right, c.text.as_str(), true);
            },
        }
        i = i + 1;
    }
    proof {
        assert(cv.take(changes@.len() as int) =~= cv);
    }
    (left, right)
}

/// The highlighted segments of a modified row's two texts.
pub fn compute_word_diff(left: &str, right: &str) -> (r: (Vec<WordDiffSegment>, Vec<WordDiffSegment>))
    ensures
        segs_view(r.0@) == side_segments(spec_char_diff(left@, right@), true),
        segs_view(r.1@) == side_segments(spec_char_diff(left@, right@), false),
        char_diff_ok(left@, right@),
{
    let changes = char_diff(left, right);
    proof {
        assert(change_tags(char_changes_view(changes@)) =~= changes@.map_values(|c: CharChange| c.tag));
    }
    word_segments(&changes)
}

// ---------------------------------------------------------------------------
// Rows, blocks and the whole result
// ---------------------------------------------------------------------------

/// The text shown for a 1-based line number: the line, or nothing for a
/// ghost line or a number past the end.
pub open spec fn text_at(lines: Seq<Seq<char>>, no: Option<int>) -> Seq<char> {
    match no {
        Some(n) => if 1 <= n <= lines.len() {
            lines[n - 1]
        } else {
            seq![]
        },
        None => seq![],
    }
}

/// A displayed line shows the row `row` of the texts `lo` and `ro`.
pub open spec fn line_shows(line: DiffLine, row: RowSpec, lo: Seq<Seq<char>>, ro: Seq<Seq<char>>, word: bool) -> bool {
    let lt = text_at(lo, row.left);
    let rt = text_at(ro, row.right);
    let highlight = row.status == LineStatus::Modified && word;
    &&& line.status == row.status
    &&& opt_int(line.left_line_no) == row.left
    &&& opt_int(line.right_line_no) == row.right
    &&& line.left_text@ == lt
    &&& line.right_text@ == rt
    &&& segs_view(line.left_word_segments@) == if highlight {
        side_segments(spec_char_diff(lt, rt), true)
    } else {
        seq![]
    }
    &&& segs_view(line.right_word_segments@) == if highlight {
        side_segments(spec_char_diff(lt, rt), false)
    } else {
        seq![]
    }
    &&& highlight ==> char_diff_ok(lt, rt)
}

pub open spec fn statuses(lines: Seq<DiffLine>) -> Seq<LineStatus> {
    lines.map_values(|l: DiffLine| l.status)
}

/// Row `k` starts a difference block: it differs and the row before does not.
pub open spec fn is_block_start(st: Seq<LineStatus>, k: int) -> bool {
    st[k] != LineStatus::Equal && (k == 0 || st[k - 1] == LineStatus::Equal)
}

/// The block starts among the first `n` rows, in order.
pub open spec fn block_starts(st: Seq<LineStatus>, n: int) -> Seq<usize>
    decreases n,
{
    if n <= 0 {
        seq![]
    } else {
        block_starts(st, n - 1) + if is_block_start(st, n - 1) {
            seq![(n - 1) as usize]
        } else {
            seq![]
        }
    }
}

/// `r` is the diff the edit script `tags` gives of the texts `lo` and `ro`.
pub open spec fn is_diff_of(r: DiffResult, tags: Seq<ChangeKind>, lo: Seq<Seq<char>>, ro: Seq<Seq<char>>, word: bool) -> bool {
    let rows = spec_layout(tags);
    &&& r.lines@.len() == rows.len()
    &&& forall|k: int| 0 <= k < rows.len() ==> line_shows(#[trigger] r.lines@[k], rows[k], lo, ro, word)
    &&& r.diff_positions@ == block_starts(statuses(r.lines@), r.lines@.len() as int)
    &&& r.diff_count as int == r.diff_positions@.len()
}

/// Blocks are separated by equal rows, so at most every other row starts
/// one.
pub proof fn lemma_block_starts_half(st: Seq<LineStatus>, n: int)
    requires
        n <= st.len(),
    ensures
        block_starts(st, n).len() * 2 <= (if n < 0 { 0 } else { n }) + 1,
    decreases n,
{
    if n > 0 {
        lemma_block_starts_half(st, n - 1);
        if is_block_start(st, n - 1) && n >= 2 {
            lemma_block_starts_half(st, n - 2);
            assert(!is_block_start(st, n - 2));
            assert(block_starts(st, n - 1) =~= block_starts(st, n - 2));
        }
    }
}

/// The block starts lie among the rows they are taken from.
pub proof fn lemma_block_starts_below(st: Seq<LineStatus>, n: int)
    ensures
        forall|k: int| 0 <= k < block_starts(st, n).len() ==> block_starts(st, n)[k] < n,
        block_starts(st, n).len() <= if n < 0 { 0 } else { n },
    decreases n,
{
    if n > 0 {
        lemma_block_starts_below(st, n - 1);
        let prev = block_starts(st, n - 1);
        if is_block_start(st, n - 1) {
            assert forall|k: int| 0 <= k < block_starts(st, n).len() implies block_starts(st, n)[k] < n by {
                if k < prev.len() {
                    assert(block_starts(st, n)[k] == prev[k]);
                }
            }
        } else {
            assert(block_starts(st, n) =~= prev);
        }
    }
}

/// The row at which each difference block starts.
fn block_positions(lines: &Vec<DiffLine>) -> (r: Vec<usize>)
    ensures
        r@ == block_starts(statuses(lines@), lines@.len() as int),
        r@.len() <= lines@.len(),
{
    let mut positions: Vec<usize> = Vec::new();
    let mut in_block = false;
    let mut idx: usize = 0;
    let ghost st = statuses(lines@);
    while idx < lines.len()
        invariant
            idx <= lines@.len(),
            st == statuses(lines@),
            positions@ == block_starts(st, idx as int),
            positions@.len() <= idx,
            idx > 0 ==> (in_block <==> st[idx - 1] != LineStatus::Equal),
            idx == 0 ==> !in_block,
        decreases lines@.len() - idx,
    {
        if lines[idx].status != LineStatus::Equal {
            if !in_block {
                positions.push(idx);
                in_block = true;
            }
        } else {
            in_block = false;
        }
        idx = idx + 1;
    }
    positions
}

/// The text of some segments, joined.
pub open spec fn seg_text(segs: Seq<(Seq<char>, bool)>) -> Seq<char>
    decreases segs.len(),
{
    if segs.len() == 0 {
        seq![]
    } else {
        seg_text(segs.drop_last()) + segs.last().0
    }
}

/// The characters of one side of a character diff, in order: the equal
/// ones and that side's own (deleted on the left, inserted on the right).
pub open spec fn side_chars(changes: Seq<(ChangeKind, Seq<char>)>, left: bool) -> Seq<char>
    decreases changes.len(),
{
    if changes.len() == 0 {
        seq![]
    } else {
        let c = changes.last();
        side_chars(changes.drop_last(), left) + if c.0 == ChangeKind::Equal || (c.0 == ChangeKind::Delete) == left {
            c.1
        } else {
            seq![]
        }
    }
}

proof fn lemma_push_seg_text(segs: Seq<(Seq<char>, bool)>, t: Seq<char>, changed: bool)
    ensures
        seg_text(push_seg(segs, t, changed)) == seg_text(segs) + t,
{
    if segs.len() > 0 && segs.last().1 == changed {
        let p = push_seg(segs, t, changed);
        assert(p.drop_last() =~= segs.drop_last());
        assert(seg_text(segs) == seg_text(segs.drop_last()) + segs.last().0);
        assert(seg_text(p) =~= seg_text(segs) + t);
    } else {
        assert(segs.push((t, changed)).drop_last() =~= segs);
    }
}

/// The segments of a side spell that side's characters.
pub proof fn lemma_side_segments_text(changes: Seq<(ChangeKind, Seq<char>)>, left: bool)
    ensures
        seg_text(side_segments(changes, left)) == side_chars(changes, left),
    decreases changes.len(),
{
    if changes.len() > 0 {
        lemma_side_segments_text(changes.drop_last(), left);
        let prev = side_segments(changes.drop_last(), left);
        let c = changes.last();
        if c.0 == ChangeKind::Equal {
            lemma_push_seg_text(prev, c.1, false);
        } else if (c.0 == ChangeKind::Delete) == left {
            lemma_push_seg_text(prev, c.1, true);
        } else {
            assert(side_chars(changes, left) =~= side_chars(changes.drop_last(), left));
        }
    }
}

#[verifier::rlimit(60)]
proof fn lemma_side_chars_prefix(cv: Seq<(ChangeKind, Seq<char>)>, old: Seq<char>, new: Seq<char>, k: int)
    requires
        carries_chars(cv, old, new),
        is_edit_script(change_tags(cv), old, new),
        0 <= k <= cv.len(),
    ensures
        side_chars(cv.take(k), true) == old.take(old_taken(change_tags(cv).take(k)) as int),
        side_chars(cv.take(k), false) == new.take(new_taken(change_tags(cv).take(k)) as int),
    decreases k,
{
    let tags = change_tags(cv);
    if k == 0 {
        assert(cv.take(0) =~= Seq::<(ChangeKind, Seq<char>)>::empty());
        assert(tags.take(0) =~= Seq::<ChangeKind>::empty());
        assert(old.take(0) =~= Seq::<char>::empty());
        assert(new.take(0) =~= Seq::<char>::empty());
    } else {
        lemma_side_chars_prefix(cv, old, new, k - 1);
        assert(cv.take(k).drop_last() =~= cv.take(k - 1));
        assert(cv.take(k).last() == cv[k - 1]);
        assert(tags.take(k) =~= tags.take(k - 1).push(tags[k - 1]));
        lemma_taken_push(tags.take(k - 1), tags[k - 1]);
        lemma_prefix_taken_le(tags, k);
        let o = old_taken(tags.take(k - 1)) as int;
        let n = new_taken(tags.take(k - 1)) as int;
        let c = cv[k - 1];
        assert(tags[k - 1] == c.0);
        assert(c.1 == if c.0 == ChangeKind::Insert { seq![new[n]] } else { seq![old[o]] });
        if c.0 == ChangeKind::Equal {
            assert(old[o] == new[n]);
            assert(old.take(o) + seq![old[o]] =~= old.take(o + 1));
            assert(new.take(n) + seq![new[n]] =~= new.take(n + 1));
        } else if c.0 == ChangeKind::Delete {
            assert(old.take(o) + seq![old[o]] =~= old.take(o + 1));
            assert(side_chars(cv.take(k), false) =~= side_chars(cv.take(k - 1), false));
        } else {
            assert(new.take(n) + seq![new[n]] =~= new.take(n + 1));
            assert(side_chars(cv.take(k), true) =~= side_chars(cv.take(k - 1), true));
        }
    }
}

/// The unmarked text of some segments, joined.
pub open spec fn unmarked_text(segs: Seq<(Seq<char>, bool)>) -> Seq<char>
    decreases segs.len(),
{
    if segs.len() == 0 {
        seq![]
    } else {
        unmarked_text(segs.drop_last()) + if segs.last().1 { seq![] } else { segs.last().0 }
    }
}

/// The characters a character diff keeps equal, in order.
pub open spec fn equal_chars(changes: Seq<(ChangeKind, Seq<char>)>) -> Seq<char>
    decreases changes.len(),
{
    if changes.len() == 0 {
        seq![]
    } else {
        equal_chars(changes.drop_last()) + if changes.last().0 == ChangeKind::Equal { changes.last().1 } else { seq![] }
    }
}

proof fn lemma_push_seg_unmarked(segs: Seq<(Seq<char>, bool)>, t: Seq<char>, changed: bool)
    ensures
        unmarked_text(push_seg(segs, t, changed)) == unmarked_text(segs) + if changed { seq![] } else { t },
{
    if segs.len() > 0 && segs.last().1 == changed {
        let p = push_seg(segs, t, changed);
        assert(p.drop_last() =~= segs.drop_last());
        if changed {
            assert(unmarked_text(p) =~= unmarked_text(segs));
        } else {
            assert(unmarked_text(p) =~= unmarked_text(segs) + t);
        }
    } else {
        assert(segs.push((t, changed)).drop_last() =~= segs);
        if changed {
            assert(unmarked_text(segs.push((t, changed))) =~= unmarked_text(segs));
        }
    }
}

/// The unmarked segments of either side hold exactly the characters the
/// diff keeps equal: marking falls only on a side's own characters.
pub proof fn lemma_side_segments_unmarked(changes: Seq<(ChangeKind, Seq<char>)>, left: bool)
    ensures
        unmarked_text(side_segments(changes, left)) == equal_chars(changes),
    decreases changes.len(),
{
    if changes.len() > 0 {
        lemma_side_segments_unmarked(changes.drop_last(), left);
        let prev = side_segments(changes.drop_last(), left);
        let c = changes.last();
        if c.0 == ChangeKind::Equal {
            lemma_push_seg_unmarked(prev, c.1, false);
        } else if (c.0 == ChangeKind::Delete) == left {
            lemma_push_seg_unmarked(prev, c.1, true);
            assert(equal_chars(changes) =~= equal_chars(changes.drop_last()));
        } else {
            assert(equal_chars(changes) =~= equal_chars(changes.drop_last()));
        }
    }
}

/// The word segments of each side of a changed line spell that side's
/// line: equal characters stand unmarked on both sides, and each side's own
/// characters marked on it.
pub proof fn lemma_word_segments_spell(old: Seq<char>, new: Seq<char>)
    requires
        char_diff_ok(old, new),
    ensures
        seg_text(side_segments(spec_char_diff(old, new), true)) == old,
        seg_text(side_segments(spec_char_diff(old, new), false)) == new,
{
    let cv = spec_char_diff(old, new);
    lemma_side_segments_text(cv, true);
    lemma_side_segments_text(cv, false);
    lemma_side_chars_prefix(cv, old, new, cv.len() as int);
    assert(cv.take(cv.len() as int) =~= cv);
    assert(change_tags(cv).take(cv.len() as int) =~= change_tags(cv));
    assert(old.take(old.len() as int) =~= old);
    assert(new.take(new.len() as int) =~= new);
}

/// The displayed line of a row.
fn make_line(row: Row, left: &Vec<String>, right: &Vec<String>, word: bool) -> (line: DiffLine)
    ensures
        line_shows(line, row_spec(row), lines_of(left@), lines_of(right@), word),
{
    let lt = match row.left {
        Some(n) => if 1 <= n && (n as usize) <= left.len() {
            left[(n - 1) as usize].clone()
        } else {
            String::new()
        },
        None => String::new(),
    };
    let rt = match row.right {
        Some(n) => if 1 <= n && (n as usize) <= right.len() {
            right[(n - 1) as usize].clone()
        } else {
            String::new()
        },
        None => String::new(),
    };
    let (ls, rs) = if row.status == LineStatus::Modified && word {
        compute_word_diff(lt.as_str(), rt.as_str())
    } else {
        (Vec::new(), Vec::new())
    };
    proof {
        if !(row.status == LineStatus::Modified && word) {
            assert(segs_view(ls@) =~= Seq::<(Seq<char>, bool)>::empty());
            assert(segs_view(rs@) =~= Seq::<(Seq<char>, bool)>::empty());
        }
    }
    DiffLine {
        left_line_no: row.left,
        right_line_no: row.right,
        left_text: lt,
        right_text: rt,
        status: row.status,
        left_word_segments: ls,
        right_word_segments: rs,
    }
}

/// The diff that an edit script gives of two texts: the rows of
/// `spec_layout`, each showing its lines of `left` and `right` (by the line
/// numbers the script assigns), with character highlighting of modified
/// rows when `word` holds, and the difference blocks located.
pub fn build_diff_result(tags: &Vec<ChangeKind>, left: &Vec<String>, right: &Vec<String>, word: bool) -> (r: DiffResult)
    requires
        old_taken(tags@) + new_taken(tags@) <= u32::MAX,
    ensures
        is_diff_of(r, tags@, lines_of(left@), lines_of(right@), word),
{
    let rows = layout_rows(tags);
    let mut lines: Vec<DiffLine> = Vec::new();
    let mut k: usize = 0;
    let ghost rs = spec_layout(tags@);
    while k < rows.len()
        invariant
            k <= rows@.len(),
            rows_spec(rows@) == rs,
            lines@.len() == k,
            forall|j: int| 0 <= j < k ==> line_shows(#[trigger] lines@[j], rs[j], lines_of(left@), lines_of(right@), word),
        decreases rows@.len() - k,
    {
        let line = make_line(rows[k], left, right, word);
        lines.push(line);
        k = k + 1;
    }
    proof {
        lemma_layout_len(tags@, 0, 0);
    }
    let positions = block_positions(&lines);
    let count = positions.len() as u32;
    DiffResult { lines, diff_count: count, diff_positions: positions }
}

/// Whether modified rows of texts with these line counts get character
/// highlighting.
pub open spec fn word_diff_enabled(left_len: nat, right_len: nat) -> bool {
    (if left_len < right_len { right_len } else { left_len }) <= WORD_DIFF_LINE_LIMIT
}

/// Every line number of the diff names a line of its side.
pub open spec fn numbers_within(r: DiffResult, left_len: nat, right_len: nat) -> bool {
    forall|k: int|
        0 <= k < r.lines@.len() ==> {
            let line = #[trigger] r.lines@[k];
            &&& (line.left_line_no matches Some(n) ==> 1 <= n <= left_len)
            &&& (line.right_line_no matches Some(n) ==> 1 <= n <= right_len)
        }
}

/// The sizes of a diff of texts of `left_len` and `right_len` lines: no
/// more rows than lines on both sides, one block start per counted block,
/// each at a row.
pub open spec fn diff_shape(r: DiffResult, left_len: nat, right_len: nat) -> bool {
    &&& r.lines@.len() <= left_len + right_len
    &&& r.diff_count as int == r.diff_positions@.len()
    &&& r.diff_positions@.len() <= r.lines@.len()
    &&& r.diff_positions@.len() * 2 <= r.lines@.len() + 1
    &&& forall|k: int| 0 <= k < r.diff_positions@.len() ==> r.diff_positions@[k] < r.lines@.len()
}

/// An edit script of equal changes only lays out equal rows.
proof fn lemma_layout_all_equal(tags: Seq<ChangeKind>, l: int, r: int)
    requires
        all_equal(tags),
    ensures
        forall|k: int| 0 <= k < layout_from(tags, l, r).len() ==> (#[trigger] layout_from(tags, l, r)[k]).status == LineStatus::Equal,
    decreases tags.len(),
{
    if tags.len() > 0 {
        assert(tags[0] == ChangeKind::Equal);
        let rest = tags.drop_first();
        assert forall|k: int| 0 <= k < rest.len() implies rest[k] == ChangeKind::Equal by {
            assert(rest[k] == tags[k + 1]);
        }
        lemma_layout_all_equal(rest, l + 1, r + 1);
        let head = seq![RowSpec { status: LineStatus::Equal, left: Some(l + 1), right: Some(r + 1) }];
        assert(layout_from(tags, l, r) == head + layout_from(rest, l + 1, r + 1));
        assert forall|k: int| 0 <= k < layout_from(tags, l, r).len() implies (#[trigger] layout_from(tags, l, r)[k]).status == LineStatus::Equal by {
            if k > 0 {
                assert(layout_from(tags, l, r)[k] == layout_from(rest, l + 1, r + 1)[k - 1]);
            }
        }
    }
}

/// Rows all equal start no block.
proof fn lemma_no_block_starts(st: Seq<LineStatus>, n: int)
    requires
        n <= st.len(),
        forall|k: int| 0 <= k < n ==> st[k] == LineStatus::Equal,
    ensures
        block_starts(st, n).len() == 0,
    decreases n,
{
    if n > 0 {
        lemma_no_block_starts(st, n - 1);
        assert(!is_block_start(st, n - 1));
        assert(block_starts(st, n) =~= block_starts(st, n - 1));
    }
}

/// Texts that are the same once normalized have a diff without
/// differences: every row is equal and no block starts.
pub proof fn lemma_equal_texts_no_blocks(r: DiffResult, left: Seq<Seq<char>>, right: Seq<Seq<char>>, o: DiffOptions)
    requires
        is_line_diff(r, left, right, o),
        normalize_lines(left, o) == normalize_lines(right, o),
    ensures
        forall|k: int| 0 <= k < r.lines@.len() ==> (#[trigger] r.lines@[k]).status == LineStatus::Equal,
        r.diff_positions@.len() == 0,
        r.diff_count == 0,
{
    let tags = choose|tags: Seq<ChangeKind>|
        is_edit_script(tags, normalize_lines(left, o), normalize_lines(right, o))
            && (normalize_lines(left, o) == normalize_lines(right, o) ==> all_equal(tags)) && #[trigger] is_diff_of(
            r,
            tags,
            left,
            right,
            word_diff_enabled(left.len(), right.len()),
        );
    let word = word_diff_enabled(left.len(), right.len());
    lemma_layout_all_equal(tags, 0, 0);
    assert forall|k: int| 0 <= k < r.lines@.len() implies (#[trigger] r.lines@[k]).status == LineStatus::Equal by {
        assert(line_shows(r.lines@[k], spec_layout(tags)[k], left, right, word));
        assert(spec_layout(tags)[k].status == LineStatus::Equal);
    }
    let st = statuses(r.lines@);
    assert forall|k: int| 0 <= k < r.lines@.len() implies st[k] == LineStatus::Equal by {
        assert(st[k] == r.lines@[k].status);
    }
    lemma_no_block_starts(st, r.lines@.len() as int);
}

/// `r` is a diff of `left` and `right` under `o`: some edit script between
/// the normalized lines, all equal when those are the same, laid out and
/// shown with the original lines.
pub open spec fn is_line_diff(r: DiffResult, left: Seq<Seq<char>>, right: Seq<Seq<char>>, o: DiffOptions) -> bool {
    exists|tags: Seq<ChangeKind>|
        is_edit_script(tags, normalize_lines(left, o), normalize_lines(right, o))
            && (normalize_lines(left, o) == normalize_lines(right, o) ==> all_equal(tags)) && #[trigger] is_diff_of(
            r,
            tags,
            left,
            right,
            word_diff_enabled(left.len(), right.len()),
        )
}

/// The line numbers one side of a diff shows, top to bottom, ghost lines
/// left out.
pub open spec fn diff_shown(lines: Seq<DiffLine>, left: bool) -> Seq<int>
    decreases lines.len(),
{
    if lines.len() == 0 {
        seq![]
    } else {
        let prev = diff_shown(lines.drop_last(), left);
        match if left { lines.last().left_line_no } else { lines.last().right_line_no } {
            Some(n) => prev.push(n as int),
            None => prev,
        }
    }
}

proof fn lemma_diff_shown_rows(lines: Seq<DiffLine>, rows: Seq<RowSpec>, left: bool)
    requires
        lines.len() == rows.len(),
        forall|k: int|
            0 <= k < lines.len() ==> opt_int((#[trigger] lines[k]).left_line_no) == rows[k].left && opt_int(
                lines[k].right_line_no,
            ) == rows[k].right,
    ensures
        diff_shown(lines, left) == side_shown(rows, left),
    decreases lines.len(),
{
    if lines.len() > 0 {
        assert forall|k: int| 0 <= k < lines.drop_last().len() implies opt_int((#[trigger] lines.drop_last()[k]).left_line_no)
            == rows.drop_last()[k].left && opt_int(lines.drop_last()[k].right_line_no) == rows.drop_last()[k].right by {
            assert(lines.drop_last()[k] == lines[k]);
        }
        lemma_diff_shown_rows(lines.drop_last(), rows.drop_last(), left);
        assert(opt_int(lines[lines.len() - 1].left_line_no) == rows[rows.len() - 1].left);
    }
}

/// `r` is a diff of `left` and `right` under `o` (see `is_line_diff`),
/// every line number naming a line of its side, of the sizes `diff_shape`
/// gives; each side shows the numbers of the lines compared (the lines
/// left after normalizing) each once and in order.
pub open spec fn is_two_way_diff(r: DiffResult, left: Seq<Seq<char>>, right: Seq<Seq<char>>, o: DiffOptions) -> bool {
    &&& is_line_diff(r, left, right, o)
    &&& numbers_within(r, left.len(), right.len())
    &&& diff_shape(r, left.len(), right.len())
    &&& diff_shown(r.lines@, true) == count_from(0, normalize_lines(left, o).len() as int)
    &&& diff_shown(r.lines@, false) == count_from(0, normalize_lines(right, o).len() as int)
}

/// The algorithm and the time limit (in seconds) a line diff of buffers
/// of these sizes runs with: patience above `LARGE_FILE_THRESHOLD` lines
/// on the longer side, Myers otherwise; `DIFF_TIMEOUT_SECS` either way.
pub open spec fn spec_line_diff_settings(left_len: int, right_len: int) -> (LineAlgorithm, u64) {
    let line_count = if left_len < right_len { right_len } else { left_len };
    (if line_count > LARGE_FILE_THRESHOLD { LineAlgorithm::Patience } else { LineAlgorithm::Myers }, DIFF_TIMEOUT_SECS)
}

/// The algorithm and time limit a line diff of buffers of these sizes runs
/// with (see `spec_line_diff_settings`).
pub fn line_diff_settings(left_len: usize, right_len: usize) -> (r: (LineAlgorithm, u64))
    ensures
        r == spec_line_diff_settings(left_len as int, right_len as int),
{
    let line_count = if left_len < right_len { right_len } else { left_len };
    let algorithm = if line_count > LARGE_FILE_THRESHOLD {
        LineAlgorithm::Patience
    } else {
        LineAlgorithm::Myers
    };
    (algorithm, DIFF_TIMEOUT_SECS)
}

/// Diffs two line buffers, the line diff running with the settings
/// `line_diff_settings` gives (patience above `LARGE_FILE_THRESHOLD` lines,
/// a limit of `DIFF_TIMEOUT_SECS`). The line diff may stop refining at that
/// limit, so the result is one of the diffs that an edit script between the
/// normalized lines gives.
pub fn compute_diff_lines(left: &Vec<String>, right: &Vec<String>, options: &DiffOptions) -> (r: DiffResult)
    requires
        left@.len() + right@.len() <= u32::MAX,
    ensures
        is_line_diff(r, lines_of(left@), lines_of(right@), *options),
        numbers_within(r, left@.len(), right@.len()),
        diff_shape(r, left@.len(), right@.len()),
        diff_shown(r.lines@, true) == count_from(0, normalize_lines(lines_of(left@), *options).len() as int),
        diff_shown(r.lines@, false) == count_from(0, normalize_lines(lines_of(right@), *options).len() as int),
{
    let nl = normalize_text(left, options);
    let nr = normalize_text(right, options);
    let line_count = if left.len() < right.len() {
        right.len()
    } else {
        left.len()
    };
    let (algorithm, timeout) = line_diff_settings(left.len(), right.len());
    let tags = line_diff_tags(&nl, &nr, algorithm, timeout);
    proof {
        lemma_normalize_len(lines_of(left@), *options);
        lemma_normalize_len(lines_of(right@), *options);
        assert(nl@.map_values(|l: String| l@) == lines_of(nl@));
        assert(nr@.map_values(|l: String| l@) == lines_of(nr@));
    }
    let word = line_count <= WORD_DIFF_LINE_LIMIT;
    let r = build_diff_result(&tags, left, right, word);
    proof {
        lemma_layout_bounds(tags@, 0, 0);
        assert forall|k: int| 0 <= k < r.lines@.len() implies {
            let line = #[trigger] r.lines@[k];
            &&& (line.left_line_no matches Some(n) ==> 1 <= n <= left@.len())
            &&& (line.right_line_no matches Some(n) ==> 1 <= n <= right@.len())
        } by {
            assert(line_shows(r.lines@[k], spec_layout(tags@)[k], lines_of(left@), lines_of(right@), word));
        }
        assert(is_edit_script(tags@, normalize_lines(lines_of(left@), *options), normalize_lines(lines_of(right@), *options)));
        assert(normalize_lines(lines_of(left@), *options) == normalize_lines(lines_of(right@), *options) ==> all_equal(tags@));
        assert(word == word_diff_enabled(lines_of(left@).len(), lines_of(right@).len()));
        assert(is_diff_of(r, tags@, lines_of(left@), lines_of(right@), word));
        lemma_layout_len(tags@, 0, 0);
        lemma_block_starts_below(statuses(r.lines@), r.lines@.len() as int);
        lemma_block_starts_half(statuses(r.lines@), r.lines@.len() as int);
        lemma_layout_shown(tags@, 0, 0);
        assert forall|k: int| 0 <= k < r.lines@.len() implies opt_int((#[trigger] r.lines@[k]).left_line_no)
            == spec_layout(tags@)[k].left && opt_int(r.lines@[k].right_line_no) == spec_layout(tags@)[k].right by {
            assert(line_shows(r.lines@[k], spec_layout(tags@)[k], lines_of(left@), lines_of(right@), word));
        }
        lemma_diff_shown_rows(r.lines@, spec_layout(tags@), true);
        lemma_diff_shown_rows(r.lines@, spec_layout(tags@), false);
    }
    r
}

/// Diffs two texts line by line (see `compute_diff_lines`).
pub fn compute_diff(left_text: &str, right_text: &str, options: &DiffOptions) -> (r: DiffResult)
    requires
        spec_lines(left_text@).len() + spec_lines(right_text@).len() <= u32::MAX,
    ensures
        is_line_diff(r, spec_lines(left_text@), spec_lines(right_text@), *options),
        numbers_within(r, spec_lines(left_text@).len(), spec_lines(right_text@).len()),
        diff_shape(r, spec_lines(left_text@).len(), spec_lines(right_text@).len()),
        diff_shown(r.lines@, true) == count_from(0, normalize_lines(spec_lines(left_text@), *options).len() as int),
        diff_shown(r.lines@, false) == count_from(0, normalize_lines(spec_lines(right_text@), *options).len() as int),
{
    let l = text_lines(left_text);
    let rl = text_lines(right_text);
    proof {
        assert(lines_of(l@) =~= l.deep_view());
        assert(lines_of(rl@) =~= rl.deep_view());
    }
    compute_diff_lines(&l, &rl, options)
}

} // verus!
