//! What the panes show of a row: its line number label, its colours, and
//! the runs of text of a modified line, as styled spans that a terminal
//! front end draws as they are.

use vstd::prelude::*;
use crate::models::{DiffLine, DiffResult, DirCompareResult, DirEntry, DirEntryStatus, LineStatus, ThreeWayLine, ThreeWayResult, ThreeWayStatus, WordDiffSegment};
use crate::tab::TabState;
use crate::tab_bar::{spec_str_width, str_width};
use crate::text::chars_of;
use crate::tab::PanelSide;
use crate::text::string_of;

verus! {

/// A colour of the terminal.
#[derive(Debug, Clone, Copy, PartialEq, Eq, Structural)]
pub enum Shade {
    /// The terminal's own colour.
    Reset,
    White,
    Rgb(u8, u8, u8),
}

/// The colours of a span and whether it is bold.
#[derive(Debug, Clone, Copy, PartialEq, Eq, Structural)]
pub struct Style {
    pub fg: Shade,
    pub bg: Shade,
    pub bold: bool,
}

/// A run of text in one style.
pub struct StyledSpan {
    pub text: String,
    pub style: Style,
}

/// The columns the line numbers take at the left of a pane.
pub const LINE_NO_COLUMNS: usize = 5;

/// A span as text and style.
pub open spec fn span_view(s: StyledSpan) -> (Seq<char>, Style) {
    (s.text@, s.style)
}

/// The spans of a row as texts and styles.
pub open spec fn spans_view(v: Seq<StyledSpan>) -> Seq<(Seq<char>, Style)> {
    v.map_values(|s: StyledSpan| span_view(s))
}

/// The character of a decimal digit.
pub open spec fn digit_char(d: int) -> char {
    if d == 0 {
        '0'
    } else if d == 1 {
        '1'
    } else if d == 2 {
        '2'
    } else if d == 3 {
        '3'
    } else if d == 4 {
        '4'
    } else if d == 5 {
        '5'
    } else if d == 6 {
        '6'
    } else if d == 7 {
        '7'
    } else if d == 8 {
        '8'
    } else {
        '9'
    }
}

/// The decimal digits of a number, most significant first.
pub open spec fn decimal(n: nat) -> Seq<char>
    decreases n,
{
    if n < 10 {
        seq![digit_char(n as int)]
    } else {
        decimal(n / 10).push(digit_char((n % 10) as int))
    }
}

/// `count` spaces; the empty text for a count of zero or less.
pub open spec fn spaces(count: int) -> Seq<char> {
    Seq::new(if count > 0 { count as nat } else { 0 }, |i: int| ' ')
}

/// The whole label in front of a row: its line number right-aligned in
/// four columns (a longer number takes the columns it needs) and a space,
/// or `LINE_NO_COLUMNS` spaces for a ghost line.
pub open spec fn line_no_label(no: Option<u32>) -> Seq<char> {
    match no {
        Some(n) => spaces(4 - decimal(n as nat).len()) + decimal(n as nat) + seq![' '],
        None => spaces(LINE_NO_COLUMNS as int),
    }
}

proof fn lemma_decimal_len(n: nat)
    ensures
        decimal(n).len() >= 1,
        n < 10 ==> decimal(n).len() <= 1,
        n < 100 ==> decimal(n).len() <= 2,
        n < 1000 ==> decimal(n).len() <= 3,
        n < 10000 ==> decimal(n).len() <= 4,
        n >= 10 ==> decimal(n).len() >= 2,
        n >= 100 ==> decimal(n).len() >= 3,
        n >= 1000 ==> decimal(n).len() >= 4,
        n >= 10000 ==> decimal(n).len() >= 5,
    decreases n,
{
    if n >= 10 {
        lemma_decimal_len(n / 10);
    }
}

/// The label of a line numbered below 10000, and of a ghost line, is
/// exactly `LINE_NO_COLUMNS` wide and ends with a space; the number's
/// digits stand just before that space.
pub proof fn lemma_line_no_label_width(no: Option<u32>)
    ensures
        no matches Some(n) && n < 10000 ==> line_no_label(no).len() == LINE_NO_COLUMNS,
        no is None ==> line_no_label(no).len() == LINE_NO_COLUMNS,
        line_no_label(no).len() >= 1 && line_no_label(no).last() == ' ',
        no matches Some(n) ==> line_no_label(no).drop_last().skip(line_no_label(no).len() - 1 - decimal(n as nat).len())
            == decimal(n as nat),
{
    match no {
        Some(n) => {
            lemma_decimal_len(n as nat);
            let d = decimal(n as nat);
            let l = line_no_label(no);
            let p = spaces(4 - d.len());
            assert(l == p + d + seq![' ']);
            assert(l.drop_last() =~= p + d);
            assert((p + d).skip(p.len() as int) =~= d);
        },
        None => {},
    }
}

fn digit(d: u128) -> (c: char)
    requires
        d < 10,
    ensures
        c == digit_char(d as int),
{
    if d == 0 {
        '0'
    } else if d == 1 {
        '1'
    } else if d == 2 {
        '2'
    } else if d == 3 {
        '3'
    } else if d == 4 {
        '4'
    } else if d == 5 {
        '5'
    } else if d == 6 {
        '6'
    } else if d == 7 {
        '7'
    } else if d == 8 {
        '8'
    } else {
        '9'
    }
}

/// Appends the decimal digits of `n`.
fn push_decimal(n: u128, out: &mut Vec<char>)
    ensures
        final(out)@ == old(out)@ + decimal(n as nat),
    decreases n,
{
    if n >= 10 {
        push_decimal(n / 10, out);
    }
    out.push(digit(n % 10));
    proof {
        if n >= 10 {
            assert(decimal(n as nat) == decimal((n / 10) as nat).push(digit_char((n % 10) as int)));
        }
        assert(final(out)@ =~= old(out)@ + decimal(n as nat));
    }
}

/// The decimal digits of a number (see `decimal`).
pub fn decimal_string(n: u64) -> (r: String)
    ensures
        r@ == decimal(n as nat),
{
    let mut out: Vec<char> = Vec::new();
    push_decimal(n as u128, &mut out);
    proof {
        assert(out@ =~= decimal(n as nat));
    }
    string_of(out.as_slice())
}

/// The label in front of a row (see `line_no_label`).
pub fn line_no_text(no: Option<u32>) -> (r: String)
    ensures
        r@ == line_no_label(no),
{
    let mut out: Vec<char> = Vec::new();
    match no {
        Some(n) => {
            let mut digits: Vec<char> = Vec::new();
            push_decimal(n as u128, &mut digits);
            let mut k: usize = digits.len();
            while k < 4
                invariant
                    digits.len() <= k <= 4 || (k == digits.len() && k >= 4),
                    out@ == spaces(k - digits@.len()),
                decreases 4 - k,
            {
                out.push(' ');
                k = k + 1;
                proof {
                    assert(out@ =~= spaces(k - digits@.len()));
                }
            }
            let mut j: usize = 0;
            let ghost pad = out@;
            while j < digits.len()
                invariant
                    j <= digits@.len(),
                    out@ == pad + digits@.subrange(0, j as int),
                decreases digits@.len() - j,
            {
                out.push(digits[j]);
                j = j + 1;
                proof {
                    assert(out@ =~= pad + digits@.subrange(0, j as int));
                }
            }
            out.push(' ');
            proof {
                assert(digits@ =~= decimal(n as nat));
                assert(pad =~= spaces(4 - decimal(n as nat).len()));
                assert(out@ =~= line_no_label(no));
            }
        },
        None => {
            let mut k: usize = 0;
            while k < LINE_NO_COLUMNS
                invariant
                    k <= LINE_NO_COLUMNS,
                    out@ == spaces(k as int),
                decreases LINE_NO_COLUMNS - k,
            {
                out.push(' ');
                k = k + 1;
                proof {
                    assert(out@ =~= spaces(k as int));
                }
            }
        },
    }
    string_of(out.as_slice())
}

/// The colour of line numbers in a diff.
pub open spec fn line_no_fg() -> Shade {
    Shade::Rgb(100, 100, 100)
}

/// The backgrounds of the two sides of a row of a two-way diff, by its
/// status: unmarked when equal, a ghost on the side without the line,
/// marked on both sides when modified.
pub open spec fn status_backgrounds(s: LineStatus) -> (Shade, Shade) {
    match s {
        LineStatus::Equal => (Shade::Reset, Shade::Reset),
        LineStatus::Added => (Shade::Rgb(30, 30, 30), Shade::Rgb(20, 50, 20)),
        LineStatus::Removed => (Shade::Rgb(50, 20, 20), Shade::Rgb(30, 30, 30)),
        LineStatus::Modified => (Shade::Rgb(50, 45, 15), Shade::Rgb(50, 45, 15)),
    }
}

/// `a + b`, saturating at 255.
pub open spec fn sat_add(a: u8, b: u8) -> u8 {
    if a + b > 255 { 255 } else { (a + b) as u8 }
}

/// A background lit up as part of the current block: a colour made
/// warmer, the terminal's own colour replaced by amber.
pub open spec fn lit(c: Shade) -> Shade {
    match c {
        Shade::Rgb(r, g, b) => Shade::Rgb(sat_add(r, 50), sat_add(g, 25), b),
        _ => Shade::Rgb(80, 50, 10),
    }
}

/// Lights up a background (see `lit`).
pub fn blend_current(c: Shade) -> (r: Shade)
    ensures
        r == lit(c),
{
    match c {
        Shade::Rgb(r, g, b) => Shade::Rgb(r.saturating_add(50), g.saturating_add(25), b),
        _ => Shade::Rgb(80, 50, 10),
    }
}

/// The backgrounds of a row of a two-way diff, lit up when it belongs to
/// the current block and differs.
pub open spec fn row_backgrounds(s: LineStatus, is_current: bool) -> (Shade, Shade) {
    let (l, r) = status_backgrounds(s);
    if is_current && s != LineStatus::Equal {
        (lit(l), lit(r))
    } else {
        (l, r)
    }
}

/// The style of text of a row.
pub open spec fn text_style(bg: Shade) -> Style {
    Style { fg: Shade::White, bg, bold: false }
}

/// A run of a modified line: changed runs stand out in bold on their own
/// background.
pub open spec fn segment_span(s: WordDiffSegment, bg: Shade) -> (Seq<char>, Style) {
    (s.text@, if s.changed { Style { fg: Shade::White, bg: Shade::Rgb(80, 70, 20), bold: true } } else { text_style(bg) })
}

/// One side of a row: its line number label, then its runs when it shows
/// them, its text otherwise.
pub open spec fn side_spans(
    no: Option<u32>,
    text: Seq<char>,
    segs: Seq<WordDiffSegment>,
    show_runs: bool,
    bg: Shade,
) -> Seq<(Seq<char>, Style)> {
    let head = (line_no_label(no), Style { fg: line_no_fg(), bg, bold: false });
    if show_runs {
        seq![head] + segs.map_values(|s: WordDiffSegment| segment_span(s, bg))
    } else {
        seq![head, (text, text_style(bg))]
    }
}

/// The two sides of a row of a two-way diff: a modified line shows its
/// runs when it has them.
pub open spec fn diff_row(line: DiffLine, is_current: bool) -> (Seq<(Seq<char>, Style)>, Seq<(Seq<char>, Style)>) {
    let (lb, rb) = row_backgrounds(line.status, is_current);
    let m = line.status == LineStatus::Modified;
    (
        side_spans(line.left_line_no, line.left_text@, line.left_word_segments@, m && line.left_word_segments@.len() > 0, lb),
        side_spans(line.right_line_no, line.right_text@, line.right_word_segments@, m && line.right_word_segments@.len() > 0, rb),
    )
}

/// The background of the line being edited.
pub open spec fn edit_bg() -> Shade {
    Shade::Rgb(30, 40, 60)
}

/// The two sides of the row of the line being edited in `edit_panel`: that
/// side shows the text as typed so far on its own background, the other
/// its text.
pub open spec fn live_row(
    line: DiffLine,
    is_current: bool,
    edit_panel: PanelSide,
    live: Seq<char>,
) -> (Seq<(Seq<char>, Style)>, Seq<(Seq<char>, Style)>) {
    let (lb, rb) = row_backgrounds(line.status, is_current);
    (
        if edit_panel == PanelSide::Left {
            side_spans(line.left_line_no, live, seq![], false, edit_bg())
        } else {
            side_spans(line.left_line_no, line.left_text@, seq![], false, lb)
        },
        if edit_panel == PanelSide::Right {
            side_spans(line.right_line_no, live, seq![], false, edit_bg())
        } else {
            side_spans(line.right_line_no, line.right_text@, seq![], false, rb)
        },
    )
}

fn styled(text: String, fg: Shade, bg: Shade, bold: bool) -> (s: StyledSpan)
    ensures
        s.text == text,
        s.style == (Style { fg, bg, bold }),
{
    StyledSpan { text, style: Style { fg, bg, bold } }
}

/// One side of a row (see `side_spans`).
fn side(no: Option<u32>, text: &str, segs: &Vec<WordDiffSegment>, show_runs: bool, bg: Shade) -> (r: Vec<StyledSpan>)
    ensures
        spans_view(r@) == side_spans(no, text@, segs@, show_runs, bg),
{
    let mut r: Vec<StyledSpan> = Vec::new();
    r.push(styled(line_no_text(no), Shade::Rgb(100, 100, 100), bg, false));
    if show_runs {
        let mut k: usize = 0;
        while k < segs.len()
            invariant
                k <= segs@.len(),
                r@.len() == k + 1,
                span_view(r@[0]) == (line_no_label(no), Style { fg: line_no_fg(), bg, bold: false }),
                forall|j: int| 0 <= j < k ==> span_view(#[trigger] r@[j + 1]) == segment_span(segs@[j], bg),
            decreases segs@.len() - k,
        {
            let seg = &segs[k];
            let t = string_of(crate::text::chars_of(seg.text.as_str()).as_slice());
            if seg.changed {
                r.push(styled(t, Shade::White, Shade::Rgb(80, 70, 20), true));
            } else {
                r.push(styled(t, Shade::White, bg, false));
            }
            k = k + 1;
        }
        proof {
            let sv = spans_view(r@);
            let expected = side_spans(no, text@, segs@, show_runs, bg);
            assert(sv.len() == expected.len());
            assert forall|j: int| 0 <= j < sv.len() implies sv[j] == expected[j] by {
                if j > 0 {
                    assert(span_view(r@[(j - 1) + 1]) == segment_span(segs@[j - 1], bg));
                }
            }
            assert(sv =~= expected);
        }
    } else {
        let t = string_of(crate::text::chars_of(text).as_slice());
        r.push(styled(t, Shade::White, bg, false));
        proof {
            assert(spans_view(r@) =~= side_spans(no, text@, segs@, show_runs, bg));
        }
    }
    r
}

/// The backgrounds of a row of a two-way diff (see `row_backgrounds`).
fn backgrounds(s: LineStatus, is_current: bool) -> (r: (Shade, Shade))
    ensures
        r == row_backgrounds(s, is_current),
{
    let (l, r) = match s {
        LineStatus::Equal => (Shade::Reset, Shade::Reset),
        LineStatus::Added => (Shade::Rgb(30, 30, 30), Shade::Rgb(20, 50, 20)),
        LineStatus::Removed => (Shade::Rgb(50, 20, 20), Shade::Rgb(30, 30, 30)),
        LineStatus::Modified => (Shade::Rgb(50, 45, 15), Shade::Rgb(50, 45, 15)),
    };
    if is_current && s != LineStatus::Equal {
        (blend_current(l), blend_current(r))
    } else {
        (l, r)
    }
}

/// The two sides of a row of a two-way diff (see `diff_row`).
pub fn render_diff_line(line: &DiffLine, is_current: bool) -> (r: (Vec<StyledSpan>, Vec<StyledSpan>))
    ensures
        (spans_view(r.0@), spans_view(r.1@)) == diff_row(*line, is_current),
{
    let (lb, rb) = backgrounds(line.status, is_current);
    let m = line.status == LineStatus::Modified;
    let left = side(line.left_line_no, line.left_text.as_str(), &line.left_word_segments, m && line.left_word_segments.len() > 0, lb);
    let right = side(line.right_line_no, line.right_text.as_str(), &line.right_word_segments, m && line.right_word_segments.len() > 0, rb);
    (left, right)
}

/// The two sides of the row of the line being edited (see `live_row`).
pub fn render_diff_line_with_live(line: &DiffLine, is_current: bool, edit_panel: PanelSide, live_text: &str) -> (r: (
    Vec<StyledSpan>,
    Vec<StyledSpan>,
))
    ensures
        (spans_view(r.0@), spans_view(r.1@)) == live_row(*line, is_current, edit_panel, live_text@),
{
    let (lb, rb) = backgrounds(line.status, is_current);
    let none: Vec<WordDiffSegment> = Vec::new();
    let left = if edit_panel == PanelSide::Left {
        side(line.left_line_no, live_text, &none, false, Shade::Rgb(30, 40, 60))
    } else {
        side(line.left_line_no, line.left_text.as_str(), &none, false, lb)
    };
    let right = if edit_panel == PanelSide::Right {
        side(line.right_line_no, live_text, &none, false, Shade::Rgb(30, 40, 60))
    } else {
        side(line.right_line_no, line.right_text.as_str(), &none, false, rb)
    };
    (left, right)
}

/// The backgrounds of the left, base and right panes of a row of a
/// three-way merge, by its status, lit up in the current block (the base
/// only where the row differs).
pub open spec fn three_way_backgrounds(s: ThreeWayStatus, is_current: bool) -> (Shade, Shade, Shade) {
    let blank = Shade::Rgb(30, 30, 30);
    let (l, b, r) = match s {
        ThreeWayStatus::Equal => (Shade::Reset, Shade::Reset, Shade::Reset),
        ThreeWayStatus::LeftChanged => (Shade::Rgb(20, 35, 55), blank, Shade::Reset),
        ThreeWayStatus::RightChanged => (Shade::Reset, blank, Shade::Rgb(20, 35, 55)),
        ThreeWayStatus::BothChanged => (Shade::Rgb(20, 50, 30), blank, Shade::Rgb(20, 50, 30)),
        ThreeWayStatus::Conflict => (Shade::Rgb(55, 20, 20), blank, Shade::Rgb(55, 20, 20)),
    };
    (
        if is_current { lit(l) } else { l },
        if is_current && s != ThreeWayStatus::Equal { lit(b) } else { b },
        if is_current { lit(r) } else { r },
    )
}

/// The backgrounds of a row of a three-way merge (see
/// `three_way_backgrounds`).
pub fn three_way_row_backgrounds(s: ThreeWayStatus, is_current: bool) -> (r: (Shade, Shade, Shade))
    ensures
        r == three_way_backgrounds(s, is_current),
{
    let blank = Shade::Rgb(30, 30, 30);
    let (l, b, r) = match s {
        ThreeWayStatus::Equal => (Shade::Reset, Shade::Reset, Shade::Reset),
        ThreeWayStatus::LeftChanged => (Shade::Rgb(20, 35, 55), blank, Shade::Reset),
        ThreeWayStatus::RightChanged => (Shade::Reset, blank, Shade::Rgb(20, 35, 55)),
        ThreeWayStatus::BothChanged => (Shade::Rgb(20, 50, 30), blank, Shade::Rgb(20, 50, 30)),
        ThreeWayStatus::Conflict => (Shade::Rgb(55, 20, 20), blank, Shade::Rgb(55, 20, 20)),
    };
    (
        if is_current { blend_current(l) } else { l },
        if is_current && s != ThreeWayStatus::Equal { blend_current(b) } else { b },
        if is_current { blend_current(r) } else { r },
    )
}

/// One pane of a row of a three-way merge: its line number label and its
/// text on the background given.
pub fn render_line(text: &str, line_no: Option<u32>, bg: Shade) -> (r: Vec<StyledSpan>)
    ensures
        spans_view(r@) == side_spans(line_no, text@, seq![], false, bg),
{
    let none: Vec<WordDiffSegment> = Vec::new();
    side(line_no, text, &none, false, bg)
}

/// A row of a pane shown without a diff: the line number label (in
/// its own colour) and the text, unmarked.
pub open spec fn raw_row(no: Option<u32>, text: Seq<char>) -> Seq<(Seq<char>, Style)> {
    seq![
        (line_no_label(no), Style { fg: Shade::Rgb(100, 100, 120), bg: Shade::Reset, bold: false }),
        (text, text_style(Shade::Reset))
    ]
}

/// A row of a pane shown without a diff (see `raw_row`).
pub fn render_raw_line(text: &str, line_no: Option<u32>) -> (r: Vec<StyledSpan>)
    ensures
        spans_view(r@) == raw_row(line_no, text@),
{
    let mut r: Vec<StyledSpan> = Vec::new();
    r.push(styled(line_no_text(line_no), Shade::Rgb(100, 100, 120), Shade::Reset, false));
    r.push(styled(string_of(crate::text::chars_of(text).as_slice()), Shade::White, Shade::Reset, false));
    proof {
        assert(spans_view(r@) =~= raw_row(line_no, text@));
    }
    r
}

/// The first row from `i` on that is equal on both sides (the end when
/// there is none).
pub open spec fn equal_row_from(lines: Seq<DiffLine>, i: int) -> int
    decreases lines.len() - i,
{
    if i < 0 || i >= lines.len() || lines[i].status == LineStatus::Equal {
        i
    } else {
        equal_row_from(lines, i + 1)
    }
}

/// The first row from `i` on that is equal in all three texts (the end
/// when there is none).
pub open spec fn equal_row_from3(lines: Seq<ThreeWayLine>, i: int) -> int
    decreases lines.len() - i,
{
    if i < 0 || i >= lines.len() || lines[i].status == ThreeWayStatus::Equal {
        i
    } else {
        equal_row_from3(lines, i + 1)
    }
}

/// The rows `start..end` of the current block of a two-way diff: from
/// where it starts up to the next equal row.
pub open spec fn current_rows(r: DiffResult, current_diff: i32) -> Option<(int, int)> {
    if 0 <= current_diff < r.diff_positions@.len() {
        let s = r.diff_positions@[current_diff as int] as int;
        Some((s, equal_row_from(r.lines@, s)))
    } else {
        None
    }
}

/// The rows `start..end` of the current block of a three-way merge.
pub open spec fn current_rows3(r: ThreeWayResult, current_diff: i32) -> Option<(int, int)> {
    if 0 <= current_diff < r.diff_positions@.len() {
        let s = r.diff_positions@[current_diff as int] as int;
        Some((s, equal_row_from3(r.lines@, s)))
    } else {
        None
    }
}

/// The rows of the current block of a two-way diff (see `current_rows`).
pub fn current_block(r: &DiffResult, current_diff: i32) -> (b: Option<(usize, usize)>)
    ensures
        match current_rows(*r, current_diff) {
            Some((s, e)) => b == Some((s as usize, e as usize)),
            None => b is None,
        },
{
    if current_diff < 0 || current_diff as usize >= r.diff_positions.len() {
        return None;
    }
    let s = r.diff_positions[current_diff as usize];
    let mut e = s;
    while e < r.lines.len() && r.lines[e].status != LineStatus::Equal
        invariant
            s <= e,
            equal_row_from(r.lines@, s as int) == equal_row_from(r.lines@, e as int),
        decreases r.lines@.len() - e,
    {
        e = e + 1;
    }
    Some((s, e))
}

/// The rows of the current block of a three-way merge (see
/// `current_rows3`).
pub fn current_block3(r: &ThreeWayResult, current_diff: i32) -> (b: Option<(usize, usize)>)
    ensures
        match current_rows3(*r, current_diff) {
            Some((s, e)) => b == Some((s as usize, e as usize)),
            None => b is None,
        },
{
    if current_diff < 0 || current_diff as usize >= r.diff_positions.len() {
        return None;
    }
    let s = r.diff_positions[current_diff as usize];
    let mut e = s;
    while e < r.lines.len() && r.lines[e].status != ThreeWayStatus::Equal
        invariant
            s <= e,
            equal_row_from3(r.lines@, s as int) == equal_row_from3(r.lines@, e as int),
        decreases r.lines@.len() - e,
    {
        e = e + 1;
    }
    Some((s, e))
}

/// The terminal column of the edit cursor after `cursor_col` characters of
/// the line being edited: the columns those characters take.
pub open spec fn cursor_column(live: Seq<char>, cursor_col: int) -> int {
    spec_str_width(live.take(if cursor_col < live.len() { cursor_col } else { live.len() as int })) as int
}

/// The terminal column of the edit cursor (see `cursor_column`).
pub fn cursor_display_column(live: &str, cursor_col: usize) -> (c: usize)
    ensures
        c == cursor_column(live@, cursor_col as int),
{
    let cs = chars_of(live);
    let n = if cursor_col < cs.len() { cursor_col } else { cs.len() };
    let mut prefix: Vec<char> = Vec::new();
    let mut k: usize = 0;
    while k < n
        invariant
            k <= n <= cs@.len(),
            cs@ == live@,
            prefix@ == cs@.take(k as int),
        decreases n - k,
    {
        prefix.push(cs[k]);
        k = k + 1;
        proof {
            assert(prefix@ =~= cs@.take(k as int));
        }
    }
    let p = string_of(prefix.as_slice());
    str_width(p.as_str())
}

/// The number of entries of a listing with status `st`.
pub open spec fn count_status(s: Seq<DirEntry>, st: DirEntryStatus) -> nat
    decreases s.len(),
{
    if s.len() == 0 {
        0
    } else {
        count_status(s.drop_last(), st) + if s.last().status == st { 1nat } else { 0nat }
    }
}

/// The decimal digits of a number.
pub open spec fn dec(n: int) -> Seq<char> {
    decimal(if n >= 0 { n as nat } else { 0 })
}

/// The position among the differences shown on the status line, counting
/// from 1 (0 with none current).
pub open spec fn shown_position(current_diff: i32) -> int {
    if current_diff >= 0 { current_diff + 1 } else { 0 }
}

/// The summary of a tab on the status line: the counts of a directory
/// comparison and its position, the numbers of differences and conflicts
/// of a merge, or the number of differences and the current one.
pub open spec fn status_info(t: TabState) -> Seq<char> {
    if t.is_dir_compare {
        match t.dir_result {
            Some(r) => "Dir compare | Changed:"@ + dec(count_status(r.entries@, DirEntryStatus::Changed) as int)
                + " LeftOnly:"@ + dec(count_status(r.entries@, DirEntryStatus::LeftOnly) as int) + " RightOnly:"@
                + dec(count_status(r.entries@, DirEntryStatus::RightOnly) as int) + " | "@ + dec(r.selected + 1) + "/"@
                + dec(r.entries@.len() as int) + " | Enter:open"@,
            None => "Directory compare"@,
        }
    } else if t.is_three_way {
        match t.three_way_result {
            Some(r) => if r.diff_positions@.len() == 0 {
                "Files are identical"@
            } else {
                "3-way | Diffs: "@ + dec(r.diff_positions@.len() as int) + " | Conflicts: "@ + dec(r.conflict_count as int)
                    + " | Current: "@ + dec(shown_position(t.current_diff)) + "/"@ + dec(r.diff_positions@.len() as int)
            },
            None => "No files loaded"@,
        }
    } else if t.spec_diff_count() == 0 {
        if t.diff_result is Some {
            "Files are identical"@
        } else {
            "No files loaded"@
        }
    } else {
        "Diffs: "@ + dec(t.spec_diff_count()) + " | Current: "@ + dec(shown_position(t.current_diff)) + "/"@
            + dec(t.spec_diff_count())
    }
}

/// Appends a text.
fn append(out: &mut Vec<char>, s: &str)
    ensures
        final(out)@ == old(out)@ + s@,
{
    let cs = chars_of(s);
    let mut k: usize = 0;
    while k < cs.len()
        invariant
            k <= cs@.len(),
            cs@ == s@,
            out@ == old(out)@ + cs@.take(k as int),
        decreases cs@.len() - k,
    {
        out.push(cs[k]);
        k = k + 1;
        proof {
            assert(out@ =~= old(out)@ + cs@.take(k as int));
        }
    }
    proof {
        assert(cs@.take(cs@.len() as int) =~= cs@);
    }
}

/// The number of entries of a listing with status `st` (see
/// `count_status`).
pub fn count_entries(s: &Vec<DirEntry>, st: DirEntryStatus) -> (n: u64)
    ensures
        n == count_status(s@, st),
{
    let mut n: u64 = 0;
    let mut k: usize = 0;
    while k < s.len()
        invariant
            k <= s@.len(),
            n == count_status(s@.take(k as int), st),
            n <= k,
        decreases s@.len() - k,
    {
        proof {
            assert(s@.take(k + 1).drop_last() =~= s@.take(k as int));
        }
        if s[k].status == st {
            n = n + 1;
        }
        k = k + 1;
    }
    proof {
        assert(s@.take(s@.len() as int) =~= s@);
    }
    n
}

/// The summary of a tab on the status line (see `status_info`).
pub fn status_summary(t: &TabState) -> (r: String)
    requires
        t.counts_fit(),
        -1 <= t.current_diff < i32::MAX,
    ensures
        r@ == status_info(*t),
{
    let mut out: Vec<char> = Vec::new();
    if t.is_dir_compare {
        match &t.dir_result {
            Some(r) => {
                append(&mut out, "Dir compare | Changed:");
                push_decimal(count_entries(&r.entries, DirEntryStatus::Changed) as u128, &mut out);
                append(&mut out, " LeftOnly:");
                push_decimal(count_entries(&r.entries, DirEntryStatus::LeftOnly) as u128, &mut out);
                append(&mut out, " RightOnly:");
                push_decimal(count_entries(&r.entries, DirEntryStatus::RightOnly) as u128, &mut out);
                append(&mut out, " | ");
                push_decimal(r.selected as u128 + 1, &mut out);
                append(&mut out, "/");
                push_decimal(r.entries.len() as u128, &mut out);
                append(&mut out, " | Enter:open");
            },
            None => append(&mut out, "Directory compare"),
        }
    } else if t.is_three_way {
        match &t.three_way_result {
            Some(r) => {
                if r.diff_positions.len() == 0 {
                    append(&mut out, "Files are identical");
                } else {
                    let n = r.diff_positions.len() as u128;
                    append(&mut out, "3-way | Diffs: ");
                    push_decimal(n, &mut out);
                    append(&mut out, " | Conflicts: ");
                    push_decimal(r.conflict_count as u128, &mut out);
                    append(&mut out, " | Current: ");
                    push_decimal(if t.current_diff >= 0 { t.current_diff as u128 + 1 } else { 0 }, &mut out);
                    append(&mut out, "/");
                    push_decimal(n, &mut out);
                }
            },
            None => append(&mut out, "No files loaded"),
        }
    } else {
        let count = t.diff_count();
        if count == 0 {
            if t.diff_result.is_some() {
                append(&mut out, "Files are identical");
            } else {
                append(&mut out, "No files loaded");
            }
        } else {
            append(&mut out, "Diffs: ");
            push_decimal(count as u128, &mut out);
            append(&mut out, " | Current: ");
            push_decimal(if t.current_diff >= 0 { t.current_diff as u128 + 1 } else { 0 }, &mut out);
            append(&mut out, "/");
            push_decimal(count as u128, &mut out);
        }
    }
    proof {
        assert(out@ =~= status_info(*t));
    }
    string_of(out.as_slice())
}

/// Where a drawn directory listing of `capacity` rows starts: at the top
/// without room, else so that the selection shows.
pub open spec fn dir_list_start(d: DirCompareResult, capacity: int) -> int {
    if capacity == 0 {
        0
    } else if d.selected < d.scroll_offset {
        d.selected as int
    } else if d.selected >= d.scroll_offset + capacity {
        d.selected + 1 - capacity
    } else {
        d.scroll_offset as int
    }
}

/// Where a drawn directory listing starts (see `dir_list_start`).
pub fn dir_list_scroll(d: &DirCompareResult, capacity: usize) -> (r: usize)
    ensures
        r == dir_list_start(*d, capacity as int),
{
    if capacity == 0 {
        0
    } else if d.selected < d.scroll_offset {
        d.selected
    } else if d.selected - d.scroll_offset >= capacity {
        d.selected - capacity + 1
    } else {
        d.scroll_offset
    }
}

/// The mark and colour of an entry's status in a directory listing.
pub open spec fn status_mark(st: DirEntryStatus) -> (Seq<char>, Shade) {
    match st {
        DirEntryStatus::Changed => ("!=  "@, Shade::Rgb(220, 180, 80)),
        DirEntryStatus::LeftOnly => ("<   "@, Shade::Rgb(100, 160, 240)),
        DirEntryStatus::RightOnly => ("  > "@, Shade::Rgb(100, 200, 130)),
        DirEntryStatus::Equal => ("==  "@, Shade::Rgb(80, 80, 80)),
    }
}

/// A row of a directory listing: the status mark in its colour, then the
/// path after a space; the selected row on its own background.
pub open spec fn dir_row(e: DirEntry, selected: bool) -> Seq<(Seq<char>, Style)> {
    let (mark, color) = status_mark(e.status);
    let (bg, fg) = if selected { (Shade::Rgb(50, 70, 100), Shade::White) } else { (Shade::Reset, Shade::Rgb(200, 200, 200)) };
    seq![(mark, Style { fg: color, bg, bold: false }), (seq![' '] + e.rel_path@, Style { fg, bg, bold: false })]
}

/// A row of a directory listing (see `dir_row`).
pub fn render_dir_entry(e: &DirEntry, selected: bool) -> (r: Vec<StyledSpan>)
    ensures
        spans_view(r@) == dir_row(*e, selected),
{
    let (mark, color) = match e.status {
        DirEntryStatus::Changed => ("!=  ", Shade::Rgb(220, 180, 80)),
        DirEntryStatus::LeftOnly => ("<   ", Shade::Rgb(100, 160, 240)),
        DirEntryStatus::RightOnly => ("  > ", Shade::Rgb(100, 200, 130)),
        DirEntryStatus::Equal => ("==  ", Shade::Rgb(80, 80, 80)),
    };
    let (bg, fg) = if selected { (Shade::Rgb(50, 70, 100), Shade::White) } else { (Shade::Reset, Shade::Rgb(200, 200, 200)) };
    let mut path: Vec<char> = Vec::new();
    path.push(' ');
    append(&mut path, e.rel_path.as_str());
    let mut r: Vec<StyledSpan> = Vec::new();
    r.push(styled(string_of(chars_of(mark).as_slice()), color, bg, false));
    r.push(styled(string_of(path.as_slice()), fg, bg, false));
    proof {
        assert(path@ =~= seq![' '] + e.rel_path@);
        assert(spans_view(r@) =~= dir_row(*e, selected));
    }
    r
}

} // verus!
