//! The state of one document tab: the line buffers of its panes, the diff
//! shown of them, the position among the differences, editing in place,
//! copying between panes, and undo/redo of whole-buffer snapshots.

use vstd::prelude::*;
use crate::engine::{compute_diff_lines, is_two_way_diff, numbers_within, DiffOptions};
use crate::models::{DiffLine, DiffResult, DirCompareResult, ThreeWayLine, ThreeWayResult};
use crate::text::{
    buf_to_text, clamp_col, concat_str, copy_lines, insert_char, line_insert_char, line_remove_char, line_split,
    lines_of, spec_buf_to_text, spec_str_to_lines, str_to_lines,
};
use crate::three_way::{compute_three_way_diff, is_merge_view, numbers_in_range, Pane};
use crate::block_copy::{block_copied, copy_block3, copy_block_three_way, copy_block_two_way};

verus! {

/// The most lines a pane may hold: the current block is an `i32` index,
/// and two panes of this size give at most `i32::MAX - 1` blocks (at most
/// every other row of their diff starts one) and rows whose line numbers
/// fit a `u32`.
pub const MAX_LINES: usize = 0x7fff_fffe;

/// One of the panes of a tab.
#[derive(Debug, Clone, Copy, PartialEq, Eq, Structural)]
pub enum PanelSide {
    Left,
    Right,
    Base,
}

/// Editing in place: the pane, the line of its buffer (from 0), the row of
/// the view it was entered at, the cursor's column in characters, and
/// whether anything was typed.
#[derive(Debug, Clone, Copy, PartialEq, Eq, Structural)]
pub struct EditState {
    pub panel: PanelSide,
    pub source_line: usize,
    pub display_line: usize,
    pub cursor_col: usize,
    pub dirty: bool,
}

/// The buffers of a tab at one moment, for undo and redo.
pub struct TextSnapshot {
    pub left_buf: Vec<String>,
    pub right_buf: Vec<String>,
    pub base_buf: Vec<String>,
}

/// The texts of the left, base and right panes.
pub type Texts = (Seq<Seq<char>>, Seq<Seq<char>>, Seq<Seq<char>>);

pub open spec fn snapshot_texts(s: TextSnapshot) -> Texts {
    (lines_of(s.left_buf@), lines_of(s.base_buf@), lines_of(s.right_buf@))
}

/// A row's line numbers count from 1.
pub open spec fn two_way_numbers_positive(l: DiffLine) -> bool {
    &&& (l.left_line_no matches Some(n) ==> n >= 1)
    &&& (l.right_line_no matches Some(n) ==> n >= 1)
}

/// A row's line numbers count from 1.
pub open spec fn three_way_numbers_positive(l: ThreeWayLine) -> bool {
    &&& (l.left_line_no matches Some(n) ==> n >= 1)
    &&& (l.base_line_no matches Some(n) ==> n >= 1)
    &&& (l.right_line_no matches Some(n) ==> n >= 1)
}

/// Each pane holds at most `MAX_LINES` lines.
pub open spec fn texts_fit(t: Texts) -> bool {
    &&& t.0.len() <= MAX_LINES
    &&& t.1.len() <= MAX_LINES
    &&& t.2.len() <= MAX_LINES
}

/// Where the view scrolls to show the current difference: three rows above
/// the start of its block; unmoved without one.
pub open spec fn scroll_target(scroll: usize, t: TabState) -> usize {
    if t.current_diff < 0 {
        scroll
    } else {
        match t.block_position(t.current_diff as int) {
            Some(p) => if p >= 3 {
                (p - 3) as usize
            } else {
                0
            },
            None => scroll,
        }
    }
}

/// The undo and redo stacks of a tab.
pub struct UndoHistory {
    undo_stack: Vec<TextSnapshot>,
    redo_stack: Vec<TextSnapshot>,
}

impl UndoHistory {
    /// The snapshots that undo goes back through, the latest last.
    pub closed spec fn undo_view(&self) -> Seq<Texts> {
        self.undo_stack@.map_values(|s: TextSnapshot| snapshot_texts(s))
    }

    /// The snapshots that redo goes forward through, the latest last.
    pub closed spec fn redo_view(&self) -> Seq<Texts> {
        self.redo_stack@.map_values(|s: TextSnapshot| snapshot_texts(s))
    }

    /// No snapshots.
    pub fn new() -> (h: UndoHistory)
        ensures
            h.undo_view().len() == 0,
            h.redo_view().len() == 0,
    {
        let h = UndoHistory { undo_stack: Vec::new(), redo_stack: Vec::new() };
        proof {
            assert(h.undo_view() =~= Seq::<Texts>::empty());
            assert(h.redo_view() =~= Seq::<Texts>::empty());
        }
        h
    }

    /// Records a snapshot to undo to, forgetting what could be redone.
    pub fn record(&mut self, s: TextSnapshot)
        ensures
            final(self).undo_view() == old(self).undo_view().push(snapshot_texts(s)),
            final(self).redo_view().len() == 0,
    {
        self.undo_stack.push(s);
        self.redo_stack = Vec::new();
        proof {
            assert(final(self).undo_view() =~= old(self).undo_view().push(snapshot_texts(s)));
            assert(final(self).redo_view() =~= Seq::<Texts>::empty());
        }
    }

    /// Pushes a snapshot to undo to, keeping what could be redone.
    pub fn push_undo(&mut self, s: TextSnapshot)
        ensures
            final(self).undo_view() == old(self).undo_view().push(snapshot_texts(s)),
            final(self).redo_view() == old(self).redo_view(),
    {
        self.undo_stack.push(s);
        proof {
            assert(final(self).undo_view() =~= old(self).undo_view().push(snapshot_texts(s)));
        }
    }

    /// Pushes a snapshot to redo to.
    pub fn push_redo(&mut self, s: TextSnapshot)
        ensures
            final(self).redo_view() == old(self).redo_view().push(snapshot_texts(s)),
            final(self).undo_view() == old(self).undo_view(),
    {
        self.redo_stack.push(s);
        proof {
            assert(final(self).redo_view() =~= old(self).redo_view().push(snapshot_texts(s)));
        }
    }

    /// Takes the latest snapshot to undo to.
    pub fn pop_undo(&mut self) -> (r: Option<TextSnapshot>)
        ensures
            old(self).undo_view().len() == 0 ==> r is None && final(self).undo_view() == old(self).undo_view(),
            old(self).undo_view().len() > 0 ==> (r matches Some(s) && snapshot_texts(s) == old(self).undo_view().last()),
            old(self).undo_view().len() > 0 ==> final(self).undo_view() == old(self).undo_view().drop_last(),
            final(self).redo_view() == old(self).redo_view(),
    {
        let r = self.undo_stack.pop();
        proof {
            if old(self).undo_view().len() > 0 {
                assert(final(self).undo_view() =~= old(self).undo_view().drop_last());
            } else {
                assert(final(self).undo_view() =~= old(self).undo_view());
            }
        }
        r
    }

    /// Takes the latest snapshot to redo to.
    pub fn pop_redo(&mut self) -> (r: Option<TextSnapshot>)
        ensures
            old(self).redo_view().len() == 0 ==> r is None && final(self).redo_view() == old(self).redo_view(),
            old(self).redo_view().len() > 0 ==> (r matches Some(s) && snapshot_texts(s) == old(self).redo_view().last()),
            old(self).redo_view().len() > 0 ==> final(self).redo_view() == old(self).redo_view().drop_last(),
            final(self).undo_view() == old(self).undo_view(),
    {
        let r = self.redo_stack.pop();
        proof {
            if old(self).redo_view().len() > 0 {
                assert(final(self).redo_view() =~= old(self).redo_view().drop_last());
            } else {
                assert(final(self).redo_view() =~= old(self).redo_view());
            }
        }
        r
    }

    /// Whether there is nothing to undo.
    pub fn undo_is_empty(&self) -> (b: bool)
        ensures
            b == (self.undo_view().len() == 0),
    {
        self.undo_stack.len() == 0
    }

    /// Whether there is nothing to redo.
    pub fn redo_is_empty(&self) -> (b: bool)
        ensures
            b == (self.redo_view().len() == 0),
    {
        self.redo_stack.len() == 0
    }
}

/// All per-document state of a tab.
pub struct TabState {
    pub left_path: Option<String>,
    pub right_path: Option<String>,
    pub base_path: Option<String>,
    pub left_buf: Vec<String>,
    pub right_buf: Vec<String>,
    pub base_buf: Vec<String>,
    pub diff_result: Option<DiffResult>,
    pub three_way_result: Option<ThreeWayResult>,
    pub is_three_way: bool,
    pub is_dir_compare: bool,
    pub dir_result: Option<DirCompareResult>,
    pub diff_options: DiffOptions,
    pub current_diff: i32,
    pub scroll_offset: usize,
    pub h_scroll: usize,
    pub edit_state: Option<EditState>,
    pub has_unsaved_changes: bool,
    pub select_all: bool,
    pub history: UndoHistory,
}

/// The name `Path::file_name` gives the last component of a path.
pub uninterp spec fn spec_file_name(path: Seq<char>) -> Option<Seq<char>>;

/// `std::path::Path::file_name` of a path given as text, converted with
/// `to_string_lossy`. Parsing a path depends on its text alone, so the
/// result is named `spec_file_name`; nothing more of it is stated here.
#[verifier::external_body]
pub(crate) fn path_file_name(path: &str) -> (r: Option<String>)
    ensures
        spec_file_name(path@) == match r {
            Some(n) => Some(n@),
            None => None::<Seq<char>>,
        },
{
    std::path::Path::new(path).file_name().map(|n| n.to_string_lossy().to_string())
}

/// A tab's title: the file name of its left path, or a placeholder.
pub open spec fn spec_title(left_path: Option<String>, dir: bool) -> Seq<char> {
    let name = match left_path {
        Some(p) => spec_file_name(p@),
        None => None,
    };
    match name {
        Some(n) => n,
        None => if dir {
            "Dirs"@
        } else {
            "New"@
        },
    }
}

/// A tab with nothing open, as `TabState::new` makes it.
pub open spec fn is_fresh_tab(t: TabState) -> bool {
    &&& t.left_path is None && t.right_path is None && t.base_path is None
    &&& t.left_buf@.len() == 0 && t.right_buf@.len() == 0 && t.base_buf@.len() == 0
    &&& t.diff_result is None && t.three_way_result is None
    &&& !t.is_three_way && !t.is_dir_compare && t.dir_result is None
    &&& !t.diff_options.ignore_whitespace && !t.diff_options.ignore_case && !t.diff_options.ignore_blank_lines
    &&& t.current_diff == -1
    &&& t.scroll_offset == 0 && t.h_scroll == 0
    &&& t.edit_state is None
    &&& !t.has_unsaved_changes && !t.select_all
    &&& t.undo_view().len() == 0 && t.redo_view().len() == 0
}

impl TabState {
    /// The texts of the three panes.
    pub open spec fn texts(&self) -> Texts {
        (lines_of(self.left_buf@), lines_of(self.base_buf@), lines_of(self.right_buf@))
    }

    /// The text of one pane.
    pub open spec fn pane(&self, panel: PanelSide) -> Seq<Seq<char>> {
        match panel {
            PanelSide::Left => lines_of(self.left_buf@),
            PanelSide::Right => lines_of(self.right_buf@),
            PanelSide::Base => lines_of(self.base_buf@),
        }
    }

    /// The snapshots that undo goes back through, the latest last.
    pub open spec fn undo_view(&self) -> Seq<Texts> {
        self.history.undo_view()
    }

    /// The snapshots that redo goes forward through, the latest last.
    pub open spec fn redo_view(&self) -> Seq<Texts> {
        self.history.redo_view()
    }

    /// Every pane, and every pane of a snapshot, is small enough to be
    /// diffed with `u32` line numbers.
    pub open spec fn fits(&self) -> bool {
        &&& texts_fit(self.texts())
        &&& self.history_fits()
    }

    /// Every pane of every snapshot holds at most `MAX_LINES` lines.
    pub open spec fn history_fits(&self) -> bool {
        &&& forall|k: int| 0 <= k < self.undo_view().len() ==> #[trigger] texts_fit(self.undo_view()[k])
        &&& forall|k: int| 0 <= k < self.redo_view().len() ==> #[trigger] texts_fit(self.redo_view()[k])
    }

    /// The shown results can be counted with an `i32` and their block
    /// positions are rows (or just past the last row) of the results.
    pub open spec fn counts_fit(&self) -> bool {
        &&& (self.diff_result matches Some(r) ==> {
            &&& r.diff_count <= i32::MAX
            &&& r.diff_count as int == r.diff_positions@.len()
            &&& forall|k: int| 0 <= k < r.diff_positions@.len() ==> r.diff_positions@[k] < r.lines@.len()
            &&& forall|k: int| 0 <= k < r.lines@.len() ==> two_way_numbers_positive(#[trigger] r.lines@[k])
        })
        &&& (self.three_way_result matches Some(r) ==> {
            &&& r.diff_positions@.len() <= i32::MAX
            &&& forall|k: int| 0 <= k < r.diff_positions@.len() ==> r.diff_positions@[k] <= r.lines@.len()
            &&& forall|k: int| 0 <= k < r.lines@.len() ==> three_way_numbers_positive(#[trigger] r.lines@[k])
        })
    }

    /// The line numbers of the shown results name lines of the buffers
    /// (they can be stale while a line is being edited).
    pub open spec fn numbers_fit(&self) -> bool {
        &&& (self.diff_result matches Some(r) ==> numbers_within(r, self.left_buf@.len(), self.right_buf@.len()))
        &&& (self.three_way_result matches Some(r) ==> numbers_in_range(
            r.lines@,
            self.base_buf@.len() as int,
            self.left_buf@.len() as int,
            self.right_buf@.len() as int,
        ))
    }

    /// The edit cursor stands on a line of its pane, within the line; or,
    /// in an empty pane, at the start of the first line to be made.
    pub open spec fn edit_ok(&self) -> bool {
        self.edit_state matches Some(e) ==> {
            let buf = self.pane(e.panel);
            ||| e.source_line < buf.len() && e.cursor_col <= buf[e.source_line as int].len()
            ||| buf.len() == 0 && e.source_line == 0 && e.cursor_col == 0
        }
    }

    /// The tab's invariant.
    pub open spec fn wf(&self) -> bool {
        &&& self.counts_fit()
        &&& -1 <= self.current_diff < i32::MAX
        &&& self.edit_ok()
    }

    /// The shown result is the diff of the current buffers: a merge view
    /// in a three-way tab, a two-way diff under the tab's options
    /// otherwise.
    pub open spec fn shows_texts(&self) -> bool {
        let (l, b, r) = self.texts();
        if self.is_three_way {
            &&& self.diff_result is None
            &&& self.three_way_result matches Some(res) && is_merge_view(res, b, l, r)
        } else {
            &&& self.three_way_result is None
            &&& self.diff_result matches Some(res) && is_two_way_diff(res, l, r, self.diff_options)
        }
    }

    /// The number of difference blocks of the shown result.
    pub open spec fn spec_diff_count(&self) -> int {
        if self.is_three_way {
            match self.three_way_result {
                Some(r) => r.diff_positions@.len() as int,
                None => 0,
            }
        } else {
            match self.diff_result {
                Some(r) => r.diff_count as int,
                None => 0,
            }
        }
    }

    /// The row at which block `k` of the shown result starts.
    pub open spec fn block_position(&self, k: int) -> Option<usize> {
        if self.is_three_way {
            match self.three_way_result {
                Some(r) => if 0 <= k < r.diff_positions@.len() { Some(r.diff_positions@[k]) } else { None },
                None => None,
            }
        } else {
            match self.diff_result {
                Some(r) => if 0 <= k < r.diff_positions@.len() { Some(r.diff_positions@[k]) } else { None },
                None => None,
            }
        }
    }

    /// What a document is: its paths, buffers, mode, options, flags and
    /// undo history.
    pub open spec fn same_document(&self, other: &TabState) -> bool {
        &&& self.left_path == other.left_path
        &&& self.right_path == other.right_path
        &&& self.base_path == other.base_path
        &&& self.left_buf@ == other.left_buf@
        &&& self.right_buf@ == other.right_buf@
        &&& self.base_buf@ == other.base_buf@
        &&& self.is_three_way == other.is_three_way
        &&& self.is_dir_compare == other.is_dir_compare
        &&& self.dir_result == other.dir_result
        &&& self.diff_options == other.diff_options
        &&& self.has_unsaved_changes == other.has_unsaved_changes
        &&& self.select_all == other.select_all
        &&& self.undo_view() == other.undo_view()
        &&& self.redo_view() == other.redo_view()
    }

    /// What is shown of a document: the results, the position among the
    /// differences, the scrolling and the edit cursor.
    pub open spec fn same_view(&self, other: &TabState) -> bool {
        &&& self.diff_result == other.diff_result
        &&& self.three_way_result == other.three_way_result
        &&& self.current_diff == other.current_diff
        &&& self.scroll_offset == other.scroll_offset
        &&& self.h_scroll == other.h_scroll
        &&& self.edit_state == other.edit_state
    }

    /// The tab shows the diff of its buffers, freshly computed: no line is
    /// being edited; with `reset`, the first difference is current and
    /// scrolled to; without, the current one is kept when it still exists
    /// (the last one otherwise) and the scrolling is kept.
    pub open spec fn recomputed(&self, before_diff: i32, before_scroll: usize, reset: bool) -> bool {
        let n = self.spec_diff_count();
        &&& self.shows_texts()
        &&& self.edit_state is None
        &&& reset ==> self.current_diff == if n > 0 { 0 } else { -1 }
        &&& !reset ==> self.current_diff == if before_diff >= n { n - 1 } else { before_diff as int }
        &&& reset ==> self.scroll_offset == scroll_target(before_scroll, *self)
        &&& !reset ==> self.scroll_offset == before_scroll
    }

    /// The tab holds the buffers `l`, `b`, `r` after a change of `before`:
    /// the buffers before it recorded for undo, nothing left to redo,
    /// unsaved changes, the diff recomputed, and the rest of the document
    /// as it was.
    pub open spec fn changed_to(
        &self,
        before: &TabState,
        l: Seq<String>,
        b: Seq<String>,
        r: Seq<String>,
        reset: bool,
    ) -> bool {
        &&& self.left_buf@ == l
        &&& self.base_buf@ == b
        &&& self.right_buf@ == r
        &&& self.undo_view() == before.undo_view().push(before.texts())
        &&& self.redo_view().len() == 0
        &&& self.has_unsaved_changes
        &&& self.recomputed(before.current_diff, before.scroll_offset, reset)
        &&& self.left_path == before.left_path
        &&& self.right_path == before.right_path
        &&& self.base_path == before.base_path
        &&& self.is_three_way == before.is_three_way
        &&& self.is_dir_compare == before.is_dir_compare
        &&& self.dir_result == before.dir_result
        &&& self.diff_options == before.diff_options
        &&& self.select_all == before.select_all
        &&& self.h_scroll == before.h_scroll
    }

    /// The tab is `before` with only the buffer of `panel` and the edit
    /// state changed.
    pub open spec fn edited_from(&self, before: &TabState, panel: PanelSide) -> bool {
        &&& panel != PanelSide::Left ==> self.left_buf@ == before.left_buf@
        &&& panel != PanelSide::Right ==> self.right_buf@ == before.right_buf@
        &&& panel != PanelSide::Base ==> self.base_buf@ == before.base_buf@
        &&& self.left_path == before.left_path
        &&& self.right_path == before.right_path
        &&& self.base_path == before.base_path
        &&& self.diff_result == before.diff_result
        &&& self.three_way_result == before.three_way_result
        &&& self.is_three_way == before.is_three_way
        &&& self.is_dir_compare == before.is_dir_compare
        &&& self.dir_result == before.dir_result
        &&& self.diff_options == before.diff_options
        &&& self.current_diff == before.current_diff
        &&& self.scroll_offset == before.scroll_offset
        &&& self.h_scroll == before.h_scroll
        &&& self.has_unsaved_changes == before.has_unsaved_changes
        &&& self.select_all == before.select_all
        &&& self.undo_view() == before.undo_view()
        &&& self.redo_view() == before.redo_view()
    }

    /// A tab with nothing open.
    pub fn new() -> (t: TabState)
        ensures
            is_fresh_tab(t),
            t.wf(),
            t.fits(),
            t.numbers_fit(),
    {
        let t = TabState {
            left_path: None,
            right_path: None,
            base_path: None,
            left_buf: Vec::new(),
            right_buf: Vec::new(),
            base_buf: Vec::new(),
            diff_result: None,
            three_way_result: None,
            is_three_way: false,
            is_dir_compare: false,
            dir_result: None,
            diff_options: DiffOptions::default(),
            current_diff: -1,
            scroll_offset: 0,
            h_scroll: 0,
            edit_state: None,
            has_unsaved_changes: false,
            select_all: false,
            history: UndoHistory::new(),
        };
        t
    }

    /// The tab's title: the file name of the left path; "Dirs" for a
    /// directory comparison without one, "New" otherwise.
    pub fn title(&self) -> (r: String)
        ensures
            r@ == spec_title(self.left_path, self.is_dir_compare),
    {
        let name = match &self.left_path {
            Some(p) => path_file_name(p.as_str()),
            None => None,
        };
        match name {
            Some(n) => n,
            None => if self.is_dir_compare {
                proof {
                    reveal_strlit("Dirs");
                }
                String::from_str("Dirs")
            } else {
                proof {
                    reveal_strlit("New");
                }
                String::from_str("New")
            },
        }
    }
}

/// The number of rows shown: those of the shown result, or, without one,
/// as many as the longest pane (at least one).
pub open spec fn spec_total_lines(t: TabState) -> int {
    let l = t.left_buf@.len() as int;
    let r = t.right_buf@.len() as int;
    let b = t.base_buf@.len() as int;
    let m2 = if l < r { r } else { l };
    if t.is_three_way {
        match t.three_way_result {
            Some(res) => res.lines@.len() as int,
            None => {
                let m3 = if m2 < b { b } else { m2 };
                if m3 < 1 { 1 } else { m3 }
            },
        }
    } else {
        match t.diff_result {
            Some(res) => res.lines@.len() as int,
            None => if m2 < 1 { 1 } else { m2 },
        }
    }
}

/// The buffers (left, base, right) after copying the current block of a
/// tab (`to_right`: from the left; otherwise from the right), when there is
/// a current block and the pane copied into stays within `MAX_LINES`. In a
/// two-way tab the block goes to the other side; in a three-way tab, into
/// the base.
pub open spec fn copied_buffers(t: TabState, to_right: bool) -> Option<(Seq<String>, Seq<String>, Seq<String>)> {
    let cd = t.current_diff as int;
    if cd < 0 {
        None
    } else if t.is_three_way {
        match t.three_way_result {
            Some(r) => if cd < r.diff_positions@.len() {
                let from = if to_right { Pane::Left } else { Pane::Right };
                let src = if to_right { t.left_buf@ } else { t.right_buf@ };
                let nb = copy_block3(r.lines@, r.diff_positions@[cd] as int, from, src, t.base_buf@);
                if nb.len() <= MAX_LINES {
                    Some((t.left_buf@, nb, t.right_buf@))
                } else {
                    None
                }
            } else {
                None
            },
            None => None,
        }
    } else {
        match t.diff_result {
            Some(r) => if cd < r.diff_positions@.len() {
                let pos = r.diff_positions@[cd] as int;
                if to_right {
                    let nr = block_copied(r.lines@, pos, t.left_buf@, t.right_buf@, true);
                    if nr.len() <= MAX_LINES {
                        Some((t.left_buf@, t.base_buf@, nr))
                    } else {
                        None
                    }
                } else {
                    let nl = block_copied(r.lines@, pos, t.right_buf@, t.left_buf@, false);
                    if nl.len() <= MAX_LINES {
                        Some((nl, t.base_buf@, t.right_buf@))
                    } else {
                        None
                    }
                }
            } else {
                None
            },
            None => None,
        }
    }
}

/// `after` is `before` with its current block copied (see
/// `copied_buffers`), or unchanged when there is none to copy.
pub open spec fn copy_step(before: TabState, after: TabState, to_right: bool) -> bool {
    match copied_buffers(before, to_right) {
        None => after == before,
        Some((l, b, r)) => after.changed_to(&before, l, b, r, false),
    }
}

/// `after` is `before` moved to its next difference (see `next_diff`).
pub open spec fn next_diff_of(before: TabState, after: TabState) -> bool {
    &&& before.spec_diff_count() == 0 ==> after == before
    &&& before.spec_diff_count() > 0 ==> {
        let m = before.spec_diff_count() - 1;
        &&& after.current_diff == if before.current_diff + 1 < m { before.current_diff + 1 } else { m }
        &&& after.scroll_offset == scroll_target(before.scroll_offset, after)
    }
    &&& after.same_document(&before)
    &&& after.diff_result == before.diff_result
    &&& after.three_way_result == before.three_way_result
    &&& after.h_scroll == before.h_scroll
    &&& after.edit_state == before.edit_state
}

/// A change that records the old buffers for undo and leaves panes of at
/// most `MAX_LINES` lines keeps the tab fitting.
proof fn lemma_fits_after_change(before: &TabState, after: &TabState)
    requires
        before.fits(),
        texts_fit(after.texts()),
        after.undo_view() == before.undo_view().push(before.texts()),
        after.redo_view().len() == 0,
    ensures
        after.fits(),
{
    assert forall|k: int| 0 <= k < after.undo_view().len() implies #[trigger] texts_fit(after.undo_view()[k]) by {
        if k < before.undo_view().len() {
            assert(texts_fit(before.undo_view()[k]));
        }
    }
}

/// The line numbers a pane shows in the rows of a two-way diff; the base
/// pane shows none.
pub open spec fn two_way_numbers(lines: Seq<DiffLine>, panel: PanelSide) -> Seq<Option<u32>> {
    lines.map_values(
        |l: DiffLine|
            match panel {
                PanelSide::Left => l.left_line_no,
                PanelSide::Right => l.right_line_no,
                PanelSide::Base => None,
            },
    )
}

/// The line numbers a pane shows in the rows of a three-way merge.
pub open spec fn three_way_numbers(lines: Seq<ThreeWayLine>, panel: PanelSide) -> Seq<Option<u32>> {
    lines.map_values(
        |l: ThreeWayLine|
            match panel {
                PanelSide::Left => l.left_line_no,
                PanelSide::Right => l.right_line_no,
                PanelSide::Base => l.base_line_no,
            },
    )
}

/// The last row before row `d` that shows a line.
pub open spec fn last_some_before(nos: Seq<Option<u32>>, d: int) -> Option<int>
    decreases d,
{
    if d <= 0 {
        None
    } else if nos[d - 1] is Some {
        Some(d - 1)
    } else {
        last_some_before(nos, d - 1)
    }
}

/// The first row from row `d` on that shows a line.
pub open spec fn first_some_from(nos: Seq<Option<u32>>, d: int) -> Option<int>
    decreases nos.len() - d,
{
    if d < 0 || d >= nos.len() {
        None
    } else if nos[d] is Some {
        Some(d)
    } else {
        first_some_from(nos, d + 1)
    }
}

/// `n - 1`, but not below 0.
pub open spec fn dec_sat(n: int) -> int {
    if n > 0 {
        n - 1
    } else {
        0
    }
}

/// The line (from 0) a ghost row `d` stands for in a pane of `count`
/// lines: the line above it (kept within the pane), else the line below
/// it, else the pane's last line.
pub open spec fn nearest_source(d: int, nos: Seq<Option<u32>>, count: int) -> int {
    match last_some_before(nos, d) {
        Some(j) => {
            let n = nos[j]->0 as int;
            dec_sat(if n < count { n } else { count })
        },
        None => match first_some_from(nos, d) {
            Some(j) => dec_sat(nos[j]->0 as int),
            None => dec_sat(count),
        },
    }
}

/// The line (from 0) of a pane that row `d` of the shown result stands
/// for: its own line, or the nearest one for a ghost line; the base pane
/// of a two-way diff stands for its first line; past the rows, or without
/// a result, the row itself, kept within the pane.
pub open spec fn resolved_source(t: TabState, d: int, panel: PanelSide) -> int {
    let count = t.pane(panel).len() as int;
    let clamped = if d < dec_sat(count) { d } else { dec_sat(count) };
    if t.is_three_way {
        match t.three_way_result {
            Some(r) => if d < r.lines@.len() {
                let nos = three_way_numbers(r.lines@, panel);
                match nos[d] {
                    Some(n) => n - 1,
                    None => nearest_source(d, nos, count),
                }
            } else {
                clamped
            },
            None => clamped,
        }
    } else {
        match t.diff_result {
            Some(r) => if d < r.lines@.len() {
                if panel == PanelSide::Base {
                    0
                } else {
                    let nos = two_way_numbers(r.lines@, panel);
                    match nos[d] {
                        Some(n) => n - 1,
                        None => nearest_source(d, nos, count),
                    }
                }
            } else {
                clamped
            },
            None => clamped,
        }
    }
}

/// The first row from row `i` on that shows line `line` (from 0).
pub open spec fn first_row_of(nos: Seq<Option<u32>>, line: int, i: int) -> Option<int>
    decreases nos.len() - i,
{
    if i < 0 || i >= nos.len() {
        None
    } else if nos[i] matches Some(n) && n - 1 == line {
        Some(i)
    } else {
        first_row_of(nos, line, i + 1)
    }
}

/// The row at which line `line` (from 0) of a pane is shown: the first row
/// showing it, else the clicked row kept within the rows; without rows,
/// the clicked row.
pub open spec fn display_index(t: TabState, line: int, panel: PanelSide, clicked: int) -> int {
    let nos = if t.is_three_way {
        match t.three_way_result {
            Some(r) => three_way_numbers(r.lines@, panel),
            None => seq![],
        }
    } else {
        match t.diff_result {
            Some(r) => two_way_numbers(r.lines@, panel),
            None => seq![],
        }
    };
    if nos.len() == 0 {
        clicked
    } else {
        match first_row_of(nos, line, 0) {
            Some(i) => i,
            None => if clicked < nos.len() - 1 { clicked } else { nos.len() - 1 },
        }
    }
}

/// The nearest line to a ghost row (see `nearest_source`).
fn find_nearest_source_line(display_idx: usize, line_nos: &Vec<Option<u32>>, line_count: usize) -> (r: usize)
    requires
        display_idx <= line_nos@.len(),
    ensures
        r as int == nearest_source(display_idx as int, line_nos@, line_count as int),
{
    let mut i: usize = display_idx;
    while i > 0
        invariant
            i <= display_idx <= line_nos@.len(),
            last_some_before(line_nos@, display_idx as int) == last_some_before(line_nos@, i as int),
        decreases i,
    {
        if let Some(n) = line_nos[i - 1] {
            let m = if (n as usize) < line_count { n as usize } else { line_count };
            return if m > 0 { m - 1 } else { 0 };
        }
        i = i - 1;
    }
    let mut i: usize = display_idx;
    while i < line_nos.len()
        invariant
            display_idx <= i <= line_nos@.len(),
            last_some_before(line_nos@, display_idx as int) is None,
            first_some_from(line_nos@, display_idx as int) == first_some_from(line_nos@, i as int),
        decreases line_nos@.len() - i,
    {
        if let Some(n) = line_nos[i] {
            return if n > 0 { (n - 1) as usize } else { 0 };
        }
        i = i + 1;
    }
    if line_count > 0 { line_count - 1 } else { 0 }
}

/// The line numbers a pane shows in the rows of a two-way diff.
fn two_way_line_numbers(lines: &Vec<DiffLine>, panel: PanelSide) -> (r: Vec<Option<u32>>)
    ensures
        r@ == two_way_numbers(lines@, panel),
{
    let mut r: Vec<Option<u32>> = Vec::new();
    let mut k: usize = 0;
    while k < lines.len()
        invariant
            k <= lines@.len(),
            r@ == two_way_numbers(lines@.take(k as int), panel),
        decreases lines@.len() - k,
    {
        let n = match panel {
            PanelSide::Left => lines[k].left_line_no,
            PanelSide::Right => lines[k].right_line_no,
            PanelSide::Base => None,
        };
        r.push(n);
        k = k + 1;
        proof {
            assert(r@ =~= two_way_numbers(lines@.take(k as int), panel));
        }
    }
    proof {
        assert(lines@.take(lines@.len() as int) =~= lines@);
    }
    r
}

/// The line numbers a pane shows in the rows of a three-way merge.
fn three_way_line_numbers(lines: &Vec<ThreeWayLine>, panel: PanelSide) -> (r: Vec<Option<u32>>)
    ensures
        r@ == three_way_numbers(lines@, panel),
{
    let mut r: Vec<Option<u32>> = Vec::new();
    let mut k: usize = 0;
    while k < lines.len()
        invariant
            k <= lines@.len(),
            r@ == three_way_numbers(lines@.take(k as int), panel),
        decreases lines@.len() - k,
    {
        let n = match panel {
            PanelSide::Left => lines[k].left_line_no,
            PanelSide::Right => lines[k].right_line_no,
            PanelSide::Base => lines[k].base_line_no,
        };
        r.push(n);
        k = k + 1;
        proof {
            assert(r@ =~= three_way_numbers(lines@.take(k as int), panel));
        }
    }
    proof {
        assert(lines@.take(lines@.len() as int) =~= lines@);
    }
    r
}

proof fn lemma_first_row_bounds(nos: Seq<Option<u32>>, line: int, i: int)
    ensures
        first_row_of(nos, line, i) matches Some(j) ==> i <= j < nos.len(),
    decreases nos.len() - i,
{
    if 0 <= i < nos.len() {
        lemma_first_row_bounds(nos, line, i + 1);
    }
}

/// The first row showing a line (see `first_row_of`).
fn find_row_of(nos: &Vec<Option<u32>>, line: usize) -> (r: Option<usize>)
    requires
        forall|k: int| 0 <= k < nos@.len() ==> (#[trigger] nos@[k] matches Some(n) ==> n >= 1),
    ensures
        r == match first_row_of(nos@, line as int, 0) {
            Some(i) => Some(i as usize),
            None => None::<usize>,
        },
        r matches Some(i) ==> i < nos@.len(),
{
    let mut i: usize = 0;
    while i < nos.len()
        invariant
            i <= nos@.len(),
            forall|k: int| 0 <= k < nos@.len() ==> (#[trigger] nos@[k] matches Some(n) ==> n >= 1),
            first_row_of(nos@, line as int, 0) == first_row_of(nos@, line as int, i as int),
        decreases nos@.len() - i,
    {
        if let Some(n) = nos[i] {
            if (n - 1) as usize == line {
                return Some(i);
            }
        }
        i = i + 1;
    }
    None
}

/// The lines grown with empty lines to at least `n` lines.
pub open spec fn padded(buf: Seq<Seq<char>>, n: int) -> Seq<Seq<char>> {
    if buf.len() >= n {
        buf
    } else {
        buf + Seq::new((n - buf.len()) as nat, |i: int| Seq::<char>::empty())
    }
}

/// The lines after typing `ch` at column `col` of line `line`.
pub open spec fn typed(buf: Seq<Seq<char>>, line: int, col: int, ch: char) -> Seq<Seq<char>> {
    let q = padded(buf, line + 1);
    q.update(line, insert_char(q[line], col, ch))
}

/// The lines after breaking line `line` at column `col`.
pub open spec fn broken(buf: Seq<Seq<char>>, line: int, col: int) -> Seq<Seq<char>> {
    let q = padded(buf, line + 1);
    let c = clamp_col(q[line].len() as int, col);
    q.update(line, q[line].take(c)).insert(line + 1, q[line].skip(c))
}

/// The lines after joining line `line` to the line before it.
pub open spec fn joined(buf: Seq<Seq<char>>, line: int) -> Seq<Seq<char>> {
    buf.remove(line).update(line - 1, buf[line - 1] + buf[line])
}

/// Grows a buffer with empty lines to at least `n` lines.
fn pad_lines(buf: &mut Vec<String>, n: usize)
    ensures
        lines_of(final(buf)@) == padded(lines_of(old(buf)@), n as int),
{
    let ghost start = lines_of(buf@);
    while buf.len() < n
        invariant
            start.len() <= buf@.len() <= if start.len() >= n { start.len() as int } else { n as int },
            lines_of(buf@) == start + Seq::new((buf@.len() - start.len()) as nat, |i: int| Seq::<char>::empty()),
        decreases n - buf@.len(),
    {
        let ghost before = buf@;
        buf.push(String::new());
        proof {
            assert(lines_of(buf@) =~= lines_of(before).push(Seq::<char>::empty()));
            assert(lines_of(buf@) =~= start + Seq::new((buf@.len() - start.len()) as nat, |i: int| Seq::<char>::empty()));
        }
    }
    proof {
        if start.len() >= n {
            assert(lines_of(buf@) =~= start);
        }
    }
}

/// Types a character into a buffer.
fn buf_type_char(buf: &mut Vec<String>, line: usize, col: usize, ch: char)
    requires
        line < old(buf)@.len() || line == 0,
    ensures
        lines_of(final(buf)@) == typed(lines_of(old(buf)@), line as int, col as int, ch),
{
    assert(line < buf.len() || line == 0);
    pad_lines(buf, line + 1);
    let l = line_insert_char(&buf[line], col, ch);
    let ghost before = buf@;
    buf.set(line, l);
    proof {
        assert(lines_of(buf@) =~= lines_of(before).update(line as int, l@));
    }
}

/// Removes the character at a column of a line of a buffer.
fn buf_remove_char(buf: &mut Vec<String>, line: usize, col: usize)
    requires
        line < old(buf)@.len(),
        col < old(buf)@[line as int]@.len(),
    ensures
        lines_of(final(buf)@) == lines_of(old(buf)@).update(line as int, lines_of(old(buf)@)[line as int].remove(col as int)),
{
    let l = line_remove_char(&buf[line], col);
    let ghost before = buf@;
    buf.set(line, l);
    proof {
        assert(lines_of(buf@) =~= lines_of(before).update(line as int, l@));
    }
}

/// Joins a line of a buffer to the line before it.
fn buf_join(buf: &mut Vec<String>, line: usize)
    requires
        0 < line < old(buf)@.len(),
    ensures
        lines_of(final(buf)@) == joined(lines_of(old(buf)@), line as int),
{
    let ghost before = lines_of(buf@);
    let current = buf.remove(line);
    let merged = concat_str(buf[line - 1].as_str(), current.as_str());
    let ghost mid = buf@;
    buf.set(line - 1, merged);
    proof {
        assert(lines_of(mid) =~= before.remove(line as int));
        assert(lines_of(buf@) =~= lines_of(mid).update(line - 1, merged@));
    }
}

/// Breaks a line of a buffer at a column.
fn buf_break(buf: &mut Vec<String>, line: usize, col: usize)
    requires
        line < old(buf)@.len() || line == 0,
    ensures
        lines_of(final(buf)@) == broken(lines_of(old(buf)@), line as int, col as int),
{
    assert(line < buf.len() || line == 0);
    pad_lines(buf, line + 1);
    let ghost q = lines_of(buf@);
    let (first, rest) = line_split(&buf[line], col);
    buf.set(line, first);
    let ghost mid = buf@;
    buf.insert(line + 1, rest);
    proof {
        assert(lines_of(mid) =~= q.update(line as int, first@));
        assert(lines_of(buf@) =~= lines_of(mid).insert(line + 1, rest@));
    }
}

/// Goes back to the latest snapshot, keeping the buffers to redo to;
/// unsaved changes remain while there is more to undo.
pub open spec fn undo_spec(before: TabState, after: TabState) -> bool {
    &&& before.undo_view().len() == 0 ==> after == before
    &&& before.undo_view().len() > 0 ==> {
        &&& after.texts() == before.undo_view().last()
        &&& after.undo_view() == before.undo_view().drop_last()
        &&& after.redo_view() == before.redo_view().push(before.texts())
        &&& after.has_unsaved_changes == (after.undo_view().len() > 0)
        &&& after.recomputed(before.current_diff, before.scroll_offset, true)
        &&& after.left_path == before.left_path
        &&& after.right_path == before.right_path
        &&& after.base_path == before.base_path
        &&& after.is_three_way == before.is_three_way
        &&& after.is_dir_compare == before.is_dir_compare
        &&& after.dir_result == before.dir_result
        &&& after.diff_options == before.diff_options
        &&& after.select_all == before.select_all
        &&& after.h_scroll == before.h_scroll
        &&& after.wf()
        &&& after.numbers_fit()
    }
    &&& after.fits()
}

/// Goes forward to the latest undone snapshot, keeping the buffers to
/// undo to; leaves unsaved changes.
pub open spec fn redo_spec(before: TabState, after: TabState) -> bool {
    &&& before.redo_view().len() == 0 ==> after == before
    &&& before.redo_view().len() > 0 ==> {
        &&& after.texts() == before.redo_view().last()
        &&& after.redo_view() == before.redo_view().drop_last()
        &&& after.undo_view() == before.undo_view().push(before.texts())
        &&& after.has_unsaved_changes
        &&& after.recomputed(before.current_diff, before.scroll_offset, true)
        &&& after.left_path == before.left_path
        &&& after.right_path == before.right_path
        &&& after.base_path == before.base_path
        &&& after.is_three_way == before.is_three_way
        &&& after.is_dir_compare == before.is_dir_compare
        &&& after.dir_result == before.dir_result
        &&& after.diff_options == before.diff_options
        &&& after.select_all == before.select_all
        &&& after.h_scroll == before.h_scroll
        &&& after.wf()
        &&& after.numbers_fit()
    }
    &&& after.fits()
}

/// Copies the current block from the left pane: to the right pane in a
/// two-way tab, into the base in a three-way tab.
pub open spec fn copy_left_to_right_spec(before: TabState, after: TabState) -> bool {
    &&& copy_step(before, after, true)
    &&& after.wf()
    &&& after.fits()
    &&& after.numbers_fit()
}

/// Copies the current block from the right pane: to the left pane in a
/// two-way tab, into the base in a three-way tab.
pub open spec fn copy_right_to_left_spec(before: TabState, after: TabState) -> bool {
    &&& copy_step(before, after, false)
    &&& after.wf()
    &&& after.fits()
    &&& after.numbers_fit()
}

/// Copies the current block from the left pane and moves to the next
/// difference.
pub open spec fn copy_left_to_right_and_next_spec(before: TabState, after: TabState) -> bool {
    &&& after.wf()
    &&& after.fits()
    &&& after.numbers_fit()
    &&& exists|mid: TabState| #[trigger] copy_step(before, mid, true) && next_diff_of(mid, after)
}

/// Copies the current block from the right pane and moves to the next
/// difference.
pub open spec fn copy_right_to_left_and_next_spec(before: TabState, after: TabState) -> bool {
    &&& after.wf()
    &&& after.fits()
    &&& after.numbers_fit()
    &&& exists|mid: TabState| #[trigger] copy_step(before, mid, false) && next_diff_of(mid, after)
}

/// Copies the whole left pane: over the right pane in a two-way tab,
/// over the base in a three-way tab.
pub open spec fn copy_all_left_to_right_spec(before: TabState, after: TabState) -> bool {
    &&& before.is_three_way ==> after.changed_to(&before, before.left_buf@, before.left_buf@, before.right_buf@, true)
    &&& !before.is_three_way ==> after.changed_to(&before, before.left_buf@, before.base_buf@, before.left_buf@, true)
    &&& after.wf()
    &&& after.fits()
    &&& after.numbers_fit()
}

/// Copies the whole right pane: over the left pane in a two-way tab,
/// over the base in a three-way tab.
pub open spec fn copy_all_right_to_left_spec(before: TabState, after: TabState) -> bool {
    &&& before.is_three_way ==> after.changed_to(&before, before.left_buf@, before.right_buf@, before.right_buf@, true)
    &&& !before.is_three_way ==> after.changed_to(&before, before.right_buf@, before.base_buf@, before.right_buf@, true)
    &&& after.wf()
    &&& after.fits()
    &&& after.numbers_fit()
}

/// Switches ignoring whitespace; the diff is recomputed when one is
/// shown.
pub open spec fn toggle_ignore_whitespace_spec(before: TabState, after: TabState) -> bool {
    &&& after.diff_options.ignore_whitespace == !before.diff_options.ignore_whitespace
    &&& after.diff_options.ignore_case == before.diff_options.ignore_case
    &&& after.diff_options.ignore_blank_lines == before.diff_options.ignore_blank_lines
    &&& after.left_buf@ == before.left_buf@
    &&& after.right_buf@ == before.right_buf@
    &&& after.base_buf@ == before.base_buf@
    &&& after.undo_view() == before.undo_view()
    &&& after.redo_view() == before.redo_view()
    &&& after.has_unsaved_changes == before.has_unsaved_changes
    &&& (before.diff_result is Some || before.three_way_result is Some) ==> after.recomputed(
        before.current_diff,
        before.scroll_offset,
        true,
    )
    &&& !(before.diff_result is Some || before.three_way_result is Some) ==> after.same_view(&before)
    &&& after.wf()
    &&& after.fits()
}

/// Switches ignoring case; the diff is recomputed when one is shown.
pub open spec fn toggle_ignore_case_spec(before: TabState, after: TabState) -> bool {
    &&& after.diff_options.ignore_case == !before.diff_options.ignore_case
    &&& after.diff_options.ignore_whitespace == before.diff_options.ignore_whitespace
    &&& after.diff_options.ignore_blank_lines == before.diff_options.ignore_blank_lines
    &&& after.left_buf@ == before.left_buf@
    &&& after.right_buf@ == before.right_buf@
    &&& after.base_buf@ == before.base_buf@
    &&& after.undo_view() == before.undo_view()
    &&& after.redo_view() == before.redo_view()
    &&& after.has_unsaved_changes == before.has_unsaved_changes
    &&& (before.diff_result is Some || before.three_way_result is Some) ==> after.recomputed(
        before.current_diff,
        before.scroll_offset,
        true,
    )
    &&& !(before.diff_result is Some || before.three_way_result is Some) ==> after.same_view(&before)
    &&& after.wf()
    &&& after.fits()
}

/// Empties the tab for new, unnamed texts (three of them when
/// `is_three_way`), showing their diff.
pub open spec fn new_blank_spec(before: TabState, after: TabState, is_three_way: bool) -> bool {
    &&& after.left_buf@.len() == 0
    &&& after.right_buf@.len() == 0
    &&& after.base_buf@.len() == 0
    &&& after.left_path is None && after.right_path is None && after.base_path is None
    &&& after.is_three_way == is_three_way
    &&& !after.is_dir_compare && after.dir_result is None
    &&& !after.has_unsaved_changes
    &&& after.h_scroll == 0
    &&& after.undo_view().len() == 0 && after.redo_view().len() == 0
    &&& after.diff_options == before.diff_options
    &&& after.select_all == before.select_all
    &&& after.recomputed(before.current_diff, before.scroll_offset, true)
    &&& after.wf()
    &&& after.fits()
    &&& after.numbers_fit()
}

/// Opens two files for a two-way diff, given their paths and contents
/// (a file that could not be read counts as empty).
pub open spec fn open_files_spec(before: TabState, after: TabState, left: String, right: String, left_content: &str, right_content: &str) -> bool {
    &&& lines_of(after.left_buf@) == spec_str_to_lines(left_content@)
    &&& lines_of(after.right_buf@) == spec_str_to_lines(right_content@)
    &&& lines_of(after.base_buf@) == seq![Seq::<char>::empty()]
    &&& after.left_path == Some(left)
    &&& after.right_path == Some(right)
    &&& after.base_path is None
    &&& !after.is_three_way
    &&& after.is_dir_compare == before.is_dir_compare
    &&& after.dir_result == before.dir_result
    &&& !after.has_unsaved_changes
    &&& after.h_scroll == 0
    &&& after.undo_view().len() == 0 && after.redo_view().len() == 0
    &&& after.diff_options == before.diff_options
    &&& after.select_all == before.select_all
    &&& after.recomputed(before.current_diff, before.scroll_offset, true)
    &&& after.wf()
    &&& after.fits()
    &&& after.numbers_fit()
}

/// Opens three files for a three-way merge, given their paths and
/// contents (a file that could not be read counts as empty).
pub open spec fn open_files_3way_spec(before: TabState, after: TabState, left: String, base: String, right: String, left_content: &str, base_content: &str, right_content: &str) -> bool {
    &&& lines_of(after.left_buf@) == spec_str_to_lines(left_content@)
    &&& lines_of(after.base_buf@) == spec_str_to_lines(base_content@)
    &&& lines_of(after.right_buf@) == spec_str_to_lines(right_content@)
    &&& after.left_path == Some(left)
    &&& after.base_path == Some(base)
    &&& after.right_path == Some(right)
    &&& after.is_three_way
    &&& after.is_dir_compare == before.is_dir_compare
    &&& after.dir_result == before.dir_result
    &&& !after.has_unsaved_changes
    &&& after.h_scroll == 0
    &&& after.undo_view().len() == 0 && after.redo_view().len() == 0
    &&& after.diff_options == before.diff_options
    &&& after.select_all == before.select_all
    &&& after.recomputed(before.current_diff, before.scroll_offset, true)
    &&& after.wf()
    &&& after.fits()
    &&& after.numbers_fit()
}

/// Shows a comparison of two directories, given their paths and the
/// comparison.
pub open spec fn open_dirs_spec(before: TabState, after: TabState, left: String, right: String, result: DirCompareResult) -> bool {
    &&& after.left_path == Some(left)
    &&& after.right_path == Some(right)
    &&& after.base_path is None
    &&& after.left_buf@.len() == 0 && after.right_buf@.len() == 0 && after.base_buf@.len() == 0
    &&& after.diff_result is None && after.three_way_result is None
    &&& !after.is_three_way
    &&& after.is_dir_compare
    &&& after.dir_result == Some(result)
    &&& !after.has_unsaved_changes
    &&& after.h_scroll == 0 && after.scroll_offset == 0
    &&& after.undo_view().len() == 0 && after.redo_view().len() == 0
    &&& after.current_diff == before.current_diff
    &&& after.edit_state == before.edit_state
    &&& after.diff_options == before.diff_options
    &&& after.select_all == before.select_all
}

/// Starts editing a pane at a clicked row and column: the line the row
/// stands for (kept within the pane), shown at the first row showing
/// it, with the cursor kept within the line; the buffers are recorded
/// for undo.
pub open spec fn enter_edit_mode_spec(before: TabState, after: TabState, panel: PanelSide, display_line: usize, col: usize) -> bool {
    &&& ({
        let len = before.pane(panel).len() as int;
        let sl0 = resolved_source(before, display_line as int, panel);
        let sl = if sl0 < dec_sat(len) { sl0 } else { dec_sat(len) };
        let dl = display_index(before, sl, panel, display_line as int);
        let ll = if sl < len { before.pane(panel)[sl].len() as int } else { 0 };
        after.edit_state == Some(EditState {
            panel,
            source_line: sl as usize,
            display_line: dl as usize,
            cursor_col: (if (col as int) < ll { col as int } else { ll }) as usize,
            dirty: false,
        })
    })
    &&& after.undo_view() == before.undo_view().push(before.texts())
    &&& after.redo_view().len() == 0
    &&& after.left_buf@ == before.left_buf@
    &&& after.right_buf@ == before.right_buf@
    &&& after.base_buf@ == before.base_buf@
    &&& after.left_path == before.left_path
    &&& after.right_path == before.right_path
    &&& after.base_path == before.base_path
    &&& after.diff_result == before.diff_result
    &&& after.three_way_result == before.three_way_result
    &&& after.is_three_way == before.is_three_way
    &&& after.is_dir_compare == before.is_dir_compare
    &&& after.dir_result == before.dir_result
    &&& after.diff_options == before.diff_options
    &&& after.current_diff == before.current_diff
    &&& after.scroll_offset == before.scroll_offset
    &&& after.h_scroll == before.h_scroll
    &&& after.has_unsaved_changes == before.has_unsaved_changes
    &&& after.select_all == before.select_all
    &&& after.wf()
    &&& after.fits()
}

/// Stops editing. When something was typed, the tab has unsaved changes
/// and its diff is recomputed, keeping the position; otherwise the
/// snapshot recorded on entering is dropped.
pub open spec fn exit_edit_mode_spec(before: TabState, after: TabState) -> bool {
    &&& (before.edit_state matches Some(e) && e.dirty) ==> {
        &&& after.has_unsaved_changes
        &&& after.recomputed(before.current_diff, before.scroll_offset, false)
        &&& after.left_buf@ == before.left_buf@
        &&& after.right_buf@ == before.right_buf@
        &&& after.base_buf@ == before.base_buf@
        &&& after.undo_view() == before.undo_view()
        &&& after.redo_view() == before.redo_view()
        &&& after.numbers_fit()
    }
    &&& !(before.edit_state matches Some(e) && e.dirty) ==> {
        &&& after.edit_state is None
        &&& before.undo_view().len() > 0 ==> after.undo_view() == before.undo_view().drop_last()
        &&& before.undo_view().len() == 0 ==> after.undo_view() == before.undo_view()
        &&& after.redo_view() == before.redo_view()
        &&& after.left_buf@ == before.left_buf@
        &&& after.right_buf@ == before.right_buf@
        &&& after.base_buf@ == before.base_buf@
        &&& after.has_unsaved_changes == before.has_unsaved_changes
        &&& after.diff_result == before.diff_result
        &&& after.three_way_result == before.three_way_result
        &&& after.current_diff == before.current_diff
        &&& after.scroll_offset == before.scroll_offset
    }
    &&& after.left_path == before.left_path
    &&& after.right_path == before.right_path
    &&& after.base_path == before.base_path
    &&& after.is_three_way == before.is_three_way
    &&& after.is_dir_compare == before.is_dir_compare
    &&& after.dir_result == before.dir_result
    &&& after.diff_options == before.diff_options
    &&& after.h_scroll == before.h_scroll
    &&& after.select_all == before.select_all
    &&& after.wf()
    &&& after.fits()
}

/// Types a character at the cursor, which moves past it; a pane with
/// no lines gets one first.
pub open spec fn edit_insert_char_spec(before: TabState, after: TabState, ch: char) -> bool {
    &&& before.edit_state is None ==> after == before
    &&& before.edit_state matches Some(e) ==> {
        &&& after.pane(e.panel) == typed(before.pane(e.panel), e.source_line as int, e.cursor_col as int, ch)
        &&& after.edit_state == Some(EditState { cursor_col: (e.cursor_col + 1) as usize, dirty: true, ..e })
        &&& after.edited_from(&before, e.panel)
    }
    &&& after.wf()
}

/// Deletes the character before the cursor; at the start of a line,
/// joins the line to the one before it (unless it is the pane's only
/// line), the cursor going to the join.
pub open spec fn edit_backspace_spec(before: TabState, after: TabState) -> bool {
    &&& before.edit_state is None ==> after == before
    &&& before.edit_state matches Some(e) ==> {
        let p = before.pane(e.panel);
        let sl = e.source_line as int;
        &&& e.cursor_col > 0 ==> {
            &&& after.pane(e.panel) == p.update(sl, p[sl].remove(e.cursor_col - 1))
            &&& after.edit_state == Some(EditState { cursor_col: (e.cursor_col - 1) as usize, dirty: true, ..e })
        }
        &&& (e.cursor_col == 0 && sl > 0 && p.len() > 1) ==> {
            &&& after.pane(e.panel) == joined(p, sl)
            &&& after.edit_state == Some(EditState {
                source_line: (sl - 1) as usize,
                cursor_col: p[sl - 1].len() as usize,
                display_line: (if e.display_line > 0 { e.display_line - 1 } else { 0 }) as usize,
                dirty: true,
                ..e
            })
        }
        &&& !(e.cursor_col > 0 || (sl > 0 && p.len() > 1)) ==> after == before
        &&& after.edited_from(&before, e.panel)
    }
    &&& after.wf()
}

/// Deletes the character at the cursor; at the end of a line, joins
/// the next line to it.
pub open spec fn edit_delete_spec(before: TabState, after: TabState) -> bool {
    &&& before.edit_state is None ==> after == before
    &&& before.edit_state matches Some(e) ==> {
        let p = before.pane(e.panel);
        let sl = e.source_line as int;
        let ll = if sl < p.len() { p[sl].len() as int } else { 0 };
        &&& e.cursor_col < ll ==> {
            &&& after.pane(e.panel) == p.update(sl, p[sl].remove(e.cursor_col as int))
            &&& after.edit_state == Some(EditState { dirty: true, ..e })
        }
        &&& (e.cursor_col >= ll && sl + 1 < p.len()) ==> {
            &&& after.pane(e.panel) == joined(p, sl + 1)
            &&& after.edit_state == Some(EditState { dirty: true, ..e })
        }
        &&& !(e.cursor_col < ll || sl + 1 < p.len()) ==> after == before
        &&& after.edited_from(&before, e.panel)
    }
    &&& after.wf()
}

/// Breaks the line at the cursor; the cursor goes to the start of the
/// new line.
pub open spec fn edit_enter_spec(before: TabState, after: TabState) -> bool {
    &&& before.edit_state is None ==> after == before
    &&& before.edit_state matches Some(e) ==> {
        &&& after.pane(e.panel) == broken(before.pane(e.panel), e.source_line as int, e.cursor_col as int)
        &&& after.edit_state == Some(EditState {
            source_line: (e.source_line + 1) as usize,
            display_line: (e.display_line + 1) as usize,
            cursor_col: 0,
            dirty: true,
            ..e
        })
        &&& after.edited_from(&before, e.panel)
    }
    &&& after.wf()
}

/// Moves the cursor one character left, stopping at the line's start.
pub open spec fn edit_move_left_spec(before: TabState, after: TabState) -> bool {
    &&& before.edit_state is None ==> after == before
    &&& before.edit_state matches Some(e) ==> after.edit_state == Some(EditState {
        cursor_col: (if e.cursor_col > 0 { e.cursor_col - 1 } else { 0 }) as usize,
        ..e
    })
    &&& before.edit_state matches Some(e) ==> after.edited_from(&before, e.panel)
    &&& after.pane(PanelSide::Left) == before.pane(PanelSide::Left)
    &&& after.pane(PanelSide::Right) == before.pane(PanelSide::Right)
    &&& after.pane(PanelSide::Base) == before.pane(PanelSide::Base)
    &&& after.wf()
}

/// Moves the cursor one character right, stopping at the line's end.
pub open spec fn edit_move_right_spec(before: TabState, after: TabState) -> bool {
    &&& before.edit_state is None ==> after == before
    &&& before.edit_state matches Some(e) ==> {
        let p = before.pane(e.panel);
        let ll = if (e.source_line as int) < p.len() { p[e.source_line as int].len() as int } else { 0 };
        after.edit_state == Some(EditState {
            cursor_col: (if e.cursor_col < ll { e.cursor_col + 1 } else { e.cursor_col as int }) as usize,
            ..e
        })
    }
    &&& before.edit_state matches Some(e) ==> after.edited_from(&before, e.panel)
    &&& after.pane(PanelSide::Left) == before.pane(PanelSide::Left)
    &&& after.pane(PanelSide::Right) == before.pane(PanelSide::Right)
    &&& after.pane(PanelSide::Base) == before.pane(PanelSide::Base)
    &&& after.wf()
}

/// Moves the cursor to the line above, keeping its column within that
/// line.
pub open spec fn edit_move_up_spec(before: TabState, after: TabState) -> bool {
    &&& before.edit_state is None ==> after == before
    &&& before.edit_state matches Some(e) ==> {
        let p = before.pane(e.panel);
        &&& e.source_line > 0 ==> {
            let ll = p[e.source_line - 1].len() as int;
            after.edit_state == Some(EditState {
                source_line: (e.source_line - 1) as usize,
                display_line: (if e.display_line > 0 { e.display_line - 1 } else { 0 }) as usize,
                cursor_col: (if (e.cursor_col as int) < ll { e.cursor_col as int } else { ll }) as usize,
                ..e
            })
        }
        &&& e.source_line == 0 ==> after == before
        &&& after.edited_from(&before, e.panel)
    }
    &&& after.pane(PanelSide::Left) == before.pane(PanelSide::Left)
    &&& after.pane(PanelSide::Right) == before.pane(PanelSide::Right)
    &&& after.pane(PanelSide::Base) == before.pane(PanelSide::Base)
    &&& after.wf()
}

/// Moves the cursor to the line below, when there is one, keeping its
/// column within that line.
pub open spec fn edit_move_down_spec(before: TabState, after: TabState) -> bool {
    &&& before.edit_state is None ==> after == before
    &&& before.edit_state matches Some(e) ==> {
        let p = before.pane(e.panel);
        &&& e.source_line + 1 < p.len() ==> {
            let ll = p[e.source_line + 1].len() as int;
            after.edit_state == Some(EditState {
                source_line: (e.source_line + 1) as usize,
                display_line: (e.display_line + 1) as usize,
                cursor_col: (if (e.cursor_col as int) < ll { e.cursor_col as int } else { ll }) as usize,
                ..e
            })
        }
        &&& e.source_line + 1 >= p.len() ==> after == before
        &&& after.edited_from(&before, e.panel)
    }
    &&& after.pane(PanelSide::Left) == before.pane(PanelSide::Left)
    &&& after.pane(PanelSide::Right) == before.pane(PanelSide::Right)
    &&& after.pane(PanelSide::Base) == before.pane(PanelSide::Base)
    &&& after.wf()
}

/// Moves the cursor to the start of the line.
pub open spec fn edit_move_home_spec(before: TabState, after: TabState) -> bool {
    &&& before.edit_state is None ==> after == before
    &&& before.edit_state matches Some(e) ==> after.edit_state == Some(EditState { cursor_col: 0, ..e })
    &&& before.edit_state matches Some(e) ==> after.edited_from(&before, e.panel)
    &&& after.pane(PanelSide::Left) == before.pane(PanelSide::Left)
    &&& after.pane(PanelSide::Right) == before.pane(PanelSide::Right)
    &&& after.pane(PanelSide::Base) == before.pane(PanelSide::Base)
    &&& after.wf()
}

/// Moves the cursor to the end of the line.
pub open spec fn edit_move_end_spec(before: TabState, after: TabState) -> bool {
    &&& before.edit_state is None ==> after == before
    &&& before.edit_state matches Some(e) ==> {
        let p = before.pane(e.panel);
        let ll = if (e.source_line as int) < p.len() { p[e.source_line as int].len() as int } else { 0 };
        after.edit_state == Some(EditState { cursor_col: ll as usize, ..e })
    }
    &&& before.edit_state matches Some(e) ==> after.edited_from(&before, e.panel)
    &&& after.pane(PanelSide::Left) == before.pane(PanelSide::Left)
    &&& after.pane(PanelSide::Right) == before.pane(PanelSide::Right)
    &&& after.pane(PanelSide::Base) == before.pane(PanelSide::Base)
    &&& after.wf()
}

/// Makes the next difference current (staying on the last one) and
/// scrolls to it.
pub open spec fn next_diff_spec(before: TabState, after: TabState) -> bool {
    &&& before.spec_diff_count() == 0 ==> after == before
    &&& before.spec_diff_count() > 0 ==> {
        let m = before.spec_diff_count() - 1;
        &&& after.current_diff == if before.current_diff + 1 < m { before.current_diff + 1 } else { m }
        &&& after.scroll_offset == scroll_target(before.scroll_offset, after)
    }
    &&& after.same_document(&before)
    &&& after.diff_result == before.diff_result
    &&& after.three_way_result == before.three_way_result
    &&& after.h_scroll == before.h_scroll
    &&& after.edit_state == before.edit_state
    &&& after.wf()
}

/// Makes the previous difference current (staying on the first one)
/// and scrolls to it.
pub open spec fn prev_diff_spec(before: TabState, after: TabState) -> bool {
    &&& before.spec_diff_count() == 0 ==> after == before
    &&& before.spec_diff_count() > 0 ==> {
        &&& after.current_diff == if before.current_diff - 1 > 0 { before.current_diff - 1 } else { 0 }
        &&& after.scroll_offset == scroll_target(before.scroll_offset, after)
    }
    &&& after.same_document(&before)
    &&& after.diff_result == before.diff_result
    &&& after.three_way_result == before.three_way_result
    &&& after.h_scroll == before.h_scroll
    &&& after.edit_state == before.edit_state
    &&& after.wf()
}

/// Makes the first difference current and scrolls to it.
pub open spec fn first_diff_spec(before: TabState, after: TabState) -> bool {
    &&& before.spec_diff_count() == 0 ==> after == before
    &&& before.spec_diff_count() > 0 ==> {
        &&& after.current_diff == 0
        &&& after.scroll_offset == scroll_target(before.scroll_offset, after)
    }
    &&& after.same_document(&before)
    &&& after.diff_result == before.diff_result
    &&& after.three_way_result == before.three_way_result
    &&& after.h_scroll == before.h_scroll
    &&& after.edit_state == before.edit_state
    &&& after.wf()
}

/// Makes the last difference current and scrolls to it.
pub open spec fn last_diff_spec(before: TabState, after: TabState) -> bool {
    &&& before.spec_diff_count() == 0 ==> after == before
    &&& before.spec_diff_count() > 0 ==> {
        &&& after.current_diff == before.spec_diff_count() - 1
        &&& after.scroll_offset == scroll_target(before.scroll_offset, after)
    }
    &&& after.same_document(&before)
    &&& after.diff_result == before.diff_result
    &&& after.three_way_result == before.three_way_result
    &&& after.h_scroll == before.h_scroll
    &&& after.edit_state == before.edit_state
    &&& after.wf()
}

/// Scrolls down by `amount` rows, stopping at the last row.
pub open spec fn scroll_down_spec(before: TabState, after: TabState, amount: usize) -> bool {
    &&& ({
        let total = spec_total_lines(before);
        let max = if total > 0 { total - 1 } else { 0 };
        after.scroll_offset == if before.scroll_offset + amount < max {
            before.scroll_offset + amount
        } else {
            max
        }
    })
    &&& after.same_document(&before)
    &&& after.diff_result == before.diff_result
    &&& after.three_way_result == before.three_way_result
    &&& after.current_diff == before.current_diff
    &&& after.h_scroll == before.h_scroll
    &&& after.edit_state == before.edit_state
}

/// Scrolls up by `amount` rows, stopping at the first row.
pub open spec fn scroll_up_spec(before: TabState, after: TabState, amount: usize) -> bool {
    &&& after.scroll_offset == if before.scroll_offset >= amount { before.scroll_offset - amount } else { 0 }
    &&& after.same_document(&before)
    &&& after.diff_result == before.diff_result
    &&& after.three_way_result == before.three_way_result
    &&& after.current_diff == before.current_diff
    &&& after.h_scroll == before.h_scroll
    &&& after.edit_state == before.edit_state
}

/// Scrolls right by `amount` columns, saturating.
pub open spec fn h_scroll_right_spec(before: TabState, after: TabState, amount: usize) -> bool {
    &&& after.h_scroll == if before.h_scroll + amount <= usize::MAX { (before.h_scroll + amount) as usize } else { usize::MAX }
    &&& after.same_document(&before)
    &&& after.diff_result == before.diff_result
    &&& after.three_way_result == before.three_way_result
    &&& after.current_diff == before.current_diff
    &&& after.scroll_offset == before.scroll_offset
    &&& after.edit_state == before.edit_state
}

/// Scrolls left by `amount` columns, stopping at the first column.
pub open spec fn h_scroll_left_spec(before: TabState, after: TabState, amount: usize) -> bool {
    &&& after.h_scroll == if before.h_scroll >= amount { before.h_scroll - amount } else { 0 }
    &&& after.same_document(&before)
    &&& after.diff_result == before.diff_result
    &&& after.three_way_result == before.three_way_result
    &&& after.current_diff == before.current_diff
    &&& after.scroll_offset == before.scroll_offset
    &&& after.edit_state == before.edit_state
}

/// Recomputes the shown diff, making the first difference current.
pub open spec fn recompute_diff_spec(before: TabState, after: TabState) -> bool {
    &&& after.recomputed(before.current_diff, before.scroll_offset, true)
    &&& after.same_document(&before)
    &&& after.h_scroll == before.h_scroll
    &&& after.wf()
    &&& after.fits()
    &&& after.numbers_fit()
}

/// Whether a tab fits depends on its buffers and history alone.
proof fn lemma_fits_same_buffers(a: &TabState, b: &TabState)
    requires
        a.fits(),
        b.left_buf@ == a.left_buf@,
        b.right_buf@ == a.right_buf@,
        b.base_buf@ == a.base_buf@,
        b.undo_view() == a.undo_view(),
        b.redo_view() == a.redo_view(),
    ensures
        b.fits(),
{
    assert(b.texts() == a.texts());
    assert forall|k: int| 0 <= k < b.undo_view().len() implies #[trigger] texts_fit(b.undo_view()[k]) by {
        assert(texts_fit(a.undo_view()[k]));
    }
    assert forall|k: int| 0 <= k < b.redo_view().len() implies #[trigger] texts_fit(b.redo_view()[k]) by {
        assert(texts_fit(a.redo_view()[k]));
    }
}

/// Whether a tab fits depends on its document alone.
proof fn lemma_fits_same_document(a: &TabState, b: &TabState)
    requires
        a.fits(),
        b.same_document(a),
    ensures
        b.fits(),
{
    assert(b.texts() == a.texts());
    assert forall|k: int| 0 <= k < b.undo_view().len() implies #[trigger] texts_fit(b.undo_view()[k]) by {
        assert(texts_fit(a.undo_view()[k]));
    }
    assert forall|k: int| 0 <= k < b.redo_view().len() implies #[trigger] texts_fit(b.redo_view()[k]) by {
        assert(texts_fit(a.redo_view()[k]));
    }
}

impl TabState {
    /// Recomputes the shown diff from the buffers (see `recomputed`).
    fn recompute_diff_inner(&mut self, reset_position: bool)
        requires
            old(self).fits(),
            -1 <= old(self).current_diff < i32::MAX,
        ensures
            final(self).recomputed(old(self).current_diff, old(self).scroll_offset, reset_position),
            final(self).same_document(&*old(self)),
            final(self).h_scroll == old(self).h_scroll,
            final(self).wf(),
            final(self).fits(),
            final(self).numbers_fit(),
    {
        self.edit_state = None;
        if self.is_three_way {
            let result = compute_three_way_diff(&self.base_buf, &self.left_buf, &self.right_buf);
            let count = result.diff_positions.len() as i32;
            if reset_position {
                self.current_diff = if result.diff_positions.len() > 0 { 0 } else { -1 };
            } else {
                if self.current_diff >= count {
                    self.current_diff = count - 1;
                }
            }
            self.three_way_result = Some(result);
            self.diff_result = None;
        } else {
            let result = compute_diff_lines(&self.left_buf, &self.right_buf, &self.diff_options);
            let count = result.diff_count as i32;
            if reset_position {
                self.current_diff = if result.diff_count > 0 { 0 } else { -1 };
            } else {
                if self.current_diff >= count {
                    self.current_diff = count - 1;
                }
            }
            self.diff_result = Some(result);
            self.three_way_result = None;
        }
        if reset_position {
            self.scroll_to_current_diff();
        }
        proof {
            lemma_fits_same_document(&*old(self), &*self);
        }
    }

    /// Whether there is nothing to undo.
    pub fn undo_stack_is_empty(&self) -> (b: bool)
        ensures
            b == (self.undo_view().len() == 0),
    {
        self.history.undo_is_empty()
    }

    /// A snapshot of the buffers.
    fn snapshot(&self) -> (s: TextSnapshot)
        ensures
            snapshot_texts(s) == self.texts(),
    {
        TextSnapshot {
            left_buf: copy_lines(&self.left_buf),
            right_buf: copy_lines(&self.right_buf),
            base_buf: copy_lines(&self.base_buf),
        }
    }

    /// Records the buffers to undo to, forgetting what could be redone.
    fn push_undo(&mut self)
        requires
            old(self).fits(),
        ensures
            final(self).undo_view() == old(self).undo_view().push(old(self).texts()),
            final(self).redo_view().len() == 0,
            final(self).texts() == old(self).texts(),
            final(self).left_buf@ == old(self).left_buf@,
            final(self).right_buf@ == old(self).right_buf@,
            final(self).base_buf@ == old(self).base_buf@,
            final(self).fits(),
            final(self).same_view(&*old(self)),
            final(self).left_path == old(self).left_path,
            final(self).right_path == old(self).right_path,
            final(self).base_path == old(self).base_path,
            final(self).is_three_way == old(self).is_three_way,
            final(self).is_dir_compare == old(self).is_dir_compare,
            final(self).dir_result == old(self).dir_result,
            final(self).diff_options == old(self).diff_options,
            final(self).has_unsaved_changes == old(self).has_unsaved_changes,
            final(self).select_all == old(self).select_all,
    {
        let s = self.snapshot();
        self.history.record(s);
        proof {
            assert forall|k: int| 0 <= k < self.undo_view().len() implies #[trigger] texts_fit(self.undo_view()[k]) by {
                if k < old(self).undo_view().len() {
                    assert(texts_fit(old(self).undo_view()[k]));
                }
            }
        }
    }

    /// Goes back to the latest snapshot, keeping the buffers to redo to;
    /// unsaved changes remain while there is more to undo.
    pub fn undo(&mut self)
        requires
            old(self).fits(),
            -1 <= old(self).current_diff < i32::MAX,
        ensures
            undo_spec(*old(self), *final(self)),
    {
        if self.history.undo_is_empty() {
            return;
        }
        let current = self.snapshot();
        let popped = self.history.pop_undo();
        if let Some(snapshot) = popped {
            self.history.push_redo(current);
            self.left_buf = snapshot.left_buf;
            self.right_buf = snapshot.right_buf;
            self.base_buf = snapshot.base_buf;
            proof {
                assert(texts_fit(old(self).undo_view()[old(self).undo_view().len() - 1]));
                assert forall|k: int| 0 <= k < self.undo_view().len() implies #[trigger] texts_fit(self.undo_view()[k]) by {
                    assert(texts_fit(old(self).undo_view()[k]));
                }
                assert forall|k: int| 0 <= k < self.redo_view().len() implies #[trigger] texts_fit(self.redo_view()[k]) by {
                    if k < old(self).redo_view().len() {
                        assert(texts_fit(old(self).redo_view()[k]));
                    }
                }
            }
            self.recompute_diff();
            self.has_unsaved_changes = !self.history.undo_is_empty();
        }
    }

    /// Goes forward to the latest undone snapshot, keeping the buffers to
    /// undo to; leaves unsaved changes.
    pub fn redo(&mut self)
        requires
            old(self).fits(),
            -1 <= old(self).current_diff < i32::MAX,
        ensures
            redo_spec(*old(self), *final(self)),
    {
        if self.history.redo_is_empty() {
            return;
        }
        let current = self.snapshot();
        let popped = self.history.pop_redo();
        if let Some(snapshot) = popped {
            self.history.push_undo(current);
            self.left_buf = snapshot.left_buf;
            self.right_buf = snapshot.right_buf;
            self.base_buf = snapshot.base_buf;
            proof {
                assert(texts_fit(old(self).redo_view()[old(self).redo_view().len() - 1]));
                assert forall|k: int| 0 <= k < self.redo_view().len() implies #[trigger] texts_fit(self.redo_view()[k]) by {
                    assert(texts_fit(old(self).redo_view()[k]));
                }
                assert forall|k: int| 0 <= k < self.undo_view().len() implies #[trigger] texts_fit(self.undo_view()[k]) by {
                    if k < old(self).undo_view().len() {
                        assert(texts_fit(old(self).undo_view()[k]));
                    }
                }
            }
            self.recompute_diff();
            self.has_unsaved_changes = true;
        }
    }

    /// Copies the current block (see `copied_buffers`).
    fn copy_current_block(&mut self, to_right: bool)
        requires
            old(self).wf(),
            old(self).fits(),
            old(self).numbers_fit(),
        ensures
            copy_step(*old(self), *final(self), to_right),
            final(self).wf(),
            final(self).fits(),
            final(self).numbers_fit(),
    {
        if self.current_diff < 0 {
            return;
        }
        let block_idx = self.current_diff as usize;
        if self.is_three_way {
            let new_base = match &self.three_way_result {
                Some(r) => if block_idx < r.diff_positions.len() {
                    let start = r.diff_positions[block_idx];
                    let from = if to_right { Pane::Left } else { Pane::Right };
                    let src = if to_right { &self.left_buf } else { &self.right_buf };
                    Some(copy_block_three_way(&r.lines, start, from, src, &self.base_buf))
                } else {
                    None
                },
                None => None,
            };
            if let Some(nb) = new_base {
                if nb.len() <= MAX_LINES {
                    self.push_undo();
                    self.edit_state = None;
                    self.base_buf = nb;
                    self.has_unsaved_changes = true;
                    proof {
                        lemma_fits_after_change(&*old(self), &*self);
                    }
                    self.recompute_diff_keep_pos();
                }
            }
        } else {
            let new_target = match &self.diff_result {
                Some(r) => if block_idx < r.diff_positions.len() {
                    let start = r.diff_positions[block_idx];
                    if to_right {
                        Some(copy_block_two_way(&r.lines, start, &self.left_buf, &self.right_buf, true))
                    } else {
                        Some(copy_block_two_way(&r.lines, start, &self.right_buf, &self.left_buf, false))
                    }
                } else {
                    None
                },
                None => None,
            };
            if let Some(nt) = new_target {
                if nt.len() <= MAX_LINES {
                    self.push_undo();
                    self.edit_state = None;
                    if to_right {
                        self.right_buf = nt;
                    } else {
                        self.left_buf = nt;
                    }
                    self.has_unsaved_changes = true;
                    proof {
                        lemma_fits_after_change(&*old(self), &*self);
                    }
                    self.recompute_diff_keep_pos();
                }
            }
        }
    }

    /// Copies the current block from the left pane: to the right pane in a
    /// two-way tab, into the base in a three-way tab.
    pub fn copy_left_to_right(&mut self)
        requires
            old(self).wf(),
            old(self).fits(),
            old(self).numbers_fit(),
        ensures
            copy_left_to_right_spec(*old(self), *final(self)),
    {
        self.copy_current_block(true);
    }

    /// Copies the current block from the right pane: to the left pane in a
    /// two-way tab, into the base in a three-way tab.
    pub fn copy_right_to_left(&mut self)
        requires
            old(self).wf(),
            old(self).fits(),
            old(self).numbers_fit(),
        ensures
            copy_right_to_left_spec(*old(self), *final(self)),
    {
        self.copy_current_block(false);
    }

    /// Copies the current block from the left pane and moves to the next
    /// difference.
    pub fn copy_left_to_right_and_next(&mut self)
        requires
            old(self).wf(),
            old(self).fits(),
            old(self).numbers_fit(),
        ensures
            copy_left_to_right_and_next_spec(*old(self), *final(self)),
    {
        self.copy_current_block(true);
        let ghost mid = *self;
        self.next_diff();
        proof {
            assert(copy_step(*old(self), mid, true));
            assert(next_diff_of(mid, *self));
        }
    }

    /// Copies the current block from the right pane and moves to the next
    /// difference.
    pub fn copy_right_to_left_and_next(&mut self)
        requires
            old(self).wf(),
            old(self).fits(),
            old(self).numbers_fit(),
        ensures
            copy_right_to_left_and_next_spec(*old(self), *final(self)),
    {
        self.copy_current_block(false);
        let ghost mid = *self;
        self.next_diff();
        proof {
            assert(copy_step(*old(self), mid, false));
            assert(next_diff_of(mid, *self));
        }
    }

    /// Copies the whole left pane: over the right pane in a two-way tab,
    /// over the base in a three-way tab.
    pub fn copy_all_left_to_right(&mut self)
        requires
            old(self).wf(),
            old(self).fits(),
        ensures
            copy_all_left_to_right_spec(*old(self), *final(self)),
    {
        self.push_undo();
        if self.is_three_way {
            self.base_buf = copy_lines(&self.left_buf);
        } else {
            self.right_buf = copy_lines(&self.left_buf);
        }
        self.has_unsaved_changes = true;
        proof {
            lemma_fits_after_change(&*old(self), &*self);
        }
        self.recompute_diff();
    }

    /// Copies the whole right pane: over the left pane in a two-way tab,
    /// over the base in a three-way tab.
    pub fn copy_all_right_to_left(&mut self)
        requires
            old(self).wf(),
            old(self).fits(),
        ensures
            copy_all_right_to_left_spec(*old(self), *final(self)),
    {
        self.push_undo();
        if self.is_three_way {
            self.base_buf = copy_lines(&self.right_buf);
        } else {
            self.left_buf = copy_lines(&self.right_buf);
        }
        self.has_unsaved_changes = true;
        proof {
            lemma_fits_after_change(&*old(self), &*self);
        }
        self.recompute_diff();
    }

    /// Switches ignoring whitespace; the diff is recomputed when one is
    /// shown.
    pub fn toggle_ignore_whitespace(&mut self)
        requires
            old(self).wf(),
            old(self).fits(),
        ensures
            toggle_ignore_whitespace_spec(*old(self), *final(self)),
    {
        self.diff_options.ignore_whitespace = !self.diff_options.ignore_whitespace;
        proof {
            lemma_fits_same_buffers(&*old(self), &*self);
        }
        if self.diff_result.is_some() || self.three_way_result.is_some() {
            self.recompute_diff();
        }
    }

    /// Switches ignoring case; the diff is recomputed when one is shown.
    pub fn toggle_ignore_case(&mut self)
        requires
            old(self).wf(),
            old(self).fits(),
        ensures
            toggle_ignore_case_spec(*old(self), *final(self)),
    {
        self.diff_options.ignore_case = !self.diff_options.ignore_case;
        proof {
            lemma_fits_same_buffers(&*old(self), &*self);
        }
        if self.diff_result.is_some() || self.three_way_result.is_some() {
            self.recompute_diff();
        }
    }

    /// Empties the tab for new, unnamed texts (three of them when
    /// `is_three_way`), showing their diff.
    pub fn new_blank(&mut self, is_three_way: bool)
        requires
            -1 <= old(self).current_diff < i32::MAX,
        ensures
            new_blank_spec(*old(self), *final(self), is_three_way),
    {
        self.left_buf = Vec::new();
        self.right_buf = Vec::new();
        self.base_buf = Vec::new();
        self.left_path = None;
        self.right_path = None;
        self.base_path = None;
        self.is_three_way = is_three_way;
        self.is_dir_compare = false;
        self.dir_result = None;
        self.has_unsaved_changes = false;
        self.h_scroll = 0;
        self.history = UndoHistory::new();
        self.edit_state = None;
        self.recompute_diff();
    }

    /// Opens two files for a two-way diff, given their paths and contents
    /// (a file that could not be read counts as empty).
    pub fn open_files(&mut self, left: String, right: String, left_content: &str, right_content: &str)
        requires
            -1 <= old(self).current_diff < i32::MAX,
            spec_str_to_lines(left_content@).len() <= MAX_LINES,
            spec_str_to_lines(right_content@).len() <= MAX_LINES,
        ensures
            open_files_spec(*old(self), *final(self), left, right, left_content, right_content),
    {
        self.left_buf = str_to_lines(left_content);
        self.right_buf = str_to_lines(right_content);
        self.left_path = Some(left);
        self.right_path = Some(right);
        self.base_path = None;
        let mut base: Vec<String> = Vec::new();
        base.push(String::new());
        self.base_buf = base;
        self.is_three_way = false;
        self.three_way_result = None;
        self.has_unsaved_changes = false;
        self.h_scroll = 0;
        self.history = UndoHistory::new();
        proof {
            assert(lines_of(self.left_buf@) =~= self.left_buf.deep_view());
            assert(lines_of(self.right_buf@) =~= self.right_buf.deep_view());
            assert(lines_of(self.base_buf@) =~= seq![Seq::<char>::empty()]);
        }
        self.recompute_diff();
    }

    /// Opens three files for a three-way merge, given their paths and
    /// contents (a file that could not be read counts as empty).
    pub fn open_files_3way(
        &mut self,
        left: String,
        base: String,
        right: String,
        left_content: &str,
        base_content: &str,
        right_content: &str,
    )
        requires
            -1 <= old(self).current_diff < i32::MAX,
            spec_str_to_lines(left_content@).len() <= MAX_LINES,
            spec_str_to_lines(base_content@).len() <= MAX_LINES,
            spec_str_to_lines(right_content@).len() <= MAX_LINES,
        ensures
            open_files_3way_spec(*old(self), *final(self), left, base, right, left_content, base_content, right_content),
    {
        self.left_buf = str_to_lines(left_content);
        self.base_buf = str_to_lines(base_content);
        self.right_buf = str_to_lines(right_content);
        self.left_path = Some(left);
        self.base_path = Some(base);
        self.right_path = Some(right);
        self.is_three_way = true;
        self.diff_result = None;
        self.has_unsaved_changes = false;
        self.h_scroll = 0;
        self.history = UndoHistory::new();
        proof {
            assert(lines_of(self.left_buf@) =~= self.left_buf.deep_view());
            assert(lines_of(self.base_buf@) =~= self.base_buf.deep_view());
            assert(lines_of(self.right_buf@) =~= self.right_buf.deep_view());
        }
        self.recompute_diff();
    }

    /// Shows a comparison of two directories, given their paths and the
    /// comparison.
    pub fn open_dirs(&mut self, left: String, right: String, result: DirCompareResult)
        ensures
            open_dirs_spec(*old(self), *final(self), left, right, result),
    {
        self.left_path = Some(left);
        self.right_path = Some(right);
        self.base_path = None;
        self.left_buf = Vec::new();
        self.right_buf = Vec::new();
        self.base_buf = Vec::new();
        self.diff_result = None;
        self.three_way_result = None;
        self.is_three_way = false;
        self.is_dir_compare = true;
        self.dir_result = Some(result);
        self.has_unsaved_changes = false;
        self.h_scroll = 0;
        self.scroll_offset = 0;
        self.history = UndoHistory::new();
    }

    /// The lines of a pane.
    pub fn source_lines(&self, panel: PanelSide) -> (r: Vec<String>)
        ensures
            lines_of(r@) == self.pane(panel),
    {
        match panel {
            PanelSide::Left => copy_lines(&self.left_buf),
            PanelSide::Right => copy_lines(&self.right_buf),
            PanelSide::Base => copy_lines(&self.base_buf),
        }
    }

    /// Whether a pane has nothing in it: no lines, or only empty ones.
    pub fn pane_is_empty(&self, panel: PanelSide) -> (b: bool)
        ensures
            b == forall|k: int| 0 <= k < self.pane(panel).len() ==> #[trigger] self.pane(panel)[k].len() == 0,
    {
        let buf = match panel {
            PanelSide::Left => &self.left_buf,
            PanelSide::Right => &self.right_buf,
            PanelSide::Base => &self.base_buf,
        };
        let mut k: usize = 0;
        while k < buf.len()
            invariant
                k <= buf@.len(),
                lines_of(buf@) == self.pane(panel),
                forall|j: int| 0 <= j < k ==> #[trigger] self.pane(panel)[j].len() == 0,
            decreases buf@.len() - k,
        {
            if buf[k].unicode_len() != 0 {
                proof {
                    assert(self.pane(panel)[k as int].len() != 0);
                }
                return false;
            }
            k = k + 1;
        }
        true
    }

    /// The file text of the left pane.
    pub fn left_text(&self) -> (r: String)
        ensures
            r@ == spec_buf_to_text(lines_of(self.left_buf@)),
    {
        buf_to_text(self.left_buf.as_slice())
    }

    /// The file text of the right pane.
    pub fn right_text(&self) -> (r: String)
        ensures
            r@ == spec_buf_to_text(lines_of(self.right_buf@)),
    {
        buf_to_text(self.right_buf.as_slice())
    }

    /// The file text of the base pane.
    pub fn base_text(&self) -> (r: String)
        ensures
            r@ == spec_buf_to_text(lines_of(self.base_buf@)),
    {
        buf_to_text(self.base_buf.as_slice())
    }

    /// Whether every pane holds at most `MAX_LINES` lines.
    pub fn panes_fit(&self) -> (b: bool)
        ensures
            b == texts_fit(self.texts()),
    {
        self.left_buf.len() <= MAX_LINES && self.base_buf.len() <= MAX_LINES && self.right_buf.len() <= MAX_LINES
    }

    /// Selects the next entry of the directory comparison, when there is
    /// one.
    pub(crate) fn dir_select_next(&mut self)
        ensures
            final(self).dir_result == match old(self).dir_result {
                Some(r) => if r.selected + 1 < r.entries@.len() {
                    Some(DirCompareResult { selected: (r.selected + 1) as usize, ..r })
                } else {
                    Some(r)
                },
                None => None,
            },
            *final(self) == (TabState { dir_result: final(self).dir_result, ..*old(self) }),
    {
        if let Some(r) = &mut self.dir_result {
            if r.selected < r.entries.len() && r.selected + 1 < r.entries.len() {
                r.selected = r.selected + 1;
            }
        }
    }

    /// Selects the previous entry of the directory comparison, when there
    /// is one.
    pub(crate) fn dir_select_prev(&mut self)
        ensures
            final(self).dir_result == match old(self).dir_result {
                Some(r) => if r.selected > 0 {
                    Some(DirCompareResult { selected: (r.selected - 1) as usize, ..r })
                } else {
                    Some(r)
                },
                None => None,
            },
            *final(self) == (TabState { dir_result: final(self).dir_result, ..*old(self) }),
    {
        if let Some(r) = &mut self.dir_result {
            if r.selected > 0 {
                r.selected = r.selected - 1;
            }
        }
    }

    /// Whether every line number of the shown results names a line of
    /// the buffers (see `numbers_fit`).
    pub fn results_in_range(&self) -> (b: bool)
        ensures
            b == self.numbers_fit(),
    {
        let l = self.left_buf.len();
        let r = self.right_buf.len();
        let bl = self.base_buf.len();
        if let Some(res) = &self.diff_result {
            let mut k: usize = 0;
            while k < res.lines.len()
                invariant
                    k <= res.lines@.len(),
                    self.diff_result == Some(*res),
                    l == self.left_buf@.len(),
                    r == self.right_buf@.len(),
                    forall|j: int|
                        0 <= j < k ==> {
                            let line = #[trigger] res.lines@[j];
                            &&& (line.left_line_no matches Some(n) ==> 1 <= n <= l)
                            &&& (line.right_line_no matches Some(n) ==> 1 <= n <= r)
                        },
                decreases res.lines@.len() - k,
            {
                let line = &res.lines[k];
                proof {
                    assert(res.lines@[k as int] == *line);
                }
                if let Some(n) = line.left_line_no {
                    if n < 1 || n as usize > l {
                        return false;
                    }
                }
                if let Some(n) = line.right_line_no {
                    if n < 1 || n as usize > r {
                        return false;
                    }
                }
                k = k + 1;
            }
        }
        if let Some(res) = &self.three_way_result {
            let mut k: usize = 0;
            while k < res.lines.len()
                invariant
                    k <= res.lines@.len(),
                    self.three_way_result == Some(*res),
                    l == self.left_buf@.len(),
                    r == self.right_buf@.len(),
                    bl == self.base_buf@.len(),
                    forall|j: int|
                        0 <= j < k ==> {
                            let row = #[trigger] res.lines@[j];
                            &&& (row.base_line_no matches Some(n) ==> 1 <= n <= bl)
                            &&& (row.left_line_no matches Some(n) ==> 1 <= n <= l)
                            &&& (row.right_line_no matches Some(n) ==> 1 <= n <= r)
                        },
                decreases res.lines@.len() - k,
            {
                let row = &res.lines[k];
                proof {
                    assert(res.lines@[k as int] == *row);
                }
                if let Some(n) = row.base_line_no {
                    if n < 1 || n as usize > bl {
                        return false;
                    }
                }
                if let Some(n) = row.left_line_no {
                    if n < 1 || n as usize > l {
                        return false;
                    }
                }
                if let Some(n) = row.right_line_no {
                    if n < 1 || n as usize > r {
                        return false;
                    }
                }
                k = k + 1;
            }
        }
        true
    }

    /// The number of lines of a pane.
    fn pane_len(&self, panel: PanelSide) -> (n: usize)
        ensures
            n == self.pane(panel).len(),
    {
        match panel {
            PanelSide::Left => self.left_buf.len(),
            PanelSide::Right => self.right_buf.len(),
            PanelSide::Base => self.base_buf.len(),
        }
    }

    /// The number of characters of a line of a pane; 0 past the end.
    fn line_len(&self, panel: PanelSide, line: usize) -> (n: usize)
        ensures
            n == if line < self.pane(panel).len() { self.pane(panel)[line as int].len() } else { 0 },
    {
        let buf = match panel {
            PanelSide::Left => &self.left_buf,
            PanelSide::Right => &self.right_buf,
            PanelSide::Base => &self.base_buf,
        };
        if line < buf.len() {
            buf[line].unicode_len()
        } else {
            0
        }
    }

    /// The line (from 0) of a pane that a row stands for (see
    /// `resolved_source`).
    pub fn resolve_display_to_source(&self, display_idx: usize, panel: PanelSide) -> (r: Option<usize>)
        requires
            self.counts_fit(),
        ensures
            r == Some(resolved_source(*self, display_idx as int, panel) as usize),
            0 <= resolved_source(*self, display_idx as int, panel) <= usize::MAX,
    {
        let line_count = self.pane_len(panel);
        if self.is_three_way {
            if let Some(result) = &self.three_way_result {
                if display_idx < result.lines.len() {
                    let nos = three_way_line_numbers(&result.lines, panel);
                    proof {
                        assert(three_way_numbers_positive(result.lines@[display_idx as int]));
                    }
                    if let Some(n) = nos[display_idx] {
                        return Some((n - 1) as usize);
                    }
                    return Some(find_nearest_source_line(display_idx, &nos, line_count));
                }
            }
        } else if let Some(result) = &self.diff_result {
            if display_idx < result.lines.len() {
                if panel == PanelSide::Base {
                    return Some(0);
                }
                let nos = two_way_line_numbers(&result.lines, panel);
                proof {
                    assert(two_way_numbers_positive(result.lines@[display_idx as int]));
                }
                if let Some(n) = nos[display_idx] {
                    return Some((n - 1) as usize);
                }
                return Some(find_nearest_source_line(display_idx, &nos, line_count));
            }
        }
        let last = if line_count > 0 { line_count - 1 } else { 0 };
        Some(if display_idx < last { display_idx } else { last })
    }

    /// The row at which a line of a pane is shown (see `display_index`).
    fn find_display_index(&self, source_line: usize, panel: PanelSide, clicked_display: usize) -> (r: usize)
        requires
            self.counts_fit(),
        ensures
            r as int == display_index(*self, source_line as int, panel, clicked_display as int),
    {
        let nos = if self.is_three_way {
            match &self.three_way_result {
                Some(res) => three_way_line_numbers(&res.lines, panel),
                None => Vec::new(),
            }
        } else {
            match &self.diff_result {
                Some(res) => two_way_line_numbers(&res.lines, panel),
                None => Vec::new(),
            }
        };
        if nos.len() == 0 {
            return clicked_display;
        }
        proof {
            assert forall|k: int| 0 <= k < nos@.len() implies (#[trigger] nos@[k] matches Some(n) ==> n >= 1) by {
                if self.is_three_way {
                    assert(three_way_numbers_positive(self.three_way_result->0.lines@[k]));
                } else {
                    assert(two_way_numbers_positive(self.diff_result->0.lines@[k]));
                }
            }
        }
        proof {
            lemma_first_row_bounds(nos@, source_line as int, 0);
        }
        match find_row_of(&nos, source_line) {
            Some(i) => i,
            None => {
                let last = nos.len() - 1;
                if clicked_display < last { clicked_display } else { last }
            },
        }
    }

    /// Starts editing a pane at a clicked row and column: the line the row
    /// stands for (kept within the pane), shown at the first row showing
    /// it, with the cursor kept within the line; the buffers are recorded
    /// for undo.
    pub fn enter_edit_mode(&mut self, panel: PanelSide, display_line: usize, col: usize)
        requires
            old(self).wf(),
            old(self).fits(),
        ensures
            enter_edit_mode_spec(*old(self), *final(self), panel, display_line, col),
    {
        let source_line = match self.resolve_display_to_source(display_line, panel) {
            Some(sl) => sl,
            None => return,
        };
        let len = self.pane_len(panel);
        let last = if len > 0 { len - 1 } else { 0 };
        let source_line = if source_line < last { source_line } else { last };
        let display_line = self.find_display_index(source_line, panel, display_line);
        let line_len = self.line_len(panel, source_line);
        let col = if col < line_len { col } else { line_len };
        self.push_undo();
        self.edit_state = Some(EditState { panel, source_line, display_line, cursor_col: col, dirty: false });
    }

    /// Stops editing. When something was typed, the tab has unsaved changes
    /// and its diff is recomputed, keeping the position; otherwise the
    /// snapshot recorded on entering is dropped.
    pub fn exit_edit_mode(&mut self)
        requires
            old(self).wf(),
            old(self).fits(),
        ensures
            exit_edit_mode_spec(*old(self), *final(self)),
    {
        let dirty = match self.edit_state {
            Some(e) => e.dirty,
            None => false,
        };
        self.edit_state = None;
        if dirty {
            self.has_unsaved_changes = true;
            proof {
                lemma_fits_same_buffers(&*old(self), &*self);
            }
            self.recompute_diff_keep_pos();
        } else {
            let _ = self.history.pop_undo();
            proof {
                assert forall|k: int| 0 <= k < self.undo_view().len() implies #[trigger] texts_fit(self.undo_view()[k]) by {
                    assert(texts_fit(old(self).undo_view()[k]));
                }
                assert forall|k: int| 0 <= k < self.redo_view().len() implies #[trigger] texts_fit(self.redo_view()[k]) by {
                    assert(texts_fit(old(self).redo_view()[k]));
                }
            }
        }
    }

    /// Types a character at the cursor, which moves past it; a pane with
    /// no lines gets one first.
    pub fn edit_insert_char(&mut self, ch: char)
        requires
            old(self).wf(),
            old(self).edit_state matches Some(e) ==> e.cursor_col < usize::MAX,
        ensures
            edit_insert_char_spec(*old(self), *final(self), ch),
    {
        let e = match self.edit_state {
            Some(e) => e,
            None => return,
        };
        match e.panel {
            PanelSide::Left => buf_type_char(&mut self.left_buf, e.source_line, e.cursor_col, ch),
            PanelSide::Right => buf_type_char(&mut self.right_buf, e.source_line, e.cursor_col, ch),
            PanelSide::Base => buf_type_char(&mut self.base_buf, e.source_line, e.cursor_col, ch),
        }
        self.edit_state = Some(EditState { cursor_col: e.cursor_col + 1, dirty: true, ..e });
    }

    /// Deletes the character before the cursor; at the start of a line,
    /// joins the line to the one before it (unless it is the pane's only
    /// line), the cursor going to the join.
    pub fn edit_backspace(&mut self)
        requires
            old(self).wf(),
        ensures
            edit_backspace_spec(*old(self), *final(self)),
    {
        let e = match self.edit_state {
            Some(e) => e,
            None => return,
        };
        if e.cursor_col > 0 {
            match e.panel {
                PanelSide::Left => buf_remove_char(&mut self.left_buf, e.source_line, e.cursor_col - 1),
                PanelSide::Right => buf_remove_char(&mut self.right_buf, e.source_line, e.cursor_col - 1),
                PanelSide::Base => buf_remove_char(&mut self.base_buf, e.source_line, e.cursor_col - 1),
            }
            self.edit_state = Some(EditState { cursor_col: e.cursor_col - 1, dirty: true, ..e });
        } else if e.source_line > 0 {
            if self.pane_len(e.panel) > 1 {
                let prev_len = self.line_len(e.panel, e.source_line - 1);
                match e.panel {
                    PanelSide::Left => buf_join(&mut self.left_buf, e.source_line),
                    PanelSide::Right => buf_join(&mut self.right_buf, e.source_line),
                    PanelSide::Base => buf_join(&mut self.base_buf, e.source_line),
                }
                let dl = if e.display_line > 0 { e.display_line - 1 } else { 0 };
                self.edit_state = Some(EditState {
                    source_line: e.source_line - 1,
                    cursor_col: prev_len,
                    display_line: dl,
                    dirty: true,
                    ..e
                });
            }
        }
    }

    /// Deletes the character at the cursor; at the end of a line, joins
    /// the next line to it.
    pub fn edit_delete(&mut self)
        requires
            old(self).wf(),
        ensures
            edit_delete_spec(*old(self), *final(self)),
    {
        let e = match self.edit_state {
            Some(e) => e,
            None => return,
        };
        let line_char_len = self.line_len(e.panel, e.source_line);
        if e.cursor_col < line_char_len {
            match e.panel {
                PanelSide::Left => buf_remove_char(&mut self.left_buf, e.source_line, e.cursor_col),
                PanelSide::Right => buf_remove_char(&mut self.right_buf, e.source_line, e.cursor_col),
                PanelSide::Base => buf_remove_char(&mut self.base_buf, e.source_line, e.cursor_col),
            }
            self.edit_state = Some(EditState { dirty: true, ..e });
        } else {
            let len = self.pane_len(e.panel);
            if e.source_line + 1 < len && len > 1 {
                match e.panel {
                    PanelSide::Left => buf_join(&mut self.left_buf, e.source_line + 1),
                    PanelSide::Right => buf_join(&mut self.right_buf, e.source_line + 1),
                    PanelSide::Base => buf_join(&mut self.base_buf, e.source_line + 1),
                }
                self.edit_state = Some(EditState { dirty: true, ..e });
            }
        }
    }

    /// Breaks the line at the cursor; the cursor goes to the start of the
    /// new line.
    pub fn edit_enter(&mut self)
        requires
            old(self).wf(),
            old(self).edit_state matches Some(e) ==> e.display_line < usize::MAX,
        ensures
            edit_enter_spec(*old(self), *final(self)),
    {
        let e = match self.edit_state {
            Some(e) => e,
            None => return,
        };
        match e.panel {
            PanelSide::Left => buf_break(&mut self.left_buf, e.source_line, e.cursor_col),
            PanelSide::Right => buf_break(&mut self.right_buf, e.source_line, e.cursor_col),
            PanelSide::Base => buf_break(&mut self.base_buf, e.source_line, e.cursor_col),
        }
        let n = self.pane_len(e.panel);
        assert(e.source_line + 1 < n);
        self.edit_state = Some(EditState {
            source_line: e.source_line + 1,
            display_line: e.display_line + 1,
            cursor_col: 0,
            dirty: true,
            ..e
        });
    }

    /// Moves the cursor one character left, stopping at the line's start.
    pub fn edit_move_left(&mut self)
        requires
            old(self).wf(),
        ensures
            edit_move_left_spec(*old(self), *final(self)),
    {
        if let Some(e) = self.edit_state {
            if e.cursor_col > 0 {
                self.edit_state = Some(EditState { cursor_col: e.cursor_col - 1, ..e });
            }
        }
    }

    /// Moves the cursor one character right, stopping at the line's end.
    pub fn edit_move_right(&mut self)
        requires
            old(self).wf(),
        ensures
            edit_move_right_spec(*old(self), *final(self)),
    {
        if let Some(e) = self.edit_state {
            let line_len = self.line_len(e.panel, e.source_line);
            if e.cursor_col < line_len {
                self.edit_state = Some(EditState { cursor_col: e.cursor_col + 1, ..e });
            }
        }
    }

    /// Moves the cursor to the line above, keeping its column within that
    /// line.
    pub fn edit_move_up(&mut self)
        requires
            old(self).wf(),
        ensures
            edit_move_up_spec(*old(self), *final(self)),
    {
        if let Some(e) = self.edit_state {
            if e.source_line > 0 {
                let line_len = self.line_len(e.panel, e.source_line - 1);
                let dl = if e.display_line > 0 { e.display_line - 1 } else { 0 };
                let col = if e.cursor_col < line_len { e.cursor_col } else { line_len };
                self.edit_state = Some(EditState { source_line: e.source_line - 1, display_line: dl, cursor_col: col, ..e });
            }
        }
    }

    /// Moves the cursor to the line below, when there is one, keeping its
    /// column within that line.
    pub fn edit_move_down(&mut self)
        requires
            old(self).wf(),
            old(self).edit_state matches Some(e) ==> e.display_line < usize::MAX,
        ensures
            edit_move_down_spec(*old(self), *final(self)),
    {
        if let Some(e) = self.edit_state {
            let len = self.pane_len(e.panel);
            if e.source_line + 1 < len {
                let line_len = self.line_len(e.panel, e.source_line + 1);
                let col = if e.cursor_col < line_len { e.cursor_col } else { line_len };
                self.edit_state = Some(EditState {
                    source_line: e.source_line + 1,
                    display_line: e.display_line + 1,
                    cursor_col: col,
                    ..e
                });
            }
        }
    }

    /// Moves the cursor to the start of the line.
    pub fn edit_move_home(&mut self)
        requires
            old(self).wf(),
        ensures
            edit_move_home_spec(*old(self), *final(self)),
    {
        if let Some(e) = self.edit_state {
            self.edit_state = Some(EditState { cursor_col: 0, ..e });
        }
    }

    /// Moves the cursor to the end of the line.
    pub fn edit_move_end(&mut self)
        requires
            old(self).wf(),
        ensures
            edit_move_end_spec(*old(self), *final(self)),
    {
        if let Some(e) = self.edit_state {
            let line_len = self.line_len(e.panel, e.source_line);
            self.edit_state = Some(EditState { cursor_col: line_len, ..e });
        }
    }

    /// The line being edited, as it stands.
    pub fn edit_current_line_text(&self) -> (r: Option<String>)
        ensures
            match self.edit_state {
                None => r is None,
                Some(e) => if (e.source_line as int) < self.pane(e.panel).len() {
                    r matches Some(l) && l@ == self.pane(e.panel)[e.source_line as int]
                } else {
                    r is None
                },
            },
    {
        let e = match self.edit_state {
            Some(e) => e,
            None => return None,
        };
        let buf = match e.panel {
            PanelSide::Left => &self.left_buf,
            PanelSide::Right => &self.right_buf,
            PanelSide::Base => &self.base_buf,
        };
        if e.source_line < buf.len() {
            Some(buf[e.source_line].clone())
        } else {
            None
        }
    }

    /// The number of rows shown.
    pub fn total_lines(&self) -> (n: usize)
        ensures
            n as int == spec_total_lines(*self),
    {
        let l = self.left_buf.len();
        let r = self.right_buf.len();
        let b = self.base_buf.len();
        let m2 = if l < r { r } else { l };
        if self.is_three_way {
            match &self.three_way_result {
                Some(res) => res.lines.len(),
                None => {
                    let m3 = if m2 < b { b } else { m2 };
                    if m3 < 1 { 1 } else { m3 }
                },
            }
        } else {
            match &self.diff_result {
                Some(res) => res.lines.len(),
                None => if m2 < 1 { 1 } else { m2 },
            }
        }
    }

    /// Makes the next difference current (staying on the last one) and
    /// scrolls to it.
    pub fn next_diff(&mut self)
        requires
            old(self).wf(),
        ensures
            next_diff_spec(*old(self), *final(self)),
    {
        let count = self.diff_count();
        if count == 0 {
            return;
        }
        let max = count as i32 - 1;
        let next = self.current_diff + 1;
        self.current_diff = if next < max { next } else { max };
        self.scroll_to_current_diff();
    }

    /// Makes the previous difference current (staying on the first one)
    /// and scrolls to it.
    pub fn prev_diff(&mut self)
        requires
            old(self).wf(),
        ensures
            prev_diff_spec(*old(self), *final(self)),
    {
        let count = self.diff_count();
        if count == 0 {
            return;
        }
        let prev = self.current_diff - 1;
        self.current_diff = if prev > 0 { prev } else { 0 };
        self.scroll_to_current_diff();
    }

    /// Makes the first difference current and scrolls to it.
    pub fn first_diff(&mut self)
        requires
            old(self).wf(),
        ensures
            first_diff_spec(*old(self), *final(self)),
    {
        if self.diff_count() > 0 {
            self.current_diff = 0;
            self.scroll_to_current_diff();
        }
    }

    /// Makes the last difference current and scrolls to it.
    pub fn last_diff(&mut self)
        requires
            old(self).wf(),
        ensures
            last_diff_spec(*old(self), *final(self)),
    {
        let count = self.diff_count();
        if count > 0 {
            self.current_diff = count as i32 - 1;
            self.scroll_to_current_diff();
        }
    }

    /// Scrolls down by `amount` rows, stopping at the last row.
    pub fn scroll_down(&mut self, amount: usize)
        requires
            old(self).scroll_offset + amount <= usize::MAX,
        ensures
            scroll_down_spec(*old(self), *final(self), amount),
    {
        let total = self.total_lines();
        let max = if total > 0 { total - 1 } else { 0 };
        let target = self.scroll_offset + amount;
        self.scroll_offset = if target < max { target } else { max };
    }

    /// Scrolls up by `amount` rows, stopping at the first row.
    pub fn scroll_up(&mut self, amount: usize)
        ensures
            scroll_up_spec(*old(self), *final(self), amount),
    {
        self.scroll_offset = if self.scroll_offset >= amount { self.scroll_offset - amount } else { 0 };
    }

    /// Scrolls right by `amount` columns, saturating.
    pub fn h_scroll_right(&mut self, amount: usize)
        ensures
            h_scroll_right_spec(*old(self), *final(self), amount),
    {
        self.h_scroll = self.h_scroll.saturating_add(amount);
    }

    /// Scrolls left by `amount` columns, stopping at the first column.
    pub fn h_scroll_left(&mut self, amount: usize)
        ensures
            h_scroll_left_spec(*old(self), *final(self), amount),
    {
        self.h_scroll = self.h_scroll.saturating_sub(amount);
    }

    /// Recomputes the shown diff, making the first difference current.
    pub fn recompute_diff(&mut self)
        requires
            old(self).fits(),
            -1 <= old(self).current_diff < i32::MAX,
        ensures
            recompute_diff_spec(*old(self), *final(self)),
    {
        self.recompute_diff_inner(true);
    }

    /// Recomputes the shown diff without resetting the current difference
    /// or the scrolling.
    pub fn recompute_diff_keep_pos(&mut self)
        requires
            old(self).fits(),
            -1 <= old(self).current_diff < i32::MAX,
        ensures
            final(self).recomputed(old(self).current_diff, old(self).scroll_offset, false),
            final(self).same_document(&*old(self)),
            final(self).h_scroll == old(self).h_scroll,
            final(self).wf(),
            final(self).fits(),
            final(self).numbers_fit(),
    {
        self.recompute_diff_inner(false);
    }

    /// Scrolls to show the current difference.
    fn scroll_to_current_diff(&mut self)
        ensures
            final(self).scroll_offset == scroll_target(old(self).scroll_offset, *old(self)),
            final(self).same_document(&*old(self)),
            final(self).diff_result == old(self).diff_result,
            final(self).three_way_result == old(self).three_way_result,
            final(self).current_diff == old(self).current_diff,
            final(self).h_scroll == old(self).h_scroll,
            final(self).edit_state == old(self).edit_state,
    {
        if self.current_diff < 0 {
            return;
        }
        let block_idx = self.current_diff as usize;
        let pos: Option<usize> = if self.is_three_way {
            match &self.three_way_result {
                Some(r) => if block_idx < r.diff_positions.len() {
                    Some(r.diff_positions[block_idx])
                } else {
                    None
                },
                None => None,
            }
        } else {
            match &self.diff_result {
                Some(r) => if block_idx < r.diff_positions.len() {
                    Some(r.diff_positions[block_idx])
                } else {
                    None
                },
                None => None,
            }
        };
        if let Some(p) = pos {
            self.scroll_offset = if p >= 3 { p - 3 } else { 0 };
        }
    }

    /// The number of difference blocks shown.
    pub fn diff_count(&self) -> (n: u32)
        requires
            self.counts_fit(),
        ensures
            n as int == self.spec_diff_count(),
    {
        if self.is_three_way {
            match &self.three_way_result {
                Some(r) => r.diff_positions.len() as u32,
                None => 0,
            }
        } else {
            match &self.diff_result {
                Some(r) => r.diff_count,
                None => 0,
            }
        }
    }
}

} // verus!
