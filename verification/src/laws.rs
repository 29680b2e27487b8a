//! What holds across the operations of a tab, of the application and of
//! the file browser, stated over the contracts those operations have.

use vstd::prelude::*;
use crate::app::{next_index, prev_index, App};
use crate::tab::{broken, joined, padded, typed, EditState};
use crate::text::{
    insert_char, lemma_lines_round_trip, lemma_text_round_trip, lines_of, plain_line, spec_buf_to_text, spec_str_to_lines,
};
use vstd::arithmetic::div_mod::{lemma_mod_self_0, lemma_small_mod};
use crate::file_browser::scroll_for;
use crate::tab::{
    copy_all_left_to_right_spec, copy_all_right_to_left_spec, edit_backspace_spec, edit_delete_spec,
    edit_enter_spec, edit_insert_char_spec, edit_move_down_spec, edit_move_up_spec, enter_edit_mode_spec,
    exit_edit_mode_spec, new_blank_spec, recompute_diff_spec, redo_spec,
    undo_spec, PanelSide, TabState,
};
use crate::text::clamp_col;
use crate::engine::{
    diff_shown, is_diff_of, is_line_diff, is_two_way_diff, lemma_equal_texts_no_blocks, lemma_normalize_keeps_count,
    lemma_normalize_plain, lemma_side_segments_unmarked, lemma_word_segments_spell, line_shows, seg_text, segs_view, text_at, unmarked_text,
    normalize_lines, word_diff_enabled, DiffOptions,
};
use crate::layout::{lemma_layout_equal_rows, lemma_prefix_taken_le, lemma_taken_push, spec_layout};
use crate::models::LineStatus;
use crate::sequence_diff::{is_edit_script, new_taken, old_taken, ChangeKind};
use crate::layout::count_from;
use crate::models::{DiffResult, DirCompareResult, DirEntryStatus, ThreeWayResult};
use crate::dir_compare::entry_status;
use crate::block_copy::{
    block_end3, copy_block3, lemma_min_max_bounds, lemma_shown_bounds, lines_numbered, pane_within, seq_max, seq_min,
};
use crate::models::ThreeWayLine;
use crate::three_way::{is_merge_view, lemma_both_changed_rows_agree, lemma_conflict_rows_differ, lemma_equal_texts_no_blocks3, lemma_one_sided_rows, row_shows_base, number_in_pane, row_sides_agree, numbers_between, row_lines_equal, shown, Pane};
use crate::models::ThreeWayStatus;
use crate::app::{AppMode, copy_to_left_done, copy_to_right_done, has_unsaved};
use crate::events::{key_done, normal_command, panes_ok, refresh_done, refresh_rest, save_done, status_set, tab_step, Command, Effect, Key, KeyPress};
use crate::app::{enter_edit_done, exit_edit_done};

verus! {

/// Undoing a change gives back the buffers from before it, and the
/// changed buffers can be redone.
pub proof fn law_undo_restores_change(
    t0: TabState,
    t1: TabState,
    t2: TabState,
    l: Seq<String>,
    b: Seq<String>,
    r: Seq<String>,
    reset: bool,
)
    requires
        t1.changed_to(&t0, l, b, r, reset),
        undo_spec(t1, t2),
    ensures
        t2.texts() == t0.texts(),
        t2.undo_view() == t0.undo_view(),
        t2.redo_view() == seq![t1.texts()],
{
    assert(t1.undo_view().len() > 0);
    assert(t1.undo_view().drop_last() =~= t0.undo_view());
    assert(t1.redo_view().push(t1.texts()) =~= seq![t1.texts()]);
}

/// Redoing what was just undone gives back the buffers from before the
/// undo, with the same history to undo.
pub proof fn law_redo_after_undo(t0: TabState, t1: TabState, t2: TabState)
    requires
        t0.undo_view().len() > 0,
        undo_spec(t0, t1),
        redo_spec(t1, t2),
    ensures
        t2.texts() == t0.texts(),
        t2.undo_view() == t0.undo_view(),
        t2.redo_view() == t0.redo_view(),
{
    assert(t1.undo_view().push(t1.texts()) =~= t0.undo_view());
    assert(t1.redo_view().drop_last() =~= t0.redo_view());
}

/// Undoing what was just redone gives back the buffers from before the
/// redo, with the same history to redo.
pub proof fn law_undo_after_redo(t0: TabState, t1: TabState, t2: TabState)
    requires
        t0.redo_view().len() > 0,
        redo_spec(t0, t1),
        undo_spec(t1, t2),
    ensures
        t2.texts() == t0.texts(),
        t2.undo_view() == t0.undo_view(),
        t2.redo_view() == t0.redo_view(),
{
    assert(t1.redo_view().push(t1.texts()) =~= t0.redo_view());
    assert(t1.undo_view().drop_last() =~= t0.undo_view());
}

/// Recomputing the diff never changes what is in the panes, nor the
/// history.
pub proof fn law_recompute_keeps_texts(t0: TabState, t1: TabState)
    requires
        recompute_diff_spec(t0, t1),
    ensures
        t1.texts() == t0.texts(),
        t1.undo_view() == t0.undo_view(),
        t1.redo_view() == t0.redo_view(),
        t1.has_unsaved_changes == t0.has_unsaved_changes,
        t1.shows_texts(),
{
}

/// Entering and leaving editing without typing leaves the panes and the
/// history as they were.
pub proof fn law_edit_without_typing(
    t0: TabState,
    t1: TabState,
    t2: TabState,
    panel: PanelSide,
    display_line: usize,
    col: usize,
)
    requires
        enter_edit_mode_spec(t0, t1, panel, display_line, col),
        exit_edit_mode_spec(t1, t2),
    ensures
        t2.texts() == t0.texts(),
        t2.undo_view() == t0.undo_view(),
        t2.redo_view().len() == 0,
        t2.edit_state is None,
{
    assert(t1.undo_view().drop_last() =~= t0.undo_view());
}

/// A typed character shows in the line being edited, at the cursor (or at
/// the line's end when the cursor is past it), and the cursor moves past
/// it.
pub proof fn law_typing_is_reflected(t0: TabState, t1: TabState, ch: char)
    requires
        t0.wf(),
        t0.edit_state is Some,
        t0.edit_state->0.cursor_col < usize::MAX,
        edit_insert_char_spec(t0, t1, ch),
    ensures
        ({
            let e = t0.edit_state->0;
            let line = t1.pane(e.panel)[e.source_line as int];
            let before_len = if (e.source_line as int) < t0.pane(e.panel).len() {
                t0.pane(e.panel)[e.source_line as int].len() as int
            } else {
                0
            };
            &&& line[clamp_col(before_len, e.cursor_col as int)] == ch
            &&& line.len() == before_len + 1
            &&& t1.edit_state->0.cursor_col == e.cursor_col + 1
        }),
{
    let e = t0.edit_state->0;
    let p = t0.pane(e.panel);
    let sl = e.source_line as int;
    let q = padded(p, sl + 1);
    let before_len = if sl < p.len() { p[sl].len() as int } else { 0 };
    if sl >= p.len() {
        assert(q[sl] == Seq::<char>::empty());
    }
    assert(q[sl].len() == before_len);
    let c = clamp_col(before_len, e.cursor_col as int);
    let line = insert_char(q[sl], e.cursor_col as int, ch);
    assert(line == q[sl].take(c) + seq![ch] + q[sl].skip(c));
    assert(line[c] == ch);
    assert(t1.pane(e.panel) == typed(p, sl, e.cursor_col as int, ch));
    assert(t1.pane(e.panel)[sl] == line);
    assert(line.len() == before_len + 1);
}

/// Deleting never takes the last line of a pane: a pane with lines keeps
/// at least one.
pub proof fn law_pane_keeps_a_line(t0: TabState, t1: TabState, t2: TabState)
    requires
        t0.wf(),
        t0.edit_state matches Some(e) && t0.pane(e.panel).len() >= 1,
        edit_backspace_spec(t0, t1),
        edit_delete_spec(t0, t2),
    ensures
        ({
            let e = t0.edit_state->0;
            &&& t1.pane(e.panel).len() >= 1
            &&& t2.pane(e.panel).len() >= 1
        }),
{
}

/// Copying a whole pane over the other makes both hold the same lines.
pub proof fn law_copy_all_makes_equal(t0: TabState, t1: TabState, t2: TabState)
    requires
        !t0.is_three_way,
        copy_all_left_to_right_spec(t0, t1),
        copy_all_right_to_left_spec(t0, t2),
    ensures
        t1.pane(PanelSide::Right) == t1.pane(PanelSide::Left),
        t1.pane(PanelSide::Left) == t0.pane(PanelSide::Left),
        t2.pane(PanelSide::Left) == t2.pane(PanelSide::Right),
        t2.pane(PanelSide::Right) == t0.pane(PanelSide::Right),
{
}

/// In a three-way tab, copying a whole side over the base makes the base
/// hold that side's lines.
pub proof fn law_copy_all_into_base(t0: TabState, t1: TabState, t2: TabState)
    requires
        t0.is_three_way,
        copy_all_left_to_right_spec(t0, t1),
        copy_all_right_to_left_spec(t0, t2),
    ensures
        t1.pane(PanelSide::Base) == t0.pane(PanelSide::Left),
        t2.pane(PanelSide::Base) == t0.pane(PanelSide::Right),
{
}

/// The active tab after moving to the next tab and back is the one moved
/// from, and so after moving to the previous tab and back.
pub proof fn law_tab_cycle(n: int, a: int)
    requires
        0 <= a < n,
    ensures
        prev_index(n, next_index(n, a)) == a,
        next_index(n, prev_index(n, a)) == a,
{
    if n > 1 {
        if a + 1 < n {
            lemma_small_mod((a + 1) as nat, n as nat);
        } else {
            lemma_mod_self_0(n);
        }
        let p = if a == 0 { n - 1 } else { a - 1 };
        if p + 1 < n {
            lemma_small_mod((p + 1) as nat, n as nat);
        } else {
            lemma_mod_self_0(n);
        }
    }
}

/// An application in a valid state has a tab, and its active tab exists.
pub proof fn law_active_tab_exists(app: App)
    requires
        app.wf(),
    ensures
        app.tabs@.len() >= 1,
        app.active_tab < app.tabs@.len(),
{
}

/// Keeping the selection in view: with rows to show, the selected row
/// shows among them.
pub proof fn law_selection_in_view(selected: int, scroll: int, visible_height: int)
    requires
        visible_height > 0,
    ensures
        scroll_for(selected, scroll, visible_height) <= selected < scroll_for(selected, scroll, visible_height)
            + visible_height,
{
}

/// Unless blank lines are ignored, each side of a two-way diff shows all
/// its lines, each once and in order.
pub proof fn law_two_way_shows_all_lines(r: DiffResult, left: Seq<Seq<char>>, right: Seq<Seq<char>>, o: DiffOptions)
    requires
        is_two_way_diff(r, left, right, o),
        !o.ignore_blank_lines,
    ensures
        diff_shown(r.lines@, true) == count_from(0, left.len() as int),
        diff_shown(r.lines@, false) == count_from(0, right.len() as int),
{
    lemma_normalize_keeps_count(left, o);
    lemma_normalize_keeps_count(right, o);
}

/// Each pane of a three-way merge view shows its text whole and in order.
pub proof fn law_three_way_shows_all_lines(r: ThreeWayResult, base: Seq<Seq<char>>, left: Seq<Seq<char>>, right: Seq<Seq<char>>)
    requires
        is_merge_view(r, base, left, right),
    ensures
        shown(r.lines@, Pane::Base) == numbers_between(0, base.len() as int),
        shown(r.lines@, Pane::Left) == numbers_between(0, left.len() as int),
        shown(r.lines@, Pane::Right) == numbers_between(0, right.len() as int),
{
}

/// A copy made with everything selected ends the selection: the next copy
/// applies to the current block again.
pub proof fn law_select_all_cleared_after_copy(before: TabState, after: TabState, to_right: bool)
    requires
        before.select_all,
        to_right ==> copy_to_right_done(before, after),
        !to_right ==> copy_to_left_done(before, after),
    ensures
        !after.select_all,
{
    if to_right {
        let mid = choose|mid: TabState| #[trigger] copy_all_left_to_right_spec(before, mid) && after == (TabState { select_all: false, ..mid });
    } else {
        let mid = choose|mid: TabState| #[trigger] copy_all_right_to_left_spec(before, mid) && after == (TabState { select_all: false, ..mid });
    }
}

/// Escape leaves every dialog: the file dialogs, the question of how many
/// panes, and the questions about unsaved changes all return to normal
/// mode.
pub proof fn law_escape_leaves_dialogs(before: App, after: App, k: KeyPress, now: u64, effects: Seq<Effect>)
    requires
        k.key == Key::Esc,
        before.mode != AppMode::Normal,
        before.mode != AppMode::Editing,
        key_done(before, after, k, now, effects),
    ensures
        after.mode == AppMode::Normal,
        effects.len() == 0,
{
}

/// Ctrl+Q with unsaved changes in some tab asks first instead of quitting;
/// without any it quits.
pub proof fn law_quit_asks_when_unsaved(before: App, after: App, now: u64, effects: Seq<Effect>)
    requires
        before.mode == AppMode::Normal,
        !before.active().is_dir_compare,
        key_done(before, after, KeyPress { key: Key::Char('q'), ctrl: true, alt: false, shift: false }, now, effects),
    ensures
        has_unsaved(before) ==> after.should_quit == before.should_quit && after.mode == AppMode::SaveConfirm,
        !has_unsaved(before) ==> after.should_quit,
{
    assert(normal_command(KeyPress { key: Key::Char('q'), ctrl: true, alt: false, shift: false }) == Command::Quit);
}

/// Run as a merge tool, saving writes the base pane to the output path and
/// ends the run with the result saved.
pub proof fn law_merge_tool_save(before: App, after: App, effects: Seq<Effect>)
    requires
        before.output_path is Some,
        save_done(before, after, effects),
    ensures
        after.output_saved,
        after.should_quit,
        effects.len() == 1,
        effects[0] is Write,
{
}

/// A row of a two-way diff marked equal shows a line of each side, and
/// the two are equal as the diff compares them: once normalized under its
/// options.
pub proof fn law_equal_rows_match(r: DiffResult, left: Seq<Seq<char>>, right: Seq<Seq<char>>, o: DiffOptions, k: int)
    requires
        is_line_diff(r, left, right, o),
        0 <= k < r.lines@.len(),
        r.lines@[k].status == LineStatus::Equal,
    ensures
        r.lines@[k].left_line_no matches Some(a) && r.lines@[k].right_line_no matches Some(b) && 1 <= a <= normalize_lines(
            left,
            o,
        ).len() && 1 <= b <= normalize_lines(right, o).len() && normalize_lines(left, o)[a - 1] == normalize_lines(right, o)[b
            - 1],
{
    let tags = choose|tags: Seq<ChangeKind>|
        is_edit_script(tags, normalize_lines(left, o), normalize_lines(right, o)) && #[trigger] is_diff_of(
            r,
            tags,
            left,
            right,
            word_diff_enabled(left.len(), right.len()),
        );
    let rows = spec_layout(tags);
    assert(line_shows(r.lines@[k], rows[k], left, right, word_diff_enabled(left.len(), right.len())));
    lemma_layout_equal_rows(tags, 0, 0);
    assert(rows[k].status == LineStatus::Equal);
    let j = choose|j: int| 0 <= j < tags.len() && tags[j] == ChangeKind::Equal && rows[k].left == Some(
        0int + old_taken(#[trigger] tags.take(j)) + 1,
    ) && rows[k].right == Some(0int + new_taken(tags.take(j)) + 1);
    lemma_taken_push(tags.take(j), tags[j]);
    assert(tags.take(j).push(tags[j]) =~= tags.take(j + 1));
    lemma_prefix_taken_le(tags, j + 1);
}

/// With no option on, a row of a two-way diff marked equal shows the same
/// text on both sides.
pub proof fn law_equal_rows_identical(r: DiffResult, left: Seq<Seq<char>>, right: Seq<Seq<char>>, o: DiffOptions, k: int)
    requires
        is_line_diff(r, left, right, o),
        !o.ignore_whitespace,
        !o.ignore_case,
        !o.ignore_blank_lines,
        0 <= k < r.lines@.len(),
        r.lines@[k].status == LineStatus::Equal,
    ensures
        r.lines@[k].left_text@ == r.lines@[k].right_text@,
{
    law_equal_rows_match(r, left, right, o, k);
    lemma_normalize_plain(left, o);
    lemma_normalize_plain(right, o);
    let tags = choose|tags: Seq<ChangeKind>|
        is_edit_script(tags, normalize_lines(left, o), normalize_lines(right, o)) && #[trigger] is_diff_of(
            r,
            tags,
            left,
            right,
            word_diff_enabled(left.len(), right.len()),
        );
    assert(line_shows(r.lines@[k], spec_layout(tags)[k], left, right, word_diff_enabled(left.len(), right.len())));
}

/// A row of a three-way merge view marked equal shows a line of each text,
/// and the three are the same line.
pub proof fn law_three_way_equal_rows(r: ThreeWayResult, base: Seq<Seq<char>>, left: Seq<Seq<char>>, right: Seq<Seq<char>>, q: int)
    requires
        is_merge_view(r, base, left, right),
        0 <= q < r.lines@.len(),
        r.lines@[q].status == ThreeWayStatus::Equal,
    ensures
        r.lines@[q].base_line_no matches Some(b) && r.lines@[q].left_line_no matches Some(l) && r.lines@[q].right_line_no
            matches Some(rn) && 1 <= b <= base.len() && 1 <= l <= left.len() && 1 <= rn <= right.len() && base[b - 1]
            == left[l - 1] && base[b - 1] == right[rn - 1],
{
    assert(row_lines_equal(r.lines@[q], base, left, right));
    let row = r.lines@[q];
    assert(row == r.lines@[q]);
}

/// Refreshing never reads unsaved work again from disk: a tab with
/// unsaved changes, a typed line being edited, or (outside editing)
/// anything to undo is re-diffed in place, its texts unchanged, and no file
/// is asked for.
pub proof fn law_refresh_keeps_unsaved_work(before: App, after: App, now: u64, effects: Seq<Effect>)
    requires
        refresh_done(before, after, now, effects),
        before.mode != AppMode::Editing ==> before.active().has_unsaved_changes || before.active().undo_view().len() > 0
            || (before.active().edit_state matches Some(e) && e.dirty),
        before.mode == AppMode::Editing ==> before.active().has_unsaved_changes || (before.active().edit_state matches Some(
            e,
        ) && e.dirty),
    ensures
        after.active().texts() == before.active().texts(),
        effects.len() == 0,
{
    if panes_ok(before) {
        let mid = if before.mode == AppMode::Editing {
            choose|mid: App| #[trigger] exit_edit_done(before, mid) && refresh_rest(mid, after, now, effects)
        } else {
            before
        };
        assert(refresh_rest(mid, after, now, effects));
        assert(mid.active().texts() == before.active().texts());
        let t = mid.active();
        assert(t.has_unsaved_changes || (t.edit_state matches Some(e) && e.dirty) || t.undo_view().len() > 0);
        let mid2 = choose|mid2: App| #[trigger] tab_step(mid, mid2) && recompute_diff_spec(t, mid2.active())
            && status_set(mid2, after, "Re-diffed (unsaved changes preserved)"@, now);
        assert(after.active() == mid2.active());
    }
}

/// Two equal texts have a two-way diff without differences: every row is
/// equal and no block starts.
pub proof fn law_equal_texts_no_differences(r: DiffResult, left: Seq<Seq<char>>, right: Seq<Seq<char>>, o: DiffOptions)
    requires
        is_line_diff(r, left, right, o),
        left == right,
    ensures
        forall|k: int| 0 <= k < r.lines@.len() ==> (#[trigger] r.lines@[k]).status == LineStatus::Equal,
        r.diff_positions@.len() == 0,
        r.diff_count == 0,
{
    lemma_equal_texts_no_blocks(r, left, right, o);
}

/// Three equal texts have a merge view without differences or conflicts.
pub proof fn law_equal_texts_no_differences3(r: ThreeWayResult, base: Seq<Seq<char>>, left: Seq<Seq<char>>, right: Seq<Seq<char>>)
    requires
        is_merge_view(r, base, left, right),
        base == left,
        base == right,
    ensures
        r.diff_positions@.len() == 0,
        r.conflict_count == 0,
{
    lemma_equal_texts_no_blocks3(r, base, left, right);
}

/// In a two-way tab, copying a whole pane over the other leaves no
/// difference and none current.
pub proof fn law_copy_all_clears_differences(t0: TabState, t1: TabState, t2: TabState)
    requires
        !t0.is_three_way,
        copy_all_left_to_right_spec(t0, t1),
        copy_all_right_to_left_spec(t0, t2),
    ensures
        t1.spec_diff_count() == 0,
        t1.current_diff == -1,
        t2.spec_diff_count() == 0,
        t2.current_diff == -1,
{
    let r1 = t1.diff_result->0;
    lemma_equal_texts_no_blocks(r1, lines_of(t1.left_buf@), lines_of(t1.right_buf@), t1.diff_options);
    let r2 = t2.diff_result->0;
    lemma_equal_texts_no_blocks(r2, lines_of(t2.left_buf@), lines_of(t2.right_buf@), t2.diff_options);
}

/// A blank tab shows no difference and none is current.
pub proof fn law_blank_tab_no_differences(t0: TabState, t1: TabState, three: bool)
    requires
        new_blank_spec(t0, t1, three),
    ensures
        t1.spec_diff_count() == 0,
        t1.current_diff == -1,
{
    assert(lines_of(t1.left_buf@) =~= lines_of(t1.base_buf@));
    assert(lines_of(t1.right_buf@) =~= lines_of(t1.base_buf@));
    if three {
        lemma_equal_texts_no_blocks3(t1.three_way_result->0, lines_of(t1.base_buf@), lines_of(t1.left_buf@), lines_of(t1.right_buf@));
    } else {
        lemma_equal_texts_no_blocks(t1.diff_result->0, lines_of(t1.left_buf@), lines_of(t1.right_buf@), t1.diff_options);
    }
}

/// A file read into a buffer and saved again gives back the same text, for
/// a text without carriage returns that is empty or ends with a newline,
/// other than a lone newline.
pub proof fn law_text_round_trip(s: Seq<char>)
    requires
        s.len() == 0 || (s.last() == '\n' && s != seq!['\n']),
        forall|k: int| 0 <= k < s.len() ==> s[k] != '\r',
    ensures
        spec_buf_to_text(spec_str_to_lines(s)) == s,
{
    lemma_text_round_trip(s);
}

/// A buffer saved as text and read back gives back the same lines, for a
/// buffer with a line whose lines hold no newline and do not end with a
/// carriage return.
pub proof fn law_lines_round_trip(buf: Seq<Seq<char>>)
    requires
        buf.len() >= 1,
        forall|k: int| 0 <= k < buf.len() ==> plain_line(#[trigger] buf[k]),
    ensures
        spec_str_to_lines(spec_buf_to_text(buf)) == buf,
{
    lemma_lines_round_trip(buf);
}

/// A backspace right after typing a character takes it away again: the
/// pane and the cursor are as before the typing (the line marked as
/// edited), for a cursor within an existing line.
pub proof fn law_backspace_undoes_typing(t0: TabState, t1: TabState, t2: TabState, ch: char)
    requires
        t0.edit_state is Some,
        ({
            let e = t0.edit_state->0;
            &&& (e.source_line as int) < t0.pane(e.panel).len()
            &&& e.cursor_col <= t0.pane(e.panel)[e.source_line as int].len()
            &&& e.cursor_col < usize::MAX
        }),
        edit_insert_char_spec(t0, t1, ch),
        edit_backspace_spec(t1, t2),
    ensures
        ({
            let e = t0.edit_state->0;
            &&& t2.pane(e.panel) == t0.pane(e.panel)
            &&& t2.edit_state == Some(EditState { dirty: true, ..e })
        }),
{
    let e = t0.edit_state->0;
    let p = t0.pane(e.panel);
    let sl = e.source_line as int;
    let col = e.cursor_col as int;
    assert(padded(p, sl + 1) == p);
    let l = p[sl];
    let typed_line = insert_char(l, col, ch);
    assert(typed_line == l.take(col) + seq![ch] + l.skip(col));
    assert(typed_line.remove(col) =~= l);
    let p1 = t1.pane(e.panel);
    assert(p1 == p.update(sl, typed_line));
    assert(p1.update(sl, p1[sl].remove(col)) =~= p);
}

/// A backspace right after breaking a line joins it again: the pane and
/// the cursor are as before the break (the line marked as edited), for a
/// cursor within an existing line.
pub proof fn law_backspace_undoes_line_break(t0: TabState, t1: TabState, t2: TabState)
    requires
        t0.edit_state is Some,
        ({
            let e = t0.edit_state->0;
            &&& (e.source_line as int) < t0.pane(e.panel).len()
            &&& e.cursor_col <= t0.pane(e.panel)[e.source_line as int].len()
            &&& e.source_line < usize::MAX
            &&& e.display_line < usize::MAX
        }),
        edit_enter_spec(t0, t1),
        edit_backspace_spec(t1, t2),
    ensures
        ({
            let e = t0.edit_state->0;
            &&& t2.pane(e.panel) == t0.pane(e.panel)
            &&& t2.edit_state == Some(EditState { dirty: true, ..e })
        }),
{
    let e = t0.edit_state->0;
    let p = t0.pane(e.panel);
    let sl = e.source_line as int;
    let col = e.cursor_col as int;
    assert(padded(p, sl + 1) == p);
    let l = p[sl];
    assert(clamp_col(l.len() as int, col) == col);
    let p1 = t1.pane(e.panel);
    assert(p1 == p.update(sl, l.take(col)).insert(sl + 1, l.skip(col)));
    assert(p1.len() == p.len() + 1);
    assert(p1[sl] == l.take(col));
    assert(p1[sl + 1] == l.skip(col));
    assert(joined(p1, sl + 1) =~= p) by {
        assert(l.take(col) + l.skip(col) =~= l);
    }
}

/// Moving the cursor up right after moving it down puts it back, when
/// there is a line below and the cursor's column is within both lines.
pub proof fn law_move_up_undoes_move_down(t0: TabState, t1: TabState, t2: TabState)
    requires
        t0.edit_state is Some,
        ({
            let e = t0.edit_state->0;
            let p = t0.pane(e.panel);
            &&& (e.source_line as int) + 1 < p.len()
            &&& e.cursor_col <= p[e.source_line as int].len()
            &&& e.cursor_col <= p[e.source_line + 1].len()
            &&& e.source_line < usize::MAX
            &&& e.display_line < usize::MAX
        }),
        edit_move_down_spec(t0, t1),
        edit_move_up_spec(t1, t2),
    ensures
        t2.edit_state == t0.edit_state,
        t2.pane(PanelSide::Left) == t0.pane(PanelSide::Left),
        t2.pane(PanelSide::Right) == t0.pane(PanelSide::Right),
        t2.pane(PanelSide::Base) == t0.pane(PanelSide::Base),
{
    let e = t0.edit_state->0;
    assert(t1.pane(e.panel) == t0.pane(e.panel)) by {
        match e.panel {
            PanelSide::Left => {},
            PanelSide::Right => {},
            PanelSide::Base => {},
        }
    }
    let e1 = t1.edit_state->0;
    assert(e1.source_line == e.source_line + 1);
    assert(e1.cursor_col == e.cursor_col);
    assert(e1.display_line == e.display_line + 1);
    assert(e1.source_line > 0);
    assert(t2.edit_state == Some(EditState { source_line: e.source_line, display_line: e.display_line, cursor_col: e.cursor_col, ..e1 }));
}

/// Clicking into a pane and typing a character shows the character in the
/// line the click picked, at the cursor the click placed.
pub proof fn law_click_then_type(t0: TabState, t1: TabState, t2: TabState, panel: PanelSide, display_line: usize, col: usize, ch: char)
    requires
        enter_edit_mode_spec(t0, t1, panel, display_line, col),
        edit_insert_char_spec(t1, t2, ch),
        col < usize::MAX,
    ensures
        ({
            let e = t1.edit_state->0;
            &&& e.panel == panel
            &&& t2.pane(panel)[e.source_line as int][e.cursor_col as int] == ch
            &&& t2.edit_state->0.cursor_col == e.cursor_col + 1
        }),
{
    let e = t1.edit_state->0;
    law_typing_is_reflected(t1, t2, ch);
    let p = t1.pane(panel);
    let sl = e.source_line as int;
    let before_len = if sl < p.len() { p[sl].len() as int } else { 0 };
    assert(t1.pane(panel) == t0.pane(panel));
    assert(clamp_col(before_len, e.cursor_col as int) == e.cursor_col);
}

/// In the application, a click into a pane starts editing there, on a
/// line of the pane (the first when it is empty), and a character typed
/// next shows in that line at the cursor, which the line then holds.
pub proof fn law_app_click_then_type(
    a0: App,
    a1: App,
    a2: App,
    panel: PanelSide,
    display_line: usize,
    col: usize,
    ch: char,
)
    requires
        enter_edit_done(a0, a1, panel, display_line, col),
        a2.active_tab == a1.active_tab,
        edit_insert_char_spec(a1.active(), a2.active(), ch),
        col < usize::MAX,
    ensures
        a1.mode == AppMode::Editing,
        ({
            let e = a1.active().edit_state->0;
            let len = a1.active().pane(panel).len();
            &&& e.panel == panel
            &&& e.source_line < (if len > 0 { len } else { 1 })
            &&& (e.source_line as int) < a2.active().pane(panel).len()
            &&& a2.active().pane(panel)[e.source_line as int][e.cursor_col as int] == ch
        }),
{
    let t0 = a0.active();
    let t1 = a1.active();
    let t2 = a2.active();
    law_click_then_type(t0, t1, t2, panel, display_line, col, ch);
    let e = t1.edit_state->0;
    let p = t1.pane(panel);
    assert(p == t0.pane(panel));
    let q = padded(p, e.source_line + 1);
    assert(q.len() >= e.source_line + 1);
    assert(t2.pane(panel) == typed(p, e.source_line as int, e.cursor_col as int, ch));
}

/// In a directory comparison, a file found on one side only is marked as
/// such, and a file found on both sides is never: it is equal when the two
/// files hold the same bytes and changed otherwise.
pub proof fn law_dir_entry_status(listing: Seq<(String, bool, bool)>, same_content: Seq<bool>, r: DirCompareResult)
    requires
        r.entries@.len() == listing.len(),
        same_content.len() == listing.len(),
        forall|k: int| 0 <= k < listing.len() ==>
            (#[trigger] r.entries@[k]).status == entry_status(listing[k].1, listing[k].2, same_content[k]),
    ensures
        forall|k: int| 0 <= k < listing.len() ==> {
            let st = (#[trigger] r.entries@[k]).status;
            let (in_left, in_right) = (listing[k].1, listing[k].2);
            &&& (st == DirEntryStatus::LeftOnly) == (in_left && !in_right)
            &&& (st == DirEntryStatus::RightOnly) == (!in_left && in_right)
            &&& in_left && in_right ==> st == if same_content[k] { DirEntryStatus::Equal } else { DirEntryStatus::Changed }
        },
{
}

/// In normal mode, outside a directory comparison, F8 and `n` move to the
/// next difference (staying at the last), leaving the document as it was
/// and asking for no outside work.
pub proof fn law_f8_next_difference(before: App, after: App, k: KeyPress, now: u64, effects: Seq<Effect>)
    requires
        before.mode == AppMode::Normal,
        !before.active().is_dir_compare,
        k.key == Key::F(8) || k.key == Key::Char('n'),
        key_done(before, after, k, now, effects),
    ensures
        effects.len() == 0,
        after.active_tab == before.active_tab,
        after.active().same_document(&before.active()),
        ({
            let n = before.active().spec_diff_count();
            let cd = before.active().current_diff;
            after.active().current_diff == if n == 0 { cd as int } else if cd + 1 < n - 1 { cd + 1 } else { n - 1 }
        }),
{
}

/// In normal mode, outside a directory comparison, F7 and `p` move to the
/// previous difference (staying at the first), leaving the document as it
/// was and asking for no outside work.
pub proof fn law_f7_previous_difference(before: App, after: App, k: KeyPress, now: u64, effects: Seq<Effect>)
    requires
        before.mode == AppMode::Normal,
        !before.active().is_dir_compare,
        k.key == Key::F(7) || k.key == Key::Char('p'),
        key_done(before, after, k, now, effects),
    ensures
        effects.len() == 0,
        after.active_tab == before.active_tab,
        after.active().same_document(&before.active()),
        ({
            let n = before.active().spec_diff_count();
            let cd = before.active().current_diff;
            after.active().current_diff == if n == 0 { cd as int } else if cd - 1 > 0 { cd - 1 } else { 0 }
        }),
{
}

/// Copying a three-way block whose rows show the base lines `m` to `M`
/// (counting from 1) into the base keeps the base lines before `m`, puts
/// the block's lines of the side copied from, in row order, in their place,
/// and keeps the base lines after `M` behind them: no base line the block
/// shows survives.
pub proof fn law_three_way_copy_replaces_block(
    lines: Seq<ThreeWayLine>,
    start: int,
    from: Pane,
    src: Seq<String>,
    base: Seq<String>,
    nb: Seq<String>,
)
    requires
        0 <= start <= lines.len(),
        pane_within(lines, Pane::Base, base.len() as int),
        shown(lines.subrange(start, block_end3(lines, start)), Pane::Base).len() > 0,
        nb == copy_block3(lines, start, from, src, base),
    ensures
        ({
            let rows = lines.subrange(start, block_end3(lines, start));
            let bn = shown(rows, Pane::Base);
            let m = seq_min(bn);
            let mx = seq_max(bn);
            let source = lines_numbered(src, shown(rows, from));
            &&& 1 <= m <= mx <= base.len()
            &&& nb.len() == base.len() - (mx - m + 1) + source.len()
            &&& forall|i: int| 0 <= i < m - 1 ==> nb[i] == base[i]
            &&& forall|j: int| 0 <= j < source.len() ==> nb[m - 1 + j] == source[j]
            &&& forall|i: int| mx <= i < base.len() ==> nb[i - (mx - m + 1) + source.len()] == base[i]
        }),
{
    let rows = lines.subrange(start, block_end3(lines, start));
    let bn = shown(rows, Pane::Base);
    crate::block_copy::lemma_block_end3_bounds(lines, start);
    assert forall|k: int| 0 <= k < rows.len() implies (#[trigger] number_in_pane(rows[k], Pane::Base) matches Some(n) ==> 1 <= n <= base.len()) by {
        assert(rows[k] == lines[start + k]);
    }
    lemma_shown_bounds(rows, Pane::Base, base.len() as int);
    lemma_min_max_bounds(bn, 1, base.len() as int);
}

/// In a two-way diff with word highlighting, the segments of each side of
/// a modified row spell that side's line in full, and both sides leave the
/// same characters unmarked: the equal ones stand unmarked on both sides,
/// each side's own characters marked on it.
pub proof fn law_word_segments_spell_lines(r: DiffResult, left: Seq<Seq<char>>, right: Seq<Seq<char>>, o: DiffOptions, k: int)
    requires
        is_line_diff(r, left, right, o),
        0 <= k < r.lines@.len(),
        r.lines@[k].status == LineStatus::Modified,
        word_diff_enabled(left.len(), right.len()),
    ensures
        seg_text(segs_view(r.lines@[k].left_word_segments@)) == r.lines@[k].left_text@,
        seg_text(segs_view(r.lines@[k].right_word_segments@)) == r.lines@[k].right_text@,
        unmarked_text(segs_view(r.lines@[k].left_word_segments@)) == unmarked_text(segs_view(r.lines@[k].right_word_segments@)),
{
    let word = word_diff_enabled(left.len(), right.len());
    let tags = choose|tags: Seq<ChangeKind>|
        is_edit_script(tags, normalize_lines(left, o), normalize_lines(right, o))
            && (normalize_lines(left, o) == normalize_lines(right, o) ==> crate::sequence_diff::all_equal(tags))
            && #[trigger] is_diff_of(r, tags, left, right, word);
    let row = spec_layout(tags)[k];
    assert(line_shows(r.lines@[k], row, left, right, word));
    let lt = text_at(left, row.left);
    let rt = text_at(right, row.right);
    lemma_word_segments_spell(lt, rt);
    lemma_side_segments_unmarked(crate::sequence_diff::spec_char_diff(lt, rt), true);
    lemma_side_segments_unmarked(crate::sequence_diff::spec_char_diff(lt, rt), false);
}

/// In a three-way merge view, a row of a block marked as changed the same
/// way on both sides shows the same on the left as on the right: a line on
/// both, and the same line, or none on either.
pub proof fn law_three_way_both_changed_agrees(r: ThreeWayResult, base: Seq<Seq<char>>, left: Seq<Seq<char>>, right: Seq<Seq<char>>, q: int)
    requires
        is_merge_view(r, base, left, right),
        left.len() <= u32::MAX,
        right.len() <= u32::MAX,
        0 <= q < r.lines@.len(),
        r.lines@[q].status == ThreeWayStatus::BothChanged,
    ensures
        row_sides_agree(r.lines@[q], left, right),
{
    lemma_both_changed_rows_agree(r, base, left, right, q);
}

/// In a three-way merge view, a conflict is a real disagreement: each row
/// marked as a conflict lies in an unbroken run of conflict rows, one of
/// which shows something different on the left than on the right.
pub proof fn law_three_way_conflict_disagrees(r: ThreeWayResult, base: Seq<Seq<char>>, left: Seq<Seq<char>>, right: Seq<Seq<char>>, q: int)
    requires
        is_merge_view(r, base, left, right),
        left.len() <= u32::MAX,
        right.len() <= u32::MAX,
        0 <= q < r.lines@.len(),
        r.lines@[q].status == ThreeWayStatus::Conflict,
    ensures
        exists|q2: int|
            0 <= q2 < r.lines@.len() && !row_sides_agree(#[trigger] r.lines@[q2], left, right)
                && forall|i: int| (q <= i <= q2 || q2 <= i <= q) ==> (#[trigger] r.lines@[i]).status == ThreeWayStatus::Conflict,
{
    let q2 = lemma_conflict_rows_differ(r, base, left, right, q);
    assert(!row_sides_agree(r.lines@[q2], left, right));
}

/// In a three-way merge view, a block marked as changed on one side only
/// leaves the other side as the base: each of its rows shows on that side
/// the base's line (or no line where the base shows none).
pub proof fn law_three_way_one_sided_keeps_other(r: ThreeWayResult, base: Seq<Seq<char>>, left: Seq<Seq<char>>, right: Seq<Seq<char>>, q: int)
    requires
        is_merge_view(r, base, left, right),
        base.len() <= u32::MAX,
        left.len() <= u32::MAX,
        right.len() <= u32::MAX,
        0 <= q < r.lines@.len(),
    ensures
        r.lines@[q].status == ThreeWayStatus::LeftChanged ==> row_shows_base(r.lines@[q], Pane::Right, base, right),
        r.lines@[q].status == ThreeWayStatus::RightChanged ==> row_shows_base(r.lines@[q], Pane::Left, base, left),
{
    lemma_one_sided_rows(r, base, left, right, q);
}

} // verus!
