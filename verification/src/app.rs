//! The application state: the open tabs and the active one, the mode of
//! input, the file dialog, and the status line.

use vstd::prelude::*;
use crate::file_browser::FileBrowser;
use crate::models::{DirCompareResult, DirEntryStatus};
use crate::tab::{is_fresh_tab, resolved_source, spec_total_lines, texts_fit, MAX_LINES, copy_all_left_to_right_spec, copy_all_right_to_left_spec, copy_left_to_right_spec, copy_right_to_left_spec, enter_edit_mode_spec, exit_edit_mode_spec, open_dirs_spec, copy_left_to_right_and_next_spec, copy_right_to_left_and_next_spec, edit_backspace_spec, edit_delete_spec, edit_enter_spec, edit_insert_char_spec, edit_move_down_spec, edit_move_end_spec, edit_move_home_spec, edit_move_left_spec, edit_move_right_spec, edit_move_up_spec, first_diff_spec, h_scroll_left_spec, h_scroll_right_spec, last_diff_spec, new_blank_spec, next_diff_spec, open_files_3way_spec, open_files_spec, prev_diff_spec, recompute_diff_spec, redo_spec, scroll_down_spec, scroll_up_spec, toggle_ignore_case_spec, toggle_ignore_whitespace_spec, undo_spec};
use crate::file_browser::{path_join, path_parent, spec_parent, spec_path_join};
use crate::tab::{path_file_name, spec_file_name};
use crate::text::spec_str_to_lines;

pub use crate::tab::{EditState, PanelSide, TabState};
pub use crate::text::{buf_to_text, str_to_lines};

verus! {

/// What input currently goes to.
#[derive(Debug, Clone, Copy, PartialEq, Eq, Structural)]
pub enum AppMode {
    Normal,
    Editing,
    OpenLeft,
    OpenRight,
    OpenBase,
    OpenChooseMode,
    SaveLeft,
    SaveRight,
    SaveConfirm,
    CloseTabConfirm,
}

/// How long a status message stays shown, in milliseconds.
pub const STATUS_MESSAGE_MS: u64 = 3000;

/// The whole application state.
pub struct App {
    pub tabs: Vec<TabState>,
    pub active_tab: usize,
    pub mode: AppMode,
    pub file_browser: Option<FileBrowser>,
    pub should_quit: bool,
    /// The status message and when it was set (milliseconds on the
    /// caller's clock).
    pub status_message: Option<(String, u64)>,
    pub new_file_pending: bool,
    /// Where the merged base is written when run as a merge tool.
    pub output_path: Option<String>,
    pub output_saved: bool,
}

impl App {
    /// There is a tab, the active one exists, and every tab keeps its
    /// invariant with snapshots of at most `MAX_LINES` lines per pane.
    pub open spec fn wf(&self) -> bool {
        &&& self.tabs@.len() >= 1
        &&& self.active_tab < self.tabs@.len()
        &&& forall|k: int| 0 <= k < self.tabs@.len() ==> #[trigger] tab_ok(self.tabs@[k])
    }

    /// The active tab.
    pub open spec fn active(&self) -> TabState {
        self.tabs@[self.active_tab as int]
    }

    /// Only the active tab changed.
    pub open spec fn same_except_active(&self, before: &App) -> bool {
        &&& self.tabs@.len() == before.tabs@.len()
        &&& self.active_tab == before.active_tab
        &&& forall|k: int| 0 <= k < self.tabs@.len() && k != self.active_tab ==> self.tabs@[k] == before.tabs@[k]
        &&& self.mode == before.mode
        &&& self.file_browser == before.file_browser
        &&& self.should_quit == before.should_quit
        &&& self.status_message == before.status_message
        &&& self.new_file_pending == before.new_file_pending
        &&& self.output_path == before.output_path
        &&& self.output_saved == before.output_saved
    }
}

/// The paths `App::dir_selected_paths` gives for a tab.
pub open spec fn selected_paths(t: TabState) -> Option<(Seq<char>, Seq<char>)> {
    if !t.is_dir_compare {
        None
    } else {
        match t.dir_result {
            Some(r) => if (r.selected as int) < r.entries@.len() {
                let e = r.entries@[r.selected as int];
                let lp = spec_path_join(r.left_dir@, e.rel_path@);
                let rp = spec_path_join(r.right_dir@, e.rel_path@);
                match e.status {
                    DirEntryStatus::LeftOnly => Some((lp, Seq::<char>::empty())),
                    DirEntryStatus::RightOnly => Some((Seq::<char>::empty(), rp)),
                    _ => Some((lp, rp)),
                }
            } else {
                None
            },
            None => None,
        }
    }
}

/// The tab after tab `a` of `n`, wrapping around to the first.
pub open spec fn next_index(n: int, a: int) -> int {
    if n > 1 {
        (a + 1) % n
    } else {
        a
    }
}

/// The tab before tab `a` of `n`, wrapping around to the last.
pub open spec fn prev_index(n: int, a: int) -> int {
    if n > 1 {
        if a == 0 {
            n - 1
        } else {
            a - 1
        }
    } else {
        a
    }
}

/// A tab keeps its invariant, with snapshots of at most `MAX_LINES` lines
/// per pane.
pub open spec fn tab_ok(t: TabState) -> bool {
    t.wf() && t.history_fits()
}

/// Changing only the active tab, to one that keeps its invariant, keeps
/// the application's.
pub(crate) proof fn lemma_wf_after_tab_step(before: &App, after: &App)
    requires
        before.wf(),
        after.same_except_active(before),
        after.active().wf(),
        after.active().history_fits() || (after.active().undo_view() == before.active().undo_view()
            && after.active().redo_view() == before.active().redo_view()),
    ensures
        after.wf(),
{
    let a = after.active_tab as int;
    assert(tab_ok(before.tabs@[a]));
    if !after.active().history_fits() {
        let t = after.active();
        let u = before.active();
        assert forall|k: int| 0 <= k < t.undo_view().len() implies #[trigger] texts_fit(t.undo_view()[k]) by {
            assert(texts_fit(u.undo_view()[k]));
        }
        assert forall|k: int| 0 <= k < t.redo_view().len() implies #[trigger] texts_fit(t.redo_view()[k]) by {
            assert(texts_fit(u.redo_view()[k]));
        }
    }
    assert forall|k: int| 0 <= k < after.tabs@.len() implies #[trigger] tab_ok(after.tabs@[k]) by {
        if k != a {
            assert(after.tabs@[k] == before.tabs@[k]);
            assert(tab_ok(before.tabs@[k]));
        }
    }
}

/// Some tab has unsaved changes.
pub open spec fn has_unsaved(a: App) -> bool {
    exists|k: int| 0 <= k < a.tabs@.len() && #[trigger] a.tabs@[k].has_unsaved_changes
}

/// `App::enter_edit_mode`: the active tab starts editing, in editing mode.
pub open spec fn enter_edit_done(before: App, after: App, panel: PanelSide, display_line: usize, col: usize) -> bool {
    &&& after == (App { mode: AppMode::Editing, tabs: after.tabs, ..before })
    &&& after.tabs@ == before.tabs@.update(before.active_tab as int, after.active())
    &&& enter_edit_mode_spec(before.active(), after.active(), panel, display_line, col)
}

/// `App::exit_edit_mode`: the active tab stops editing, in normal mode.
pub open spec fn exit_edit_done(before: App, after: App) -> bool {
    &&& after == (App { mode: AppMode::Normal, tabs: after.tabs, ..before })
    &&& after.tabs@ == before.tabs@.update(before.active_tab as int, after.active())
    &&& exit_edit_mode_spec(before.active(), after.active())
}

/// `App::copy_left_to_right` on a tab: the whole left pane when everything
/// is selected (which ends the selection), the current block otherwise.
pub open spec fn copy_to_right_done(before: TabState, after: TabState) -> bool {
    &&& before.select_all ==> exists|mid: TabState|
        #[trigger] copy_all_left_to_right_spec(before, mid) && after == (TabState { select_all: false, ..mid })
    &&& !before.select_all ==> copy_left_to_right_spec(before, after)
}

/// `App::copy_right_to_left` on a tab: the whole right pane when
/// everything is selected (which ends the selection), the current block
/// otherwise.
pub open spec fn copy_to_left_done(before: TabState, after: TabState) -> bool {
    &&& before.select_all ==> exists|mid: TabState|
        #[trigger] copy_all_right_to_left_spec(before, mid) && after == (TabState { select_all: false, ..mid })
    &&& !before.select_all ==> copy_right_to_left_spec(before, after)
}

/// The directory comparison with the next entry selected, when there is
/// one.
pub open spec fn dir_after_next(d: Option<DirCompareResult>) -> Option<DirCompareResult> {
    match d {
        Some(r) => if r.selected + 1 < r.entries@.len() {
            Some(DirCompareResult { selected: (r.selected + 1) as usize, ..r })
        } else {
            Some(r)
        },
        None => None,
    }
}

/// The directory comparison with the previous entry selected, when there
/// is one.
pub open spec fn dir_after_prev(d: Option<DirCompareResult>) -> Option<DirCompareResult> {
    match d {
        Some(r) => if r.selected > 0 {
            Some(DirCompareResult { selected: (r.selected - 1) as usize, ..r })
        } else {
            Some(r)
        },
        None => None,
    }
}

/// The file name and directory the save dialog starts with for a pane's
/// path: the path's own name (or the fallback name) and its parent (or
/// the working directory); without a path, the fallback name in the home
/// directory (or the working directory).
pub open spec fn save_default(path: Option<Seq<char>>, fallback: Seq<char>, cwd: Seq<char>, home: Option<Seq<char>>) -> (Seq<char>, Seq<char>) {
    match path {
        Some(p) => (
            match spec_file_name(p) {
                Some(n) => n,
                None => fallback,
            },
            match spec_parent(p) {
                Some(d) => d,
                None => cwd,
            },
        ),
        None => (
            fallback,
            match home {
                Some(h) => h,
                None => cwd,
            },
        ),
    }
}

/// `App::new_tab`: a fresh tab is added after the others and made active,
/// in normal mode with no dialog.
pub open spec fn new_tab_done(before: App, after: App) -> bool {
    &&& after.tabs@ == before.tabs@.push(after.active())
    &&& after.active_tab == before.tabs@.len()
    &&& is_fresh_tab(after.active())
    &&& after == (App { tabs: after.tabs, active_tab: after.active_tab, mode: AppMode::Normal, file_browser: None, ..before })
}

/// `App::close_tab`: unless it is the last one, the active tab goes, the
/// same position (or the new last tab) becomes active, in normal mode with
/// no dialog.
pub open spec fn close_tab_done(before: App, after: App) -> bool {
    if before.tabs@.len() > 1 {
        let tabs = before.tabs@.remove(before.active_tab as int);
        &&& after.tabs@ == tabs
        &&& after.active_tab == if before.active_tab < tabs.len() { before.active_tab as int } else { tabs.len() - 1 }
        &&& after == (App { tabs: after.tabs, active_tab: after.active_tab, mode: AppMode::Normal, file_browser: None, ..before })
    } else {
        after == before
    }
}

impl App {
    /// One empty tab, in normal mode.
    pub fn new() -> (app: App)
        ensures
            app.wf(),
            app.tabs@.len() == 1,
            is_fresh_tab(app.tabs@[0]),
            app.active_tab == 0,
            app.mode == AppMode::Normal,
            app.file_browser is None,
            !app.should_quit,
            app.status_message is None,
            !app.new_file_pending,
            app.output_path is None,
            !app.output_saved,
    {
        let mut tabs: Vec<TabState> = Vec::new();
        tabs.push(TabState::new());
        App {
            tabs,
            active_tab: 0,
            mode: AppMode::Normal,
            file_browser: None,
            should_quit: false,
            status_message: None,
            new_file_pending: false,
            output_path: None,
            output_saved: false,
        }
    }

    /// The active tab.
    pub fn active_tab(&self) -> (t: &TabState)
        requires
            self.wf(),
        ensures
            *t == self.active(),
            t.wf(),
            t.history_fits(),
    {
        proof {
            assert(tab_ok(self.tabs@[self.active_tab as int]));
        }
        &self.tabs[self.active_tab]
    }

    /// The active tab, to change.
    pub fn active_tab_mut(&mut self) -> (t: &mut TabState)
        requires
            old(self).wf(),
        ensures
            *t == old(self).active(),
            final(self).tabs@ == old(self).tabs@.update(old(self).active_tab as int, *final(t)),
            final(self).active_tab == old(self).active_tab,
            final(self).mode == old(self).mode,
            final(self).file_browser == old(self).file_browser,
            final(self).should_quit == old(self).should_quit,
            final(self).status_message == old(self).status_message,
            final(self).new_file_pending == old(self).new_file_pending,
            final(self).output_path == old(self).output_path,
            final(self).output_saved == old(self).output_saved,
    {
        proof {
            assert(tab_ok(self.tabs@[self.active_tab as int]));
        }
        &mut self.tabs[self.active_tab]
    }

    fn tab_mut(&mut self) -> (t: &mut TabState)
        requires
            old(self).wf(),
        ensures
            *t == old(self).active(),
            t.wf(),
            t.history_fits(),
            final(self).tabs@ == old(self).tabs@.update(old(self).active_tab as int, *final(t)),
            final(self).active_tab == old(self).active_tab,
            final(self).mode == old(self).mode,
            final(self).file_browser == old(self).file_browser,
            final(self).should_quit == old(self).should_quit,
            final(self).status_message == old(self).status_message,
            final(self).new_file_pending == old(self).new_file_pending,
            final(self).output_path == old(self).output_path,
            final(self).output_saved == old(self).output_saved,
    {
        proof {
            assert(tab_ok(self.tabs@[self.active_tab as int]));
        }
        &mut self.tabs[self.active_tab]
    }

    /// Opens two files in the active tab (see `TabState::open_files`).
    pub fn open_files(&mut self, left: String, right: String, left_content: &str, right_content: &str)
        requires
            old(self).wf(),
            spec_str_to_lines(left_content@).len() <= MAX_LINES,
            spec_str_to_lines(right_content@).len() <= MAX_LINES,
        ensures
            final(self).wf(),
            final(self).same_except_active(&*old(self)),
            open_files_spec(old(self).tabs@[old(self).active_tab as int], final(self).tabs@[old(self).active_tab as int], left, right, left_content, right_content),
    {
        let ghost a = self.active_tab as int;
        self.tab_mut().open_files(left, right, left_content, right_content);
        proof {
            lemma_wf_after_tab_step(&*old(self), &*self);
        }
    }

    /// Opens three files in the active tab (see `TabState::open_files_3way`).
    pub fn open_files_3way(&mut self, left: String, base: String, right: String, left_content: &str, base_content: &str, right_content: &str)
        requires
            old(self).wf(),
            spec_str_to_lines(left_content@).len() <= MAX_LINES,
            spec_str_to_lines(base_content@).len() <= MAX_LINES,
            spec_str_to_lines(right_content@).len() <= MAX_LINES,
        ensures
            final(self).wf(),
            final(self).same_except_active(&*old(self)),
            open_files_3way_spec(old(self).tabs@[old(self).active_tab as int], final(self).tabs@[old(self).active_tab as int], left, base, right, left_content, base_content, right_content),
    {
        let ghost a = self.active_tab as int;
        self.tab_mut().open_files_3way(left, base, right, left_content, base_content, right_content);
        proof {
            lemma_wf_after_tab_step(&*old(self), &*self);
        }
    }

    /// Recomputes the active tab's diff (see `TabState::recompute_diff`).
    pub fn recompute_diff(&mut self)
        requires
            old(self).wf(),
            texts_fit(old(self).tabs@[old(self).active_tab as int].texts()),
        ensures
            final(self).wf(),
            final(self).same_except_active(&*old(self)),
            recompute_diff_spec(old(self).tabs@[old(self).active_tab as int], final(self).tabs@[old(self).active_tab as int]),
    {
        let ghost a = self.active_tab as int;
        self.tab_mut().recompute_diff();
        proof {
            lemma_wf_after_tab_step(&*old(self), &*self);
        }
    }

    /// Moves to the next difference of the active tab.
    pub fn next_diff(&mut self)
        requires
            old(self).wf(),

        ensures
            final(self).wf(),
            final(self).same_except_active(&*old(self)),
            next_diff_spec(old(self).tabs@[old(self).active_tab as int], final(self).tabs@[old(self).active_tab as int]),
    {
        let ghost a = self.active_tab as int;
        self.tab_mut().next_diff();
        proof {
            lemma_wf_after_tab_step(&*old(self), &*self);
        }
    }

    /// Moves to the previous difference of the active tab.
    pub fn prev_diff(&mut self)
        requires
            old(self).wf(),

        ensures
            final(self).wf(),
            final(self).same_except_active(&*old(self)),
            prev_diff_spec(old(self).tabs@[old(self).active_tab as int], final(self).tabs@[old(self).active_tab as int]),
    {
        let ghost a = self.active_tab as int;
        self.tab_mut().prev_diff();
        proof {
            lemma_wf_after_tab_step(&*old(self), &*self);
        }
    }

    /// Moves to the first difference of the active tab.
    pub fn first_diff(&mut self)
        requires
            old(self).wf(),

        ensures
            final(self).wf(),
            final(self).same_except_active(&*old(self)),
            first_diff_spec(old(self).tabs@[old(self).active_tab as int], final(self).tabs@[old(self).active_tab as int]),
    {
        let ghost a = self.active_tab as int;
        self.tab_mut().first_diff();
        proof {
            lemma_wf_after_tab_step(&*old(self), &*self);
        }
    }

    /// Moves to the last difference of the active tab.
    pub fn last_diff(&mut self)
        requires
            old(self).wf(),

        ensures
            final(self).wf(),
            final(self).same_except_active(&*old(self)),
            last_diff_spec(old(self).tabs@[old(self).active_tab as int], final(self).tabs@[old(self).active_tab as int]),
    {
        let ghost a = self.active_tab as int;
        self.tab_mut().last_diff();
        proof {
            lemma_wf_after_tab_step(&*old(self), &*self);
        }
    }

    /// Undoes in the active tab (see `TabState::undo`).
    pub fn undo(&mut self)
        requires
            old(self).wf(),
            texts_fit(old(self).tabs@[old(self).active_tab as int].texts()),
        ensures
            final(self).wf(),
            final(self).same_except_active(&*old(self)),
            undo_spec(old(self).tabs@[old(self).active_tab as int], final(self).tabs@[old(self).active_tab as int]),
    {
        let ghost a = self.active_tab as int;
        self.tab_mut().undo();
        proof {
            lemma_wf_after_tab_step(&*old(self), &*self);
        }
    }

    /// Redoes in the active tab (see `TabState::redo`).
    pub fn redo(&mut self)
        requires
            old(self).wf(),
            texts_fit(old(self).tabs@[old(self).active_tab as int].texts()),
        ensures
            final(self).wf(),
            final(self).same_except_active(&*old(self)),
            redo_spec(old(self).tabs@[old(self).active_tab as int], final(self).tabs@[old(self).active_tab as int]),
    {
        let ghost a = self.active_tab as int;
        self.tab_mut().redo();
        proof {
            lemma_wf_after_tab_step(&*old(self), &*self);
        }
    }

    /// Scrolls the active tab down.
    pub fn scroll_down(&mut self, amount: usize)
        requires
            old(self).wf(),
            old(self).tabs@[old(self).active_tab as int].scroll_offset + amount <= usize::MAX,
        ensures
            final(self).wf(),
            final(self).same_except_active(&*old(self)),
            scroll_down_spec(old(self).tabs@[old(self).active_tab as int], final(self).tabs@[old(self).active_tab as int], amount),
    {
        let ghost a = self.active_tab as int;
        self.tab_mut().scroll_down(amount);
        proof {
            lemma_wf_after_tab_step(&*old(self), &*self);
        }
    }

    /// Scrolls the active tab up.
    pub fn scroll_up(&mut self, amount: usize)
        requires
            old(self).wf(),

        ensures
            final(self).wf(),
            final(self).same_except_active(&*old(self)),
            scroll_up_spec(old(self).tabs@[old(self).active_tab as int], final(self).tabs@[old(self).active_tab as int], amount),
    {
        let ghost a = self.active_tab as int;
        self.tab_mut().scroll_up(amount);
        proof {
            lemma_wf_after_tab_step(&*old(self), &*self);
        }
    }

    /// Scrolls the active tab right.
    pub fn h_scroll_right(&mut self, amount: usize)
        requires
            old(self).wf(),

        ensures
            final(self).wf(),
            final(self).same_except_active(&*old(self)),
            h_scroll_right_spec(old(self).tabs@[old(self).active_tab as int], final(self).tabs@[old(self).active_tab as int], amount),
    {
        let ghost a = self.active_tab as int;
        self.tab_mut().h_scroll_right(amount);
        proof {
            lemma_wf_after_tab_step(&*old(self), &*self);
        }
    }

    /// Scrolls the active tab left.
    pub fn h_scroll_left(&mut self, amount: usize)
        requires
            old(self).wf(),

        ensures
            final(self).wf(),
            final(self).same_except_active(&*old(self)),
            h_scroll_left_spec(old(self).tabs@[old(self).active_tab as int], final(self).tabs@[old(self).active_tab as int], amount),
    {
        let ghost a = self.active_tab as int;
        self.tab_mut().h_scroll_left(amount);
        proof {
            lemma_wf_after_tab_step(&*old(self), &*self);
        }
    }

    /// Copies the current block from the left and moves to the next difference.
    pub fn copy_left_to_right_and_next(&mut self)
        requires
            old(self).wf(),
            texts_fit(old(self).tabs@[old(self).active_tab as int].texts()),
            old(self).tabs@[old(self).active_tab as int].numbers_fit(),
        ensures
            final(self).wf(),
            final(self).same_except_active(&*old(self)),
            copy_left_to_right_and_next_spec(old(self).tabs@[old(self).active_tab as int], final(self).tabs@[old(self).active_tab as int]),
    {
        let ghost a = self.active_tab as int;
        self.tab_mut().copy_left_to_right_and_next();
        proof {
            lemma_wf_after_tab_step(&*old(self), &*self);
        }
    }

    /// Copies the current block from the right and moves to the next difference.
    pub fn copy_right_to_left_and_next(&mut self)
        requires
            old(self).wf(),
            texts_fit(old(self).tabs@[old(self).active_tab as int].texts()),
            old(self).tabs@[old(self).active_tab as int].numbers_fit(),
        ensures
            final(self).wf(),
            final(self).same_except_active(&*old(self)),
            copy_right_to_left_and_next_spec(old(self).tabs@[old(self).active_tab as int], final(self).tabs@[old(self).active_tab as int]),
    {
        let ghost a = self.active_tab as int;
        self.tab_mut().copy_right_to_left_and_next();
        proof {
            lemma_wf_after_tab_step(&*old(self), &*self);
        }
    }

    /// Switches ignoring whitespace in the active tab.
    pub fn toggle_ignore_whitespace(&mut self)
        requires
            old(self).wf(),
            texts_fit(old(self).tabs@[old(self).active_tab as int].texts()),
        ensures
            final(self).wf(),
            final(self).same_except_active(&*old(self)),
            toggle_ignore_whitespace_spec(old(self).tabs@[old(self).active_tab as int], final(self).tabs@[old(self).active_tab as int]),
    {
        let ghost a = self.active_tab as int;
        self.tab_mut().toggle_ignore_whitespace();
        proof {
            lemma_wf_after_tab_step(&*old(self), &*self);
        }
    }

    /// Switches ignoring case in the active tab.
    pub fn toggle_ignore_case(&mut self)
        requires
            old(self).wf(),
            texts_fit(old(self).tabs@[old(self).active_tab as int].texts()),
        ensures
            final(self).wf(),
            final(self).same_except_active(&*old(self)),
            toggle_ignore_case_spec(old(self).tabs@[old(self).active_tab as int], final(self).tabs@[old(self).active_tab as int]),
    {
        let ghost a = self.active_tab as int;
        self.tab_mut().toggle_ignore_case();
        proof {
            lemma_wf_after_tab_step(&*old(self), &*self);
        }
    }

    /// Empties the active tab for new texts (see `TabState::new_blank`).
    pub fn new_blank(&mut self, is_three_way: bool)
        requires
            old(self).wf(),

        ensures
            final(self).wf(),
            final(self).same_except_active(&*old(self)),
            new_blank_spec(old(self).tabs@[old(self).active_tab as int], final(self).tabs@[old(self).active_tab as int], is_three_way),
    {
        let ghost a = self.active_tab as int;
        self.tab_mut().new_blank(is_three_way);
        proof {
            lemma_wf_after_tab_step(&*old(self), &*self);
        }
    }

    /// Types a character in the active tab.
    pub fn edit_insert_char(&mut self, ch: char)
        requires
            old(self).wf(),
            old(self).tabs@[old(self).active_tab as int].edit_state matches Some(e) ==> e.cursor_col < usize::MAX,
        ensures
            final(self).wf(),
            final(self).same_except_active(&*old(self)),
            edit_insert_char_spec(old(self).tabs@[old(self).active_tab as int], final(self).tabs@[old(self).active_tab as int], ch),
    {
        let ghost a = self.active_tab as int;
        self.tab_mut().edit_insert_char(ch);
        proof {
            lemma_wf_after_tab_step(&*old(self), &*self);
        }
    }

    /// Deletes before the cursor in the active tab.
    pub fn edit_backspace(&mut self)
        requires
            old(self).wf(),

        ensures
            final(self).wf(),
            final(self).same_except_active(&*old(self)),
            edit_backspace_spec(old(self).tabs@[old(self).active_tab as int], final(self).tabs@[old(self).active_tab as int]),
    {
        let ghost a = self.active_tab as int;
        self.tab_mut().edit_backspace();
        proof {
            lemma_wf_after_tab_step(&*old(self), &*self);
        }
    }

    /// Deletes at the cursor in the active tab.
    pub fn edit_delete(&mut self)
        requires
            old(self).wf(),

        ensures
            final(self).wf(),
            final(self).same_except_active(&*old(self)),
            edit_delete_spec(old(self).tabs@[old(self).active_tab as int], final(self).tabs@[old(self).active_tab as int]),
    {
        let ghost a = self.active_tab as int;
        self.tab_mut().edit_delete();
        proof {
            lemma_wf_after_tab_step(&*old(self), &*self);
        }
    }

    /// Breaks the line at the cursor in the active tab.
    pub fn edit_enter(&mut self)
        requires
            old(self).wf(),
            old(self).tabs@[old(self).active_tab as int].edit_state matches Some(e) ==> e.display_line < usize::MAX,
        ensures
            final(self).wf(),
            final(self).same_except_active(&*old(self)),
            edit_enter_spec(old(self).tabs@[old(self).active_tab as int], final(self).tabs@[old(self).active_tab as int]),
    {
        let ghost a = self.active_tab as int;
        self.tab_mut().edit_enter();
        proof {
            lemma_wf_after_tab_step(&*old(self), &*self);
        }
    }

    /// Moves the cursor left in the active tab.
    pub fn edit_move_left(&mut self)
        requires
            old(self).wf(),

        ensures
            final(self).wf(),
            final(self).same_except_active(&*old(self)),
            edit_move_left_spec(old(self).tabs@[old(self).active_tab as int], final(self).tabs@[old(self).active_tab as int]),
    {
        let ghost a = self.active_tab as int;
        self.tab_mut().edit_move_left();
        proof {
            lemma_wf_after_tab_step(&*old(self), &*self);
        }
    }

    /// Moves the cursor right in the active tab.
    pub fn edit_move_right(&mut self)
        requires
            old(self).wf(),

        ensures
            final(self).wf(),
            final(self).same_except_active(&*old(self)),
            edit_move_right_spec(old(self).tabs@[old(self).active_tab as int], final(self).tabs@[old(self).active_tab as int]),
    {
        let ghost a = self.active_tab as int;
        self.tab_mut().edit_move_right();
        proof {
            lemma_wf_after_tab_step(&*old(self), &*self);
        }
    }

    /// Moves the cursor up in the active tab.
    pub fn edit_move_up(&mut self)
        requires
            old(self).wf(),

        ensures
            final(self).wf(),
            final(self).same_except_active(&*old(self)),
            edit_move_up_spec(old(self).tabs@[old(self).active_tab as int], final(self).tabs@[old(self).active_tab as int]),
    {
        let ghost a = self.active_tab as int;
        self.tab_mut().edit_move_up();
        proof {
            lemma_wf_after_tab_step(&*old(self), &*self);
        }
    }

    /// Moves the cursor down in the active tab.
    pub fn edit_move_down(&mut self)
        requires
            old(self).wf(),
            old(self).tabs@[old(self).active_tab as int].edit_state matches Some(e) ==> e.display_line < usize::MAX,
        ensures
            final(self).wf(),
            final(self).same_except_active(&*old(self)),
            edit_move_down_spec(old(self).tabs@[old(self).active_tab as int], final(self).tabs@[old(self).active_tab as int]),
    {
        let ghost a = self.active_tab as int;
        self.tab_mut().edit_move_down();
        proof {
            lemma_wf_after_tab_step(&*old(self), &*self);
        }
    }

    /// Moves the cursor to the line's start in the active tab.
    pub fn edit_move_home(&mut self)
        requires
            old(self).wf(),

        ensures
            final(self).wf(),
            final(self).same_except_active(&*old(self)),
            edit_move_home_spec(old(self).tabs@[old(self).active_tab as int], final(self).tabs@[old(self).active_tab as int]),
    {
        let ghost a = self.active_tab as int;
        self.tab_mut().edit_move_home();
        proof {
            lemma_wf_after_tab_step(&*old(self), &*self);
        }
    }

    /// Moves the cursor to the line's end in the active tab.
    pub fn edit_move_end(&mut self)
        requires
            old(self).wf(),

        ensures
            final(self).wf(),
            final(self).same_except_active(&*old(self)),
            edit_move_end_spec(old(self).tabs@[old(self).active_tab as int], final(self).tabs@[old(self).active_tab as int]),
    {
        let ghost a = self.active_tab as int;
        self.tab_mut().edit_move_end();
        proof {
            lemma_wf_after_tab_step(&*old(self), &*self);
        }
    }

    /// Opens a new empty tab and makes it active, in normal mode with no
    /// dialog.
    pub fn new_tab(&mut self)
        requires
            old(self).wf(),
        ensures
            final(self).wf(),
            new_tab_done(*old(self), *final(self)),
    {
        let t = TabState::new();
        proof {
            assert(tab_ok(t));
        }
        self.tabs.push(t);
        self.active_tab = self.tabs.len() - 1;
        self.mode = AppMode::Normal;
        self.file_browser = None;
        proof {
            assert forall|k: int| 0 <= k < self.tabs@.len() implies #[trigger] tab_ok(self.tabs@[k]) by {
                if k < old(self).tabs@.len() {
                    assert(tab_ok(old(self).tabs@[k]));
                }
            }
        }
    }

    /// Closes the active tab unless it is the last one, keeping the active
    /// position (or the new last tab); says whether a tab was closed.
    pub fn close_tab(&mut self) -> (closed: bool)
        requires
            old(self).wf(),
        ensures
            final(self).wf(),
            closed == (old(self).tabs@.len() > 1),
            close_tab_done(*old(self), *final(self)),
    {
        if self.tabs.len() <= 1 {
            return false;
        }
        let _ = self.tabs.remove(self.active_tab);
        if self.active_tab >= self.tabs.len() {
            self.active_tab = self.tabs.len() - 1;
        }
        self.mode = AppMode::Normal;
        self.file_browser = None;
        proof {
            assert forall|k: int| 0 <= k < self.tabs@.len() implies #[trigger] tab_ok(self.tabs@[k]) by {
                if k < old(self).active_tab {
                    assert(tab_ok(old(self).tabs@[k]));
                } else {
                    assert(tab_ok(old(self).tabs@[k + 1]));
                }
            }
        }
        true
    }

    /// Makes the next tab active, wrapping around to the first.
    pub fn next_tab(&mut self)
        requires
            old(self).wf(),
        ensures
            final(self).wf(),
            *final(self) == (App {
                active_tab: next_index(old(self).tabs@.len() as int, old(self).active_tab as int) as usize,
                ..*old(self)
            }),
    {
        if self.tabs.len() > 1 {
            self.active_tab = (self.active_tab + 1) % self.tabs.len();
        }
    }

    /// Makes the previous tab active, wrapping around to the last.
    pub fn prev_tab(&mut self)
        requires
            old(self).wf(),
        ensures
            final(self).wf(),
            *final(self) == (App {
                active_tab: prev_index(old(self).tabs@.len() as int, old(self).active_tab as int) as usize,
                ..*old(self)
            }),
    {
        if self.tabs.len() > 1 {
            if self.active_tab == 0 {
                self.active_tab = self.tabs.len() - 1;
            } else {
                self.active_tab = self.active_tab - 1;
            }
        }
    }

    /// Makes tab `index` active, when it exists.
    pub fn switch_tab(&mut self, index: usize)
        requires
            old(self).wf(),
        ensures
            final(self).wf(),
            *final(self) == (App {
                active_tab: if (index as int) < old(self).tabs@.len() { index } else { old(self).active_tab },
                ..*old(self)
            }),
    {
        if index < self.tabs.len() {
            self.active_tab = index;
        }
    }

    /// Whether some tab has unsaved changes.
    pub fn any_unsaved(&self) -> (b: bool)
        ensures
            b == has_unsaved(*self),
    {
        let mut k: usize = 0;
        while k < self.tabs.len()
            invariant
                k <= self.tabs@.len(),
                forall|j: int| 0 <= j < k ==> !#[trigger] self.tabs@[j].has_unsaved_changes,
            decreases self.tabs@.len() - k,
        {
            if self.tabs[k].has_unsaved_changes {
                return true;
            }
            k = k + 1;
        }
        false
    }

    /// The number of difference blocks of the active tab.
    pub fn diff_count(&self) -> (n: u32)
        requires
            self.wf(),
        ensures
            n as int == self.active().spec_diff_count(),
    {
        self.active_tab().diff_count()
    }

    /// The number of rows the active tab shows.
    pub fn total_lines(&self) -> (n: usize)
        requires
            self.wf(),
        ensures
            n as int == spec_total_lines(self.active()),
    {
        self.active_tab().total_lines()
    }

    /// Whether the active tab has nothing to undo.
    pub fn undo_stack_is_empty(&self) -> (b: bool)
        requires
            self.wf(),
        ensures
            b == (self.active().undo_view().len() == 0),
    {
        self.active_tab().undo_stack_is_empty()
    }

    /// Copies from the left: the whole pane when everything is selected
    /// (which ends the selection), the current block otherwise.
    pub fn copy_left_to_right(&mut self)
        requires
            old(self).wf(),
            texts_fit(old(self).active().texts()),
            old(self).active().numbers_fit(),
        ensures
            final(self).wf(),
            final(self).same_except_active(&*old(self)),
            copy_to_right_done(old(self).active(), final(self).active()),
    {
        let ghost a = self.active_tab as int;
        if self.active_tab().select_all {
            self.tab_mut().copy_all_left_to_right();
            let ghost mid = self.active();
            self.tab_mut().select_all = false;
            proof {
                assert(copy_all_left_to_right_spec(old(self).active(), mid));
                assert(self.active() == (TabState { select_all: false, ..mid }));
            }
        } else {
            self.tab_mut().copy_left_to_right();
        }
        proof {
            lemma_wf_after_tab_step(&*old(self), &*self);
        }
    }

    /// Copies from the right: the whole pane when everything is selected
    /// (which ends the selection), the current block otherwise.
    pub fn copy_right_to_left(&mut self)
        requires
            old(self).wf(),
            texts_fit(old(self).active().texts()),
            old(self).active().numbers_fit(),
        ensures
            final(self).wf(),
            final(self).same_except_active(&*old(self)),
            copy_to_left_done(old(self).active(), final(self).active()),
    {
        let ghost a = self.active_tab as int;
        if self.active_tab().select_all {
            self.tab_mut().copy_all_right_to_left();
            let ghost mid = self.active();
            self.tab_mut().select_all = false;
            proof {
                assert(copy_all_right_to_left_spec(old(self).active(), mid));
                assert(self.active() == (TabState { select_all: false, ..mid }));
            }
        } else {
            self.tab_mut().copy_right_to_left();
        }
        proof {
            lemma_wf_after_tab_step(&*old(self), &*self);
        }
    }

    /// Copies the whole left pane of the active tab (see
    /// `TabState::copy_all_left_to_right`).
    pub fn copy_all_left_to_right(&mut self)
        requires
            old(self).wf(),
            texts_fit(old(self).active().texts()),
        ensures
            final(self).wf(),
            final(self).same_except_active(&*old(self)),
            copy_all_left_to_right_spec(old(self).active(), final(self).active()),
    {
        self.tab_mut().copy_all_left_to_right();
        proof {
            lemma_wf_after_tab_step(&*old(self), &*self);
        }
    }

    /// Copies the whole right pane of the active tab (see
    /// `TabState::copy_all_right_to_left`).
    pub fn copy_all_right_to_left(&mut self)
        requires
            old(self).wf(),
            texts_fit(old(self).active().texts()),
        ensures
            final(self).wf(),
            final(self).same_except_active(&*old(self)),
            copy_all_right_to_left_spec(old(self).active(), final(self).active()),
    {
        self.tab_mut().copy_all_right_to_left();
        proof {
            lemma_wf_after_tab_step(&*old(self), &*self);
        }
    }

    /// Switches selecting everything in the active tab.
    pub fn toggle_select_all(&mut self)
        requires
            old(self).wf(),
        ensures
            final(self).wf(),
            final(self).same_except_active(&*old(self)),
            final(self).active() == (TabState { select_all: !old(self).active().select_all, ..old(self).active() }),
    {
        let t = self.tab_mut();
        t.select_all = !t.select_all;
        proof {
            lemma_wf_after_tab_step(&*old(self), &*self);
        }
    }

    /// Shows a comparison of two directories in the active tab, which is
    /// not being edited.
    pub fn open_dirs(&mut self, left: String, right: String, result: DirCompareResult)
        requires
            old(self).wf(),
            old(self).active().edit_state is None,
        ensures
            final(self).wf(),
            final(self).same_except_active(&*old(self)),
            open_dirs_spec(old(self).active(), final(self).active(), left, right, result),
    {
        self.tab_mut().open_dirs(left, right, result);
        proof {
            lemma_wf_after_tab_step(&*old(self), &*self);
        }
    }

    /// Selects the next entry of the active tab's directory comparison.
    pub fn dir_next(&mut self)
        requires
            old(self).wf(),
        ensures
            final(self).wf(),
            final(self).same_except_active(&*old(self)),
            final(self).active() == (TabState { dir_result: dir_after_next(old(self).active().dir_result), ..old(self).active() }),
    {
        self.tab_mut().dir_select_next();
        proof {
            lemma_wf_after_tab_step(&*old(self), &*self);
        }
    }

    /// Selects the previous entry of the active tab's directory
    /// comparison.
    pub fn dir_prev(&mut self)
        requires
            old(self).wf(),
        ensures
            final(self).wf(),
            final(self).same_except_active(&*old(self)),
            final(self).active() == (TabState { dir_result: dir_after_prev(old(self).active().dir_result), ..old(self).active() }),
    {
        self.tab_mut().dir_select_prev();
        proof {
            lemma_wf_after_tab_step(&*old(self), &*self);
        }
    }

    /// Starts editing the active tab (see `TabState::enter_edit_mode`).
    pub fn enter_edit_mode(&mut self, panel: PanelSide, display_line: usize, col: usize)
        requires
            old(self).wf(),
            texts_fit(old(self).active().texts()),
        ensures
            final(self).wf(),
            enter_edit_done(*old(self), *final(self), panel, display_line, col),
    {
        self.tab_mut().enter_edit_mode(panel, display_line, col);
        proof {
            lemma_wf_after_tab_step(&*old(self), &*self);
        }
        self.mode = AppMode::Editing;
    }

    /// Stops editing the active tab (see `TabState::exit_edit_mode`).
    pub fn exit_edit_mode(&mut self)
        requires
            old(self).wf(),
            texts_fit(old(self).active().texts()),
        ensures
            final(self).wf(),
            exit_edit_done(*old(self), *final(self)),
    {
        self.tab_mut().exit_edit_mode();
        proof {
            lemma_wf_after_tab_step(&*old(self), &*self);
        }
        self.mode = AppMode::Normal;
    }

    /// The line being edited in the active tab.
    pub fn edit_current_line_text(&self) -> (r: Option<String>)
        requires
            self.wf(),
        ensures
            match self.active().edit_state {
                None => r is None,
                Some(e) => if (e.source_line as int) < self.active().pane(e.panel).len() {
                    r matches Some(l) && l@ == self.active().pane(e.panel)[e.source_line as int]
                } else {
                    r is None
                },
            },
    {
        self.active_tab().edit_current_line_text()
    }

    /// The lines of a pane of the active tab.
    pub fn source_lines(&self, panel: PanelSide) -> (r: Vec<String>)
        requires
            self.wf(),
        ensures
            crate::text::lines_of(r@) == self.active().pane(panel),
    {
        self.active_tab().source_lines(panel)
    }

    /// The line of a pane of the active tab that a row stands for.
    pub fn resolve_display_to_source(&self, display_idx: usize, panel: PanelSide) -> (r: Option<usize>)
        requires
            self.wf(),
        ensures
            r == Some(resolved_source(self.active(), display_idx as int, panel) as usize),
    {
        self.active_tab().resolve_display_to_source(display_idx, panel)
    }

    /// Shows a status message, set at time `now` (milliseconds).
    pub fn set_status(&mut self, msg: &str, now: u64)
        ensures
            final(self).status_message matches Some((m, at)) && m@ == msg@ && at == now,
            *final(self) == (App { status_message: final(self).status_message, ..*old(self) }),
    {
        self.status_message = Some((String::from_str(msg), now));
    }

    /// The status message, while it is fresh: less than
    /// `STATUS_MESSAGE_MS` milliseconds old at time `now`.
    pub fn current_status_message(&self, now: u64) -> (r: Option<&str>)
        ensures
            match self.status_message {
                Some((m, at)) => if now < at || now - at < STATUS_MESSAGE_MS {
                    r matches Some(s) && s@ == m@
                } else {
                    r is None
                },
                None => r is None,
            },
    {
        if let Some((msg, at)) = &self.status_message {
            if now < *at || now - *at < STATUS_MESSAGE_MS {
                return Some(msg.as_str());
            }
        }
        None
    }

    /// The file name and directory the save dialog starts with (see
    /// `save_default`), given the working directory and the home directory
    /// when one is set.
    pub fn save_defaults(path: &Option<String>, fallback_name: &str, cwd: &str, home: Option<String>) -> (r: (String, String))
        ensures
            (r.0@, r.1@) == save_default(
                match path {
                    Some(p) => Some(p@),
                    None => None::<Seq<char>>,
                },
                fallback_name@,
                cwd@,
                match home {
                    Some(h) => Some(h@),
                    None => None::<Seq<char>>,
                },
            ),
    {
        match path {
            Some(p) => {
                let name = match path_file_name(p.as_str()) {
                    Some(n) => n,
                    None => String::from_str(fallback_name),
                };
                let dir = match path_parent(p.as_str()) {
                    Some(d) => d,
                    None => String::from_str(cwd),
                };
                (name, dir)
            },
            None => {
                let dir = match home {
                    Some(h) => h,
                    None => String::from_str(cwd),
                };
                (String::from_str(fallback_name), dir)
            },
        }
    }

    /// The file name and directory the save dialog starts with for the
    /// active tab's left pane (`right`: its right pane), `untitled_left.txt`
    /// (`untitled_right.txt`) when it has no path (see `save_default`).
    pub fn save_start(&self, right: bool, cwd: &str, home: Option<String>) -> (r: (String, String))
        requires
            self.wf(),
        ensures
            (r.0@, r.1@) == save_default(
                match if right { self.active().right_path } else { self.active().left_path } {
                    Some(p) => Some(p@),
                    None => None::<Seq<char>>,
                },
                if right { "untitled_right.txt"@ } else { "untitled_left.txt"@ },
                cwd@,
                match home {
                    Some(h) => Some(h@),
                    None => None::<Seq<char>>,
                },
            ),
    {
        let t = self.active_tab();
        if right {
            App::save_defaults(&t.right_path, "untitled_right.txt", cwd, home)
        } else {
            App::save_defaults(&t.left_path, "untitled_left.txt", cwd, home)
        }
    }

    /// Starts saving: the save dialog (a browser in save mode) opens for the
    /// left pane.
    pub fn save_files(&mut self, browser: FileBrowser)
        ensures
            final(self).file_browser == Some(browser),
            final(self).mode == AppMode::SaveLeft,
            *final(self) == (App { file_browser: final(self).file_browser, mode: final(self).mode, ..*old(self) }),
    {
        self.file_browser = Some(browser);
        self.mode = AppMode::SaveLeft;
    }

    /// The paths to open for the selected entry of the active tab's
    /// directory comparison: both sides' files, or only the one side's for
    /// a file on one side (the other path being empty).
    pub fn dir_selected_paths(&self) -> (r: Option<(String, String)>)
        requires
            self.wf(),
        ensures
            selected_paths(self.active()) == match r {
                Some((a, b)) => Some((a@, b@)),
                None => None::<(Seq<char>, Seq<char>)>,
            },
    {
        let tab = self.active_tab();
        if !tab.is_dir_compare {
            return None;
        }
        let dir_result = match &tab.dir_result {
            Some(r) => r,
            None => return None,
        };
        if dir_result.selected >= dir_result.entries.len() {
            return None;
        }
        let entry = &dir_result.entries[dir_result.selected];
        let left_path = path_join(dir_result.left_dir.as_str(), entry.rel_path.as_str());
        let right_path = path_join(dir_result.right_dir.as_str(), entry.rel_path.as_str());
        match entry.status {
            DirEntryStatus::LeftOnly => Some((left_path, String::new())),
            DirEntryStatus::RightOnly => Some((String::new(), right_path)),
            _ => Some((left_path, right_path)),
        }
    }

    /// Opens the selected entry of the active tab's directory comparison
    /// in a new tab, given the contents of the files of `dir_selected_paths`
    /// (empty for a path that could not be read).
    pub fn dir_open_selected(&mut self, left_content: &str, right_content: &str)
        requires
            old(self).wf(),
            spec_str_to_lines(left_content@).len() <= MAX_LINES,
            spec_str_to_lines(right_content@).len() <= MAX_LINES,
        ensures
            final(self).wf(),
            selected_paths(old(self).active()) is None ==> *final(self) == *old(self),
            selected_paths(old(self).active()) matches Some((l, r)) ==> {
                &&& final(self).tabs@.len() == old(self).tabs@.len() + 1
                &&& forall|k: int| 0 <= k < old(self).tabs@.len() ==> final(self).tabs@[k] == old(self).tabs@[k]
                &&& final(self).active_tab == old(self).tabs@.len()
                &&& exists|t: TabState, ls: String, rs: String|
                    ls@ == l && rs@ == r && #[trigger] open_files_spec(t, final(self).active(), ls, rs, left_content, right_content)
                &&& final(self).mode == AppMode::Normal
                &&& final(self).file_browser is None
            },
    {
        let paths = self.dir_selected_paths();
        if let Some((l, r)) = paths {
            let ghost lv = l;
            let ghost rv = r;
            self.new_tab();
            let ghost fresh = self.active();
            let ghost mid = *self;
            self.tab_mut().open_files(l, r, left_content, right_content);
            proof {
                assert(open_files_spec(fresh, self.active(), lv, rv, left_content, right_content));
                lemma_wf_after_tab_step(&mid, &*self);
            }
        }
    }

}

} // verus!
