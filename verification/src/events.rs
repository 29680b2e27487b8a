//! Input handling: the command a key stands for in each mode, what each
//! command does to the application, and what a mouse click hits. What
//! needs the file system is handed back as effects for the caller to carry
//! out.

use vstd::prelude::*;
use crate::app::{
    App, AppMode, close_tab_done, copy_to_left_done, copy_to_right_done, dir_after_next, dir_after_prev,
    enter_edit_done, exit_edit_done, has_unsaved, lemma_wf_after_tab_step, new_tab_done, next_index, prev_index,
};
use crate::file_browser::{FileBrowser, entered, moved_down, moved_up, paged_down, paged_up, spec_parent, spec_path_join, trimmed, went_up};
use crate::menu::{menu_hit, menu_layout};
use crate::tab_bar::{TabBarAction, TabBarLayout, region_hit, regions_view};
use crate::models::DirCompareResult;
use crate::text::{chars_of, lines_of, spec_buf_to_text, string_of};
use crate::tab::{
    new_blank_spec,
    PanelSide, TabState, copy_all_left_to_right_spec, copy_all_right_to_left_spec, copy_left_to_right_and_next_spec,
    copy_right_to_left_and_next_spec, edit_backspace_spec, edit_delete_spec, edit_enter_spec, edit_insert_char_spec,
    edit_move_down_spec, edit_move_end_spec, edit_move_home_spec, edit_move_left_spec, edit_move_right_spec,
    edit_move_up_spec, first_diff_spec, h_scroll_left_spec, h_scroll_right_spec, last_diff_spec, next_diff_spec,
    prev_diff_spec, recompute_diff_spec, redo_spec, scroll_down_spec, scroll_up_spec, spec_total_lines, texts_fit,
    toggle_ignore_case_spec, toggle_ignore_whitespace_spec, undo_spec,
};

verus! {

/// What a menu item does.
#[derive(Debug, Clone, Copy, PartialEq, Eq, Structural)]
pub enum MenuAction {
    New,
    Open,
    Refresh,
    FirstDiff,
    PrevDiff,
    NextDiff,
    LastDiff,
    CopyLeftToRight,
    CopyRightToLeft,
    CopyLeftToRightNext,
    CopyRightToLeftNext,
    CopyAllLR,
    CopyAllRL,
    SelectAll,
    ToggleWhitespace,
    ToggleCase,
    Save,
}

/// A key of the keyboard, as far as the handlers tell keys apart.
#[derive(Debug, Clone, Copy, PartialEq, Eq, Structural)]
pub enum Key {
    Char(char),
    F(u8),
    Up,
    Down,
    Left,
    Right,
    Home,
    End,
    PageUp,
    PageDown,
    Enter,
    Esc,
    Backspace,
    Delete,
    Tab,
    Other,
}

/// A key pressed with its modifiers.
#[derive(Debug, Clone, Copy, PartialEq, Eq, Structural)]
pub struct KeyPress {
    pub key: Key,
    pub ctrl: bool,
    pub alt: bool,
    pub shift: bool,
}

/// What the user asks of the application.
#[derive(Debug, Clone, Copy, PartialEq, Eq, Structural)]
pub enum Command {
    Nothing,
    /// Quit, asking first when something is unsaved.
    Quit,
    /// Quit at once.
    QuitNow,
    NewTab,
    /// Close the active tab, asking first when it is unsaved.
    CloseTab,
    /// Close the active tab at once.
    CloseTabNow,
    NextTab,
    PrevTab,
    /// Ask whether to open two or three files.
    OpenChoose,
    /// Ask whether to start two or three blank panes.
    NewFile,
    Save,
    Refresh,
    Undo,
    Redo,
    NextDiff,
    PrevDiff,
    FirstDiff,
    LastDiff,
    ScrollDown(usize),
    ScrollUp(usize),
    HScrollRight(usize),
    HScrollLeft(usize),
    ScrollTop,
    ScrollBottom,
    CopyLeftToRight,
    CopyRightToLeft,
    CopyLeftToRightNext,
    CopyRightToLeftNext,
    CopyAllLeftToRight,
    CopyAllRightToLeft,
    SelectAll,
    ToggleWhitespace,
    ToggleCase,
    /// Edit the left pane at the top row shown.
    EditAtScroll,
    DirNext,
    DirPrev,
    DirOpen,
    ExitEdit,
    EditLeft,
    EditRight,
    EditUp,
    EditDown,
    EditHome,
    EditEnd,
    EditBackspace,
    EditDelete,
    EditEnter,
    /// Stop editing, then undo.
    ExitEditUndo,
    /// Stop editing, then save.
    ExitEditSave,
    Type(char),
}

/// The command of a key in normal mode, for a tab of files.
pub open spec fn normal_command(k: KeyPress) -> Command {
    let c = k.ctrl;
    let a = k.alt;
    match k.key {
        Key::Char(ch) => if c && ch == 'q' {
            Command::Quit
        } else if c && ch == 't' {
            Command::NewTab
        } else if c && ch == 'w' {
            Command::CloseTab
        } else if ch == 'o' {
            Command::OpenChoose
        } else if c && ch == 's' {
            Command::Save
        } else if c && ch == 'r' {
            Command::Refresh
        } else if c && ch == 'z' {
            Command::Undo
        } else if c && ch == 'y' {
            Command::Redo
        } else if ch == 'n' {
            Command::NextDiff
        } else if ch == 'p' {
            Command::PrevDiff
        } else if ch == 'j' {
            Command::ScrollDown(1)
        } else if ch == 'k' {
            Command::ScrollUp(1)
        } else if ch == 'g' {
            Command::ScrollTop
        } else if ch == 'G' {
            Command::ScrollBottom
        } else if c && ch == 'i' {
            Command::ToggleCase
        } else if ch == 'i' {
            Command::EditAtScroll
        } else {
            Command::Nothing
        },
        Key::PageDown => if c { Command::NextTab } else { Command::ScrollDown(20) },
        Key::PageUp => if c { Command::PrevTab } else { Command::ScrollUp(20) },
        Key::F(n) => if n == 5 {
            Command::Refresh
        } else if n == 8 {
            Command::NextDiff
        } else if n == 7 {
            Command::PrevDiff
        } else if n == 9 {
            Command::ToggleWhitespace
        } else {
            Command::Nothing
        },
        Key::Home => if a || c { Command::FirstDiff } else { Command::Nothing },
        Key::End => if a || c { Command::LastDiff } else { Command::Nothing },
        Key::Down => Command::ScrollDown(1),
        Key::Up => Command::ScrollUp(1),
        Key::Right => if !c && !a {
            Command::HScrollRight(4)
        } else if !c {
            Command::CopyLeftToRight
        } else {
            Command::CopyLeftToRightNext
        },
        Key::Left => if !c && !a {
            Command::HScrollLeft(4)
        } else if !c {
            Command::CopyRightToLeft
        } else {
            Command::CopyRightToLeftNext
        },
        Key::Enter => Command::EditAtScroll,
        _ => Command::Nothing,
    }
}

/// The command of a key in normal mode, for a directory comparison.
pub open spec fn dir_command(k: KeyPress) -> Command {
    let c = k.ctrl;
    let a = k.alt;
    match k.key {
        Key::Char(ch) => if ch == 'q' {
            Command::QuitNow
        } else if c && ch == 't' {
            Command::NewTab
        } else if c && ch == 'w' {
            Command::CloseTabNow
        } else if ch == 'j' {
            Command::DirNext
        } else if ch == 'k' {
            Command::DirPrev
        } else {
            Command::Nothing
        },
        Key::PageDown => if c { Command::NextTab } else { Command::Nothing },
        Key::PageUp => if c { Command::PrevTab } else { Command::Nothing },
        Key::Down => Command::DirNext,
        Key::Up => Command::DirPrev,
        Key::Right => if !c && !a { Command::HScrollRight(4) } else { Command::Nothing },
        Key::Left => if !c && !a { Command::HScrollLeft(4) } else { Command::Nothing },
        Key::Enter => Command::DirOpen,
        _ => Command::Nothing,
    }
}

/// The command of a key while a line is being edited.
pub open spec fn editing_command(k: KeyPress) -> Command {
    let c = k.ctrl;
    let a = k.alt;
    match k.key {
        Key::Esc => Command::ExitEdit,
        Key::Left => if !c && !a { Command::EditLeft } else { Command::Nothing },
        Key::Right => if !c && !a { Command::EditRight } else { Command::Nothing },
        Key::Up => Command::EditUp,
        Key::Down => Command::EditDown,
        Key::Home => Command::EditHome,
        Key::End => Command::EditEnd,
        Key::Backspace => Command::EditBackspace,
        Key::Delete => Command::EditDelete,
        Key::Enter => Command::EditEnter,
        Key::Char(ch) => if c && ch == 'z' {
            Command::ExitEditUndo
        } else if c && ch == 's' {
            Command::ExitEditSave
        } else if !c && !a {
            Command::Type(ch)
        } else {
            Command::Nothing
        },
        _ => Command::Nothing,
    }
}

/// The command of a menu item.
pub open spec fn menu_command(m: MenuAction) -> Command {
    match m {
        MenuAction::New => Command::NewFile,
        MenuAction::Open => Command::OpenChoose,
        MenuAction::Refresh => Command::Refresh,
        MenuAction::FirstDiff => Command::FirstDiff,
        MenuAction::PrevDiff => Command::PrevDiff,
        MenuAction::NextDiff => Command::NextDiff,
        MenuAction::LastDiff => Command::LastDiff,
        MenuAction::CopyLeftToRight => Command::CopyLeftToRight,
        MenuAction::CopyRightToLeft => Command::CopyRightToLeft,
        MenuAction::CopyLeftToRightNext => Command::CopyLeftToRightNext,
        MenuAction::CopyRightToLeftNext => Command::CopyRightToLeftNext,
        MenuAction::CopyAllLR => Command::CopyAllLeftToRight,
        MenuAction::CopyAllRL => Command::CopyAllRightToLeft,
        MenuAction::SelectAll => Command::SelectAll,
        MenuAction::ToggleWhitespace => Command::ToggleWhitespace,
        MenuAction::ToggleCase => Command::ToggleCase,
        MenuAction::Save => Command::Save,
    }
}

/// The command of a key in normal mode (see `normal_command` and, for a
/// directory comparison, `dir_command`).
pub fn key_command_normal(k: KeyPress, dir_compare: bool) -> (c: Command)
    ensures
        c == if dir_compare { dir_command(k) } else { normal_command(k) },
{
    let ctrl = k.ctrl;
    let alt = k.alt;
    if dir_compare {
        return match k.key {
            Key::Char(ch) => if ch == 'q' {
                Command::QuitNow
            } else if ctrl && ch == 't' {
                Command::NewTab
            } else if ctrl && ch == 'w' {
                Command::CloseTabNow
            } else if ch == 'j' {
                Command::DirNext
            } else if ch == 'k' {
                Command::DirPrev
            } else {
                Command::Nothing
            },
            Key::PageDown => if ctrl { Command::NextTab } else { Command::Nothing },
            Key::PageUp => if ctrl { Command::PrevTab } else { Command::Nothing },
            Key::Down => Command::DirNext,
            Key::Up => Command::DirPrev,
            Key::Right => if !ctrl && !alt { Command::HScrollRight(4) } else { Command::Nothing },
            Key::Left => if !ctrl && !alt { Command::HScrollLeft(4) } else { Command::Nothing },
            Key::Enter => Command::DirOpen,
            _ => Command::Nothing,
        };
    }
    match k.key {
        Key::Char(ch) => if ctrl && ch == 'q' {
            Command::Quit
        } else if ctrl && ch == 't' {
            Command::NewTab
        } else if ctrl && ch == 'w' {
            Command::CloseTab
        } else if ch == 'o' {
            Command::OpenChoose
        } else if ctrl && ch == 's' {
            Command::Save
        } else if ctrl && ch == 'r' {
            Command::Refresh
        } else if ctrl && ch == 'z' {
            Command::Undo
        } else if ctrl && ch == 'y' {
            Command::Redo
        } else if ch == 'n' {
            Command::NextDiff
        } else if ch == 'p' {
            Command::PrevDiff
        } else if ch == 'j' {
            Command::ScrollDown(1)
        } else if ch == 'k' {
            Command::ScrollUp(1)
        } else if ch == 'g' {
            Command::ScrollTop
        } else if ch == 'G' {
            Command::ScrollBottom
        } else if ctrl && ch == 'i' {
            Command::ToggleCase
        } else if ch == 'i' {
            Command::EditAtScroll
        } else {
            Command::Nothing
        },
        Key::PageDown => if ctrl { Command::NextTab } else { Command::ScrollDown(20) },
        Key::PageUp => if ctrl { Command::PrevTab } else { Command::ScrollUp(20) },
        Key::F(n) => if n == 5 {
            Command::Refresh
        } else if n == 8 {
            Command::NextDiff
        } else if n == 7 {
            Command::PrevDiff
        } else if n == 9 {
            Command::ToggleWhitespace
        } else {
            Command::Nothing
        },
        Key::Home => if alt || ctrl { Command::FirstDiff } else { Command::Nothing },
        Key::End => if alt || ctrl { Command::LastDiff } else { Command::Nothing },
        Key::Down => Command::ScrollDown(1),
        Key::Up => Command::ScrollUp(1),
        Key::Right => if !ctrl && !alt {
            Command::HScrollRight(4)
        } else if !ctrl {
            Command::CopyLeftToRight
        } else {
            Command::CopyLeftToRightNext
        },
        Key::Left => if !ctrl && !alt {
            Command::HScrollLeft(4)
        } else if !ctrl {
            Command::CopyRightToLeft
        } else {
            Command::CopyRightToLeftNext
        },
        Key::Enter => Command::EditAtScroll,
        _ => Command::Nothing,
    }
}

/// The command of a key while a line is being edited (see
/// `editing_command`).
pub fn key_command_editing(k: KeyPress) -> (c: Command)
    ensures
        c == editing_command(k),
{
    let ctrl = k.ctrl;
    let alt = k.alt;
    match k.key {
        Key::Esc => Command::ExitEdit,
        Key::Left => if !ctrl && !alt { Command::EditLeft } else { Command::Nothing },
        Key::Right => if !ctrl && !alt { Command::EditRight } else { Command::Nothing },
        Key::Up => Command::EditUp,
        Key::Down => Command::EditDown,
        Key::Home => Command::EditHome,
        Key::End => Command::EditEnd,
        Key::Backspace => Command::EditBackspace,
        Key::Delete => Command::EditDelete,
        Key::Enter => Command::EditEnter,
        Key::Char(ch) => if ctrl && ch == 'z' {
            Command::ExitEditUndo
        } else if ctrl && ch == 's' {
            Command::ExitEditSave
        } else if !ctrl && !alt {
            Command::Type(ch)
        } else {
            Command::Nothing
        },
        _ => Command::Nothing,
    }
}

/// The command of a menu item (see `menu_command`).
pub fn menu_item_command(m: MenuAction) -> (c: Command)
    ensures
        c == menu_command(m),
{
    match m {
        MenuAction::New => Command::NewFile,
        MenuAction::Open => Command::OpenChoose,
        MenuAction::Refresh => Command::Refresh,
        MenuAction::FirstDiff => Command::FirstDiff,
        MenuAction::PrevDiff => Command::PrevDiff,
        MenuAction::NextDiff => Command::NextDiff,
        MenuAction::LastDiff => Command::LastDiff,
        MenuAction::CopyLeftToRight => Command::CopyLeftToRight,
        MenuAction::CopyRightToLeft => Command::CopyRightToLeft,
        MenuAction::CopyLeftToRightNext => Command::CopyLeftToRightNext,
        MenuAction::CopyRightToLeftNext => Command::CopyRightToLeftNext,
        MenuAction::CopyAllLR => Command::CopyAllLeftToRight,
        MenuAction::CopyAllRL => Command::CopyAllRightToLeft,
        MenuAction::SelectAll => Command::SelectAll,
        MenuAction::ToggleWhitespace => Command::ToggleWhitespace,
        MenuAction::ToggleCase => Command::ToggleCase,
        MenuAction::Save => Command::Save,
    }
}

/// Work that needs the file system, left to the caller after a command;
/// the caller hands what it reads back to the application.
#[derive(Debug, Clone, PartialEq, Eq)]
pub enum Effect {
    /// Open the file dialog on the working directory, listed.
    OpenBrowser,
    /// List the dialog's current directory anew.
    ListBrowser,
    /// Start saving: open the save dialog for the active tab's left file.
    StartSave,
    /// Write a text to a file.
    Write { path: String, text: String },
    /// Open the save dialog for the active tab's right file.
    SaveRightDialog,
    /// Read two files and show them in the active tab.
    LoadTwo { left: String, right: String },
    /// Read three files and show them in the active tab.
    LoadThree { left: String, base: String, right: String },
    /// Read the files of the selected directory entry and open them in a
    /// new tab.
    OpenDirEntry,
}

/// The active tab's panes are small enough to diff.
pub open spec fn panes_ok(a: App) -> bool {
    texts_fit(a.active().texts())
}

/// `after` is `before` with the status message `msg`, set at `now`.
pub open spec fn status_set(before: App, after: App, msg: Seq<char>, now: u64) -> bool {
    &&& after == (App { status_message: after.status_message, ..before })
    &&& after.status_message matches Some((m, at)) && m@ == msg && at == now
}

/// Only the active tab changed, to `t`.
pub open spec fn tab_step(before: App, after: App) -> bool {
    after.same_except_active(&before)
}

/// What saving does: run as a merge tool (with an output path), the base
/// pane is written there and the application quits, the result saved;
/// otherwise the save dialog opens.
pub open spec fn save_done(before: App, after: App, effects: Seq<Effect>) -> bool {
    match before.output_path {
        Some(p) => {
            &&& effects.len() == 1
            &&& effects[0] matches Effect::Write { path, text }
                && path@ == p@ && text@ == spec_buf_to_text(lines_of(before.active().base_buf@))
            &&& after == (App { output_saved: true, should_quit: true, ..before })
        },
        None => after == before && effects == seq![Effect::StartSave],
    }
}

/// What refreshing does once no line is edited: with unsaved work
/// (changes, an edit, or something to undo) the diff is recomputed from
/// the buffers; otherwise the files are read again from their paths.
pub open spec fn refresh_rest(before: App, after: App, now: u64, effects: Seq<Effect>) -> bool {
    let t = before.active();
    let dirty = t.has_unsaved_changes || (t.edit_state matches Some(e) && e.dirty) || t.undo_view().len() > 0;
    if dirty {
        &&& effects.len() == 0
        &&& exists|mid: App| #[trigger] tab_step(before, mid) && recompute_diff_spec(t, mid.active())
            && status_set(mid, after, "Re-diffed (unsaved changes preserved)"@, now)
    } else if t.is_three_way {
        if t.left_path is Some && t.base_path is Some && t.right_path is Some {
            &&& status_set(before, after, "Refreshed from disk"@, now)
            &&& effects.len() == 1
            &&& effects[0] matches Effect::LoadThree { left, base, right }
                && left@ == t.left_path->0@ && base@ == t.base_path->0@ && right@ == t.right_path->0@
        } else {
            after == before && effects.len() == 0
        }
    } else {
        if t.left_path is Some && t.right_path is Some {
            &&& status_set(before, after, "Refreshed from disk"@, now)
            &&& effects.len() == 1
            &&& effects[0] matches Effect::LoadTwo { left, right }
                && left@ == t.left_path->0@ && right@ == t.right_path->0@
        } else {
            after == before && effects.len() == 0
        }
    }
}

/// What refreshing does: a line being edited is first committed.
pub open spec fn refresh_done(before: App, after: App, now: u64, effects: Seq<Effect>) -> bool {
    if !panes_ok(before) {
        after == before && effects.len() == 0
    } else if before.mode == AppMode::Editing {
        exists|mid: App| #[trigger] exit_edit_done(before, mid) && refresh_rest(mid, after, now, effects)
    } else {
        refresh_rest(before, after, now, effects)
    }
}

/// What a command does to the application, at time `now`, and the work it
/// leaves to the caller. A command whose operation needs more lines than a
/// pane holds (`MAX_LINES`), a line number or position past `usize::MAX`,
/// or result line numbers that name lines of the buffers, changes nothing
/// where those do not hold.
pub open spec fn command_done(before: App, after: App, c: Command, now: u64, effects: Seq<Effect>) -> bool {
    let t0 = before.active();
    let t1 = after.active();
    let fits = panes_ok(before);
    let nums = t0.numbers_fit();
    let unchanged = after == before && effects.len() == 0;
    match c {
        Command::Nothing => unchanged,
        Command::Quit => effects.len() == 0 && after == if has_unsaved(before) {
            App { mode: AppMode::SaveConfirm, ..before }
        } else {
            App { should_quit: true, ..before }
        },
        Command::QuitNow => effects.len() == 0 && after == (App { should_quit: true, ..before }),
        Command::NewTab => effects.len() == 0 && new_tab_done(before, after),
        Command::CloseTab => effects.len() == 0 && if before.tabs@.len() > 1 && t0.has_unsaved_changes {
            after == (App { mode: AppMode::CloseTabConfirm, ..before })
        } else {
            close_tab_done(before, after)
        },
        Command::CloseTabNow => effects.len() == 0 && close_tab_done(before, after),
        Command::NextTab => effects.len() == 0
            && after == (App { active_tab: next_index(before.tabs@.len() as int, before.active_tab as int) as usize, ..before }),
        Command::PrevTab => effects.len() == 0
            && after == (App { active_tab: prev_index(before.tabs@.len() as int, before.active_tab as int) as usize, ..before }),
        Command::OpenChoose => effects.len() == 0 && after == (App { mode: AppMode::OpenChooseMode, ..before }),
        Command::NewFile => effects.len() == 0
            && after == (App { mode: AppMode::OpenChooseMode, new_file_pending: true, ..before }),
        Command::Save => save_done(before, after, effects),
        Command::Refresh => refresh_done(before, after, now, effects),
        Command::Undo => if fits { effects.len() == 0 && tab_step(before, after) && undo_spec(t0, t1) } else { unchanged },
        Command::Redo => if fits { effects.len() == 0 && tab_step(before, after) && redo_spec(t0, t1) } else { unchanged },
        Command::NextDiff => effects.len() == 0 && tab_step(before, after) && next_diff_spec(t0, t1),
        Command::PrevDiff => effects.len() == 0 && tab_step(before, after) && prev_diff_spec(t0, t1),
        Command::FirstDiff => effects.len() == 0 && tab_step(before, after) && first_diff_spec(t0, t1),
        Command::LastDiff => effects.len() == 0 && tab_step(before, after) && last_diff_spec(t0, t1),
        Command::ScrollDown(n) => if t0.scroll_offset + n <= usize::MAX {
            effects.len() == 0 && tab_step(before, after) && scroll_down_spec(t0, t1, n)
        } else {
            unchanged
        },
        Command::ScrollUp(n) => effects.len() == 0 && tab_step(before, after) && scroll_up_spec(t0, t1, n),
        Command::HScrollRight(n) => effects.len() == 0 && tab_step(before, after) && h_scroll_right_spec(t0, t1, n),
        Command::HScrollLeft(n) => effects.len() == 0 && tab_step(before, after) && h_scroll_left_spec(t0, t1, n),
        Command::ScrollTop => effects.len() == 0 && tab_step(before, after) && t1 == (TabState { scroll_offset: 0, ..t0 }),
        Command::ScrollBottom => effects.len() == 0 && tab_step(before, after) && t1 == if spec_total_lines(t0) > 0 {
            TabState { scroll_offset: (spec_total_lines(t0) - 1) as usize, ..t0 }
        } else {
            t0
        },
        Command::CopyLeftToRight => if fits && nums {
            effects.len() == 0 && tab_step(before, after) && copy_to_right_done(t0, t1)
        } else {
            unchanged
        },
        Command::CopyRightToLeft => if fits && nums {
            effects.len() == 0 && tab_step(before, after) && copy_to_left_done(t0, t1)
        } else {
            unchanged
        },
        Command::CopyLeftToRightNext => if fits && nums {
            effects.len() == 0 && tab_step(before, after) && copy_left_to_right_and_next_spec(t0, t1)
        } else {
            unchanged
        },
        Command::CopyRightToLeftNext => if fits && nums {
            effects.len() == 0 && tab_step(before, after) && copy_right_to_left_and_next_spec(t0, t1)
        } else {
            unchanged
        },
        Command::CopyAllLeftToRight => if fits {
            effects.len() == 0 && tab_step(before, after) && copy_all_left_to_right_spec(t0, t1)
        } else {
            unchanged
        },
        Command::CopyAllRightToLeft => if fits {
            effects.len() == 0 && tab_step(before, after) && copy_all_right_to_left_spec(t0, t1)
        } else {
            unchanged
        },
        Command::SelectAll => effects.len() == 0 && tab_step(before, after)
            && t1 == (TabState { select_all: !t0.select_all, ..t0 }),
        Command::ToggleWhitespace => if fits {
            effects.len() == 0 && tab_step(before, after) && toggle_ignore_whitespace_spec(t0, t1)
        } else {
            unchanged
        },
        Command::ToggleCase => if fits {
            effects.len() == 0 && tab_step(before, after) && toggle_ignore_case_spec(t0, t1)
        } else {
            unchanged
        },
        Command::EditAtScroll => if fits {
            effects.len() == 0 && enter_edit_done(before, after, PanelSide::Left, t0.scroll_offset, 0)
        } else {
            unchanged
        },
        Command::DirNext => effects.len() == 0 && tab_step(before, after)
            && t1 == (TabState { dir_result: dir_after_next(t0.dir_result), ..t0 }),
        Command::DirPrev => effects.len() == 0 && tab_step(before, after)
            && t1 == (TabState { dir_result: dir_after_prev(t0.dir_result), ..t0 }),
        Command::DirOpen => after == before && effects == seq![Effect::OpenDirEntry],
        Command::ExitEdit => if fits { effects.len() == 0 && exit_edit_done(before, after) } else { unchanged },
        Command::EditLeft => effects.len() == 0 && tab_step(before, after) && edit_move_left_spec(t0, t1),
        Command::EditRight => effects.len() == 0 && tab_step(before, after) && edit_move_right_spec(t0, t1),
        Command::EditUp => effects.len() == 0 && tab_step(before, after) && edit_move_up_spec(t0, t1),
        Command::EditDown => if t0.edit_state matches Some(e) && e.display_line == usize::MAX {
            unchanged
        } else {
            effects.len() == 0 && tab_step(before, after) && edit_move_down_spec(t0, t1)
        },
        Command::EditHome => effects.len() == 0 && tab_step(before, after) && edit_move_home_spec(t0, t1),
        Command::EditEnd => effects.len() == 0 && tab_step(before, after) && edit_move_end_spec(t0, t1),
        Command::EditBackspace => effects.len() == 0 && tab_step(before, after) && edit_backspace_spec(t0, t1),
        Command::EditDelete => effects.len() == 0 && tab_step(before, after) && edit_delete_spec(t0, t1),
        Command::EditEnter => if t0.edit_state matches Some(e) && e.display_line == usize::MAX {
            unchanged
        } else {
            effects.len() == 0 && tab_step(before, after) && edit_enter_spec(t0, t1)
        },
        Command::ExitEditUndo => if fits {
            &&& effects.len() == 0
            &&& exists|mid: App| #[trigger] exit_edit_done(before, mid)
                && tab_step(mid, after) && undo_spec(mid.active(), t1)
        } else {
            unchanged
        },
        Command::ExitEditSave => if fits {
            exists|mid: App| #[trigger] exit_edit_done(before, mid) && save_done(mid, after, effects)
        } else {
            unchanged
        },
        Command::Type(ch) => if t0.edit_state matches Some(e) && e.cursor_col == usize::MAX {
            unchanged
        } else {
            effects.len() == 0 && tab_step(before, after) && edit_insert_char_spec(t0, t1, ch)
        },
    }
}

impl App {
    /// Refreshes the active tab at time `now` (see `refresh_done`).
    fn refresh(&mut self, now: u64) -> (effects: Vec<Effect>)
        requires
            old(self).wf(),
        ensures
            final(self).wf(),
            refresh_done(*old(self), *final(self), now, effects@),
    {
        let mut effects: Vec<Effect> = Vec::new();
        if !self.active_tab().panes_fit() {
            return effects;
        }
        if self.mode == AppMode::Editing {
            self.exit_edit_mode();
        }
        let ghost mid = *self;
        let dirty = {
            let t = self.active_tab();
            let edit_dirty = match &t.edit_state {
                Some(e) => e.dirty,
                None => false,
            };
            t.has_unsaved_changes || edit_dirty || !t.undo_stack_is_empty()
        };
        if dirty {
            self.recompute_diff();
            let ghost mid2 = *self;
            self.set_status("Re-diffed (unsaved changes preserved)", now);
            proof {
                reveal_strlit("Re-diffed (unsaved changes preserved)");
                assert(tab_step(mid, mid2));
            }
        } else if self.active_tab().is_three_way {
            let t = self.active_tab();
            match (&t.left_path, &t.base_path, &t.right_path) {
                (Some(l), Some(b), Some(r)) => {
                    let e = Effect::LoadThree { left: l.clone(), base: b.clone(), right: r.clone() };
                    effects.push(e);
                    self.set_status("Refreshed from disk", now);
                    proof {
                        reveal_strlit("Refreshed from disk");
                    }
                },
                _ => {},
            }
        } else {
            let t = self.active_tab();
            match (&t.left_path, &t.right_path) {
                (Some(l), Some(r)) => {
                    let e = Effect::LoadTwo { left: l.clone(), right: r.clone() };
                    effects.push(e);
                    self.set_status("Refreshed from disk", now);
                    proof {
                        reveal_strlit("Refreshed from disk");
                    }
                },
                _ => {},
            }
        }
        effects
    }

    /// Saves (see `save_done`).
    fn start_save(&mut self) -> (effects: Vec<Effect>)
        requires
            old(self).wf(),
        ensures
            final(self).wf(),
            save_done(*old(self), *final(self), effects@),
    {
        let mut effects: Vec<Effect> = Vec::new();
        match &self.output_path {
            Some(p) => {
                let text = self.active_tab().base_text();
                effects.push(Effect::Write { path: p.clone(), text });
                self.output_saved = true;
                self.should_quit = true;
            },
            None => {
                effects.push(Effect::StartSave);
            },
        }
        effects
    }

    /// Sets the active tab's scrolling.
    fn scroll_to(&mut self, row: usize)
        requires
            old(self).wf(),
        ensures
            final(self).wf(),
            tab_step(*old(self), *final(self)),
            final(self).active() == (TabState { scroll_offset: row, ..old(self).active() }),
    {
        proof {
            assert(crate::app::tab_ok(self.tabs@[self.active_tab as int]));
        }
        self.active_tab_mut().scroll_offset = row;
        proof {
            lemma_wf_after_tab_step(&*old(self), &*self);
        }
    }

    /// Carries out a command at time `now` (see `command_done`) and gives
    /// the work left to the caller.
    #[verifier::rlimit(40)]
    pub fn run_command(&mut self, c: Command, now: u64) -> (effects: Vec<Effect>)
        requires
            old(self).wf(),
        ensures
            final(self).wf(),
            command_done(*old(self), *final(self), c, now, effects@),
    {
        let mut effects: Vec<Effect> = Vec::new();
        let fits = self.active_tab().panes_fit();
        match c {
            Command::Nothing => {},
            Command::Quit => {
                if self.any_unsaved() {
                    self.mode = AppMode::SaveConfirm;
                } else {
                    self.should_quit = true;
                }
            },
            Command::QuitNow => {
                self.should_quit = true;
            },
            Command::NewTab => {
                self.new_tab();
            },
            Command::CloseTab => {
                if self.tabs.len() > 1 && self.active_tab().has_unsaved_changes {
                    self.mode = AppMode::CloseTabConfirm;
                } else {
                    let _ = self.close_tab();
                }
            },
            Command::CloseTabNow => {
                let _ = self.close_tab();
            },
            Command::NextTab => {
                self.next_tab();
            },
            Command::PrevTab => {
                self.prev_tab();
            },
            Command::OpenChoose => {
                self.mode = AppMode::OpenChooseMode;
            },
            Command::NewFile => {
                self.new_file_pending = true;
                self.mode = AppMode::OpenChooseMode;
            },
            Command::Save => {
                effects = self.start_save();
            },
            Command::Refresh => {
                effects = self.refresh(now);
            },
            Command::Undo => {
                if fits {
                    self.undo();
                }
            },
            Command::Redo => {
                if fits {
                    self.redo();
                }
            },
            Command::NextDiff => {
                self.next_diff();
            },
            Command::PrevDiff => {
                self.prev_diff();
            },
            Command::FirstDiff => {
                self.first_diff();
            },
            Command::LastDiff => {
                self.last_diff();
            },
            Command::ScrollDown(n) => {
                if self.active_tab().scroll_offset <= usize::MAX - n {
                    self.scroll_down(n);
                }
            },
            Command::ScrollUp(n) => {
                self.scroll_up(n);
            },
            Command::HScrollRight(n) => {
                self.h_scroll_right(n);
            },
            Command::HScrollLeft(n) => {
                self.h_scroll_left(n);
            },
            Command::ScrollTop => {
                self.scroll_to(0);
            },
            Command::ScrollBottom => {
                let total = self.total_lines();
                if total > 0 {
                    self.scroll_to(total - 1);
                }
            },
            Command::CopyLeftToRight => {
                if fits && self.active_tab().results_in_range() {
                    self.copy_left_to_right();
                }
            },
            Command::CopyRightToLeft => {
                if fits && self.active_tab().results_in_range() {
                    self.copy_right_to_left();
                }
            },
            Command::CopyLeftToRightNext => {
                if fits && self.active_tab().results_in_range() {
                    self.copy_left_to_right_and_next();
                }
            },
            Command::CopyRightToLeftNext => {
                if fits && self.active_tab().results_in_range() {
                    self.copy_right_to_left_and_next();
                }
            },
            Command::CopyAllLeftToRight => {
                if fits {
                    self.copy_all_left_to_right();
                }
            },
            Command::CopyAllRightToLeft => {
                if fits {
                    self.copy_all_right_to_left();
                }
            },
            Command::SelectAll => {
                self.toggle_select_all();
            },
            Command::ToggleWhitespace => {
                if fits {
                    self.toggle_ignore_whitespace();
                }
            },
            Command::ToggleCase => {
                if fits {
                    self.toggle_ignore_case();
                }
            },
            Command::EditAtScroll => {
                if fits {
                    let row = self.active_tab().scroll_offset;
                    self.enter_edit_mode(PanelSide::Left, row, 0);
                }
            },
            Command::DirNext => {
                self.dir_next();
            },
            Command::DirPrev => {
                self.dir_prev();
            },
            Command::DirOpen => {
                effects.push(Effect::OpenDirEntry);
            },
            Command::ExitEdit => {
                if fits {
                    self.exit_edit_mode();
                }
            },
            Command::EditLeft => {
                self.edit_move_left();
            },
            Command::EditRight => {
                self.edit_move_right();
            },
            Command::EditUp => {
                self.edit_move_up();
            },
            Command::EditDown => {
                let blocked = match &self.active_tab().edit_state {
                    Some(e) => e.display_line == usize::MAX,
                    None => false,
                };
                if !blocked {
                    self.edit_move_down();
                }
            },
            Command::EditHome => {
                self.edit_move_home();
            },
            Command::EditEnd => {
                self.edit_move_end();
            },
            Command::EditBackspace => {
                self.edit_backspace();
            },
            Command::EditDelete => {
                self.edit_delete();
            },
            Command::EditEnter => {
                let blocked = match &self.active_tab().edit_state {
                    Some(e) => e.display_line == usize::MAX,
                    None => false,
                };
                if !blocked {
                    self.edit_enter();
                }
            },
            Command::ExitEditUndo => {
                if fits {
                    self.exit_edit_mode();
                    let ghost mid = *self;
                    self.undo();
                    proof {
                        assert(exit_edit_done(*old(self), mid));
                    }
                }
            },
            Command::ExitEditSave => {
                if fits {
                    self.exit_edit_mode();
                    let ghost mid = *self;
                    effects = self.start_save();
                    proof {
                        assert(exit_edit_done(*old(self), mid));
                    }
                }
            },
            Command::Type(ch) => {
                let blocked = match &self.active_tab().edit_state {
                    Some(e) => e.cursor_col == usize::MAX,
                    None => false,
                };
                if !blocked {
                    self.edit_insert_char(ch);
                }
            },
        }
        effects
    }
}

/// The dialog's browser changed as `ok` says, and nothing else; without a
/// browser nothing changes.
pub open spec fn browser_changed(before: App, after: App, ok: spec_fn(FileBrowser, FileBrowser) -> bool) -> bool {
    match before.file_browser {
        None => after == before,
        Some(b) => {
            &&& after == (App { file_browser: after.file_browser, ..before })
            &&& after.file_browser matches Some(a) && ok(b, a)
        },
    }
}

/// The active tab is replaced by `t`.
pub open spec fn with_active(before: App, after: App, t: TabState) -> bool {
    &&& after.tabs@ == before.tabs@.update(before.active_tab as int, t)
    &&& after.tabs@.len() == before.tabs@.len()
}

/// A dialog of the open flow picked the file `path`: the left file (then
/// the base in a three-way tab, or the right), the base (then the right),
/// or the right, which ends the dialog and loads the files picked.
pub open spec fn picked(before: App, after: App, path: Seq<char>, effects: Seq<Effect>) -> bool {
    let t0 = before.active();
    match before.mode {
        AppMode::OpenLeft => {
            &&& effects == seq![Effect::OpenBrowser]
            &&& after == (App {
                tabs: after.tabs,
                mode: if t0.is_three_way { AppMode::OpenBase } else { AppMode::OpenRight },
                file_browser: None,
                ..before
            })
            &&& after.active().left_path matches Some(p) && p@ == path
            &&& with_active(before, after, TabState { left_path: after.active().left_path, ..t0 })
        },
        AppMode::OpenBase => {
            &&& effects == seq![Effect::OpenBrowser]
            &&& after == (App { tabs: after.tabs, mode: AppMode::OpenRight, file_browser: None, ..before })
            &&& after.active().base_path matches Some(p) && p@ == path
            &&& with_active(before, after, TabState { base_path: after.active().base_path, ..t0 })
        },
        AppMode::OpenRight => {
            &&& after == (App { mode: AppMode::Normal, file_browser: None, ..before })
            &&& if t0.is_three_way {
                if t0.left_path is Some && t0.base_path is Some {
                    &&& effects.len() == 1
                    &&& effects[0] matches Effect::LoadThree { left, base, right }
                        && left@ == t0.left_path->0@ && base@ == t0.base_path->0@ && right@ == path
                } else {
                    effects.len() == 0
                }
            } else {
                if t0.left_path is Some {
                    &&& effects.len() == 1
                    &&& effects[0] matches Effect::LoadTwo { left, right } && left@ == t0.left_path->0@ && right@ == path
                } else {
                    effects.len() == 0
                }
            }
        },
        _ => after == before && effects.len() == 0,
    }
}

/// What a key does in the open dialog.
pub open spec fn open_dialog_key(before: App, after: App, k: KeyPress, effects: Seq<Effect>) -> bool {
    let unchanged = after == before && effects.len() == 0;
    match k.key {
        Key::Esc => effects.len() == 0 && after == (App { mode: AppMode::Normal, file_browser: None, ..before }),
        Key::Up => effects.len() == 0 && browser_changed(before, after, |b: FileBrowser, a: FileBrowser| moved_up(b, a)),
        Key::Down => effects.len() == 0 && browser_changed(before, after, |b: FileBrowser, a: FileBrowser| moved_down(b, a)),
        Key::Char(ch) => if ch == 'k' {
            effects.len() == 0 && browser_changed(before, after, |b: FileBrowser, a: FileBrowser| moved_up(b, a))
        } else if ch == 'j' {
            effects.len() == 0 && browser_changed(before, after, |b: FileBrowser, a: FileBrowser| moved_down(b, a))
        } else {
            unchanged
        },
        Key::PageUp => effects.len() == 0 && browser_changed(before, after, |b: FileBrowser, a: FileBrowser| paged_up(b, a, 15)),
        Key::PageDown => page_down_key(before, after, effects),
        Key::Backspace => match before.file_browser {
            None => after == before && effects.len() == 0,
            Some(b) => {
                &&& effects == if spec_parent(b.current_dir@) is Some {
                    seq![Effect::ListBrowser]
                } else {
                    Seq::<Effect>::empty()
                }
                &&& after == (App { file_browser: after.file_browser, ..before })
                &&& after.file_browser matches Some(a) && went_up(b, a, spec_parent(b.current_dir@) is Some)
            },
        },
        Key::Enter => enter_pick(before, after, effects),
        _ => unchanged,
    }
}

/// Opening the dialog's selected entry: a directory is entered (to be
/// listed), a file is picked.
pub open spec fn enter_pick(before: App, after: App, effects: Seq<Effect>) -> bool {
    match before.file_browser {
        None => after == before && effects.len() == 0,
        Some(b) => if (b.selected as int) < b.entries@.len() {
            let e = b.entries@[b.selected as int];
            if e.is_dir {
                &&& effects == seq![Effect::ListBrowser]
                &&& browser_changed(before, after, |b: FileBrowser, a: FileBrowser| entered(b, a, None))
            } else {
                picked(before, after, e.path@, effects)
            }
        } else {
            after == before && effects.len() == 0
        },
    }
}

/// Taking the save dialog's selected entry: a directory is entered (to be
/// listed), a file's name becomes the name to save under.
pub open spec fn tab_into(before: App, after: App, effects: Seq<Effect>) -> bool {
    match before.file_browser {
        None => after == before && effects.len() == 0,
        Some(b) => if (b.selected as int) < b.entries@.len() {
            let e = b.entries@[b.selected as int];
            if e.is_dir {
                &&& effects == seq![Effect::ListBrowser]
                &&& browser_changed(before, after, |b: FileBrowser, a: FileBrowser| entered(b, a, None))
            } else {
                &&& effects.len() == 0
                &&& after == (App { file_browser: after.file_browser, ..before })
                &&& after.file_browser matches Some(a) && a == (FileBrowser { filename_input: a.filename_input, ..b })
                    && (a.filename_input matches Some(m) && m@ == e.name@)
            }
        } else {
            after == before && effects.len() == 0
        },
    }
}

/// A page down in a dialog, unless the selection would pass `usize::MAX`.
pub open spec fn page_down_key(before: App, after: App, effects: Seq<Effect>) -> bool {
    &&& effects.len() == 0
    &&& if before.file_browser matches Some(b) && b.selected + 15 > usize::MAX {
        after == before
    } else {
        browser_changed(before, after, |b: FileBrowser, a: FileBrowser| paged_down(b, a, 15))
    }
}

/// Where the save dialog saves to: the typed name, trimmed, in its
/// directory; nothing when no name was typed.
pub open spec fn save_target(b: FileBrowser) -> Option<Seq<char>> {
    match b.filename_input {
        None => None,
        Some(name) => if trimmed(name@).len() == 0 {
            None
        } else {
            Some(spec_path_join(b.current_dir@, trimmed(name@)))
        },
    }
}

/// The save dialog's file name changed from `n` to what `edit` makes of
/// it; without a browser, or a file name, nothing changes.
pub open spec fn name_edited(before: App, after: App, edit: spec_fn(Seq<char>) -> Seq<char>) -> bool {
    match before.file_browser {
        Some(b) => match b.filename_input {
            Some(n) => {
                &&& after == (App { file_browser: after.file_browser, ..before })
                &&& after.file_browser matches Some(a) && a == (FileBrowser { filename_input: a.filename_input, ..b })
                    && (a.filename_input matches Some(m) && m@ == edit(n@))
            },
            None => after == before,
        },
        None => after == before,
    }
}

/// Saving under the path `p` from the save dialog: the left file (then the
/// dialog for the right one), or the right file, which ends saving.
pub open spec fn saved_to(before: App, after: App, p: Seq<char>, now: u64, effects: Seq<Effect>) -> bool {
    let t0 = before.active();
    match before.mode {
        AppMode::SaveLeft => {
            &&& effects.len() == 2
            &&& effects[0] matches Effect::Write { path, text }
                && path@ == p && text@ == spec_buf_to_text(lines_of(t0.left_buf@))
            &&& effects[1] == Effect::SaveRightDialog
            &&& after == (App { tabs: after.tabs, mode: AppMode::SaveRight, file_browser: None, ..before })
            &&& after.active().left_path matches Some(lp) && lp@ == p
            &&& with_active(before, after, TabState { left_path: after.active().left_path, ..t0 })
        },
        AppMode::SaveRight => {
            &&& effects.len() == 1
            &&& effects[0] matches Effect::Write { path, text }
                && path@ == p && text@ == spec_buf_to_text(lines_of(t0.right_buf@))
            &&& after == (App {
                tabs: after.tabs,
                mode: AppMode::Normal,
                file_browser: None,
                status_message: after.status_message,
                ..before
            })
            &&& after.status_message matches Some((m, at)) && m@ == "Saved"@ && at == now
            &&& after.active().right_path matches Some(rp) && rp@ == p
            &&& with_active(before, after, TabState {
                right_path: after.active().right_path,
                has_unsaved_changes: false,
                ..t0
            })
        },
        _ => after == before && effects.len() == 0,
    }
}

/// What a key does in the save dialog: keys that type go into the file
/// name.
pub open spec fn save_dialog_key(before: App, after: App, k: KeyPress, now: u64, effects: Seq<Effect>) -> bool {
    let unchanged = after == before && effects.len() == 0;
    match k.key {
        Key::Esc => effects.len() == 0 && after == (App { mode: AppMode::Normal, file_browser: None, ..before }),
        Key::Tab => tab_into(before, after, effects),
        Key::Up => effects.len() == 0 && browser_changed(before, after, |b: FileBrowser, a: FileBrowser| moved_up(b, a)),
        Key::Down => effects.len() == 0 && browser_changed(before, after, |b: FileBrowser, a: FileBrowser| moved_down(b, a)),
        Key::PageUp => effects.len() == 0 && browser_changed(before, after, |b: FileBrowser, a: FileBrowser| paged_up(b, a, 15)),
        Key::PageDown => page_down_key(before, after, effects),
        Key::Enter => match before.file_browser {
            None => unchanged,
            Some(b) => match save_target(b) {
                None => unchanged,
                Some(p) => saved_to(before, after, p, now, effects),
            },
        },
        Key::Backspace => effects.len() == 0 && name_edited(before, after, |n: Seq<char>| if n.len() > 0 { n.drop_last() } else { n }),
        Key::Char(ch) => effects.len() == 0 && name_edited(before, after, |n: Seq<char>| n.push(ch)),
        _ => unchanged,
    }
}

/// What a key does when asked whether to open (or start) two or three
/// panes.
pub open spec fn choose_key(before: App, after: App, k: KeyPress, effects: Seq<Effect>) -> bool {
    let t0 = before.active();
    match k.key {
        Key::Char(ch) => if ch == '2' || ch == '3' {
            let three = ch == '3';
            if before.new_file_pending {
                &&& effects.len() == 0
                &&& exists|mid: App| #[trigger] new_tab_done(App { new_file_pending: false, ..before }, mid)
                    && tab_step(mid, after) && new_blank_spec(mid.active(), after.active(), three)
            } else {
                &&& effects == seq![Effect::OpenBrowser]
                &&& after == (App { tabs: after.tabs, mode: AppMode::OpenLeft, file_browser: None, ..before })
                &&& with_active(before, after, TabState { is_three_way: three, ..t0 })
            }
        } else if ch == 'q' {
            effects.len() == 0 && after == (App { new_file_pending: false, mode: AppMode::Normal, ..before })
        } else {
            after == before && effects.len() == 0
        },
        Key::Esc => effects.len() == 0 && after == (App { new_file_pending: false, mode: AppMode::Normal, ..before }),
        _ => after == before && effects.len() == 0,
    }
}

/// What a key does when asked about unsaved changes before quitting: save,
/// discard (and quit), or cancel.
pub open spec fn save_confirm_key(before: App, after: App, k: KeyPress, effects: Seq<Effect>) -> bool {
    match k.key {
        Key::Char(ch) => if ch == 's' {
            save_done(before, after, effects)
        } else if ch == 'd' {
            effects.len() == 0 && after == (App { should_quit: true, ..before })
        } else if ch == 'c' {
            effects.len() == 0 && after == (App { mode: AppMode::Normal, ..before })
        } else {
            after == before && effects.len() == 0
        },
        Key::Esc => effects.len() == 0 && after == (App { mode: AppMode::Normal, ..before }),
        _ => after == before && effects.len() == 0,
    }
}

/// What a key does when asked about unsaved changes before closing a tab:
/// save, discard (and close), or cancel.
pub open spec fn close_confirm_key(before: App, after: App, k: KeyPress, effects: Seq<Effect>) -> bool {
    match k.key {
        Key::Char(ch) => if ch == 's' {
            save_done(before, after, effects)
        } else if ch == 'd' {
            &&& effects.len() == 0
            &&& exists|mid: App| #[trigger] close_tab_done(before, mid) && after == (App { mode: AppMode::Normal, ..mid })
        } else if ch == 'c' {
            effects.len() == 0 && after == (App { mode: AppMode::Normal, ..before })
        } else {
            after == before && effects.len() == 0
        },
        Key::Esc => effects.len() == 0 && after == (App { mode: AppMode::Normal, ..before }),
        _ => after == before && effects.len() == 0,
    }
}

/// What a key does, in whatever mode the application is.
pub open spec fn key_done(before: App, after: App, k: KeyPress, now: u64, effects: Seq<Effect>) -> bool {
    match before.mode {
        AppMode::Normal => command_done(
            before,
            after,
            if before.active().is_dir_compare { dir_command(k) } else { normal_command(k) },
            now,
            effects,
        ),
        AppMode::Editing => command_done(before, after, editing_command(k), now, effects),
        AppMode::OpenLeft | AppMode::OpenRight | AppMode::OpenBase => open_dialog_key(before, after, k, effects),
        AppMode::SaveLeft | AppMode::SaveRight => save_dialog_key(before, after, k, now, effects),
        AppMode::OpenChooseMode => choose_key(before, after, k, effects),
        AppMode::SaveConfirm => save_confirm_key(before, after, k, effects),
        AppMode::CloseTabConfirm => close_confirm_key(before, after, k, effects),
    }
}

impl App {
    /// Sets a path of the active tab.
    fn set_active_path(&mut self, panel: PanelSide, path: String)
        requires
            old(self).wf(),
        ensures
            final(self).wf(),
            tab_step(*old(self), *final(self)),
            with_active(*old(self), *final(self), match panel {
                PanelSide::Left => TabState { left_path: Some(path), ..old(self).active() },
                PanelSide::Base => TabState { base_path: Some(path), ..old(self).active() },
                PanelSide::Right => TabState { right_path: Some(path), ..old(self).active() },
            }),
    {
        proof {
            assert(crate::app::tab_ok(self.tabs@[self.active_tab as int]));
        }
        let t = self.active_tab_mut();
        match panel {
            PanelSide::Left => t.left_path = Some(path),
            PanelSide::Base => t.base_path = Some(path),
            PanelSide::Right => t.right_path = Some(path),
        }
        proof {
            lemma_wf_after_tab_step(&*old(self), &*self);
        }
    }

    /// Picks the file `path` in the open dialog (see `picked`).
    fn file_browser_select(&mut self, path: String) -> (effects: Vec<Effect>)
        requires
            old(self).wf(),
        ensures
            final(self).wf(),
            picked(*old(self), *final(self), path@, effects@),
    {
        let mut effects: Vec<Effect> = Vec::new();
        match self.mode {
            AppMode::OpenLeft => {
                let three = self.active_tab().is_three_way;
                self.set_active_path(PanelSide::Left, path);
                self.file_browser = None;
                self.mode = if three { AppMode::OpenBase } else { AppMode::OpenRight };
                effects.push(Effect::OpenBrowser);
            },
            AppMode::OpenBase => {
                self.set_active_path(PanelSide::Base, path);
                self.file_browser = None;
                self.mode = AppMode::OpenRight;
                effects.push(Effect::OpenBrowser);
            },
            AppMode::OpenRight => {
                self.file_browser = None;
                self.mode = AppMode::Normal;
                let t = self.active_tab();
                if t.is_three_way {
                    match (&t.left_path, &t.base_path) {
                        (Some(l), Some(b)) => {
                            effects.push(Effect::LoadThree { left: l.clone(), base: b.clone(), right: path });
                        },
                        _ => {},
                    }
                } else {
                    match &t.left_path {
                        Some(l) => {
                            effects.push(Effect::LoadTwo { left: l.clone(), right: path });
                        },
                        None => {},
                    }
                }
            },
            _ => {},
        }
        effects
    }

    /// Moves the dialog's selection a page down, unless it would pass
    /// `usize::MAX` (see `page_down_key`).
    fn browser_page_down(&mut self)
        requires
            old(self).wf(),
        ensures
            final(self).wf(),
            page_down_key(*old(self), *final(self), Seq::<Effect>::empty()),
    {
        let fb = self.file_browser.take();
        match fb {
            Some(mut b) => {
                if b.selected <= usize::MAX - 15 {
                    b.page_down(15);
                }
                self.file_browser = Some(b);
            },
            None => {},
        }
    }

    /// Opens the dialog's selected entry (see `enter_pick`).
    fn open_selected(&mut self) -> (effects: Vec<Effect>)
        requires
            old(self).wf(),
        ensures
            final(self).wf(),
            enter_pick(*old(self), *final(self), effects@),
    {
        let mut effects: Vec<Effect> = Vec::new();
        let fb = self.file_browser.take();
        match fb {
            Some(mut b) => {
                let in_range = b.selected < b.entries.len();
                let chosen = b.enter();
                let was_dir = chosen.is_none() && in_range;
                self.file_browser = Some(b);
                match chosen {
                    Some(p) => {
                        proof {
                            assert(*self == *old(self));
                        }
                        effects = self.file_browser_select(p);
                    },
                    None => {
                        if was_dir {
                            effects.push(Effect::ListBrowser);
                        }
                    },
                }
            },
            None => {},
        }
        effects
    }

    /// Takes the save dialog's selected entry (see `tab_into`).
    fn take_selected(&mut self) -> (effects: Vec<Effect>)
        requires
            old(self).wf(),
        ensures
            final(self).wf(),
            tab_into(*old(self), *final(self), effects@),
    {
        let mut effects: Vec<Effect> = Vec::new();
        let fb = self.file_browser.take();
        match fb {
            Some(mut b) => {
                if b.selected < b.entries.len() {
                    if b.entries[b.selected].is_dir {
                        let _ = b.enter();
                        effects.push(Effect::ListBrowser);
                    } else {
                        let name = b.entries[b.selected].name.clone();
                        b.filename_input = Some(name);
                    }
                }
                self.file_browser = Some(b);
            },
            None => {},
        }
        effects
    }

    /// Handles a key in the open dialog (see `open_dialog_key`).
    pub fn handle_file_browser_mode(&mut self, k: KeyPress) -> (effects: Vec<Effect>)
        requires
            old(self).wf(),
        ensures
            final(self).wf(),
            open_dialog_key(*old(self), *final(self), k, effects@),
    {
        let mut effects: Vec<Effect> = Vec::new();
        let up = match k.key {
            Key::Up => true,
            Key::Char(ch) => ch == 'k',
            _ => false,
        };
        let down = match k.key {
            Key::Down => true,
            Key::Char(ch) => ch == 'j',
            _ => false,
        };
        if up || down {
            let fb = self.file_browser.take();
            match fb {
                Some(mut b) => {
                    if up {
                        b.move_up();
                    } else {
                        b.move_down();
                    }
                    self.file_browser = Some(b);
                },
                None => {},
            }
            return effects;
        }
        match k.key {
            Key::Esc => {
                self.mode = AppMode::Normal;
                self.file_browser = None;
            },
            Key::PageUp => {
                let fb = self.file_browser.take();
                match fb {
                    Some(mut b) => {
                        b.page_up(15);
                        self.file_browser = Some(b);
                    },
                    None => {},
                }
            },
            Key::PageDown => {
                self.browser_page_down();
            },
            Key::Backspace => {
                let fb = self.file_browser.take();
                match fb {
                    Some(mut b) => {
                        if b.go_parent() {
                            effects.push(Effect::ListBrowser);
                        }
                        self.file_browser = Some(b);
                    },
                    None => {},
                }
            },
            Key::Enter => {
                effects = self.open_selected();
            },
            _ => {},
        }
        effects
    }
}

/// The text with its last character removed, when it has one.
fn without_last(s: &str) -> (r: String)
    ensures
        r@ == if s@.len() > 0 { s@.drop_last() } else { s@ },
{
    let mut cs = chars_of(s);
    if cs.len() > 0 {
        let _ = cs.pop();
    }
    string_of(cs.as_slice())
}

/// The text with a character added at its end.
fn with_char(s: &str, ch: char) -> (r: String)
    ensures
        r@ == s@.push(ch),
{
    let mut cs = chars_of(s);
    cs.push(ch);
    string_of(cs.as_slice())
}

impl App {
    /// Saves under the path `p` from the save dialog (see `saved_to`).
    fn save_to(&mut self, p: String, now: u64) -> (effects: Vec<Effect>)
        requires
            old(self).wf(),
        ensures
            final(self).wf(),
            saved_to(*old(self), *final(self), p@, now, effects@),
    {
        let mut effects: Vec<Effect> = Vec::new();
        match self.mode {
            AppMode::SaveLeft => {
                let text = self.active_tab().left_text();
                effects.push(Effect::Write { path: p.clone(), text });
                self.set_active_path(PanelSide::Left, p);
                self.file_browser = None;
                self.mode = AppMode::SaveRight;
                effects.push(Effect::SaveRightDialog);
            },
            AppMode::SaveRight => {
                let text = self.active_tab().right_text();
                effects.push(Effect::Write { path: p.clone(), text });
                self.set_active_path(PanelSide::Right, p);
                proof {
                    assert(crate::app::tab_ok(self.tabs@[self.active_tab as int]));
                }
                let ghost mid = *self;
                self.active_tab_mut().has_unsaved_changes = false;
                proof {
                    lemma_wf_after_tab_step(&mid, &*self);
                    let a = old(self).active_tab as int;
                    assert(self.tabs@ =~= old(self).tabs@.update(a, TabState {
                        right_path: self.active().right_path,
                        has_unsaved_changes: false,
                        ..old(self).active()
                    }));
                }
                self.file_browser = None;
                self.mode = AppMode::Normal;
                self.set_status("Saved", now);
                proof {
                    reveal_strlit("Saved");
                }
            },
            _ => {},
        }
        effects
    }

    /// Handles a key in the save dialog (see `save_dialog_key`).
    pub fn handle_save_browser_mode(&mut self, k: KeyPress, now: u64) -> (effects: Vec<Effect>)
        requires
            old(self).wf(),
        ensures
            final(self).wf(),
            save_dialog_key(*old(self), *final(self), k, now, effects@),
    {
        let mut effects: Vec<Effect> = Vec::new();
        match k.key {
            Key::Esc => {
                self.mode = AppMode::Normal;
                self.file_browser = None;
            },
            Key::Tab => {
                effects = self.take_selected();
            },
            Key::Up | Key::Down | Key::PageUp => {
                let fb = self.file_browser.take();
                match fb {
                    Some(mut b) => {
                        match k.key {
                            Key::Up => b.move_up(),
                            Key::Down => b.move_down(),
                            _ => b.page_up(15),
                        }
                        self.file_browser = Some(b);
                    },
                    None => {},
                }
            },
            Key::PageDown => {
                self.browser_page_down();
            },
            Key::Enter => {
                let target = match &self.file_browser {
                    Some(b) => b.save_path(),
                    None => None,
                };
                match target {
                    Some(p) => {
                        effects = self.save_to(p, now);
                    },
                    None => {},
                }
            },
            Key::Backspace | Key::Char(_) => {
                let fb = self.file_browser.take();
                match fb {
                    Some(mut b) => {
                        let edited = match &b.filename_input {
                            Some(n) => match k.key {
                                Key::Char(ch) => Some(with_char(n.as_str(), ch)),
                                _ => Some(without_last(n.as_str())),
                            },
                            None => None,
                        };
                        if edited.is_some() {
                            b.filename_input = edited;
                        }
                        self.file_browser = Some(b);
                    },
                    None => {},
                }
            },
            _ => {},
        }
        effects
    }

    /// Handles a key when asked whether to open (or start) two or three
    /// panes (see `choose_key`).
    pub fn handle_choose_mode(&mut self, k: KeyPress) -> (effects: Vec<Effect>)
        requires
            old(self).wf(),
        ensures
            final(self).wf(),
            choose_key(*old(self), *final(self), k, effects@),
    {
        let mut effects: Vec<Effect> = Vec::new();
        match k.key {
            Key::Char(ch) => {
                if ch == '2' || ch == '3' {
                    let three = ch == '3';
                    if self.new_file_pending {
                        self.new_file_pending = false;
                        let ghost start = *self;
                        self.new_tab();
                        let ghost mid = *self;
                        self.new_blank(three);
                        self.mode = AppMode::Normal;
                        proof {
                            assert(new_tab_done(start, mid));
                            assert(tab_step(mid, *self));
                        }
                    } else {
                        proof {
                            assert(crate::app::tab_ok(self.tabs@[self.active_tab as int]));
                        }
                        self.active_tab_mut().is_three_way = three;
                        proof {
                            lemma_wf_after_tab_step(&*old(self), &*self);
                        }
                        self.mode = AppMode::OpenLeft;
                        self.file_browser = None;
                        effects.push(Effect::OpenBrowser);
                    }
                } else if ch == 'q' {
                    self.new_file_pending = false;
                    self.mode = AppMode::Normal;
                }
            },
            Key::Esc => {
                self.new_file_pending = false;
                self.mode = AppMode::Normal;
            },
            _ => {},
        }
        effects
    }

    /// Handles a key when asked about unsaved changes before quitting (see
    /// `save_confirm_key`).
    pub fn handle_save_confirm(&mut self, k: KeyPress) -> (effects: Vec<Effect>)
        requires
            old(self).wf(),
        ensures
            final(self).wf(),
            save_confirm_key(*old(self), *final(self), k, effects@),
    {
        let mut effects: Vec<Effect> = Vec::new();
        match k.key {
            Key::Char(ch) => {
                if ch == 's' {
                    effects = self.start_save();
                } else if ch == 'd' {
                    self.should_quit = true;
                } else if ch == 'c' {
                    self.mode = AppMode::Normal;
                }
            },
            Key::Esc => {
                self.mode = AppMode::Normal;
            },
            _ => {},
        }
        effects
    }

    /// Handles a key when asked about unsaved changes before closing a tab
    /// (see `close_confirm_key`).
    pub fn handle_close_tab_confirm(&mut self, k: KeyPress) -> (effects: Vec<Effect>)
        requires
            old(self).wf(),
        ensures
            final(self).wf(),
            close_confirm_key(*old(self), *final(self), k, effects@),
    {
        let mut effects: Vec<Effect> = Vec::new();
        match k.key {
            Key::Char(ch) => {
                if ch == 's' {
                    effects = self.start_save();
                } else if ch == 'd' {
                    let _ = self.close_tab();
                    let ghost mid = *self;
                    self.mode = AppMode::Normal;
                    proof {
                        assert(close_tab_done(*old(self), mid));
                    }
                } else if ch == 'c' {
                    self.mode = AppMode::Normal;
                }
            },
            Key::Esc => {
                self.mode = AppMode::Normal;
            },
            _ => {},
        }
        effects
    }

    /// Handles a key in normal mode: the command of `normal_command`, or of
    /// `dir_command` in a directory comparison.
    pub fn handle_normal_mode(&mut self, k: KeyPress, now: u64) -> (effects: Vec<Effect>)
        requires
            old(self).wf(),
        ensures
            final(self).wf(),
            command_done(
                *old(self),
                *final(self),
                if old(self).active().is_dir_compare { dir_command(k) } else { normal_command(k) },
                now,
                effects@,
            ),
    {
        let c = key_command_normal(k, self.active_tab().is_dir_compare);
        self.run_command(c, now)
    }

    /// Handles a key while a line is being edited: the command of
    /// `editing_command`.
    pub fn handle_editing_mode(&mut self, k: KeyPress, now: u64) -> (effects: Vec<Effect>)
        requires
            old(self).wf(),
        ensures
            final(self).wf(),
            command_done(*old(self), *final(self), editing_command(k), now, effects@),
    {
        let c = key_command_editing(k);
        self.run_command(c, now)
    }

    /// Handles a key pressed at time `now`, in whatever mode the
    /// application is (see `key_done`), and gives the work left to the
    /// caller.
    pub fn handle_key(&mut self, k: KeyPress, now: u64) -> (effects: Vec<Effect>)
        requires
            old(self).wf(),
        ensures
            final(self).wf(),
            key_done(*old(self), *final(self), k, now, effects@),
    {
        match self.mode {
            AppMode::Normal => self.handle_normal_mode(k, now),
            AppMode::Editing => self.handle_editing_mode(k, now),
            AppMode::OpenLeft | AppMode::OpenRight | AppMode::OpenBase => self.handle_file_browser_mode(k),
            AppMode::SaveLeft | AppMode::SaveRight => self.handle_save_browser_mode(k, now),
            AppMode::OpenChooseMode => self.handle_choose_mode(k),
            AppMode::SaveConfirm => self.handle_save_confirm(k),
            AppMode::CloseTabConfirm => self.handle_close_tab_confirm(k),
        }
    }

    /// Carries out a menu item's action (see `menu_command`).
    pub fn execute_menu_action(&mut self, m: MenuAction, now: u64) -> (effects: Vec<Effect>)
        requires
            old(self).wf(),
        ensures
            final(self).wf(),
            command_done(*old(self), *final(self), menu_command(m), now, effects@),
    {
        let c = menu_item_command(m);
        self.run_command(c, now)
    }

    /// Scrolls by the mouse wheel: three entries of a directory
    /// comparison, three rows otherwise.
    pub fn handle_scroll(&mut self, down: bool)
        requires
            old(self).wf(),
        ensures
            final(self).wf(),
            old(self).active().is_dir_compare ==> {
                &&& tab_step(*old(self), *final(self))
                &&& final(self).active() == (TabState {
                    dir_result: if down {
                        dir_after_next(dir_after_next(dir_after_next(old(self).active().dir_result)))
                    } else {
                        dir_after_prev(dir_after_prev(dir_after_prev(old(self).active().dir_result)))
                    },
                    ..old(self).active()
                })
            },
            !old(self).active().is_dir_compare ==> command_done(
                *old(self),
                *final(self),
                if down { Command::ScrollDown(3) } else { Command::ScrollUp(3) },
                0,
                Seq::<Effect>::empty(),
            ),
    {
        if self.active_tab().is_dir_compare {
            let mut k: usize = 0;
            while k < 3
                invariant
                    k <= 3,
                    self.wf(),
                    tab_step(*old(self), *self),
                    self.active() == (TabState {
                        dir_result: if down {
                            if k == 0 {
                                old(self).active().dir_result
                            } else if k == 1 {
                                dir_after_next(old(self).active().dir_result)
                            } else if k == 2 {
                                dir_after_next(dir_after_next(old(self).active().dir_result))
                            } else {
                                dir_after_next(dir_after_next(dir_after_next(old(self).active().dir_result)))
                            }
                        } else {
                            if k == 0 {
                                old(self).active().dir_result
                            } else if k == 1 {
                                dir_after_prev(old(self).active().dir_result)
                            } else if k == 2 {
                                dir_after_prev(dir_after_prev(old(self).active().dir_result))
                            } else {
                                dir_after_prev(dir_after_prev(dir_after_prev(old(self).active().dir_result)))
                            }
                        },
                        ..old(self).active()
                    }),
                decreases 3 - k,
            {
                if down {
                    self.dir_next();
                } else {
                    self.dir_prev();
                }
                k = k + 1;
            }
        } else {
            let c = if down { Command::ScrollDown(3) } else { Command::ScrollUp(3) };
            let _ = self.run_command(c, 0);
        }
    }
}

/// A rectangle of the screen, in cells.
#[derive(Debug, Clone, Copy, PartialEq, Eq, Structural)]
pub struct Rect {
    pub x: u16,
    pub y: u16,
    pub width: u16,
    pub height: u16,
}

/// Where the last drawing put what a click can hit.
pub struct ScreenRegions {
    /// The close button of the dialog shown.
    pub dialog_close: Option<Rect>,
    /// The listing of the file dialog.
    pub browser_list: Option<Rect>,
    /// The listing of a directory comparison, its two header rows included.
    pub dir_list: Option<Rect>,
    /// The tab bar.
    pub tab_bar: TabBarLayout,
    /// The text areas of the panes shown.
    pub left_panel: Option<Rect>,
    pub base_panel: Option<Rect>,
    pub right_panel: Option<Rect>,
}

/// The columns the line numbers take at the left of a pane.
pub const LINE_NO_WIDTH: u16 = 5;

/// Cell `(x, y)` lies in the rectangle.
pub open spec fn inside(r: Rect, x: int, y: int) -> bool {
    r.x <= x < r.x + r.width && r.y <= y < r.y + r.height
}

/// Whether a cell lies in a rectangle (see `inside`).
pub fn rect_contains(r: Rect, x: u16, y: u16) -> (b: bool)
    ensures
        b == inside(r, x as int, y as int),
{
    let x = x as u32;
    let y = y as u32;
    x >= r.x as u32 && x < r.x as u32 + r.width as u32 && y >= r.y as u32 && y < r.y as u32 + r.height as u32
}

/// The pane, row and column of the text a click at `(x, y)` hits: row
/// and column counted from the top row shown and from the start of the
/// text, past the line numbers.
pub open spec fn pane_cell(r: Rect, panel: PanelSide, scroll: usize, x: int, y: int) -> (PanelSide, int, int) {
    (panel, scroll + (y - r.y), if x >= r.x + LINE_NO_WIDTH { x - r.x - LINE_NO_WIDTH } else { 0 })
}

/// The pane a click at `(x, y)` hits, with the row and column it stands
/// for: the left pane, then the base (in a three-way tab), then the right.
pub open spec fn panel_hit(t: TabState, reg: ScreenRegions, x: int, y: int) -> Option<(PanelSide, int, int)> {
    if reg.left_panel matches Some(r) && inside(r, x, y) {
        Some(pane_cell(reg.left_panel->0, PanelSide::Left, t.scroll_offset, x, y))
    } else if t.is_three_way && (reg.base_panel matches Some(r) && inside(r, x, y)) {
        Some(pane_cell(reg.base_panel->0, PanelSide::Base, t.scroll_offset, x, y))
    } else if reg.right_panel matches Some(r) && inside(r, x, y) {
        Some(pane_cell(reg.right_panel->0, PanelSide::Right, t.scroll_offset, x, y))
    } else {
        None
    }
}

/// The modes of the file dialogs.
pub open spec fn browser_mode(m: AppMode) -> bool {
    m == AppMode::OpenLeft || m == AppMode::OpenRight || m == AppMode::OpenBase || m == AppMode::SaveLeft
        || m == AppMode::SaveRight
}

/// A click on row `row` of the file dialog's listing: it selects the entry
/// there; on the entry already selected, it opens it (see `enter_pick`),
/// or in a save dialog takes it (see `tab_into`).
pub open spec fn browser_click(before: App, after: App, row: int, effects: Seq<Effect>) -> bool {
    match before.file_browser {
        None => after == before && effects.len() == 0,
        Some(b) => {
            let clicked = b.scroll_offset + row;
            if clicked >= b.entries@.len() {
                after == before && effects.len() == 0
            } else if clicked != b.selected {
                effects.len() == 0 && after == (App {
                    file_browser: Some(FileBrowser { selected: clicked as usize, ..b }),
                    ..before
                })
            } else if b.filename_input is Some {
                tab_into(before, after, effects)
            } else {
                enter_pick(before, after, effects)
            }
        },
    }
}

/// Where a directory listing of `capacity` rows starts so that its
/// selection shows.
pub open spec fn dir_scroll(d: DirCompareResult, capacity: int) -> int {
    if d.selected < d.scroll_offset {
        d.selected as int
    } else if capacity > 0 && d.selected >= d.scroll_offset + capacity {
        d.selected + 1 - capacity
    } else {
        d.scroll_offset as int
    }
}

/// A click at row `y` of the directory listing in `r`: below its two header
/// rows it selects the entry there.
pub open spec fn dir_list_click(before: App, after: App, r: Rect, y: int) -> bool {
    let t0 = before.active();
    if y < r.y + 2 {
        after == before
    } else {
        match t0.dir_result {
            None => after == before,
            Some(d) => {
                let capacity = if r.height >= 2 { r.height - 2 } else { 0 };
                let clicked = dir_scroll(d, capacity) + (y - r.y - 2);
                if clicked < d.entries@.len() {
                    &&& tab_step(before, after)
                    &&& after.active() == (TabState {
                        dir_result: Some(DirCompareResult { selected: clicked as usize, ..d }),
                        ..t0
                    })
                } else {
                    after == before
                }
            },
        }
    }
}

/// A click on the tab bar: switching to a tab, or closing it (asking first
/// when it is unsaved).
pub open spec fn tab_click(before: App, after: App, action: TabBarAction) -> bool {
    match action {
        TabBarAction::SwitchTab(i) => after == (App {
            active_tab: if (i as int) < before.tabs@.len() { i } else { before.active_tab },
            ..before
        }),
        TabBarAction::CloseTab(i) => {
            let mid = App { active_tab: if (i as int) < before.tabs@.len() { i } else { before.active_tab }, ..before };
            if mid.active().has_unsaved_changes {
                after == (App { mode: AppMode::CloseTabConfirm, ..mid })
            } else {
                close_tab_done(mid, after)
            }
        },
    }
}

/// A click on the menu bar (row 0) runs the item hit, in normal mode.
pub open spec fn menu_click(before: App, after: App, x: int, y: int, now: u64, effects: Seq<Effect>) -> bool {
    if y == 0 && before.mode == AppMode::Normal && menu_hit(menu_layout(), x, 0) is Some {
        command_done(before, after, menu_command(menu_hit(menu_layout(), x, 0)->0), now, effects)
    } else {
        after == before && effects.len() == 0
    }
}

/// What a click at `(x, y)` does, checking in turn: the dialog's close
/// button, the dialog's listing, a directory listing, the tab bar (with
/// more than one tab), the panes (in normal or editing mode: editing the
/// line clicked, when its row does not pass `usize::MAX`), and last the menu bar (a click elsewhere first ends
/// editing).
pub open spec fn click_done(before: App, after: App, reg: ScreenRegions, x: int, y: int, now: u64, effects: Seq<Effect>) -> bool {
    let t0 = before.active();
    let free = before.mode == AppMode::Normal || before.mode == AppMode::Editing;
    let tab_hit = if y != reg.tab_bar.y { None } else { region_hit(regions_view(reg.tab_bar.regions@), x) };
    if !free && (reg.dialog_close matches Some(r) && inside(r, x, y)) {
        effects.len() == 0 && after == (App { mode: AppMode::Normal, file_browser: None, ..before })
    } else if browser_mode(before.mode) && (reg.browser_list matches Some(r) && inside(r, x, y)) {
        browser_click(before, after, y - reg.browser_list->0.y, effects)
    } else if t0.is_dir_compare && (reg.dir_list matches Some(r) && inside(r, x, y)) {
        effects.len() == 0 && dir_list_click(before, after, reg.dir_list->0, y)
    } else if before.tabs@.len() > 1 && tab_hit is Some {
        effects.len() == 0 && tab_click(before, after, tab_hit->0)
    } else if free && (panel_hit(t0, reg, x, y) matches Some((p, d, c)) && d <= usize::MAX) {
        let (p, d, c) = panel_hit(t0, reg, x, y)->0;
        if !panes_ok(before) {
            after == before && effects.len() == 0
        } else if before.mode == AppMode::Editing {
            &&& effects.len() == 0
            &&& exists|mid: App| #[trigger] exit_edit_done(before, mid)
                && enter_edit_done(mid, after, p, d as usize, c as usize)
        } else {
            effects.len() == 0 && enter_edit_done(before, after, p, d as usize, c as usize)
        }
    } else if before.mode == AppMode::Editing {
        if panes_ok(before) {
            exists|mid: App| #[trigger] exit_edit_done(before, mid) && menu_click(mid, after, x, y, now, effects)
        } else {
            after == before && effects.len() == 0
        }
    } else {
        menu_click(before, after, x, y, now, effects)
    }
}

/// The pane a click hits, with the row and column it stands for (see
/// `panel_hit`); none when the row would pass `usize::MAX`.
pub fn hit_test_panel(t: &TabState, reg: &ScreenRegions, x: u16, y: u16) -> (r: Option<(PanelSide, usize, usize)>)
    ensures
        match panel_hit(*t, *reg, x as int, y as int) {
            None => r is None,
            Some((p, d, c)) => if d > usize::MAX {
                r is None
            } else {
                r == Some((p, d as usize, c as usize))
            },
        },
{
    let mut hit: Option<(PanelSide, Rect)> = None;
    if let Some(r) = reg.left_panel {
        if rect_contains(r, x, y) {
            hit = Some((PanelSide::Left, r));
        }
    }
    if hit.is_none() && t.is_three_way {
        if let Some(r) = reg.base_panel {
            if rect_contains(r, x, y) {
                hit = Some((PanelSide::Base, r));
            }
        }
    }
    if hit.is_none() {
        if let Some(r) = reg.right_panel {
            if rect_contains(r, x, y) {
                hit = Some((PanelSide::Right, r));
            }
        }
    }
    match hit {
        None => None,
        Some((p, r)) => {
            let row = (y - r.y) as usize;
            if t.scroll_offset > usize::MAX - row {
                return None;
            }
            let col = if (x as u32) >= (r.x as u32) + (LINE_NO_WIDTH as u32) {
                (x - r.x - LINE_NO_WIDTH) as usize
            } else {
                0
            };
            Some((p, t.scroll_offset + row, col))
        },
    }
}

impl App {
    /// Selects entry `idx` of the active tab's directory comparison.
    fn select_dir_entry(&mut self, idx: usize)
        requires
            old(self).wf(),
            old(self).active().dir_result is Some,
        ensures
            final(self).wf(),
            tab_step(*old(self), *final(self)),
            final(self).active() == (TabState {
                dir_result: Some(DirCompareResult { selected: idx, ..old(self).active().dir_result->0 }),
                ..old(self).active()
            }),
    {
        proof {
            assert(crate::app::tab_ok(self.tabs@[self.active_tab as int]));
        }
        let t = self.active_tab_mut();
        let d = t.dir_result.take();
        match d {
            Some(mut r) => {
                r.selected = idx;
                t.dir_result = Some(r);
            },
            None => {},
        }
        proof {
            lemma_wf_after_tab_step(&*old(self), &*self);
        }
    }

    /// A click on row `row` of the file dialog's listing (see
    /// `browser_click`).
    fn click_browser_row(&mut self, row: usize) -> (effects: Vec<Effect>)
        requires
            old(self).wf(),
        ensures
            final(self).wf(),
            browser_click(*old(self), *final(self), row as int, effects@),
    {
        let mut effects: Vec<Effect> = Vec::new();
        let (clicked, selected, len, save) = match &self.file_browser {
            None => return effects,
            Some(b) => {
                let len = b.entries.len();
                if b.scroll_offset > usize::MAX - row {
                    proof {
                        assert(b.scroll_offset + row > len);
                    }
                    return effects;
                }
                (b.scroll_offset + row, b.selected, b.entries.len(), b.filename_input.is_some())
            },
        };
        if clicked >= len {
            return effects;
        }
        if clicked != selected {
            let fb = self.file_browser.take();
            match fb {
                Some(mut b) => {
                    b.selected = clicked;
                    self.file_browser = Some(b);
                },
                None => {},
            }
            return effects;
        }
        if save {
            self.take_selected()
        } else {
            self.open_selected()
        }
    }

    /// A click in the directory listing (see `dir_list_click`).
    fn click_dir_list(&mut self, r: Rect, y: u16)
        requires
            old(self).wf(),
        ensures
            final(self).wf(),
            dir_list_click(*old(self), *final(self), r, y as int),
    {
        if (y as u32) < (r.y as u32) + 2 {
            return;
        }
        let row = (y - r.y - 2) as usize;
        let capacity = (if r.height >= 2 { r.height - 2 } else { 0 }) as usize;
        let target = match &self.active_tab().dir_result {
            None => None,
            Some(d) => {
                let scroll = if d.selected < d.scroll_offset {
                    d.selected
                } else if capacity > 0 && d.selected - d.scroll_offset >= capacity {
                    d.selected - capacity + 1
                } else {
                    d.scroll_offset
                };
                proof {
                    assert(scroll == dir_scroll(*d, capacity as int));
                }
                let len = d.entries.len();
                let res = if scroll <= usize::MAX - row && scroll + row < len {
                    Some(scroll + row)
                } else {
                    None
                };
                proof {
                    assert(res == if scroll + row < d.entries@.len() { Some((scroll + row) as usize) } else { None::<usize> });
                }
                res
            },
        };
        proof {
            match old(self).active().dir_result {
                Some(d) => {
                    let cap: int = if r.height >= 2 { r.height - 2 } else { 0 };
                    assert(capacity == cap);
                    let clicked = dir_scroll(d, cap) + (y - r.y - 2);
                    assert(row == y - r.y - 2);
                    assert(target == if clicked < d.entries@.len() { Some(clicked as usize) } else { None::<usize> });
                },
                None => {
                    assert(target is None);
                },
            }
        }
        if let Some(idx) = target {
            self.select_dir_entry(idx);
        }
    }

    /// A click on the menu bar (see `menu_click`).
    fn click_menu(&mut self, x: u16, y: u16, now: u64) -> (effects: Vec<Effect>)
        requires
            old(self).wf(),
        ensures
            final(self).wf(),
            menu_click(*old(self), *final(self), x as int, y as int, now, effects@),
    {
        if y == 0 && self.mode == AppMode::Normal {
            if let Some(m) = crate::menu::hit_test(x) {
                return self.execute_menu_action(m, now);
            }
        }
        Vec::new()
    }

    /// Handles a click at `(x, y)` at time `now`, given where the last
    /// drawing put things (see `click_done`), and gives the work left to
    /// the caller.
    pub fn handle_mouse_click(&mut self, reg: &ScreenRegions, x: u16, y: u16, now: u64) -> (effects: Vec<Effect>)
        requires
            old(self).wf(),
        ensures
            final(self).wf(),
            click_done(*old(self), *final(self), *reg, x as int, y as int, now, effects@),
    {
        let free = self.mode == AppMode::Normal || self.mode == AppMode::Editing;
        if !free {
            if let Some(r) = reg.dialog_close {
                if rect_contains(r, x, y) {
                    self.mode = AppMode::Normal;
                    self.file_browser = None;
                    return Vec::new();
                }
            }
        }
        let in_browser = match self.mode {
            AppMode::OpenLeft | AppMode::OpenRight | AppMode::OpenBase | AppMode::SaveLeft | AppMode::SaveRight => true,
            _ => false,
        };
        if in_browser {
            if let Some(r) = reg.browser_list {
                if rect_contains(r, x, y) {
                    return self.click_browser_row((y - r.y) as usize);
                }
            }
        }
        if self.active_tab().is_dir_compare {
            if let Some(r) = reg.dir_list {
                if rect_contains(r, x, y) {
                    self.click_dir_list(r, y);
                    return Vec::new();
                }
            }
        }
        if self.tabs.len() > 1 {
            if let Some(action) = crate::tab_bar::hit_test(&reg.tab_bar, x, y) {
                match action {
                    TabBarAction::SwitchTab(i) => {
                        self.switch_tab(i);
                    },
                    TabBarAction::CloseTab(i) => {
                        self.switch_tab(i);
                        if self.active_tab().has_unsaved_changes {
                            self.mode = AppMode::CloseTabConfirm;
                        } else {
                            let _ = self.close_tab();
                        }
                    },
                }
                return Vec::new();
            }
        }
        if free {
            let fits = self.active_tab().panes_fit();
            let hit = hit_test_panel(self.active_tab(), reg, x, y);
            if let Some((p, d, c)) = hit {
                if fits {
                    if self.mode == AppMode::Editing {
                        self.exit_edit_mode();
                        let ghost mid = *self;
                        self.enter_edit_mode(p, d, c);
                        proof {
                            assert(exit_edit_done(*old(self), mid));
                        }
                    } else {
                        self.enter_edit_mode(p, d, c);
                    }
                }
                return Vec::new();
            }
            if self.mode == AppMode::Editing {
                if !fits {
                    return Vec::new();
                }
                self.exit_edit_mode();
                let ghost mid = *self;
                let effects = self.click_menu(x, y, now);
                proof {
                    assert(exit_edit_done(*old(self), mid));
                }
                return effects;
            }
        }
        self.click_menu(x, y, now)
    }
}

} // verus!
