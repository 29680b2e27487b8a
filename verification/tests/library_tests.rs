use txmerge::app::{buf_to_text, str_to_lines, App, AppMode, PanelSide};
use txmerge::dir_compare::{merge_file_lists, path_less, scan_dirs};
use txmerge::engine::{compute_diff, DiffOptions};
use txmerge::events::{Command, Effect, Key, KeyPress, MenuAction, Rect, ScreenRegions};
use txmerge::file_browser::{
    arrange_listing, browser_title, entry_look, entry_text, trim_whitespace, DirEntry, EntryLook, FileBrowser,
};
use txmerge::git_diff::{git_range, parse_name_status};
use txmerge::menu::hit_test as menu_hit_test;
use txmerge::models::{DirEntryStatus, LineStatus, ThreeWayStatus};
use txmerge::tab_bar::{hit_test as tab_hit_test, layout_tab_bar, tab_label, TabBarAction};
use txmerge::three_way::compute_three_way_diff;
use txmerge::view::{
    blend_current, current_block, cursor_display_column, decimal_string, line_no_text, render_diff_line,
    render_diff_line_with_live, status_summary, Shade,
};

fn key(k: Key) -> KeyPress {
    KeyPress { key: k, ctrl: false, alt: false, shift: false }
}

fn ctrl(c: char) -> KeyPress {
    KeyPress { key: Key::Char(c), ctrl: true, alt: false, shift: false }
}

fn loaded(left: &str, right: &str) -> App {
    let mut app = App::new();
    app.open_files("/tmp/l.txt".to_string(), "/tmp/r.txt".to_string(), left, right);
    app
}

fn no_regions() -> ScreenRegions {
    ScreenRegions {
        dialog_close: None,
        browser_list: None,
        dir_list: None,
        tab_bar: layout_tab_bar(&Vec::new(), 0, 1),
        left_panel: None,
        base_panel: None,
        right_panel: None,
    }
}

fn entry(name: &str, is_dir: bool) -> DirEntry {
    DirEntry { name: name.to_string(), is_dir, path: format!("/d/{}", name) }
}

#[test]
fn text_round_trip_and_edges() {
    assert_eq!(str_to_lines(""), vec![String::new()]);
    assert_eq!(str_to_lines("a\nb\n"), vec!["a".to_string(), "b".to_string()]);
    assert_eq!(buf_to_text(&[String::new()]), "");
    assert_eq!(buf_to_text(&["a".to_string(), "b".to_string()]), "a\nb\n");
}

#[test]
fn undo_restores_the_text_before_a_copy() {
    let mut app = loaded("a\nb\nc\n", "a\nX\nc\n");
    let before = app.active_tab().right_text();
    app.copy_left_to_right();
    assert_eq!(app.active_tab().right_text(), "a\nb\nc\n");
    app.undo();
    assert_eq!(app.active_tab().right_text(), before);
    app.redo();
    assert_eq!(app.active_tab().right_text(), "a\nb\nc\n");
}

#[test]
fn copy_all_makes_the_panes_equal() {
    let mut app = loaded("one\ntwo\n", "three\n");
    app.copy_all_left_to_right();
    assert_eq!(app.active_tab().left_text(), app.active_tab().right_text());
    assert_eq!(app.diff_count(), 0);
}

#[test]
fn two_way_diff_numbers_every_line_once() {
    let r = compute_diff("a\nb\nc\n", "a\nc\nd\n", &DiffOptions::default());
    let left: Vec<u32> = r.lines.iter().filter_map(|l| l.left_line_no).collect();
    let right: Vec<u32> = r.lines.iter().filter_map(|l| l.right_line_no).collect();
    assert_eq!(left, vec![1, 2, 3]);
    assert_eq!(right, vec![1, 2, 3]);
}

#[test]
fn modified_line_gets_word_segments() {
    let r = compute_diff("hello world\n", "hello there\n", &DiffOptions::default());
    assert_eq!(r.lines.len(), 1);
    assert_eq!(r.lines[0].status, LineStatus::Modified);
    let changed: String = r.lines[0].left_word_segments.iter().filter(|s| s.changed).map(|s| s.text.clone()).collect();
    let all: String = r.lines[0].left_word_segments.iter().map(|s| s.text.clone()).collect();
    assert_eq!(all, "hello world");
    assert!(!changed.is_empty());
    assert!(!changed.contains("hello"));
}

#[test]
fn three_way_marks_a_one_sided_change() {
    let base = str_to_lines("a\nb\nc\n");
    let left = str_to_lines("a\nB\nc\n");
    let right = str_to_lines("a\nb\nc\n");
    let r = compute_three_way_diff(&base, &left, &right);
    assert_eq!(r.conflict_count, 0);
    assert_eq!(r.diff_positions.len(), 1);
    assert_eq!(r.lines[r.diff_positions[0]].status, ThreeWayStatus::LeftChanged);
}

#[test]
fn tab_cycle_comes_back() {
    let mut app = App::new();
    app.new_tab();
    app.new_tab();
    assert_eq!(app.active_tab, 2);
    app.next_tab();
    assert_eq!(app.active_tab, 0);
    app.prev_tab();
    assert_eq!(app.active_tab, 2);
}

#[test]
fn browser_keeps_the_selection_in_view() {
    let mut b = FileBrowser::at("/d".to_string(), None);
    let entries: Vec<DirEntry> = (0..30).map(|i| entry(&format!("f{:02}", i), false)).collect();
    b.set_entries(entries);
    for _ in 0..25 {
        b.move_down();
    }
    assert_eq!(b.selected, 25);
    assert!(b.scroll_offset <= b.selected && b.selected < b.scroll_offset + 20);
    assert_eq!(b.scroll_offset, 6);
    b.page_up(15);
    assert_eq!(b.selected, 10);
    b.page_down(100);
    assert_eq!(b.selected, 29);
}

#[test]
fn save_path_trims_and_joins() {
    let b = FileBrowser::at("/tmp".to_string(), Some("  out.txt ".to_string()));
    assert_eq!(b.save_path(), Some("/tmp/out.txt".to_string()));
    let blank = FileBrowser::at("/tmp".to_string(), Some("   ".to_string()));
    assert_eq!(blank.save_path(), None);
    assert_eq!(trim_whitespace("\t x y \n"), "x y");
}

#[test]
fn listing_puts_parent_dirs_then_files_by_lower_case_name() {
    let raw = vec![entry("b.txt", false), entry(".hidden", false), entry("Zed", true), entry("A.txt", false), entry("alpha", true)];
    let out = arrange_listing(Some("/".to_string()), raw);
    let names: Vec<&str> = out.iter().map(|e| e.name.as_str()).collect();
    assert_eq!(names, vec!["..", "alpha", "Zed", "A.txt", "b.txt"]);
    assert_eq!(out[0].path, "/");
    assert!(out[0].is_dir);
}

#[test]
fn title_is_the_file_name() {
    let app = loaded("x\n", "y\n");
    assert_eq!(app.active_tab().title(), "l.txt");
    assert_eq!(App::new().active_tab().title(), "New");
}

#[test]
fn menu_hit_uses_the_label_widths() {
    assert_eq!(menu_hit_test(0), None);
    assert_eq!(menu_hit_test(1), Some(MenuAction::New));
    assert_eq!(menu_hit_test(2), Some(MenuAction::New));
    assert_eq!(menu_hit_test(3), None);
    assert_eq!(menu_hit_test(4), Some(MenuAction::Open));
}

#[test]
fn tab_bar_regions_follow_the_labels() {
    assert_eq!(tab_label("a.txt", true), " *a.txt ");
    let labels = vec![tab_label("a", false), tab_label("b", true)];
    let layout = layout_tab_bar(&labels, 0, 1);
    // " a " takes 0..3, "[x]" 3..6, " │ " 6..9, " *b " 9..13, "[x]" 13..16
    assert_eq!(tab_hit_test(&layout, 1, 1), Some(TabBarAction::SwitchTab(0)));
    assert_eq!(tab_hit_test(&layout, 4, 1), Some(TabBarAction::CloseTab(0)));
    assert_eq!(tab_hit_test(&layout, 10, 1), Some(TabBarAction::SwitchTab(1)));
    assert_eq!(tab_hit_test(&layout, 14, 1), Some(TabBarAction::CloseTab(1)));
    assert_eq!(tab_hit_test(&layout, 1, 0), None);
}

#[test]
fn directory_listing_sorts_slash_first() {
    let left = vec!["a/b".to_string(), "a-b".to_string()];
    let right = vec!["a-b".to_string(), "c".to_string()];
    let merged = merge_file_lists(&left, &right);
    let paths: Vec<&str> = merged.iter().map(|e| e.0.as_str()).collect();
    assert_eq!(paths, vec!["a/b", "a-b", "c"]);
    assert_eq!((merged[0].1, merged[0].2), (true, false));
    assert_eq!((merged[1].1, merged[1].2), (true, true));
    assert!(path_less("a/b", "a-b"));
    let r = scan_dirs("/l".to_string(), "/r".to_string(), &merged, &vec![false, true, false]);
    assert_eq!(r.entries[0].status, DirEntryStatus::LeftOnly);
    assert_eq!(r.entries[1].status, DirEntryStatus::Equal);
    assert_eq!(r.entries[2].status, DirEntryStatus::RightOnly);
}

#[test]
fn git_name_status_output_is_listed() {
    assert_eq!(git_range("main", Some("dev")), "main..dev");
    assert_eq!(git_range("HEAD", None), "HEAD");
    let out = parse_name_status("M\tsrc/a.rs\nA\tnew.txt\nD\told.txt\nR100\tx.rs\ty.rs\n");
    let v: Vec<(&str, DirEntryStatus)> = out.iter().map(|e| (e.rel_path.as_str(), e.status)).collect();
    assert_eq!(
        v,
        vec![
            ("src/a.rs", DirEntryStatus::Changed),
            ("new.txt", DirEntryStatus::RightOnly),
            ("old.txt", DirEntryStatus::LeftOnly),
            ("x.rs", DirEntryStatus::LeftOnly),
            ("y.rs", DirEntryStatus::RightOnly),
        ]
    );
}

#[test]
fn status_message_expires() {
    let mut app = App::new();
    app.set_status("Saved", 1000);
    assert_eq!(app.current_status_message(2000), Some("Saved"));
    assert_eq!(app.current_status_message(4000), None);
}

#[test]
fn line_numbers_are_right_aligned() {
    assert_eq!(line_no_text(Some(7)), "   7 ");
    assert_eq!(line_no_text(Some(1234)), "1234 ");
    assert_eq!(line_no_text(Some(12345)), "12345 ");
    assert_eq!(line_no_text(None), "     ");
    assert_eq!(decimal_string(0), "0");
    assert_eq!(decimal_string(907), "907");
}

#[test]
fn current_block_is_lit_up() {
    assert_eq!(blend_current(Shade::Rgb(50, 20, 20)), Shade::Rgb(100, 45, 20));
    assert_eq!(blend_current(Shade::Rgb(250, 240, 1)), Shade::Rgb(255, 255, 1));
    assert_eq!(blend_current(Shade::Reset), Shade::Rgb(80, 50, 10));
    let r = compute_diff("a\nb\nc\n", "a\nx\nc\n", &DiffOptions::default());
    assert_eq!(current_block(&r, 0), Some((1, 2)));
    assert_eq!(current_block(&r, 1), None);
    let (left, right) = render_diff_line(&r.lines[1], true);
    assert_eq!(left[0].text, "   2 ");
    assert_eq!(left[0].style.bg, Shade::Rgb(100, 70, 15));
    assert_eq!(right.len(), left.len());
}

#[test]
fn cursor_column_counts_wide_characters() {
    assert_eq!(cursor_display_column("ab", 1), 1);
    assert_eq!(cursor_display_column("日本", 1), 2);
    assert_eq!(cursor_display_column("ab", 9), 2);
}

#[test]
fn status_line_summarises_the_tab() {
    let app = loaded("a\nb\n", "a\nc\n");
    assert_eq!(status_summary(app.active_tab()), "Diffs: 1 | Current: 1/1");
    let same = loaded("a\n", "a\n");
    assert_eq!(status_summary(same.active_tab()), "Files are identical");
    assert_eq!(status_summary(App::new().active_tab()), "No files loaded");
}

#[test]
fn quit_asks_when_something_is_unsaved() {
    let mut app = loaded("a\n", "b\n");
    let fx = app.handle_key(ctrl('q'), 0);
    assert!(fx.is_empty());
    assert!(app.should_quit);

    let mut app = loaded("a\n", "b\n");
    app.copy_left_to_right();
    let _ = app.handle_key(ctrl('q'), 0);
    assert!(!app.should_quit);
    assert_eq!(app.mode, AppMode::SaveConfirm);
    let fx = app.handle_key(key(Key::Char('s')), 0);
    assert_eq!(fx, vec![Effect::StartSave]);
    let _ = app.handle_key(key(Key::Char('d')), 0);
    assert!(app.should_quit);
}

#[test]
fn open_flow_asks_for_the_files_in_turn() {
    let mut app = App::new();
    let _ = app.handle_key(key(Key::Char('o')), 0);
    assert_eq!(app.mode, AppMode::OpenChooseMode);
    let fx = app.handle_key(key(Key::Char('2')), 0);
    assert_eq!(fx, vec![Effect::OpenBrowser]);
    assert_eq!(app.mode, AppMode::OpenLeft);
    let mut b = FileBrowser::at("/d".to_string(), None);
    b.set_entries(vec![entry("sub", true), entry("x.txt", false)]);
    app.file_browser = Some(b);
    let fx = app.handle_key(key(Key::Enter), 0);
    assert_eq!(fx, vec![Effect::ListBrowser]);
    assert_eq!(app.file_browser.as_ref().unwrap().current_dir, "/d/sub");
    let mut b = FileBrowser::at("/d".to_string(), None);
    b.set_entries(vec![entry("x.txt", false)]);
    app.file_browser = Some(b);
    let fx = app.handle_key(key(Key::Enter), 0);
    assert_eq!(fx, vec![Effect::OpenBrowser]);
    assert_eq!(app.mode, AppMode::OpenRight);
    assert_eq!(app.active_tab().left_path.as_deref(), Some("/d/x.txt"));
    let mut b = FileBrowser::at("/d".to_string(), None);
    b.set_entries(vec![entry("y.txt", false)]);
    app.file_browser = Some(b);
    let fx = app.handle_key(key(Key::Enter), 0);
    assert_eq!(fx, vec![Effect::LoadTwo { left: "/d/x.txt".to_string(), right: "/d/y.txt".to_string() }]);
    assert_eq!(app.mode, AppMode::Normal);
}

#[test]
fn save_dialog_types_the_file_name_and_writes_both_panes() {
    let mut app = loaded("L\n", "R\n");
    app.save_files(FileBrowser::at("/out".to_string(), Some("l".to_string())));
    assert_eq!(app.mode, AppMode::SaveLeft);
    let _ = app.handle_key(key(Key::Char('x')), 0);
    let _ = app.handle_key(key(Key::Backspace), 0);
    let _ = app.handle_key(key(Key::Char('2')), 0);
    let fx = app.handle_key(key(Key::Enter), 0);
    assert_eq!(fx, vec![Effect::Write { path: "/out/l2".to_string(), text: "L\n".to_string() }, Effect::SaveRightDialog]);
    assert_eq!(app.mode, AppMode::SaveRight);
    app.file_browser = Some(FileBrowser::at("/out".to_string(), Some("r".to_string())));
    let fx = app.handle_key(key(Key::Enter), 50);
    assert_eq!(fx, vec![Effect::Write { path: "/out/r".to_string(), text: "R\n".to_string() }]);
    assert_eq!(app.mode, AppMode::Normal);
    assert_eq!(app.current_status_message(60), Some("Saved"));
    assert!(!app.active_tab().has_unsaved_changes);
}

#[test]
fn editing_keys_type_and_escape_commits() {
    let mut app = loaded("abc\n", "abc\n");
    let _ = app.handle_key(key(Key::Char('i')), 0);
    assert_eq!(app.mode, AppMode::Editing);
    let _ = app.handle_key(key(Key::End), 0);
    let _ = app.handle_key(key(Key::Char('d')), 0);
    let _ = app.handle_key(key(Key::Esc), 0);
    assert_eq!(app.mode, AppMode::Normal);
    assert_eq!(app.active_tab().left_text(), "abcd\n");
    assert!(app.active_tab().has_unsaved_changes);
    assert_eq!(app.diff_count(), 1);
}

#[test]
fn refresh_reloads_when_nothing_is_unsaved() {
    let mut app = loaded("a\n", "b\n");
    let fx = app.handle_key(KeyPress { key: Key::F(5), ctrl: false, alt: false, shift: false }, 10);
    assert_eq!(fx, vec![Effect::LoadTwo { left: "/tmp/l.txt".to_string(), right: "/tmp/r.txt".to_string() }]);
    assert_eq!(app.current_status_message(10), Some("Refreshed from disk"));
    app.copy_left_to_right();
    let fx = app.run_command(Command::Refresh, 20);
    assert!(fx.is_empty());
    assert_eq!(app.current_status_message(20), Some("Re-diffed (unsaved changes preserved)"));
}

#[test]
fn clicks_reach_the_menu_and_the_panes() {
    let mut app = loaded("a\nb\n", "a\nc\n");
    let mut reg = no_regions();
    reg.left_panel = Some(Rect { x: 1, y: 2, width: 20, height: 10 });
    reg.right_panel = Some(Rect { x: 22, y: 2, width: 20, height: 10 });
    let _ = app.handle_mouse_click(&reg, 8, 3, 0);
    assert_eq!(app.mode, AppMode::Editing);
    let e = app.active_tab().edit_state.unwrap();
    assert_eq!(e.panel, PanelSide::Left);
    assert_eq!(e.source_line, 1);
    assert_eq!(e.cursor_col, 1);
    let _ = app.handle_mouse_click(&reg, 1, 0, 0);
    assert_eq!(app.mode, AppMode::OpenChooseMode);
    assert!(app.new_file_pending);
}

#[test]
fn mouse_wheel_scrolls_three_rows() {
    let text: String = (0..10).map(|i| format!("{}\n", i)).collect();
    let mut app = loaded(&text, &text);
    app.handle_scroll(true);
    assert_eq!(app.active_tab().scroll_offset, 3);
    app.handle_scroll(false);
    assert_eq!(app.active_tab().scroll_offset, 0);
}

#[test]
fn closing_an_unsaved_tab_asks_first() {
    let mut app = loaded("a\n", "b\n");
    app.new_tab();
    let _ = app.handle_key(ctrl('w'), 0);
    assert_eq!(app.tabs.len(), 1);
    app.copy_left_to_right();
    app.new_tab();
    app.switch_tab(0);
    let _ = app.handle_key(ctrl('w'), 0);
    assert_eq!(app.mode, AppMode::CloseTabConfirm);
    let _ = app.handle_key(key(Key::Char('d')), 0);
    assert_eq!(app.tabs.len(), 1);
    assert_eq!(app.mode, AppMode::Normal);
}

#[test]
fn merge_tool_save_writes_the_base_and_quits() {
    let mut app = App::new();
    app.open_files_3way("l".to_string(), "b".to_string(), "r".to_string(), "a\n", "base\n", "c\n");
    app.output_path = Some("/tmp/merged".to_string());
    let fx = app.handle_key(ctrl('s'), 0);
    assert_eq!(fx, vec![Effect::Write { path: "/tmp/merged".to_string(), text: "base\n".to_string() }]);
    assert!(app.output_saved);
    assert!(app.should_quit);
}

#[test]
fn equal_rows_show_the_same_text() {
    let r = compute_diff("a\nb\nc\nd\n", "a\nx\nc\nd\ne\n", &DiffOptions::default());
    for l in r.lines.iter().filter(|l| l.status == LineStatus::Equal) {
        assert_eq!(l.left_text, l.right_text);
        assert!(l.left_line_no.is_some() && l.right_line_no.is_some());
    }
    let ws = DiffOptions { ignore_whitespace: true, ..DiffOptions::default() };
    let r = compute_diff("a  b\n", "a b\n", &ws);
    assert_eq!(r.lines[0].status, LineStatus::Equal);
    assert_eq!(r.lines[0].left_text, "a  b");
}

#[test]
fn the_edited_row_shows_the_live_text() {
    let r = compute_diff("a\nb\n", "a\nc\n", &DiffOptions::default());
    let (left, right) = render_diff_line_with_live(&r.lines[1], false, PanelSide::Left, "typed");
    assert_eq!(left.len(), 2);
    assert_eq!(left[1].text, "typed");
    assert_eq!(left[1].style.bg, Shade::Rgb(30, 40, 60));
    assert_eq!(right[1].text, "c");
    assert_eq!(right[1].style.bg, Shade::Rgb(50, 45, 15));
}

#[test]
fn three_way_equal_rows_show_one_line() {
    let base = str_to_lines("a\nb\nc\nd\n");
    let left = str_to_lines("a\nB\nc\nd\n");
    let right = str_to_lines("x\na\nb\nc\nD\n");
    let r = compute_three_way_diff(&base, &left, &right);
    let mut equal = 0;
    for row in &r.lines {
        if row.status == ThreeWayStatus::Equal {
            equal += 1;
            let b = &base[row.base_line_no.unwrap() as usize - 1];
            assert_eq!(b, &left[row.left_line_no.unwrap() as usize - 1]);
            assert_eq!(b, &right[row.right_line_no.unwrap() as usize - 1]);
        }
    }
    assert!(equal >= 2);
}

#[test]
fn save_dialog_defaults_come_from_the_path() {
    assert_eq!(
        App::save_defaults(&Some("/a/b/c.txt".to_string()), "untitled_left.txt", "/cwd", Some("/home/u".to_string())),
        ("c.txt".to_string(), "/a/b".to_string())
    );
    assert_eq!(
        App::save_defaults(&None, "untitled_right.txt", "/cwd", Some("/home/u".to_string())),
        ("untitled_right.txt".to_string(), "/home/u".to_string())
    );
    assert_eq!(App::save_defaults(&None, "x", "/cwd", None), ("x".to_string(), "/cwd".to_string()));
    assert_eq!(App::save_defaults(&Some("/".to_string()), "x", "/cwd", None), ("x".to_string(), "/cwd".to_string()));
}

#[test]
fn backspace_in_the_open_dialog_goes_up() {
    let mut app = App::new();
    app.mode = AppMode::OpenLeft;
    app.file_browser = Some(FileBrowser::at("/a/b".to_string(), None));
    let fx = app.handle_key(key(Key::Backspace), 0);
    assert_eq!(fx, vec![Effect::ListBrowser]);
    assert_eq!(app.file_browser.as_ref().unwrap().current_dir, "/a");
    app.file_browser = Some(FileBrowser::at("/".to_string(), None));
    let fx = app.handle_key(key(Key::Backspace), 0);
    assert!(fx.is_empty());
    assert_eq!(app.file_browser.as_ref().unwrap().current_dir, "/");
}

#[test]
fn block_copy_keeps_the_source_order() {
    let mut app = App::new();
    app.active_tab_mut().left_buf = str_to_lines("a\nb\nc\nd\n");
    app.active_tab_mut().right_buf = str_to_lines("a\nB\nd\n");
    app.recompute_diff();
    assert_eq!(app.diff_count(), 1);
    app.copy_left_to_right();
    assert_eq!(app.active_tab().right_text(), "a\nb\nc\nd\n");
    assert_eq!(app.active_tab().left_text(), "a\nb\nc\nd\n");
    assert!(app.active_tab().has_unsaved_changes);
    assert_eq!(app.diff_count(), 0);

    let mut app = App::new();
    app.active_tab_mut().left_buf = str_to_lines("a\nB\nd\n");
    app.active_tab_mut().right_buf = str_to_lines("a\nb\nc\nd\n");
    app.recompute_diff();
    app.copy_right_to_left();
    assert_eq!(app.active_tab().left_text(), "a\nb\nc\nd\n");
    assert_eq!(app.diff_count(), 0);
}

#[test]
fn identical_texts_show_no_differences() {
    let mut app = App::new();
    app.active_tab_mut().left_buf = str_to_lines("a\nb\nc\n");
    app.active_tab_mut().right_buf = str_to_lines("a\nb\nc\n");
    app.recompute_diff();
    assert_eq!(app.diff_count(), 0);
    assert!(compute_diff("x\ny\n", "x\ny\n", &DiffOptions::default()).lines.iter().all(|l| l.status == LineStatus::Equal));
    let base = str_to_lines("p\nq\n");
    let r = compute_three_way_diff(&base, &base, &base);
    assert!(r.diff_positions.is_empty());
    assert_eq!(r.conflict_count, 0);
}

#[test]
fn copy_all_leaves_no_differences() {
    let mut app = App::new();
    app.active_tab_mut().left_buf = str_to_lines("one\ntwo\n");
    app.active_tab_mut().right_buf = str_to_lines("uno\ndos\ntres\n");
    app.recompute_diff();
    app.active_tab_mut().copy_all_left_to_right();
    assert_eq!(app.active_tab().right_text(), "one\ntwo\n");
    assert_eq!(app.diff_count(), 0);
    assert_eq!(app.active_tab().current_diff, -1);
}

#[test]
fn merged_file_lists_hold_only_listed_paths() {
    let left = vec!["b.txt".to_string(), "a.txt".to_string()];
    let right = vec!["c.txt".to_string(), "a.txt".to_string()];
    let merged = merge_file_lists(&left, &right);
    let paths: Vec<&str> = merged.iter().map(|e| e.0.as_str()).collect();
    assert_eq!(paths, vec!["a.txt", "b.txt", "c.txt"]);
    assert_eq!((merged[0].1, merged[0].2), (true, true));
    assert_eq!((merged[1].1, merged[1].2), (true, false));
    assert_eq!((merged[2].1, merged[2].2), (false, true));
}

#[test]
fn browser_listing_is_arranged() {
    let raw = vec![
        DirEntry { name: "zeta.txt".to_string(), is_dir: false, path: "/d/zeta.txt".to_string() },
        DirEntry { name: "Alpha".to_string(), is_dir: true, path: "/d/Alpha".to_string() },
        DirEntry { name: "beta.txt".to_string(), is_dir: false, path: "/d/beta.txt".to_string() },
    ];
    let b = FileBrowser::listed("/d".to_string(), None, raw);
    let names: Vec<&str> = b.entries.iter().map(|e| e.name.as_str()).collect();
    assert_eq!(names, vec!["..", "Alpha", "beta.txt", "zeta.txt"]);
    assert_eq!(b.entries[0].path, "/");
    assert_eq!(b.selected, 0);
    assert_eq!(b.current_dir, "/d");
}

#[test]
fn save_dialog_starts_by_the_pane() {
    let mut app = App::new();
    assert_eq!(
        app.save_start(false, "/cwd", Some("/home/u".to_string())),
        ("untitled_left.txt".to_string(), "/home/u".to_string())
    );
    app.active_tab_mut().right_path = Some("/a/b/r.txt".to_string());
    assert_eq!(app.save_start(true, "/cwd", None), ("r.txt".to_string(), "/a/b".to_string()));
    assert_eq!(app.save_start(true, "/cwd", None).0, "r.txt");
}

#[test]
fn file_dialog_rows_and_titles() {
    assert_eq!(browser_title(AppMode::OpenLeft), " Select left file ");
    assert_eq!(browser_title(AppMode::SaveRight), " Save right file ");
    assert_eq!(browser_title(AppMode::Normal), "");
    let d = DirEntry { name: "src".to_string(), is_dir: true, path: "/x/src".to_string() };
    let f = DirEntry { name: "a.rs".to_string(), is_dir: false, path: "/x/a.rs".to_string() };
    assert_eq!(entry_text(&d), "\u{1F4C1} src");
    assert_eq!(entry_text(&f), "   a.rs");
    assert_eq!(entry_look(true, true), EntryLook::SelectedFolder);
    assert_eq!(entry_look(false, false), EntryLook::Plain);
}

#[test]
fn new_app_has_a_fresh_tab() {
    let app = App::new();
    assert!(!app.any_unsaved());
    assert_eq!(app.active_tab().title(), "New");
    assert!(app.undo_stack_is_empty());
}
