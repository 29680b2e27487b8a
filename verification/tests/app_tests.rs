use txmerge::app::{str_to_lines, App, AppMode, PanelSide};

fn make_app_with_diff(left: &str, right: &str) -> App {
    let mut app = App::new();
    app.active_tab_mut().left_buf = str_to_lines(left);
    app.active_tab_mut().right_buf = str_to_lines(right);
    app.active_tab_mut().left_path = Some("/tmp/left.txt".to_string());
    app.active_tab_mut().right_path = Some("/tmp/right.txt".to_string());
    app.recompute_diff();
    app
}

/// Blank screen: click left panel -> edit -> click right panel -> edit
#[test]
fn test_blank_screen_edit_both_panels() {
    let mut app = App::new();
    app.new_blank(false);

    // Click left panel line 0
    app.enter_edit_mode(PanelSide::Left, 0, 0);
    assert_eq!(app.mode, AppMode::Editing);
    assert_eq!(
        app.active_tab().edit_state.as_ref().unwrap().panel,
        PanelSide::Left
    );

    // Type "hello"
    for c in "hello".chars() {
        app.edit_insert_char(c);
    }
    assert!(app.active_tab().left_text().contains("hello"));

    // Click right panel -- should exit left edit and enter right
    app.exit_edit_mode();
    app.enter_edit_mode(PanelSide::Right, 0, 0);
    assert_eq!(app.mode, AppMode::Editing);
    assert_eq!(
        app.active_tab().edit_state.as_ref().unwrap().panel,
        PanelSide::Right
    );

    // Type "world"
    for c in "world".chars() {
        app.edit_insert_char(c);
    }
    assert!(app.active_tab().right_text().contains("world"));

    // Both texts preserved
    assert!(app.active_tab().left_text().contains("hello"));
    assert!(app.active_tab().right_text().contains("world"));
}

/// Edit -> F5 compare -> text is preserved
#[test]
fn test_edit_then_f5_preserves_text() {
    let mut app = App::new();
    app.new_blank(false);

    // Edit left
    app.enter_edit_mode(PanelSide::Left, 0, 0);
    for c in "fn main() {}".chars() {
        app.edit_insert_char(c);
    }
    app.exit_edit_mode();

    assert!(app.active_tab().left_text().contains("fn main() {}"));

    // Simulate F5: recompute diff
    app.recompute_diff();
    assert!(app.active_tab().diff_result.is_some());
    // Text must survive
    assert!(app.active_tab().left_text().contains("fn main() {}"));
}

/// Edit -> F5 -> copy -> edit again (the reported bug)
#[test]
fn test_edit_f5_copy_edit_cycle() {
    let mut app = App::new();
    app.new_blank(false);

    // Edit left panel
    app.enter_edit_mode(PanelSide::Left, 0, 0);
    for c in "line one".chars() {
        app.edit_insert_char(c);
    }
    app.exit_edit_mode();

    // F5 to compute diff
    app.recompute_diff();
    assert!(app.active_tab().diff_result.is_some());
    let diff_count = app.diff_count();
    assert!(diff_count > 0, "should have diffs after editing left only");

    // Copy left to right
    app.copy_left_to_right();
    assert!(
        app.active_tab().right_text().contains("line one"),
        "copy should transfer text"
    );

    // After copy, edit must still work -- click left panel
    let resolve = app.resolve_display_to_source(0, PanelSide::Left);
    assert!(resolve.is_some(), "resolve must succeed after copy");

    app.enter_edit_mode(PanelSide::Left, 0, 0);
    assert_eq!(
        app.mode,
        AppMode::Editing,
        "must enter edit mode after copy"
    );
    app.edit_insert_char('X');
    assert!(
        app.active_tab().left_text().starts_with('X')
            || app.active_tab().left_text().contains('X')
    );
    app.exit_edit_mode();

    // Right panel too
    let resolve_r = app.resolve_display_to_source(0, PanelSide::Right);
    assert!(resolve_r.is_some(), "resolve right must succeed after copy");
    app.enter_edit_mode(PanelSide::Right, 0, 0);
    assert_eq!(app.mode, AppMode::Editing);
    app.edit_insert_char('Y');
    assert!(app.active_tab().right_text().contains('Y'));
    app.exit_edit_mode();
}

/// Repeated copy + edit cycles (stress test)
#[test]
fn test_repeated_copy_edit_stress() {
    let mut app = make_app_with_diff("alpha\nbeta\ngamma\n", "alpha\nBETA\ngamma\n");

    for iteration in 0..50 {
        let diff_count = app.diff_count();
        if diff_count == 0 {
            break;
        }

        app.copy_left_to_right();
        assert!(
            app.active_tab().has_unsaved_changes,
            "iter {}: must have unsaved changes after copy",
            iteration
        );

        let resolve = app.resolve_display_to_source(0, PanelSide::Left);
        assert!(
            resolve.is_some(),
            "iter {}: resolve must succeed",
            iteration
        );
        app.enter_edit_mode(PanelSide::Left, 0, 0);
        if app.mode == AppMode::Editing {
            app.edit_insert_char(' ');
            app.exit_edit_mode();
        }

        app.recompute_diff();
    }

    assert!(
        !app.active_tab().left_text().is_empty(),
        "left text must survive stress"
    );
    assert!(
        !app.active_tab().right_text().is_empty(),
        "right text must survive stress"
    );
}

/// Ghost line editing
#[test]
fn test_ghost_line_editing() {
    let mut app = make_app_with_diff("line1\nline2\nline3\n", "line1\n");

    let result = app.resolve_display_to_source(1, PanelSide::Right);
    assert!(
        result.is_some(),
        "ghost line should resolve to nearest source line"
    );

    app.enter_edit_mode(PanelSide::Right, 1, 0);
    assert_eq!(app.mode, AppMode::Editing);
    app.exit_edit_mode();
}

/// Undo after edit preserves state
#[test]
fn test_undo_after_edit() {
    let mut app = make_app_with_diff("hello\n", "world\n");
    let original_left = app.active_tab().left_text();

    app.enter_edit_mode(PanelSide::Left, 0, 0);
    app.edit_insert_char('X');
    app.exit_edit_mode();

    assert!(app.active_tab().left_text().contains('X'));

    app.undo();
    assert_eq!(
        app.active_tab().left_text(),
        original_left,
        "undo must restore original"
    );
}

/// F5 never reloads from disk when text was edited
#[test]
fn test_f5_never_destroys_edits() {
    let mut app = make_app_with_diff("original\n", "original\n");

    app.enter_edit_mode(PanelSide::Left, 0, 5);
    for c in "_modified".chars() {
        app.edit_insert_char(c);
    }
    app.exit_edit_mode();
    assert!(app.active_tab().left_text().contains("_modified"));

    app.recompute_diff();
    assert!(
        app.active_tab().left_text().contains("_modified"),
        "F5 must preserve edited text"
    );
}

/// Last line deletion guard
#[test]
fn test_last_line_deletion_guard() {
    let mut app = App::new();
    app.new_blank(false);

    app.enter_edit_mode(PanelSide::Left, 0, 0);
    app.edit_insert_char('A');
    app.edit_backspace();
    let lines = app.source_lines(PanelSide::Left);
    assert!(lines.len() >= 1, "must keep at least one line");
    app.exit_edit_mode();
}

// ================================================================
// IRON RULES
// ================================================================

#[test]
fn test_iron_rule_f5_never_destroys_display() {
    let mut app = App::new();
    app.new_blank(false);

    app.enter_edit_mode(PanelSide::Left, 0, 0);
    for c in "left content".chars() {
        app.edit_insert_char(c);
    }
    app.exit_edit_mode();

    app.enter_edit_mode(PanelSide::Right, 0, 0);
    for c in "right content".chars() {
        app.edit_insert_char(c);
    }
    app.exit_edit_mode();

    let left_before = app.active_tab().left_text();
    let right_before = app.active_tab().right_text();

    app.recompute_diff();

    assert_eq!(
        app.active_tab().left_text(),
        left_before,
        "F5 destroyed left text"
    );
    assert_eq!(
        app.active_tab().right_text(),
        right_before,
        "F5 destroyed right text"
    );

    app.recompute_diff();
    assert_eq!(
        app.active_tab().left_text(),
        left_before,
        "second F5 destroyed left text"
    );
    assert_eq!(
        app.active_tab().right_text(),
        right_before,
        "second F5 destroyed right text"
    );
}

#[test]
fn test_iron_rule_f5_after_copy_preserves() {
    let mut app = make_app_with_diff("hello\nworld\n", "hello\nWORLD\n");

    app.copy_left_to_right();
    let left_after_copy = app.active_tab().left_text();
    let right_after_copy = app.active_tab().right_text();

    app.recompute_diff();
    assert_eq!(
        app.active_tab().left_text(),
        left_after_copy,
        "F5 after copy destroyed left"
    );
    assert_eq!(
        app.active_tab().right_text(),
        right_after_copy,
        "F5 after copy destroyed right"
    );
}

#[test]
fn test_iron_rule_f5_repeated_cycles() {
    let mut app = App::new();
    app.new_blank(false);

    for i in 0..10 {
        app.enter_edit_mode(PanelSide::Left, 0, 0);
        app.edit_insert_char(char::from(b'A' + (i % 26) as u8));
        app.exit_edit_mode();

        let left_snap = app.active_tab().left_text();
        let right_snap = app.active_tab().right_text();

        app.recompute_diff();
        assert_eq!(
            app.active_tab().left_text(),
            left_snap,
            "cycle {i}: F5 destroyed left"
        );
        assert_eq!(
            app.active_tab().right_text(),
            right_snap,
            "cycle {i}: F5 destroyed right"
        );

        if app.diff_count() > 0 {
            app.copy_left_to_right();
        }

        let left_snap2 = app.active_tab().left_text();
        let right_snap2 = app.active_tab().right_text();

        app.recompute_diff();
        assert_eq!(
            app.active_tab().left_text(),
            left_snap2,
            "cycle {i}: F5 after copy destroyed left"
        );
        assert_eq!(
            app.active_tab().right_text(),
            right_snap2,
            "cycle {i}: F5 after copy destroyed right"
        );
    }
}

#[test]
fn test_iron_rule_input_always_reflected() {
    let mut app = make_app_with_diff("aaa\nbbb\n", "aaa\nBBB\n");

    app.enter_edit_mode(PanelSide::Left, 0, 0);
    app.edit_insert_char('Z');
    assert!(
        app.active_tab().left_text().contains('Z'),
        "typed Z not in left_text"
    );
    app.exit_edit_mode();

    app.copy_left_to_right();

    let resolve = app.resolve_display_to_source(0, PanelSide::Right);
    assert!(resolve.is_some(), "resolve failed after copy");
    app.enter_edit_mode(PanelSide::Right, 0, 0);
    assert_eq!(
        app.mode,
        AppMode::Editing,
        "failed to enter edit after copy"
    );
    app.edit_insert_char('W');
    assert!(
        app.active_tab().right_text().contains('W'),
        "typed W not in right_text after copy"
    );
    app.exit_edit_mode();

    app.recompute_diff();
    app.enter_edit_mode(PanelSide::Left, 0, 0);
    assert_eq!(app.mode, AppMode::Editing, "failed to enter edit after F5");
    app.edit_insert_char('Q');
    assert!(
        app.active_tab().left_text().contains('Q'),
        "typed Q not in left_text after F5"
    );
    app.exit_edit_mode();
}

#[test]
fn test_iron_rule_input_blank_both_panels() {
    let mut app = App::new();
    app.new_blank(false);

    app.enter_edit_mode(PanelSide::Left, 0, 0);
    assert_eq!(app.mode, AppMode::Editing, "can't enter edit on blank left");
    app.edit_insert_char('L');
    assert!(
        app.active_tab().left_text().contains('L'),
        "left input lost on blank"
    );
    app.exit_edit_mode();

    app.enter_edit_mode(PanelSide::Right, 0, 0);
    assert_eq!(
        app.mode,
        AppMode::Editing,
        "can't enter edit on ghost right"
    );
    app.edit_insert_char('R');
    assert!(
        app.active_tab().right_text().contains('R'),
        "right input lost on blank"
    );
    app.exit_edit_mode();

    assert!(
        app.active_tab().left_text().contains('L'),
        "left lost after right edit"
    );
    assert!(
        app.active_tab().right_text().contains('R'),
        "right lost after left exit"
    );
}

#[test]
fn test_iron_rule_ghost_line_input_reflected() {
    let mut app = App::new();
    app.new_blank(false);

    app.enter_edit_mode(PanelSide::Left, 0, 0);
    for c in "left only".chars() {
        app.edit_insert_char(c);
    }

    app.exit_edit_mode();
    assert!(
        app.active_tab().diff_result.is_some(),
        "diff should exist after exit"
    );
    let result = app.active_tab().diff_result.as_ref().unwrap();
    assert!(!result.lines.is_empty(), "diff should have lines");
    assert!(
        result.lines.iter().all(|l| l.right_line_no.is_none()),
        "right should be all ghost lines"
    );

    app.enter_edit_mode(PanelSide::Right, 0, 0);
    assert_eq!(app.mode, AppMode::Editing, "must enter edit on ghost right");
    assert_eq!(
        app.active_tab().edit_state.as_ref().unwrap().panel,
        PanelSide::Right
    );

    app.edit_insert_char('R');
    assert!(
        app.active_tab().right_text().contains('R'),
        "ghost line input not in source"
    );

    let live = app.edit_current_line_text();
    assert!(live.is_some(), "edit_current_line_text None on ghost");
    assert!(live.unwrap().contains('R'), "live text missing typed char");

    app.exit_edit_mode();
    assert!(
        app.active_tab().right_text().contains('R'),
        "right text lost after exit"
    );
    assert!(
        app.active_tab().left_text().contains("left only"),
        "left text corrupted"
    );
}

#[test]
fn test_iron_rule_click_beyond_diff_lines() {
    let mut app = App::new();
    app.new_blank(false);

    app.enter_edit_mode(PanelSide::Left, 0, 0);
    for c in "hello".chars() {
        app.edit_insert_char(c);
    }
    app.exit_edit_mode();

    let diff_lines = app.active_tab().diff_result.as_ref().unwrap().lines.len();
    assert_eq!(diff_lines, 1, "should have exactly 1 diff line");

    app.enter_edit_mode(PanelSide::Right, 5, 0);
    assert_eq!(
        app.mode,
        AppMode::Editing,
        "must enter edit even clicking beyond"
    );

    let es = app.active_tab().edit_state.as_ref().unwrap();
    assert!(
        es.display_line < diff_lines,
        "display_line {} must be < diff lines {}",
        es.display_line,
        diff_lines
    );

    app.edit_insert_char('W');
    assert!(
        app.active_tab().right_text().contains('W'),
        "input lost on clamped ghost line"
    );
    app.exit_edit_mode();
}

#[test]
fn test_iron_rule_source_line_clamped_to_bounds() {
    let mut app = App::new();
    app.new_blank(false);

    app.enter_edit_mode(PanelSide::Left, 0, 0);
    for c in "line1".chars() {
        app.edit_insert_char(c);
    }
    app.edit_enter();
    for c in "line2".chars() {
        app.edit_insert_char(c);
    }
    app.exit_edit_mode();

    app.enter_edit_mode(PanelSide::Right, 0, 0);
    for c in "addfa".chars() {
        app.edit_insert_char(c);
    }

    app.exit_edit_mode();

    app.enter_edit_mode(PanelSide::Right, 1, 0);
    assert_eq!(app.mode, AppMode::Editing);

    let es = app.active_tab().edit_state.as_ref().unwrap();
    let right_line_count = app.source_lines(PanelSide::Right).len();
    assert!(
        es.source_line < right_line_count,
        "source_line {} >= right line count {} -- will cause live=None!",
        es.source_line,
        right_line_count
    );

    app.edit_insert_char('X');
    let live = app.edit_current_line_text();
    assert!(
        live.is_some(),
        "live text is None -- input invisible to user!"
    );
    assert!(live.unwrap().contains('X'), "typed X not in live text");
    app.exit_edit_mode();
}

#[test]
fn test_iron_rule_render_ghost_edit_visible() {
    let mut app = App::new();
    app.new_blank(false);

    app.enter_edit_mode(PanelSide::Left, 0, 0);
    for c in "aaa".chars() {
        app.edit_insert_char(c);
    }

    app.exit_edit_mode();
    app.enter_edit_mode(PanelSide::Right, 0, 0);

    for c in "bbb".chars() {
        app.edit_insert_char(c);
    }

    let edit_info = app
        .active_tab()
        .edit_state
        .as_ref()
        .map(|e| (e.panel, e.source_line, e.display_line, e.cursor_col));
    let edit_live_text = app.edit_current_line_text();

    assert!(edit_info.is_some(), "edit_info is None");
    assert!(
        edit_live_text.is_some(),
        "edit_live_text is None -- input invisible!"
    );
    assert!(
        edit_live_text.as_ref().unwrap().contains("bbb"),
        "live text '{}' doesn't contain 'bbb'",
        edit_live_text.as_ref().unwrap()
    );

    let (panel, source_line, display_line, _cursor_col) = edit_info.unwrap();

    let result = app
        .active_tab()
        .diff_result
        .as_ref()
        .expect("diff_result is None");

    let mut found_edit_line = false;
    for i in 0..result.lines.len() {
        let line = &result.lines[i];
        let line_no = match panel {
            PanelSide::Left => line.left_line_no,
            PanelSide::Right => line.right_line_no,
            _ => None,
        };
        let is_edit_line = if let Some(n) = line_no {
            n as usize - 1 == source_line
        } else {
            i == display_line
        };
        if is_edit_line {
            found_edit_line = true;
        }
    }

    assert!(
        found_edit_line,
        "RENDERING BUG: no display line matched edit state! \
         panel={:?} src={} disp={} diff_lines={}",
        panel,
        source_line,
        display_line,
        result.lines.len()
    );

    app.exit_edit_mode();
}

#[test]
fn test_iron_rule_click_switch_panel_flow() {
    let mut app = App::new();
    app.new_blank(false);

    app.enter_edit_mode(PanelSide::Left, 0, 0);
    for c in "hello".chars() {
        app.edit_insert_char(c);
    }
    assert_eq!(app.mode, AppMode::Editing);

    app.exit_edit_mode();
    assert_eq!(app.mode, AppMode::Normal);
    assert!(app.active_tab().edit_state.is_none());

    app.enter_edit_mode(PanelSide::Right, 0, 0);
    assert_eq!(
        app.mode,
        AppMode::Editing,
        "FAILED to enter edit on right after switch"
    );
    let es = app.active_tab().edit_state.as_ref().unwrap();
    assert_eq!(es.panel, PanelSide::Right);

    for c in "world".chars() {
        app.edit_insert_char(c);
    }
    assert!(
        app.active_tab().right_text().contains("world"),
        "right input LOST"
    );

    let live = app.edit_current_line_text();
    assert!(live.is_some(), "no live text for renderer");
    assert!(live.unwrap().contains("world"), "live text missing");

    app.exit_edit_mode();

    assert!(
        app.active_tab().left_text().contains("hello"),
        "left text corrupted"
    );
    assert!(
        app.active_tab().right_text().contains("world"),
        "right text lost after exit"
    );
}

#[test]
fn test_text_only_vanishes_by_user_action() {
    let mut app = make_app_with_diff("keep this\nchange this\n", "keep this\nDIFFERENT\n");

    app.copy_left_to_right();
    assert!(
        app.active_tab().right_text().contains("change this"),
        "copy should overwrite"
    );
    assert!(
        !app.active_tab().right_text().contains("DIFFERENT"),
        "copy should replace old right"
    );

    app.undo();
    assert!(
        app.active_tab().right_text().contains("DIFFERENT"),
        "undo must restore"
    );
}

// ================================================================
// 3-WAY EDITING TESTS
// ================================================================

fn make_3way_app(left: &str, base: &str, right: &str) -> App {
    let mut app = App::new();
    app.active_tab_mut().left_buf = str_to_lines(left);
    app.active_tab_mut().base_buf = str_to_lines(base);
    app.active_tab_mut().right_buf = str_to_lines(right);
    app.active_tab_mut().is_three_way = true;
    app.active_tab_mut().left_path = Some("/tmp/left.txt".to_string());
    app.active_tab_mut().base_path = Some("/tmp/base.txt".to_string());
    app.active_tab_mut().right_path = Some("/tmp/right.txt".to_string());
    app.recompute_diff();
    app
}

#[test]
fn test_3way_blank_edit_all_panels() {
    let mut app = App::new();
    app.new_blank(true);

    for panel in [PanelSide::Left, PanelSide::Base, PanelSide::Right] {
        app.enter_edit_mode(panel, 0, 0);
        assert_eq!(
            app.mode,
            AppMode::Editing,
            "{:?} failed to enter edit",
            panel
        );
        app.edit_insert_char('X');

        let live = app.edit_current_line_text();
        assert!(live.is_some(), "{:?} live text None", panel);
        assert!(
            live.unwrap().contains('X'),
            "{:?} typed X not in live",
            panel
        );
        app.exit_edit_mode();
    }

    assert!(app.active_tab().left_text().contains('X'));
    assert!(app.active_tab().base_text().contains('X'));
    assert!(app.active_tab().right_text().contains('X'));
}

#[test]
fn test_3way_edit_base_preserved_on_f5() {
    let mut app = make_3way_app("left\n", "base\n", "right\n");

    app.enter_edit_mode(PanelSide::Base, 0, 4);
    for c in "_edited".chars() {
        app.edit_insert_char(c);
    }
    app.exit_edit_mode();

    assert!(app.active_tab().base_text().contains("base_edited"));

    app.recompute_diff();
    assert!(
        app.active_tab().base_text().contains("base_edited"),
        "F5 destroyed base edit"
    );
}

#[test]
fn test_3way_switch_panels_left_base_right() {
    let mut app = App::new();
    app.new_blank(true);

    app.enter_edit_mode(PanelSide::Left, 0, 0);
    for c in "LEFT".chars() {
        app.edit_insert_char(c);
    }

    app.exit_edit_mode();
    app.enter_edit_mode(PanelSide::Base, 0, 0);
    assert_eq!(app.mode, AppMode::Editing);
    for c in "BASE".chars() {
        app.edit_insert_char(c);
    }

    app.exit_edit_mode();
    app.enter_edit_mode(PanelSide::Right, 0, 0);
    assert_eq!(app.mode, AppMode::Editing);
    for c in "RIGHT".chars() {
        app.edit_insert_char(c);
    }
    app.exit_edit_mode();

    assert!(app.active_tab().left_text().contains("LEFT"), "left lost");
    assert!(app.active_tab().base_text().contains("BASE"), "base lost");
    assert!(
        app.active_tab().right_text().contains("RIGHT"),
        "right lost"
    );
}

#[test]
fn test_3way_iron_rule_input_always_reflected() {
    let mut app = make_3way_app("aaa\n", "bbb\n", "ccc\n");

    for panel in [PanelSide::Left, PanelSide::Base, PanelSide::Right] {
        app.enter_edit_mode(panel, 0, 0);
        assert_eq!(app.mode, AppMode::Editing, "{:?} edit mode failed", panel);
        app.edit_insert_char('Z');

        let live = app.edit_current_line_text();
        assert!(live.is_some(), "{:?} live=None", panel);
        assert!(
            live.unwrap().contains('Z'),
            "{:?} Z missing from live",
            panel
        );
        app.exit_edit_mode();
    }
}

#[test]
fn test_3way_iron_rule_f5_never_destroys() {
    let mut app = make_3way_app("left\n", "base\n", "right\n");

    app.enter_edit_mode(PanelSide::Left, 0, 0);
    app.edit_insert_char('L');
    app.exit_edit_mode();

    app.enter_edit_mode(PanelSide::Base, 0, 0);
    app.edit_insert_char('B');
    app.exit_edit_mode();

    app.enter_edit_mode(PanelSide::Right, 0, 0);
    app.edit_insert_char('R');
    app.exit_edit_mode();

    let l = app.active_tab().left_text();
    let b = app.active_tab().base_text();
    let r = app.active_tab().right_text();

    app.recompute_diff();
    assert_eq!(app.active_tab().left_text(), l, "F5 destroyed left");
    assert_eq!(app.active_tab().base_text(), b, "F5 destroyed base");
    assert_eq!(app.active_tab().right_text(), r, "F5 destroyed right");
}

// ================================================================
// TAB MANAGEMENT TESTS
// ================================================================

#[test]
fn test_new_tab_independent_state() {
    let mut app = App::new();
    app.active_tab_mut().left_buf = str_to_lines("tab1");
    app.new_tab();
    assert!(app.active_tab().pane_is_empty(PanelSide::Left));
    app.switch_tab(0);
    assert_eq!(app.active_tab().left_buf, vec!["tab1".to_string()]);
}

#[test]
fn test_close_tab() {
    let mut app = App::new();
    app.new_tab();
    app.new_tab();
    assert_eq!(app.tabs.len(), 3);
    app.switch_tab(1);
    assert!(app.close_tab());
    assert_eq!(app.tabs.len(), 2);
}

#[test]
fn test_close_last_tab_fails() {
    let mut app = App::new();
    assert!(!app.close_tab());
    assert_eq!(app.tabs.len(), 1);
}

#[test]
fn test_next_prev_tab() {
    let mut app = App::new();
    app.new_tab();
    app.new_tab();
    assert_eq!(app.active_tab, 2);
    app.next_tab();
    assert_eq!(app.active_tab, 0);
    app.prev_tab();
    assert_eq!(app.active_tab, 2);
    app.prev_tab();
    assert_eq!(app.active_tab, 1);
}

#[test]
fn test_any_unsaved() {
    let mut app = App::new();
    assert!(!app.any_unsaved());
    app.active_tab_mut().has_unsaved_changes = true;
    assert!(app.any_unsaved());
    app.new_tab();
    assert!(app.any_unsaved());
}

#[test]
fn test_tab_title() {
    let mut app = App::new();
    assert_eq!(app.active_tab().title(), "New");
    app.active_tab_mut().left_path = Some("/home/user/test.txt".to_string());
    assert_eq!(app.active_tab().title(), "test.txt");
}

#[test]
fn test_close_tab_adjusts_active() {
    let mut app = App::new();
    app.new_tab();
    app.new_tab();
    // 3 tabs, active=2
    app.switch_tab(2);
    assert!(app.close_tab());
    // After closing tab 2, active should be 1
    assert_eq!(app.active_tab, 1);
    assert_eq!(app.tabs.len(), 2);
}
