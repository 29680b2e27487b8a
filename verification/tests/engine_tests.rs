use txmerge::engine::{compute_diff, DiffOptions};
use txmerge::models::LineStatus;

#[test]
fn test_equal_files() {
    let result = compute_diff("hello\nworld\n", "hello\nworld\n", &DiffOptions::default());
    assert_eq!(result.diff_count, 0);
    assert_eq!(result.lines.len(), 2);
}

#[test]
fn test_added_line() {
    let result = compute_diff("hello\n", "hello\nworld\n", &DiffOptions::default());
    assert_eq!(result.diff_count, 1);
    assert_eq!(result.lines[1].status, LineStatus::Added);
}

#[test]
fn test_removed_line() {
    let result = compute_diff("hello\nworld\n", "hello\n", &DiffOptions::default());
    assert_eq!(result.diff_count, 1);
    assert_eq!(result.lines[1].status, LineStatus::Removed);
}

#[test]
fn test_modified_line() {
    let result = compute_diff("hello\n", "hallo\n", &DiffOptions::default());
    assert_eq!(result.diff_count, 1);
    assert_eq!(result.lines[0].status, LineStatus::Modified);
}

#[test]
fn test_ignore_whitespace() {
    let opts = DiffOptions {
        ignore_whitespace: true,
        ..Default::default()
    };
    let result = compute_diff("hello   world\n", "hello world\n", &opts);
    assert_eq!(result.diff_count, 0);
}

#[test]
fn test_ignore_case() {
    let opts = DiffOptions {
        ignore_case: true,
        ..Default::default()
    };
    let result = compute_diff("Hello\n", "hello\n", &opts);
    assert_eq!(result.diff_count, 0);
}

#[test]
fn test_ignore_blank_lines() {
    let opts = DiffOptions {
        ignore_blank_lines: true,
        ..Default::default()
    };
    let result = compute_diff("hello\n\nworld\n", "hello\nworld\n", &opts);
    assert_eq!(result.diff_count, 0);
}

#[test]
fn test_two_separate_blocks() {
    let left = "a\nb\nc\nd\ne\n";
    let right = "X\nb\nc\nd\nY\n";
    let result = compute_diff(left, right, &DiffOptions::default());
    assert_eq!(result.diff_positions.len(), 2);
    assert_eq!(result.diff_count, 2);
}

#[test]
fn test_word_diff_segments() {
    let result = compute_diff("hello world\n", "hello earth\n", &DiffOptions::default());
    assert_eq!(result.lines[0].status, LineStatus::Modified);
    assert!(!result.lines[0].left_word_segments.is_empty());
    assert!(!result.lines[0].right_word_segments.is_empty());
}
