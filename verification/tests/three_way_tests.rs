use txmerge::models::ThreeWayStatus;
use txmerge::three_way::compute_three_way_diff;

fn lines(s: &str) -> Vec<String> {
    s.lines().map(String::from).collect()
}

#[test]
fn test_all_equal() {
    let text = lines("a\nb\nc\n");
    let result = compute_three_way_diff(&text, &text, &text);
    assert_eq!(result.conflict_count, 0);
    assert_eq!(result.diff_positions.len(), 0);
    assert!(
        result
            .lines
            .iter()
            .all(|l| l.status == ThreeWayStatus::Equal)
    );
}

#[test]
fn test_left_only_change() {
    let base = lines("a\nb\nc\n");
    let left = lines("a\nX\nc\n");
    let right = lines("a\nb\nc\n");
    let result = compute_three_way_diff(&base, &left, &right);
    assert_eq!(result.conflict_count, 0);
    let changed: Vec<_> = result
        .lines
        .iter()
        .filter(|l| l.status == ThreeWayStatus::LeftChanged)
        .collect();
    assert!(!changed.is_empty());
}

#[test]
fn test_right_only_change() {
    let base = lines("a\nb\nc\n");
    let left = lines("a\nb\nc\n");
    let right = lines("a\nY\nc\n");
    let result = compute_three_way_diff(&base, &left, &right);
    assert_eq!(result.conflict_count, 0);
    let changed: Vec<_> = result
        .lines
        .iter()
        .filter(|l| l.status == ThreeWayStatus::RightChanged)
        .collect();
    assert!(!changed.is_empty());
}

#[test]
fn test_both_changed_same() {
    let base = lines("a\nb\nc\n");
    let left = lines("a\nX\nc\n");
    let right = lines("a\nX\nc\n");
    let result = compute_three_way_diff(&base, &left, &right);
    assert_eq!(result.conflict_count, 0);
    let changed: Vec<_> = result
        .lines
        .iter()
        .filter(|l| l.status == ThreeWayStatus::BothChanged)
        .collect();
    assert!(!changed.is_empty());
}

#[test]
fn test_conflict() {
    let base = lines("a\nb\nc\n");
    let left = lines("a\nX\nc\n");
    let right = lines("a\nY\nc\n");
    let result = compute_three_way_diff(&base, &left, &right);
    assert_eq!(result.conflict_count, 1);
    let conflicts: Vec<_> = result
        .lines
        .iter()
        .filter(|l| l.status == ThreeWayStatus::Conflict)
        .collect();
    assert!(!conflicts.is_empty());
}

#[test]
fn test_left_added_line() {
    let base = lines("a\nc\n");
    let left = lines("a\nb\nc\n");
    let right = lines("a\nc\n");
    let result = compute_three_way_diff(&base, &left, &right);
    assert_eq!(result.conflict_count, 0);
    assert!(
        result
            .lines
            .iter()
            .any(|l| l.status == ThreeWayStatus::LeftChanged)
    );
}

#[test]
fn test_right_removed_line() {
    let base = lines("a\nb\nc\n");
    let left = lines("a\nb\nc\n");
    let right = lines("a\nc\n");
    let result = compute_three_way_diff(&base, &left, &right);
    assert_eq!(result.conflict_count, 0);
    assert!(
        result
            .lines
            .iter()
            .any(|l| l.status == ThreeWayStatus::RightChanged)
    );
}
