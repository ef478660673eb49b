use tools_box::diff::{
    navigation_bar, compute_char_diff, compute_diff, find_nearest_diff_hunk, is_current_diff_line, navigate_target, navigate_to_diff,
    DiffHunk, DiffResult, DiffType,
};

/// The share of lines both texts have in common, as the diff viewer shows it:
/// twice the unchanged lines over the lines of both texts.
fn similarity(r: &DiffResult) -> f64 {
    let total = 2 * r.equal_count + r.added_count + r.removed_count;
    if total == 0 {
        1.0
    } else {
        (2 * r.equal_count) as f64 / total as f64
    }
}

#[test]
fn test_same_text() {
    let left = "hello\nworld";
    let right = "hello\nworld";
    let result = compute_diff(left, right);

    assert_eq!(result.added_count, 0);
    assert_eq!(result.removed_count, 0);
    assert!(similarity(&result) > 0.99);
}

#[test]
fn test_completely_different() {
    let left = "aaa\nbbb";
    let right = "ccc\nddd";
    let result = compute_diff(left, right);

    assert_eq!(result.added_count, 2);
    assert_eq!(result.removed_count, 2);
}

#[test]
fn test_partial_changes() {
    let left = "line1\nline2\nline3";
    let right = "line1\nmodified\nline3";
    let result = compute_diff(left, right);

    assert_eq!(result.removed_count, 1);
    assert_eq!(result.added_count, 1);
}

#[test]
fn test_empty_text() {
    let left = "";
    let right = "new content";
    let result = compute_diff(left, right);

    assert_eq!(result.added_count, 1);
    assert_eq!(result.removed_count, 0);
}

#[test]
fn test_split_lines_count() {
    let left = "a\nb\nc";
    let right = "a\nd\nc";
    let result = compute_diff(left, right);

    assert_eq!(result.split_lines.len(), 3);
}

fn test_hunks() -> Vec<DiffHunk> {
    vec![DiffHunk { start_line: 2, end_line: 3 }, DiffHunk { start_line: 8, end_line: 9 }]
}

#[test]
fn test_find_nearest_diff_hunk_inside_hunk() {
    assert_eq!(find_nearest_diff_hunk(&test_hunks(), 3), Some(0));
}

#[test]
fn test_find_nearest_diff_hunk_between_hunks() {
    assert_eq!(find_nearest_diff_hunk(&test_hunks(), 5), Some(0));
    assert_eq!(find_nearest_diff_hunk(&test_hunks(), 6), Some(1));
}

#[test]
fn test_find_nearest_diff_hunk_at_boundaries() {
    assert_eq!(find_nearest_diff_hunk(&test_hunks(), 0), Some(0));
    assert_eq!(find_nearest_diff_hunk(&test_hunks(), 20), Some(1));
    assert_eq!(find_nearest_diff_hunk(&[], 0), None);
}

#[test]
fn test_navigate_to_diff_updates_selection_and_clears_pending_sync() {
    let result = compute_diff("same\nold1\nseparator\nold2\nend", "same\nnew1\nseparator\nnew2\nend");

    // the viewer keeps the selected block and the row to scroll to; a move
    // that finds no block leaves the selection as it was
    let mut current: Option<usize> = None;
    let mut pending_row: Option<usize> = None;
    let mut step = |current: &mut Option<usize>, previous: bool| {
        if let Some((index, row)) = navigate_to_diff(&result, *current, previous) {
            *current = Some(index);
            pending_row = Some(row);
        }
    };

    step(&mut current, false);
    assert_eq!(current, Some(0));
    step(&mut current, false);
    assert_eq!(current, Some(1));
    step(&mut current, false);
    assert_eq!(current, Some(1));

    step(&mut current, true);
    assert_eq!(current, Some(0));
    current = None;
    step(&mut current, true);
    assert_eq!(current, None);
    assert_eq!(pending_row, Some(1));
}

#[test]
fn test_is_current_diff_line_matches_only_selected_hunk() {
    let result = compute_diff("same\nold1\nseparator\nold2\nend", "same\nnew1\nseparator\nnew2\nend");

    assert!(is_current_diff_line(&result, Some(0), 1));
    assert!(!is_current_diff_line(&result, Some(0), 3));
    assert!(is_current_diff_line(&result, Some(1), 3));
    assert!(!is_current_diff_line(&result, None, 1));
}

// ---- further cases of this library ----

#[test]
fn first_navigation_scrolls_to_first_block() {
    let result = compute_diff("same\nold1\nseparator\nold2\nend", "same\nnew1\nseparator\nnew2\nend");
    assert_eq!(navigate_to_diff(&result, None, false), Some((0, 1)));
    assert_eq!(navigate_to_diff(&result, Some(0), false), Some((1, 3)));
    assert_eq!(result.diff_hunks, vec![DiffHunk { start_line: 1, end_line: 1 }, DiffHunk { start_line: 3, end_line: 3 }]);
    assert_eq!(navigate_target(0, None, false), None);
    assert_eq!(navigate_target(3, Some(2), false), None);
    assert_eq!(navigate_target(3, Some(2), true), Some(1));
}

#[test]
fn unified_rows_number_both_sides() {
    let result = compute_diff("a\nb\nc\n", "a\nx\nc\n");
    let rows: Vec<(Option<usize>, Option<usize>, &str, DiffType)> = result
        .unified_lines
        .iter()
        .map(|l| (l.line_number_left, l.line_number_right, l.content.as_str(), l.diff_type))
        .collect();
    assert_eq!(
        rows,
        vec![
            (Some(1), Some(1), "a", DiffType::Equal),
            (Some(2), None, "b", DiffType::Removed),
            (None, Some(2), "x", DiffType::Added),
            (Some(3), Some(3), "c", DiffType::Equal),
        ]
    );
    // one unified row per change; the counts match the rows
    assert_eq!(result.unified_lines.len(), result.added_count + result.removed_count + result.equal_count);
    assert_eq!(result.equal_count, 2);
}

#[test]
fn split_rows_pair_removed_with_added_lines() {
    let result = compute_diff("a\nb\nc", "a\nbx\nc");
    let row = &result.split_lines[1];
    assert_eq!(row.left_content.as_deref(), Some("b"));
    assert_eq!(row.right_content.as_deref(), Some("bx"));
    assert_eq!(row.left_type, DiffType::Removed);
    assert_eq!(row.right_type, DiffType::Added);
    let right: Vec<(&str, DiffType)> = row.right_segments.iter().map(|s| (s.text.as_str(), s.diff_type)).collect();
    assert_eq!(right, vec![("b", DiffType::Equal), ("x", DiffType::Added)]);

    // more added than removed lines: the extra ones have no left cell
    let result = compute_diff("a\n", "b\nc\n");
    assert_eq!(result.split_lines.len(), 2);
    assert_eq!(result.split_lines[1].left_line_number, None);
    assert_eq!(result.split_lines[1].right_line_number, Some(2));
    assert_eq!(result.diff_hunks, vec![DiffHunk { start_line: 0, end_line: 1 }]);
}

#[test]
fn character_segments_cover_each_side() {
    let (old, new) = compute_char_diff("kitten", "sitting");
    let old_text: String = old.iter().map(|s| s.text.as_str()).collect();
    let new_text: String = new.iter().map(|s| s.text.as_str()).collect();
    assert_eq!(old_text, "kitten");
    assert_eq!(new_text, "sitting");
    assert!(old.iter().all(|s| s.diff_type != DiffType::Added));
    assert!(new.iter().all(|s| s.diff_type != DiffType::Removed));
    assert!(old.iter().any(|s| s.diff_type == DiffType::Removed));
}

#[test]
fn identical_texts_have_no_blocks() {
    let result = compute_diff("x\ny", "x\ny");
    assert!(result.diff_hunks.is_empty());
    assert_eq!(navigate_to_diff(&result, None, false), None);
    let empty = DiffResult::empty();
    assert!(empty.unified_lines.is_empty());
    assert_eq!(empty.added_count, 0);
}

#[test]
fn split_columns_hold_the_lines_of_each_text() {
    let left = "a\nb\nc\n\nshared";
    let right = "a\nx\ny\nc\n\nshared\ntail";
    let r = compute_diff(left, right);
    let lefts: Vec<String> = r.split_lines.iter().filter_map(|s| s.left_content.clone()).collect();
    let rights: Vec<String> = r.split_lines.iter().filter_map(|s| s.right_content.clone()).collect();
    assert_eq!(lefts, left.lines().map(|l| l.to_string()).collect::<Vec<_>>());
    assert_eq!(rights, right.lines().map(|l| l.to_string()).collect::<Vec<_>>());
}

#[test]
fn navigation_bar_labels_and_buttons() {
    let b = navigation_bar(3, Some(1));
    assert_eq!(b.current, Some(1));
    assert!(b.can_go_previous && b.can_go_next);
    assert_eq!(b.label, "差异 2/3");
    let b = navigation_bar(3, Some(5));
    assert_eq!(b.current, None);
    assert!(!b.can_go_previous && b.can_go_next);
    assert_eq!(b.label, "共 3 个差异");
    let b = navigation_bar(0, None);
    assert!(!b.can_go_previous && !b.can_go_next);
    assert_eq!(b.label, "共 0 个差异");
    let b = navigation_bar(2, Some(1));
    assert!(b.can_go_previous && !b.can_go_next);
}
