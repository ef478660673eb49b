use std::collections::BTreeSet;

use tools_box::json::{escape_json, format_json, json_stats, minify_json, unescape_json, validate_json, ProcessResult};
use tools_box::json_fold::{find_fold_regions, folded_closing_suffix, visible_lines, FoldRegion, JsonEditorState, VisibleLine};

#[test]
fn test_format_json() {
    let r = format_json(r#"{"name":"test","value":42}"#);
    assert!(!r.is_error);
    assert!(r.output.contains('\n'));
}

#[test]
fn test_minify_json() {
    let input = "{\n  \"name\": \"test\"\n}";
    let r = minify_json(input);
    assert!(!r.is_error);
    assert_eq!(r.output, r#"{"name":"test"}"#);
}

#[test]
fn test_escape_unescape() {
    let input = r#"{"key":"value"}"#;
    let escaped = escape_json(input);
    assert!(!escaped.is_error);

    let unescaped = unescape_json(&escaped.output);
    assert!(!unescaped.is_error);
}

#[test]
fn test_validate_valid() {
    let r = validate_json(r#"{"ok":true}"#);
    assert!(!r.is_error);
}

#[test]
fn test_validate_invalid() {
    let r = validate_json(r#"{"broken":}"#);
    assert!(r.is_error);
}

#[test]
fn test_find_nested_fold_regions() {
    let json = "{\n  \"user\": {\n    \"roles\": [\n      \"admin\"\n    ]\n  }\n}";
    let regions = find_fold_regions(json);

    assert_eq!(
        regions,
        vec![
            FoldRegion { start_line: 0, end_line: 6, end_column: 0 },
            FoldRegion { start_line: 1, end_line: 5, end_column: 2 },
            FoldRegion { start_line: 2, end_line: 4, end_column: 4 },
        ]
    );
}

#[test]
fn test_find_fold_regions_ignores_brackets_in_strings() {
    let json = "{\n  \"text\": \"包含 { 括号 } 和转义引号 \\\"[测试]\\\"\"\n}";
    let regions = find_fold_regions(json);

    assert_eq!(regions, vec![FoldRegion { start_line: 0, end_line: 2, end_column: 0 }]);
}

#[test]
fn test_visible_lines_respects_collapsed_parent() {
    let regions = vec![
        FoldRegion { start_line: 0, end_line: 5, end_column: 0 },
        FoldRegion { start_line: 1, end_line: 3, end_column: 2 },
    ];
    let collapsed = BTreeSet::from([0]);

    assert_eq!(
        visible_lines(7, &regions, &collapsed),
        vec![
            VisibleLine { line_index: 0, collapsed_end_line: Some(5) },
            VisibleLine { line_index: 6, collapsed_end_line: None },
        ]
    );
    assert_eq!(
        visible_lines(3, &[], &BTreeSet::new()),
        vec![
            VisibleLine { line_index: 0, collapsed_end_line: None },
            VisibleLine { line_index: 1, collapsed_end_line: None },
            VisibleLine { line_index: 2, collapsed_end_line: None },
        ]
    );
}

#[test]
fn test_folded_closing_suffix_hides_content_before_delimiter() {
    let json = "{\n  \"items\": [\n    1, 2],\n  \"enabled\": true\n}";
    let regions = find_fold_regions(json);
    let array_region = regions.iter().find(|region| region.start_line == 1).copied();
    let lines = json.lines().collect::<Vec<_>>();

    assert_eq!(
        array_region.and_then(|region| folded_closing_suffix(&lines, region)),
        Some("],".to_string())
    );
}

// ---- further cases of this library ----

#[test]
fn parse_errors_are_reported() {
    let r = format_json("{");
    assert!(r.is_error);
    assert!(r.output.is_empty());
    assert!(r.message.starts_with("JSON 解析错误: "));
    let r = minify_json("[1,");
    assert!(r.is_error);
    assert!(r.message.starts_with("JSON 解析错误: "));
    let r = validate_json("{\"a\":}");
    assert!(r.message.starts_with("✗ 错误: "));
    // the position of the error is part of the message
    assert!(r.message.contains('1'));
    assert_eq!(r.output, "{\"a\":}");
    let r = validate_json("[1, 2]");
    assert_eq!(r.message, "✓ JSON 有效");
}

#[test]
fn formatting_indents_and_minifying_joins() {
    let r = format_json("[1,{\"a\":2}]");
    assert_eq!(r.output, "[\n  1,\n  {\n    \"a\": 2\n  }\n]");
    let r = minify_json(" [ 1 , 2 ] ");
    assert_eq!(r.output, "[1,2]");
}

#[test]
fn escaping_makes_a_string_literal_and_back() {
    let r = escape_json("a\"b\\c\n");
    assert_eq!(r.output, "\"a\\\"b\\\\c\\n\"");
    let back = unescape_json(&r.output);
    assert!(!back.is_error);
    assert_eq!(back.output, "a\"b\\c\n");
    // unescaping a string whose content is JSON shows the JSON formatted
    let nested = unescape_json("\"{\\\"k\\\":1}\"");
    assert_eq!(nested.output, "{\n  \"k\": 1\n}");
}

#[test]
fn stats_count_bytes_lines_and_validity() {
    assert_eq!(json_stats("{\"a\":\"é\"}\n[1]"), (14, 2, false));
    assert_eq!(json_stats("{}"), (2, 1, true));
    assert_eq!(json_stats(""), (0, 0, false));
}

#[test]
fn editor_state_shows_results() {
    let mut state = JsonEditorState::new();
    assert_eq!(state.status_msg, "就绪");
    state.input = "[1,2]\n".to_string();
    state.update_stats();
    assert_eq!((state.bytes, state.lines, state.valid), (6, 1, true));
    state.collapsed_output_regions.insert(0);
    state.apply_result(ProcessResult::success("[1,2]".to_string()));
    assert_eq!(state.output, "[1,2]");
    assert_eq!(state.status_msg, "✓ 操作成功");
    assert!(state.collapsed_output_regions.is_empty());
    state.apply_result(ProcessResult::error("坏了".to_string()));
    assert!(state.status_is_error);
    assert_eq!(state.status_msg, "坏了");
    assert_eq!(state.output, "[1,2]");
}

#[test]
fn nested_folds_stay_hidden_under_a_folded_parent() {
    let regions = vec![
        FoldRegion { start_line: 0, end_line: 4, end_column: 0 },
        FoldRegion { start_line: 1, end_line: 3, end_column: 2 },
    ];
    let collapsed = BTreeSet::from([1]);
    assert_eq!(
        visible_lines(5, &regions, &collapsed),
        vec![
            VisibleLine { line_index: 0, collapsed_end_line: None },
            VisibleLine { line_index: 1, collapsed_end_line: Some(3) },
            VisibleLine { line_index: 4, collapsed_end_line: None },
        ]
    );
    let lines = vec!["{", "  [", "  1", "  ],", "}"];
    assert_eq!(folded_closing_suffix(&lines, FoldRegion { start_line: 1, end_line: 9, end_column: 0 }), None);
}

#[test]
fn folded_region_shows_its_closing_line() {
    assert_eq!(tools_box::json_fold::folded_placeholder("  ],  "), "  …  ],");
    assert_eq!(tools_box::json_fold::folded_placeholder(""), "  …  ");
}

#[test]
fn escaped_text_unescapes_back() {
    let text = "line \"one\"\n\ttab \\ back";
    let escaped = escape_json(text);
    assert!(!escaped.is_error);
    let unescaped = unescape_json(&escaped.output);
    assert!(!unescaped.is_error);
    assert_eq!(unescaped.output, text);

    let doc = r#"{"key":"value"}"#;
    let round = unescape_json(&escape_json(doc).output);
    assert!(!round.is_error);
    assert_eq!(round.output, format_json(doc).output);
}

#[test]
fn escaping_writes_the_serde_literal() {
    let r = escape_json("a\"b\\\n\t\u{1}\u{1f}é");
    assert_eq!(r.output, "\"a\\\"b\\\\\\n\\t\\u0001\\u001fé\"");
}
