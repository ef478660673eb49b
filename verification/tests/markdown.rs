use tools_box::markdown::{
    list_marker,
    MarkdownBlock, MarkdownDocument, MarkdownHeading, MarkdownInline, MarkdownTableAlignment, MdEvent, MdTag,
};
use tools_box::markdown_parse::{event_from_parts, tag_from_parts, EventKind};
use tools_box::markdown_uri::{check_image_bytes, decoded_image_size, is_remote_image_uri, is_supported_markdown_image_uri, markdown_file_path, markdown_image_uri};

#[test]
fn should_parse_nested_inline_styles() {
    let document = MarkdownDocument::parse("**粗体 *斜体*** 和 ~~删除~~ 与 `代码`");

    assert_eq!(document.blocks.len(), 1);
    assert_eq!(
        document.blocks[0],
        MarkdownBlock::Paragraph(vec![
            MarkdownInline::Strong(vec![
                MarkdownInline::Text("粗体 ".to_string()),
                MarkdownInline::Emphasis(vec![MarkdownInline::Text("斜体".to_string())]),
            ]),
            MarkdownInline::Text(" 和 ".to_string()),
            MarkdownInline::Strikethrough(vec![MarkdownInline::Text("删除".to_string())]),
            MarkdownInline::Text(" 与 ".to_string()),
            MarkdownInline::Code("代码".to_string()),
        ])
    );
}

#[test]
fn should_collect_heading_outline_in_document_order() {
    let document = MarkdownDocument::parse("# 第一章\n\n## 第二节\n\n> ### 引用标题\n\n- #### 列表标题");

    assert_eq!(
        document.headings(),
        vec![
            MarkdownHeading { level: 1, title: "第一章".to_string() },
            MarkdownHeading { level: 2, title: "第二节".to_string() },
            MarkdownHeading { level: 3, title: "引用标题".to_string() },
            MarkdownHeading { level: 4, title: "列表标题".to_string() },
        ]
    );
}

#[test]
fn should_parse_lists_and_task_markers() {
    let document = MarkdownDocument::parse("1. 第一项\n2. 第二项\n\n- [ ] 待办\n- [x] 完成");

    assert_eq!(document.blocks.len(), 2);
    assert!(matches!(
        &document.blocks[0],
        MarkdownBlock::List { ordered: true, items, .. } if items.len() == 2
    ));
    assert!(matches!(
        &document.blocks[1],
        MarkdownBlock::List { ordered: false, items, .. }
            if items.iter().map(|item| item.checked).collect::<Vec<_>>() == vec![Some(false), Some(true)]
    ));
}

#[test]
fn should_not_inherit_nested_task_marker_to_parent_item() {
    let document = MarkdownDocument::parse("- 父项\n  - [x] 子项");

    let MarkdownBlock::List { items, .. } = &document.blocks[0] else {
        panic!("应解析为列表");
    };
    assert_eq!(items[0].checked, None);
    assert!(matches!(
        &items[0].blocks[1],
        MarkdownBlock::List { items, .. } if items[0].checked == Some(true)
    ));
}

#[test]
fn should_parse_tables_links_images_and_code_language() {
    let document = MarkdownDocument::parse(
        "| 名称 | 值 |\n| --- | --- |\n| [Rust](https://www.rust-lang.org) | ![标志](logo.png) |\n\n```rust\nfn main() {}\n```",
    );

    assert!(matches!(&document.blocks[0], MarkdownBlock::Table {
        alignments,
        headers,
        rows,
    } if alignments == &vec![MarkdownTableAlignment::Unspecified, MarkdownTableAlignment::Unspecified]
        && headers.len() == 2
        && rows.len() == 1));
    let MarkdownBlock::Table { rows, .. } = &document.blocks[0] else {
        panic!("应解析为表格");
    };
    assert!(matches!(
        &rows[0][0][0],
        MarkdownInline::Link { destination, .. } if destination == "https://www.rust-lang.org"
    ));
    assert!(matches!(
        &rows[0][1][0],
        MarkdownInline::Image { destination, alt, .. } if destination == "logo.png" && alt == "标志"
    ));
    assert!(matches!(
        &document.blocks[1],
        MarkdownBlock::CodeBlock { language, content }
            if language.as_deref() == Some("rust") && content.contains("fn main")
    ));
}

#[test]
fn should_normalize_relative_image_destination_to_file_uri() {
    assert_eq!(markdown_image_uri("images/logo.png"), "file://images/logo.png");
    assert_eq!(markdown_image_uri("  images/logo.png  "), "file://images/logo.png");
    assert_eq!(markdown_image_uri("图片/截图.png"), "file://图片/截图.png");
}

#[test]
fn should_preserve_image_uri_with_supported_scheme() {
    assert_eq!(markdown_image_uri("https://example.com/logo.png"), "https://example.com/logo.png");
    assert_eq!(markdown_image_uri("FILE://C:/images/logo.png"), "FILE://C:/images/logo.png");
}

#[test]
fn should_parse_soft_break_without_inserting_space() {
    let document = MarkdownDocument::parse("第一行\n第二行");

    assert_eq!(
        document.blocks[0],
        MarkdownBlock::Paragraph(vec![
            MarkdownInline::Text("第一行".to_string()),
            MarkdownInline::SoftBreak,
            MarkdownInline::Text("第二行".to_string()),
        ])
    );
}

#[test]
fn should_keep_blank_line_between_paragraphs_without_leading_space() {
    let document = MarkdownDocument::parse("第一段\n\n第二段");

    assert_eq!(
        document.blocks,
        vec![
            MarkdownBlock::Paragraph(vec![MarkdownInline::Text("第一段".to_string())]),
            MarkdownBlock::Paragraph(vec![MarkdownInline::Text("第二段".to_string())]),
        ]
    );
}

#[test]
fn should_parse_quote_and_horizontal_rule() {
    let document = MarkdownDocument::parse("> 引用\n\n---");

    assert!(matches!(&document.blocks[0], MarkdownBlock::Quote(blocks) if blocks.len() == 1));
    assert_eq!(document.blocks[1], MarkdownBlock::ThematicBreak);
}

// ---- further cases of this library ----

#[test]
fn document_built_from_events() {
    let events = vec![
        MdEvent::Start(MdTag::Heading(2)),
        MdEvent::Text("标题".to_string()),
        MdEvent::End,
        MdEvent::Start(MdTag::Paragraph),
        MdEvent::InlineMath("x".to_string()),
        MdEvent::HardBreak,
        MdEvent::FootnoteReference("1".to_string()),
        MdEvent::End,
        MdEvent::Start(MdTag::FencedCode(String::new())),
        MdEvent::Text("code".to_string()),
        MdEvent::End,
        // an unbalanced end never closes the document itself
        MdEvent::End,
        MdEvent::Rule,
    ];
    let document = MarkdownDocument::from_events(&events);
    assert_eq!(
        document.blocks,
        vec![
            MarkdownBlock::Heading { level: 2, content: vec![MarkdownInline::Text("标题".to_string())] },
            MarkdownBlock::Paragraph(vec![
                MarkdownInline::Text("$x$".to_string()),
                MarkdownInline::HardBreak,
                MarkdownInline::Text("[^1]".to_string()),
            ]),
            MarkdownBlock::CodeBlock { language: None, content: "code".to_string() },
            MarkdownBlock::ThematicBreak,
        ]
    );
    assert_eq!(document.headings(), vec![MarkdownHeading { level: 2, title: "标题".to_string() }]);
}

#[test]
fn heading_titles_flatten_inline_content() {
    let document = MarkdownDocument::parse("## a *b* `c` [d](e) ![f](g)");
    assert_eq!(document.headings(), vec![MarkdownHeading { level: 2, title: "a b c d f".to_string() }]);
}

#[test]
fn list_start_and_link_titles_are_kept() {
    let document = MarkdownDocument::parse("3. x\n4. y\n\n[a](b \"c\") [d](e)");
    assert!(matches!(&document.blocks[0], MarkdownBlock::List { ordered: true, start: 3, .. }));
    let MarkdownBlock::Paragraph(inlines) = &document.blocks[1] else {
        panic!("expected a paragraph");
    };
    assert!(matches!(&inlines[0], MarkdownInline::Link { title: Some(t), .. } if t == "c"));
    assert!(matches!(&inlines[2], MarkdownInline::Link { title: None, .. }));
}

#[test]
fn image_schemes_are_recognised_without_case() {
    assert!(is_supported_markdown_image_uri("HTTPS://a/b.png"));
    assert!(is_supported_markdown_image_uri("file:///tmp/a.png"));
    assert!(!is_supported_markdown_image_uri("data:image/png;base64,AAAA"));
    assert_eq!(markdown_image_uri("data:image/png;base64,AAAA"), "data:image/png;base64,AAAA");
    // normalizing an address again changes nothing
    let once = markdown_image_uri(" a/b.png ");
    assert_eq!(markdown_image_uri(&once), once);
}

#[test]
fn image_addresses_name_local_files() {
    assert_eq!(markdown_file_path("file:///C:/images/a%20b.png"), "C:/images/a b.png");
    assert_eq!(markdown_file_path("FILE://images/logo.png"), "images/logo.png");
    assert_eq!(markdown_file_path("file:///tmp/%E4%B8%AD.png"), "/tmp/中.png");
    assert_eq!(markdown_file_path("notes/x.png"), "notes/x.png");
}

#[test]
fn tag_parts_are_taken_in_order() {
    let t = tag_from_parts(None, Some(MdTag::Strong), Some(None), None, None);
    assert!(matches!(t, MdTag::Strong));
    let t = tag_from_parts(None, None, Some(Some("rust".to_string())), None, None);
    assert!(matches!(t, MdTag::FencedCode(ref l) if l == "rust"));
    let t = tag_from_parts(None, None, None, Some((true, "a.png".to_string(), "t".to_string())), None);
    assert!(matches!(t, MdTag::Image { ref destination, ref title } if destination == "a.png" && title == "t"));
    let t = tag_from_parts(None, None, None, None, Some(vec![MarkdownTableAlignment::Left]));
    assert!(matches!(t, MdTag::Table(ref a) if a.len() == 1));
    assert!(matches!(tag_from_parts(None, None, None, None, None), MdTag::Other));
}

#[test]
fn event_parts_make_the_event() {
    let e = event_from_parts(EventKind::Code, "x".to_string(), MdTag::Other);
    assert!(matches!(e, MdEvent::Code(ref s) if s == "x"));
    let e = event_from_parts(EventKind::Start, String::new(), MdTag::Heading(2));
    assert!(matches!(e, MdEvent::Start(MdTag::Heading(2))));
    let e = event_from_parts(EventKind::TaskListMarker(true), String::new(), MdTag::Other);
    assert!(matches!(e, MdEvent::TaskListMarker(true)));
}

#[test]
fn image_size_limits() {
    assert!(is_remote_image_uri("HTTPS://example.com/a.png"));
    assert!(!is_remote_image_uri("file:///tmp/a.png"));
    assert!(check_image_bytes(0, 20 * 1024 * 1024).is_ok());
    assert_eq!(check_image_bytes(20 * 1024 * 1024, 1), Err("图片大小超过 20 MB 限制".to_string()));
    assert_eq!(check_image_bytes(u64::MAX, 1), Err("图片大小超过 20 MB 限制".to_string()));
    assert_eq!(decoded_image_size(4096, 4096), Ok(64 * 1024 * 1024));
    assert_eq!(decoded_image_size(4096, 4097), Err("图片解码后的尺寸超过 64 MB 限制".to_string()));
    assert_eq!(decoded_image_size(usize::MAX, 2), Err("图片解码后的尺寸超出支持范围".to_string()));
}

#[test]
fn list_markers() {
    assert_eq!(list_marker(false, 1, 0, Some(true)), "☑ ");
    assert_eq!(list_marker(true, 3, 0, Some(false)), "☐ ");
    assert_eq!(list_marker(true, 3, 2, None), "5. ");
    assert_eq!(list_marker(true, u64::MAX, 2, None), format!("{}. ", u64::MAX));
    assert_eq!(list_marker(false, 1, 4, None), "• ");
}
