use tools_box::hosts_ui::{after_append, after_backup, HostsManagerUi, UiState, WriteAction, WriteOutcome};
use tools_box::conflicts::{find_hostname_conflicts, format_conflicts, sort_mappings_by_env, HostnameMapping};
use tools_box::hosts::{
    format_entry, generate_hosts_block, parse_hosts, remove_tools_box_section, updated_hosts_content,
    validate_tools_box_markers, HostsGroup, HostsLine, MarkerError, TOOLS_BOX_END, TOOLS_BOX_START,
};
use tools_box::hosts_store::{
    normalize_environment_name, normalize_new_entry, to_hosts_line, DbHostsEntry, EnvironmentForm, HostField,
    HostsEntryForm, NewHostsEntry, ValidationError,
};

fn active_line(ip: &str, hostname: &str) -> HostsLine {
    HostsLine { ip: ip.to_string(), hostname: hostname.to_string(), comment: None, is_active: true }
}

fn remove_section(content: &str) -> String {
    match remove_tools_box_section(content) {
        Ok(result) => result,
        Err(e) => panic!("移除 Tools Box 区域失败: {}", e.message()),
    }
}

#[test]
fn test_parse_hosts() {
    let content = r#"# Hosts file
127.0.0.1       localhost
::1             localhost

# Development
192.168.1.100   dev.api.example.com
192.168.1.101   dev.db.example.com # Database server

# Commented out
# 10.0.0.1      old.server.com
"#;

    let entries = parse_hosts(content);
    assert_eq!(entries.len(), 5);

    assert_eq!(entries[0].ip, "127.0.0.1");
    assert_eq!(entries[0].hostname, "localhost");
    assert!(entries[0].is_active);

    assert_eq!(entries[2].ip, "192.168.1.100");
    assert_eq!(entries[2].hostname, "dev.api.example.com");

    assert_eq!(entries[3].comment.as_deref(), Some("Database server"));

    assert_eq!(entries[4].ip, "10.0.0.1");
    assert_eq!(entries[4].hostname, "old.server.com");
    assert!(!entries[4].is_active);
}

#[test]
fn test_generate_hosts_block() {
    let groups = vec![HostsGroup {
        name: "dev".to_string(),
        entries: vec![
            HostsLine {
                ip: "192.168.1.100".to_string(),
                hostname: "dev.api.com".to_string(),
                comment: Some("API server".to_string()),
                is_active: true,
            },
            HostsLine {
                ip: "192.168.1.101".to_string(),
                hostname: "dev.db.com".to_string(),
                comment: None,
                is_active: false,
            },
        ],
    }];

    let output = generate_hosts_block(&groups);
    assert!(output.contains(TOOLS_BOX_START));
    assert!(output.contains(TOOLS_BOX_END));
    assert!(output.contains("# --- dev ---"));
    assert!(output.contains("192.168.1.100"));
    assert!(output.contains("# 192.168.1.101"));
}

#[test]
fn test_generate_hosts_block_multiple_groups() {
    let groups = vec![
        HostsGroup { name: "dev".to_string(), entries: vec![active_line("192.168.1.100", "dev.api.com")] },
        HostsGroup { name: "test".to_string(), entries: vec![active_line("10.0.0.10", "test.api.com")] },
    ];

    let output = generate_hosts_block(&groups);
    assert!(output.contains("# --- dev ---"));
    assert!(output.contains("# --- test ---"));
    assert!(output.contains("192.168.1.100"));
    assert!(output.contains("10.0.0.10"));

    assert_eq!(output.matches(TOOLS_BOX_START).count(), 1);
    assert_eq!(output.matches(TOOLS_BOX_END).count(), 1);
    match (output.find(TOOLS_BOX_START), output.find(TOOLS_BOX_END)) {
        (Some(start), Some(end)) => assert!(start < end, "开始标记应位于结束标记之前"),
        _ => panic!("生成的内容缺少 Tools Box 标记"),
    }
}

#[test]
fn test_generate_hosts_block_skips_empty_group() {
    let groups = vec![
        HostsGroup { name: "empty".to_string(), entries: Vec::new() },
        HostsGroup { name: "dev".to_string(), entries: vec![active_line("192.168.1.100", "dev.api.com")] },
    ];

    let output = generate_hosts_block(&groups);
    assert!(!output.contains("# --- empty ---"));
    assert!(output.contains("# --- dev ---"));
    assert!(validate_tools_box_markers(&output).is_ok());
}

#[test]
fn test_generate_hosts_block_sanitizes_group_name() {
    let groups = vec![HostsGroup {
        name: "dev\n# <<< Tools Box END <<<".to_string(),
        entries: vec![active_line("192.168.1.100", "dev.api.com")],
    }];

    let output = generate_hosts_block(&groups);
    assert_eq!(output.matches(TOOLS_BOX_END).count(), 1);
    assert!(validate_tools_box_markers(&output).is_ok());
    assert!(output.contains("# --- dev   <<< Tools Box END <<< ---"));
}

#[test]
fn test_generate_and_remove_roundtrip() {
    let original = "# Original hosts\n127.0.0.1       localhost\n";
    let groups = vec![
        HostsGroup {
            name: "dev".to_string(),
            entries: vec![
                active_line("192.168.1.100", "api.example.com"),
                active_line("192.168.1.101", "db.example.com"),
            ],
        },
        HostsGroup { name: "test".to_string(), entries: vec![active_line("10.0.0.10", "api.example.com")] },
    ];

    let written = format!("{}\n{}", original.trim_end(), generate_hosts_block(&groups));

    let cleaned = remove_section(&written);
    assert_eq!(cleaned.trim_end(), original.trim_end());

    let entries = parse_hosts(&generate_hosts_block(&groups));
    assert_eq!(entries.len(), 3);
    assert!(entries.iter().all(|entry| entry.hostname.ends_with("example.com")));
}

#[test]
fn test_find_hostname_conflicts() {
    let groups = vec![
        HostsGroup {
            name: "dev".to_string(),
            entries: vec![
                active_line("192.168.1.100", "api.example.com"),
                HostsLine {
                    ip: "192.168.1.200".to_string(),
                    hostname: "db.example.com".to_string(),
                    comment: None,
                    is_active: false,
                },
            ],
        },
        HostsGroup {
            name: "test".to_string(),
            entries: vec![active_line("10.0.0.10", "api.example.com"), active_line("10.0.0.11", "db.example.com")],
        },
    ];

    let conflicts = find_hostname_conflicts(&groups);
    assert_eq!(conflicts.len(), 1);
    assert_eq!(conflicts[0].hostname, "api.example.com");
    assert!(conflicts[0].is_cross_environment);
    assert_eq!(
        conflicts[0].mappings,
        vec![
            HostnameMapping { environment: "dev".to_string(), ip: "192.168.1.100".to_string() },
            HostnameMapping { environment: "test".to_string(), ip: "10.0.0.10".to_string() },
        ]
    );
    assert!(conflicts[0].describe().contains("跨环境"));
}

#[test]
fn test_find_hostname_conflicts_same_ip() {
    let groups = vec![
        HostsGroup { name: "dev".to_string(), entries: vec![active_line("127.0.0.1", "localhost")] },
        HostsGroup { name: "test".to_string(), entries: vec![active_line("127.0.0.1", "localhost")] },
    ];

    assert!(find_hostname_conflicts(&groups).is_empty());
}

#[test]
fn test_find_hostname_conflicts_ignore_ascii_case() {
    let groups = vec![
        HostsGroup { name: "dev".to_string(), entries: vec![active_line("192.168.1.100", "API.example.com")] },
        HostsGroup { name: "test".to_string(), entries: vec![active_line("10.0.0.10", "api.example.com")] },
    ];

    let conflicts = find_hostname_conflicts(&groups);
    assert_eq!(conflicts.len(), 1);
    assert_eq!(conflicts[0].hostname, "API.example.com");
    assert!(conflicts[0].is_cross_environment);
}

#[test]
fn test_find_hostname_conflicts_within_single_environment() {
    let groups = vec![HostsGroup {
        name: "dev".to_string(),
        entries: vec![active_line("192.168.1.100", "api.example.com"), active_line("192.168.1.101", "api.example.com")],
    }];

    let conflicts = find_hostname_conflicts(&groups);
    assert_eq!(conflicts.len(), 1);
    assert!(!conflicts[0].is_cross_environment);
    assert!(conflicts[0].describe().contains("同一环境内"));
}

#[test]
fn test_find_hostname_conflicts_empty_and_single_group() {
    assert!(find_hostname_conflicts(&[]).is_empty());

    let groups = vec![HostsGroup {
        name: "dev".to_string(),
        entries: vec![active_line("192.168.1.100", "api.example.com")],
    }];
    assert!(find_hostname_conflicts(&groups).is_empty());
}

#[test]
fn test_find_hostname_conflicts_three_environments() {
    let groups = vec![
        HostsGroup { name: "test".to_string(), entries: vec![active_line("10.0.0.11", "api.example.com")] },
        HostsGroup { name: "prod".to_string(), entries: vec![active_line("10.0.0.10", "api.example.com")] },
        HostsGroup { name: "dev".to_string(), entries: vec![active_line("192.168.1.100", "api.example.com")] },
    ];

    let conflicts = find_hostname_conflicts(&groups);
    assert_eq!(conflicts.len(), 1);
    assert_eq!(
        conflicts[0].mappings.iter().map(|mapping| mapping.environment.as_str()).collect::<Vec<_>>(),
        vec!["dev", "prod", "test"]
    );
}

#[test]
fn test_format_entry_sanitizes_invalid_fields() {
    let entry = HostsLine {
        ip: "192.168.1.100".to_string(),
        hostname: "dev.api.com\n# <<< Tools Box END <<<".to_string(),
        comment: Some("备注\n第二行".to_string()),
        is_active: true,
    };

    let line = format_entry(&entry);
    assert_eq!(line.lines().count(), 1, "条目必须只占一行");
    assert!(!line.contains('\n'));
    assert!(line.contains("dev.api.com"));
    assert!(line.contains("备注 第二行"));
}

#[test]
fn test_remove_tools_box_section() {
    let content = r#"# Original hosts
127.0.0.1       localhost

# >>> Tools Box START >>>
# Managed by Tools Box - Do not edit manually

192.168.1.100   dev.api.com
# <<< Tools Box END <<<

# Other entries
10.0.0.1        other.com
"#;

    let result = remove_section(content);
    assert!(!result.contains("Tools Box START"));
    assert!(!result.contains("Tools Box END"));
    assert!(!result.contains("192.168.1.100"));
    assert!(result.contains("127.0.0.1"));
    assert!(result.contains("10.0.0.1"));
}

#[test]
fn test_remove_tools_box_section_no_section() {
    let content = r#"# Original hosts
127.0.0.1       localhost
"#;

    let result = remove_section(content);
    assert!(result.contains("127.0.0.1"));
}

#[test]
fn test_remove_tools_box_section_rejects_unpaired_markers() {
    let missing_end = "# Original hosts\n127.0.0.1 localhost\n# >>> Tools Box START >>>\n192.168.1.100   dev.api.com\n";
    assert!(remove_tools_box_section(missing_end).is_err());

    let extra_end = "# Original hosts\n127.0.0.1 localhost\n# <<< Tools Box END <<<\n";
    assert!(remove_tools_box_section(extra_end).is_err());

    let reversed = "# <<< Tools Box END <<<\n# >>> Tools Box START >>>\n";
    assert!(remove_tools_box_section(reversed).is_err());

    let duplicated = "# >>> Tools Box START >>>\n# >>> Tools Box START >>>\n# <<< Tools Box END <<<\n";
    assert!(remove_tools_box_section(duplicated).is_err());
}

#[test]
fn test_remove_tools_box_section_keeps_other_content() {
    let content = r#"127.0.0.1       localhost

# >>> Tools Box START >>>
# --- dev ---
192.168.1.100   dev.api.com
# <<< Tools Box END <<<

# >>> Tools Box START >>>
# --- test ---
10.0.0.10       test.api.com
# <<< Tools Box END <<<

10.0.0.1        other.com
"#;

    let result = remove_section(content);
    assert!(!result.contains("dev.api.com"));
    assert!(!result.contains("test.api.com"));
    assert!(result.contains("127.0.0.1"));
    assert!(result.contains("10.0.0.1"));
}

#[test]
fn environment_form_validation_error() {
    let mut form = EnvironmentForm::new();
    assert!(form.validation_error().is_some());

    form.name = "dev\n# <<< Tools Box END <<<".to_string();
    assert!(form.validation_error().is_some());

    form.name = "dev".to_string();
    assert!(form.validation_error().is_none());
}

#[test]
fn entry_form_rejects_invalid_fields() {
    let mut form = HostsEntryForm::new();
    assert!(form.to_new_entry().is_err());

    form.ip_address = "192.168.1.100\n10.0.0.1".to_string();
    form.hostname = "dev.api.com".to_string();
    assert!(form.to_new_entry().is_err());

    form.ip_address = "192.168.1.100".to_string();
    form.hostname = "dev api.com".to_string();
    assert!(form.to_new_entry().is_err());

    form.hostname = "dev.api.com#".to_string();
    assert!(form.to_new_entry().is_err());

    form.hostname = "dev.api.com".to_string();
    form.comment = "备注\n# <<< Tools Box END <<<".to_string();
    assert!(form.to_new_entry().is_err());
}

#[test]
fn entry_form_trims_fields() {
    let form = HostsEntryForm {
        ip_address: "  192.168.1.100  ".to_string(),
        hostname: " dev.api.com ".to_string(),
        comment: "  API # 服务器  ".to_string(),
    };

    let entry = form.to_new_entry().expect("valid form");
    assert_eq!(entry.ip_address, "192.168.1.100");
    assert_eq!(entry.hostname, "dev.api.com");
    assert_eq!(entry.comment.as_deref(), Some("API # 服务器"));

    let form = HostsEntryForm {
        ip_address: "192.168.1.100".to_string(),
        hostname: "dev.api.com".to_string(),
        comment: "   ".to_string(),
    };
    assert!(form.to_new_entry().expect("valid form").comment.is_none());
}

// ---- further cases of this library ----

#[test]
fn marker_errors_name_each_fault() {
    assert_eq!(
        validate_tools_box_markers("# >>> Tools Box START >>>\n# >>> Tools Box START >>>\n# <<< Tools Box END <<<\n"),
        Err(MarkerError::DuplicateStart)
    );
    assert_eq!(validate_tools_box_markers("# <<< Tools Box END <<<\n"), Err(MarkerError::UnmatchedEnd));
    assert_eq!(validate_tools_box_markers("# >>> Tools Box START >>>\n1.1.1.1 a\n"), Err(MarkerError::MissingEnd));
    assert_eq!(validate_tools_box_markers("127.0.0.1 localhost\n"), Ok(()));
    assert!(MarkerError::MissingEnd.message().contains("缺少结束标记"));
    assert!(MarkerError::DuplicateStart.message().contains("开始标记重复"));
    assert!(MarkerError::UnmatchedEnd.message().contains("多余的"));
}

#[test]
fn updated_content_replaces_the_managed_block() {
    let groups = vec![HostsGroup { name: "dev".to_string(), entries: vec![active_line("10.0.0.1", "a.example.com")] }];
    let first = updated_hosts_content("127.0.0.1 localhost\n", &groups).expect("markers pair up");
    assert!(first.starts_with("127.0.0.1 localhost\n\n"));
    assert!(first.ends_with(&generate_hosts_block(&groups)));

    // applying again replaces the block instead of adding a second one
    let other = vec![HostsGroup { name: "test".to_string(), entries: vec![active_line("10.0.0.2", "b.example.com")] }];
    let second = updated_hosts_content(&first, &other).expect("markers pair up");
    assert_eq!(second.matches(TOOLS_BOX_START).count(), 1);
    assert!(!second.contains("a.example.com"));
    assert!(second.contains("b.example.com"));

    assert_eq!(updated_hosts_content("# <<< Tools Box END <<<\n", &groups), Err(MarkerError::UnmatchedEnd));
}

#[test]
fn remove_undoes_append_for_plain_content() {
    let content = "127.0.0.1 localhost\n10.1.1.1 x.example.com";
    let groups = vec![HostsGroup { name: "dev".to_string(), entries: vec![active_line("10.0.0.1", "a.example.com")] }];
    let written = updated_hosts_content(content, &groups).expect("markers pair up");
    assert_eq!(remove_section(&written).trim_end(), content.trim_end());
}

#[test]
fn disabled_entry_is_written_commented_out() {
    let line = HostsLine { ip: "10.0.0.1".to_string(), hostname: "a.com".to_string(), comment: None, is_active: false };
    assert_eq!(format_entry(&line), "10.0.0.1\t\ta.com");
    let block = generate_hosts_block(&[HostsGroup { name: "dev".to_string(), entries: vec![line] }]);
    assert!(block.contains("# 10.0.0.1\t\ta.com"));
    let parsed = parse_hosts(&block);
    assert_eq!(parsed.len(), 1);
    assert!(!parsed[0].is_active);
    assert_eq!(parsed[0].hostname, "a.com");
}

#[test]
fn conflict_report_lists_hosts_in_order() {
    let groups = vec![
        HostsGroup {
            name: "dev".to_string(),
            entries: vec![active_line("1.1.1.1", "b.com"), active_line("1.1.1.2", "a.com")],
        },
        HostsGroup {
            name: "test".to_string(),
            entries: vec![active_line("2.2.2.1", "b.com"), active_line("2.2.2.2", "a.com")],
        },
    ];
    let conflicts = find_hostname_conflicts(&groups);
    assert_eq!(conflicts.iter().map(|c| c.hostname.as_str()).collect::<Vec<_>>(), vec!["a.com", "b.com"]);
    let text = format_conflicts(&conflicts);
    assert!(text.contains("a.com"));
    assert!(text.contains("b.com"));
}

#[test]
fn mappings_sort_stably_by_environment() {
    let m = |e: &str, ip: &str| HostnameMapping { environment: e.to_string(), ip: ip.to_string() };
    let sorted = sort_mappings_by_env(&vec![m("test", "1"), m("dev", "2"), m("test", "3"), m("alpha", "4")]);
    assert_eq!(sorted, vec![m("alpha", "4"), m("dev", "2"), m("test", "1"), m("test", "3")]);
}

#[test]
fn validation_errors_for_each_field() {
    let entry = |ip: &str, host: &str, comment: Option<&str>| NewHostsEntry {
        ip_address: ip.to_string(),
        hostname: host.to_string(),
        comment: comment.map(|c| c.to_string()),
    };
    assert_eq!(normalize_new_entry(&entry(" ", "a", None)).err(), Some(ValidationError::MissingIpAddress));
    assert_eq!(normalize_new_entry(&entry("1.1.1.1", "  ", None)).err(), Some(ValidationError::MissingHostname));
    assert_eq!(
        normalize_new_entry(&entry("1.1\u{7}.1.1", "a", None)).err(),
        Some(ValidationError::ControlCharacter(HostField::IpAddress))
    );
    assert_eq!(
        normalize_new_entry(&entry("1.1.1.1", "a#b", None)).err(),
        Some(ValidationError::SpaceOrHash(HostField::Hostname))
    );
    assert_eq!(
        normalize_new_entry(&entry("1.1.1.1", "a", Some("x\ny"))).err(),
        Some(ValidationError::CommentControlCharacter)
    );
    assert_eq!(normalize_environment_name("  ").err(), Some(ValidationError::MissingEnvironmentName));
    assert_eq!(normalize_environment_name("a#b").err(), Some(ValidationError::InvalidEnvironmentName));
    assert_eq!(normalize_environment_name("  dev ").ok().as_deref(), Some("dev"));
    assert_eq!(ValidationError::MissingIpAddress.message(), "请输入 IP 地址");
    assert_eq!(ValidationError::SpaceOrHash(HostField::Hostname).message(), "主机名不能包含空格或井号");
    assert_eq!(ValidationError::InvalidEnvironmentName.message(), "环境名称不能包含换行、井号或控制字符");
}

#[test]
fn normalizing_twice_changes_nothing() {
    let e = NewHostsEntry {
        ip_address: " 10.0.0.1 ".to_string(),
        hostname: "\ta.com ".to_string(),
        comment: Some("  note ".to_string()),
    };
    let once = normalize_new_entry(&e).expect("valid entry");
    let twice = normalize_new_entry(&once).expect("still valid");
    assert_eq!(once.ip_address, twice.ip_address);
    assert_eq!(once.hostname, twice.hostname);
    assert_eq!(once.comment, twice.comment);
}

#[test]
fn stored_entry_becomes_hosts_line() {
    let stored = DbHostsEntry {
        id: 7,
        ip_address: "10.0.0.1".to_string(),
        hostname: "a.com".to_string(),
        comment: Some("c".to_string()),
        is_enabled: false,
    };
    let line = to_hosts_line(&stored);
    assert_eq!(line.ip, "10.0.0.1");
    assert_eq!(line.hostname, "a.com");
    assert_eq!(line.comment.as_deref(), Some("c"));
    assert!(!line.is_active);
    let form = HostsEntryForm::from_entry(&stored);
    assert_eq!(form.comment, "c");
}

#[test]
fn parsing_a_generated_block_gives_the_entries_back() {
    let groups = vec![
        HostsGroup {
            name: "dev".to_string(),
            entries: vec![
                HostsLine {
                    ip: " 10.0.0.1 ".to_string(),
                    hostname: "a.example.com".to_string(),
                    comment: Some(" 备注\n第二行 ".to_string()),
                    is_active: true,
                },
                HostsLine {
                    ip: "fe80::1".to_string(),
                    hostname: "b.example.com".to_string(),
                    comment: Some("   ".to_string()),
                    is_active: false,
                },
            ],
        },
        HostsGroup { name: "empty".to_string(), entries: vec![] },
        HostsGroup { name: "test".to_string(), entries: vec![active_line("10.0.0.2", "c.example.com")] },
    ];
    let parsed = parse_hosts(&generate_hosts_block(&groups));
    assert_eq!(
        parsed,
        vec![
            HostsLine {
                ip: "10.0.0.1".to_string(),
                hostname: "a.example.com".to_string(),
                comment: Some("备注 第二行".to_string()),
                is_active: true,
            },
            HostsLine { ip: "fe80::1".to_string(), hostname: "b.example.com".to_string(), comment: None, is_active: false },
            active_line("10.0.0.2", "c.example.com"),
        ]
    );
}

fn env(id: i64, name: &str, is_active: bool) -> tools_box::hosts_store::Environment {
    tools_box::hosts_store::Environment { id, name: name.to_string(), is_active }
}

#[test]
fn environment_flows_report_each_outcome() {
    let mut ui = HostsManagerUi::new();
    ui.env_form.name = "a#b".to_string();
    assert_eq!(ui.environment_to_save(), None);
    assert_eq!(ui.error_msg.as_deref(), Some("环境名称不能包含换行、井号或控制字符"));
    ui.env_form.name = " dev ".to_string();
    assert_eq!(ui.environment_to_save().as_deref(), Some(" dev "));
    assert!(ui.error_msg.is_none());

    ui.environment_created(Ok(()));
    assert_eq!(ui.success_msg.as_deref(), Some("环境创建成功"));
    ui.environment_created(Err("UNIQUE".to_string()));
    assert_eq!(ui.error_msg.as_deref(), Some("创建环境失败: UNIQUE"));
    assert!(ui.success_msg.is_none());

    ui.environments_loaded(Ok(vec![env(1, "dev", true), env(2, "test", false), env(3, "prod", true)]));
    assert_eq!(ui.environments.len(), 3);
    ui.environments_loaded(Err("locked".to_string()));
    assert_eq!(ui.error_msg.as_deref(), Some("加载环境列表失败: locked"));
    assert_eq!(ui.environments.len(), 3);

    assert_eq!(ui.toggle_target(2), Some(("test".to_string(), false)));
    assert_eq!(ui.toggle_target(9), None);
    assert_eq!(ui.error_msg.as_deref(), Some("环境不存在，请刷新列表后重试"));
    ui.environment_toggled("test", false, Ok(()));
    assert_eq!(ui.success_msg.as_deref(), Some("已启用环境 'test'（当前共 2 个环境生效）"));
    ui.environment_toggled("dev", true, Ok(()));
    assert_eq!(ui.success_msg.as_deref(), Some("已禁用环境 'dev'"));
    ui.environment_toggled("dev", true, Err("busy".to_string()));
    assert_eq!(ui.error_msg.as_deref(), Some("切换环境失败: busy"));

    ui.state = UiState::EditEnvironment(1);
    ui.environment_renamed(Err("x".to_string()));
    assert_eq!(ui.state, UiState::EditEnvironment(1));
    assert_eq!(ui.error_msg.as_deref(), Some("更新环境失败: x"));
    ui.environment_renamed(Ok(()));
    assert_eq!(ui.state, UiState::EnvironmentList);
    assert_eq!(ui.success_msg.as_deref(), Some("环境名称已更新"));
    ui.environment_deleted(Ok(()));
    assert_eq!(ui.success_msg.as_deref(), Some("环境已删除"));
    ui.environment_deleted(Err("y".to_string()));
    assert_eq!(ui.error_msg.as_deref(), Some("删除环境失败: y"));
}

#[test]
fn entry_flows_report_each_outcome() {
    let mut ui = HostsManagerUi::new();
    ui.entry_form = HostsEntryForm {
        ip_address: "1.1.1.1".to_string(),
        hostname: "a b".to_string(),
        comment: String::new(),
    };
    assert!(ui.entry_to_save().is_none());
    assert_eq!(ui.error_msg.as_deref(), Some("主机名不能包含空格或井号"));
    ui.entry_form.hostname = " a.com ".to_string();
    let e = ui.entry_to_save().expect("valid form");
    assert_eq!(e.hostname, "a.com");
    assert!(e.comment.is_none());

    ui.entry_added(Err("z".to_string()));
    assert_eq!(ui.error_msg.as_deref(), Some("添加条目失败: z"));
    assert_eq!(ui.entry_form.hostname, " a.com ");
    ui.entry_added(Ok(()));
    assert_eq!(ui.success_msg.as_deref(), Some("条目已添加"));
    assert!(ui.entry_form.hostname.is_empty());

    ui.entry_updated(4, Ok(()));
    assert_eq!(ui.state, UiState::EntryList(4));
    assert_eq!(ui.success_msg.as_deref(), Some("条目已更新"));
    ui.entry_updated(4, Err("w".to_string()));
    assert_eq!(ui.error_msg.as_deref(), Some("更新条目失败: w"));
    ui.entry_toggled(true, Ok(()));
    assert_eq!(ui.success_msg.as_deref(), Some("条目已启用"));
    ui.entry_toggled(false, Ok(()));
    assert_eq!(ui.success_msg.as_deref(), Some("条目已禁用"));
    ui.entry_toggled(false, Err("v".to_string()));
    assert_eq!(ui.error_msg.as_deref(), Some("切换状态失败: v"));
    ui.entry_deleted(Ok(()));
    assert_eq!(ui.success_msg.as_deref(), Some("条目已删除"));
    ui.entry_deleted(Err("u".to_string()));
    assert_eq!(ui.error_msg.as_deref(), Some("删除条目失败: u"));
    ui.entries_loaded(Err("t".to_string()));
    assert_eq!(ui.error_msg.as_deref(), Some("加载条目列表失败: t"));
}

#[test]
fn marker_like_comment_is_commented_out_again() {
    let groups = vec![HostsGroup {
        name: "dev".to_string(),
        entries: vec![
            HostsLine {
                ip: "  ".to_string(),
                hostname: "".to_string(),
                comment: Some("<<< Tools Box END <<<".to_string()),
                is_active: true,
            },
            HostsLine {
                ip: ">>> Tools Box START >>>".to_string(),
                hostname: "".to_string(),
                comment: None,
                is_active: false,
            },
        ],
    }];
    let block = generate_hosts_block(&groups);
    assert!(block.contains("# \t\t # <<< Tools Box END <<<\n"));
    assert!(block.contains("# # >>> Tools Box START >>>\t\t\n"));
    assert_eq!(block.lines().filter(|l| l.trim() == TOOLS_BOX_END).count(), 1);
    assert_eq!(block.lines().filter(|l| l.trim() == TOOLS_BOX_START).count(), 1);
    assert!(validate_tools_box_markers(&block).is_ok());
    let original = "127.0.0.1 localhost";
    let content = format!("{}\n{}", original, block);
    assert_eq!(remove_section(&content).trim_end(), original);
}

#[test]
fn failed_backup_writes_nothing() {
    match after_backup(Err("磁盘已满".to_string())) {
        WriteAction::Report(WriteOutcome::BackupFailed(e)) => assert_eq!(e, "磁盘已满"),
        other => panic!("unexpected {:?}", other),
    }
    assert!(matches!(after_backup(Ok(())), WriteAction::Append));
    assert!(matches!(after_append(Ok(())), WriteOutcome::Written));
    match after_append(Err("权限不足".to_string())) {
        WriteOutcome::WriteFailed(e) => assert_eq!(e, "权限不足"),
        other => panic!("unexpected {:?}", other),
    }
}
