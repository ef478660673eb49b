use tools_box::hosts_ui::HostsManagerPlugin;
use tools_box::notes::{
    notes_query, NoteQuery, folder_display_name, folder_name_error, parse_tags_from_str, sort_newest_first, NoteEntry, NoteFolder, NoteForm,
    SortBy,
};
use tools_box::shell::{
    filter_plugins, hosts_file_path, on_hotkey, theme_from_setting, HotkeyStatus, ShellState, Theme, WindowCommand,
};

fn note(id: i64, updated_at: &str, tags: &[&str]) -> NoteEntry {
    NoteEntry {
        id,
        title: format!("n{}", id),
        content: String::new(),
        folder_id: None,
        is_favorite: false,
        tags: tags.iter().map(|t| t.to_string()).collect(),
        created_at: String::new(),
        updated_at: updated_at.to_string(),
    }
}

#[test]
fn tags_are_split_trimmed_and_blank_ones_dropped() {
    assert_eq!(parse_tags_from_str(" rust, verus ,, ,notes "), vec!["rust", "verus", "notes"]);
    assert!(parse_tags_from_str("").is_empty());
    assert!(parse_tags_from_str(" , ,").is_empty());
    assert_eq!(parse_tags_from_str("单个"), vec!["单个"]);
}

#[test]
fn form_round_trips_tags() {
    let entry = note(1, "2024-01-01", &["a", "b c", "d"]);
    let form = NoteForm::from_entry(&entry);
    assert_eq!(form.tags, "a, b c, d");
    assert_eq!(form.parse_tags(), entry.tags);
    assert_eq!(form.title, "n1");
    let empty = NoteForm::empty();
    assert!(empty.title.is_empty() && empty.tags.is_empty() && empty.folder_id.is_none());
    assert!(empty.parse_tags().is_empty());
}

#[test]
fn notes_are_ordered_newest_first_stably() {
    let notes = vec![
        note(1, "2024-01-02 10:00:00", &[]),
        note(2, "2024-03-01 09:00:00", &[]),
        note(3, "2024-01-02 10:00:00", &[]),
        note(4, "2023-12-31 23:59:59", &[]),
    ];
    let sorted = sort_newest_first(notes);
    assert_eq!(sorted.iter().map(|n| n.id).collect::<Vec<_>>(), vec![2, 1, 3, 4]);
    assert!(sort_newest_first(Vec::new()).is_empty());
}

#[test]
fn folder_names_fall_back_to_uncategorised() {
    let folders = vec![
        NoteFolder { id: 1, name: "工作".to_string(), parent_id: None, sort_order: 0, created_at: String::new() },
        NoteFolder { id: 2, name: "生活".to_string(), parent_id: Some(1), sort_order: 1, created_at: String::new() },
    ];
    assert_eq!(folder_display_name(&folders, Some(2)), "生活");
    assert_eq!(folder_display_name(&folders, Some(9)), "未分类");
    assert_eq!(folder_display_name(&folders, None), "未分类");
    assert_eq!(folder_name_error(""), Some("目录名称不能为空".to_string()));
    assert_eq!(folder_name_error("x"), None);
}

#[test]
fn sort_orders_have_labels() {
    assert_eq!(SortBy::all().iter().map(|s| s.as_str()).collect::<Vec<_>>(), vec!["创建时间", "更新时间", "标题"]);
}

#[test]
fn theme_and_hosts_path() {
    assert_eq!(theme_from_setting("light"), Theme::Light);
    assert_eq!(theme_from_setting("dark"), Theme::Dark);
    assert_eq!(theme_from_setting("Light"), Theme::Dark);
    assert_eq!(hosts_file_path(false), "/etc/hosts");
    assert_eq!(hosts_file_path(true), "C:\\Windows\\System32\\drivers\\etc\\hosts");
}

#[test]
fn plugin_search_ignores_case() {
    let names = vec!["Hosts 管理器".to_string(), "JSON 编辑器".to_string(), "笔记".to_string()];
    let descriptions = vec!["管理 hosts".to_string(), "格式化 JSON".to_string(), "Markdown 笔记".to_string()];
    assert_eq!(filter_plugins(&names, &descriptions, ""), vec![0, 1, 2]);
    assert_eq!(filter_plugins(&names, &descriptions, "HOSTS"), vec![0]);
    assert_eq!(filter_plugins(&names, &descriptions, "json"), vec![1]);
    assert_eq!(filter_plugins(&names, &descriptions, "markdown"), vec![2]);
    assert!(filter_plugins(&names, &descriptions, "zzz").is_empty());
}

#[test]
fn hotkeys_toggle_and_select() {
    let visible = ShellState { selected: 0, last_active_tool: 2, window_visible: true };
    let (s, cmd, status) = on_hotkey(visible, usize::MAX, 3);
    assert_eq!((s.window_visible, cmd, status), (false, WindowCommand::Hide, HotkeyStatus::Minimized));

    let (s, cmd, status) = on_hotkey(s, usize::MAX, 3);
    assert_eq!((s.selected, s.window_visible, cmd, status), (2, true, WindowCommand::Show, HotkeyStatus::Summoned(2)));

    let (s, cmd, status) = on_hotkey(s, 1, 3);
    assert_eq!((s.selected, s.last_active_tool, cmd, status), (1, 1, WindowCommand::Keep, HotkeyStatus::Summoned(1)));

    let (t, cmd, status) = on_hotkey(s, 5, 3);
    assert_eq!((t, cmd, status), (s, WindowCommand::Keep, HotkeyStatus::Unchanged));
}

#[test]
fn hosts_plugin_describes_itself() {
    let plugin = HostsManagerPlugin::new();
    assert_eq!(plugin.name(), "Hosts 管理器");
    assert_eq!(plugin.icon(), "🌐");
    assert!(plugin.description().contains("hosts"));
    assert!(plugin.ui.environments.is_empty());
}

#[test]
fn note_list_source_follows_the_filters() {
    assert_eq!(notes_query(true, true, "x", Some(1)), NoteQuery::Favorites);
    assert_eq!(notes_query(false, true, "rust", Some(1)), NoteQuery::Search("rust".to_string()));
    assert_eq!(notes_query(false, true, "", Some(1)), NoteQuery::Folder(Some(1)));
    assert_eq!(notes_query(false, false, "rust", None), NoteQuery::Folder(None));
}
