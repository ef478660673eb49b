use tools_box::api_tabs::{record_save, save_plan, RequestTabs, SaveTarget};
use tools_box::api::{
    status_class, StatusClass, parse_form_data, collection_and_descendant_ids, detect_body_type, history_request_name, find_saved_tab, request_display_name, saved_request_name, tab_after_close,
    truncate_url, ApiCollection, ApiRequest, ApiResponse, BodyType, HeaderEntry, HttpMethod, OpenRequestTab,
    SavedApiRequest,
};
use tools_box::mock::{
    find_route, http_response, make_route, mock_base_url, not_found_message, parse_request_line, route_response,
    MockResponse,
};

#[test]
fn test_build_url_no_params() {
    let request = ApiRequest { url: "https://example.com/api".to_string(), params: vec![], ..ApiRequest::new() };
    assert_eq!(request.build_url(), "https://example.com/api");
}

#[test]
fn test_build_url_with_params() {
    let request = ApiRequest {
        url: "https://example.com/api".to_string(),
        params: vec![HeaderEntry::new("key1", "value1"), HeaderEntry::new("key2", "value2")],
        ..ApiRequest::new()
    };
    assert_eq!(request.build_url(), "https://example.com/api?key1=value1&key2=value2");
}

#[test]
fn test_build_url_with_existing_query() {
    let request = ApiRequest {
        url: "https://example.com/api?existing=param".to_string(),
        params: vec![HeaderEntry::new("key1", "value1")],
        ..ApiRequest::new()
    };
    assert_eq!(request.build_url(), "https://example.com/api?existing=param&key1=value1");
}

#[test]
fn test_build_url_skip_disabled_params() {
    let mut param = HeaderEntry::new("key1", "value1");
    param.enabled = false;

    let request = ApiRequest {
        url: "https://example.com/api".to_string(),
        params: vec![param, HeaderEntry::new("key2", "value2")],
        ..ApiRequest::new()
    };
    assert_eq!(request.build_url(), "https://example.com/api?key2=value2");
}

#[test]
fn test_build_url_skip_empty_key() {
    let request = ApiRequest {
        url: "https://example.com/api".to_string(),
        params: vec![HeaderEntry::empty(), HeaderEntry::new("key2", "value2")],
        ..ApiRequest::new()
    };
    assert_eq!(request.build_url(), "https://example.com/api?key2=value2");
}

#[test]
fn test_build_url_encode_special_chars() {
    let request = ApiRequest {
        url: "https://example.com/api".to_string(),
        params: vec![HeaderEntry::new("key", "value with spaces&special=chars")],
        ..ApiRequest::new()
    };
    assert_eq!(request.build_url(), "https://example.com/api?key=value%20with%20spaces%26special%3Dchars");
}

#[test]
fn request_display_name_keeps_full_custom_name() {
    let long_name = "这是一个超过原有限制的完整请求名称，用于验证不会被截断";
    let request = ApiRequest { name: long_name.to_string(), ..ApiRequest::new() };

    assert_eq!(request_display_name(&request, false), long_name);
    assert_eq!(saved_request_name(&request, false), long_name);
}

#[test]
fn request_name_falls_back_to_full_url() {
    let long_url = "https://example.com/api/requests/with/a/very/long/path?param=full-value";
    let request = ApiRequest { url: long_url.to_string(), ..ApiRequest::new() };

    assert_eq!(request_display_name(&request, true), long_url);
    assert_eq!(saved_request_name(&request, true), long_url);
}

#[test]
fn custom_new_request_name_is_not_replaced_by_url() {
    let request = ApiRequest {
        name: "New Request".to_string(),
        url: "https://example.com/api".to_string(),
        ..ApiRequest::new()
    };

    assert_eq!(saved_request_name(&request, false), "New Request");
}

#[test]
fn long_url_is_truncated_with_ellipsis() {
    assert_eq!(truncate_url("https://example.com/very-long-path", 20), "https://example.c...");
    assert_eq!(truncate_url("short", 20), "short");
}

// ---- further cases of this library ----

#[test]
fn method_names_round_trip() {
    for m in HttpMethod::all() {
        assert_eq!(HttpMethod::from_str(m.as_str()), Some(m));
    }
    // parsed without regard to case: the name is put in upper case first
    assert_eq!(HttpMethod::from_str("get"), Some(HttpMethod::Get));
    assert_eq!(HttpMethod::from_str("Patch"), Some(HttpMethod::Patch));
    assert_eq!(HttpMethod::from_str("FETCH"), None);
    assert_eq!(HttpMethod::all().len(), 7);
    assert_eq!(BodyType::all().iter().map(|b| b.as_str()).collect::<Vec<_>>(), vec!["None", "JSON", "Form", "Raw"]);
}

#[test]
fn new_request_has_hyphenated_uuid_and_json_header() {
    let a = ApiRequest::new();
    let b = ApiRequest::new();
    assert_eq!(a.id.len(), 36);
    assert_eq!(a.id.matches('-').count(), 4);
    assert_ne!(a.id, b.id);
    assert_eq!(a.name, "New Request");
    assert_eq!(a.method, HttpMethod::Get);
    assert!(a.url.is_empty());
}

#[test]
fn query_is_appended_only_for_enabled_named_params() {
    let request = ApiRequest {
        url: "http://h/p".to_string(),
        params: vec![HeaderEntry::new("a b", "ü")],
        ..ApiRequest::new()
    };
    assert_eq!(request.build_url(), "http://h/p?a%20b=%C3%BC");
    let mut off = HeaderEntry::new("x", "y");
    off.enabled = false;
    let request = ApiRequest { url: "http://h/p".to_string(), params: vec![off], ..ApiRequest::new() };
    assert_eq!(request.build_url(), "http://h/p");
}

#[test]
fn blank_and_default_names_use_fallbacks() {
    let request = ApiRequest { name: "   ".to_string(), url: String::new(), ..ApiRequest::new() };
    assert_eq!(request_display_name(&request, false), "新建请求");
    assert_eq!(saved_request_name(&request, false), "未命名请求");
    let request = ApiRequest { name: "  mine  ".to_string(), ..ApiRequest::new() };
    assert_eq!(saved_request_name(&request, true), "mine");
    assert_eq!(request_display_name(&request, true), "  mine  ");
}

#[test]
fn truncation_without_room_for_dots() {
    assert_eq!(truncate_url("abcdef", 3), "abc");
    assert_eq!(truncate_url("abcdef", 4), "a...");
    assert_eq!(truncate_url("中文网址很长", 5), "中文...");
}

#[test]
fn status_line_joins_code_and_reason() {
    let r = ApiResponse {
        status_code: 404,
        status_text: "Not Found".to_string(),
        headers: vec![],
        body: String::new(),
        elapsed_ms: 3,
        size_bytes: 0,
    };
    assert_eq!(r.status_display(), "404 Not Found");
}

fn collection(id: i64, parent: Option<i64>) -> ApiCollection {
    ApiCollection {
        id,
        name: format!("c{}", id),
        parent_id: parent,
        description: None,
        sort_order: 0,
        created_at: String::new(),
    }
}

#[test]
fn descendants_include_all_nested_collections() {
    let cs = vec![collection(1, None), collection(2, Some(1)), collection(3, Some(2)), collection(4, None), collection(5, Some(1))];
    // breadth first: the children of each listed collection in list order
    assert_eq!(collection_and_descendant_ids(&cs, 1), vec![1, 2, 5, 3]);
    assert_eq!(collection_and_descendant_ids(&cs, 4), vec![4]);
    // a cycle in stored data does not repeat ids
    let cyclic = vec![collection(1, Some(2)), collection(2, Some(1))];
    assert_eq!(collection_and_descendant_ids(&cyclic, 1), vec![1, 2]);
}

#[test]
fn closing_tabs_keeps_a_valid_selection() {
    assert_eq!(tab_after_close(0, 2, 3), 1);
    assert_eq!(tab_after_close(2, 2, 3), 2);
    assert_eq!(tab_after_close(3, 3, 3), 2);
    assert_eq!(tab_after_close(3, 1, 3), 1);
}

#[test]
fn saved_request_opens_in_a_tab_once() {
    let saved = SavedApiRequest {
        id: 42,
        collection_id: Some(7),
        name: "list users".to_string(),
        method: HttpMethod::Post,
        url: "http://h/users".to_string(),
        headers: vec![HeaderEntry::new("A", "1")],
        params: vec![],
        body_type: BodyType::Json,
        body: "{}".to_string(),
        created_at: String::new(),
        updated_at: String::new(),
    };
    let tab = OpenRequestTab::from_saved_request(saved);
    assert_eq!(tab.saved_request_id, Some(42));
    assert_eq!(tab.collection_id, Some(7));
    assert_eq!(tab.request.name, "list users");
    assert_eq!(tab.request.method, HttpMethod::Post);
    assert!(!tab.is_default_name);
    let tabs = vec![OpenRequestTab::new(), tab];
    assert_eq!(find_saved_tab(&tabs, 42), Some(1));
    assert_eq!(find_saved_tab(&tabs, 1), None);
    assert_eq!(tabs[0].headers.len(), 2);
    assert!(tabs[0].is_default_name);
}

#[test]
fn mock_routes_answer_by_method_and_path() {
    let routes = vec![
        make_route("GET", "/api/users", MockResponse::ok("[]")),
        make_route("POST", "/api/users", MockResponse::new(201, "{\"id\":1}")),
    ];
    assert_eq!(find_route(&routes, "get", "/api/users"), Some(0));
    assert_eq!(find_route(&routes, "POST", "/api/users"), Some(1));
    assert_eq!(find_route(&routes, "DELETE", "/api/users"), None);
    assert_eq!(find_route(&routes, "GET", "/api/user"), None);

    assert_eq!(
        parse_request_line("GET /api/users HTTP/1.1"),
        Some(("GET".to_string(), "/api/users".to_string()))
    );
    assert_eq!(parse_request_line("GET"), None);

    let answer = route_response(&routes[1]);
    assert!(answer.starts_with("HTTP/1.1 201 OK\r\n"));
    assert!(answer.contains("Content-Length: 8\r\n"));
    assert!(answer.ends_with("\r\n\r\n{\"id\":1}"));
    assert_eq!(http_response(404, "Not Found", "中").matches("Content-Length: 3").count(), 1);
    assert_eq!(not_found_message("GET", "/x"), "GET /x 不存在");
    assert_eq!(mock_base_url(18080), "http://localhost:18080");
    let ok = MockResponse::ok("x");
    assert_eq!(ok.status, 200);
    assert_eq!(ok.headers[0], ("Content-Type".to_string(), "application/json".to_string()));
}

#[test]
fn response_bodies_are_pretty_printed_when_json() {
    assert_eq!(tools_box::api::format_json("{\"a\":[1,2]}"), "{\n  \"a\": [\n    1,\n    2\n  ]\n}");
    assert_eq!(tools_box::api::format_json("not json"), "not json");
}

#[test]
fn history_items_reopen_with_name_and_body_kind() {
    assert_eq!(history_request_name("", "http://h/x"), "http://h/x");
    assert_eq!(history_request_name("mine", "http://h/x"), "mine");
    assert_eq!(detect_body_type(""), BodyType::Empty);
    assert_eq!(detect_body_type("{\"a\":1}"), BodyType::Json);
    assert_eq!(detect_body_type("a=1"), BodyType::Raw);
}

fn saved(id: i64, name: &str) -> SavedApiRequest {
    SavedApiRequest {
        id,
        collection_id: None,
        name: name.to_string(),
        method: HttpMethod::Get,
        url: format!("http://h/{}", id),
        headers: vec![],
        params: vec![],
        body_type: BodyType::Empty,
        body: String::new(),
        created_at: String::new(),
        updated_at: String::new(),
    }
}

#[test]
fn request_tabs_open_each_saved_request_once() {
    let mut tabs = RequestTabs::new();
    assert_eq!((tabs.tabs.len(), tabs.active), (1, 0));
    tabs.open_saved(saved(5, "five"));
    assert_eq!((tabs.tabs.len(), tabs.active), (2, 1));
    tabs.create_tab();
    assert_eq!((tabs.tabs.len(), tabs.active), (3, 2));
    tabs.open_saved(saved(5, "five again"));
    assert_eq!((tabs.tabs.len(), tabs.active), (3, 1));
    assert_eq!(tabs.tabs[1].request.name, "five");
    tabs.activate(9);
    assert_eq!(tabs.active, 1);
    tabs.activate(0);
    assert_eq!(tabs.active, 0);

    // closing a tab before the shown one moves the selection down
    tabs.activate(2);
    tabs.close(0);
    assert_eq!((tabs.tabs.len(), tabs.active), (2, 1));
    // closing the shown last tab shows the new last one
    tabs.close(1);
    assert_eq!((tabs.tabs.len(), tabs.active), (1, 0));
    assert_eq!(tabs.tabs[0].saved_request_id, Some(5));
    // closing the only tab leaves a new request
    tabs.close(0);
    assert_eq!(tabs.tabs.len(), 1);
    assert!(tabs.tabs[0].saved_request_id.is_none());
    assert!(tabs.tabs[0].is_default_name);
    tabs.close(3);
    assert_eq!(tabs.tabs.len(), 1);
}

#[test]
fn saving_updates_saved_requests_and_inserts_new_ones() {
    let mut tab = OpenRequestTab::new();
    tab.request.url = "http://h/new".to_string();
    let (target, name) = save_plan(&tab, Some(3));
    assert_eq!(target, SaveTarget::Insert { collection_id: Some(3) });
    assert_eq!(name, "http://h/new");
    record_save(&mut tab, name, Some((11, Some(3))));
    assert_eq!(tab.saved_request_id, Some(11));
    assert_eq!(tab.collection_id, Some(3));
    assert!(!tab.is_default_name);
    assert_eq!(tab.request.name, "http://h/new");

    tab.request.name = "  list  ".to_string();
    let (target, name) = save_plan(&tab, Some(9));
    assert_eq!(target, SaveTarget::Update { id: 11, collection_id: Some(3) });
    assert_eq!(name, "list");
    record_save(&mut tab, name, None);
    assert_eq!(tab.saved_request_id, Some(11));
    assert_eq!(tab.request.name, "list");
}

#[test]
fn method_names_parse_in_any_case() {
    for m in HttpMethod::all() {
        assert_eq!(HttpMethod::from_str(m.as_str()), Some(m));
        assert_eq!(HttpMethod::from_str(&m.as_str().to_lowercase()), Some(m));
    }
    assert_eq!(HttpMethod::from_str("Patch"), Some(HttpMethod::Patch));
    assert_eq!(HttpMethod::from_str("FETCH"), None);
}

#[test]
fn form_data_is_read_as_pairs() {
    let fields = parse_form_data(r#"[["a", "1"], ["b", "two"]]"#).unwrap();
    assert_eq!(fields, vec![("a".to_string(), "1".to_string()), ("b".to_string(), "two".to_string())]);
    assert!(parse_form_data("{\"a\": 1}").is_err());
}

#[test]
fn status_classes() {
    assert_eq!(status_class(200), StatusClass::Success);
    assert_eq!(status_class(299), StatusClass::Success);
    assert_eq!(status_class(301), StatusClass::Redirect);
    assert_eq!(status_class(400), StatusClass::Error);
    assert_eq!(status_class(500), StatusClass::Error);
}

#[test]
fn opened_saved_request_carries_all_its_fields() {
    let saved = SavedApiRequest {
        id: 5,
        collection_id: Some(2),
        name: "create".to_string(),
        method: HttpMethod::Put,
        url: "http://h/items".to_string(),
        headers: vec![HeaderEntry::new("X-Token", "t")],
        params: vec![HeaderEntry::new("page", "2")],
        body_type: BodyType::Form,
        body: "[[\"a\",\"1\"]]".to_string(),
        created_at: String::new(),
        updated_at: String::new(),
    };
    let mut tabs = RequestTabs::new();
    let first = &tabs.tabs[0];
    assert_eq!(first.request.name, "New Request");
    assert_eq!(first.request.method, HttpMethod::Get);
    assert_eq!(first.headers.len(), 2);
    assert_eq!(first.headers[1].key, "Accept");
    tabs.open_saved(saved.clone());
    assert_eq!(tabs.active, 1);
    let t = &tabs.tabs[1];
    assert_eq!(t.request.method, HttpMethod::Put);
    assert_eq!(t.request.headers, saved.headers);
    assert_eq!(t.request.params, saved.params);
    assert_eq!(t.headers, saved.headers);
    assert_eq!(t.params, saved.params);
    assert_eq!(t.body_type, BodyType::Form);
    assert_eq!(t.body, saved.body);
    assert_eq!(t.collection_id, Some(2));
    assert!(t.response.is_none() && !t.is_default_name && !t.is_sending);
    tabs.open_saved(saved);
    assert_eq!(tabs.tabs.len(), 2);
    tabs.create_tab();
    assert_eq!(tabs.tabs[2].request.name, "New Request");
    assert_eq!(tabs.tabs[2].headers[0].value, "application/json");
}

#[test]
fn recording_a_save_keeps_the_request() {
    let mut tab = OpenRequestTab::new();
    tab.request.method = HttpMethod::Delete;
    tab.body = "x".to_string();
    record_save(&mut tab, "n".to_string(), None);
    assert_eq!(tab.request.method, HttpMethod::Delete);
    assert_eq!(tab.body, "x");
    assert_eq!(tab.request.headers.len(), 1);
}
