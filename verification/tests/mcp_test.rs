use korea_cli::json::{Json, JsonNumber};
use korea_cli::mcp::{
    call_params, find_catalog_entry, handle_initialize, handle_tools_list, missing_spec_output, no_api_key_output,
    parse_tool_call, rpc_step, run_search, spec_output, spec_status_name, tool_content, tool_error_payload,
    RpcAction, SearchOutcome, ToolRequest,
};
use korea_cli::types::{CatalogEntry, SpecStatus};

fn to_json(v: &serde_json::Value) -> Json {
    match v {
        serde_json::Value::Null => Json::Null,
        serde_json::Value::Bool(b) => Json::Bool(*b),
        serde_json::Value::Number(n) => {
            if let Some(u) = n.as_u64() {
                Json::Number(JsonNumber::Unsigned(u))
            } else if let Some(i) = n.as_i64() {
                Json::Number(JsonNumber::Negative(i))
            } else {
                Json::Number(JsonNumber::Fractional(n.to_string()))
            }
        }
        serde_json::Value::String(s) => Json::Str(s.clone()),
        serde_json::Value::Array(a) => Json::Array(a.iter().map(to_json).collect()),
        serde_json::Value::Object(m) => Json::Object(m.iter().map(|(k, x)| (k.clone(), to_json(x))).collect()),
    }
}

fn parse(text: &str) -> Json {
    to_json(&serde_json::from_str::<serde_json::Value>(text).unwrap())
}

fn str_at<'a>(j: &'a Json, key: &str) -> &'a str {
    j.get(key).and_then(|v| v.as_str()).map(|s| s.as_str()).unwrap()
}

fn entry(list_id: &str, title: &str, status: SpecStatus) -> CatalogEntry {
    CatalogEntry {
        list_id: list_id.into(),
        title: title.into(),
        description: String::new(),
        keywords: vec![],
        org_name: "기관".into(),
        category: "교통".into(),
        request_count: 10,
        endpoint_url: "https://apis.data.go.kr/x".into(),
        spec_status: status,
    }
}

#[test]
fn test_handle_initialize() {
    let result = handle_initialize("0.1.0");
    assert_eq!(str_at(&result, "protocolVersion"), "2024-11-05");
    let caps = result.get("capabilities").unwrap();
    assert!(caps.get("tools").unwrap().as_object().is_some());
    assert_eq!(str_at(result.get("serverInfo").unwrap(), "name"), "korea-cli");
}

#[test]
fn test_handle_tools_list() {
    let result = handle_tools_list();
    let tools = result.get("tools").unwrap().as_array().unwrap();
    assert_eq!(tools.len(), 3);

    let names: Vec<&str> = tools.iter().map(|t| str_at(t, "name")).collect();
    assert!(names.contains(&"search_api"));
    assert!(names.contains(&"get_api_spec"));
    assert!(names.contains(&"call_api"));

    for tool in tools {
        let schema = tool.get("inputSchema").unwrap();
        assert!(schema.as_object().is_some());
        assert!(schema.get("required").unwrap().as_array().is_some());
    }
}

#[test]
fn initialize_reports_the_given_version() {
    let result = handle_initialize("9.8.7");
    assert_eq!(str_at(result.get("serverInfo").unwrap(), "version"), "9.8.7");
}

#[test]
fn rpc_initialize_answers_with_the_request_id() {
    let req = parse(r#"{"jsonrpc":"2.0","id":7,"method":"initialize"}"#);
    match rpc_step(&req, "1.0.0") {
        RpcAction::Respond(a) => {
            assert_eq!(str_at(&a, "jsonrpc"), "2.0");
            assert_eq!(a.get("id").unwrap().as_u64(), Some(7));
            assert_eq!(str_at(a.get("result").unwrap(), "protocolVersion"), "2024-11-05");
        }
        other => panic!("unexpected {other:?}"),
    }
}

#[test]
fn rpc_notification_is_not_answered() {
    let req = parse(r#"{"jsonrpc":"2.0","method":"notifications/initialized"}"#);
    assert!(matches!(rpc_step(&req, "1.0.0"), RpcAction::Skip));
}

#[test]
fn rpc_tools_call_hands_over_params() {
    let req = parse(r#"{"id":"a","method":"tools/call","params":{"name":"search_api"}}"#);
    match rpc_step(&req, "1.0.0") {
        RpcAction::CallTool { id, params } => {
            assert_eq!(id.unwrap().as_str().unwrap(), "a");
            assert_eq!(str_at(&params, "name"), "search_api");
        }
        other => panic!("unexpected {other:?}"),
    }
    let req = parse(r#"{"id":1,"method":"tools/call"}"#);
    match rpc_step(&req, "1.0.0") {
        RpcAction::CallTool { id, params } => {
            assert_eq!(id.unwrap().as_u64(), Some(1));
            assert_eq!(params.as_object().unwrap().len(), 0);
        }
        other => panic!("unexpected {other:?}"),
    }
}

#[test]
fn rpc_unknown_method_is_an_error_answer() {
    let req = parse(r#"{"id":3,"method":"ping"}"#);
    match rpc_step(&req, "1.0.0") {
        RpcAction::Respond(a) => {
            let err = a.get("result").unwrap().get("error").unwrap();
            assert!(matches!(err.get("code").unwrap(), Json::Number(JsonNumber::Negative(-32601))));
            assert_eq!(str_at(err, "message"), "Unknown method: ping");
        }
        other => panic!("unexpected {other:?}"),
    }
    // no id: answered with a null id
    let req = parse(r#"{"method":"tools/list"}"#);
    match rpc_step(&req, "1.0.0") {
        RpcAction::Respond(a) => assert!(a.get("id").unwrap().is_null()),
        other => panic!("unexpected {other:?}"),
    }
}

#[test]
fn parse_search_call_defaults_limit() {
    let p = parse(r#"{"name":"search_api","arguments":{"query":"날씨"}}"#);
    match parse_tool_call(&p).unwrap() {
        ToolRequest::Search { query, category, limit } => {
            assert_eq!(query, "날씨");
            assert_eq!(category, None);
            assert_eq!(limit, 10);
        }
        other => panic!("unexpected {other:?}"),
    }
    let p = parse(r#"{"name":"search_api","arguments":{"query":"q","category":"교통","limit":3}}"#);
    match parse_tool_call(&p).unwrap() {
        ToolRequest::Search { category, limit, .. } => {
            assert_eq!(category.as_deref(), Some("교통"));
            assert_eq!(limit, 3);
        }
        other => panic!("unexpected {other:?}"),
    }
}

#[test]
fn parse_tool_call_errors() {
    let p = parse(r#"{"name":"search_api","arguments":{}}"#);
    assert_eq!(parse_tool_call(&p).unwrap_err(), "missing 'query' parameter");
    let p = parse(r#"{"name":"get_api_spec"}"#);
    assert_eq!(parse_tool_call(&p).unwrap_err(), "missing 'list_id' parameter");
    let p = parse(r#"{"name":"call_api","arguments":{"list_id":"1"}}"#);
    assert_eq!(parse_tool_call(&p).unwrap_err(), "missing 'operation' parameter");
    let p = parse(r#"{"name":"call_api","arguments":{"operation":"/x"}}"#);
    assert_eq!(parse_tool_call(&p).unwrap_err(), "missing 'list_id' parameter");
    let p = parse(r#"{"name":"drop_table"}"#);
    assert_eq!(parse_tool_call(&p).unwrap_err(), "Unknown tool: drop_table");
    let p = parse(r#"{}"#);
    assert_eq!(parse_tool_call(&p).unwrap_err(), "Unknown tool: ");
}

#[test]
fn parse_call_api_reads_params() {
    let p = parse(r#"{"name":"call_api","arguments":{"list_id":"15","operation":"/s","params":{"a":"1","b":2}}}"#);
    match parse_tool_call(&p).unwrap() {
        ToolRequest::Call { list_id, operation, params } => {
            assert_eq!(list_id, "15");
            assert_eq!(operation, "/s");
            assert_eq!(params.len(), 2);
            assert_eq!(params[0].0, "a");
        }
        other => panic!("unexpected {other:?}"),
    }
    let p = parse(r#"{"name":"get_api_spec","arguments":{"list_id":"42"}}"#);
    assert!(matches!(parse_tool_call(&p).unwrap(), ToolRequest::GetSpec { list_id } if list_id == "42"));
}

#[test]
fn tool_payloads() {
    let e = tool_error_payload("boom");
    assert_eq!(e.get("success").unwrap().as_bool(), Some(false));
    assert_eq!(str_at(&e, "error"), "boom");

    let c = tool_content("hello".to_string(), true);
    let content = c.get("content").unwrap().as_array().unwrap();
    assert_eq!(content.len(), 1);
    assert_eq!(str_at(&content[0], "type"), "text");
    assert_eq!(str_at(&content[0], "text"), "hello");
    assert_eq!(c.get("isError").unwrap().as_bool(), Some(true));
}

#[test]
fn search_on_empty_catalog_reports_bundle_empty() {
    match run_search(&[], "q", None, 10) {
        SearchOutcome::BundleEmpty(a) => assert_eq!(str_at(&a, "error"), "BUNDLE_EMPTY"),
        other => panic!("unexpected {other:?}"),
    }
}

#[test]
fn search_limits_results() {
    let cat = vec![
        entry("1", "버스 정보", SpecStatus::Available),
        entry("2", "버스 노선", SpecStatus::Available),
        entry("3", "지하철", SpecStatus::Available),
    ];
    match run_search(&cat, "버스", None, 1) {
        SearchOutcome::Found(r) => {
            assert_eq!(r.total, 2);
            assert_eq!(r.results.len(), 1);
        }
        other => panic!("unexpected {other:?}"),
    }
}

#[test]
fn status_names() {
    assert_eq!(spec_status_name(SpecStatus::Available), "Available");
    assert_eq!(spec_status_name(SpecStatus::PartialStub), "PartialStub");
    assert_eq!(spec_status_name(SpecStatus::CatalogOnly), "CatalogOnly");
}

#[test]
fn spec_output_adds_status_and_key_guide() {
    let spec = parse(r#"{"list_id":"1","operations":[]}"#);
    let out = spec_output(spec, SpecStatus::PartialStub, false);
    assert_eq!(out.get("success").unwrap().as_bool(), Some(true));
    assert_eq!(str_at(&out, "spec_status"), "PartialStub");
    assert_eq!(out.get("has_api_key").unwrap().as_bool(), Some(false));
    assert!(out.get("partial_note").is_some());
    assert!(str_at(&out, "key_guide").contains("DATA_GO_KR_API_KEY"));
    assert_eq!(str_at(&out, "list_id"), "1");

    let spec = parse(r#"{"list_id":"1"}"#);
    let out = spec_output(spec, SpecStatus::Available, true);
    assert!(out.get("partial_note").is_none());
    assert!(out.get("key_guide").is_none());
}

#[test]
fn missing_spec_answers() {
    let cat = vec![entry("77", "t", SpecStatus::External)];
    let found = find_catalog_entry(&cat, "77");
    let out = missing_spec_output("77", found);
    assert_eq!(str_at(&out, "spec_status"), "External");
    assert_eq!(str_at(&out, "data_go_kr_url"), "https://www.data.go.kr/data/77/openapi.do");
    assert_eq!(str_at(&out, "endpoint_url"), "https://apis.data.go.kr/x");

    let out = missing_spec_output("404", find_catalog_entry(&cat, "404"));
    assert_eq!(str_at(&out, "error"), "NOT_FOUND");
    assert_eq!(str_at(&out, "message"), "API를 찾을 수 없습니다: 404");
}

#[test]
fn no_api_key_answer() {
    let out = no_api_key_output();
    assert_eq!(out.get("success").unwrap().as_bool(), Some(false));
    assert_eq!(str_at(&out, "error"), "NO_API_KEY");
}

#[test]
fn call_params_pairs_names_with_rendered_values() {
    let members = vec![
        ("a".to_string(), Json::Str("x".into())),
        ("b".to_string(), Json::Bool(true)),
        ("c".to_string(), parse(r#"{"k":[1,-2,"q\"\n"],"z":null}"#)),
    ];
    let p = call_params(&members);
    assert_eq!(
        p,
        vec![
            ("a".to_string(), "x".to_string()),
            ("b".to_string(), "true".to_string()),
            ("c".to_string(), r#"{"k":[1,-2,"q\"\n"],"z":null}"#.to_string()),
        ]
    );
}

#[test]
fn json_text_matches_serde_json() {
    for text in [
        r#"null"#,
        r#"[true,false,0,18446744073709551615,-9223372036854775808,1.5,2e-7]"#,
        r#"{"a":{"b":[]},"c":"tab\there \u0001 \u001f / é 한"}"#,
        r#"["\\ \" \b\f\r"]"#,
    ] {
        let v: serde_json::Value = serde_json::from_str(text).unwrap();
        let p = call_params(&vec![("v".to_string(), to_json(&v))]);
        assert_eq!(p[0].1, v.to_string(), "{text}");
    }
}
