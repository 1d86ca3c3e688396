use korea_cli::caller::{
    apply_auth, build_json_body, build_response, build_url, extract_data, find_operation, parse_xml_body, plan_call,
    AuthPlacement, CallError, XmlError,
};
use korea_cli::json::Json;
use korea_cli::types::{
    ApiProtocol, ApiSpec, AuthMethod, AuthPreference, ContentType, ErrorCheck, HttpMethod, Operation, ParamLocation,
    Parameter, ResponseExtractor, ResponseFormat,
};

fn make_test_spec() -> ApiSpec {
    ApiSpec {
        list_id: "test".into(),
        base_url: "https://api.odcloud.kr/api/test/v1".into(),
        protocol: ApiProtocol::InfuserRest,
        auth: AuthMethod::QueryParam { name: "serviceKey".into() },
        extractor: ResponseExtractor {
            data_path: vec!["data".into()],
            error_check: ErrorCheck::HttpStatus,
            pagination: None,
            format: ResponseFormat::Json,
        },
        operations: vec![Operation {
            path: "/items".into(),
            method: HttpMethod::Get,
            summary: "아이템 조회".into(),
            content_type: ContentType::Unspecified,
            parameters: vec![Parameter {
                name: "page".into(),
                description: "페이지".into(),
                location: ParamLocation::Query,
                param_type: "integer".into(),
                required: false,
                default: Some("1".into()),
            }],
            request_body: None,
            response_fields: vec![],
        }],
        fetched_at: "2024-01-01".into(),
        missing_operations: vec![],
    }
}

fn find_by_key<'a>(v: &'a Json, key: &str) -> Option<&'a Json> {
    match v {
        Json::Object(m) => {
            if let Some((_, x)) = m.iter().find(|(k, _)| k == key) {
                return Some(x);
            }
            m.iter().find_map(|(_, x)| find_by_key(x, key))
        }
        Json::Array(a) => a.iter().find_map(|x| find_by_key(x, key)),
        _ => None,
    }
}

fn as_str(v: &Json) -> Option<&str> {
    match v {
        Json::Str(s) => Some(s.as_str()),
        _ => None,
    }
}

fn pairs(items: &[(&str, &str)]) -> Vec<(String, String)> {
    items.iter().map(|(k, v)| (k.to_string(), v.to_string())).collect()
}

#[test]
fn test_find_operation() {
    let spec = make_test_spec();
    let op = find_operation(&spec, "/items").unwrap();
    assert_eq!(op.summary, "아이템 조회");
}

#[test]
fn test_find_operation_by_name() {
    let spec = make_test_spec();
    let op = find_operation(&spec, "아이템 조회").unwrap();
    assert_eq!(op.path, "/items");
}

#[test]
fn test_find_operation_not_found() {
    let spec = make_test_spec();
    assert!(find_operation(&spec, "/unknown").is_none());
}

#[test]
fn test_parse_xml_flat_tags() {
    let xml = r#"<?xml version="1.0" encoding="UTF-8"?>
<response>
  <header>
    <resultCode>00</resultCode>
    <resultMsg>NORMAL SERVICE.</resultMsg>
  </header>
  <body>
    <items>
      <item><name>test</name></item>
    </items>
  </body>
</response>"#;
    let result = parse_xml_body(xml);
    assert!(result.is_ok(), "파싱 결과: {:?}", result);
    let value = result.unwrap();
    let code = find_by_key(&value, "resultCode").expect("resultCode 없음");
    assert_eq!(as_str(code), Some("00"), "resultCode 직접 매칭: {:?}", code);
}

#[test]
fn test_parse_xml_malformed() {
    let xml = "not xml at all";
    let result = parse_xml_body(xml);
    assert!(result.is_err());
}

#[test]
fn test_parse_xml_auth_error_tags() {
    let xml = r#"<OpenAPI_ServiceResponse><cmmMsgHeader>
        <errMsg>SERVICE ERROR</errMsg>
        <returnReasonCode>12</returnReasonCode>
        <returnAuthMsg>SERVICE_KEY_IS_NOT_REGISTERED_ERROR</returnAuthMsg>
    </cmmMsgHeader></OpenAPI_ServiceResponse>"#;
    let value = parse_xml_body(xml).unwrap();
    let msg = find_by_key(&value, "returnAuthMsg").expect("returnAuthMsg 없음");
    assert_eq!(as_str(msg), Some("SERVICE_KEY_IS_NOT_REGISTERED_ERROR"));
}

#[test]
fn parse_xml_repeated_tags_become_an_array() {
    let value = parse_xml_body("<items><item>a</item><item>b</item><item>c</item><empty/></items>").unwrap();
    match &value {
        Json::Object(root) => {
            assert_eq!(root.len(), 1);
            assert_eq!(root[0].0, "items");
            match &root[0].1 {
                Json::Object(m) => {
                    assert_eq!(m[0].0, "item");
                    match &m[0].1 {
                        Json::Array(a) => {
                            let texts: Vec<Option<&str>> = a.iter().map(as_str).collect();
                            assert_eq!(texts, vec![Some("a"), Some("b"), Some("c")]);
                        }
                        other => panic!("expected an array, got {:?}", other),
                    }
                    assert_eq!(m[1].0, "empty");
                    assert!(matches!(m[1].1, Json::Null));
                }
                other => panic!("expected an object, got {:?}", other),
            }
        }
        other => panic!("expected an object, got {:?}", other),
    }
}

#[test]
fn parse_xml_mixed_text_goes_under_text_key() {
    let value = parse_xml_body("<a>hello<b>x</b></a>").unwrap();
    let inner = find_by_key(&value, "$text").expect("$text missing");
    assert_eq!(as_str(inner), Some("hello"));
}

#[test]
fn parse_xml_unbalanced_end_is_an_error() {
    assert!(matches!(parse_xml_body("</a>"), Err(XmlError::StackUnderflow) | Err(XmlError::Syntax { .. })));
    assert!(matches!(parse_xml_body(""), Err(XmlError::NoRoot)));
}

#[test]
fn apply_auth_places_the_key() {
    match apply_auth(&AuthMethod::QueryParam { name: "serviceKey".into() }, "K") {
        AuthPlacement::Query { name, value } => {
            assert_eq!(name, "serviceKey");
            assert_eq!(value, "K");
        }
        other => panic!("unexpected {:?}", other),
    }
    match apply_auth(&AuthMethod::Header { name: "Authorization".into(), prefix: "Infuser ".into() }, "K") {
        AuthPlacement::Header { name, value } => {
            assert_eq!(name, "Authorization");
            assert_eq!(value, "Infuser K");
        }
        other => panic!("unexpected {:?}", other),
    }
    let both_header = AuthMethod::Both {
        query: "serviceKey".into(),
        header_name: "Authorization".into(),
        header_prefix: "Infuser ".into(),
        prefer: AuthPreference::Header,
    };
    assert!(matches!(apply_auth(&both_header, "K"), AuthPlacement::NoAuth));
    assert!(matches!(apply_auth(&AuthMethod::NoAuth, "K"), AuthPlacement::NoAuth));
}

#[test]
fn build_url_joins_with_one_slash() {
    assert_eq!(build_url("https://a.kr/v1//", "/items"), "https://a.kr/v1/items");
    assert_eq!(build_url("https://a.kr/v1", "items"), "https://a.kr/v1/items");
}

#[test]
fn plan_call_get_and_unknown_operation() {
    let spec = make_test_spec();
    let params = pairs(&[("page", "2")]);
    let plan = plan_call(&spec, "아이템 조회", &params, "KEY").unwrap();
    assert_eq!(plan.method, HttpMethod::Get);
    assert_eq!(plan.url, "https://api.odcloud.kr/api/test/v1/items");
    assert_eq!(plan.query, params);
    assert!(!plan.json_body);
    match plan_call(&spec, "/nope", &params, "KEY") {
        Err(CallError::OperationNotFound { operation, available }) => {
            assert_eq!(operation, "/nope");
            assert_eq!(available, pairs(&[("/items", "아이템 조회")]));
        }
        Ok(p) => panic!("unexpected plan {:?}", p),
    }
}

#[test]
fn plan_call_post_sends_a_json_body() {
    let mut spec = make_test_spec();
    spec.operations[0].method = HttpMethod::Post;
    let plan = plan_call(&spec, "/items", &pairs(&[("b_no", "[\"1\"]")]), "KEY").unwrap();
    assert!(plan.json_body);
    assert!(plan.query.is_empty());
}

#[test]
fn build_json_body_uses_parsed_values_and_last_wins() {
    let params = pairs(&[("a", "1"), ("b", "x"), ("a", "2")]);
    let parsed = vec![Some(Json::Str("one".into())), None, Some(Json::Bool(true))];
    match build_json_body(&params, parsed) {
        Json::Object(m) => {
            assert_eq!(m.len(), 2);
            assert_eq!(m[0].0, "a");
            assert!(matches!(m[0].1, Json::Bool(true)));
            assert_eq!(m[1].0, "b");
            assert_eq!(as_str(&m[1].1), Some("x"));
        }
        other => panic!("unexpected {:?}", other),
    }
}

#[test]
fn extract_data_follows_the_path_or_returns_the_body() {
    let spec = make_test_spec();
    let body = Json::Object(vec![("data".into(), Json::Array(vec![Json::Null]))]);
    assert!(matches!(extract_data(&body, &spec.extractor), Json::Array(_)));
    let other = Json::Object(vec![("items".into(), Json::Null)]);
    assert!(matches!(extract_data(&other, &spec.extractor), Json::Object(_)));
}

#[test]
fn build_response_success_and_failure() {
    let spec = make_test_spec();
    let body = Json::Object(vec![("data".into(), Json::Str("ok".into()))]);
    let ok = build_response(&spec, "/items", 200, &body, String::new());
    assert!(ok.success);
    assert_eq!(ok.raw_status, Some(200));
    assert_eq!(ok.data.as_ref().and_then(as_str), Some("ok"));
    let meta = ok.metadata.expect("metadata");
    assert_eq!(find_by_key(&meta, "api_title").and_then(as_str), Some("test"));
    assert_eq!(find_by_key(&meta, "operation").and_then(as_str), Some("/items"));

    let bad = build_response(&spec, "/items", 401, &body, "denied".into());
    assert!(!bad.success);
    assert_eq!(bad.error.as_deref(), Some("HTTP_401"));
    assert_eq!(bad.message.as_deref(), Some("denied"));
    assert_eq!(bad.action.as_deref(), Some("Check API key and parameters"));
    assert!(bad.data.is_none());
}

#[test]
fn parse_xml_unescapes_text_and_keeps_cdata() {
    let value = parse_xml_body("<r><a>x &amp; y &lt;z&gt;</a><b><![CDATA[1 < 2]]></b></r>").unwrap();
    assert_eq!(find_by_key(&value, "a").and_then(as_str), Some("x & y <z>"));
    assert_eq!(find_by_key(&value, "b").and_then(as_str), Some("1 < 2"));
}

#[test]
fn call_error_message_lists_the_operations() {
    let spec = make_test_spec();
    match plan_call(&spec, "/nope", &[], "KEY") {
        Err(e) => assert_eq!(e.message(), "Operation '/nope' not found. Available: /items (아이템 조회)"),
        Ok(_) => panic!("expected an error"),
    }
}
