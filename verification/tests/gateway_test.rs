use korea_cli::gateway::{
    build_default_params, decimal_chars, extract_result_code, extract_result_code_from_value, extract_tag,
    find_key_recursive, number_to_string, pick_easy_operation,
};
use korea_cli::json::{Json, JsonNumber};
use korea_cli::types::{
    ApiProtocol, ApiSpec, AuthMethod, ContentType, ErrorCheck, HttpMethod, Operation, ParamLocation,
    Parameter, ResponseExtractor, ResponseFormat,
};

const SKIPPABLE_ERROR_CODES: &[&str] = &[
    "SERVICE_ACCESS_DENIED_ERROR",
    "SERVICE_KEY_IS_NOT_REGISTERED_ERROR",
    "TEMPORARILY_DISABLE_THE_SERVICEKEY_ERROR",
    "UNREGISTERED_IP_ERROR",
    "DEADLINE_HAS_EXPIRED_ERROR",
];

fn to_json(v: &serde_json::Value) -> Json {
    match v {
        serde_json::Value::Null => Json::Null,
        serde_json::Value::Bool(b) => Json::Bool(*b),
        serde_json::Value::Number(n) => {
            if let Some(u) = n.as_u64() {
                Json::Number(JsonNumber::Unsigned(u))
            } else if let Some(i) = n.as_i64() {
                Json::Number(JsonNumber::Negative(i))
            } else {
                Json::Number(JsonNumber::Fractional(n.to_string()))
            }
        }
        serde_json::Value::String(s) => Json::Str(s.clone()),
        serde_json::Value::Array(a) => Json::Array(a.iter().map(to_json).collect()),
        serde_json::Value::Object(m) => Json::Object(m.iter().map(|(k, x)| (k.clone(), to_json(x))).collect()),
    }
}

fn parse(text: &str) -> Json {
    to_json(&serde_json::from_str::<serde_json::Value>(text).unwrap())
}

fn param(name: &str, required: bool, default: Option<&str>) -> Parameter {
    Parameter {
        name: name.into(),
        description: String::new(),
        location: ParamLocation::Query,
        param_type: "string".into(),
        required,
        default: default.map(|d| d.to_string()),
    }
}

fn operation(path: &str, parameters: Vec<Parameter>) -> Operation {
    Operation {
        path: path.into(),
        method: HttpMethod::Get,
        summary: String::new(),
        content_type: ContentType::Unspecified,
        parameters,
        request_body: None,
        response_fields: vec![],
    }
}

fn spec(operations: Vec<Operation>) -> ApiSpec {
    ApiSpec {
        list_id: "1".into(),
        base_url: "https://apis.data.go.kr/x".into(),
        protocol: ApiProtocol::DataGoKrRest,
        auth: AuthMethod::NoAuth,
        extractor: ResponseExtractor {
            data_path: vec![],
            error_check: ErrorCheck::HttpStatus,
            pagination: None,
            format: ResponseFormat::Xml,
        },
        operations,
        fetched_at: String::new(),
        missing_operations: vec![],
    }
}

#[test]
fn test_extract_result_code_xml() {
    let xml = "<response><header><resultCode>00</resultCode></header></response>";
    assert_eq!(extract_result_code(xml), "00");
}

#[test]
fn test_extract_result_code_return_auth_msg() {
    let xml = "<OpenAPI_ServiceResponse><cmmMsgHeader><errMsg>SERVICE ERROR</errMsg><returnReasonCode>12</returnReasonCode><returnAuthMsg>SERVICE_KEY_IS_NOT_REGISTERED_ERROR</returnAuthMsg></cmmMsgHeader></OpenAPI_ServiceResponse>";
    let code = extract_result_code(xml);
    assert_eq!(code, "SERVICE_KEY_IS_NOT_REGISTERED_ERROR");
    assert!(SKIPPABLE_ERROR_CODES.iter().any(|c| code.contains(c)));
}

#[test]
fn test_extract_result_code_errmsg_fallback() {
    let xml = "<root><errMsg>fallback error</errMsg></root>";
    assert_eq!(extract_result_code(xml), "fallback error");
}

#[test]
fn test_extract_result_code_from_value_nested() {
    let v = parse(r#"{"response": {"header": {"resultCode": "00", "resultMsg": "NORMAL SERVICE."}}}"#);
    assert_eq!(extract_result_code_from_value(&v), "00");
}

#[test]
fn test_extract_result_code_from_value_auth_error_priority() {
    let v = parse(
        r#"{"OpenAPI_ServiceResponse": {"cmmMsgHeader": {"errMsg": "SERVICE ERROR", "returnReasonCode": "12", "returnAuthMsg": "SERVICE_KEY_IS_NOT_REGISTERED_ERROR"}}}"#,
    );
    assert_eq!(extract_result_code_from_value(&v), "SERVICE_KEY_IS_NOT_REGISTERED_ERROR");
}

#[test]
fn extract_result_code_reads_json_text_and_defaults_to_empty() {
    assert_eq!(extract_result_code(r#"{"header": {"resultCode": "03", "x": 1}}"#), "03");
    assert_eq!(extract_result_code(r#"{"resultCode": 22}"#), "22");
    assert_eq!(extract_result_code("plain text"), "");
    assert_eq!(extract_result_code("<resultCode>  </resultCode><errMsg>e</errMsg>"), "e");
}

#[test]
fn extract_tag_trims_and_needs_both_tags() {
    assert_eq!(extract_tag("<a> x </a>", "a").as_deref(), Some("x"));
    assert_eq!(extract_tag("<a>x", "a"), None);
    assert_eq!(extract_tag("no tags", "a"), None);
}

#[test]
fn find_key_recursive_reads_numbers_and_arrays() {
    let v = parse(r#"{"items": [{"other": 1}, {"code": 42}], "flag": true}"#);
    assert_eq!(find_key_recursive(&v, "code").as_deref(), Some("42"));
    assert_eq!(find_key_recursive(&v, "flag"), None);
    assert_eq!(find_key_recursive(&v, "missing"), None);
    assert_eq!(extract_result_code_from_value(&parse(r#"{"a": {"resultCode": -5}}"#)), "-5");
}

#[test]
fn numbers_print_as_decimal_text() {
    assert_eq!(decimal_chars(0), vec!['0']);
    assert_eq!(decimal_chars(1205), vec!['1', '2', '0', '5']);
    assert_eq!(number_to_string(&JsonNumber::Unsigned(18446744073709551615)), "18446744073709551615");
    assert_eq!(number_to_string(&JsonNumber::Negative(-42)), "-42");
    assert_eq!(number_to_string(&JsonNumber::Fractional("1.5".into())), "1.5");
}

#[test]
fn pick_easy_operation_prefers_fewest_required_first_on_tie() {
    let s = spec(vec![
        operation("/a", vec![param("x", true, None), param("y", true, None)]),
        operation("/b", vec![param("x", true, None), param("z", false, None)]),
        operation("/c", vec![param("w", true, None)]),
    ]);
    assert_eq!(pick_easy_operation(&s).unwrap().path, "/b");
    assert!(pick_easy_operation(&spec(vec![])).is_none());
}

#[test]
fn build_default_params_adds_required_once() {
    let op = operation(
        "/a",
        vec![
            param("pageNo", true, Some("5")),
            param("base_date", true, None),
            param("nx", true, Some("60")),
            param("opt", false, Some("1")),
            param("nx", true, Some("61")),
        ],
    );
    let params = build_default_params(&op);
    let expected: Vec<(String, String)> = [("pageNo", "1"), ("numOfRows", "1"), ("base_date", "20250101"), ("nx", "60")]
        .iter()
        .map(|(k, v)| (k.to_string(), v.to_string()))
        .collect();
    assert_eq!(params, expected);
}
