use korea_cli::json::{Json, JsonNumber};
use korea_cli::swagger::{
    extract_body_fields, extract_swagger_json_text, extract_swagger_url, format_param_type, parse_auth,
    parse_parameters, parse_response_fields, parse_swagger, parse_swagger_at,
};
use korea_cli::types::{ApiProtocol, AuthMethod, AuthPreference, ContentType, HttpMethod, ParamLocation};

fn to_json(v: &serde_json::Value) -> Json {
    match v {
        serde_json::Value::Null => Json::Null,
        serde_json::Value::Bool(b) => Json::Bool(*b),
        serde_json::Value::Number(n) => {
            if let Some(u) = n.as_u64() {
                Json::Number(JsonNumber::Unsigned(u))
            } else if let Some(i) = n.as_i64() {
                Json::Number(JsonNumber::Negative(i))
            } else {
                Json::Number(JsonNumber::Fractional(n.to_string()))
            }
        }
        serde_json::Value::String(s) => Json::Str(s.clone()),
        serde_json::Value::Array(a) => Json::Array(a.iter().map(to_json).collect()),
        serde_json::Value::Object(m) => Json::Object(m.iter().map(|(k, x)| (k.clone(), to_json(x))).collect()),
    }
}

fn parse(text: &str) -> Json {
    to_json(&serde_json::from_str::<serde_json::Value>(text).unwrap())
}

#[test]
fn test_extract_swagger_url() {
    let html = r#"
            var swaggerUrl = 'https://api.odcloud.kr/spec/15081808';
            some other content
        "#;
    assert_eq!(extract_swagger_url(html), Some("https://api.odcloud.kr/spec/15081808".to_string()));
}

#[test]
fn test_extract_swagger_url_no_match() {
    let html = "no swagger url here";
    assert_eq!(extract_swagger_url(html), None);
}

#[test]
fn extract_swagger_json_text_needs_a_non_empty_literal() {
    assert_eq!(extract_swagger_json_text("var  swaggerJson=`{\"a\":1}`;").as_deref(), Some("{\"a\":1}"));
    assert_eq!(extract_swagger_json_text("var swaggerJson = ``"), None);
    assert_eq!(extract_swagger_json_text("varswaggerJson = `x`"), None);
}

#[test]
fn test_parse_auth_both() {
    let spec = parse(
        r#"{"securityDefinitions": {
            "key1": { "type": "apiKey", "in": "query", "name": "serviceKey" },
            "key2": { "type": "apiKey", "in": "header", "name": "Authorization" }
        }}"#,
    );
    let auth = parse_auth(&spec);
    assert!(matches!(auth, AuthMethod::Both { .. }));
}

#[test]
fn test_parse_auth_query_only() {
    let spec = parse(r#"{"securityDefinitions": {"key1": { "type": "apiKey", "in": "query", "name": "serviceKey" }}}"#);
    let auth = parse_auth(&spec);
    assert!(matches!(auth, AuthMethod::QueryParam { .. }));
}

#[test]
fn test_parse_auth_header_only() {
    let spec = parse(r#"{"securityDefinitions": {"key1": { "type": "apiKey", "in": "header", "name": "Authorization" }}}"#);
    let auth = parse_auth(&spec);
    assert!(matches!(auth, AuthMethod::Header { .. }));
}

#[test]
fn test_parse_auth_none() {
    let spec = parse("{}");
    let auth = parse_auth(&spec);
    assert!(matches!(auth, AuthMethod::NoAuth));
}

#[test]
fn parse_auth_both_details() {
    let spec = parse(
        r#"{"securityDefinitions": {
            "a": { "type": "apiKey", "in": "query", "name": "serviceKey" },
            "b": { "type": "apiKey", "in": "header", "name": "Authorization" }
        }}"#,
    );
    match parse_auth(&spec) {
        AuthMethod::Both { query, header_name, header_prefix, prefer } => {
            assert_eq!(query, "serviceKey");
            assert_eq!(header_name, "Authorization");
            assert_eq!(header_prefix, "Infuser ");
            assert_eq!(prefer, AuthPreference::Query);
        }
        other => panic!("unexpected {:?}", other),
    }
}

#[test]
fn test_parse_parameters_skips_service_key() {
    let details = parse(
        r#"{"parameters": [
            { "name": "serviceKey", "in": "query", "type": "string" },
            { "name": "Authorization", "in": "header", "type": "string" },
            { "name": "pageNo", "in": "query", "type": "integer", "required": false, "description": "페이지번호" }
        ]}"#,
    );
    let (params, body) = parse_parameters(&details);
    assert_eq!(params.len(), 1);
    assert_eq!(params[0].name, "pageNo");
    assert!(body.is_none());
}

#[test]
fn parse_parameters_reads_location_type_and_default() {
    let details = parse(
        r#"{"parameters": [
            { "name": "id", "in": "path", "type": "string", "required": true, "default": "7" }
        ]}"#,
    );
    let (params, _) = parse_parameters(&details);
    assert_eq!(params.len(), 1);
    assert_eq!(params[0].location, ParamLocation::Path);
    assert_eq!(params[0].param_type, "string");
    assert!(params[0].required);
    assert_eq!(params[0].default.as_deref(), Some("7"));
}

#[test]
fn test_parse_parameters_body() {
    let details = parse(
        r#"{"parameters": [
            {
                "name": "body",
                "in": "body",
                "schema": {
                    "type": "object",
                    "properties": {
                        "b_no": { "type": "array", "items": { "type": "string" }, "description": "사업자번호" }
                    }
                }
            }
        ]}"#,
    );
    let (params, body) = parse_parameters(&details);
    assert!(params.is_empty());
    let body = body.unwrap();
    assert_eq!(body.fields.len(), 1);
    assert_eq!(body.fields[0].name, "b_no");
    assert_eq!(body.fields[0].param_type, "array(string)");
}

#[test]
fn test_parse_response_fields() {
    let details = parse(
        r#"{"responses": {
            "200": {
                "schema": {
                    "type": "object",
                    "properties": {
                        "status_code": { "type": "string", "description": "상태코드" },
                        "data": { "type": "array", "items": { "type": "object" }, "description": "결과" }
                    }
                }
            }
        }}"#,
    );
    let fields = parse_response_fields(&details);
    assert_eq!(fields.len(), 2);
}

#[test]
fn format_param_type_defaults_and_arrays() {
    assert_eq!(format_param_type(&parse("{}")), "string");
    assert_eq!(format_param_type(&parse(r#"{"type": "integer"}"#)), "integer");
    assert_eq!(format_param_type(&parse(r#"{"type": "array"}"#)), "array(string)");
    assert_eq!(format_param_type(&parse(r#"{"type": "array", "items": {"type": "number"}}"#)), "array(number)");
    assert!(extract_body_fields(&parse("{}")).is_empty());
}

#[test]
fn test_parse_swagger_full() {
    let spec_json = parse(
        r#"{
            "swagger": "2.0",
            "info": { "title": "Test API" },
            "host": "api.odcloud.kr",
            "basePath": "/api/test/v1",
            "schemes": ["https"],
            "securityDefinitions": {
                "api_key": { "type": "apiKey", "in": "query", "name": "serviceKey" }
            },
            "paths": {
                "/items": {
                    "get": {
                        "summary": "목록 조회",
                        "produces": ["application/json"],
                        "parameters": [
                            { "name": "page", "in": "query", "type": "integer", "required": false, "description": "페이지" }
                        ],
                        "responses": {
                            "200": {
                                "schema": {
                                    "type": "object",
                                    "properties": {
                                        "data": { "type": "array", "items": { "type": "object" } }
                                    }
                                }
                            }
                        }
                    }
                }
            }
        }"#,
    );
    let api_spec = parse_swagger("12345", &spec_json).unwrap();
    assert_eq!(api_spec.list_id, "12345");
    assert_eq!(api_spec.base_url, "https://api.odcloud.kr/api/test/v1");
    assert!(matches!(api_spec.protocol, ApiProtocol::InfuserRest));
    assert!(matches!(api_spec.auth, AuthMethod::QueryParam { .. }));
    assert_eq!(api_spec.operations.len(), 1);
    assert_eq!(api_spec.operations[0].path, "/items");
    assert!(matches!(api_spec.operations[0].method, HttpMethod::Get));
    assert_eq!(api_spec.operations[0].parameters.len(), 1);
    assert_eq!(api_spec.operations[0].response_fields.len(), 1);
    assert!(!api_spec.fetched_at.is_empty());
}

#[test]
fn test_parse_swagger_spec() {
    let spec_json = parse(
        r#"{
            "swagger": "2.0",
            "info": { "title": "사업자등록정보 서비스" },
            "host": "api.odcloud.kr",
            "basePath": "/api/nts-businessman/v1",
            "schemes": ["https"],
            "securityDefinitions": {
                "api_key": { "type": "apiKey", "in": "query", "name": "serviceKey" },
                "api_key_header": { "type": "apiKey", "in": "header", "name": "Authorization" }
            },
            "paths": {
                "/status": {
                    "post": {
                        "summary": "상태조회",
                        "consumes": ["application/json"],
                        "produces": ["application/json"],
                        "parameters": [
                            {
                                "name": "body",
                                "in": "body",
                                "required": true,
                                "schema": {
                                    "type": "object",
                                    "properties": {
                                        "b_no": {
                                            "type": "array",
                                            "items": { "type": "string" },
                                            "description": "사업자등록번호 배열"
                                        }
                                    }
                                }
                            }
                        ]
                    }
                }
            }
        }"#,
    );
    let api_spec = parse_swagger("15081808", &spec_json).unwrap();
    assert_eq!(api_spec.list_id, "15081808");
    assert_eq!(api_spec.base_url, "https://api.odcloud.kr/api/nts-businessman/v1");
    assert_eq!(api_spec.operations.len(), 1);
    let op = &api_spec.operations[0];
    assert_eq!(op.path, "/status");
    assert!(matches!(op.method, HttpMethod::Post));
    assert_eq!(op.summary, "상태조회");
    let body = op.request_body.as_ref().unwrap();
    assert_eq!(body.fields.len(), 1);
    assert_eq!(body.fields[0].name, "b_no");
    assert_eq!(op.content_type, ContentType::Json);
}

#[test]
fn parse_swagger_at_protocol_and_defaults() {
    let gateway = parse(r#"{"host": "apis.data.go.kr", "paths": {"/x": {"PATCH": {}, "Get": {}}}}"#);
    let s = parse_swagger_at("9", &gateway, "now".into());
    assert_eq!(s.base_url, "https://apis.data.go.kr");
    assert!(matches!(s.protocol, ApiProtocol::DataGoKrRest));
    assert_eq!(s.fetched_at, "now");
    assert_eq!(s.operations.len(), 1);
    assert!(matches!(s.operations[0].method, HttpMethod::Get));
    assert_eq!(s.operations[0].content_type, ContentType::Unspecified);
    let other = parse_swagger_at("9", &parse(r#"{"host": "example.com", "schemes": ["http"]}"#), String::new());
    assert_eq!(other.base_url, "http://example.com");
    assert!(matches!(other.protocol, ApiProtocol::ExternalRest));
}

#[test]
fn parse_swagger_stamps_a_timestamp_of_the_fixed_shape() {
    let spec = parse_swagger("1", &Json::Object(vec![])).unwrap();
    let t: Vec<char> = spec.fetched_at.chars().collect();
    assert_eq!(t.len(), 19, "{}", spec.fetched_at);
    for (i, c) in t.iter().enumerate() {
        match i {
            4 | 7 => assert_eq!(*c, '-'),
            10 => assert_eq!(*c, 'T'),
            13 | 16 => assert_eq!(*c, ':'),
            _ => assert!(c.is_ascii_digit()),
        }
    }
}
