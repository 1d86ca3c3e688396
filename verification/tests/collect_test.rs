use korea_cli::collect::{
    assemble_catalog, gateway_form, gateway_outcome, gateway_public_pk, portal_page_url, route_page,
    swagger_url_outcome, PageRoute, SpecResult,
};
use korea_cli::html_parser::{build_api_spec_at, PageInfo, ParsedOperation};
use korea_cli::json::{Json, JsonNumber};
use korea_cli::types::{ApiService, ApiSpec, SpecStatus};

fn to_json(v: &serde_json::Value) -> Json {
    match v {
        serde_json::Value::Null => Json::Null,
        serde_json::Value::Bool(b) => Json::Bool(*b),
        serde_json::Value::Number(n) => {
            if let Some(u) = n.as_u64() {
                Json::Number(JsonNumber::Unsigned(u))
            } else if let Some(i) = n.as_i64() {
                Json::Number(JsonNumber::Negative(i))
            } else {
                Json::Number(JsonNumber::Fractional(n.to_string()))
            }
        }
        serde_json::Value::String(s) => Json::Str(s.clone()),
        serde_json::Value::Array(a) => Json::Array(a.iter().map(to_json).collect()),
        serde_json::Value::Object(m) => Json::Object(m.iter().map(|(k, x)| (k.clone(), to_json(x))).collect()),
    }
}

fn parse(text: &str) -> Json {
    to_json(&serde_json::from_str::<serde_json::Value>(text).unwrap())
}

fn op(url: &str) -> ParsedOperation {
    ParsedOperation {
        request_url: url.into(),
        service_url: String::new(),
        summary: "s".into(),
        parameters: vec![],
        response_fields: vec![],
    }
}

fn spec_with_ops(list_id: &str, n: usize) -> ApiSpec {
    if n == 0 {
        let mut s = build_api_spec_at(list_id, &[op("https://a/b")], "t".into()).unwrap();
        s.operations.clear();
        s
    } else {
        let ops: Vec<ParsedOperation> = (0..n).map(|i| op(&format!("https://a/op{i}"))).collect();
        build_api_spec_at(list_id, &ops, "t".into()).unwrap()
    }
}

fn service(list_id: &str, url: &str) -> ApiService {
    ApiService {
        list_id: list_id.into(),
        title: format!("서비스 {list_id}"),
        description: String::new(),
        keywords: vec![],
        org_name: "기관".into(),
        category: "교통".into(),
        endpoint_url: url.into(),
        data_format: "JSON".into(),
        auto_approve: true,
        is_free: true,
        request_count: 3,
        updated_at: String::new(),
        operations: vec![],
    }
}

#[test]
fn portal_page_address() {
    assert_eq!(portal_page_url("15084084"), "https://www.data.go.kr/data/15084084/openapi.do");
}

#[test]
fn route_link_api_page_to_external_link() {
    let html = r#"
        <html><body>
            <script>var tyDetailCode = 'PRDE04';</script>
            <input type="hidden" id="publicDataDetailPk" value="uddi:ext-1">
            <a class="link-api-btn" href="https://www.kma.go.kr/api">외부 링크</a>
        </body></html>
        "#;
    match route_page("1", html, None) {
        PageRoute::Done(SpecResult::ExternalLink { url }) => {
            assert_eq!(url.as_deref(), Some("https://www.kma.go.kr/api"))
        }
        other => panic!("unexpected {other:?}"),
    }
}

#[test]
fn route_inline_swagger_to_spec() {
    let inline = parse(r#"{"paths":{"/items":{"get":{"summary":"목록"}}}}"#);
    match route_page("9", "<html></html>", Some(&inline)) {
        PageRoute::Done(SpecResult::Spec { spec, is_gateway }) => {
            assert!(!is_gateway);
            assert_eq!(spec.list_id, "9");
            assert_eq!(spec.operations.len(), 1);
        }
        other => panic!("unexpected {other:?}"),
    }
}

#[test]
fn route_swagger_url_to_fetch() {
    let html = "var swaggerUrl = 'https://api.odcloud.kr/spec/1';";
    match route_page("1", html, None) {
        PageRoute::FetchSwagger(u) => assert_eq!(u, "https://api.odcloud.kr/spec/1"),
        other => panic!("unexpected {other:?}"),
    }
}

#[test]
fn route_operation_select_to_gateway() {
    let html = r#"
        <html><body>
            <input type="hidden" name="publicDataDetailPk" value="uddi:g-1">
            <select id="open_api_detail_select">
                <option value="1001">getWeather</option>
            </select>
        </body></html>
        "#;
    match route_page("1", html, None) {
        PageRoute::Gateway(info) => {
            assert_eq!(info.public_data_detail_pk, "uddi:g-1");
            assert_eq!(info.operations.len(), 1);
        }
        other => panic!("unexpected {other:?}"),
    }
}

#[test]
fn route_nothing_to_bail() {
    match route_page("1", "<html><body>nothing</body></html>", None) {
        PageRoute::Done(SpecResult::Bail { reason }) => assert_eq!(reason, "swaggerJson/swaggerUrl/Gateway 모두 없음"),
        other => panic!("unexpected {other:?}"),
    }
}

#[test]
fn swagger_fetch_failure_is_a_bail() {
    match swagger_url_outcome("1", Err("timeout".into())) {
        SpecResult::Bail { reason } => assert_eq!(reason, "Swagger URL 실패: timeout"),
        other => panic!("unexpected {other:?}"),
    }
    match swagger_url_outcome("1", Ok(parse(r#"{"paths":{}}"#))) {
        SpecResult::Spec { spec, is_gateway } => {
            assert!(!is_gateway);
            assert!(spec.operations.is_empty());
        }
        other => panic!("unexpected {other:?}"),
    }
}

#[test]
fn gateway_pk_falls_back_to_list_id() {
    let mut info = PageInfo {
        public_data_detail_pk: "uddi:x".into(),
        public_data_pk: None,
        ty_detail_code: None,
        operations: vec![],
        external_url: None,
    };
    assert_eq!(gateway_public_pk(&info, "15"), "15");
    info.public_data_pk = Some(String::new());
    assert_eq!(gateway_public_pk(&info, "15"), "15");
    info.public_data_pk = Some("99".into());
    assert_eq!(gateway_public_pk(&info, "15"), "99");
}

#[test]
fn gateway_form_fields() {
    let f = gateway_form("1001", "uddi:x", "15");
    assert_eq!(
        f,
        vec![
            ("oprtinSeqNo".to_string(), "1001".to_string()),
            ("publicDataDetailPk".to_string(), "uddi:x".to_string()),
            ("publicDataPk".to_string(), "15".to_string()),
        ]
    );
}

#[test]
fn gateway_outcomes() {
    match gateway_outcome("1", &[], 4) {
        SpecResult::Bail { reason } => assert_eq!(reason, "Gateway AJAX 전부 실패 (0/4 ops)"),
        other => panic!("unexpected {other:?}"),
    }
    match gateway_outcome("1", &[op("https://a/b")], 2) {
        SpecResult::Spec { spec, is_gateway } => {
            assert!(is_gateway);
            assert_eq!(spec.operations.len(), 1);
        }
        other => panic!("unexpected {other:?}"),
    }
    match gateway_outcome("1", &[op("")], 3) {
        SpecResult::Bail { reason } => assert_eq!(reason, "Gateway build_api_spec 실패 (1/3 ops)"),
        other => panic!("unexpected {other:?}"),
    }
}

#[test]
fn assemble_catalog_classifies_each_service() {
    let services = vec![
        service("A", "https://apis.data.go.kr/a"),
        service("B", "https://apis.data.go.kr/b"),
        service("C", "https://apis.data.go.kr/c"),
        service("D", ""),
    ];
    let results = vec![
        ("A".to_string(), SpecResult::Spec { spec: spec_with_ops("A", 2), is_gateway: false }),
        ("B".to_string(), SpecResult::Spec { spec: spec_with_ops("B", 0), is_gateway: false }),
        ("C".to_string(), SpecResult::ExternalLink { url: Some("https://ext.example/c".into()) }),
        ("D".to_string(), SpecResult::Bail { reason: "x".into() }),
    ];
    let (catalog, specs) = assemble_catalog(&services, results);
    assert_eq!(catalog.len(), 4);
    assert_eq!(catalog[0].spec_status, SpecStatus::Available);
    assert_eq!(catalog[1].spec_status, SpecStatus::Skeleton);
    assert_eq!(catalog[2].spec_status, SpecStatus::External);
    assert_eq!(catalog[2].endpoint_url, "https://ext.example/c");
    assert_eq!(catalog[3].spec_status, SpecStatus::CatalogOnly);
    assert_eq!(specs.len(), 1);
    assert_eq!(specs[0].0, "A");
    assert_eq!(specs[0].1.operations.len(), 2);
}

#[test]
fn assemble_catalog_later_finding_wins() {
    let services = vec![service("A", "https://apis.data.go.kr/a")];
    let results = vec![
        ("A".to_string(), SpecResult::Spec { spec: spec_with_ops("A", 1), is_gateway: false }),
        ("A".to_string(), SpecResult::Spec { spec: spec_with_ops("A", 3), is_gateway: true }),
    ];
    let (catalog, specs) = assemble_catalog(&services, results);
    assert_eq!(catalog[0].spec_status, SpecStatus::Available);
    assert_eq!(specs.len(), 1);
    assert_eq!(specs[0].1.operations.len(), 3);
}
