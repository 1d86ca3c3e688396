use korea_cli::catalog::{parse_csv, parse_meta_response, parse_quoted_csv, search_bundle_catalog, MetaError};
use korea_cli::json::{Json, JsonNumber};
use korea_cli::types::{CatalogEntry, SpecStatus};

fn to_json(v: &serde_json::Value) -> Json {
    match v {
        serde_json::Value::Null => Json::Null,
        serde_json::Value::Bool(b) => Json::Bool(*b),
        serde_json::Value::Number(n) => {
            if let Some(u) = n.as_u64() {
                Json::Number(JsonNumber::Unsigned(u))
            } else if let Some(i) = n.as_i64() {
                Json::Number(JsonNumber::Negative(i))
            } else {
                Json::Number(JsonNumber::Fractional(n.to_string()))
            }
        }
        serde_json::Value::String(s) => Json::Str(s.clone()),
        serde_json::Value::Array(a) => Json::Array(a.iter().map(to_json).collect()),
        serde_json::Value::Object(m) => Json::Object(m.iter().map(|(k, x)| (k.clone(), to_json(x))).collect()),
    }
}

fn parse(text: &str) -> Json {
    to_json(&serde_json::from_str::<serde_json::Value>(text).unwrap())
}

fn entry(list_id: &str, title: &str, description: &str, keywords: &[&str], org: &str, category: &str, count: u32, url: &str, status: SpecStatus) -> CatalogEntry {
    CatalogEntry {
        list_id: list_id.into(),
        title: title.into(),
        description: description.into(),
        keywords: keywords.iter().map(|k| k.to_string()).collect(),
        org_name: org.into(),
        category: category.into(),
        request_count: count,
        endpoint_url: url.into(),
        spec_status: status,
    }
}

#[test]
fn catalog_test_search_bundle_catalog() {
    let catalog = vec![
        entry("111", "기상청 단기예보", "날씨 예보 API", &["기상", "날씨"], "기상청", "과학기술", 500, "https://apis.data.go.kr/weather", SpecStatus::Available),
        entry("222", "사업자등록 조회", "사업자번호 진위확인", &["사업자"], "국세청", "산업경제", 1000, "https://api.odcloud.kr/nts", SpecStatus::Available),
    ];
    let result = search_bundle_catalog(&catalog, "기상청", None, 10);
    assert_eq!(result.total, 1);
    assert_eq!(result.results[0].list_id, "111");
    assert_eq!(result.results[0].category, "과학기술");
    assert_eq!(result.results[0].spec_status, SpecStatus::Available);
    assert_eq!(result.results[0].endpoint_url, "https://apis.data.go.kr/weather");
}

#[test]
fn test_search_bundle_catalog_category_filter() {
    let catalog = vec![
        entry("111", "기상청 API", "", &[], "기상청", "과학기술", 100, "", SpecStatus::CatalogOnly),
        entry("222", "기상 관련", "", &[], "환경부", "산업경제", 200, "", SpecStatus::CatalogOnly),
    ];
    let result = search_bundle_catalog(&catalog, "기상", Some("과학기술"), 10);
    assert_eq!(result.total, 1);
    assert_eq!(result.results[0].list_id, "111");
}

#[test]
fn test_search_bundle_catalog_scoring() {
    let catalog = vec![
        entry("111", "사업자 조회", "사업자 등록 상태 조회", &["사업자"], "국세청", "", 100, "", SpecStatus::Available),
        entry("222", "사업자 등록 확인", "사업자 번호", &["사업자", "등록"], "국세청", "", 50, "", SpecStatus::Skeleton),
    ];
    let result = search_bundle_catalog(&catalog, "사업자 등록", None, 10);
    assert_eq!(result.total, 2);
}

#[test]
fn catalog_test_test_search_bundle_catalog() {
    let catalog = vec![
        entry("15081808", "국세청_사업자등록정보 서비스", "사업자 등록 정보 조회", &["사업자", "국세청"], "국세청", "공공행정", 1234, "https://api.odcloud.kr/api/nts-businessman/v1", SpecStatus::Available),
        entry("15095478", "한국공항공사_공항 소요시간 정보", "공항 내 구간별 소요시간", &["공항", "소요시간"], "한국공항공사", "교통", 500, "https://apis.data.go.kr/airport", SpecStatus::HtmlOnly),
    ];
    let results = search_bundle_catalog(&catalog, "사업자", None, 10);
    assert_eq!(results.total, 1);
    assert_eq!(results.results[0].list_id, "15081808");
    let results = search_bundle_catalog(&catalog, "공항", None, 10);
    assert_eq!(results.total, 1);
    assert_eq!(results.results[0].list_id, "15095478");
    let results = search_bundle_catalog(&catalog, "공항", Some("교통"), 10);
    assert_eq!(results.total, 1);
    let results = search_bundle_catalog(&catalog, "공항", Some("공공행정"), 10);
    assert_eq!(results.total, 0);
}

#[test]
fn search_orders_by_score_then_catalog_order_and_limits() {
    let catalog = vec![
        entry("a", "alpha", "", &[], "", "", 5, "", SpecStatus::Available),
        entry("b", "alpha beta", "", &[], "", "", 1, "", SpecStatus::Available),
        entry("c", "alpha", "", &[], "", "", 5, "", SpecStatus::Available),
    ];
    // b: 2 terms * 100 + 1 = 201; a and c: 105 each, a before c.
    let r = search_bundle_catalog(&catalog, "ALPHA beta", None, 2);
    assert_eq!(r.total, 3);
    assert_eq!(r.results.len(), 2);
    assert_eq!(r.results[0].list_id, "b");
    assert_eq!(r.results[1].list_id, "a");
    assert_eq!(r.results[1].popularity, 5);
}

#[test]
fn search_with_empty_query_matches_nothing() {
    let catalog = vec![entry("a", "alpha", "", &[], "", "", 5, "", SpecStatus::Available)];
    let r = search_bundle_catalog(&catalog, "   ", None, 10);
    assert_eq!(r.total, 0);
    assert!(r.results.is_empty());
}

#[test]
fn test_parse_meta_api_response() {
    let json = parse(r#"{
        "currentCount": 2,
        "totalCount": 17174,
        "data": [
            {
                "list_id": "15081808",
                "list_title": "국세청_사업자등록정보 진위확인 및 상태조회 서비스",
                "id": "uddi:abc",
                "title": "사업자등록정보 서비스",
                "desc": "사업자 등록 정보 조회",
                "keywords": "사업자,국세청",
                "org_nm": "국세청",
                "new_category_nm": "공공행정",
                "end_point_url": "https://api.odcloud.kr/api/nts-businessman/v1",
                "data_format": "JSON",
                "is_confirmed_for_dev": "Y",
                "is_charged": "무료",
                "request_cnt": 1234,
                "updated_at": "2024-10-01",
                "operation_nm": "상태조회",
                "operation_seq": "12345",
                "request_param_nm": "\"사업자등록번호\"",
                "request_param_nm_en": "b_no",
                "response_param_nm": "\"납세자상태명\"",
                "response_param_nm_en": "b_stt"
            },
            {
                "list_id": "15081808",
                "list_title": "국세청_사업자등록정보 진위확인 및 상태조회 서비스",
                "id": "uddi:def",
                "title": "사업자등록정보 서비스",
                "desc": "사업자 등록 정보 조회",
                "keywords": "사업자,국세청",
                "org_nm": "국세청",
                "new_category_nm": "공공행정",
                "end_point_url": "https://api.odcloud.kr/api/nts-businessman/v1",
                "data_format": "JSON",
                "is_confirmed_for_dev": "Y",
                "is_charged": "무료",
                "request_cnt": 1234,
                "updated_at": "2024-10-01",
                "operation_nm": "진위확인",
                "operation_seq": "12346",
                "request_param_nm": "\"사업자등록번호\",\"개업일자\"",
                "request_param_nm_en": "b_no,start_dt",
                "response_param_nm": "\"진위확인결과\"",
                "response_param_nm_en": "valid"
            }
        ]
    }"#);
    let services = parse_meta_response(&json).unwrap();
    assert_eq!(services.len(), 1);
    assert_eq!(services[0].list_id, "15081808");
    assert_eq!(services[0].operations.len(), 2);
    assert_eq!(services[0].operations[0].name, "상태조회");
    assert_eq!(services[0].operations[1].name, "진위확인");
    assert_eq!(services[0].keywords, vec!["사업자", "국세청"]);
    assert!(services[0].auto_approve);
    assert!(services[0].is_free);
    assert_eq!(services[0].request_count, 1234);
    assert_eq!(services[0].operations[1].request_params, vec!["사업자등록번호", "개업일자"]);
    assert_eq!(services[0].operations[1].request_params_en, vec!["b_no", "start_dt"]);
}

#[test]
fn meta_response_errors() {
    assert!(matches!(parse_meta_response(&parse(r#"{"items": []}"#)), Err(MetaError::MissingData)));
    assert!(matches!(parse_meta_response(&parse(r#"{"data": {}}"#)), Err(MetaError::DataNotArray)));
    assert!(matches!(
        parse_meta_response(&parse(r#"{"data": [{"list_id": "1"}, {"list_id": 5}]}"#)),
        Err(MetaError::InvalidEntry(1))
    ));
    assert!(matches!(
        parse_meta_response(&parse(r#"{"data": [{"list_id": "1", "request_cnt": -3}]}"#)),
        Err(MetaError::InvalidEntry(0))
    ));
}

#[test]
fn meta_response_groups_in_first_appearance_order() {
    let json = parse(r#"{"data": [
        {"list_id": "B", "operation_nm": "b1"},
        {"list_id": "A", "operation_nm": "a1", "list_title": "first"},
        {"list_id": "B", "operation_nm": "b2"},
        {"list_id": "A", "operation_nm": "a2", "list_title": "second"}
    ]}"#);
    let services = parse_meta_response(&json).unwrap();
    assert_eq!(services.len(), 2);
    assert_eq!(services[0].list_id, "B");
    assert_eq!(services[1].list_id, "A");
    assert_eq!(services[1].title, "first");
    let names: Vec<&str> = services[0].operations.iter().map(|o| o.name.as_str()).collect();
    assert_eq!(names, vec!["b1", "b2"]);
    assert!(!services[0].auto_approve);
    assert_eq!(services[0].request_count, 0);
}

#[test]
fn csv_parsing_trims_and_drops_empty_items() {
    assert_eq!(parse_csv(&Some("사업자,국세청".to_string())), vec!["사업자", "국세청"]);
    assert_eq!(parse_csv(&Some(" a , ,b ,".to_string())), vec!["a", "b"]);
    assert!(parse_csv(&None).is_empty());
    assert_eq!(
        parse_quoted_csv(&Some("\"사업자등록번호\",\"개업일자\"".to_string())),
        vec!["사업자등록번호", "개업일자"]
    );
    assert_eq!(parse_quoted_csv(&Some(" \"x\" , \"\" ".to_string())), vec!["x"]);
}

#[test]
fn search_ignores_the_ascii_case_of_query_and_entries() {
    let catalog = vec![
        entry("a", "Weather API", "", &[], "", "", 1, "", SpecStatus::Available),
        entry("b", "WEATHER forecast", "", &[], "", "", 2, "", SpecStatus::Available),
        entry("c", "traffic", "", &[], "", "", 3, "", SpecStatus::Available),
    ];
    let ids = |q: &str| -> Vec<String> {
        search_bundle_catalog(&catalog, q, None, 10).results.into_iter().map(|e| e.list_id).collect()
    };
    assert_eq!(ids("weather"), vec!["b".to_string(), "a".to_string()]);
    assert_eq!(ids("WEATHER"), ids("weather"));
    assert_eq!(ids("wEaThEr"), ids("weather"));
}

#[test]
fn mixed_korean_and_ascii_queries_ignore_ascii_case() {
    let catalog = vec![
        entry("111", "기상청 단기예보", "날씨 예보 API", &["기상", "날씨"], "기상청", "과학기술", 500, "https://apis.data.go.kr/weather", SpecStatus::Available),
        entry("222", "사업자등록 조회", "사업자번호 진위확인 api", &["사업자"], "국세청", "산업경제", 1000, "https://api.odcloud.kr/nts", SpecStatus::Available),
    ];
    let upper = search_bundle_catalog(&catalog, "API 기상", None, 10);
    let lower = search_bundle_catalog(&catalog, "api 기상", None, 10);
    assert_eq!(upper.total, 2);
    assert_eq!(upper.total, lower.total);
    let ids = |r: &korea_cli::types::SearchResult| r.results.iter().map(|e| e.list_id.clone()).collect::<Vec<_>>();
    assert_eq!(ids(&upper), ids(&lower));
    assert_eq!(ids(&upper), vec!["222".to_string(), "111".to_string()]);
}
