use korea_cli::catalog::{has_next_page, merge_services, meta_page_address, meta_page_counts, META_PAGE_SIZE};
use korea_cli::json::{Json, JsonNumber};
use korea_cli::survey::{analyze_probe, failed_probe, probe_request, ProbeFailure};
use korea_cli::types::{ApiService, OperationSummary};

fn op(id: &str) -> OperationSummary {
    OperationSummary { id: id.into(), name: format!("op {id}"), request_params: vec![], request_params_en: vec![] }
}

fn service(list_id: &str, ops: Vec<OperationSummary>) -> ApiService {
    ApiService {
        list_id: list_id.into(),
        title: format!("t{list_id}"),
        description: String::new(),
        keywords: vec![],
        org_name: String::new(),
        category: String::new(),
        endpoint_url: String::new(),
        data_format: String::new(),
        auto_approve: false,
        is_free: true,
        request_count: 0,
        updated_at: String::new(),
        operations: ops,
    }
}

#[test]
fn meta_page_address_format() {
    assert_eq!(
        meta_page_address(3, META_PAGE_SIZE),
        "https://api.odcloud.kr/api/15077093/v1/open-data-list?page=3&perPage=1000"
    );
}

#[test]
fn meta_page_counts_read_missing_as_zero() {
    let j = Json::Object(vec![
        ("totalCount".into(), Json::Number(JsonNumber::Unsigned(2500))),
        ("currentCount".into(), Json::Number(JsonNumber::Unsigned(1000))),
    ]);
    assert_eq!(meta_page_counts(&j), (2500, 1000));
    assert_eq!(meta_page_counts(&Json::Object(vec![])), (0, 0));
}

#[test]
fn paging_stops_at_the_total_or_an_empty_page() {
    assert!(has_next_page(1, 1000, 1000, 2500));
    assert!(has_next_page(2, 1000, 1000, 2500));
    assert!(!has_next_page(3, 1000, 500, 2500));
    assert!(!has_next_page(1, 1000, 0, 2500));
    assert!(!has_next_page(u64::MAX, u64::MAX, 1, u64::MAX));
}

#[test]
fn merge_services_joins_operations_by_list_id() {
    let all = vec![
        service("A", vec![op("1")]),
        service("B", vec![op("9")]),
        service("A", vec![op("1"), op("2")]),
    ];
    let merged = merge_services(&all);
    assert_eq!(merged.len(), 2);
    assert_eq!(merged[0].list_id, "A");
    let ids: Vec<&str> = merged[0].operations.iter().map(|o| o.id.as_str()).collect();
    assert_eq!(ids, vec!["1", "2"]);
    assert_eq!(merged[1].list_id, "B");
}

#[test]
fn probe_request_addresses() {
    let (referer, body) = probe_request("15084084", "uddi:abc", "1001");
    assert_eq!(referer, "https://www.data.go.kr/data/15084084/openapi.do");
    assert_eq!(body, "publicDataDetailPk=uddi:abc&oprtinSeqNo=1001&publicDataPk=15084084");
}

#[test]
fn failed_probe_keeps_the_reason() {
    let r = failed_probe(None, ProbeFailure::Request("timeout".into()));
    assert_eq!(r.status, None);
    assert_eq!(r.error.as_deref(), Some("request error: timeout"));
    let r = failed_probe(Some(200), ProbeFailure::Body("eof".into()));
    assert_eq!(r.status, Some(200));
    assert_eq!(r.error.as_deref(), Some("body read error: eof"));
    assert!(!r.is_error_page);
}

#[test]
fn analyze_probe_reads_the_fragment() {
    let html = r#"<div><p>요청주소 https://apis.data.go.kr/x/getItems</p><p>서비스URL https://apis.data.go.kr/x</p></div>"#;
    let r = analyze_probe(200, html);
    assert_eq!(r.status, Some(200));
    assert!(r.error.is_none());
    assert_eq!(r.response_bytes, Some(html.len()));
    assert!(!r.is_error_page);
    let r = analyze_probe(404, "<html><title>에러</title></html>");
    assert!(r.is_error_page);
    assert!(!r.has_request_url);
}
