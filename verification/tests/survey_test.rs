use korea_cli::html::parse_document;
use korea_cli::json::{Json, JsonNumber};
use korea_cli::survey::{
    analyze_page_html, classify_page_pattern, count_response_fields, detect_anomalies, detect_param_style,
    extract_labeled_url_from_html, extract_select_options, get_arg, is_swagger_empty, AjaxProbeResult,
    PageAnalysis, SelectOption,
};
use korea_cli::swagger::extract_swagger_json_text;

fn to_json(v: &serde_json::Value) -> Json {
    match v {
        serde_json::Value::Null => Json::Null,
        serde_json::Value::Bool(b) => Json::Bool(*b),
        serde_json::Value::Number(n) => {
            if let Some(u) = n.as_u64() {
                Json::Number(JsonNumber::Unsigned(u))
            } else if let Some(i) = n.as_i64() {
                Json::Number(JsonNumber::Negative(i))
            } else {
                Json::Number(JsonNumber::Fractional(n.to_string()))
            }
        }
        serde_json::Value::String(s) => Json::Str(s.clone()),
        serde_json::Value::Array(a) => Json::Array(a.iter().map(to_json).collect()),
        serde_json::Value::Object(m) => Json::Object(m.iter().map(|(k, x)| (k.clone(), to_json(x))).collect()),
    }
}

/// The page's embedded Swagger spec, parsed as the survey tool does before analysing.
fn analyze(html: &str) -> PageAnalysis {
    let embedded = extract_swagger_json_text(html)
        .and_then(|t| serde_json::from_str::<serde_json::Value>(&t).ok())
        .map(|v| to_json(&v));
    analyze_page_html(html, embedded.as_ref())
}

fn option(seq_no: &str, name: &str) -> SelectOption {
    SelectOption { seq_no: seq_no.into(), name: name.into() }
}

fn analysis(has_pk: bool, options: Vec<SelectOption>, anomalies: Vec<String>) -> PageAnalysis {
    PageAnalysis {
        page_size_bytes: 5000,
        has_swagger_json: false,
        swagger_json_empty: false,
        swagger_ops_count: None,
        has_pk,
        pk_value: if has_pk { Some("uddi:test".into()) } else { None },
        pk_source: if has_pk { Some("id_attr".into()) } else { None },
        select_options: options,
        anomalies,
    }
}

fn good_probe() -> AjaxProbeResult {
    AjaxProbeResult {
        status: Some(200),
        error: None,
        response_bytes: Some(5000),
        has_request_url: true,
        has_service_url: true,
        request_url: Some("http://test.kr/api/items".into()),
        service_url: Some("http://test.kr/api".into()),
        param_count: 3,
        param_style: Some("data_attr".into()),
        response_field_count: 5,
        is_error_page: false,
    }
}

#[test]
fn test_analyze_page_html_pk_id() {
    let padding = " ".repeat(800);
    let html = format!(
        r#"<html><body>
            <input type="hidden" id="publicDataDetailPk" value="uddi:abc-123"/>
            <select id="open_api_detail_select">
                <option value="101">getItems</option>
            </select>
            <!-- {padding} -->
            </body></html>"#
    );
    let a = analyze(&html);
    assert!(a.has_pk);
    assert_eq!(a.pk_value.as_deref(), Some("uddi:abc-123"));
    assert_eq!(a.pk_source.as_deref(), Some("id_attr"));
    assert_eq!(a.select_options.len(), 1);
    assert_eq!(a.select_options[0].seq_no, "101");
    assert_eq!(a.select_options[0].name, "getItems");
}

#[test]
fn test_analyze_page_html_pk_name() {
    let padding = " ".repeat(800);
    let html = format!(
        r#"<html><body>
            <input type="hidden" name="publicDataDetailPk" value="uddi:xyz-789"/>
            <!-- {padding} -->
            </body></html>"#
    );
    let a = analyze(&html);
    assert!(a.has_pk);
    assert_eq!(a.pk_value.as_deref(), Some("uddi:xyz-789"));
    assert_eq!(a.pk_source.as_deref(), Some("name_attr"));
}

#[test]
fn test_analyze_page_html_no_pk() {
    let padding = " ".repeat(800);
    let html = format!(r#"<html><body><p>nothing here</p><!-- {padding} --></body></html>"#);
    let a = analyze(&html);
    assert!(!a.has_pk);
    assert!(a.pk_value.is_none());
    assert!(a.pk_source.is_none());
}

#[test]
fn test_analyze_page_html_swagger_empty() {
    let padding = " ".repeat(800);
    let html = format!(
        r#"<html><body>
            <script>var swaggerJson = ``</script>
            <!-- {padding} -->
            </body></html>"#
    );
    let a = analyze(&html);
    assert!(a.swagger_json_empty);
    assert!(!a.has_swagger_json);
}

#[test]
fn test_analyze_page_html_swagger_with_ops() {
    let padding = " ".repeat(800);
    let html = format!(
        r#"<html><body>
            <script>
            var swaggerJson = `{{"swagger":"2.0","host":"api.test.kr","basePath":"/","schemes":["https"],"paths":{{"/items":{{"get":{{"summary":"test","parameters":[],"responses":{{"200":{{}}}}}}}}}}}}`
            </script>
            <!-- {padding} -->
            </body></html>"#
    );
    let a = analyze(&html);
    assert!(a.has_swagger_json);
    assert!(!a.swagger_json_empty);
    assert_eq!(a.swagger_ops_count, Some(1));
}

#[test]
fn analyze_page_html_counts_size_and_short_page() {
    let html = "<html><body>short</body></html>";
    let a = analyze(html);
    assert_eq!(a.page_size_bytes, html.len());
    assert_eq!(a.anomalies, vec!["very_short_page".to_string()]);
    assert_eq!(a.swagger_ops_count, None);
}

#[test]
fn test_detect_anomalies_deprecated() {
    let html = "<html><body>이 API는 폐기되었습니다.</body></html>";
    let anomalies = detect_anomalies(html, html.len());
    assert!(anomalies.contains(&"deprecated_notice".to_string()));
    assert!(anomalies.contains(&"very_short_page".to_string()));
}

#[test]
fn test_detect_anomalies_service_terminated() {
    let html = "<html><body>서비스 종료</body></html>";
    let anomalies = detect_anomalies(html, html.len());
    assert!(anomalies.contains(&"service_terminated".to_string()));
}

#[test]
fn test_detect_anomalies_js_redirect() {
    let html = "<html><body><script>location.href='http://other.kr';</script></body></html>";
    let anomalies = detect_anomalies(html, html.len());
    assert!(anomalies.contains(&"js_redirect".to_string()));
}

#[test]
fn detect_anomalies_order_and_swagger_url_exception() {
    let html = "폐기 서비스종료 location.replace('x')";
    assert_eq!(
        detect_anomalies(html, 2000),
        vec!["deprecated_notice".to_string(), "service_terminated".to_string(), "js_redirect".to_string()]
    );
    let with_url = "location.href='x'; var swaggerUrl = 'y'";
    assert!(detect_anomalies(with_url, 2000).is_empty());
    assert_eq!(detect_anomalies("", 999), vec!["very_short_page".to_string()]);
    assert!(detect_anomalies("", 1000).is_empty());
}

#[test]
fn test_classify_swagger_full() {
    let mut a = analysis(true, vec![option("1", "op")], vec![]);
    a.has_swagger_json = true;
    a.swagger_ops_count = Some(3);
    assert_eq!(classify_page_pattern(&a, None), "swagger_full");
}

#[test]
fn test_classify_no_pk() {
    let a = analysis(false, vec![], vec![]);
    assert_eq!(classify_page_pattern(&a, None), "no_pk");
}

#[test]
fn test_classify_deprecated() {
    let a = analysis(true, vec![], vec!["deprecated_notice".into()]);
    assert_eq!(classify_page_pattern(&a, None), "deprecated");
}

#[test]
fn test_classify_html_only_with_ajax() {
    let a = analysis(true, vec![option("1", "op")], vec![]);
    assert_eq!(classify_page_pattern(&a, Some(&good_probe())), "html_only");
}

#[test]
fn test_classify_swagger_empty_html_ok() {
    let mut a = analysis(true, vec![option("1", "op")], vec![]);
    a.swagger_json_empty = true;
    assert_eq!(classify_page_pattern(&a, Some(&good_probe())), "swagger_empty_html_ok");
}

#[test]
fn test_classify_pk_no_ajax() {
    let a = analysis(true, vec![option("1", "op")], vec![]);
    let ajax = AjaxProbeResult {
        status: Some(200),
        error: None,
        response_bytes: Some(500),
        has_request_url: false,
        has_service_url: false,
        request_url: None,
        service_url: None,
        param_count: 0,
        param_style: None,
        response_field_count: 0,
        is_error_page: true,
    };
    assert_eq!(classify_page_pattern(&a, Some(&ajax)), "pk_no_ajax");
}

#[test]
fn test_classify_pk_no_options() {
    let a = analysis(true, vec![], vec![]);
    assert_eq!(classify_page_pattern(&a, None), "pk_no_options");
}

#[test]
fn classify_end_notice_wins_over_swagger() {
    let mut a = analysis(true, vec![option("1", "op")], vec!["very_short_page".into(), "service_terminated".into()]);
    a.has_swagger_json = true;
    a.swagger_ops_count = Some(2);
    assert_eq!(classify_page_pattern(&a, None), "deprecated");
    a.anomalies = vec![];
    assert_eq!(classify_page_pattern(&a, None), "swagger_full");
    a.swagger_ops_count = Some(0);
    assert_eq!(classify_page_pattern(&a, None), "html_only");
}

#[test]
fn test_select_options_extraction() {
    let html = r#"
            <html><body>
            <select id="open_api_detail_select">
                <option value="">선택</option>
                <option value="101">getWeather</option>
                <option value="102">getForecast</option>
            </select>
            </body></html>
        "#;
    let doc = parse_document(html);
    let opts = extract_select_options(&doc);
    assert_eq!(opts.len(), 2);
    assert_eq!(opts[0].seq_no, "101");
    assert_eq!(opts[0].name, "getWeather");
    assert_eq!(opts[1].seq_no, "102");
    assert_eq!(opts[1].name, "getForecast");
}

#[test]
fn test_is_swagger_empty() {
    assert!(is_swagger_empty("var swaggerJson = ``"));
    assert!(is_swagger_empty("var swaggerJson = ` `"));
    assert!(!is_swagger_empty(r#"var swaggerJson = `{"swagger":"2.0"}`"#));
    assert!(!is_swagger_empty("no swagger here"));
}

#[test]
fn test_detect_param_style_data_attr() {
    let html = r#"
            <table>
                <tr data-paramtr-nm="serviceKey"><td>1</td></tr>
                <tr data-paramtr-nm="pageNo"><td>2</td></tr>
            </table>
        "#;
    let (count, style) = detect_param_style(html);
    assert_eq!(count, 2);
    assert_eq!(style, "data_attr");
}

#[test]
fn test_detect_param_style_td_fallback() {
    let html = r#"
            <table>
                <tr><td>순번</td><td>항목명(영문)</td><td>타입</td><td>크기</td><td>구분</td><td>설명</td></tr>
                <tr><td>1</td><td>serviceKey</td><td>string</td><td>100</td><td>필수</td><td>인증키</td></tr>
                <tr><td>2</td><td>pageNo</td><td>string</td><td>10</td><td>옵션</td><td>번호</td></tr>
            </table>
        "#;
    let (count, style) = detect_param_style(html);
    assert_eq!(count, 2);
    assert_eq!(style, "td_fallback");
}

#[test]
fn test_detect_param_style_none() {
    let html = "<div>no params</div>";
    let (count, style) = detect_param_style(html);
    assert_eq!(count, 0);
    assert_eq!(style, "none");
}

#[test]
fn test_count_response_fields() {
    let html = r#"
            <table>
                <tr><td colspan="6">출력결과</td></tr>
                <tr><td>1</td><td>resultCode</td><td>string</td><td>10</td><td>필수</td><td>결과코드</td></tr>
                <tr><td>2</td><td>resultMsg</td><td>string</td><td>100</td><td>필수</td><td>결과메시지</td></tr>
            </table>
        "#;
    assert_eq!(count_response_fields(html), 2);
}

#[test]
fn test_count_response_fields_none() {
    let html = "<div>no response section</div>";
    assert_eq!(count_response_fields(html), 0);
}

#[test]
fn test_extract_labeled_url_from_html() {
    let html = r#"<p><strong>요청주소</strong> https://apis.data.go.kr/test/getItems</p>"#;
    let url = extract_labeled_url_from_html(html, "요청주소");
    assert_eq!(url.as_deref(), Some("https://apis.data.go.kr/test/getItems"));
}

#[test]
fn test_extract_labeled_url_from_html_missing() {
    let html = "<p>no labeled url</p>";
    let url = extract_labeled_url_from_html(html, "요청주소");
    assert!(url.is_none());
}

#[test]
fn get_arg_reads_the_value_after_a_flag() {
    let args: Vec<String> = ["prog", "--limit", "50", "--out"].iter().map(|s| s.to_string()).collect();
    assert_eq!(get_arg(&args, "--limit").as_deref(), Some("50"));
    assert_eq!(get_arg(&args, "--out"), None);
    assert_eq!(get_arg(&args, "--missing"), None);
}
