use korea_cli::html::{parse_document, parse_fragment};
use korea_cli::html_parser::{
    build_api_spec, build_api_spec_at, extract_external_url, extract_labeled_url, extract_public_data_detail_pk,
    extract_hidden_input_value, extract_response_fields, extract_summary, extract_ty_detail_code, parse_openapi_page, parse_operation_detail,
    HtmlParseError, ParsedOperation,
};
use korea_cli::types::{ApiProtocol, AuthMethod, ParamLocation, Parameter, ResponseField};

fn param(name: &str, description: &str, required: bool) -> Parameter {
    Parameter {
        name: name.into(),
        description: description.into(),
        location: ParamLocation::Query,
        param_type: "string".into(),
        required,
        default: None,
    }
}

#[test]
fn test_parse_openapi_page_extracts_pk() {
    let html = r#"
        <html>
        <body>
            <input type="hidden" name="publicDataDetailPk" value="uddi:12345-abcde">
            <select id="open_api_detail_select">
                <option value="">선택</option>
                <option value="1001">getWeather</option>
                <option value="1002">getForecast</option>
            </select>
        </body>
        </html>
        "#;
    let info = parse_openapi_page(html).unwrap();
    assert_eq!(info.public_data_detail_pk, "uddi:12345-abcde");
    assert_eq!(info.operations.len(), 2);
    assert_eq!(info.operations[0].seq_no, "1001");
    assert_eq!(info.operations[0].name, "getWeather");
    assert_eq!(info.operations[1].seq_no, "1002");
}

#[test]
fn test_parse_openapi_page_regex_fallback() {
    let html = r#"
        <html><body>
            <input type="hidden"
                name="publicDataDetailPk"
                value="uddi:multiline-pk">
        </body></html>
        "#;
    let info = parse_openapi_page(html).unwrap();
    assert_eq!(info.public_data_detail_pk, "uddi:multiline-pk");
}

#[test]
fn parse_openapi_page_without_pk_is_an_error() {
    assert!(matches!(parse_openapi_page("<html><body>nothing</body></html>"), Err(HtmlParseError::PkNotFound)));
}

#[test]
fn text_scan_finds_a_pk_the_selectors_miss() {
    let raw = "<script>var x = '<input id=\"publicDataDetailPk\" value=\"uddi:in-script\">';</script>";
    let doc = parse_document(raw);
    assert_eq!(extract_public_data_detail_pk(&doc, raw).as_deref(), Some("uddi:in-script"));
}

#[test]
fn test_parse_operation_detail_data_attributes() {
    let html = r#"
        <div>
            <p><strong>요청주소</strong> https://apis.data.go.kr/1360000/VilageFcstInfoService_2.0/getUltraSrtNcst</p>
            <p><strong>서비스URL</strong> https://apis.data.go.kr/1360000/VilageFcstInfoService_2.0</p>
            <table>
                <tr data-paramtr-nm="serviceKey" data-paramtr-division="필수" data-paramtr-dc="인증키">
                    <td>1</td><td>serviceKey</td><td>string</td><td>100</td><td>필수</td><td>인증키</td>
                </tr>
                <tr data-paramtr-nm="numOfRows" data-paramtr-division="옵션" data-paramtr-dc="한 페이지 결과 수">
                    <td>2</td><td>numOfRows</td><td>string</td><td>10</td><td>옵션</td><td>한 페이지 결과 수</td>
                </tr>
                <tr data-paramtr-nm="base_date" data-paramtr-division="필수" data-paramtr-dc="발표일자">
                    <td>3</td><td>base_date</td><td>string</td><td>8</td><td>필수</td><td>발표일자</td>
                </tr>
            </table>
        </div>
        "#;
    let op = parse_operation_detail(html).unwrap();
    assert_eq!(op.request_url, "https://apis.data.go.kr/1360000/VilageFcstInfoService_2.0/getUltraSrtNcst");
    assert_eq!(op.service_url, "https://apis.data.go.kr/1360000/VilageFcstInfoService_2.0");
    assert_eq!(op.parameters.len(), 3);
    assert_eq!(op.parameters[0].name, "serviceKey");
    assert!(op.parameters[0].required);
    assert_eq!(op.parameters[1].name, "numOfRows");
    assert!(!op.parameters[1].required);
    assert_eq!(op.parameters[2].name, "base_date");
    assert!(op.parameters[2].required);
}

#[test]
fn test_parse_operation_detail_fallback_td() {
    let html = r#"
        <div>
            <table>
                <tr><td>순번</td><td>항목명(영문)</td><td>타입</td><td>크기</td><td>항목구분</td><td>설명</td></tr>
                <tr><td>1</td><td>serviceKey</td><td>string</td><td>100</td><td>필수</td><td>인증키</td></tr>
                <tr><td>2</td><td>pageNo</td><td>string</td><td>10</td><td>옵션</td><td>페이지번호</td></tr>
            </table>
        </div>
        "#;
    let op = parse_operation_detail(html).unwrap();
    assert_eq!(op.parameters.len(), 2);
    assert_eq!(op.parameters[0].name, "serviceKey");
    assert!(op.parameters[0].required);
    assert_eq!(op.parameters[1].name, "pageNo");
    assert!(!op.parameters[1].required);
}

#[test]
fn test_build_api_spec_filters_service_key() {
    let ops = vec![ParsedOperation {
        request_url: "https://apis.data.go.kr/test/getItems".into(),
        service_url: "https://apis.data.go.kr/test".into(),
        summary: String::new(),
        parameters: vec![param("serviceKey", "인증키", true), param("pageNo", "페이지번호", false)],
        response_fields: vec![ResponseField {
            name: "resultCode".into(),
            description: "결과코드".into(),
            field_type: "string".into(),
        }],
    }];
    let spec = build_api_spec("15084084", &ops).unwrap().unwrap();
    assert_eq!(spec.list_id, "15084084");
    assert_eq!(spec.base_url, "https://apis.data.go.kr/test");
    assert!(matches!(spec.auth, AuthMethod::QueryParam { .. }));
    assert_eq!(spec.operations.len(), 1);
    assert_eq!(spec.operations[0].path, "/getItems");
    assert_eq!(spec.operations[0].parameters.len(), 1);
    assert_eq!(spec.operations[0].parameters[0].name, "pageNo");
    assert_eq!(spec.operations[0].response_fields.len(), 1);
}

#[test]
fn test_parse_openapi_page_id_attribute() {
    let html = r#"
        <html><body>
            <input type="hidden" id="publicDataDetailPk"
                   value="uddi:b295d381-f52d-4318-9191-96fe1fafff1f"/>
            <input type="hidden" id="publicDataPk" value="15061357"/>
            <select id="open_api_detail_select">
                <option value="25356">선물사일반현황조회</option>
                <option value="25357">선물사재무현황조회</option>
            </select>
        </body></html>
        "#;
    let info = parse_openapi_page(html).unwrap();
    assert_eq!(info.public_data_detail_pk, "uddi:b295d381-f52d-4318-9191-96fe1fafff1f");
    assert_eq!(info.operations.len(), 2);
    assert_eq!(info.operations[0].seq_no, "25356");
    assert_eq!(info.operations[0].name, "선물사일반현황조회");
}

#[test]
fn test_build_api_spec_empty_returns_none() {
    assert!(build_api_spec("12345", &[]).unwrap().is_none());
}

#[test]
fn test_build_api_spec_empty_request_url_uses_service_url() {
    let ops = vec![ParsedOperation {
        request_url: "".into(),
        service_url: "https://apis.data.go.kr/1360000/VilageFcstInfoService_2.0".into(),
        summary: "초단기실황조회".into(),
        parameters: vec![param("serviceKey", "인증키", true)],
        response_fields: vec![],
    }];
    let spec = build_api_spec("15084084", &ops).unwrap();
    assert!(spec.is_some(), "빈 request_url이어도 service_url이 있으면 Operation 생성");
    let spec = spec.unwrap();
    assert_eq!(spec.operations.len(), 1);
    assert_eq!(spec.operations[0].path, "/");
    assert_eq!(spec.operations[0].summary, "초단기실황조회");
}

#[test]
fn build_api_spec_at_is_a_gateway_spec() {
    let ops = vec![ParsedOperation {
        request_url: "https://apis.data.go.kr/test/getItems".into(),
        service_url: String::new(),
        summary: "s".into(),
        parameters: vec![],
        response_fields: vec![],
    }];
    let spec = build_api_spec_at("1", &ops, "then".into()).unwrap();
    assert!(matches!(spec.protocol, ApiProtocol::DataGoKrRest));
    assert_eq!(spec.fetched_at, "then");
    assert_eq!(spec.base_url, "");
    assert_eq!(spec.operations[0].path, "https://apis.data.go.kr/test/getItems");
    assert!(matches!(spec.auth, AuthMethod::NoAuth));
    let none = vec![ParsedOperation {
        request_url: String::new(),
        service_url: String::new(),
        summary: String::new(),
        parameters: vec![],
        response_fields: vec![],
    }];
    assert!(build_api_spec_at("1", &none, String::new()).is_none());
}

#[test]
fn test_extract_response_fields_h4_based() {
    let html = r#"
        <div id="open-api-detail-result">
            <h4>요청변수(Request Parameter)</h4>
            <table>
                <tr><th>순번</th><th>항목명(영문)</th><th>타입</th><th>크기</th><th>항목구분</th><th>항목설명</th></tr>
                <tr><td>1</td><td>serviceKey</td><td>string</td><td>100</td><td>필수</td><td>인증키</td></tr>
            </table>
            <h4>출력결과(Response Element)</h4>
            <table>
                <tr><th>순번</th><th>항목명(영문)</th><th>타입</th><th>크기</th><th>항목설명</th></tr>
                <tr><td>1</td><td>resultCode</td><td>string</td><td>2</td><td>결과코드</td></tr>
                <tr><td>2</td><td>resultMsg</td><td>string</td><td>50</td><td>결과메시지</td></tr>
                <tr><td>3</td><td>baseDate</td><td>string</td><td>8</td><td>발표일자</td></tr>
            </table>
        </div>
        "#;
    let document = parse_fragment(html);
    let fields = extract_response_fields(&document);
    assert_eq!(fields.len(), 3);
    assert_eq!(fields[0].name, "resultCode");
    assert_eq!(fields[0].description, "결과코드");
    assert_eq!(fields[1].name, "resultMsg");
    assert_eq!(fields[2].name, "baseDate");
}

#[test]
fn test_parse_operation_detail_extracts_summary() {
    let html = r#"
        <div id="open-api-detail-result">
            <h4 class="tit">초단기실황조회</h4>
            <p><strong>요청주소</strong> https://apis.data.go.kr/1360000/VilageFcstInfoService_2.0/getUltraSrtNcst</p>
            <p><strong>서비스URL</strong> https://apis.data.go.kr/1360000/VilageFcstInfoService_2.0</p>
            <table>
                <tr data-paramtr-nm="serviceKey" data-paramtr-division="필수" data-paramtr-dc="인증키">
                    <td>1</td><td>serviceKey</td><td>string</td><td>100</td><td>필수</td><td>인증키</td>
                </tr>
            </table>
        </div>
        "#;
    let op = parse_operation_detail(html).unwrap();
    assert_eq!(op.summary, "초단기실황조회");
}

#[test]
fn test_parse_operation_detail_no_summary() {
    let html = r#"
        <div>
            <p><strong>요청주소</strong> https://apis.data.go.kr/test/getItems</p>
            <p><strong>서비스URL</strong> https://apis.data.go.kr/test</p>
        </div>
        "#;
    let op = parse_operation_detail(html).unwrap();
    assert!(op.summary.is_empty());
}

#[test]
fn test_parse_openapi_page_extracts_ty_detail_code() {
    let html = r#"
        <html><body>
            <script>
                var tyDetailCode = 'PRDE04';
            </script>
            <input type="hidden" id="publicDataDetailPk" value="uddi:abc-123">
            <input type="hidden" id="publicDataPk" value="15061357">
        </body></html>
        "#;
    let info = parse_openapi_page(html).unwrap();
    assert_eq!(info.ty_detail_code.as_deref(), Some("PRDE04"));
    assert_eq!(info.public_data_pk.as_deref(), Some("15061357"));
}

#[test]
fn test_parse_openapi_page_no_ty_detail_code() {
    let html = r#"
        <html><body>
            <input type="hidden" name="publicDataDetailPk" value="uddi:12345-abcde">
            <select id="open_api_detail_select">
                <option value="1001">getWeather</option>
            </select>
        </body></html>
        "#;
    let info = parse_openapi_page(html).unwrap();
    assert!(info.ty_detail_code.is_none());
    assert!(info.public_data_pk.is_none());
}

#[test]
fn test_parse_openapi_page_extracts_ty_detail_code_double_quotes() {
    let html = r#"
        <html><body>
            <script>
                var tyDetailCode = "PRDE04";
            </script>
            <input type="hidden" id="publicDataDetailPk" value="uddi:abc-123">
        </body></html>
        "#;
    let info = parse_openapi_page(html).unwrap();
    assert_eq!(info.ty_detail_code.as_deref(), Some("PRDE04"));
}

#[test]
fn extract_ty_detail_code_needs_a_quoted_value() {
    assert_eq!(extract_ty_detail_code("var tyDetailCode='X1'").as_deref(), Some("X1"));
    assert_eq!(extract_ty_detail_code("var tyDetailCode = X1;"), None);
}

#[test]
fn test_external_url_valid_href() {
    let html = r#"
        <html><body>
            <input type="hidden" id="publicDataDetailPk" value="uddi:ext-123">
            <a class="link-api-btn" href="https://www.kma.go.kr/api/forecast">외부 링크</a>
        </body></html>
        "#;
    let info = parse_openapi_page(html).unwrap();
    assert_eq!(info.external_url.as_deref(), Some("https://www.kma.go.kr/api/forecast"));
}

#[test]
fn test_external_url_no_link_api_btn() {
    let html = r#"
        <html><body>
            <input type="hidden" id="publicDataDetailPk" value="uddi:no-ext">
            <select id="open_api_detail_select">
                <option value="1001">getWeather</option>
            </select>
        </body></html>
        "#;
    let info = parse_openapi_page(html).unwrap();
    assert!(info.external_url.is_none());
}

#[test]
fn test_external_url_javascript_void_ignored() {
    let html = r#"
        <html><body>
            <input type="hidden" id="publicDataDetailPk" value="uddi:js-void">
            <a class="link-api-btn" href="javascript:void(0)">비활성 링크</a>
        </body></html>
        "#;
    let info = parse_openapi_page(html).unwrap();
    assert!(info.external_url.is_none());
}

#[test]
fn test_external_url_ampersand_decoded() {
    let html = r#"
        <html><body>
            <input type="hidden" id="publicDataDetailPk" value="uddi:amp-test">
            <a class="link-api-btn" href="https://example.kr/api?a=1&amp;b=2">링크</a>
        </body></html>
        "#;
    let info = parse_openapi_page(html).unwrap();
    assert_eq!(info.external_url.as_deref(), Some("https://example.kr/api?a=1&b=2"));
}

#[test]
fn detail_helpers_on_fragments() {
    let doc = parse_fragment("<div><h4 class=\"tit\"> 조회 </h4><p><strong>요청주소</strong> ftp://x https://y.kr/a</p></div>");
    assert_eq!(extract_summary(&doc), "조회");
    assert_eq!(extract_labeled_url(&doc, "요청주소").as_deref(), Some("https://y.kr/a"));
    assert_eq!(extract_labeled_url(&doc, "서비스URL"), None);
    let page = parse_document("<a class=\"link-api-btn other\" href=\" \">x</a>");
    assert_eq!(extract_external_url(&page), None);
}

#[test]
fn hidden_input_needs_an_identifier() {
    let doc = parse_document(
        r#"<html><body><input id="pk" value="v1"><input id="1x" value="v2"><input id="a.b" value="v3"><input id="-k" value="v4"></body></html>"#,
    );
    assert_eq!(extract_hidden_input_value(&doc, "pk").as_deref(), Some("v1"));
    assert_eq!(extract_hidden_input_value(&doc, "1x"), None);
    assert_eq!(extract_hidden_input_value(&doc, "a.b"), None);
    assert_eq!(extract_hidden_input_value(&doc, "-k").as_deref(), Some("v4"));
    assert_eq!(extract_hidden_input_value(&doc, ""), None);
    assert_eq!(extract_hidden_input_value(&doc, "missing"), None);
}
