use korea_cli::json::{Json, JsonNumber};
use korea_cli::scan::{extract_js_signals, extract_signals, json_ld_scripts};
use korea_cli::signals::{JsVarInfo, PageSignals};

fn to_json(v: &serde_json::Value) -> Json {
    match v {
        serde_json::Value::Null => Json::Null,
        serde_json::Value::Bool(b) => Json::Bool(*b),
        serde_json::Value::Number(n) => {
            if let Some(u) = n.as_u64() {
                Json::Number(JsonNumber::Unsigned(u))
            } else if let Some(i) = n.as_i64() {
                Json::Number(JsonNumber::Negative(i))
            } else {
                Json::Number(JsonNumber::Fractional(n.to_string()))
            }
        }
        serde_json::Value::String(s) => Json::Str(s.clone()),
        serde_json::Value::Array(a) => Json::Array(a.iter().map(to_json).collect()),
        serde_json::Value::Object(m) => Json::Object(m.iter().map(|(k, x)| (k.clone(), to_json(x))).collect()),
    }
}

/// The page's signals, with its JSON-LD scripts parsed as the analysis tool does.
fn signals_of(html: &str) -> PageSignals {
    let parsed: Vec<Option<Json>> = json_ld_scripts(html)
        .iter()
        .map(|t| serde_json::from_str::<serde_json::Value>(t).ok().map(|v| to_json(&v)))
        .collect();
    extract_signals(html, &parsed)
}

fn var<'a>(s: &'a PageSignals, name: &str) -> &'a JsVarInfo {
    &s.js_vars.iter().find(|(k, _)| k == name).expect("variable missing").1
}

fn has_var(s: &PageSignals, name: &str) -> bool {
    s.js_vars.iter().any(|(k, _)| k == name)
}

fn count_of(s: &PageSignals, tag: &str) -> usize {
    s.tag_counts.iter().find(|(k, _)| k == tag).map(|(_, c)| *c).unwrap_or(0)
}

#[test]
fn test_extract_dom_signals() {
    let html = r#"<html><head><title>테스트 API</title></head><body>
            <input type="hidden" id="publicDataDetailPk" name="pk" value="uddi:xxx">
            <input type="hidden" id="publicDataPk" value="15001234">
            <select id="open_api_detail_select">
                <option value="">선택</option>
                <option value="37400">조회 서비스</option>
                <option value="37401">등록 서비스</option>
            </select>
            <table class="dataset-table">
                <tr><th>항목명</th><th>타입</th><th>설명</th></tr>
                <tr data-paramtr-nm="serviceKey"><td>serviceKey</td><td>string</td><td>키</td></tr>
            </table>
            <div class="api-data-bx" data-code="API"></div>
        </body></html>"#;
    let signals = signals_of(html);
    assert_eq!(signals.title, "테스트 API");
    assert!(signals.ids.contains(&"publicDataDetailPk".into()));
    assert!(signals.ids.contains(&"publicDataPk".into()));
    assert!(signals.ids.contains(&"open_api_detail_select".into()));
    assert!(signals.names.contains(&"pk".into()));
    assert!(signals.classes.contains(&"dataset-table".into()));
    assert!(signals.classes.contains(&"api-data-bx".into()));
    assert!(signals.th_texts.contains(&"항목명".into()));
    assert!(signals.th_texts.contains(&"타입".into()));
    assert!(signals.data_attrs.iter().any(|(k, _)| k == "data-paramtr-nm"));
    assert!(signals.data_attrs.iter().any(|(k, _)| k == "data-code"));
    assert_eq!(signals.options.len(), 1);
    assert_eq!(signals.options[0].select_id, "open_api_detail_select");
    assert_eq!(signals.options[0].count, 2);
    assert!(count_of(&signals, "table") >= 1);
    assert!(count_of(&signals, "select") >= 1);
}

#[test]
fn test_extract_js_signals() {
    let html = r#"<html><head>
            <script type="application/ld+json">{"@type": "Dataset", "name": "test"}</script>
            <script type="text/javascript">
                var swaggerJson = `{"swagger":"2.0","paths":{}}`;
                var swaggerUrl = '';
                var publicDataPk = '15001234';
                var tyDetailCode = 'PRDE02';
                let someNumber = 42;
                const oprtinUrl = "http://apis.data.go.kr/test/api";
                $.ajax({ url: '/tcs/dss/selectApiDetailFunction.do' });
                $.ajax({ url: '/iim/api/myPageUrl.do' });
            </script>
        </head><body></body></html>"#;
    let signals = signals_of(html);
    assert!(has_var(&signals, "swaggerJson"));
    assert!(has_var(&signals, "swaggerUrl"));
    assert!(has_var(&signals, "publicDataPk"));
    assert!(has_var(&signals, "tyDetailCode"));
    assert!(has_var(&signals, "oprtinUrl"));
    assert_eq!(var(&signals, "tyDetailCode").value_preview.as_deref(), Some("PRDE02"));
    assert_eq!(var(&signals, "tyDetailCode").value_type, "string");
    assert!(var(&signals, "swaggerJson").size > 0);
    assert!(signals.ajax_urls.contains(&"/tcs/dss/selectApiDetailFunction.do".to_string()));
    assert!(signals.ajax_urls.contains(&"/iim/api/myPageUrl.do".to_string()));
    assert!(signals.json_ld_types.contains(&"Dataset".to_string()));
    assert!(signals.script_types.contains(&"application/ld+json".to_string()));
    assert!(signals.script_types.contains(&"text/javascript".to_string()));
}

#[test]
fn test_js_var_undefined_and_empty() {
    let html = r#"<html><head><script>
            var swaggerJson = `undefined`;
            var swaggerUrl = '';
        </script></head><body></body></html>"#;
    let signals = signals_of(html);
    assert_eq!(var(&signals, "swaggerJson").value_type, "undefined");
    assert_eq!(var(&signals, "swaggerUrl").value_type, "empty");
}

#[test]
fn test_extract_meta_signals() {
    let html = r#"<html><head>
            <meta charset="UTF-8">
            <meta name="viewport" content="width=device-width">
            <meta property="og:title" content="공기질 API">
            <meta http-equiv="X-UA-Compatible" content="IE=edge">
            <link rel="stylesheet" href="/css/app.min.css">
            <link rel="canonical" href="https://www.data.go.kr/data/15095367/openapi.do">
        </head><body></body></html>"#;
    let signals = signals_of(html);
    assert!(signals.meta_tags.iter().any(|m| m.key == "viewport"));
    assert!(signals.meta_tags.iter().any(|m| m.key == "og:title" && m.content == "공기질 API"));
    assert!(signals.meta_tags.iter().any(|m| m.attr_type == "http-equiv" && m.key == "X-UA-Compatible"));
    assert!(signals.link_rels.contains(&"stylesheet".to_string()));
    assert!(signals.link_rels.contains(&"canonical".to_string()));
    assert_eq!(signals.meta_tags.len(), 3);
}

#[test]
fn js_variables_keep_the_last_declaration_in_name_order() {
    let text = "var b = 1; var a = {x: 2}; var b = 'two'; const c = something else";
    let (vars, urls) = extract_js_signals(text);
    let names: Vec<&str> = vars.iter().map(|(k, _)| k.as_str()).collect();
    assert_eq!(names, vec!["a", "b", "c"]);
    assert_eq!(vars[0].1.value_type, "object");
    assert_eq!(vars[1].1.value_type, "string");
    assert_eq!(vars[1].1.value_preview.as_deref(), Some("two"));
    assert_eq!(vars[1].1.size, 3);
    assert_eq!(vars[2].1.value_type, "other");
    assert_eq!(vars[2].1.value_preview.as_deref(), Some("something else"));
    assert!(urls.is_empty());
}

#[test]
fn long_values_have_no_preview_and_urls_are_kept_once() {
    let long = "x".repeat(101);
    let text = format!("var big = '{long}'; fetch('/a'); $.ajax({{url: \"/a\"}}); fetch(\"/b\")");
    let (vars, urls) = extract_js_signals(&text);
    assert_eq!(vars[0].1.size, 101);
    assert!(vars[0].1.value_preview.is_none());
    assert_eq!(urls, vec!["/a".to_string(), "/b".to_string()]);
}

#[test]
fn data_attributes_are_grouped_by_name_in_order() {
    let html = r#"<html><body><p data-z="1" data-a="2"></p><p data-z="3"></p></body></html>"#;
    let s = signals_of(html);
    assert_eq!(
        s.data_attrs,
        vec![
            ("data-a".to_string(), vec!["2".to_string()]),
            ("data-z".to_string(), vec!["1".to_string(), "3".to_string()]),
        ]
    );
    assert_eq!(s.file_size_bytes, html.len());
    assert_eq!(count_of(&s, "p"), 2);
}
