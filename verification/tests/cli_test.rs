use korea_cli::cli::{
    build_options, call_without_key_output, catalog_empty_output, crawl_options, parse_u64, partial_operation_notice,
    survey_options, API_KEY_REQUIRED,
};
use korea_cli::html_parser::{build_api_spec_at, ParsedOperation};
use korea_cli::types::SpecStatus;

fn args(v: &[&str]) -> Vec<String> {
    v.iter().map(|s| s.to_string()).collect()
}

fn op(url: &str) -> ParsedOperation {
    ParsedOperation {
        request_url: url.into(),
        service_url: String::new(),
        summary: "s".into(),
        parameters: vec![],
        response_fields: vec![],
    }
}

#[test]
fn parse_u64_reads_decimal_numbers() {
    assert_eq!(parse_u64("0"), Some(0));
    assert_eq!(parse_u64("42"), Some(42));
    assert_eq!(parse_u64("+5"), Some(5));
    assert_eq!(parse_u64("007"), Some(7));
    assert_eq!(parse_u64("18446744073709551615"), Some(u64::MAX));
}

#[test]
fn parse_u64_rejects_what_str_parse_rejects() {
    assert_eq!(parse_u64(""), None);
    assert_eq!(parse_u64("+"), None);
    assert_eq!(parse_u64("-1"), None);
    assert_eq!(parse_u64(" 1"), None);
    assert_eq!(parse_u64("1x"), None);
    assert_eq!(parse_u64("18446744073709551616"), None);
    assert_eq!(parse_u64("99999999999999999999x"), None);
    for s in ["", "+", "-1", "12", "+7", "1e3", "18446744073709551616"] {
        assert_eq!(parse_u64(s), s.parse::<u64>().ok(), "{s}");
    }
}

#[test]
fn build_options_defaults() {
    let o = build_options(&args(&["build-bundle", "--api-key", "K"]), None).unwrap();
    assert_eq!(o.api_key, "K");
    assert_eq!(o.output, "data/bundle.zstd");
    assert_eq!(o.concurrency, 5);
    assert_eq!(o.delay_ms, 100);
    assert_eq!(o.ajax_concurrency, 10);
    assert_eq!(o.ajax_delay_ms, 50);
}

#[test]
fn build_options_reads_flags_and_env_key() {
    let a = args(&["b", "--output", "x.zstd", "--concurrency", "8", "--delay", "abc", "--ajax-delay", "7"]);
    let o = build_options(&a, Some("ENV".into())).unwrap();
    assert_eq!(o.api_key, "ENV");
    assert_eq!(o.output, "x.zstd");
    assert_eq!(o.concurrency, 8);
    assert_eq!(o.delay_ms, 100);
    assert_eq!(o.ajax_delay_ms, 7);
    // a flag on the command line wins over the environment
    let o = build_options(&args(&["b", "--api-key", "ARG"]), Some("ENV".into())).unwrap();
    assert_eq!(o.api_key, "ARG");
}

#[test]
fn options_without_key_fail() {
    assert_eq!(build_options(&args(&["b"]), None).unwrap_err(), API_KEY_REQUIRED);
    assert_eq!(crawl_options(&args(&["c", "--resume"]), None).unwrap_err(), API_KEY_REQUIRED);
}

#[test]
fn crawl_options_flags() {
    let o = crawl_options(&args(&["c", "--resume", "--out-dir", "/tmp/p"]), Some("K".into())).unwrap();
    assert!(o.resume);
    assert_eq!(o.out_dir, "/tmp/p");
    assert_eq!(o.concurrency, 5);
    assert_eq!(o.delay_ms, 100);
    let o = crawl_options(&args(&["c", "--api-key", "K", "--concurrency", "2"]), None).unwrap();
    assert!(!o.resume);
    assert_eq!(o.out_dir, "data/pages");
    assert_eq!(o.concurrency, 2);
}

#[test]
fn fixed_answers() {
    let e = catalog_empty_output();
    assert_eq!(e.get("success").unwrap().as_bool(), Some(false));
    let k = call_without_key_output();
    assert_eq!(k.get("success").unwrap().as_bool(), Some(false));
}

#[test]
fn partial_operation_notice_only_for_partial_specs() {
    let mut spec = build_api_spec_at("77", &[op("https://a/x")], "t".into()).unwrap();
    spec.missing_operations = vec!["getOther".into()];
    let n = partial_operation_notice("77", &spec, "/y", Some(SpecStatus::PartialStub)).unwrap();
    assert_eq!(n.get("success").unwrap().as_bool(), Some(false));
    assert!(partial_operation_notice("77", &spec, "/y", Some(SpecStatus::Available)).is_none());
    assert!(partial_operation_notice("77", &spec, "/y", None).is_none());
}

#[test]
fn survey_options_flags() {
    let o = survey_options(&args(&["s", "--phase1-only", "--output", "x.json"]), Some("K".into())).unwrap();
    assert_eq!(o.api_key, "K");
    assert_eq!(o.output, "x.json");
    assert!(o.phase1_only);
    assert!(!o.resume);
    assert_eq!(o.concurrency, 5);
    assert_eq!(o.delay_ms, 100);
    let o = survey_options(&args(&["s", "--api-key", "A", "--resume", "--delay", "0"]), None).unwrap();
    assert_eq!(o.output, "data/html_survey.json");
    assert!(o.resume);
    assert_eq!(o.delay_ms, 0);
    assert_eq!(survey_options(&args(&["s"]), None).unwrap_err(), API_KEY_REQUIRED);
}
