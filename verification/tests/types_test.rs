use korea_cli::types::{ClassificationHints, SpecStatus, CURRENT_SCHEMA_VERSION};

#[test]
fn test_spec_status_is_callable() {
    assert!(SpecStatus::Available.is_callable());
    assert!(SpecStatus::PartialStub.is_callable());
    assert!(!SpecStatus::Skeleton.is_callable());
    assert!(!SpecStatus::HtmlOnly.is_callable());
    assert!(!SpecStatus::External.is_callable());
    assert!(!SpecStatus::CatalogOnly.is_callable());
    assert!(!SpecStatus::Unsupported.is_callable());
}

#[test]
fn test_spec_status_user_message() {
    assert!(!SpecStatus::Available.user_message().is_empty());
    assert!(SpecStatus::Skeleton.user_message().contains("비어있습니다"));
    assert!(SpecStatus::External.user_message().contains("외부"));
    assert!(SpecStatus::Unsupported.user_message().contains("WMS"));
}

#[test]
fn test_classify_available() {
    assert_eq!(
        SpecStatus::classify(&ClassificationHints {
            has_spec: true,
            endpoint_url: "https://apis.data.go.kr/x",
            ..Default::default()
        }),
        SpecStatus::Available,
    );
}

#[test]
fn test_classify_skeleton() {
    assert_eq!(
        SpecStatus::classify(&ClassificationHints {
            is_skeleton: true,
            endpoint_url: "https://apihub.kma.go.kr/x",
            ..Default::default()
        }),
        SpecStatus::Skeleton,
    );
}

#[test]
fn test_classify_unsupported_wms() {
    assert_eq!(
        SpecStatus::classify(&ClassificationHints {
            endpoint_url: "https://example.kr/wms/service",
            ..Default::default()
        }),
        SpecStatus::Unsupported,
    );
}

#[test]
fn test_classify_html_only() {
    assert_eq!(
        SpecStatus::classify(&ClassificationHints {
            endpoint_url: "https://apis.data.go.kr/1360000/Weather",
            ..Default::default()
        }),
        SpecStatus::HtmlOnly,
    );
}

#[test]
fn test_classify_external() {
    assert_eq!(
        SpecStatus::classify(&ClassificationHints {
            endpoint_url: "https://apihub.kma.go.kr/api/typ01",
            ..Default::default()
        }),
        SpecStatus::External,
    );
}

#[test]
fn test_classify_catalog_only() {
    assert_eq!(SpecStatus::classify(&ClassificationHints::default()), SpecStatus::CatalogOnly);
}

#[test]
fn test_classify_odcloud_no_spec() {
    assert_eq!(
        SpecStatus::classify(&ClassificationHints {
            endpoint_url: "https://api.odcloud.kr/api/test",
            ..Default::default()
        }),
        SpecStatus::HtmlOnly,
    );
}

#[test]
fn test_classify_link_api_returns_external() {
    assert_eq!(
        SpecStatus::classify(&ClassificationHints {
            endpoint_url: "https://apis.data.go.kr/1360000/Weather",
            is_link_api: true,
            ..Default::default()
        }),
        SpecStatus::External,
    );
    assert_eq!(
        SpecStatus::classify(&ClassificationHints {
            has_spec: true,
            endpoint_url: "https://apis.data.go.kr/x",
            is_link_api: true,
            ..Default::default()
        }),
        SpecStatus::External,
    );
}

#[test]
fn test_partial_stub_is_callable() {
    assert!(SpecStatus::PartialStub.is_callable());
}

#[test]
fn test_partial_stub_user_message() {
    let msg = SpecStatus::PartialStub.user_message();
    assert!(msg.contains("일부"));
    assert!(msg.contains("operation"));
}

#[test]
fn test_classify_partial_stub() {
    assert_eq!(
        SpecStatus::classify(&ClassificationHints {
            has_spec: true,
            is_partial: true,
            endpoint_url: "https://apis.data.go.kr/x",
            ..Default::default()
        }),
        SpecStatus::PartialStub,
    );
}

#[test]
fn test_classify_partial_stub_link_api_takes_priority() {
    assert_eq!(
        SpecStatus::classify(&ClassificationHints {
            has_spec: true,
            is_partial: true,
            is_link_api: true,
            endpoint_url: "https://apis.data.go.kr/x",
            ..Default::default()
        }),
        SpecStatus::External,
    );
}

#[test]
fn test_schema_v4_constant() {
    assert_eq!(CURRENT_SCHEMA_VERSION, 4);
}

#[test]
fn classify_upper_case_wfs_is_unsupported() {
    assert_eq!(
        SpecStatus::classify(&ClassificationHints {
            endpoint_url: "https://geo.example.kr/WFS?request=GetCapabilities",
            ..Default::default()
        }),
        SpecStatus::Unsupported,
    );
}

#[test]
fn classify_skeleton_beats_url_rules() {
    assert_eq!(
        SpecStatus::classify(&ClassificationHints {
            is_skeleton: true,
            endpoint_url: "https://example.kr/wms",
            ..Default::default()
        }),
        SpecStatus::Skeleton,
    );
}

#[test]
fn user_messages_are_exact() {
    assert_eq!(SpecStatus::Available.user_message(), "API spec 사용 가능");
    assert_eq!(SpecStatus::CatalogOnly.user_message(), "카탈로그 정보만 있습니다.");
}

#[test]
fn map_protocols_are_unsupported_in_any_case() {
    for url in ["http://map.example.kr/geoserver/WMS", "https://x.kr/Wfs?service", "https://x.kr/wcs"] {
        let s = SpecStatus::classify(&ClassificationHints { endpoint_url: url, ..Default::default() });
        assert_eq!(s, SpecStatus::Unsupported, "{url}");
    }
}
