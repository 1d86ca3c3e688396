use korea_cli::bundle::{
    check_schema, choose_bundle, compress_bundle_bytes, decompress_bundle_bytes, installed_report, BundleError,
    BundleSource,
};
use korea_cli::types::{BundleMetadata, CURRENT_SCHEMA_VERSION};

fn meta() -> BundleMetadata {
    BundleMetadata {
        version: "2026-01-01".into(),
        schema_version: CURRENT_SCHEMA_VERSION,
        api_count: 12,
        spec_count: 7,
        checksum: String::new(),
    }
}

/// A bundle in the field order of its encoding: metadata (version, schema, api count, spec
/// count, checksum), catalog entries (list id, title, description, keywords, org, category,
/// request count, endpoint, status index) and specs (here none).
type EncodedMeta = (String, u32, usize, usize, String);
type EncodedEntry = (String, String, String, Vec<String>, String, String, u32, String, u32);
type EncodedBundle = (EncodedMeta, Vec<EncodedEntry>, Vec<(String, String)>);

#[test]
fn test_roundtrip_compress_decompress() {
    let bundle: EncodedBundle = (
        ("test".into(), CURRENT_SCHEMA_VERSION, 1, 0, "abc".into()),
        vec![(
            "99999".into(),
            "Test API".into(),
            "A test".into(),
            vec!["test".into()],
            "TestOrg".into(),
            "TestCat".into(),
            42,
            "https://apis.data.go.kr/test".into(),
            0,
        )],
        vec![],
    );
    let encoded = postcard::to_allocvec(&bundle).unwrap();
    let compressed = compress_bundle_bytes(&encoded, 3).unwrap();
    assert_ne!(compressed, encoded);
    let decoded_bytes = decompress_bundle_bytes(&compressed).unwrap();
    let decoded: EncodedBundle = postcard::from_bytes(&decoded_bytes).unwrap();
    assert_eq!(decoded.1.len(), 1);
    assert_eq!(decoded.1[0].0, "99999");
    assert_eq!(decoded.0 .0, "test");
}

#[test]
fn test_decompress_invalid_data() {
    let result = decompress_bundle_bytes(b"not valid zstd");
    assert_eq!(result, Err(BundleError::Decompression));
}

#[test]
fn test_schema_version_mismatch_detected() {
    let report = check_schema(999).unwrap();
    assert_eq!(report.get("error").unwrap().as_str().unwrap(), "SCHEMA_MISMATCH");
    assert_eq!(report.get("remote_schema_version").unwrap().as_u64(), Some(999));
    assert_eq!(report.get("local_schema_version").unwrap().as_u64(), Some(CURRENT_SCHEMA_VERSION as u64));
}

#[test]
fn current_schema_passes_the_check() {
    assert!(check_schema(CURRENT_SCHEMA_VERSION).is_none());
}

#[test]
fn mismatch_messages_tell_newer_from_older() {
    let newer = check_schema(5).unwrap();
    assert_eq!(
        newer.get("message").unwrap().as_str().unwrap(),
        "새 번들(v5)은 최신 CLI가 필요합니다. `cargo install korea-cli`로 업데이트하세요 (현재 CLI: v4)"
    );
    let older = check_schema(3).unwrap();
    assert_eq!(
        older.get("message").unwrap().as_str().unwrap(),
        "구버전 번들(v3)입니다. 최신 Release가 아직 생성되지 않았습니다 (현재 CLI: v4)"
    );
}

#[test]
fn choose_bundle_prefers_a_current_download() {
    let (src, notes) = choose_bundle(Some(Some(CURRENT_SCHEMA_VERSION)));
    assert_eq!(src, BundleSource::Override);
    assert!(notes.is_empty());

    let (src, notes) = choose_bundle(None);
    assert_eq!(src, BundleSource::Embedded);
    assert!(notes.is_empty());
}

#[test]
fn choose_bundle_falls_back_with_a_notice() {
    let (src, notes) = choose_bundle(Some(Some(1)));
    assert_eq!(src, BundleSource::Embedded);
    assert_eq!(notes.len(), 2);
    assert!(notes[0].contains("스키마 버전이 다릅니다"));
    assert_eq!(notes[1], "최신 번들을 받으려면: korea-cli update");

    let (src, notes) = choose_bundle(Some(None));
    assert_eq!(src, BundleSource::Embedded);
    assert!(notes[0].contains("호환되지 않습니다"));
}

#[test]
fn installed_report_lists_counts() {
    let r = installed_report(&meta(), 2048, "/tmp/bundle.zstd");
    assert_eq!(r.get("success").unwrap().as_bool(), Some(true));
    assert_eq!(r.get("size_bytes").unwrap().as_u64(), Some(2048));
    assert_eq!(r.get("saved_to").unwrap().as_str().unwrap(), "/tmp/bundle.zstd");
    assert_eq!(r.get("message").unwrap().as_str().unwrap(), "번들 업데이트 완료: v2026-01-01 (12 APIs, 7 specs)");
}

#[test]
fn checksum_is_the_hex_hash_of_the_counts() {
    let mut h = std::collections::hash_map::DefaultHasher::new();
    std::hash::Hash::hash("12-7", &mut h);
    assert_eq!(korea_cli::bundle::bundle_checksum(12, 7), format!("{:x}", std::hash::Hasher::finish(&h)));
    assert_ne!(korea_cli::bundle::bundle_checksum(12, 7), korea_cli::bundle::bundle_checksum(7, 12));
}
