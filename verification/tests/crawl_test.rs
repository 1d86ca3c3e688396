use korea_cli::crawl::{crawl_failure, ids_to_crawl, page_file_name, page_is_saved, CrawlError};

fn strings(v: &[&str]) -> Vec<String> {
    v.iter().map(|s| s.to_string()).collect()
}

#[test]
fn status_failure_keeps_code_and_reason() {
    let f = crawl_failure("15", CrawlError::Status(404, Some("Not Found".into())));
    assert_eq!(f.list_id, "15");
    assert_eq!(f.status, Some(404));
    assert_eq!(f.error, "404 Not Found");
    let f = crawl_failure("15", CrawlError::Status(599, None));
    assert_eq!(f.error, "599 ");
}

#[test]
fn other_failures() {
    let f = crawl_failure("1", CrawlError::Request("dns".into()));
    assert_eq!(f.status, None);
    assert_eq!(f.error, "request error: dns");
    let f = crawl_failure("1", CrawlError::Body("eof".into()));
    assert_eq!(f.status, Some(200));
    assert_eq!(f.error, "body read error: eof");
    let f = crawl_failure("1", CrawlError::Write("disk full".into()));
    assert_eq!(f.status, Some(200));
    assert_eq!(f.error, "write error: disk full");
}

#[test]
fn only_ok_pages_are_saved() {
    assert!(page_is_saved(200));
    assert!(!page_is_saved(301));
    assert!(!page_is_saved(500));
    assert_eq!(page_file_name("15084084"), "15084084.html");
}

#[test]
fn resume_skips_existing_pages() {
    let all = strings(&["1", "2", "3", "4"]);
    let existing = strings(&["3", "1", "9"]);
    assert_eq!(ids_to_crawl(&all, &existing), strings(&["2", "4"]));
    assert_eq!(ids_to_crawl(&all, &[]), all);
    assert!(ids_to_crawl(&[], &existing).is_empty());
}
