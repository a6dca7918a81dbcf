use huckli::{FileInfo, ListRequest, Listing, S3DecodeError, S3Error, select_window};

fn keys(v: &[&str]) -> Vec<String> {
    v.iter().map(|k| k.to_string()).collect()
}

fn stamps(files: &[FileInfo]) -> Vec<i64> {
    files.iter().map(|f| f.timestamp).collect()
}

#[test]
fn listing_follows_continuation_tokens() {
    let mut l = Listing::new("foo", None, None);
    assert_eq!(
        l.next_request(),
        Some(ListRequest { prefix: "foo".to_string(), continuation: None })
    );
    l.on_page(&keys(&["foo.1.gz", "foo.2.gz"]), Some("t1".to_string())).unwrap();
    assert_eq!(l.next_request().unwrap().continuation, Some("t1".to_string()));
    l.on_page(&keys(&["foo.3.gz"]), None).unwrap();
    assert_eq!(l.next_request(), None);
    assert_eq!(stamps(&l.finish()), vec![1, 2, 3]);
}

#[test]
fn listing_keeps_later_files_that_sort_before_the_watermark_key() {
    // foo.100.gz sorts before foo.99.gz, yet it is later than 99.
    let mut l = Listing::new("foo", Some(99), None);
    let req = l.next_request().unwrap();
    assert_eq!(req, ListRequest { prefix: "foo".to_string(), continuation: None });
    l.on_page(&keys(&["foo.100.gz", "foo.98.gz", "foo.99.gz"]), None).unwrap();
    assert_eq!(stamps(&l.finish()), vec![100]);
}

#[test]
fn listing_with_before_keeps_only_files_at_or_before() {
    let mut l = Listing::new("foo", None, Some(200));
    l.on_page(&keys(&["foo.100.gz", "foo.200.gz", "foo.201.gz", "foo.300.gz", "foo.150.gz"]), None)
        .unwrap();
    let files = l.finish();
    assert_eq!(stamps(&files), vec![100, 200, 150]);
    assert!(files.iter().all(|f| f.timestamp <= 200));
}

#[test]
fn listing_with_after_drops_files_at_or_before_watermark() {
    // Lexicographic order puts foo.99 after foo.100; the window still drops it.
    let mut l = Listing::new("foo", Some(100), None);
    l.on_page(&keys(&["foo.1000.gz", "foo.100.gz", "foo.99.gz", "foo.101.gz"]), None).unwrap();
    assert_eq!(stamps(&l.finish()), vec![1000, 101]);
}

#[test]
fn listing_aborts_on_malformed_key() {
    let mut l = Listing::new("foo", None, None);
    let r = l.on_page(&keys(&["foo.1.gz", "foo/bad", "foo.2.gz"]), None);
    assert_eq!(r, Err(S3Error::Decode(S3DecodeError::FileInfo("foo/bad".to_string()))));
}

#[test]
fn listing_of_empty_store_is_empty() {
    let mut l = Listing::new("foo", Some(5), Some(10));
    l.on_page(&vec![], None).unwrap();
    assert!(l.finish().is_empty());
}

#[test]
fn select_window_applies_both_bounds() {
    let files: Vec<FileInfo> = [5, 10, 15, 20, 25]
        .iter()
        .map(|t| FileInfo::parse(&format!("foo.{t}.gz")).unwrap())
        .collect();
    assert_eq!(stamps(&select_window(&files, Some(10), Some(20))), vec![15, 20]);
    assert_eq!(stamps(&select_window(&files, None, None)), vec![5, 10, 15, 20, 25]);
}

#[test]
fn listing_reports_the_first_malformed_key() {
    let mut l = Listing::new("foo", None, None);
    let r = l.on_page(&keys(&["foo.1.gz", "foo.99999999999999999999.gz", "bad"]), None);
    assert_eq!(
        r,
        Err(S3Error::Decode(S3DecodeError::Timestamp("foo.99999999999999999999.gz".to_string())))
    );
}
