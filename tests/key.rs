use huckli::{FileInfo, S3DecodeError, S3Error};

fn info(key: &str, prefix: &str, timestamp: i64) -> FileInfo {
    FileInfo { key: key.to_string(), prefix: prefix.to_string(), timestamp }
}

#[test]
fn parse_key_with_gz_suffix() {
    let f = FileInfo::parse("foo.1700000000123.gz").unwrap();
    assert_eq!(f, info("foo.1700000000123.gz", "foo", 1_700_000_000_123));
}

#[test]
fn parse_key_without_suffix() {
    let f = FileInfo::parse("mobile_reward_share.42").unwrap();
    assert_eq!(f, info("mobile_reward_share.42", "mobile_reward_share", 42));
}

#[test]
fn parse_key_with_digits_in_prefix_and_leading_zeros() {
    let f = FileInfo::parse("iot_v2.007.gz").unwrap();
    assert_eq!(f.prefix, "iot_v2");
    assert_eq!(f.timestamp, 7);
}

#[test]
fn parse_key_largest_timestamp() {
    let f = FileInfo::parse("foo.9223372036854775807.gz").unwrap();
    assert_eq!(f.timestamp, i64::MAX);
}

fn shape_error(key: &str) -> S3Error {
    S3Error::Decode(S3DecodeError::FileInfo(key.to_string()))
}

#[test]
fn parse_key_rejects_malformed_shapes() {
    for key in ["", "foo", "foo.", ".123", "foo.gz", "Foo.123", "foo.12a", "foo.123.zip", "foo.123.gzx",
        "a/foo.123.gz", "foo..123", "foo.-5.gz"]
    {
        assert_eq!(FileInfo::parse(key), Err(shape_error(key)), "key {key}");
    }
}

#[test]
fn parse_key_rejects_timestamp_overflow() {
    let key = "foo.9223372036854775808.gz";
    assert_eq!(
        FileInfo::parse(key),
        Err(S3Error::Decode(S3DecodeError::Timestamp(key.to_string())))
    );
}

#[test]
fn parse_key_prefers_shape_error_over_overflow() {
    let key = "foo.99999999999999999999999.zip";
    assert_eq!(FileInfo::parse(key), Err(shape_error(key)));
}

#[test]
fn start_after_key_formats_prefix_and_millis() {
    assert_eq!(FileInfo::start_after_key("foo", 100), "foo.100.gz");
    assert_eq!(FileInfo::start_after_key("foo", 0), "foo.0.gz");
    assert_eq!(FileInfo::start_after_key("foo", -5), "foo.-5.gz");
    assert_eq!(FileInfo::start_after_key("foo", i64::MIN), "foo.-9223372036854775808.gz");
}

#[test]
fn parse_inverts_start_after_key() {
    for (prefix, t) in [("foo", 0i64), ("foo", 250), ("data_transfer_session", 1_699_999_999_999), ("x9", i64::MAX)] {
        let key = FileInfo::start_after_key(prefix, t);
        let f = FileInfo::parse(&key).unwrap();
        assert_eq!(f, info(&key, prefix, t));
    }
}

#[test]
fn copy_keeps_every_field() {
    let f = info("foo.1.gz", "foo", 1);
    assert_eq!(f.copy(), f);
}
