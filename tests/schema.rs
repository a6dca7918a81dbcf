use huckli::{MILLISECOND_THRESHOLD, TableField, create_table_sql, determine_timestamp, to_datetime, to_datetime_ms};

fn field(name: &str, ty: Option<&str>, nullable: Option<bool>) -> TableField {
    TableField::new(name.to_string(), ty.map(|t| t.to_string()), nullable)
}

#[test]
fn field_sql_defaults_to_text_not_null() {
    assert_eq!(field("hotspot_key", None, None).to_sql(), "hotspot_key TEXT NOT NULL");
    assert_eq!(field("amount", Some("UBIGINT"), Some(false)).to_sql(), "amount UBIGINT NOT NULL");
    assert_eq!(field("location", Some("UBIGINT"), Some(true)).to_sql(), "location UBIGINT NULL");
}

#[test]
fn create_table_joins_fields_with_commas() {
    let fields = vec![field("a", None, None), field("b", Some("TIMESTAMPTZ"), Some(true))];
    assert_eq!(
        create_table_sql("rewards", &fields),
        "CREATE TABLE IF NOT EXISTS rewards (a TEXT NOT NULL,b TIMESTAMPTZ NULL)"
    );
    assert_eq!(create_table_sql("empty", &vec![]), "CREATE TABLE IF NOT EXISTS empty ()");
}

#[test]
fn timestamps_in_seconds_or_millis() {
    assert_eq!(to_datetime(1_700_000_000), 1_700_000_000_000);
    assert_eq!(to_datetime_ms(1_700_000_000_123), 1_700_000_000_123);
    assert_eq!(determine_timestamp(1_700_000_000), 1_700_000_000_000);
    assert_eq!(determine_timestamp(1_700_000_000_123), 1_700_000_000_123);
    assert_eq!(determine_timestamp(MILLISECOND_THRESHOLD), MILLISECOND_THRESHOLD as i64 * 1000);
    assert_eq!(determine_timestamp(MILLISECOND_THRESHOLD + 1), MILLISECOND_THRESHOLD as i64 + 1);
}

#[test]
fn files_processed_table_statement() {
    assert_eq!(
        create_table_sql(huckli::FILES_PROCESSED, &huckli::files_processed_fields()),
        "CREATE TABLE IF NOT EXISTS files_processed (file_name TEXT NOT NULL,prefix TEXT NOT NULL,\
         file_timestamp TIMESTAMPTZ NOT NULL,processed_at TIMESTAMPTZ NOT NULL)"
    );
}
