use advisory_walker::changes::parse_changes_x;
use advisory_walker::errors::SourceError;
use advisory_walker::retrieve::first_token_x;
use advisory_walker::retrieve::hex_lower_x;
use advisory_walker::since::next_watermark;
use advisory_walker::since::parse_since_file;
use advisory_walker::since::render_since_file;
use advisory_walker::timestamp::days_before_month_x;
use advisory_walker::timestamp::days_before_year_x;
use advisory_walker::timestamp::format_rfc3339;
use advisory_walker::timestamp::parse_rfc3339;

#[test]
fn parses_utc_timestamp() {
    assert_eq!(parse_rfc3339(b"2024-01-01T00:00:00Z"), Some(1704067200));
    assert_eq!(parse_rfc3339(b"1970-01-01T00:00:00Z"), Some(0));
    assert_eq!(parse_rfc3339(b"1970-01-02T00:00:00Z"), Some(86400));
    assert_eq!(parse_rfc3339(b"2024-06-01T12:30:45Z"), Some(1717245045));
}

#[test]
fn parses_leap_day() {
    assert_eq!(parse_rfc3339(b"2024-02-29T00:00:00Z"), Some(1709164800));
    assert_eq!(parse_rfc3339(b"2023-02-29T00:00:00Z"), None);
    assert_eq!(parse_rfc3339(b"2000-02-29T00:00:00Z"), Some(951782400));
    assert_eq!(parse_rfc3339(b"1900-02-29T00:00:00Z"), None);
}

#[test]
fn parses_offsets_and_fractions() {
    assert_eq!(parse_rfc3339(b"2024-01-01T01:00:00+01:00"), Some(1704067200));
    assert_eq!(parse_rfc3339(b"2023-12-31T23:00:00-01:00"), Some(1704067200));
    assert_eq!(parse_rfc3339(b"2024-01-01T00:00:00.25Z"), Some(1704067200));
    assert_eq!(parse_rfc3339(b"2024-01-01t00:00:00z"), Some(1704067200));
    assert_eq!(parse_rfc3339(b"2024-01-01 00:00:00Z"), Some(1704067200));
}

#[test]
fn rejects_malformed_timestamps() {
    assert_eq!(parse_rfc3339(b""), None);
    assert_eq!(parse_rfc3339(b"2024-13-01T00:00:00Z"), None);
    assert_eq!(parse_rfc3339(b"2024-04-31T00:00:00Z"), None);
    assert_eq!(parse_rfc3339(b"2024-01-01T24:00:00Z"), None);
    assert_eq!(parse_rfc3339(b"2024-01-01T00:00:00"), None);
    assert_eq!(parse_rfc3339(b"2024-01-01T00:00:00.Z"), None);
    assert_eq!(parse_rfc3339(b"1969-12-31T23:59:59Z"), None);
    assert_eq!(parse_rfc3339(b"2024-01-01T00:00:00Zx"), None);
    assert_eq!(parse_rfc3339(b"2024-01-01T00:00:00+25:00"), None);
}

#[test]
fn format_round_trips() {
    for t in [0u64, 1, 86399, 86400, 1704067200, 1717245045, 253402300799] {
        let rendered = format_rfc3339(t);
        assert_eq!(parse_rfc3339(&rendered), Some(t as i64));
    }
    assert_eq!(format_rfc3339(1704067200), b"2024-01-01T00:00:00Z".to_vec());
    assert_eq!(format_rfc3339(253402300799), b"9999-12-31T23:59:59Z".to_vec());
}

#[test]
fn day_arithmetic_matches_known_values() {
    assert_eq!(days_before_year_x(1970), 0);
    assert_eq!(days_before_year_x(1971), 365);
    assert_eq!(days_before_year_x(1973), 365 + 365 + 366);
    assert_eq!(days_before_month_x(2024, 3), 31 + 29);
    assert_eq!(days_before_month_x(2023, 3), 31 + 28);
}

#[test]
fn changes_csv_rows_parse() {
    let parsed = parse_changes_x(b"a.json,2024-01-01T00:00:00Z\nb.json,2024-06-01T00:00:00Z\n")
        .unwrap();
    assert_eq!(parsed.len(), 2);
    assert_eq!(parsed[0].file, b"a.json".to_vec());
    assert_eq!(parsed[0].modified, 1704067200);
    assert_eq!(parsed[1].file, b"b.json".to_vec());
}

#[test]
fn changes_csv_blank_trailing_line_is_ignored() {
    let parsed = parse_changes_x(b"a.json,2024-01-01T00:00:00Z\n\n").unwrap();
    assert_eq!(parsed.len(), 1);
    let crlf = parse_changes_x(b"a.json,2024-01-01T00:00:00Z\r\n\r\n").unwrap();
    assert_eq!(crlf.len(), 1);
    assert_eq!(crlf[0].file, b"a.json".to_vec());
}

#[test]
fn changes_csv_errors() {
    assert_eq!(
        parse_changes_x(b"a.json\n"),
        Err(SourceError::InvalidCsv)
    );
    assert_eq!(
        parse_changes_x(b"a.json,2024-01-01T00:00:00Z,extra\n"),
        Err(SourceError::InvalidCsv)
    );
    assert_eq!(
        parse_changes_x(b"a.json,yesterday\n"),
        Err(SourceError::InvalidCsv)
    );
}

#[test]
fn first_token_skips_leading_whitespace_and_comments() {
    assert_eq!(first_token_x(b"  abc  # comment"), b"abc".to_vec());
    assert_eq!(first_token_x(b"deadbeef  a.json\n"), b"deadbeef".to_vec());
    assert_eq!(first_token_x(b"\tdeadbeef"), b"deadbeef".to_vec());
    assert_eq!(first_token_x(b""), b"".to_vec());
    assert_eq!(first_token_x(b"   "), b"".to_vec());
}

#[test]
fn hex_encoding_is_lower_case() {
    assert_eq!(hex_lower_x(&[0x00, 0xab, 0xff, 0x1e]), b"00abff1e".to_vec());
    assert_eq!(hex_lower_x(&[]), b"".to_vec());
}

#[test]
fn since_file_round_trip() {
    let rendered = render_since_file(1704067200);
    assert_eq!(parse_since_file(&rendered), Some(1704067200));
    assert_eq!(parse_since_file(b" 2024-01-01T00:00:00Z\n"), Some(1704067200));
    assert_eq!(parse_since_file(b"not a time"), None);
    assert_eq!(next_watermark(1704067200, 3600), 1704063600);
}
