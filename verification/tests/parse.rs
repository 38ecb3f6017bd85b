use combat_log::record::parse_batch;
use combat_log::record::Record;
use combat_log::record::RecordParseError;
use combat_log::timestamp::Timestamp;

#[test]
fn lib_parse_timestamp_pacific() -> Result<(), RecordParseError> {
    let raw = "10/2/2024 17:36:02.460-7";
    let ts = Record::parse_timestamp(raw)?;
    assert_eq!((ts.year, ts.month, ts.day), (2024, 10, 2));
    assert_eq!((ts.hour, ts.minute, ts.second, ts.millisecond), (17, 36, 2, 460));

    Ok(())
}

#[test]
fn lib_parse_timestamp_bst() -> Result<(), RecordParseError> {
    let raw = "10/2/2024 17:36:02.460+1";
    let ts = Record::parse_timestamp(raw)?;
    assert_eq!((ts.year, ts.month, ts.day), (2024, 10, 2));
    assert_eq!((ts.hour, ts.minute, ts.second, ts.millisecond), (17, 36, 2, 460));

    Ok(())
}

#[test]
fn lib_parse_timestamp_utc() -> Result<(), RecordParseError> {
    let raw = "10/2/2024 17:36:02.460+0";
    let ts = Record::parse_timestamp(raw)?;
    assert_eq!((ts.year, ts.month, ts.day), (2024, 10, 2));
    assert_eq!((ts.hour, ts.minute, ts.second, ts.millisecond), (17, 36, 2, 460));

    Ok(())
}

#[test]
fn lib_parse_error_on_malformed_header() -> Result<(), RecordParseError> {
    let bad_headers = [
        // Missing two spaces between timestamp and rest of content
        "10/2/2024 17:34:00.153-7 COMBAT_LOG_VERSION,21,ADVANCED_LOG_ENABLED,1,BUILD_VERSION,11.0.2,PROJECT_ID,1",
    ];

    for header in bad_headers {
        let res: Result<Record, RecordParseError> = header.parse();
        assert!(matches!(res, Err(RecordParseError::HeaderMalformed)));
    }

    Ok(())
}

#[test]
fn lib_parse() -> Result<(), RecordParseError> {
    let entry = "10/2/2024 17:34:00.153-7  COMBAT_LOG_VERSION,21,ADVANCED_LOG_ENABLED,1,BUILD_VERSION,11.0.2,PROJECT_ID,1";
    let record: Record = entry.parse()?;

    let dt = Timestamp {
        year: 2024,
        month: 10,
        day: 2,
        hour: 17,
        minute: 34,
        second: 0,
        millisecond: 153,
    };
    assert_eq!(record.timestamp, dt);
    assert_eq!(
        record.fields,
        [
            "COMBAT_LOG_VERSION",
            "21",
            "ADVANCED_LOG_ENABLED",
            "1",
            "BUILD_VERSION",
            "11.0.2",
            "PROJECT_ID",
            "1"
        ]
    );

    Ok(())
}

#[test]
fn main_parse_timestamp_pacific() -> Result<(), RecordParseError> {
    let raw = "10/2/2024 17:36:02.460-7";
    let ts = Record::parse_timestamp(raw)?;
    assert_eq!((ts.year, ts.month, ts.day), (2024, 10, 2));
    assert_eq!((ts.hour, ts.minute, ts.second, ts.millisecond), (17, 36, 2, 460));

    Ok(())
}

#[test]
fn main_parse_timestamp_bst() -> Result<(), RecordParseError> {
    let raw = "10/2/2024 17:36:02.460+1";
    let ts = Record::parse_timestamp(raw)?;
    assert_eq!((ts.year, ts.month, ts.day), (2024, 10, 2));
    assert_eq!((ts.hour, ts.minute, ts.second, ts.millisecond), (17, 36, 2, 460));

    Ok(())
}

#[test]
fn main_parse_timestamp_utc() -> Result<(), RecordParseError> {
    let raw = "10/2/2024 17:36:02.460+0";
    let ts = Record::parse_timestamp(raw)?;
    assert_eq!((ts.year, ts.month, ts.day), (2024, 10, 2));
    assert_eq!((ts.hour, ts.minute, ts.second, ts.millisecond), (17, 36, 2, 460));

    Ok(())
}

#[test]
fn main_parse_error_on_malformed_header() -> Result<(), RecordParseError> {
    let bad_headers = [
        // Missing two spaces between timestamp and rest of content
        "10/2/2024 17:34:00.153-7 COMBAT_LOG_VERSION,21,ADVANCED_LOG_ENABLED,1,BUILD_VERSION,11.0.2,PROJECT_ID,1",
    ];

    for header in bad_headers {
        let res: Result<Record, RecordParseError> = header.parse();
        assert!(matches!(res, Err(RecordParseError::HeaderMalformed)));
    }

    Ok(())
}

#[test]
fn main_parse() -> Result<(), RecordParseError> {
    let entry = "10/2/2024 17:34:00.153-7  COMBAT_LOG_VERSION,21,ADVANCED_LOG_ENABLED,1,BUILD_VERSION,11.0.2,PROJECT_ID,1";
    let record: Record = entry.parse()?;

    let dt = Timestamp {
        year: 2024,
        month: 10,
        day: 2,
        hour: 17,
        minute: 34,
        second: 0,
        millisecond: 153,
    };
    assert_eq!(record.timestamp, dt);
    assert_eq!(
        record.fields,
        [
            "COMBAT_LOG_VERSION",
            "21",
            "ADVANCED_LOG_ENABLED",
            "1",
            "BUILD_VERSION",
            "11.0.2",
            "PROJECT_ID",
            "1"
        ]
    );

    Ok(())
}

#[test]
fn offsets_never_change_the_instant() {
    let a = Record::parse_timestamp("10/2/2024 17:36:02.460-7").unwrap();
    let b = Record::parse_timestamp("10/2/2024 17:36:02.460+1").unwrap();
    let c = Record::parse_timestamp("10/2/2024 17:36:02.460+0").unwrap();
    let plain = Record::parse_timestamp("10/2/2024 17:36:02.460").unwrap();
    assert_eq!(a, b);
    assert_eq!(b, c);
    assert_eq!(c, plain);
}

#[test]
fn offset_truncation_is_blind() {
    // Any first sign ends the date/time substring, even a nonsensical one.
    let res = Record::parse_timestamp("10/2/20-24 17:36:02.460");
    assert!(matches!(res, Err(RecordParseError::InvalidTimestamp)));
    // A sign right after a full timestamp leaves a parsable prefix.
    let ts = Record::parse_timestamp("10/2/2024 17:36:02.460-whatever trails here").unwrap();
    assert_eq!((ts.hour, ts.minute, ts.second, ts.millisecond), (17, 36, 2, 460));
}

#[test]
fn empty_fields_segment_is_no_records() {
    let res: Result<Record, RecordParseError> = "10/2/2024 17:34:00.153-7  ".parse();
    assert!(matches!(res, Err(RecordParseError::NoRecords)));
    let res: Result<Record, RecordParseError> = "10/2/2024 17:34:00.153-7  \n".parse();
    assert!(matches!(res, Err(RecordParseError::NoRecords)));
}

#[test]
fn lone_field_without_separator_is_kept() {
    let record: Record = "10/2/2024 17:34:00.153-7  COMBAT_LOG_VERSION".parse().unwrap();
    assert_eq!(record.fields, ["COMBAT_LOG_VERSION"]);
}

#[test]
fn quoted_fields_and_escaped_quotes() {
    let record: Record = "10/2/2024 17:34:00.153  a,\"b,c\",\"say \"\"hi\"\"\",d".parse().unwrap();
    assert_eq!(record.fields, ["a", "b,c", "say \"hi\"", "d"]);
}

#[test]
fn embedded_newline_keeps_only_first_row() {
    // The terminator inside the segment ends the row; the rest is dropped.
    let record: Record = "10/2/2024 17:34:00.153  a,b\nc,d".parse().unwrap();
    assert_eq!(record.fields, ["a", "b"]);
    // Inside quotes a newline is content, and it stays in the field.
    let record: Record = "10/2/2024 17:34:00.153  \"a\nb\",c".parse().unwrap();
    assert_eq!(record.fields, ["a\nb", "c"]);
}

#[test]
fn trailing_comma_yields_trailing_empty_field() {
    let record: Record = "10/2/2024 17:34:00.153  a,".parse().unwrap();
    assert_eq!(record.fields, ["a", ""]);
}

#[test]
fn first_double_space_is_the_split_point() {
    // The double space inside the timestamp text splits there, so the
    // timestamp segment is only the date and fails to parse as a full
    // date/time.
    let res: Result<Record, RecordParseError> = "10/2/2024  17:34:00.153  a,b".parse();
    assert!(matches!(res, Err(RecordParseError::InvalidTimestamp)));
    // Double spaces later in the fields segment are plain content.
    let record: Record = "10/2/2024 17:34:00.153  a,b  c,d".parse().unwrap();
    assert_eq!(record.fields, ["a", "b  c", "d"]);
}

#[test]
fn timestamp_grammar_edges() {
    // No fractional part: milliseconds default to zero.
    let ts = Record::parse_timestamp("1/1/2024 5:6:7").unwrap();
    assert_eq!(
        ts,
        Timestamp { year: 2024, month: 1, day: 1, hour: 5, minute: 6, second: 7, millisecond: 0 }
    );
    // The fraction must have exactly three digits.
    assert!(Record::parse_timestamp("1/1/2024 5:6:7.4").is_err());
    assert!(Record::parse_timestamp("1/1/2024 5:6:7.46").is_err());
    assert!(Record::parse_timestamp("1/1/2024 5:6:7.4601").is_err());
    // Calendar validity, leap years included.
    assert!(Record::parse_timestamp("2/29/2024 0:0:0").is_ok());
    assert!(Record::parse_timestamp("2/29/2023 0:0:0").is_err());
    assert!(Record::parse_timestamp("2/29/1900 0:0:0").is_err());
    assert!(Record::parse_timestamp("2/29/2000 0:0:0").is_ok());
    assert!(Record::parse_timestamp("4/31/2024 0:0:0").is_err());
    // Field ranges.
    assert!(Record::parse_timestamp("13/1/2024 0:0:0").is_err());
    assert!(Record::parse_timestamp("0/1/2024 0:0:0").is_err());
    assert!(Record::parse_timestamp("1/0/2024 0:0:0").is_err());
    assert!(Record::parse_timestamp("1/1/2024 24:0:0").is_err());
    assert!(Record::parse_timestamp("1/1/2024 23:60:0").is_err());
    assert!(Record::parse_timestamp("1/1/2024 23:59:60").is_err());
    // Trailing text after the time is rejected.
    assert!(Record::parse_timestamp("1/1/2024 5:6:7.460 tail").is_err());
}

#[test]
fn parsing_is_idempotent() {
    let line = "10/2/2024 17:34:00.153-7  COMBAT_LOG_VERSION,21";
    let first: Result<Record, RecordParseError> = line.parse();
    let second: Result<Record, RecordParseError> = line.parse();
    assert_eq!(first.unwrap(), second.unwrap());

    let bad = "no separator here";
    let first: Result<Record, RecordParseError> = bad.parse();
    let second: Result<Record, RecordParseError> = bad.parse();
    assert_eq!(first.unwrap_err(), second.unwrap_err());
}

#[test]
fn batch_keeps_order_and_fails_fast() {
    let lines = vec![
        "10/2/2024 17:34:00.153-7  COMBAT_LOG_VERSION,21".to_string(),
        "10/2/2024 17:34:00.154-7  SPELL_CAST_SUCCESS,x,y".to_string(),
    ];
    let batch = parse_batch(&lines).unwrap();
    assert_eq!(batch.len(), 2);
    assert_eq!(batch[0].fields, ["COMBAT_LOG_VERSION", "21"]);
    assert_eq!(batch[1].fields, ["SPELL_CAST_SUCCESS", "x", "y"]);
    assert_eq!(batch[0].timestamp.millisecond, 153);
    assert_eq!(batch[1].timestamp.millisecond, 154);

    let bad = vec![
        "10/2/2024 17:34:00.153-7  a,b".to_string(),
        "single space only here".to_string(),
        "not/a/date  c,d".to_string(),
    ];
    // The first failing line decides the error for the whole batch.
    assert_eq!(parse_batch(&bad).unwrap_err(), RecordParseError::HeaderMalformed);

    assert_eq!(parse_batch(&Vec::new()).unwrap().len(), 0);
}

#[test]
fn timestamp_text_is_zero_padded() {
    let ts = Record::parse_timestamp("10/2/2024 17:34:00.153-7").unwrap();
    assert_eq!(ts.to_text(), "2024-10-02T17:34:00.153");
    let ts = Record::parse_timestamp("1/1/2 3:4:5.006").unwrap();
    assert_eq!(ts.to_text(), "0002-01-01T03:04:05.006");
}
