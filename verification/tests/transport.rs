use combat_log::record::Record;
use combat_log::transport::decode_fields;
use combat_log::transport::encode_fields;

fn strings(items: &[&str]) -> Vec<String> {
    items.iter().map(|s| s.to_string()).collect()
}

#[test]
fn encode_is_plain_json() {
    let fields = strings(&["COMBAT_LOG_VERSION", "21", "11.0.2"]);
    assert_eq!(encode_fields(&fields), "[\"COMBAT_LOG_VERSION\",\"21\",\"11.0.2\"]");
    assert_eq!(encode_fields(&strings(&[])), "[]");
    assert_eq!(encode_fields(&strings(&[""])), "[\"\"]");
}

#[test]
fn encode_matches_reference_serializer() {
    let samples = [
        strings(&[]),
        strings(&["a"]),
        strings(&["a", "b,c", ""]),
        strings(&["say \"hi\"", "back\\slash"]),
        strings(&["tab\tnewline\ncarriage\rbell\u{07}escape\u{1b}"]),
        strings(&["päivä", "日誌", "🗡"]),
    ];
    for fields in samples {
        let ours = encode_fields(&fields);
        let reference = serde_json::to_string(&fields).unwrap();
        assert_eq!(ours, reference);
    }
}

#[test]
fn round_trip_preserves_order_and_content() {
    let samples = [
        strings(&[]),
        strings(&["COMBAT_LOG_VERSION", "21", "ADVANCED_LOG_ENABLED", "1"]),
        strings(&["21", "0021", "1e3", "true", "null"]),
        strings(&["quote \"x\"", "comma,inside", "line\nbreak", "\\", ""]),
        strings(&["\u{00}\u{01}\u{1f}", "\u{feff}", "ünïcödé"]),
    ];
    for fields in samples {
        let text = encode_fields(&fields);
        let back = decode_fields(&text).unwrap();
        assert_eq!(back, fields);
        // The reference parser reads the same values back as well.
        let reference: Vec<String> = serde_json::from_str(&text).unwrap();
        assert_eq!(reference, fields);
    }
}

#[test]
fn numeric_looking_fields_stay_text() {
    let fields = strings(&["0021", "1.0", "1e3"]);
    let back = decode_fields(&encode_fields(&fields)).unwrap();
    assert_eq!(back, ["0021", "1.0", "1e3"]);
}

#[test]
fn decode_rejects_foreign_text() {
    assert_eq!(decode_fields(""), None);
    assert_eq!(decode_fields("["), None);
    assert_eq!(decode_fields("[\"a\""), None);
    assert_eq!(decode_fields("[\"a\",]"), None);
    assert_eq!(decode_fields("[\"a\" ,\"b\"]"), None);
    assert_eq!(decode_fields("[]x"), None);
    assert_eq!(decode_fields("[1,2]"), None);
    assert_eq!(decode_fields("x"), None);
    assert_eq!(decode_fields("[\"bad\\q\"]"), None);
    assert_eq!(decode_fields("[\"bad\\u00\"]"), None);
    // The decoder reads exactly what the encoder writes: an escape for a
    // printable character, or uppercase hex, is never written, so neither
    // is read.
    assert_eq!(decode_fields("[\"\\u0041\"]"), None);
    assert_eq!(decode_fields("[\"\\u001B\"]"), None);
    assert_eq!(decode_fields("[\"\\u001b\"]").unwrap(), ["\u{1b}"]);
}

#[test]
fn parsed_record_round_trips_through_transport() {
    let record: Record = "10/2/2024 17:34:00.153-7  COMBAT_LOG_VERSION,21,\"say \"\"hi\"\"\""
        .parse()
        .unwrap();
    let text = encode_fields(&record.fields);
    let back = decode_fields(&text).unwrap();
    assert_eq!(back, record.fields);
}
