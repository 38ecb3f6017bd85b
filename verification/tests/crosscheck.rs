//! Cross-checks the two grammars against widely used readers of the same
//! formats: chrono's strftime-style date/time parsing and a CSV reader set
//! up the way the log format expects one (flexible row width, double-quote
//! escaping, no header row).
use chrono::Datelike;
use chrono::Timelike;

use combat_log::fields::tokenize_first_row;
use combat_log::record::Record;

fn reference_timestamp(sub: &str) -> Option<(i32, u32, u32, u32, u32, u32, u32)> {
    let ts = match sub.find(|c: char| c == '-' || c == '+') {
        Some(index) => &sub[0..index],
        None => sub,
    };
    let dt = chrono::NaiveDateTime::parse_from_str(ts, "%-m/%-d/%Y %H:%M:%S%.3f").ok()?;
    Some((
        dt.year(),
        dt.month(),
        dt.day(),
        dt.hour(),
        dt.minute(),
        dt.second(),
        dt.nanosecond() / 1_000_000,
    ))
}

#[test]
fn timestamp_agrees_with_reference_parser() {
    let samples = [
        "10/2/2024 17:36:02.460-7",
        "10/2/2024 17:36:02.460+1",
        "10/2/2024 17:36:02.460",
        "10/2/2024 17:36:02",
        "1/1/2024 5:6:7",
        "01/02/2024 05:06:07.000",
        "2/29/2024 0:0:0.001",
        "2/29/2023 0:0:0.001",
        "2/29/2000 12:0:0",
        "2/29/1900 12:0:0",
        "12/31/9999 23:59:59.999",
        "13/1/2024 0:0:0",
        "0/1/2024 0:0:0",
        "1/32/2024 0:0:0",
        "4/31/2024 0:0:0",
        "1/1/2024 24:0:0",
        "1/1/2024 23:60:0",
        "1/1/2024 5:6:7.46",
        "1/1/2024 5:6:7.4601",
        "1/1/2024 5:6:7.",
        "1/1/2024 5:6:7 trailing",
        "10/ 2/2024 17:36:02.460",
        "10/2/2024\t17:36:02.460",
        "10/2/2024\u{2009}17:36:02.460",
        "\u{00a0}1/1/2024 0:0:0",
        "1/ 2/2024 3:4:5",
        "10/2/2024    17:36:02.460",
        "10/2/202417:36:02.460",
        "  1/1/2024 0:0:0",
        "1/1/24 0:0:0",
        "1/1/24560:0:0",
        "123/4/2024 0:0:0",
        "1/1/2024",
        "",
        "junk",
        "10/2/2024 17:36:02.460 +1",
    ];
    for sub in samples {
        let ours = Record::parse_timestamp(sub);
        let reference = reference_timestamp(sub);
        match (ours, reference) {
            (Ok(ts), Some((y, mo, d, h, mi, s, ms))) => {
                assert_eq!(
                    (
                        ts.year as i32,
                        ts.month as u32,
                        ts.day as u32,
                        ts.hour as u32,
                        ts.minute as u32,
                        ts.second as u32,
                        ts.millisecond as u32
                    ),
                    (y, mo, d, h, mi, s, ms),
                    "value mismatch on {:?}",
                    sub
                );
            }
            (Err(_), None) => {}
            (ours, reference) => {
                panic!("disagreement on {:?}: ours {:?}, reference {:?}", sub, ours, reference);
            }
        }
    }
}

fn reference_first_row(tail: &str) -> Option<Vec<String>> {
    let reader = csv::ReaderBuilder::new()
        .flexible(true)
        .double_quote(true)
        .has_headers(false)
        .from_reader(tail.as_bytes());
    let row = reader.into_records().next()?;
    Some(row.unwrap().into_iter().map(|x| x.to_string()).collect())
}

#[test]
fn fields_agree_with_reference_tokenizer() {
    let samples = [
        "COMBAT_LOG_VERSION,21,ADVANCED_LOG_ENABLED,1,BUILD_VERSION,11.0.2,PROJECT_ID,1",
        "",
        "\n",
        "\r\n\r\n",
        "a",
        ",",
        "a,",
        ",a",
        "a,,b",
        "\"a,b\",c",
        "\"say \"\"hi\"\"\",d",
        "\"unterminated",
        "\"closed\"then more,x",
        "mid\"quote,y",
        "\"a\nb\",c",
        "a,b\nc,d",
        "a,b\r\nc",
        "\n\nlate start,x",
        "\u{feff}bom,field",
        "ünïcödé,日誌,🗡",
        "\"\",\"\"",
        "  spaced  ,  out  ",
    ];
    for tail in samples {
        let chars: Vec<char> = tail.chars().collect();
        let ours = tokenize_first_row(&chars);
        let reference = reference_first_row(tail);
        assert_eq!(ours, reference, "disagreement on {:?}", tail);
    }
}
