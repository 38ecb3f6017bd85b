//! The log record and the parser that reads one from a raw line.
//!
//! A raw line is `<timestamp segment>  <fields segment>`: the first
//! occurrence of two consecutive spaces splits the line, the left part is
//! parsed as a timestamp after truncation at any timezone sign, and the
//! right part is tokenized as one row of comma-separated values. Parsing is
//! a pure function of the line: it either yields a [`Record`] or exactly one
//! [`RecordParseError`] variant.
use vstd::prelude::*;

use crate::chars::before_sign;
use crate::chars::double_space_pos;
use crate::chars::lemma_double_space_pos_bounds;
use crate::chars::sign_pos;
use crate::fields::first_row;
use crate::fields::tokenize_first_row;
use crate::timestamp::parse_timestamp_text;
use crate::timestamp::Timestamp;

verus! {

/// An unprocessed log record.
///
/// The only processing done to records is to separate and parse the
/// timestamp from the fields; the fields stay opaque text, in the order
/// the line gave them.
#[derive(Debug, Clone, PartialEq)]
pub struct Record {
    pub timestamp: Timestamp,
    pub fields: Vec<String>,
}

/// The mathematical value of a [`Record`]: its timestamp and the character
/// sequences of its fields.
pub struct RecordView {
    pub timestamp: Timestamp,
    pub fields: Seq<Seq<char>>,
}

impl View for Record {
    type V = RecordView;

    open spec fn view(&self) -> RecordView {
        RecordView { timestamp: self.timestamp, fields: self.fields.deep_view() }
    }
}

/// Why a line could not be parsed. Exactly one variant is reported per
/// failed call, and the set is closed: callers may branch on it.
#[derive(Clone, Copy, Debug, PartialEq, Eq, Structural)]
pub enum RecordParseError {
    /// The two-space separator is absent: the line cannot be split into a
    /// timestamp segment and a fields segment.
    HeaderMalformed,
    /// The timestamp segment, after truncation at any timezone sign, does
    /// not match the date/time grammar.
    InvalidTimestamp,
    /// The fields segment was rejected by the tokenizer. The tokenizer of
    /// this library is total, so parsing never reports this variant; it
    /// stands in the taxonomy for callers that branch over every kind of
    /// failure.
    InvalidFieldsFormat,
    /// The fields segment yields no row at all.
    NoRecords,
}

/// The result of parsing the line `s`: the record it denotes, or the one
/// error variant that applies. The first two consecutive spaces split the
/// line; only that first occurrence is a separator.
pub open spec fn spec_parse(s: Seq<char>) -> Result<RecordView, RecordParseError> {
    let d = double_space_pos(s, 0);
    if d == s.len() {
        Err(RecordParseError::HeaderMalformed)
    } else {
        match parse_timestamp_text(before_sign(s.take(d))) {
            None => Err(RecordParseError::InvalidTimestamp),
            Some(ts) => match first_row(s.skip(d + 2)) {
                None => Err(RecordParseError::NoRecords),
                Some(fs) => Ok(RecordView { timestamp: ts, fields: fs }),
            },
        }
    }
}

impl Record {
    /// Parses a timestamp segment such as `10/2/2024 17:36:02.460-7`.
    ///
    /// The segment is truncated at its first `-` or `+`, so a timezone
    /// offset (the `-7`) is discarded, never retained nor validated; the
    /// rest must match the date/time grammar.
    pub fn parse_timestamp(sub: &str) -> (r: Result<Timestamp, RecordParseError>)
        ensures
            match r {
                Ok(ts) => parse_timestamp_text(before_sign(sub@)) == Some(ts),
                Err(e) => {
                    &&& parse_timestamp_text(before_sign(sub@)) is None
                    &&& e == RecordParseError::InvalidTimestamp
                },
            },
    {
        let v = crate::chars::str_to_chars(sub);
        match crate::timestamp::parse_timestamp_vec(&v) {
            Some(ts) => Ok(ts),
            None => Err(RecordParseError::InvalidTimestamp),
        }
    }

    /// Parses one raw log line into a record.
    pub fn parse(s: &str) -> (r: Result<Record, RecordParseError>)
        ensures
            match r {
                Ok(rec) => spec_parse(s@) == Ok::<RecordView, RecordParseError>(rec@),
                Err(e) => spec_parse(s@) == Err::<RecordView, RecordParseError>(e),
            },
    {
        let v = crate::chars::str_to_chars(s);
        let d = crate::chars::double_space_pos_run(&v, 0);
        proof {
            lemma_double_space_pos_bounds(v@, 0);
        }
        if d == v.len() {
            return Err(RecordParseError::HeaderMalformed);
        }
        let head = crate::chars::copy_range(&v, 0, d);
        let ts = match crate::timestamp::parse_timestamp_vec(&head) {
            Some(ts) => ts,
            None => {
                proof {
                    assert(head@ =~= v@.take(d as int));
                }
                return Err(RecordParseError::InvalidTimestamp);
            },
        };
        proof {
            assert(head@ =~= v@.take(d as int));
        }
        let tail = crate::chars::copy_range(&v, d + 2, v.len());
        proof {
            assert(tail@ =~= v@.skip(d + 2));
        }
        match tokenize_first_row(&tail) {
            None => Err(RecordParseError::NoRecords),
            Some(fields) => Ok(Record { timestamp: ts, fields }),
        }
    }
}

/// The result of parsing a batch of lines in order: every record when
/// every line parses, otherwise the error of the first line that fails.
pub open spec fn spec_parse_batch(lines: Seq<Seq<char>>) -> Result<
    Seq<RecordView>,
    RecordParseError,
>
    decreases lines.len(),
{
    if lines.len() == 0 {
        Ok(Seq::<RecordView>::empty())
    } else {
        match spec_parse(lines[0]) {
            Err(e) => Err(e),
            Ok(rv) => match spec_parse_batch(lines.drop_first()) {
                Err(e) => Err(e),
                Ok(rest) => Ok(seq![rv] + rest),
            },
        }
    }
}

/// Parses every line of one import run into an ordered batch of records.
///
/// The first line that fails is fatal to the whole batch: its error is
/// returned and no partial batch is surfaced, so a caller persists either
/// every record or none.
pub fn parse_batch(lines: &Vec<String>) -> (r: Result<Vec<Record>, RecordParseError>)
    ensures
        match r {
            Ok(recs) => spec_parse_batch(lines.deep_view()) == Ok::<
                Seq<RecordView>,
                RecordParseError,
            >(recs@.map_values(|rec: Record| rec@)),
            Err(e) => spec_parse_batch(lines.deep_view()) == Err::<
                Seq<RecordView>,
                RecordParseError,
            >(e),
        },
{
    let ghost dv = lines.deep_view();
    let mut recs: Vec<Record> = Vec::new();
    proof {
        assert(dv.skip(0) =~= dv);
        assert(recs@.map_values(|rec: Record| rec@) =~= Seq::<RecordView>::empty());
    }
    let mut i: usize = 0;
    while i < lines.len()
        invariant
            i <= lines.len(),
            dv == lines.deep_view(),
            dv.len() == lines.len(),
            (match spec_parse_batch(dv.skip(i as int)) {
                Ok(rest) => spec_parse_batch(dv) == Ok::<Seq<RecordView>, RecordParseError>(
                    recs@.map_values(|rec: Record| rec@) + rest,
                ),
                Err(e) => spec_parse_batch(dv) == Err::<Seq<RecordView>, RecordParseError>(e),
            }),
        decreases lines.len() - i,
    {
        proof {
            assert(dv.skip(i as int).len() > 0);
            assert(dv.skip(i as int)[0] == dv[i as int]);
            assert(dv.skip(i as int).drop_first() =~= dv.skip(i + 1 as int));
        }
        let rec = match Record::parse(lines[i].as_str()) {
            Ok(rec) => rec,
            Err(e) => {
                return Err(e);
            },
        };
        let ghost prev = recs@.map_values(|rec: Record| rec@);
        let ghost rv = rec@;
        recs.push(rec);
        proof {
            assert(recs@.map_values(|rec: Record| rec@) =~= prev.push(rv));
            if spec_parse_batch(dv.skip(i + 1 as int)) is Ok {
                let rest = spec_parse_batch(dv.skip(i + 1 as int))->Ok_0;
                assert(prev + (seq![rv] + rest) =~= prev.push(rv) + rest);
            }
        }
        i = i + 1;
    }
    proof {
        assert(dv.skip(lines.len() as int) =~= Seq::<Seq<char>>::empty());
        assert(spec_parse_batch(Seq::<Seq<char>>::empty()) == Ok::<
            Seq<RecordView>,
            RecordParseError,
        >(Seq::<RecordView>::empty()));
        assert(recs@.map_values(|rec: Record| rec@) + Seq::<RecordView>::empty() =~= recs@
            .map_values(|rec: Record| rec@));
    }
    Ok(recs)
}

/// Parsing is deterministic: two results of parsing the same line are
/// structurally equal, records and error variants alike. Parsing a line is
/// a pure function of its characters, so parsing it twice cannot differ.
pub proof fn lemma_parse_deterministic(
    s: Seq<char>,
    r1: Result<RecordView, RecordParseError>,
    r2: Result<RecordView, RecordParseError>,
)
    requires
        r1 == spec_parse(s),
        r2 == spec_parse(s),
    ensures
        r1 == r2,
{
}

/// A well-formed line parses to exactly its parts: when a timestamp
/// segment that holds no double space and does not end in a space is
/// joined to a fields segment by two spaces, parsing succeeds with that
/// segment's timestamp and that segment's fields, in their original order.
pub proof fn lemma_well_formed_line(head: Seq<char>, tail: Seq<char>, ts: Timestamp, fs: Seq<
    Seq<char>,
>)
    requires
        double_space_pos(head, 0) == head.len(),
        head.len() > 0 ==> head.last() != ' ',
        parse_timestamp_text(before_sign(head)) == Some(ts),
        first_row(tail) == Some(fs),
    ensures
        spec_parse(head + seq![' ', ' '] + tail) == Ok::<RecordView, RecordParseError>(
            RecordView { timestamp: ts, fields: fs },
        ),
{
    let s = head + seq![' ', ' '] + tail;
    lemma_double_space_pos_bounds(head, 0);
    assert forall|j: int| 0 <= j && j + 2 <= s.len() && j < head.len() implies !(#[trigger] s[j]
        == ' ' && s[j + 1] == ' ') by {
        if j + 2 <= head.len() {
            assert(s[j] == head[j] && s[j + 1] == head[j + 1]);
        } else {
            assert(j == head.len() - 1 && s[j] == head[j]);
            assert(head[j] == head.last());
        }
    }
    crate::chars::lemma_double_space_pos_is(s, 0, head.len() as int);
    assert(s.take(head.len() as int) =~= head);
    assert(s.skip(head.len() + 2 as int) =~= tail);
}

/// Timezone offsets are ignored: whatever stands after the first `-` or
/// `+` of a timestamp segment, the segment parses exactly as its sign-free
/// prefix alone does, so the offset never changes the parsed instant.
pub proof fn lemma_offset_ignored(base: Seq<char>, offset: Seq<char>)
    requires
        sign_pos(base, 0) == base.len(),
        offset.len() > 0,
        offset[0] == '-' || offset[0] == '+',
    ensures
        before_sign(base + offset) == base,
        parse_timestamp_text(before_sign(base + offset)) == parse_timestamp_text(base),
{
    let s = base + offset;
    crate::chars::lemma_sign_pos_bounds(base, 0);
    assert forall|j: int| 0 <= j < base.len() implies !(#[trigger] s[j] == '-' || s[j] == '+') by {
        assert(s[j] == base[j]);
    }
    assert(s[base.len() as int] == offset[0]);
    crate::chars::lemma_sign_pos_is(s, 0, base.len() as int);
    assert(before_sign(s) =~= base);
}

/// The missing-fields error comes exactly from a blank fields segment: on
/// a line that splits and whose timestamp parses, the result is the
/// missing-fields error if and only if the fields segment holds nothing
/// beyond an optional byte-order mark and row terminators — never an empty
/// field list.
pub proof fn lemma_no_fields_error(s: Seq<char>)
    requires
        double_space_pos(s, 0) < s.len(),
        parse_timestamp_text(before_sign(s.take(double_space_pos(s, 0)))) is Some,
    ensures
        spec_parse(s) == Err::<RecordView, RecordParseError>(RecordParseError::NoRecords) <==> {
            let t = s.skip(double_space_pos(s, 0) + 2);
            forall|j: int|
                crate::fields::bom_len(t) <= j < t.len() ==> crate::fields::is_term_char(
                    #[trigger] t[j],
                )
        },
{
    lemma_double_space_pos_bounds(s, 0);
    crate::fields::lemma_first_row_none(s.skip(double_space_pos(s, 0) + 2));
}

/// Every record that parsing yields carries a well-formed timestamp.
pub proof fn lemma_parse_record_well_formed(s: Seq<char>)
    ensures
        spec_parse(s) matches Ok(rv) ==> rv.timestamp.well_formed(),
{
    if spec_parse(s) is Ok {
        crate::timestamp::lemma_parse_timestamp_well_formed(
            before_sign(s.take(double_space_pos(s, 0))),
        );
    }
}

impl core::str::FromStr for Record {
    type Err = RecordParseError;

    fn from_str(s: &str) -> Result<Record, RecordParseError> {
        Record::parse(s)
    }
}

} // verus!
