//! Tokenization of the fields segment of a log line.
//!
//! The segment is read as one row of comma-separated values: double quotes
//! open a quoted field, a doubled quote inside one stands for a literal
//! quote, and the row may hold any number of fields. A carriage return or
//! line feed outside a quoted field ends the row; whatever follows is
//! discarded. A leading byte-order mark is dropped, and leading row
//! terminators are skipped, so a segment of only terminators (or nothing at
//! all) yields no row.
//!
//! The tokenizer is lenient, as real-world log rows demand: a closing
//! quote followed by more text continues the field, and a quoted field
//! that never closes ends with the segment. Tokenization therefore never
//! fails; the only empty outcome is the absence of any row.
use vstd::prelude::*;

use crate::chars::chars_to_string;

verus! {

/// The tokenizer's position within a row: at the start of a field, inside
/// an unquoted field, inside a quoted field, or just after a quote read
/// inside a quoted field.
pub enum TokState {
    StartField,
    InField,
    InQuoted,
    QuoteInQuoted,
}

/// Whether `c` ends a row: carriage return or line feed.
pub open spec fn is_term_char(c: char) -> bool {
    c == '\r' || c == '\n'
}

/// The position of the first character at or after `i` that is not a row
/// terminator; `s.len()` if there is none.
pub open spec fn skip_terms(s: Seq<char>, i: int) -> int
    recommends
        0 <= i <= s.len(),
    decreases s.len() - i when 0 <= i <= s.len()
{
    if i < s.len() && is_term_char(s[i]) {
        skip_terms(s, i + 1)
    } else {
        i
    }
}

/// One row read from position `i` of `s` in state `st`, with `cur` the
/// content of the field being read and `acc` the fields already read. Each
/// step consumes one character; the row ends at an unquoted terminator or
/// at the end of `s`, and the field being read always completes the row.
pub open spec fn run_row(
    s: Seq<char>,
    i: int,
    st: TokState,
    cur: Seq<char>,
    acc: Seq<Seq<char>>,
) -> Seq<Seq<char>>
    recommends
        0 <= i <= s.len(),
    decreases s.len() - i when 0 <= i <= s.len()
{
    if i >= s.len() {
        acc.push(cur)
    } else {
        let c = s[i];
        match st {
            TokState::StartField => {
                if c == '"' {
                    run_row(s, i + 1, TokState::InQuoted, cur, acc)
                } else if c == ',' {
                    run_row(s, i + 1, TokState::StartField, Seq::<char>::empty(), acc.push(cur))
                } else if is_term_char(c) {
                    acc.push(cur)
                } else {
                    run_row(s, i + 1, TokState::InField, cur.push(c), acc)
                }
            },
            TokState::InField => {
                if c == ',' {
                    run_row(s, i + 1, TokState::StartField, Seq::<char>::empty(), acc.push(cur))
                } else if is_term_char(c) {
                    acc.push(cur)
                } else {
                    run_row(s, i + 1, TokState::InField, cur.push(c), acc)
                }
            },
            TokState::InQuoted => {
                if c == '"' {
                    run_row(s, i + 1, TokState::QuoteInQuoted, cur, acc)
                } else {
                    run_row(s, i + 1, TokState::InQuoted, cur.push(c), acc)
                }
            },
            TokState::QuoteInQuoted => {
                if c == '"' {
                    run_row(s, i + 1, TokState::InQuoted, cur.push('"'), acc)
                } else if c == ',' {
                    run_row(s, i + 1, TokState::StartField, Seq::<char>::empty(), acc.push(cur))
                } else if is_term_char(c) {
                    acc.push(cur)
                } else {
                    run_row(s, i + 1, TokState::InField, cur.push(c), acc)
                }
            },
        }
    }
}

/// The length of the byte-order mark prefix of `s`: one character when `s`
/// opens with one, zero otherwise.
pub open spec fn bom_len(s: Seq<char>) -> int {
    if s.len() > 0 && s[0] == '\u{feff}' {
        1
    } else {
        0
    }
}

/// The first row of `s`, if `s` holds one: a leading byte-order mark and
/// leading row terminators are dropped first, and `None` means nothing was
/// left. A present row is read by [`run_row`] from the start-of-field
/// state.
pub open spec fn first_row(s: Seq<char>) -> Option<Seq<Seq<char>>> {
    let j = skip_terms(s, bom_len(s));
    if j >= s.len() {
        None
    } else {
        Some(run_row(s, j, TokState::StartField, Seq::<char>::empty(), Seq::<Seq<char>>::empty()))
    }
}

/// Skipping terminators reaches the end exactly when every remaining
/// character is a terminator.
pub proof fn lemma_skip_terms_all(s: Seq<char>, i: int)
    requires
        0 <= i <= s.len(),
    ensures
        i <= skip_terms(s, i) <= s.len(),
        skip_terms(s, i) == s.len() <==> (forall|j: int|
            i <= j < s.len() ==> is_term_char(#[trigger] s[j])),
    decreases s.len() - i,
{
    if i < s.len() && is_term_char(s[i]) {
        lemma_skip_terms_all(s, i + 1);
    }
}

/// A segment yields no row exactly when, past an optional byte-order mark,
/// it holds nothing but row terminators — in particular when it is empty.
pub proof fn lemma_first_row_none(s: Seq<char>)
    ensures
        first_row(s) is None <==> (forall|j: int|
            bom_len(s) <= j < s.len() ==> is_term_char(#[trigger] s[j])),
{
    lemma_skip_terms_all(s, bom_len(s));
}

/// Executable counterpart of [`skip_terms`].
fn skip_terms_run(v: &Vec<char>, start: usize) -> (r: usize)
    requires
        start <= v.len(),
    ensures
        r as int == skip_terms(v@, start as int),
        start <= r <= v.len(),
{
    let mut i = start;
    while i < v.len() && (v[i] == '\r' || v[i] == '\n')
        invariant
            start <= i <= v.len(),
            skip_terms(v@, start as int) == skip_terms(v@, i as int),
        decreases v.len() - i,
    {
        i = i + 1;
    }
    i
}

/// Executable counterpart of [`first_row`]: the first row of the segment,
/// as owned strings, or `None` when the segment holds no row.
pub fn tokenize_first_row(v: &Vec<char>) -> (r: Option<Vec<String>>)
    ensures
        match r {
            Some(fields) => first_row(v@) == Some(fields.deep_view()),
            None => first_row(v@) is None,
        },
{
    let bom: usize = if v.len() > 0 && v[0] == '\u{feff}' {
        1
    } else {
        0
    };
    let start = skip_terms_run(v, bom);
    if start >= v.len() {
        return None;
    }
    let mut i = start;
    let mut st = TokState::StartField;
    let mut cur: Vec<char> = Vec::new();
    let mut fields: Vec<String> = Vec::new();
    proof {
        assert(fields.deep_view() =~= Seq::<Seq<char>>::empty());
    }
    while i < v.len()
        invariant
            start <= i <= v.len(),
            start < v.len(),
            first_row(v@) == Some(
                run_row(
                    v@,
                    start as int,
                    TokState::StartField,
                    Seq::<char>::empty(),
                    Seq::<Seq<char>>::empty(),
                ),
            ),
            run_row(v@, start as int, TokState::StartField, Seq::<char>::empty(), Seq::<Seq<char>>::empty())
                == run_row(v@, i as int, st, cur@, fields.deep_view()),
        decreases v.len() - i,
    {
        let c = v[i];
        match st {
            TokState::StartField => {
                if c == '"' {
                    st = TokState::InQuoted;
                } else if c == ',' {
                    let ghost old_cur = cur@;
                    let ghost old_fields = fields.deep_view();
                    fields.push(chars_to_string(&cur));
                    cur = Vec::new();
                    proof {
                        assert(fields.deep_view() =~= old_fields.push(old_cur));
                    }
                } else if c == '\r' || c == '\n' {
                    let ghost old_fields = fields.deep_view();
                    fields.push(chars_to_string(&cur));
                    proof {
                        assert(fields.deep_view() =~= old_fields.push(cur@));
                    }
                    return Some(fields);
                } else {
                    cur.push(c);
                    st = TokState::InField;
                }
            },
            TokState::InField => {
                if c == ',' {
                    let ghost old_cur = cur@;
                    let ghost old_fields = fields.deep_view();
                    fields.push(chars_to_string(&cur));
                    cur = Vec::new();
                    proof {
                        assert(fields.deep_view() =~= old_fields.push(old_cur));
                    }
                    st = TokState::StartField;
                } else if c == '\r' || c == '\n' {
                    let ghost old_fields = fields.deep_view();
                    fields.push(chars_to_string(&cur));
                    proof {
                        assert(fields.deep_view() =~= old_fields.push(cur@));
                    }
                    return Some(fields);
                } else {
                    cur.push(c);
                }
            },
            TokState::InQuoted => {
                if c == '"' {
                    st = TokState::QuoteInQuoted;
                } else {
                    cur.push(c);
                }
            },
            TokState::QuoteInQuoted => {
                if c == '"' {
                    cur.push('"');
                    st = TokState::InQuoted;
                } else if c == ',' {
                    let ghost old_cur = cur@;
                    let ghost old_fields = fields.deep_view();
                    fields.push(chars_to_string(&cur));
                    cur = Vec::new();
                    proof {
                        assert(fields.deep_view() =~= old_fields.push(old_cur));
                    }
                    st = TokState::StartField;
                } else if c == '\r' || c == '\n' {
                    let ghost old_fields = fields.deep_view();
                    fields.push(chars_to_string(&cur));
                    proof {
                        assert(fields.deep_view() =~= old_fields.push(cur@));
                    }
                    return Some(fields);
                } else {
                    cur.push(c);
                    st = TokState::InField;
                }
            },
        }
        i = i + 1;
    }
    let ghost old_fields = fields.deep_view();
    fields.push(chars_to_string(&cur));
    proof {
        assert(fields.deep_view() =~= old_fields.push(cur@));
    }
    Some(fields)
}

} // verus!
