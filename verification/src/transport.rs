//! The transport form of a record's fields: a JSON array of strings.
//!
//! Fields are persisted and exchanged as one JSON array of string literals,
//! `["COMBAT_LOG_VERSION","21"]`. The encoder escapes a quote, a backslash
//! and every control character, and nothing else, the way a JSON serializer
//! of plain strings does; the decoder reads exactly that form back. Every
//! field stays opaque text: no numeric coercion, no reordering, no loss.
use vstd::prelude::*;

use crate::chars::chars_to_string;
use crate::chars::str_to_chars;

verus! {

/// The lowercase hexadecimal digit of `v`.
pub open spec fn hex_digit(v: int) -> char
    recommends
        0 <= v < 16,
{
    if v == 0 {
        '0'
    } else if v == 1 {
        '1'
    } else if v == 2 {
        '2'
    } else if v == 3 {
        '3'
    } else if v == 4 {
        '4'
    } else if v == 5 {
        '5'
    } else if v == 6 {
        '6'
    } else if v == 7 {
        '7'
    } else if v == 8 {
        '8'
    } else if v == 9 {
        '9'
    } else if v == 10 {
        'a'
    } else if v == 11 {
        'b'
    } else if v == 12 {
        'c'
    } else if v == 13 {
        'd'
    } else if v == 14 {
        'e'
    } else {
        'f'
    }
}

/// Whether `c` is a digit the decoder accepts in a `\u` escape: the
/// lowercase hexadecimal alphabet the encoder writes.
pub open spec fn is_hex_digit(c: char) -> bool {
    ('0' <= c && c <= '9') || ('a' <= c && c <= 'f')
}

/// The value of a lowercase hexadecimal digit.
pub open spec fn hex_val(c: char) -> int
    recommends
        is_hex_digit(c),
{
    if '0' <= c && c <= '9' {
        c as int - '0' as int
    } else {
        c as int - 'a' as int + 10
    }
}

/// Reading back the digit written for `v` gives `v`.
pub proof fn lemma_hex_digit_val(v: int)
    requires
        0 <= v < 16,
    ensures
        is_hex_digit(hex_digit(v)),
        hex_val(hex_digit(v)) == v,
{
}

/// The characters written for `c` inside a string literal: a two-character
/// escape for a quote, a backslash and the control characters that have
/// one, a `\u00..` escape for the other control characters, and `c` itself
/// otherwise.
pub open spec fn escape_char(c: char) -> Seq<char> {
    if c == '"' {
        seq!['\\', '"']
    } else if c == '\\' {
        seq!['\\', '\\']
    } else if c == '\u{08}' {
        seq!['\\', 'b']
    } else if c == '\t' {
        seq!['\\', 't']
    } else if c == '\n' {
        seq!['\\', 'n']
    } else if c == '\u{0c}' {
        seq!['\\', 'f']
    } else if c == '\r' {
        seq!['\\', 'r']
    } else if (c as u32) < 32 {
        seq!['\\', 'u', '0', '0', hex_digit(c as u32 as int / 16), hex_digit(c as u32 as int % 16)]
    } else {
        seq![c]
    }
}

/// The body of the string literal for `s`: each character escaped, in
/// order.
pub open spec fn enc_str_body(s: Seq<char>) -> Seq<char>
    decreases s.len(),
{
    if s.len() == 0 {
        Seq::<char>::empty()
    } else {
        escape_char(s[0]) + enc_str_body(s.drop_first())
    }
}

/// The string literal for `s`: its escaped body between quotes.
pub open spec fn enc_string(s: Seq<char>) -> Seq<char> {
    seq!['"'] + enc_str_body(s) + seq!['"']
}

/// The text written for each field after the first: a comma and the
/// field's string literal.
pub open spec fn enc_fields_rest(fs: Seq<Seq<char>>) -> Seq<char>
    decreases fs.len(),
{
    if fs.len() == 0 {
        Seq::<char>::empty()
    } else {
        seq![','] + enc_string(fs[0]) + enc_fields_rest(fs.drop_first())
    }
}

/// The transport text of a field list: a JSON array of string literals.
pub open spec fn encode_fields_text(fs: Seq<Seq<char>>) -> Seq<char> {
    if fs.len() == 0 {
        seq!['[', ']']
    } else {
        seq!['['] + enc_string(fs[0]) + enc_fields_rest(fs.drop_first()) + seq![']']
    }
}

/// The character a two-character escape stands for, if `e` is one the
/// format has.
pub open spec fn unescape(e: char) -> Option<char> {
    if e == '"' {
        Some('"')
    } else if e == '\\' {
        Some('\\')
    } else if e == '/' {
        Some('/')
    } else if e == 'b' {
        Some('\u{08}')
    } else if e == 'f' {
        Some('\u{0c}')
    } else if e == 'n' {
        Some('\n')
    } else if e == 'r' {
        Some('\r')
    } else if e == 't' {
        Some('\t')
    } else {
        None
    }
}

/// Reading a string literal's body from position `i` of `s`, with `acc`
/// the characters already read: the content up to the closing quote and
/// the position just past it, or `None` when the text is not a literal the
/// format writes.
pub open spec fn dec_str(s: Seq<char>, i: int, acc: Seq<char>) -> Option<(Seq<char>, int)>
    recommends
        0 <= i <= s.len(),
    decreases s.len() - i when 0 <= i <= s.len()
{
    if i >= s.len() {
        None
    } else if s[i] == '"' {
        Some((acc, i + 1))
    } else if s[i] == '\\' {
        if i + 1 >= s.len() {
            None
        } else {
            let e = s[i + 1];
            if e == 'u' {
                if i + 6 <= s.len() && is_hex_digit(s[i + 2]) && is_hex_digit(s[i + 3])
                    && is_hex_digit(s[i + 4]) && is_hex_digit(s[i + 5]) {
                    let v = hex_val(s[i + 2]) * 4096 + hex_val(s[i + 3]) * 256 + hex_val(
                        s[i + 4],
                    ) * 16 + hex_val(s[i + 5]);
                    if v < 32 {
                        dec_str(s, i + 6, acc.push((v as u32) as char))
                    } else {
                        None
                    }
                } else {
                    None
                }
            } else {
                match unescape(e) {
                    Some(c) => dec_str(s, i + 2, acc.push(c)),
                    None => None,
                }
            }
        }
    } else {
        dec_str(s, i + 1, acc.push(s[i]))
    }
}

/// Appending a character to a string appends its escape to the encoded
/// body.
pub proof fn lemma_enc_str_body_push(s: Seq<char>, c: char)
    ensures
        enc_str_body(s.push(c)) == enc_str_body(s) + escape_char(c),
    decreases s.len(),
{
    if s.len() == 0 {
        assert(s.push(c)[0] == c);
        assert(s.push(c).drop_first() =~= Seq::<char>::empty());
        assert(enc_str_body(Seq::<char>::empty()) =~= Seq::<char>::empty());
        assert(enc_str_body(s.push(c)) =~= escape_char(c));
        assert(enc_str_body(s) + escape_char(c) =~= escape_char(c));
    } else {
        assert(s.push(c).drop_first() =~= s.drop_first().push(c));
        lemma_enc_str_body_push(s.drop_first(), c);
        assert(s.push(c)[0] == s[0]);
        assert(enc_str_body(s.push(c)) =~= enc_str_body(s) + escape_char(c));
    }
}

/// Appending a field appends a comma and its literal to the encoded rest.
pub proof fn lemma_enc_fields_rest_push(fs: Seq<Seq<char>>, f: Seq<char>)
    ensures
        enc_fields_rest(fs.push(f)) == enc_fields_rest(fs) + seq![','] + enc_string(f),
    decreases fs.len(),
{
    if fs.len() == 0 {
        assert(fs.push(f)[0] == f);
        assert(fs.push(f).drop_first() =~= Seq::<Seq<char>>::empty());
        assert(enc_fields_rest(Seq::<Seq<char>>::empty()) =~= Seq::<char>::empty());
        assert(enc_fields_rest(fs.push(f)) =~= enc_fields_rest(fs) + seq![','] + enc_string(f));
    } else {
        assert(fs.push(f).drop_first() =~= fs.drop_first().push(f));
        lemma_enc_fields_rest_push(fs.drop_first(), f);
        assert(fs.push(f)[0] == fs[0]);
        assert(enc_fields_rest(fs.push(f)) =~= enc_fields_rest(fs) + seq![','] + enc_string(f));
    }
}

/// Decoding inverts encoding, one string literal at a time: where the text
/// from position `i` on opens with the encoded body of `fld` and its
/// closing quote, reading a literal yields exactly `fld` appended to what
/// was read before, ending just past the quote.
pub proof fn lemma_dec_of_enc_str(t: Seq<char>, i: int, fld: Seq<char>, acc: Seq<char>)
    requires
        0 <= i,
        i + enc_str_body(fld).len() + 1 <= t.len(),
        t.subrange(i, i + enc_str_body(fld).len() + 1) == enc_str_body(fld) + seq!['"'],
    ensures
        dec_str(t, i, acc) == Some((acc + fld, i + enc_str_body(fld).len() + 1)),
    decreases fld.len(),
{
    let e = enc_str_body(fld);
    let q = seq!['"'];
    let sub = t.subrange(i, i + e.len() + 1);
    if fld.len() == 0 {
        assert(sub[0] == t[i + 0]);
        assert(sub[0] == (e + q)[0]);
        assert(t[i] == '"');
        assert(acc + fld =~= acc);
    } else {
        let c0 = fld[0];
        let rest = fld.drop_first();
        let e0 = escape_char(c0);
        let erest = enc_str_body(rest);
        assert(e == e0 + erest);
        let k = e0.len() as int;
        assert forall|j: int| 0 <= j < k implies t[i + j] == #[trigger] e0[j] by {
            assert(sub[j] == t[i + j]);
            assert(sub[j] == (e + q)[j]);
            assert((e + q)[j] == e[j]);
            assert(e[j] == (e0 + erest)[j]);
        }
        let nsub = t.subrange(i + k, i + k + erest.len() + 1);
        assert(nsub =~= erest + q) by {
            assert forall|j: int| 0 <= j < erest.len() + 1 implies #[trigger] nsub[j] == (erest
                + q)[j] by {
                assert(nsub[j] == t[i + k + j]);
                assert(sub[k + j] == t[i + (k + j)]);
                assert(sub[k + j] == (e + q)[k + j]);
                if k + j < e.len() {
                    assert((e + q)[k + j] == e[k + j]);
                    assert(e[k + j] == (e0 + erest)[k + j]);
                    assert((e0 + erest)[k + j] == erest[j]);
                    assert((erest + q)[j] == erest[j]);
                } else {
                    assert((e + q)[k + j] == q[0]);
                    assert((erest + q)[j] == q[0]);
                }
            }
        }
        lemma_dec_of_enc_str(t, i + k, rest, acc.push(c0));
        assert(acc.push(c0) + rest =~= acc + fld);
        if c0 == '"' || c0 == '\\' || c0 == '\u{08}' || c0 == '\t' || c0 == '\n' || c0 == '\u{0c}'
            || c0 == '\r' {
            assert(k == 2);
            assert(t[i + 0] == e0[0]);
            assert(t[i + 1] == e0[1]);
            assert(t[i] == '\\');
            assert(unescape(t[i + 1]) == Some(c0));
        } else if (c0 as u32) < 32 {
            let cv = c0 as u32 as int;
            let hi = cv / 16;
            let lo = cv % 16;
            assert(k == 6);
            assert(t[i + 0] == e0[0]);
            assert(t[i + 1] == e0[1]);
            assert(t[i + 2] == e0[2]);
            assert(t[i + 3] == e0[3]);
            assert(t[i + 4] == e0[4]);
            assert(t[i + 5] == e0[5]);
            assert(t[i] == '\\' && t[i + 1] == 'u' && t[i + 2] == '0' && t[i + 3] == '0');
            assert(t[i + 4] == hex_digit(hi) && t[i + 5] == hex_digit(lo));
            assert(0 <= hi < 16 && 0 <= lo < 16);
            lemma_hex_digit_val(hi);
            lemma_hex_digit_val(lo);
            assert(hex_val('0') == 0);
            let v = hex_val(t[i + 2]) * 4096 + hex_val(t[i + 3]) * 256 + hex_val(t[i + 4]) * 16
                + hex_val(t[i + 5]);
            assert(v == 16 * hi + lo);
            assert(v == cv);
            vstd::utf8::char_u32_cast(c0, c0 as u32);
            assert((v as u32) as char == c0);
        } else {
            assert(k == 1);
            assert(t[i + 0] == e0[0]);
            assert(t[i] == c0);
        }
    }
}

/// Decoding inverts encoding for the tail of an array: where the text from
/// position `i` to its end is exactly the encoding of the remaining fields
/// and the closing bracket, reading the rest yields all the fields.
pub proof fn lemma_dec_of_enc_rest(t: Seq<char>, i: int, fs: Seq<Seq<char>>, acc: Seq<Seq<char>>)
    requires
        0 <= i <= t.len(),
        t.subrange(i, t.len() as int) == enc_fields_rest(fs) + seq![']'],
    ensures
        dec_fields_rest(t, i, acc) == Some(acc + fs),
    decreases fs.len(),
{
    let sub = t.subrange(i, t.len() as int);
    let close = seq![']'];
    let efr = enc_fields_rest(fs);
    assert(sub.len() == t.len() - i);
    assert(t.len() - i == efr.len() + 1);
    if fs.len() == 0 {
        assert(sub[0] == t[i + 0]);
        assert(sub[0] == (efr + close)[0]);
        assert(t[i] == ']');
        assert(i + 1 == t.len());
        assert(acc + fs =~= acc);
    } else {
        let f0 = fs[0];
        let frest = fs.drop_first();
        let e0 = enc_str_body(f0);
        let es = enc_string(f0);
        assert(efr == seq![','] + es + enc_fields_rest(frest));
        assert(es == seq!['"'] + e0 + seq!['"']);
        assert forall|j: int| 0 <= j < efr.len() + 1 implies t[i + j] == #[trigger] (efr
            + close)[j] by {
            assert(sub[j] == t[i + j]);
            assert(sub[j] == (efr + close)[j]);
        }
        assert(t[i + 0] == (efr + close)[0]);
        assert((efr + close)[0] == efr[0]);
        assert(efr[0] == (seq![','] + es + enc_fields_rest(frest))[0]);
        assert(t[i] == ',');
        assert(t[i + 1] == (efr + close)[1]);
        assert((efr + close)[1] == efr[1]);
        assert(efr[1] == es[0]);
        assert(es[0] == (seq!['"'] + e0 + seq!['"'])[0]);
        assert(t[i + 1] == '"');
        let n = i + 2 + e0.len() + 1;
        let str_sub = t.subrange(i + 2, n);
        assert(str_sub =~= e0 + seq!['"']) by {
            assert forall|j: int| 0 <= j < e0.len() + 1 implies #[trigger] str_sub[j] == (e0
                + seq!['"'])[j] by {
                assert(str_sub[j] == t[i + 2 + j]);
                assert(t[i + (2 + j)] == (efr + close)[2 + j]);
                assert((efr + close)[2 + j] == efr[2 + j]);
                assert(efr[2 + j] == es[1 + j]);
                assert(es[1 + j] == ((seq!['"'] + e0) + seq!['"'])[1 + j]);
                if j < e0.len() {
                    assert(((seq!['"'] + e0) + seq!['"'])[1 + j] == (seq!['"'] + e0)[1 + j]);
                    assert((seq!['"'] + e0)[1 + j] == e0[j]);
                    assert((e0 + seq!['"'])[j] == e0[j]);
                } else {
                    assert(((seq!['"'] + e0) + seq!['"'])[1 + j] == '"');
                    assert((e0 + seq!['"'])[j] == '"');
                }
            }
        }
        lemma_dec_of_enc_str(t, i + 2, f0, Seq::<char>::empty());
        assert(dec_str(t, i + 2, Seq::<char>::empty()) == Some((f0, n))) by {
            assert(Seq::<char>::empty() + f0 =~= f0);
        }
        let rest_sub = t.subrange(n, t.len() as int);
        assert(rest_sub =~= enc_fields_rest(frest) + close) by {
            assert forall|j: int| 0 <= j < t.len() - n implies #[trigger] rest_sub[j] == (
            enc_fields_rest(frest) + close)[j] by {
                assert(rest_sub[j] == t[n + j]);
                assert(t[i + (n - i + j)] == (efr + close)[n - i + j]);
                assert(n - i + j == 2 + e0.len() + 1 + j);
                if n - i + j < efr.len() {
                    assert((efr + close)[n - i + j] == efr[n - i + j]);
                    assert(efr[n - i + j] == ((seq![','] + es) + enc_fields_rest(frest))[n - i
                        + j]);
                    assert(((seq![','] + es) + enc_fields_rest(frest))[n - i + j]
                        == enc_fields_rest(frest)[j]) by {
                        assert((seq![','] + es).len() == n - i);
                    }
                    assert((enc_fields_rest(frest) + close)[j] == enc_fields_rest(frest)[j]);
                } else {
                    assert((efr + close)[n - i + j] == ']');
                    assert((enc_fields_rest(frest) + close)[j] == ']');
                }
            }
        }
        lemma_dec_of_enc_rest(t, n, frest, acc.push(f0));
        assert(acc.push(f0) + frest =~= acc + fs);
    }
}

/// Round trip: the transport text of any field list decodes to exactly
/// that list — same order, same characters, every field still text.
pub proof fn lemma_decode_encode(fs: Seq<Seq<char>>)
    ensures
        decode_fields_text(encode_fields_text(fs)) == Some(fs),
{
    let s = encode_fields_text(fs);
    if fs.len() == 0 {
        assert(s[0] == '[' && s[1] == ']' && s.len() == 2);
        assert(Seq::<Seq<char>>::empty() =~= fs);
    } else {
        let f0 = fs[0];
        let frest = fs.drop_first();
        let e0 = enc_str_body(f0);
        assert(s[0] == '[');
        assert(s[1] == enc_string(f0)[0]);
        assert(s[1] == '"');
        let n = 2 + e0.len() as int + 1;
        assert(s.subrange(2, n) =~= e0 + seq!['"']) by {
            assert forall|j: int| 0 <= j < e0.len() + 1 implies s.subrange(2, n)[j] == (e0
                + seq!['"'])[j] by {
                assert(s[2 + j] == enc_string(f0)[1 + j]);
            }
        }
        lemma_dec_of_enc_str(s, 2, f0, Seq::<char>::empty());
        assert(dec_str(s, 2, Seq::<char>::empty()) == Some((f0, n))) by {
            assert(Seq::<char>::empty() + f0 =~= f0);
        }
        assert(s.subrange(n, s.len() as int) =~= enc_fields_rest(frest) + seq![']']) by {
            assert forall|j: int| 0 <= j < s.len() - n implies s.subrange(n, s.len() as int)[j]
                == (enc_fields_rest(frest) + seq![']'])[j] by {
                assert(s[n + j] == (seq!['['] + enc_string(f0) + enc_fields_rest(frest)
                    + seq![']'])[n + j]);
            }
        }
        lemma_dec_of_enc_rest(s, n, frest, seq![f0]);
        assert(seq![f0] + frest =~= fs);
    }
}

/// Reading the rest of an array from position `i` of `s`, with `acc` the
/// fields already read: after each literal either a comma announces the
/// next one or a closing bracket ends the text.
pub open spec fn dec_fields_rest(s: Seq<char>, i: int, acc: Seq<Seq<char>>) -> Option<
    Seq<Seq<char>>,
>
    recommends
        0 <= i <= s.len(),
    decreases s.len() - i when 0 <= i <= s.len()
{
    if i >= s.len() {
        None
    } else if s[i] == ']' {
        if i + 1 == s.len() {
            Some(acc)
        } else {
            None
        }
    } else if s[i] == ',' {
        if i + 2 <= s.len() && s[i + 1] == '"' {
            match dec_str(s, i + 2, Seq::<char>::empty()) {
                Some(p) => if i < p.1 <= s.len() {
                    dec_fields_rest(s, p.1, acc.push(p.0))
                } else {
                    None
                },
                None => None,
            }
        } else {
            None
        }
    } else {
        None
    }
}

/// Reading a field list back from its transport text: the fields of the
/// array, or `None` when the text is not one the encoder writes.
pub open spec fn decode_fields_text(s: Seq<char>) -> Option<Seq<Seq<char>>> {
    if s.len() >= 2 && s[0] == '[' {
        if s[1] == ']' {
            if s.len() == 2 {
                Some(Seq::<Seq<char>>::empty())
            } else {
                None
            }
        } else if s[1] == '"' {
            match dec_str(s, 2, Seq::<char>::empty()) {
                Some(p) => if 2 < p.1 <= s.len() {
                    dec_fields_rest(s, p.1, seq![p.0])
                } else {
                    None
                },
                None => None,
            }
        } else {
            None
        }
    } else {
        None
    }
}

/// Executable counterpart of [`hex_digit`].
fn hex_digit_of(v: u32) -> (r: char)
    requires
        v < 16,
    ensures
        r == hex_digit(v as int),
{
    if v == 0 {
        '0'
    } else if v == 1 {
        '1'
    } else if v == 2 {
        '2'
    } else if v == 3 {
        '3'
    } else if v == 4 {
        '4'
    } else if v == 5 {
        '5'
    } else if v == 6 {
        '6'
    } else if v == 7 {
        '7'
    } else if v == 8 {
        '8'
    } else if v == 9 {
        '9'
    } else if v == 10 {
        'a'
    } else if v == 11 {
        'b'
    } else if v == 12 {
        'c'
    } else if v == 13 {
        'd'
    } else if v == 14 {
        'e'
    } else {
        'f'
    }
}

/// Executable test for [`is_hex_digit`].
fn hex_digit_check(c: char) -> (r: bool)
    ensures
        r == is_hex_digit(c),
{
    ('0' <= c && c <= '9') || ('a' <= c && c <= 'f')
}

/// Executable counterpart of [`hex_val`].
fn hex_val_of(c: char) -> (r: u32)
    requires
        is_hex_digit(c),
    ensures
        r as int == hex_val(c),
        r < 16,
{
    if '0' <= c && c <= '9' {
        (c as u32) - ('0' as u32)
    } else {
        (c as u32) - ('a' as u32) + 10
    }
}

/// The control character of code `val`, written out so that the decoder
/// needs nothing of the standard library to rebuild it.
fn ctrl_char_of(val: u32) -> (r: char)
    requires
        val < 32,
    ensures
        r == (val as char),
{
    if val == 0 {
        proof {
            vstd::utf8::char_u32_cast('\u{00}', 0);
        }
        '\u{00}'
    } else if val == 1 {
        proof {
            vstd::utf8::char_u32_cast('\u{01}', 1);
        }
        '\u{01}'
    } else if val == 2 {
        proof {
            vstd::utf8::char_u32_cast('\u{02}', 2);
        }
        '\u{02}'
    } else if val == 3 {
        proof {
            vstd::utf8::char_u32_cast('\u{03}', 3);
        }
        '\u{03}'
    } else if val == 4 {
        proof {
            vstd::utf8::char_u32_cast('\u{04}', 4);
        }
        '\u{04}'
    } else if val == 5 {
        proof {
            vstd::utf8::char_u32_cast('\u{05}', 5);
        }
        '\u{05}'
    } else if val == 6 {
        proof {
            vstd::utf8::char_u32_cast('\u{06}', 6);
        }
        '\u{06}'
    } else if val == 7 {
        proof {
            vstd::utf8::char_u32_cast('\u{07}', 7);
        }
        '\u{07}'
    } else if val == 8 {
        proof {
            vstd::utf8::char_u32_cast('\u{08}', 8);
        }
        '\u{08}'
    } else if val == 9 {
        proof {
            vstd::utf8::char_u32_cast('\u{09}', 9);
        }
        '\u{09}'
    } else if val == 10 {
        proof {
            vstd::utf8::char_u32_cast('\u{0a}', 10);
        }
        '\u{0a}'
    } else if val == 11 {
        proof {
            vstd::utf8::char_u32_cast('\u{0b}', 11);
        }
        '\u{0b}'
    } else if val == 12 {
        proof {
            vstd::utf8::char_u32_cast('\u{0c}', 12);
        }
        '\u{0c}'
    } else if val == 13 {
        proof {
            vstd::utf8::char_u32_cast('\u{0d}', 13);
        }
        '\u{0d}'
    } else if val == 14 {
        proof {
            vstd::utf8::char_u32_cast('\u{0e}', 14);
        }
        '\u{0e}'
    } else if val == 15 {
        proof {
            vstd::utf8::char_u32_cast('\u{0f}', 15);
        }
        '\u{0f}'
    } else if val == 16 {
        proof {
            vstd::utf8::char_u32_cast('\u{10}', 16);
        }
        '\u{10}'
    } else if val == 17 {
        proof {
            vstd::utf8::char_u32_cast('\u{11}', 17);
        }
        '\u{11}'
    } else if val == 18 {
        proof {
            vstd::utf8::char_u32_cast('\u{12}', 18);
        }
        '\u{12}'
    } else if val == 19 {
        proof {
            vstd::utf8::char_u32_cast('\u{13}', 19);
        }
        '\u{13}'
    } else if val == 20 {
        proof {
            vstd::utf8::char_u32_cast('\u{14}', 20);
        }
        '\u{14}'
    } else if val == 21 {
        proof {
            vstd::utf8::char_u32_cast('\u{15}', 21);
        }
        '\u{15}'
    } else if val == 22 {
        proof {
            vstd::utf8::char_u32_cast('\u{16}', 22);
        }
        '\u{16}'
    } else if val == 23 {
        proof {
            vstd::utf8::char_u32_cast('\u{17}', 23);
        }
        '\u{17}'
    } else if val == 24 {
        proof {
            vstd::utf8::char_u32_cast('\u{18}', 24);
        }
        '\u{18}'
    } else if val == 25 {
        proof {
            vstd::utf8::char_u32_cast('\u{19}', 25);
        }
        '\u{19}'
    } else if val == 26 {
        proof {
            vstd::utf8::char_u32_cast('\u{1a}', 26);
        }
        '\u{1a}'
    } else if val == 27 {
        proof {
            vstd::utf8::char_u32_cast('\u{1b}', 27);
        }
        '\u{1b}'
    } else if val == 28 {
        proof {
            vstd::utf8::char_u32_cast('\u{1c}', 28);
        }
        '\u{1c}'
    } else if val == 29 {
        proof {
            vstd::utf8::char_u32_cast('\u{1d}', 29);
        }
        '\u{1d}'
    } else if val == 30 {
        proof {
            vstd::utf8::char_u32_cast('\u{1e}', 30);
        }
        '\u{1e}'
    } else {
        proof {
            vstd::utf8::char_u32_cast('\u{1f}', 31);
        }
        '\u{1f}'
    }
}

/// Executable counterpart of [`unescape`].
fn unescape_of(e: char) -> (r: Option<char>)
    ensures
        r == unescape(e),
{
    if e == '"' {
        Some('"')
    } else if e == '\\' {
        Some('\\')
    } else if e == '/' {
        Some('/')
    } else if e == 'b' {
        Some('\u{08}')
    } else if e == 'f' {
        Some('\u{0c}')
    } else if e == 'n' {
        Some('\n')
    } else if e == 'r' {
        Some('\r')
    } else if e == 't' {
        Some('\t')
    } else {
        None
    }
}

/// Appends the escape of `c` to `out`.
fn push_escaped(out: &mut Vec<char>, c: char)
    ensures
        final(out)@ == old(out)@ + escape_char(c),
{
    if c == '"' {
        out.push('\\');
        out.push('"');
    } else if c == '\\' {
        out.push('\\');
        out.push('\\');
    } else if c == '\u{08}' {
        out.push('\\');
        out.push('b');
    } else if c == '\t' {
        out.push('\\');
        out.push('t');
    } else if c == '\n' {
        out.push('\\');
        out.push('n');
    } else if c == '\u{0c}' {
        out.push('\\');
        out.push('f');
    } else if c == '\r' {
        out.push('\\');
        out.push('r');
    } else if (c as u32) < 32 {
        out.push('\\');
        out.push('u');
        out.push('0');
        out.push('0');
        out.push(hex_digit_of((c as u32) / 16));
        out.push(hex_digit_of((c as u32) % 16));
    } else {
        out.push(c);
    }
    proof {
        assert(out@ =~= old(out)@ + escape_char(c));
    }
}

/// Appends the string literal of `f` to `out`.
fn push_literal(out: &mut Vec<char>, f: &String)
    ensures
        final(out)@ == old(out)@ + enc_string(f@),
{
    let cs = str_to_chars(f.as_str());
    out.push('"');
    proof {
        assert(cs@.take(0) =~= Seq::<char>::empty());
        assert(out@ =~= old(out)@ + seq!['"'] + enc_str_body(cs@.take(0)));
    }
    let mut k: usize = 0;
    while k < cs.len()
        invariant
            k <= cs.len(),
            cs@ == f@,
            out@ == old(out)@ + seq!['"'] + enc_str_body(cs@.take(k as int)),
        decreases cs.len() - k,
    {
        push_escaped(out, cs[k]);
        proof {
            lemma_enc_str_body_push(cs@.take(k as int), cs@[k as int]);
            assert(cs@.take(k as int).push(cs@[k as int]) =~= cs@.take(k + 1 as int));
            assert(out@ =~= old(out)@ + seq!['"'] + enc_str_body(cs@.take(k + 1 as int)));
        }
        k = k + 1;
    }
    proof {
        assert(cs@.take(cs.len() as int) =~= f@);
    }
    out.push('"');
    proof {
        assert(out@ =~= old(out)@ + enc_string(f@));
    }
}

/// The transport text of `fields`: a JSON array of string literals, as
/// [`encode_fields_text`] describes it.
pub fn encode_fields(fields: &Vec<String>) -> (r: String)
    ensures
        r@ == encode_fields_text(fields.deep_view()),
{
    let mut out: Vec<char> = Vec::new();
    out.push('[');
    if fields.len() == 0 {
        out.push(']');
        proof {
            assert(out@ =~= seq!['[', ']']);
        }
        return chars_to_string(&out);
    }
    push_literal(&mut out, &fields[0]);
    proof {
        assert(fields.deep_view().subrange(1, 1) =~= Seq::<Seq<char>>::empty());
        assert(enc_fields_rest(Seq::<Seq<char>>::empty()) =~= Seq::<char>::empty());
        assert(out@ =~= seq!['['] + enc_string(fields.deep_view()[0]) + enc_fields_rest(
            fields.deep_view().subrange(1, 1),
        ));
    }
    let mut fi: usize = 1;
    while fi < fields.len()
        invariant
            1 <= fi <= fields.len(),
            out@ == seq!['['] + enc_string(fields.deep_view()[0]) + enc_fields_rest(
                fields.deep_view().subrange(1, fi as int),
            ),
        decreases fields.len() - fi,
    {
        out.push(',');
        push_literal(&mut out, &fields[fi]);
        proof {
            lemma_enc_fields_rest_push(
                fields.deep_view().subrange(1, fi as int),
                fields.deep_view()[fi as int],
            );
            assert(fields.deep_view().subrange(1, fi as int).push(fields.deep_view()[fi as int])
                =~= fields.deep_view().subrange(1, fi + 1 as int));
            assert(out@ =~= seq!['['] + enc_string(fields.deep_view()[0]) + enc_fields_rest(
                fields.deep_view().subrange(1, fi + 1 as int),
            ));
        }
        fi = fi + 1;
    }
    out.push(']');
    proof {
        assert(fields.deep_view().subrange(1, fields.len() as int) =~= fields.deep_view()
            .drop_first());
        assert(out@ =~= encode_fields_text(fields.deep_view()));
    }
    chars_to_string(&out)
}

/// Reads one string literal of the transport text, starting just after
/// its opening quote.
fn decode_literal(v: &Vec<char>, start: usize) -> (r: Option<(Vec<char>, usize)>)
    requires
        start <= v.len(),
    ensures
        match r {
            Some(p) => {
                &&& dec_str(v@, start as int, Seq::<char>::empty()) == Some((p.0@, p.1 as int))
                &&& start < p.1 <= v.len()
            },
            None => dec_str(v@, start as int, Seq::<char>::empty()) is None,
        },
{
    let mut i = start;
    let mut cur: Vec<char> = Vec::new();
    proof {
        assert(cur@ =~= Seq::<char>::empty());
    }
    loop
        invariant
            start <= i <= v.len(),
            dec_str(v@, start as int, Seq::<char>::empty()) == dec_str(v@, i as int, cur@),
        decreases v.len() - i,
    {
        if i >= v.len() {
            return None;
        }
        let c = v[i];
        if c == '"' {
            return Some((cur, i + 1));
        }
        if c == '\\' {
            if i + 1 >= v.len() {
                return None;
            }
            let e = v[i + 1];
            if e == 'u' {
                if v.len() - i >= 6 && hex_digit_check(v[i + 2]) && hex_digit_check(v[i + 3])
                    && hex_digit_check(v[i + 4]) && hex_digit_check(v[i + 5]) {
                    let val: u32 = hex_val_of(v[i + 2]) * 4096 + hex_val_of(v[i + 3]) * 256
                        + hex_val_of(v[i + 4]) * 16 + hex_val_of(v[i + 5]);
                    if val < 32 {
                        cur.push(ctrl_char_of(val));
                        i = i + 6;
                    } else {
                        return None;
                    }
                } else {
                    return None;
                }
            } else {
                match unescape_of(e) {
                    Some(c2) => {
                        cur.push(c2);
                        i = i + 2;
                    },
                    None => {
                        return None;
                    },
                }
            }
        } else {
            cur.push(c);
            i = i + 1;
        }
    }
}

/// Reads a field list back from its transport text: the inverse of
/// [`encode_fields`] on everything that function writes, `None` on any
/// other text.
pub fn decode_fields(s: &str) -> (r: Option<Vec<String>>)
    ensures
        match r {
            Some(fs) => decode_fields_text(s@) == Some(fs.deep_view()),
            None => decode_fields_text(s@) is None,
        },
{
    let v = str_to_chars(s);
    if v.len() < 2 {
        return None;
    }
    if v[0] != '[' {
        return None;
    }
    if v[1] == ']' {
        if v.len() == 2 {
            let fs: Vec<String> = Vec::new();
            proof {
                assert(fs.deep_view() =~= Seq::<Seq<char>>::empty());
            }
            return Some(fs);
        } else {
            return None;
        }
    }
    if v[1] != '"' {
        return None;
    }
    let (f0, first_end) = match decode_literal(&v, 2) {
        Some(p) => p,
        None => {
            return None;
        },
    };
    let mut fields: Vec<String> = Vec::new();
    fields.push(chars_to_string(&f0));
    proof {
        assert(fields.deep_view() =~= seq![f0@]);
    }
    let mut pos = first_end;
    loop
        invariant
            pos <= v.len(),
            v@ == s@,
            decode_fields_text(s@) == dec_fields_rest(v@, pos as int, fields.deep_view()),
        decreases v.len() - pos,
    {
        if pos >= v.len() {
            return None;
        }
        if v[pos] == ']' {
            if pos + 1 == v.len() {
                return Some(fields);
            } else {
                return None;
            }
        }
        if v[pos] == ',' {
            if pos + 1 < v.len() && v[pos + 1] == '"' {
                match decode_literal(&v, pos + 2) {
                    Some(p) => {
                        let ghost old_fields = fields.deep_view();
                        let (fx, np) = p;
                        fields.push(chars_to_string(&fx));
                        proof {
                            assert(fields.deep_view() =~= old_fields.push(fx@));
                        }
                        pos = np;
                    },
                    None => {
                        return None;
                    },
                }
            } else {
                return None;
            }
        } else {
            return None;
        }
    }
}

} // verus!
