//! A recognizer for the JSON text of a record, and the proof that the
//! encoder meets it.
//!
//! The recognizer is written as an ordinary scanner over the text — string
//! tokens in legal units up to a closing quote, number tokens by the JSON
//! number grammar, the three literal words, entries separated by commas
//! between braces, whitespace allowed around every token — and knows
//! nothing of how the text was produced.  The theorem at the end says that
//! both renderings of every well-formed record are accepted with their top
//! level an object: every emitted record is valid JSON.

use vstd::prelude::*;

use crate::encode::{
    dec_rep, escape_str, int_rep, quoted, record_text, string_unit_end, value_text,
    well_escaped_from,
};
use crate::num::{
    digits_end, exp_digits_start, exp_end, frac_end, int_end, is_digit, is_number_literal,
    lemma_digits_end_digits,
};
use crate::object::EntryView;
use crate::value::{value_wf, ValueView};

verus! {

proof fn lemma_dec_rep_digits(n: nat)
    ensures
        dec_rep(n).len() >= 1,
        forall|k: int| 0 <= k < dec_rep(n).len() ==> is_digit(#[trigger] dec_rep(n)[k]),
    decreases n,
{
    if n >= 10 {
        lemma_dec_rep_digits(n / 10);
    }
}

proof fn lemma_dec_rep_leading(n: nat)
    requires
        n >= 10,
    ensures
        dec_rep(n)[0] != '0',
    decreases n,
{
    if n / 10 >= 10 {
        lemma_dec_rep_leading(n / 10);
    } else {
        lemma_dec_rep_digits(n / 10);
    }
}

proof fn lemma_digits_end_all(s: Seq<char>, i: int, j: int)
    requires
        0 <= i <= j <= s.len(),
        forall|k: int| i <= k < j ==> is_digit(#[trigger] s[k]),
        j == s.len() || !is_digit(s[j]),
    ensures
        digits_end(s, i) == j,
    decreases j - i,
{
    if i < j {
        lemma_digits_end_all(s, i + 1, j);
    }
}

proof fn lemma_dec_rep_literal(n: nat)
    ensures
        is_number_literal(dec_rep(n)),
{
    let s = dec_rep(n);
    lemma_dec_rep_digits(n);
    lemma_digits_end_all(s, 0, s.len() as int);
    if n < 10 {
        assert(s.len() == 1);
    } else {
        lemma_dec_rep_leading(n);
    }
}

proof fn lemma_int_rep_literal(i: int)
    ensures
        is_number_literal(int_rep(i)),
{
    if i < 0 {
        let s = int_rep(i);
        let m = dec_rep((-i) as nat);
        lemma_dec_rep_digits((-i) as nat);
        assert(s[0] == '-');
        assert forall|k: int| 1 <= k < s.len() implies is_digit(#[trigger] s[k]) by {
            assert(s[k] == m[k - 1]);
        }
        lemma_digits_end_all(s, 1, s.len() as int);
        assert(s[1] == m[0]);
        if (-i) as nat >= 10 {
            lemma_dec_rep_leading((-i) as nat);
        } else {
            assert(m[0] == crate::encode::dec_digit(-i));
            assert(m[0] != '0');
        }
    } else {
        lemma_dec_rep_literal(i as nat);
    }
}

/// The characters of `m` sit in `t` starting at `off`.
spec fn window(t: Seq<char>, off: int, m: Seq<char>) -> bool {
    &&& 0 <= off
    &&& off + m.len() <= t.len()
    &&& forall|k: int| 0 <= k < m.len() ==> t[off + k] == m[k]
}

proof fn lemma_digits_end_window(t: Seq<char>, off: int, m: Seq<char>, j: int)
    requires
        window(t, off, m),
        0 <= j <= m.len(),
        off + m.len() == t.len() || !is_digit(t[off + m.len()]),
    ensures
        digits_end(t, off + j) == off + digits_end(m, j),
    decreases m.len() - j,
{
    if j < m.len() {
        assert(t[off + j] == m[j]);
        if is_digit(m[j]) {
            lemma_digits_end_window(t, off, m, j + 1);
        }
    }
}

/// Where the JSON number token beginning at `i` ends, or a negative number
/// where none does.
pub open spec fn number_end(t: Seq<char>, i: int) -> int {
    if !(0 <= i <= t.len()) {
        -1
    } else {
        let i0: int = if i < t.len() && t[i] == '-' {
            i + 1
        } else {
            i
        };
        let i1 = int_end(t, i0);
        let i2 = frac_end(t, i1);
        let i3 = exp_end(t, i2);
        if i1 > i0 && (i1 < t.len() && t[i1] == '.' ==> i2 >= i1 + 2) && (i2 < t.len() && (t[i2]
            == 'e' || t[i2] == 'E') ==> i3 >= exp_digits_start(t, i2) + 1) {
            i3
        } else {
            -1
        }
    }
}

/// A character that cannot continue a number token.
spec fn ends_number(b: char) -> bool {
    !is_digit(b) && b != '.' && b != 'e' && b != 'E' && b != '+' && b != '-'
}

proof fn lemma_number_token(t: Seq<char>, off: int, m: Seq<char>)
    requires
        window(t, off, m),
        is_number_literal(m),
        off + m.len() < t.len(),
        ends_number(t[off + m.len()]),
    ensures
        number_end(t, off) == off + m.len(),
{
    let j0: int = if m.len() > 0 && m[0] == '-' {
        1
    } else {
        0
    };
    let j1 = int_end(m, j0);
    let j2 = frac_end(m, j1);
    let j3 = exp_end(m, j2);
    lemma_digits_end_digits(m, 0);
    assert(m.len() > 0) by {
        if m.len() == 0 {
            assert(j1 == 0 && j0 == 0);
        }
    }
    assert(t[off] == m[0]);
    let i0 = off + j0;
    // integer part
    if 0 <= j0 < m.len() && m[j0] == '0' {
        assert(t[off + j0] == m[j0]);
        assert(int_end(t, i0) == off + j1);
    } else {
        lemma_digits_end_digits(m, j0);
        lemma_digits_end_window(t, off, m, j0);
        if j0 < m.len() {
            assert(t[off + j0] == m[j0]);
        }
        assert(int_end(t, i0) == off + j1);
    }
    assert(j0 <= j1 <= m.len()) by {
        if !(0 <= j0 < m.len() && m[j0] == '0') {
            lemma_digits_end_digits(m, j0);
        }
    }
    // fraction part
    if j1 < m.len() && m[j1] == '.' {
        assert(t[off + j1] == m[j1]);
        lemma_digits_end_window(t, off, m, j1 + 1);
        assert(frac_end(t, off + j1) == off + j2);
        lemma_digits_end_digits(m, j1 + 1);
    } else {
        if j1 < m.len() {
            assert(t[off + j1] == m[j1]);
        }
        assert(frac_end(t, off + j1) == off + j1);
        assert(j2 == j1);
    }
    assert(j1 <= j2 <= m.len()) by {
        if j1 < m.len() && m[j1] == '.' {
            lemma_digits_end_digits(m, j1 + 1);
        }
    }
    // exponent part
    if j2 < m.len() && (m[j2] == 'e' || m[j2] == 'E') {
        assert(t[off + j2] == m[j2]);
        let start = exp_digits_start(m, j2);
        lemma_digits_end_digits(m, start);
        assert(j3 >= start + 1);
        assert(start < m.len());
        assert(j2 + 1 < m.len());
        assert(t[off + j2 + 1] == m[j2 + 1]);
        assert(exp_digits_start(t, off + j2) == off + start);
        lemma_digits_end_window(t, off, m, start);
        assert(exp_end(t, off + j2) == off + j3);
        lemma_digits_end_digits(m, start);
    } else {
        if j2 < m.len() {
            assert(t[off + j2] == m[j2]);
        }
        assert(exp_end(t, off + j2) == off + j2);
        assert(j3 == j2);
    }
    assert(j3 == m.len());
}

/// The position of the closing quote ending the string body that begins at
/// `i`: legal units up to the first raw quote.  Negative where the body is
/// not legal or never closes.
pub open spec fn body_close(t: Seq<char>, i: int) -> int
    decreases t.len() - i,
{
    if i < 0 || i >= t.len() {
        -1
    } else if t[i] == '"' {
        i
    } else if string_unit_end(t, i) > i {
        body_close(t, string_unit_end(t, i))
    } else {
        -1
    }
}

/// Where the string token whose opening quote sits at `i` ends, or a
/// negative number.
pub open spec fn string_end(t: Seq<char>, i: int) -> int {
    if 0 <= i < t.len() && t[i] == '"' {
        let c = body_close(t, i + 1);
        if c >= 0 {
            c + 1
        } else {
            -1
        }
    } else {
        -1
    }
}

proof fn lemma_unit_end_window(t: Seq<char>, off: int, m: Seq<char>, j: int)
    requires
        window(t, off, m),
        0 <= j < m.len(),
        string_unit_end(m, j) > j,
    ensures
        string_unit_end(t, off + j) == off + string_unit_end(m, j),
{
    assert(t[off + j] == m[j]);
    let u = string_unit_end(m, j);
    if m[j] == '\\' {
        assert(t[off + j + 1] == m[j + 1]);
        if u == j + 6 {
            assert(t[off + j + 2] == m[j + 2]);
            assert(t[off + j + 3] == m[j + 3]);
            assert(t[off + j + 4] == m[j + 4]);
            assert(t[off + j + 5] == m[j + 5]);
        }
    }
}

proof fn lemma_body_close_window(t: Seq<char>, off: int, body: Seq<char>, j: int)
    requires
        window(t, off, body),
        0 <= j <= body.len(),
        well_escaped_from(body, j),
        off + body.len() < t.len(),
        t[off + body.len()] == '"',
    ensures
        body_close(t, off + j) == off + body.len(),
    decreases body.len() - j,
{
    if j == body.len() {
    } else {
        let u = string_unit_end(body, j);
        assert(body[j] != '"');
        assert(t[off + j] == body[j]);
        lemma_unit_end_window(t, off, body, j);
        lemma_body_close_window(t, off, body, u);
    }
}

proof fn lemma_string_token(t: Seq<char>, off: int, k: Seq<char>)
    requires
        window(t, off, quoted(k)),
    ensures
        string_end(t, off) == off + quoted(k).len(),
        string_end(t, off) > off,
{
    let body = escape_str(k);
    assert(quoted(k).len() == body.len() + 2);
    assert(t[off] == quoted(k)[0]);
    assert(quoted(k)[0] == '"');
    assert(window(t, off + 1, body)) by {
        assert forall|j: int| 0 <= j < body.len() implies t[off + 1 + j] == body[j] by {
            assert(quoted(k)[1 + j] == body[j]);
            assert(t[off + 1 + j] == quoted(k)[1 + j]);
        }
    }
    assert(t[off + 1 + body.len()] == '"') by {
        assert(quoted(k)[1 + body.len() as int] == '"');
        assert(t[off + 1 + body.len() as int] == quoted(k)[1 + body.len() as int]);
    }
    crate::encode::lemma_escaped_text_is_legal_string_body(k);
    lemma_body_close_window(t, off + 1, body, 0);
}

/// Whether the word `w` sits in `t` at position `i`.
pub open spec fn word_at(t: Seq<char>, i: int, w: Seq<char>) -> bool {
    0 <= i && i + w.len() <= t.len() && t.subrange(i, i + w.len() as int) == w
}

/// Where the JSON value beginning at `i` ends — one of the literal words,
/// a string token, or a number token — or a negative number.
pub open spec fn value_end(t: Seq<char>, i: int) -> int {
    if word_at(t, i, "null"@) {
        i + 4
    } else if word_at(t, i, "true"@) {
        i + 4
    } else if word_at(t, i, "false"@) {
        i + 5
    } else if 0 <= i < t.len() && t[i] == '"' {
        string_end(t, i)
    } else {
        number_end(t, i)
    }
}

proof fn lemma_window_split(t: Seq<char>, off: int, a: Seq<char>, b: Seq<char>)
    requires
        window(t, off, a + b),
    ensures
        window(t, off, a),
        window(t, off + a.len(), b),
{
    assert forall|k: int| 0 <= k < a.len() implies t[off + k] == a[k] by {
        assert((a + b)[k] == a[k]);
        assert(t[off + k] == (a + b)[k]);
    }
    assert forall|k: int| 0 <= k < b.len() implies t[off + a.len() + k] == b[k] by {
        assert((a + b)[a.len() + k] == b[k]);
        assert(t[off + a.len() + k] == (a + b)[a.len() + k]);
    }
}

proof fn lemma_not_word(t: Seq<char>, i: int, w: Seq<char>, c: char)
    requires
        0 <= i < t.len(),
        t[i] == c,
        w.len() > 0,
        w[0] != c,
    ensures
        !word_at(t, i, w),
{
    if word_at(t, i, w) {
        assert(t.subrange(i, i + w.len() as int)[0] == w[0]);
        assert(t.subrange(i, i + w.len() as int)[0] == t[i]);
    }
}

/// The first character of a number literal is a digit or a minus sign.
proof fn lemma_literal_head(m: Seq<char>)
    requires
        is_number_literal(m),
    ensures
        m.len() > 0,
        is_digit(m[0]) || m[0] == '-',
{
    let j0: int = if m.len() > 0 && m[0] == '-' {
        1
    } else {
        0
    };
    lemma_digits_end_digits(m, 0);
    if m.len() == 0 {
        assert(int_end(m, j0) == j0);
    }
    if j0 == 0 && m[0] != '-' {
        if m[0] == '0' {
        } else {
            lemma_digits_end_digits(m, 0);
            assert(int_end(m, 0) > 0);
        }
    }
}

proof fn lemma_value_token(t: Seq<char>, off: int, v: ValueView)
    requires
        window(t, off, value_text(v)),
        value_wf(v),
        off + value_text(v).len() < t.len(),
        ends_number(t[off + value_text(v).len()]),
    ensures
        value_end(t, off) == off + value_text(v).len(),
{
    reveal_strlit("null");
    reveal_strlit("true");
    reveal_strlit("false");
    let m = value_text(v);
    let b = t[off + m.len()];
    match v {
        ValueView::Null => {
            assert(word_at(t, off, "null"@)) by {
                assert(t.subrange(off, off + 4) =~= m);
            }
        },
        ValueView::Bool(x) => {
            if x {
                assert(t[off] == m[0]);
                assert(m[0] == 't');
                lemma_not_word(t, off, "null"@, 't');
                assert(word_at(t, off, "true"@)) by {
                    assert(t.subrange(off, off + 4) =~= m);
                }
            } else {
                assert(t[off] == m[0]);
                assert(m[0] == 'f');
                lemma_not_word(t, off, "null"@, 'f');
                lemma_not_word(t, off, "true"@, 'f');
                assert(word_at(t, off, "false"@)) by {
                    assert(t.subrange(off, off + 5) =~= m);
                }
            }
        },
        ValueView::Int(i) => {
            lemma_int_rep_literal(i);
            lemma_literal_head(m);
            assert(t[off] == m[0]);
            lemma_not_word(t, off, "null"@, m[0]);
            lemma_not_word(t, off, "true"@, m[0]);
            lemma_not_word(t, off, "false"@, m[0]);
            assert(t[off] != '"');
            lemma_number_token(t, off, m);
        },
        ValueView::UInt(n) => {
            lemma_dec_rep_literal(n);
            lemma_literal_head(m);
            assert(t[off] == m[0]);
            lemma_not_word(t, off, "null"@, m[0]);
            lemma_not_word(t, off, "true"@, m[0]);
            lemma_not_word(t, off, "false"@, m[0]);
            assert(t[off] != '"');
            lemma_number_token(t, off, m);
        },
        ValueView::NumText(txt) => {
            lemma_literal_head(m);
            assert(t[off] == m[0]);
            lemma_not_word(t, off, "null"@, m[0]);
            lemma_not_word(t, off, "true"@, m[0]);
            lemma_not_word(t, off, "false"@, m[0]);
            assert(t[off] != '"');
            lemma_number_token(t, off, m);
        },
        ValueView::Str(s) => {
            assert(t[off] == m[0]);
            assert(m[0] == '"');
            lemma_not_word(t, off, "null"@, '"');
            lemma_not_word(t, off, "true"@, '"');
            lemma_not_word(t, off, "false"@, '"');
            lemma_string_token(t, off, s);
        },
    }
}


/// JSON whitespace.
pub open spec fn is_ws(c: char) -> bool {
    c == ' ' || c == '\t' || c == '\n' || c == '\r'
}

/// The first position at or after `i` that does not hold whitespace.
pub open spec fn ws_end(t: Seq<char>, i: int) -> int
    decreases t.len() - i,
{
    if 0 <= i < t.len() && is_ws(t[i]) {
        ws_end(t, i + 1)
    } else {
        i
    }
}

proof fn lemma_ws_end_run(t: Seq<char>, i: int, j: int)
    requires
        0 <= i <= j <= t.len(),
        forall|k: int| i <= k < j ==> is_ws(#[trigger] t[k]),
        j == t.len() || !is_ws(t[j]),
    ensures
        ws_end(t, i) == j,
    decreases j - i,
{
    if i < j {
        lemma_ws_end_run(t, i + 1, j);
    }
}

/// Where the comma-separated entries beginning at `i` end — each a string
/// key, a colon and a value, with whitespace allowed around every token —
/// or a negative number.  The result is the position of the first
/// character after the entries and any trailing whitespace.
pub open spec fn entries_end(t: Seq<char>, i: int) -> int
    decreases t.len() - i,
{
    let ks = ws_end(t, i);
    let ke = string_end(t, ks);
    if !(i <= ks && ks < ke && ke <= t.len()) {
        -1
    } else {
        let cs = ws_end(t, ke);
        if !(ke <= cs && cs < t.len() && t[cs] == ':') {
            -1
        } else {
            let vs = ws_end(t, cs + 1);
            let ve = value_end(t, vs);
            if !(cs + 1 <= vs && vs < ve && ve <= t.len()) {
                -1
            } else {
                let es = ws_end(t, ve);
                if !(ve <= es && es <= t.len()) {
                    -1
                } else if es < t.len() && t[es] == ',' {
                    entries_end(t, es + 1)
                } else {
                    es
                }
            }
        }
    }
}

/// Whether the whole text is one JSON object: an opening brace, either
/// nothing or comma-separated entries, and a closing brace ending the
/// text, whitespace allowed around every token.
pub open spec fn is_object_text(t: Seq<char>) -> bool {
    &&& t.len() >= 2
    &&& t[0] == '{'
    &&& {
        let k = ws_end(t, 1);
        if k < t.len() && t[k] == '}' {
            k == t.len() - 1
        } else {
            let e = entries_end(t, 1);
            e == t.len() - 1 && t[e] == '}'
        }
    }
}

/// A value's rendering is nonempty and opens with a character that is
/// neither whitespace nor anything a scanner could mistake.
proof fn lemma_value_head(v: ValueView)
    requires
        value_wf(v),
    ensures
        value_text(v).len() > 0,
        !is_ws(value_text(v)[0]),
{
    reveal_strlit("null");
    reveal_strlit("true");
    reveal_strlit("false");
    match v {
        ValueView::Int(i) => {
            lemma_int_rep_literal(i);
            lemma_literal_head(value_text(v));
        },
        ValueView::UInt(n) => {
            lemma_dec_rep_literal(n);
            lemma_literal_head(value_text(v));
        },
        ValueView::NumText(txt) => {
            lemma_literal_head(txt);
        },
        _ => {},
    }
}

/// One step of the entry scan: with the key sitting at `ks` after a run of
/// whitespace, the scanner walks key, colon, optional single space, and
/// value, and lands after the value.
proof fn lemma_entry_scan(
    t: Seq<char>,
    i: int,
    lead: Seq<char>,
    e: EntryView,
    colon_space: bool,
) -> (ve: int)
    requires
        value_wf(e.1),
        0 <= i,
        forall|k: int| 0 <= k < lead.len() ==> is_ws(#[trigger] lead[k]),
        window(t, i, lead + quoted(e.0) + (if colon_space {
            seq![':', ' ']
        } else {
            seq![':']
        }) + value_text(e.1)),
        ({
            let end = i + lead.len() + quoted(e.0).len() + (if colon_space {
                2int
            } else {
                1int
            }) + value_text(e.1).len();
            end < t.len() && ends_number(t[end])
        }),
    ensures
        ve == i + lead.len() + quoted(e.0).len() + (if colon_space {
            2int
        } else {
            1int
        }) + value_text(e.1).len(),
        ({
            let ks = ws_end(t, i);
            let ke = string_end(t, ks);
            let cs = ws_end(t, ke);
            let vs = ws_end(t, cs + 1);
            &&& ks == i + lead.len()
            &&& ke == ks + quoted(e.0).len()
            &&& cs == ke
            &&& t[cs] == ':'
            &&& vs == cs + 1 + (if colon_space {
                1int
            } else {
                0int
            })
            &&& value_end(t, vs) == ve
        }),
{
    let colon: Seq<char> = if colon_space {
        seq![':', ' ']
    } else {
        seq![':']
    };
    let whole = lead + quoted(e.0) + colon + value_text(e.1);
    assert(whole =~= lead + (quoted(e.0) + (colon + value_text(e.1))));
    lemma_window_split(t, i, lead, quoted(e.0) + (colon + value_text(e.1)));
    let ks = i + lead.len();
    lemma_window_split(t, ks, quoted(e.0), colon + value_text(e.1));
    // the run of whitespace ends exactly at the key's opening quote
    assert(t[ks] == quoted(e.0)[0]) by {
        assert(window(t, ks, quoted(e.0)));
        assert(quoted(e.0).len() > 0);
    }
    assert(quoted(e.0)[0] == '"');
    assert forall|k: int| i <= k < ks implies is_ws(#[trigger] t[k]) by {
        assert(t[k] == lead[k - i]);
    }
    lemma_ws_end_run(t, i, ks);
    lemma_string_token(t, ks, e.0);
    let ke = ks + quoted(e.0).len();
    lemma_window_split(t, ke, colon, value_text(e.1));
    assert(t[ke] == ':') by {
        assert(t[ke + 0] == colon[0]);
    }
    lemma_ws_end_run(t, ke, ke);
    let vs = ke + colon.len();
    assert(window(t, vs, value_text(e.1)));
    lemma_value_head(e.1);
    assert(t[vs] == value_text(e.1)[0]);
    if colon_space {
        assert(t[ke + 1] == colon[1]);
        assert(is_ws(t[ke + 1]));
        lemma_ws_end_run(t, ke + 1, vs);
    } else {
        lemma_ws_end_run(t, ke + 1, vs);
    }
    lemma_value_token(t, vs, e.1);
    let ve = vs + value_text(e.1).len();
    ve
}

proof fn lemma_entries_text_front(s: Seq<EntryView>)
    requires
        s.len() >= 1,
    ensures
        s.len() == 1 ==> crate::encode::entries_text(s) == crate::encode::entry_text(s[0]),
        s.len() > 1 ==> crate::encode::entries_text(s) == crate::encode::entry_text(s[0])
            + seq![','] + crate::encode::entries_text(s.drop_first()),
    decreases s.len(),
{
    if s.len() > 1 {
        let d = s.drop_last();
        lemma_entries_text_front(d);
        assert(d[0] == s[0]);
        if s.len() == 2 {
            assert(crate::encode::entries_text(d) == crate::encode::entry_text(s[0]));
            assert(s.drop_first() =~= seq![s[1]]);
            assert(crate::encode::entries_text(s.drop_first()) == crate::encode::entry_text(
                s[1],
            )) by {
                assert(s.drop_first()[0] == s[1]);
            }
            assert(crate::encode::entries_text(s) =~= crate::encode::entry_text(s[0]) + seq![',']
                + crate::encode::entries_text(s.drop_first()));
        } else {
            assert(d.drop_first() =~= s.drop_first().drop_last());
            assert(s.drop_first().len() > 1);
            assert(s.drop_first().last() == s.last());
            assert(crate::encode::entries_text(s.drop_first()) == crate::encode::entries_text(
                s.drop_first().drop_last(),
            ) + seq![','] + crate::encode::entry_text(s.last()));
            assert(crate::encode::entries_text(s) =~= crate::encode::entry_text(s[0]) + seq![',']
                + crate::encode::entries_text(s.drop_first()));
        }
    }
}

proof fn lemma_entries_scan(t: Seq<char>, off: int, s: Seq<EntryView>)
    requires
        s.len() >= 1,
        forall|i: int| 0 <= i < s.len() ==> value_wf((#[trigger] s[i]).1),
        window(t, off, crate::encode::entries_text(s)),
        off + crate::encode::entries_text(s).len() < t.len(),
        t[off + crate::encode::entries_text(s).len()] == '}',
    ensures
        entries_end(t, off) == off + crate::encode::entries_text(s).len(),
    decreases s.len(),
{
    let whole = crate::encode::entries_text(s);
    let k0 = s[0].0;
    let v0 = s[0].1;
    let none: Seq<char> = Seq::empty();
    lemma_entries_text_front(s);
    if s.len() == 1 {
        assert(none + quoted(k0) + seq![':'] + value_text(v0) =~= whole);
        assert(whole.len() == quoted(k0).len() + 1 + value_text(v0).len());
        assert(t[off + quoted(k0).len() as int + 1 + value_text(v0).len() as int] == '}');
        assert(ends_number('}'));
        let ve = lemma_entry_scan(t, off, none, s[0], false);
        assert(ve == off + whole.len());
        lemma_ws_end_run(t, ve, ve);
        assert(entries_end(t, off) == ve);
    } else {
        let tail = s.drop_first();
        let prefix = none + quoted(k0) + seq![':'] + value_text(v0);
        let rest = seq![','] + crate::encode::entries_text(tail);
        assert(whole =~= prefix + rest);
        lemma_window_split(t, off, prefix, rest);
        assert(t[off + prefix.len() as int] == ',') by {
            assert(t[off + prefix.len() as int + 0] == rest[0]);
        }
        assert(ends_number(','));
        let ve = lemma_entry_scan(t, off, none, s[0], false);
        assert(ve == off + prefix.len());
        assert(t[ve] == ',');
        lemma_ws_end_run(t, ve, ve);
        lemma_window_split(t, ve, seq![','], crate::encode::entries_text(tail));
        assert forall|i: int| 0 <= i < tail.len() implies value_wf((#[trigger] tail[i]).1) by {
            assert(tail[i] == s[i + 1]);
        }
        assert(ve + 1 + crate::encode::entries_text(tail).len() == off + whole.len());
        lemma_entries_scan(t, ve + 1, tail);
        assert(entries_end(t, off) == entries_end(t, ve + 1));
    }
}

proof fn lemma_entries_pretty_front(s: Seq<EntryView>)
    requires
        s.len() >= 1,
    ensures
        s.len() == 1 ==> crate::encode::entries_text_pretty(s) == seq![' ', ' ']
            + crate::encode::entry_text_pretty(s[0]),
        s.len() > 1 ==> crate::encode::entries_text_pretty(s) == seq![' ', ' ']
            + crate::encode::entry_text_pretty(s[0]) + seq![',', '\n']
            + crate::encode::entries_text_pretty(s.drop_first()),
    decreases s.len(),
{
    if s.len() > 1 {
        let d = s.drop_last();
        lemma_entries_pretty_front(d);
        assert(d[0] == s[0]);
        if s.len() == 2 {
            assert(s.drop_first() =~= seq![s[1]]);
            assert(crate::encode::entries_text_pretty(s.drop_first()) == seq![' ', ' ']
                + crate::encode::entry_text_pretty(s[1])) by {
                assert(s.drop_first()[0] == s[1]);
            }
            assert(crate::encode::entries_text_pretty(s) =~= seq![' ', ' ']
                + crate::encode::entry_text_pretty(s[0]) + seq![',', '\n']
                + crate::encode::entries_text_pretty(s.drop_first()));
        } else {
            assert(d.drop_first() =~= s.drop_first().drop_last());
            assert(s.drop_first().len() > 1);
            assert(s.drop_first().last() == s.last());
            assert(crate::encode::entries_text_pretty(s.drop_first())
                == crate::encode::entries_text_pretty(s.drop_first().drop_last())
                + seq![',', '\n', ' ', ' '] + crate::encode::entry_text_pretty(s.last()));
            assert(crate::encode::entries_text_pretty(s) =~= seq![' ', ' ']
                + crate::encode::entry_text_pretty(s[0]) + seq![',', '\n']
                + crate::encode::entries_text_pretty(s.drop_first()));
        }
    }
}

proof fn lemma_entries_scan_pretty(t: Seq<char>, off: int, lead: Seq<char>, s: Seq<EntryView>)
    requires
        s.len() >= 1,
        forall|i: int| 0 <= i < s.len() ==> value_wf((#[trigger] s[i]).1),
        forall|k: int| 0 <= k < lead.len() ==> is_ws(#[trigger] lead[k]),
        window(t, off, lead + crate::encode::entries_text_pretty(s)),
        ({
            let end = off + lead.len() + crate::encode::entries_text_pretty(s).len();
            &&& end + 1 < t.len()
            &&& t[end] == '\n'
            &&& t[end + 1] == '}'
        }),
    ensures
        entries_end(t, off) == off + lead.len() + crate::encode::entries_text_pretty(s).len() + 1,
    decreases s.len(),
{
    let ep = crate::encode::entries_text_pretty(s);
    let k0 = s[0].0;
    let v0 = s[0].1;
    let lead2 = lead + seq![' ', ' '];
    let end = off + lead.len() + ep.len();
    lemma_entries_pretty_front(s);
    assert forall|k: int| 0 <= k < lead2.len() implies is_ws(#[trigger] lead2[k]) by {
        if k < lead.len() {
            assert(lead2[k] == lead[k]);
        } else {
            assert(lead2[k] == ' ');
        }
    }
    if s.len() == 1 {
        assert(lead2 + quoted(k0) + seq![':', ' '] + value_text(v0) =~= lead + ep);
        assert(lead.len() + ep.len() == lead2.len() + quoted(k0).len() + 2 + value_text(
            v0,
        ).len());
        assert(t[off + lead2.len() as int + quoted(k0).len() as int + 2 + value_text(
            v0,
        ).len() as int] == '\n');
        assert(ends_number('\n'));
        let ve = lemma_entry_scan(t, off, lead2, s[0], true);
        assert(ve == end);
        assert(is_ws(t[ve]));
        lemma_ws_end_run(t, ve, ve + 1);
        assert(entries_end(t, off) == ve + 1);
    } else {
        let tail = s.drop_first();
        let prefix = lead2 + quoted(k0) + seq![':', ' '] + value_text(v0);
        let rest = seq![',', '\n'] + crate::encode::entries_text_pretty(tail);
        assert(lead + ep =~= prefix + rest);
        lemma_window_split(t, off, prefix, rest);
        assert(t[off + prefix.len() as int] == ',') by {
            assert(t[off + prefix.len() as int + 0] == rest[0]);
        }
        assert(ends_number(','));
        let ve = lemma_entry_scan(t, off, lead2, s[0], true);
        assert(ve == off + prefix.len());
        assert(t[ve] == ',');
        lemma_ws_end_run(t, ve, ve);
        assert(rest =~= seq![','] + (seq!['\n'] + crate::encode::entries_text_pretty(tail)));
        lemma_window_split(
            t,
            ve,
            seq![','],
            seq!['\n'] + crate::encode::entries_text_pretty(tail),
        );
        assert forall|i: int| 0 <= i < tail.len() implies value_wf((#[trigger] tail[i]).1) by {
            assert(tail[i] == s[i + 1]);
        }
        assert(ve + 1 + 1 + crate::encode::entries_text_pretty(tail).len() == end);
        lemma_entries_scan_pretty(t, ve + 1, seq!['\n'], tail);
        assert(entries_end(t, off) == entries_end(t, ve + 1));
    }
}

/// Law: every record the library emits is valid JSON whose top-level value
/// is an object.  The recognizer above — string tokens of legal units up
/// to a closing quote, number tokens by the JSON number grammar, the three
/// literal words, comma-separated colon-paired entries between braces,
/// whitespace allowed around every token — accepts both the compact and
/// the pretty rendering of every well-formed record, ending exactly at the
/// closing brace.
pub proof fn lemma_record_text_is_object_text(s: Seq<EntryView>)
    requires
        forall|i: int| 0 <= i < s.len() ==> value_wf((#[trigger] s[i]).1),
    ensures
        is_object_text(record_text(s)),
        is_object_text(crate::encode::record_text_pretty(s)),
{
    lemma_compact_is_object_text(s);
    lemma_pretty_is_object_text(s);
}

proof fn lemma_compact_is_object_text(s: Seq<EntryView>)
    requires
        forall|i: int| 0 <= i < s.len() ==> value_wf((#[trigger] s[i]).1),
    ensures
        is_object_text(record_text(s)),
{
    reveal_strlit("{}");
    let t = record_text(s);
    let entries = crate::encode::entries_text(s);
    assert(t[0] == '{');
    assert(t.len() == entries.len() + 2);
    assert(t[entries.len() as int + 1] == '}');
    if s.len() == 0 {
        assert(t.len() == 2);
        assert(!is_ws('}'));
        lemma_ws_end_run(t, 1, 1);
    } else {
        lemma_entries_text_front(s);
        assert(entries[0] == '"') by {
            assert(entries[0] == crate::encode::entry_text(s[0])[0]);
            assert(crate::encode::entry_text(s[0])[0] == quoted(s[0].0)[0]);
        }
        assert(t[1] == entries[0]) by {
            assert(t[1] == (seq!['{'] + entries + seq!['}'])[1]);
        }
        lemma_ws_end_run(t, 1, 1);
        assert(window(t, 1, entries)) by {
            assert forall|k: int| 0 <= k < entries.len() implies t[1 + k] == entries[k] by {
                assert(t[1 + k] == (seq!['{'] + entries + seq!['}'])[1 + k]);
            }
        }
        lemma_entries_scan(t, 1, s);
    }
}

#[verifier::rlimit(50)]
proof fn lemma_pretty_is_object_text(s: Seq<EntryView>)
    requires
        forall|i: int| 0 <= i < s.len() ==> value_wf((#[trigger] s[i]).1),
    ensures
        is_object_text(crate::encode::record_text_pretty(s)),
{
    reveal_strlit("{}");
    let p = crate::encode::record_text_pretty(s);
    if s.len() == 0 {
        assert(p == "{}"@);
        assert(p[0] == '{');
        assert(p[1] == '}');
        lemma_ws_end_run(p, 1, 1);
    } else {
        let ep = crate::encode::entries_text_pretty(s);
        assert(p.len() == ep.len() + 4);
        assert(p[0] == '{');
        assert(p[ep.len() as int + 2] == '\n');
        assert(p[ep.len() as int + 3] == '}');
        lemma_entries_pretty_front(s);
        assert(window(p, 1, seq!['\n'] + ep)) by {
            assert forall|k: int| 0 <= k < 1 + ep.len() implies p[1 + k] == (seq!['\n']
                + ep)[k] by {
                assert(p[1 + k] == (seq!['{', '\n'] + ep + seq!['\n', '}'])[1 + k]);
            }
        }
        lemma_entries_scan_pretty(p, 1, seq!['\n'], s);
        // the first branch of the recognizer does not fire: after the
        // whitespace behind the brace stands the first key, not `}`
        assert(p[1] == '\n');
        assert(p[2] == ' ');
        assert(p[3] == ' ');
        assert(p[4] == '"') by {
            assert(p[4] == (seq!['{', '\n'] + ep + seq!['\n', '}'])[4]);
            assert(ep[2] == '"') by {
                assert(ep[2] == (seq![' ', ' '] + crate::encode::entry_text_pretty(s[0]))[2]);
                assert(crate::encode::entry_text_pretty(s[0])[0] == quoted(s[0].0)[0]);
            }
        }
        lemma_ws_end_run(p, 1, 4);
    }
}

} // verus!
