//! Rendering a JSON object as text, compact or pretty.
//!
//! The encoding is specified character by character: strings are quoted
//! with the standard JSON escapes, integers are rendered in decimal, and a
//! record becomes `{"k":v,...}` (or, pretty, one indented entry per line).
//! Together with the object's well-formedness invariant this makes every
//! emitted record a valid JSON object.

use vstd::prelude::*;
use vstd::string::{StrSliceExecFns, StringExecFns};

use crate::object::{EntryView, JsonObject};
use crate::value::{JsonValue, ValueView};

verus! {

pub open spec fn dec_digit(d: int) -> char {
    if d == 0 {
        '0'
    } else if d == 1 {
        '1'
    } else if d == 2 {
        '2'
    } else if d == 3 {
        '3'
    } else if d == 4 {
        '4'
    } else if d == 5 {
        '5'
    } else if d == 6 {
        '6'
    } else if d == 7 {
        '7'
    } else if d == 8 {
        '8'
    } else {
        '9'
    }
}

pub open spec fn hex_digit(d: int) -> char {
    if d < 10 {
        dec_digit(d)
    } else if d == 10 {
        'a'
    } else if d == 11 {
        'b'
    } else if d == 12 {
        'c'
    } else if d == 13 {
        'd'
    } else if d == 14 {
        'e'
    } else {
        'f'
    }
}

/// Decimal rendering of a non-negative number, most significant digit
/// first.
pub open spec fn dec_rep(n: nat) -> Seq<char>
    decreases n,
{
    if n < 10 {
        seq![dec_digit(n as int)]
    } else {
        dec_rep(n / 10).push(dec_digit((n % 10) as int))
    }
}

/// Decimal rendering of an integer, with a leading minus sign when
/// negative.
pub open spec fn int_rep(i: int) -> Seq<char> {
    if i < 0 {
        seq!['-'] + dec_rep((-i) as nat)
    } else {
        dec_rep(i as nat)
    }
}

/// What one character of a string becomes in its JSON rendering: the
/// two-character escapes of JSON for the quote, the backslash and the named
/// control characters, `\u00..` for the remaining control characters, and
/// the character itself otherwise.
pub open spec fn escape_char(c: char) -> Seq<char> {
    if c == '"' {
        seq!['\\', '"']
    } else if c == '\\' {
        seq!['\\', '\\']
    } else if c as u32 == 8 {
        seq!['\\', 'b']
    } else if c as u32 == 9 {
        seq!['\\', 't']
    } else if c as u32 == 10 {
        seq!['\\', 'n']
    } else if c as u32 == 12 {
        seq!['\\', 'f']
    } else if c as u32 == 13 {
        seq!['\\', 'r']
    } else if (c as u32) < 32 {
        seq!['\\', 'u', '0', '0', hex_digit(((c as u32) / 16) as int), hex_digit(((c as u32) % 16) as int)]
    } else {
        seq![c]
    }
}

pub open spec fn escape_str(s: Seq<char>) -> Seq<char>
    decreases s.len(),
{
    if s.len() == 0 {
        Seq::empty()
    } else {
        escape_str(s.drop_last()) + escape_char(s.last())
    }
}

/// A string as it stands in JSON text: quoted and escaped.
pub open spec fn quoted(s: Seq<char>) -> Seq<char> {
    seq!['"'] + escape_str(s) + seq!['"']
}

/// The rendering of one JSON value.
pub open spec fn value_text(v: ValueView) -> Seq<char> {
    match v {
        ValueView::Null => "null"@,
        ValueView::Bool(b) => if b {
            "true"@
        } else {
            "false"@
        },
        ValueView::Int(i) => int_rep(i),
        ValueView::UInt(n) => dec_rep(n),
        ValueView::NumText(t) => t,
        ValueView::Str(s) => quoted(s),
    }
}

pub open spec fn entry_text(e: EntryView) -> Seq<char> {
    quoted(e.0) + seq![':'] + value_text(e.1)
}

pub open spec fn entries_text(s: Seq<EntryView>) -> Seq<char>
    decreases s.len(),
{
    if s.len() == 0 {
        Seq::empty()
    } else if s.len() == 1 {
        entry_text(s[0])
    } else {
        entries_text(s.drop_last()) + seq![','] + entry_text(s.last())
    }
}

/// Compact rendering of a record: `{"k":v,...}` in entry order.
pub open spec fn record_text(s: Seq<EntryView>) -> Seq<char> {
    seq!['{'] + entries_text(s) + seq!['}']
}

pub open spec fn entry_text_pretty(e: EntryView) -> Seq<char> {
    quoted(e.0) + seq![':', ' '] + value_text(e.1)
}

pub open spec fn entries_text_pretty(s: Seq<EntryView>) -> Seq<char>
    decreases s.len(),
{
    if s.len() == 0 {
        Seq::empty()
    } else if s.len() == 1 {
        seq![' ', ' '] + entry_text_pretty(s[0])
    } else {
        entries_text_pretty(s.drop_last()) + seq![',', '\n', ' ', ' '] + entry_text_pretty(
            s.last(),
        )
    }
}

/// Pretty rendering of a record: one two-space-indented entry per line.
pub open spec fn record_text_pretty(s: Seq<EntryView>) -> Seq<char> {
    if s.len() == 0 {
        "{}"@
    } else {
        seq!['{', '\n'] + entries_text_pretty(s) + seq!['\n', '}']
    }
}

/// Relies on alloc::string::String::push: appends exactly the given
/// character to the end of the string.
#[verifier::external_body]
fn push_char(out: &mut String, c: char)
    ensures
        final(out)@ == old(out)@.push(c),
{
    out.push(c);
}

fn dec_digit_char(d: u64) -> (r: char)
    requires
        d < 10,
    ensures
        r == dec_digit(d as int),
{
    if d == 0 {
        '0'
    } else if d == 1 {
        '1'
    } else if d == 2 {
        '2'
    } else if d == 3 {
        '3'
    } else if d == 4 {
        '4'
    } else if d == 5 {
        '5'
    } else if d == 6 {
        '6'
    } else if d == 7 {
        '7'
    } else if d == 8 {
        '8'
    } else {
        '9'
    }
}

fn hex_digit_char(d: u32) -> (r: char)
    requires
        d < 16,
    ensures
        r == hex_digit(d as int),
{
    if d < 10 {
        dec_digit_char(d as u64)
    } else if d == 10 {
        'a'
    } else if d == 11 {
        'b'
    } else if d == 12 {
        'c'
    } else if d == 13 {
        'd'
    } else if d == 14 {
        'e'
    } else {
        'f'
    }
}

fn push_dec(out: &mut String, n: u64)
    ensures
        final(out)@ == old(out)@ + dec_rep(n as nat),
    decreases n,
{
    if n < 10 {
        push_char(out, dec_digit_char(n));
        assert(final(out)@ =~= old(out)@ + dec_rep(n as nat));
    } else {
        push_dec(out, n / 10);
        push_char(out, dec_digit_char(n % 10));
        assert(final(out)@ =~= old(out)@ + dec_rep(n as nat));
    }
}

fn push_int(out: &mut String, i: i64)
    ensures
        final(out)@ == old(out)@ + int_rep(i as int),
{
    if i >= 0 {
        push_dec(out, i as u64);
    } else {
        push_char(out, '-');
        let m: u64 = ((-(i + 1)) as u64) + 1;
        assert(m as nat == (-(i as int)) as nat);
        push_dec(out, m);
        assert(final(out)@ =~= old(out)@ + int_rep(i as int));
    }
}

fn push_escaped_char(out: &mut String, c: char)
    ensures
        final(out)@ == old(out)@ + escape_char(c),
{
    let n = c as u32;
    if c == '"' {
        push_char(out, '\\');
        push_char(out, '"');
        assert(final(out)@ =~= old(out)@ + escape_char(c));
    } else if c == '\\' {
        push_char(out, '\\');
        push_char(out, '\\');
        assert(final(out)@ =~= old(out)@ + escape_char(c));
    } else if n == 8 {
        push_char(out, '\\');
        push_char(out, 'b');
        assert(final(out)@ =~= old(out)@ + escape_char(c));
    } else if n == 9 {
        push_char(out, '\\');
        push_char(out, 't');
        assert(final(out)@ =~= old(out)@ + escape_char(c));
    } else if n == 10 {
        push_char(out, '\\');
        push_char(out, 'n');
        assert(final(out)@ =~= old(out)@ + escape_char(c));
    } else if n == 12 {
        push_char(out, '\\');
        push_char(out, 'f');
        assert(final(out)@ =~= old(out)@ + escape_char(c));
    } else if n == 13 {
        push_char(out, '\\');
        push_char(out, 'r');
        assert(final(out)@ =~= old(out)@ + escape_char(c));
    } else if n < 32 {
        push_char(out, '\\');
        push_char(out, 'u');
        push_char(out, '0');
        push_char(out, '0');
        push_char(out, hex_digit_char(n / 16));
        push_char(out, hex_digit_char(n % 16));
        assert(final(out)@ =~= old(out)@ + escape_char(c));
    } else {
        push_char(out, c);
        assert(final(out)@ =~= old(out)@ + escape_char(c));
    }
}

fn push_escaped(out: &mut String, s: &str)
    ensures
        final(out)@ == old(out)@ + escape_str(s@),
{
    let n = s.unicode_len();
    let mut j: usize = 0;
    while j < n
        invariant
            j <= n,
            n == s@.len(),
            out@ == old(out)@ + escape_str(s@.subrange(0, j as int)),
        decreases n - j,
    {
        push_escaped_char(out, s.get_char(j));
        proof {
            let a = s@.subrange(0, j as int + 1);
            assert(a.drop_last() =~= s@.subrange(0, j as int));
            assert(a.last() == s@[j as int]);
            assert(out@ =~= old(out)@ + escape_str(a));
        }
        j = j + 1;
    }
    proof {
        assert(s@.subrange(0, n as int) =~= s@);
    }
}

fn push_quoted(out: &mut String, s: &str)
    ensures
        final(out)@ == old(out)@ + quoted(s@),
{
    push_char(out, '"');
    push_escaped(out, s);
    push_char(out, '"');
    assert(final(out)@ =~= old(out)@ + quoted(s@));
}

fn push_value(out: &mut String, v: &JsonValue)
    ensures
        final(out)@ == old(out)@ + value_text(v@),
{
    match v {
        JsonValue::Null => {
            out.append("null");
        },
        JsonValue::Bool(b) => {
            if *b {
                out.append("true");
            } else {
                out.append("false");
            }
        },
        JsonValue::Int(i) => {
            push_int(out, *i);
        },
        JsonValue::UInt(u) => {
            push_dec(out, *u);
        },
        JsonValue::NumText(t) => {
            out.append(t.as_str());
        },
        JsonValue::Str(s) => {
            push_quoted(out, s.as_str());
        },
    }
}

fn push_entry(out: &mut String, k: &String, v: &JsonValue, pretty: bool)
    ensures
        pretty ==> final(out)@ == old(out)@ + entry_text_pretty((k@, v@)),
        !pretty ==> final(out)@ == old(out)@ + entry_text((k@, v@)),
{
    push_quoted(out, k.as_str());
    push_char(out, ':');
    if pretty {
        push_char(out, ' ');
    }
    push_value(out, v);
    if pretty {
        assert(final(out)@ =~= old(out)@ + entry_text_pretty((k@, v@)));
    } else {
        assert(final(out)@ =~= old(out)@ + entry_text((k@, v@)));
    }
}

/// Renders a record as JSON text, compact (`{"k":v,...}`) or pretty (one
/// indented entry per line).
pub fn encode_record(rec: &JsonObject, pretty: bool) -> (r: String)
    ensures
        pretty ==> r@ == record_text_pretty(rec@),
        !pretty ==> r@ == record_text(rec@),
{
    let n = rec.len();
    let mut out = String::new();
    if pretty && n == 0 {
        out.append("{}");
        proof {
            reveal_strlit("{}");
            assert(out@ =~= record_text_pretty(rec@));
        }
        return out;
    }
    push_char(&mut out, '{');
    if pretty {
        push_char(&mut out, '\n');
    }
    let mut j: usize = 0;
    while j < n
        invariant
            j <= n,
            n == rec@.len(),
            pretty ==> n > 0 && out@ == seq!['{', '\n'] + entries_text_pretty(
                rec@.subrange(0, j as int),
            ),
            !pretty ==> out@ == seq!['{'] + entries_text(rec@.subrange(0, j as int)),
        decreases n - j,
    {
        if j > 0 {
            push_char(&mut out, ',');
            if pretty {
                push_char(&mut out, '\n');
            }
        }
        if pretty {
            push_char(&mut out, ' ');
            push_char(&mut out, ' ');
        }
        let e = rec.entry_at(j);
        push_entry(&mut out, e.0, e.1, pretty);
        proof {
            let a = rec@.subrange(0, j as int + 1);
            assert(a.drop_last() =~= rec@.subrange(0, j as int));
            assert(a.last() == rec@[j as int]);
            assert(a.len() == j + 1);
            if j == 0 {
                assert(a[0] == rec@[0]);
            }
            if pretty {
                assert(out@ =~= seq!['{', '\n'] + entries_text_pretty(a));
            } else {
                assert(out@ =~= seq!['{'] + entries_text(a));
            }
        }
        j = j + 1;
    }
    proof {
        assert(rec@.subrange(0, n as int) =~= rec@);
    }
    if pretty {
        push_char(&mut out, '\n');
    }
    push_char(&mut out, '}');
    proof {
        if pretty {
            assert(out@ =~= record_text_pretty(rec@));
        } else {
            assert(out@ =~= record_text(rec@));
        }
    }
    out
}

/// Text that stays on one line.
pub open spec fn single_line(s: Seq<char>) -> bool {
    forall|i: int| 0 <= i < s.len() ==> (#[trigger] s[i]) != '\n'
}

proof fn lemma_dec_rep_single_line(n: nat)
    ensures
        single_line(dec_rep(n)),
    decreases n,
{
    if n >= 10 {
        lemma_dec_rep_single_line(n / 10);
    }
}

proof fn lemma_escape_char_single_line(c: char)
    ensures
        single_line(escape_char(c)),
{
}

proof fn lemma_escape_str_single_line(s: Seq<char>)
    ensures
        single_line(escape_str(s)),
    decreases s.len(),
{
    if s.len() > 0 {
        lemma_escape_str_single_line(s.drop_last());
        lemma_escape_char_single_line(s.last());
    }
}

proof fn lemma_value_text_single_line(v: ValueView)
    requires
        crate::value::value_wf(v),
    ensures
        single_line(value_text(v)),
{
    reveal_strlit("null");
    reveal_strlit("true");
    reveal_strlit("false");
    match v {
        ValueView::Int(i) => {
            lemma_dec_rep_single_line((-i) as nat);
            lemma_dec_rep_single_line(i as nat);
        },
        ValueView::UInt(n) => {
            lemma_dec_rep_single_line(n);
        },
        ValueView::NumText(t) => {
            crate::num::lemma_number_literal_chars(t);
        },
        ValueView::Str(s) => {
            lemma_escape_str_single_line(s);
        },
        _ => {},
    }
}

proof fn lemma_entries_text_single_line(s: Seq<EntryView>)
    requires
        forall|i: int| 0 <= i < s.len() ==> crate::value::value_wf((#[trigger] s[i]).1),
    ensures
        single_line(entries_text(s)),
    decreases s.len(),
{
    if s.len() > 0 {
        let t = s.drop_last();
        assert forall|i: int| 0 <= i < t.len() implies crate::value::value_wf(
            (#[trigger] t[i]).1,
        ) by {
            assert(t[i] == s[i]);
        }
        lemma_entries_text_single_line(t);
        lemma_escape_str_single_line(s.last().0);
        lemma_value_text_single_line(s.last().1);
        if s.len() == 1 {
            lemma_escape_str_single_line(s[0].0);
            lemma_value_text_single_line(s[0].1);
        }
    }
}

/// A hexadecimal digit as JSON's `\u` escape accepts it.
pub open spec fn is_hex(c: char) -> bool {
    48 <= c as u32 <= 57 || 97 <= c as u32 <= 102 || 65 <= c as u32 <= 70
}

/// Where the legal unit of a JSON string body beginning at `i` ends: one
/// plain character (not a quote, a backslash, or a control character), a
/// two-character escape, or a `\u` escape with four hexadecimal digits.  A
/// negative result means no legal unit begins there.
pub open spec fn string_unit_end(t: Seq<char>, i: int) -> int {
    if i < 0 || i >= t.len() {
        -1
    } else if t[i] == '\\' {
        if i + 1 < t.len() && (t[i + 1] == '"' || t[i + 1] == '\\' || t[i + 1] == '/' || t[i + 1]
            == 'b' || t[i + 1] == 'f' || t[i + 1] == 'n' || t[i + 1] == 'r' || t[i + 1] == 't') {
            i + 2
        } else if i + 5 < t.len() && t[i + 1] == 'u' && is_hex(t[i + 2]) && is_hex(t[i + 3])
            && is_hex(t[i + 4]) && is_hex(t[i + 5]) {
            i + 6
        } else {
            -1
        }
    } else if t[i] == '"' || (t[i] as u32) < 32 {
        -1
    } else {
        i + 1
    }
}

/// Whether the characters from `i` on form a legal JSON string body: a
/// sequence of legal units reaching exactly the end of the text.
pub open spec fn well_escaped_from(t: Seq<char>, i: int) -> bool
    decreases t.len() - i,
{
    if i == t.len() {
        true
    } else if string_unit_end(t, i) > i {
        well_escaped_from(t, string_unit_end(t, i))
    } else {
        false
    }
}

/// Whether a text is a legal JSON string body.
pub open spec fn well_escaped(t: Seq<char>) -> bool {
    well_escaped_from(t, 0)
}

proof fn lemma_unit_end_shift(a: Seq<char>, b: Seq<char>, k: int)
    requires
        0 <= k <= b.len(),
    ensures
        string_unit_end(a + b, a.len() + k) == (if string_unit_end(b, k) < 0 {
            -1
        } else {
            a.len() + string_unit_end(b, k)
        }),
{
    assert forall|j: int| 0 <= j < b.len() implies (a + b)[a.len() + j] == b[j] by {}
}

proof fn lemma_well_escaped_shift(a: Seq<char>, b: Seq<char>, k: int)
    requires
        0 <= k <= b.len(),
    ensures
        well_escaped_from(a + b, a.len() + k) == well_escaped_from(b, k),
    decreases b.len() - k,
{
    lemma_unit_end_shift(a, b, k);
    if k < b.len() && string_unit_end(b, k) > k {
        lemma_well_escaped_shift(a, b, string_unit_end(b, k));
    }
}

proof fn lemma_well_escaped_append(a: Seq<char>, b: Seq<char>)
    requires
        well_escaped(a),
        well_escaped(b),
    ensures
        well_escaped(a + b),
{
    lemma_well_escaped_append_from(a, b, 0);
}

proof fn lemma_well_escaped_append_from(a: Seq<char>, b: Seq<char>, i: int)
    requires
        0 <= i <= a.len(),
        well_escaped_from(a, i),
        well_escaped(b),
    ensures
        well_escaped_from(a + b, i),
    decreases a.len() - i,
{
    if i == a.len() {
        lemma_well_escaped_shift(a, b, 0);
    } else {
        let u = string_unit_end(a, i);
        assert forall|j: int| 0 <= j < a.len() implies (a + b)[j] == a[j] by {}
        assert(string_unit_end(a + b, i) == u);
        lemma_well_escaped_append_from(a, b, u);
    }
}

proof fn lemma_escape_char_well(c: char)
    ensures
        well_escaped(escape_char(c)),
{
    let t = escape_char(c);
    if c == '"' || c == '\\' || c as u32 == 8 || c as u32 == 9 || c as u32 == 10 || c as u32 == 12
        || c as u32 == 13 {
        assert(string_unit_end(t, 0) == 2);
        assert(well_escaped_from(t, 2));
        assert(well_escaped_from(t, 0));
    } else if (c as u32) < 32 {
        assert(is_hex(hex_digit(((c as u32) / 16) as int)));
        assert(is_hex(hex_digit(((c as u32) % 16) as int)));
        assert(string_unit_end(t, 0) == 6);
        assert(well_escaped_from(t, 6));
        assert(well_escaped_from(t, 0));
    } else {
        assert(string_unit_end(t, 0) == 1);
        assert(well_escaped_from(t, 1));
        assert(well_escaped_from(t, 0));
    }
}

/// Law: every string an encoded record carries — a field name or a string
/// value — becomes a legal JSON string body: each of its characters leaves
/// the escaper either as a plain character that JSON allows unescaped, or
/// as one of JSON's escape sequences.  Together with the number-literal
/// invariant on number text and the fixed rendering of the other value
/// kinds, this is what makes every emitted record valid JSON.
pub proof fn lemma_escaped_text_is_legal_string_body(s: Seq<char>)
    ensures
        well_escaped(escape_str(s)),
    decreases s.len(),
{
    if s.len() == 0 {
    } else {
        lemma_escaped_text_is_legal_string_body(s.drop_last());
        lemma_escape_char_well(s.last());
        lemma_well_escaped_append(escape_str(s.drop_last()), escape_char(s.last()));
    }
}

/// Law: one record, one line.  The compact rendering of a well-formed
/// record contains no newline — every newline inside a field name or value
/// is escaped, and nothing else can produce one — so the default output's
/// record-per-line framing can never be broken by a record's contents.
pub proof fn lemma_compact_record_single_line(s: Seq<EntryView>)
    requires
        forall|i: int| 0 <= i < s.len() ==> crate::value::value_wf((#[trigger] s[i]).1),
    ensures
        single_line(record_text(s)),
{
    lemma_entries_text_single_line(s);
}

} // verus!
