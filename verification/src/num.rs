//! The grammar of JSON number literals, and a checker for it.
//!
//! A number that is not a 64-bit integer reaches the library as its decimal
//! rendering; before such text is stored as a JSON number it is held against
//! the JSON grammar `-? (0 | [1-9][0-9]*) (. [0-9]+)? ([eE][+-]?[0-9]+)?`,
//! so that every record the library emits is valid JSON.

use vstd::prelude::*;
use vstd::string::StrSliceExecFns;

verus! {

pub open spec fn is_digit(c: char) -> bool {
    48 <= c as u32 <= 57
}

/// The first position at or after `i` that does not hold a digit (or the
/// end of the text).
pub open spec fn digits_end(s: Seq<char>, i: int) -> int
    decreases s.len() - i,
{
    if i < 0 || i >= s.len() {
        i
    } else if is_digit(s[i]) {
        digits_end(s, i + 1)
    } else {
        i
    }
}

/// End of the integer part starting at `i`: a single `0`, or a maximal run
/// of digits.
pub open spec fn int_end(s: Seq<char>, i: int) -> int {
    if 0 <= i < s.len() && s[i] == '0' {
        i + 1
    } else {
        digits_end(s, i)
    }
}

/// End of an optional fraction part starting at `i`.
pub open spec fn frac_end(s: Seq<char>, i: int) -> int {
    if 0 <= i < s.len() && s[i] == '.' {
        digits_end(s, i + 1)
    } else {
        i
    }
}

/// Where the digits of an exponent part whose marker sits at `i` begin.
pub open spec fn exp_digits_start(s: Seq<char>, i: int) -> int {
    if i + 1 < s.len() && (s[i + 1] == '+' || s[i + 1] == '-') {
        i + 2
    } else {
        i + 1
    }
}

/// End of an optional exponent part starting at `i`.
pub open spec fn exp_end(s: Seq<char>, i: int) -> int {
    if 0 <= i < s.len() && (s[i] == 'e' || s[i] == 'E') {
        digits_end(s, exp_digits_start(s, i))
    } else {
        i
    }
}

/// Whether `s` is a JSON number literal: an optional minus sign, an integer
/// part (`0`, or a nonzero digit followed by digits), an optional fraction
/// part with at least one digit, and an optional exponent part with at
/// least one digit, with nothing following.
pub open spec fn is_number_literal(s: Seq<char>) -> bool {
    let i0: int = if s.len() > 0 && s[0] == '-' {
        1
    } else {
        0
    };
    let i1 = int_end(s, i0);
    let i2 = frac_end(s, i1);
    let i3 = exp_end(s, i2);
    &&& i1 > i0
    &&& (i1 < s.len() && s[i1] == '.' ==> i2 >= i1 + 2)
    &&& (i2 < s.len() && (s[i2] == 'e' || s[i2] == 'E') ==> i3 >= exp_digits_start(s, i2) + 1)
    &&& i3 == s.len()
}

pub proof fn lemma_digits_end_digits(s: Seq<char>, i: int)
    requires
        0 <= i <= s.len(),
    ensures
        i <= digits_end(s, i) <= s.len(),
        forall|k: int| i <= k < digits_end(s, i) ==> is_digit(s[k]),
    decreases s.len() - i,
{
    if i < s.len() && is_digit(s[i]) {
        lemma_digits_end_digits(s, i + 1);
    }
}

/// Every character of a number literal is a digit, a sign, a decimal
/// point, or an exponent marker.
pub proof fn lemma_number_literal_chars(s: Seq<char>)
    requires
        is_number_literal(s),
    ensures
        forall|k: int|
            0 <= k < s.len() ==> (is_digit(#[trigger] s[k]) || s[k] == '-' || s[k] == '+' || s[k]
                == '.' || s[k] == 'e' || s[k] == 'E'),
{
    let i0: int = if s.len() > 0 && s[0] == '-' {
        1
    } else {
        0
    };
    let i1 = int_end(s, i0);
    let i2 = frac_end(s, i1);
    let i3 = exp_end(s, i2);
    lemma_digits_end_digits(s, i0);
    assert forall|k: int|
        0 <= k < s.len() implies (is_digit(#[trigger] s[k]) || s[k] == '-' || s[k] == '+' || s[k]
        == '.' || s[k] == 'e' || s[k] == 'E') by {
        if k < i0 {
        } else if k < i1 {
            if 0 <= i0 < s.len() && s[i0] == '0' {
                assert(k == i0);
            }
        } else if k < i2 {
            assert(s[i1] == '.');
            lemma_digits_end_digits(s, i1 + 1);
        } else {
            assert(s[i2] == 'e' || s[i2] == 'E');
            let start = exp_digits_start(s, i2);
            lemma_digits_end_digits(s, start);
            if i2 < k < start {
                assert(k == i2 + 1);
                assert(s[k] == '+' || s[k] == '-');
            }
        }
    }
}

fn exec_is_digit(c: char) -> (r: bool)
    ensures
        r == is_digit(c),
{
    let d = c as u32;
    48 <= d && d <= 57
}

/// Scans the maximal run of digits beginning at `from`.
fn scan_digits(s: &str, from: usize) -> (r: usize)
    requires
        from <= s@.len(),
    ensures
        r == digits_end(s@, from as int),
        from <= r <= s@.len(),
{
    let n = s.unicode_len();
    let mut i = from;
    while i < n
        invariant
            from <= i <= n,
            n == s@.len(),
            digits_end(s@, from as int) == digits_end(s@, i as int),
        decreases n - i,
    {
        if !exec_is_digit(s.get_char(i)) {
            return i;
        }
        i = i + 1;
    }
    i
}

/// Decides whether the text is a JSON number literal.
pub fn check_number_literal(s: &str) -> (r: bool)
    ensures
        r == is_number_literal(s@),
{
    let n = s.unicode_len();
    let i0: usize = if n > 0 && s.get_char(0) == '-' {
        1
    } else {
        0
    };
    let i1: usize = if i0 < n && s.get_char(i0) == '0' {
        i0 + 1
    } else {
        scan_digits(s, i0)
    };
    if i1 <= i0 {
        return false;
    }
    let frac_dot = i1 < n && s.get_char(i1) == '.';
    let i2: usize = if frac_dot {
        scan_digits(s, i1 + 1)
    } else {
        i1
    };
    if frac_dot && i2 == i1 + 1 {
        return false;
    }
    let exp_marker = i2 < n && {
        let c = s.get_char(i2);
        c == 'e' || c == 'E'
    };
    let i3: usize;
    let mut exp_start: usize = i2;
    if exp_marker {
        exp_start = if i2 + 1 < n {
            let c = s.get_char(i2 + 1);
            if c == '+' || c == '-' {
                i2 + 2
            } else {
                i2 + 1
            }
        } else {
            i2 + 1
        };
        i3 = scan_digits(s, exp_start);
        if i3 == exp_start {
            return false;
        }
    } else {
        i3 = i2;
    }
    i3 == n
}

} // verus!
