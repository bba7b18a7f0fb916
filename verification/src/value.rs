//! JSON values and the conversion of typed field values into them.

use vstd::prelude::*;

verus! {

/// Mathematical model of a JSON value as stored in a record.
///
/// Integers keep their sign split exactly as they are stored: `Int` is used
/// only for negative numbers, every other integer is an `UInt`.  A number
/// that did not originate from an integer is carried as its decimal
/// rendering (`NumText`), since the library stores and emits such numbers
/// without doing arithmetic on them.
pub enum ValueView {
    Null,
    Bool(bool),
    Int(int),
    UInt(nat),
    NumText(Seq<char>),
    Str(Seq<char>),
}

/// A JSON value: the result of converting one typed field value.
///
/// `NumText` holds the decimal rendering of a number that is not a 64-bit
/// integer (for example a floating-point value rendered by the caller); its
/// well-formedness invariant says the text is a valid JSON number literal,
/// so a record holding it still encodes to valid JSON.
pub enum JsonValue {
    Null,
    Bool(bool),
    Int(i64),
    UInt(u64),
    NumText(String),
    Str(String),
}

impl View for JsonValue {
    type V = ValueView;

    open spec fn view(&self) -> ValueView {
        match self {
            JsonValue::Null => ValueView::Null,
            JsonValue::Bool(b) => ValueView::Bool(*b),
            JsonValue::Int(i) => ValueView::Int(*i as int),
            JsonValue::UInt(u) => ValueView::UInt(*u as nat),
            JsonValue::NumText(t) => ValueView::NumText(t@),
            JsonValue::Str(s) => ValueView::Str(s@),
        }
    }
}

/// Well-formedness of a stored value: `Int` is reserved for negative
/// numbers (a non-negative integer is stored as `UInt`, so equal numbers
/// compare equal), and `NumText` holds a valid JSON number literal.
pub open spec fn value_wf(v: ValueView) -> bool {
    match v {
        ValueView::Int(i) => i < 0,
        ValueView::NumText(t) => crate::num::is_number_literal(t),
        _ => true,
    }
}

impl JsonValue {
    /// The stored form of a signed integer: non-negative values move to
    /// `UInt`, so that a signed and an unsigned field with the same value
    /// produce the same JSON value.
    pub fn of_i64(i: i64) -> (r: JsonValue)
        ensures
            r@ == spec_of_i64(i),
            value_wf(r@),
    {
        if i >= 0 {
            JsonValue::UInt(i as u64)
        } else {
            JsonValue::Int(i)
        }
    }

    pub fn of_u64(u: u64) -> (r: JsonValue)
        ensures
            r@ == ValueView::UInt(u as nat),
            value_wf(r@),
    {
        JsonValue::UInt(u)
    }

    pub fn of_bool(b: bool) -> (r: JsonValue)
        ensures
            r@ == ValueView::Bool(b),
            value_wf(r@),
    {
        JsonValue::Bool(b)
    }

    pub fn of_string(s: String) -> (r: JsonValue)
        ensures
            r@ == ValueView::Str(s@),
            value_wf(r@),
    {
        JsonValue::Str(s)
    }

    /// A number given by its decimal rendering.  Text that is not a valid
    /// JSON number literal degrades to a JSON string, so no value is ever
    /// dropped.
    pub fn of_number_text(t: String) -> (r: JsonValue)
        ensures
            r@ == (if crate::num::is_number_literal(t@) {
                ValueView::NumText(t@)
            } else {
                ValueView::Str(t@)
            }),
            value_wf(r@),
    {
        if crate::num::check_number_literal(t.as_str()) {
            JsonValue::NumText(t)
        } else {
            JsonValue::Str(t)
        }
    }

    /// The string content of a `Str` value, used by tests and sinks that
    /// read single fields back out of a record.
    pub fn str_content(&self) -> (r: Option<&String>)
        ensures
            match r {
                Some(s) => self@ == ValueView::Str(s@),
                None => !(self@ is Str),
            },
    {
        match self {
            JsonValue::Str(s) => Some(s),
            _ => None,
        }
    }
}

impl Clone for JsonValue {
    fn clone(&self) -> (r: Self)
        ensures
            r == *self,
    {
        match self {
            JsonValue::Null => JsonValue::Null,
            JsonValue::Bool(b) => JsonValue::Bool(*b),
            JsonValue::Int(i) => JsonValue::Int(*i),
            JsonValue::UInt(u) => JsonValue::UInt(*u),
            JsonValue::NumText(t) => JsonValue::NumText(t.clone()),
            JsonValue::Str(s) => JsonValue::Str(s.clone()),
        }
    }
}

pub open spec fn spec_of_i64(i: i64) -> ValueView {
    if i >= 0 {
        ValueView::UInt(i as nat)
    } else {
        ValueView::Int(i as int)
    }
}

/// Decides semantic equality of two values, at the level of their models.
pub fn value_eq(a: &JsonValue, b: &JsonValue) -> (r: bool)
    ensures
        r == (a@ == b@),
{
    match a {
        JsonValue::Null => match b {
            JsonValue::Null => true,
            _ => false,
        },
        JsonValue::Bool(x) => match b {
            JsonValue::Bool(y) => x == y,
            _ => false,
        },
        JsonValue::Int(x) => match b {
            JsonValue::Int(y) => x == y,
            _ => false,
        },
        JsonValue::UInt(x) => match b {
            JsonValue::UInt(y) => x == y,
            _ => false,
        },
        JsonValue::NumText(x) => match b {
            JsonValue::NumText(y) => *x == *y,
            _ => false,
        },
        JsonValue::Str(x) => match b {
            JsonValue::Str(y) => *x == *y,
            _ => false,
        },
    }
}

/// One typed field value as handed over by the host runtime, before
/// conversion to JSON.  Values the library cannot hold directly arrive
/// rendered: an error-like value as its display text, any other value as
/// its debug text, and a non-integer number as its decimal rendering.
pub enum FieldValue {
    I64(i64),
    U64(u64),
    Bool(bool),
    Str(String),
    ErrorText(String),
    DebugText(String),
    NumText(String),
}

impl Clone for FieldValue {
    fn clone(&self) -> (r: Self)
        ensures
            r == *self,
    {
        match self {
            FieldValue::I64(i) => FieldValue::I64(*i),
            FieldValue::U64(u) => FieldValue::U64(*u),
            FieldValue::Bool(b) => FieldValue::Bool(*b),
            FieldValue::Str(s) => FieldValue::Str(s.clone()),
            FieldValue::ErrorText(s) => FieldValue::ErrorText(s.clone()),
            FieldValue::DebugText(s) => FieldValue::DebugText(s.clone()),
            FieldValue::NumText(t) => FieldValue::NumText(t.clone()),
        }
    }
}

/// The JSON value that visiting a typed field value produces.  Total: every
/// kind of field value maps to exactly one JSON value, so no field is ever
/// dropped.
pub open spec fn json_of(fv: FieldValue) -> ValueView {
    match fv {
        FieldValue::I64(i) => spec_of_i64(i),
        FieldValue::U64(u) => ValueView::UInt(u as nat),
        FieldValue::Bool(b) => ValueView::Bool(b),
        FieldValue::Str(s) => ValueView::Str(s@),
        FieldValue::ErrorText(s) => ValueView::Str(s@),
        FieldValue::DebugText(s) => ValueView::Str(s@),
        FieldValue::NumText(t) => if crate::num::is_number_literal(t@) {
            ValueView::NumText(t@)
        } else {
            ValueView::Str(t@)
        },
    }
}

/// Converts one typed field value into its JSON value (the field visitor).
pub fn visit_field_value(fv: FieldValue) -> (r: JsonValue)
    ensures
        r@ == json_of(fv),
        value_wf(r@),
{
    match fv {
        FieldValue::I64(i) => JsonValue::of_i64(i),
        FieldValue::U64(u) => JsonValue::of_u64(u),
        FieldValue::Bool(b) => JsonValue::of_bool(b),
        FieldValue::Str(s) => JsonValue::of_string(s),
        FieldValue::ErrorText(s) => JsonValue::of_string(s),
        FieldValue::DebugText(s) => JsonValue::of_string(s),
        FieldValue::NumText(t) => JsonValue::of_number_text(t),
    }
}

} // verus!
