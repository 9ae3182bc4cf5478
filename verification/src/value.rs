//! The dynamic values state cells hold, and their string serialization.
//!
//! A cell's value is serialized at write time, so the formatting is fixed
//! here and decoupled from later consumers. Remote writes arrive as dynamic
//! values of the same shape.

use vstd::prelude::*;

use crate::decimal::{self, dec_int, dec_value, is_dec_numeral};
use crate::strutil::str_eq;

verus! {

/// A dynamically typed state value.
#[derive(Debug, PartialEq)]
pub enum Value {
    /// No value.
    Null,
    /// A boolean.
    Bool(bool),
    /// A signed integer.
    Int(i64),
    /// A text value.
    Text(String),
}

impl Value {
    /// The serialized form of this value.
    pub open spec fn display_seq(&self) -> Seq<char> {
        match self {
            Value::Null => "null"@,
            Value::Bool(b) => if *b {
                "true"@
            } else {
                "false"@
            },
            Value::Int(n) => dec_int(*n as int),
            Value::Text(s) => s@,
        }
    }

    /// True when the two values are of the same kind, so one may overwrite
    /// the other in a typed cell.
    pub open spec fn same_kind(&self, other: &Value) -> bool {
        match (self, other) {
            (Value::Null, Value::Null) => true,
            (Value::Bool(_), Value::Bool(_)) => true,
            (Value::Int(_), Value::Int(_)) => true,
            (Value::Text(_), Value::Text(_)) => true,
            _ => false,
        }
    }

    /// Serializes the value: integers in decimal, booleans as `true` and
    /// `false`, text as it stands.
    pub fn display(&self) -> (r: String)
        ensures
            r@ == self.display_seq(),
    {
        match self {
            Value::Null => String::from_str("null"),
            Value::Bool(b) => {
                if *b {
                    String::from_str("true")
                } else {
                    String::from_str("false")
                }
            },
            Value::Int(n) => decimal::i64_to_string(*n),
            Value::Text(s) => s.clone(),
        }
    }

    /// Whether this value and `other` are of the same kind.
    pub fn kind_matches(&self, other: &Value) -> (r: bool)
        ensures
            r == self.same_kind(other),
    {
        match (self, other) {
            (Value::Null, Value::Null) => true,
            (Value::Bool(_), Value::Bool(_)) => true,
            (Value::Int(_), Value::Int(_)) => true,
            (Value::Text(_), Value::Text(_)) => true,
            _ => false,
        }
    }
}

impl Clone for Value {
    fn clone(&self) -> (r: Self)
        ensures
            r == *self,
    {
        match self {
            Value::Null => Value::Null,
            Value::Bool(b) => Value::Bool(*b),
            Value::Int(n) => Value::Int(*n),
            Value::Text(s) => Value::Text(s.clone()),
        }
    }
}

/// True when `s` is a well-formed signed decimal numeral.
pub open spec fn is_int_numeral(s: Seq<char>) -> bool {
    is_dec_numeral(s) || (s.len() > 1 && s[0] == '-' && is_dec_numeral(s.skip(1)))
}

/// The integer a signed decimal numeral denotes.
pub open spec fn int_numeral_value(s: Seq<char>) -> int {
    if s.len() > 0 && s[0] == '-' {
        -(dec_value(s.skip(1)) as int)
    } else {
        dec_value(s) as int
    }
}

/// Parses a signed decimal numeral; `Some` exactly when the text is a
/// well-formed numeral whose value fits in an `i64`.
pub fn parse_i64(s: &str) -> (r: Option<i64>)
    ensures
        r is Some <==> (is_int_numeral(s@) && i64::MIN <= int_numeral_value(s@) <= i64::MAX),
        r matches Some(n) ==> n == int_numeral_value(s@),
{
    let len = s.unicode_len();
    if len > 0 && s.get_char(0) == '-' {
        let digits = s.substring_char(1, len);
        proof {
            assert(digits@ =~= s@.skip(1));
        }
        match decimal::parse_u64(digits) {
            Some(m) => {
                if m <= i64::MAX as u64 {
                    proof {
                        assert(is_int_numeral(s@));
                    }
                    Some(-(m as i64))
                } else if m == (i64::MAX as u64) + 1 {
                    Some(i64::MIN)
                } else {
                    proof {
                        assert(int_numeral_value(s@) < i64::MIN);
                    }
                    None
                }
            },
            None => {
                proof {
                    if is_dec_numeral(s@) {
                        assert(is_dec_numeral(s@) ==> crate::decimal::is_digit(s@[0]));
                        assert(false);
                    }
                    if is_int_numeral(s@) && int_numeral_value(s@) >= i64::MIN {
                        assert(is_dec_numeral(s@.skip(1)));
                        assert(dec_value(s@.skip(1)) <= u64::MAX);
                    }
                }
                None
            },
        }
    } else {
        match decimal::parse_u64(s) {
            Some(m) => {
                if m <= i64::MAX as u64 {
                    Some(m as i64)
                } else {
                    None
                }
            },
            None => {
                proof {
                    if s@.len() > 0 && s@[0] == '-' {
                        assert(false);
                    }
                    if is_int_numeral(s@) {
                        assert(is_dec_numeral(s@));
                    }
                }
                None
            },
        }
    }
}

/// Parses `true` or `false`.
pub fn parse_bool(s: &str) -> (r: Option<bool>)
    ensures
        r == (if s@ == "true"@ {
            Option::Some(true)
        } else if s@ == "false"@ {
            Option::Some(false)
        } else {
            Option::<bool>::None
        }),
{
    if str_eq(s, "true") {
        Some(true)
    } else if str_eq(s, "false") {
        Some(false)
    } else {
        None
    }
}

/// The remote-write coercion: what a cell holding `cell` comes to hold when
/// the client sends `incoming`. Client values often arrive pre-stringified,
/// so a text payload aimed at a typed cell is parsed first; otherwise the
/// payload must be of the cell's kind.
pub open spec fn coerce_spec(cell: Value, incoming: Value) -> Option<Value> {
    match (cell, incoming) {
        (Value::Int(_), Value::Text(s)) => if is_int_numeral(s@) && i64::MIN <= int_numeral_value(
            s@,
        ) <= i64::MAX {
            Option::Some(Value::Int(int_numeral_value(s@) as i64))
        } else {
            Option::None
        },
        (Value::Bool(_), Value::Text(s)) => if s@ == "true"@ {
            Option::Some(Value::Bool(true))
        } else if s@ == "false"@ {
            Option::Some(Value::Bool(false))
        } else {
            Option::None
        },
        (Value::Text(_), Value::Text(s)) => Option::Some(Value::Text(s)),
        (Value::Int(_), Value::Int(n)) => Option::Some(Value::Int(n)),
        (Value::Bool(_), Value::Bool(b)) => Option::Some(Value::Bool(b)),
        (Value::Null, Value::Null) => Option::Some(Value::Null),
        _ => Option::None,
    }
}

/// Coerces a remote payload into the kind of the current cell value.
pub fn coerce(cell: &Value, incoming: Value) -> (r: Option<Value>)
    ensures
        r == coerce_spec(*cell, incoming),
{
    match (cell, incoming) {
        (Value::Int(_), Value::Text(s)) => {
            match parse_i64(s.as_str()) {
                Some(n) => Some(Value::Int(n)),
                None => None,
            }
        },
        (Value::Bool(_), Value::Text(s)) => {
            match parse_bool(s.as_str()) {
                Some(b) => Some(Value::Bool(b)),
                None => None,
            }
        },
        (Value::Text(_), Value::Text(s)) => Some(Value::Text(s)),
        (Value::Int(_), Value::Int(n)) => Some(Value::Int(n)),
        (Value::Bool(_), Value::Bool(b)) => Some(Value::Bool(b)),
        (Value::Null, Value::Null) => Some(Value::Null),
        _ => None,
    }
}

/// Serializing an unsigned integer value and parsing the text back yields
/// the integer: the round trip through string serialization is lossless.
pub proof fn lemma_int_display_round_trip(n: i64)
    requires
        n >= 0,
    ensures
        is_int_numeral(Value::Int(n).display_seq()),
        int_numeral_value(Value::Int(n).display_seq()) == n,
{
    decimal::lemma_dec_round_trip(n as nat);
    assert(Value::Int(n).display_seq() == crate::decimal::dec_digits(n as nat));
    assert(crate::decimal::is_digit(crate::decimal::dec_digits(n as nat)[0]));
}

} // verus!
