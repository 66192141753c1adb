//! One coercion rule per record field: from a JSON value, or its absence,
//! to a typed value, a default, or a failure.
use vstd::prelude::*;
use crate::json::JsonValue;
use crate::date::{Date, iso_date_of, iso_text_of};
use crate::digits::{DigitsError, digits_number, parse_digits};
use crate::double::{double_trunc, truncate_double};
use crate::default_values;

verus! {

/// Why a field's value could not be read.
#[derive(PartialEq, Eq, Structural, Clone, Copy, Debug)]
pub enum Reason {
    /// A text that should hold a number holds no decimal digit.
    NoDigits,
    /// The digits of a text write a number too large for the field.
    TooLarge,
    /// A text that should hold a `YYYY-MM-DD` date does not.
    NotADate,
}

pub open spec fn deref_opt(v: Option<&JsonValue>) -> Option<JsonValue> {
    match v {
        Some(x) => Some(*x),
        None => None,
    }
}

/// The integer that `v` holds, when it is a JSON number written as one.
pub open spec fn integer_of(v: Option<JsonValue>) -> Option<int> {
    match v {
        Some(JsonValue::Number(n)) => match n.integer {
            Some(i) => Some(i as int),
            None => None,
        },
        _ => None,
    }
}

pub open spec fn name_of(v: Option<JsonValue>) -> Seq<char> {
    match v {
        Some(JsonValue::Str(s)) => s@,
        _ => Seq::empty(),
    }
}

pub open spec fn miles_per_gallon_of(v: Option<JsonValue>) -> u64 {
    match v {
        Some(JsonValue::Number(n)) => n.double_bits,
        _ => 0,
    }
}

pub open spec fn displacement_of(v: Option<JsonValue>) -> Option<Seq<char>> {
    match v {
        Some(JsonValue::Str(s)) => Some(s@),
        _ => None,
    }
}

pub open spec fn horsepower_of(v: Option<JsonValue>) -> u8 {
    match integer_of(v) {
        Some(i) if 0 <= i <= u8::MAX => i as u8,
        _ => 0,
    }
}

pub open spec fn weight_of(v: Option<JsonValue>) -> u16 {
    match integer_of(v) {
        Some(i) if 0 <= i <= u16::MAX => i as u16,
        _ => 0,
    }
}

pub open spec fn cylinders_of(v: Option<JsonValue>) -> i32 {
    match integer_of(v) {
        Some(i) if i32::MIN <= i <= i32::MAX => i as i32,
        _ => 0,
    }
}

pub open spec fn year_of(v: Option<JsonValue>) -> Result<Option<Date>, Reason> {
    match v {
        Some(JsonValue::Str(s)) => match iso_date_of(s@) {
            Some(d) => Ok(Some(d)),
            None => Err(Reason::NotADate),
        },
        _ => Ok(None),
    }
}

pub open spec fn acceleration_of(v: Option<JsonValue>) -> Result<i64, Reason> {
    match v {
        Some(JsonValue::Str(s)) => match digits_number(s@) {
            Ok(n) => Ok(n),
            Err(DigitsError::NoDigits) => Err(Reason::NoDigits),
            Err(DigitsError::TooLarge) => Err(Reason::TooLarge),
        },
        Some(JsonValue::Number(n)) => match n.integer {
            Some(i) if i64::MIN <= i <= i64::MAX => Ok(i as i64),
            _ => Ok(double_trunc(n.double_bits) as i64),
        },
        _ => Ok(0),
    }
}

fn integer(v: Option<&JsonValue>) -> (r: Option<i128>)
    ensures
        match r {
            Some(i) => integer_of(deref_opt(v)) == Some(i as int),
            None => integer_of(deref_opt(v)) is None,
        },
{
    match v {
        Some(JsonValue::Number(n)) => n.integer,
        _ => None,
    }
}

/// A JSON text, else the empty text.
pub fn name_deserialize(v: Option<&JsonValue>) -> (r: String)
    ensures
        r@ == name_of(deref_opt(v)),
{
    match v {
        Some(JsonValue::Str(s)) => s.clone(),
        _ => String::new(),
    }
}

/// Any JSON number, as a double; else `0.0`.
pub fn miles_per_gallon_deserialize(v: Option<&JsonValue>) -> (r: u64)
    ensures
        r == miles_per_gallon_of(deref_opt(v)),
{
    match v {
        Some(JsonValue::Number(n)) => n.double_bits,
        _ => default_values::miles_per_gallon(),
    }
}

/// A JSON text; any other value, a number included, gives none.
pub fn displacement_deserialize(v: Option<&JsonValue>) -> (r: Option<String>)
    ensures
        match r {
            Some(s) => displacement_of(deref_opt(v)) == Some(s@),
            None => displacement_of(deref_opt(v)) is None,
        },
{
    match v {
        Some(JsonValue::Str(s)) => Some(s.clone()),
        _ => default_values::displacement(),
    }
}

/// An integer from 0 to 255, else 0.
pub fn horsepower_deserialize(v: Option<&JsonValue>) -> (r: u8)
    ensures
        r == horsepower_of(deref_opt(v)),
{
    match integer(v) {
        Some(i) if 0 <= i && i <= 255 => i as u8,
        _ => default_values::horsepower(),
    }
}

/// An integer from 0 to 65535, else 0.
pub fn weight_deserialize(v: Option<&JsonValue>) -> (r: u16)
    ensures
        r == weight_of(deref_opt(v)),
{
    match integer(v) {
        Some(i) if 0 <= i && i <= 65535 => i as u16,
        _ => 0,
    }
}

/// An integer in the range of `i32`, else 0.
pub fn cylinders_deserialize(v: Option<&JsonValue>) -> (r: i32)
    ensures
        r == cylinders_of(deref_opt(v)),
{
    match integer(v) {
        Some(i) if -2147483648 <= i && i <= 2147483647 => i as i32,
        _ => default_values::cylinders(),
    }
}

/// A JSON text holding a `YYYY-MM-DD` date; a text that holds none is an
/// error; any other value, or none, gives no date.
pub fn year_deserialize(v: Option<&JsonValue>) -> (r: Result<Option<Date>, Reason>)
    ensures
        r == year_of(deref_opt(v)),
{
    match v {
        Some(JsonValue::Str(s)) => match Date::parse_iso(s.as_str()) {
            Some(d) => Ok(Some(d)),
            None => Err(Reason::NotADate),
        },
        _ => Ok(None),
    }
}

/// A JSON text: its decimal digits, all other characters removed; a JSON
/// number: an integer as it is, a fraction truncated toward zero; anything
/// else: 0.
pub fn acceleration_deserialize(v: Option<&JsonValue>) -> (r: Result<i64, Reason>)
    ensures
        r == acceleration_of(deref_opt(v)),
{
    match v {
        Some(JsonValue::Str(s)) => match parse_digits(s.as_str()) {
            Ok(n) => Ok(n),
            Err(DigitsError::NoDigits) => Err(Reason::NoDigits),
            Err(DigitsError::TooLarge) => Err(Reason::TooLarge),
        },
        Some(JsonValue::Number(n)) => match n.integer {
            Some(i) if -9223372036854775808 <= i && i <= 9223372036854775807 => Ok(i as i64),
            _ => Ok(truncate_double(n.double_bits)),
        },
        _ => Ok(default_values::acceleration()),
    }
}

/// The year as its `YYYY-MM-DD` text, or none.
pub fn year_serialize(year: &Option<Date>) -> (r: Option<String>)
    ensures
        match (r, *year) {
            (Some(t), Some(d)) => t@ == iso_text_of(d),
            (None, None) => true,
            _ => false,
        },
{
    match year {
        Some(d) => Some(d.to_iso_string()),
        None => None,
    }
}

} // verus!
