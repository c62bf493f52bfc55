//! Typed column values: a closed set of variants, with conversions from and
//! to untyped values.

use vstd::prelude::*;
use vstd::std_specs::cmp::PartialEqSpecImpl;
use crate::raw::{is_finite, is_finite_bits, RawModel, RawNumber, RawValue};
use crate::schema::{ColumnModel, ColumnType, TableColumn};
use crate::text::{bool_of_text, int_of_text, int_text, parse_bool, parse_int, text_of_int};

verus! {

/// A typed value of a column. A float is held by its IEEE 754 binary64
/// pattern. Absence of a value is expressed around this type, by `Option`.
#[derive(Debug)]
pub enum ColumnValue {
    Bool(bool),
    Int(i64),
    Float(u64),
    String(String),
}

/// Mathematical model of a `ColumnValue`.
pub enum ValueModel {
    Bool(bool),
    Int(i64),
    Float(u64),
    String(Seq<char>),
}

impl View for ColumnValue {
    type V = ValueModel;

    open spec fn view(&self) -> ValueModel {
        match *self {
            ColumnValue::Bool(b) => ValueModel::Bool(b),
            ColumnValue::Int(i) => ValueModel::Int(i),
            ColumnValue::Float(bits) => ValueModel::Float(bits),
            ColumnValue::String(s) => ValueModel::String(s@),
        }
    }
}

/// Whether a binary64 pattern is a NaN: the exponent field is all ones and
/// the fraction is not zero.
pub open spec fn is_nan_bits(bits: u64) -> bool {
    bits & 0x7fff_ffff_ffff_ffff > 0x7ff0_0000_0000_0000
}

/// Whether a binary64 pattern is a zero, of either sign.
pub open spec fn is_zero_bits(bits: u64) -> bool {
    bits & 0x7fff_ffff_ffff_ffff == 0
}

/// Equality of two floats given by their binary64 patterns: a NaN equals
/// nothing, the two zeros are equal, and any other float equals only itself.
pub open spec fn float_equal(a: u64, b: u64) -> bool {
    !is_nan_bits(a) && !is_nan_bits(b) && (a == b || (is_zero_bits(a) && is_zero_bits(b)))
}

impl ValueModel {
    /// The column type that matches the variant.
    pub open spec fn ty(self) -> ColumnType {
        match self {
            ValueModel::Bool(_) => ColumnType::Bool,
            ValueModel::Int(_) => ColumnType::Int,
            ValueModel::Float(_) => ColumnType::Float,
            ValueModel::String(_) => ColumnType::String,
        }
    }

    /// Equality of values: within one variant by the payload, floats as
    /// floats compare; values of two variants are never equal.
    pub open spec fn equals(self, other: ValueModel) -> bool {
        match (self, other) {
            (ValueModel::Bool(a), ValueModel::Bool(b)) => a == b,
            (ValueModel::Int(a), ValueModel::Int(b)) => a == b,
            (ValueModel::Float(a), ValueModel::Float(b)) => float_equal(a, b),
            (ValueModel::String(a), ValueModel::String(b)) => a == b,
            _ => false,
        }
    }

    /// Whether the value has an untyped form: a float has one if it is
    /// finite, any other value has one.
    pub open spec fn encodable(self) -> bool {
        match self {
            ValueModel::Float(bits) => is_finite_bits(bits),
            _ => true,
        }
    }

    /// The text that shows the value, given the text that shows a float:
    /// `true` or `false`, an integer in decimal notation, a float as
    /// `float_text` has it, and a text as it is.
    pub open spec fn shown(self, float_text: Seq<char>) -> Seq<char> {
        match self {
            ValueModel::Bool(b) => if b {
                "true"@
            } else {
                "false"@
            },
            ValueModel::Int(i) => text_of_int(i as int),
            ValueModel::Float(_) => float_text,
            ValueModel::String(s) => s,
        }
    }

    /// The untyped form of the value.
    pub open spec fn untyped(self) -> RawModel {
        match self {
            ValueModel::Bool(b) => RawModel::Bool(b),
            ValueModel::Int(i) => RawModel::Number(RawNumber::of_signed(i)),
            ValueModel::Float(bits) => RawModel::Number(RawNumber::Float(bits)),
            ValueModel::String(s) => RawModel::String(s),
        }
    }
}

/// The typed value of a number, from its three readings: the float where
/// the number reads as one, else the signed integer where it reads as one,
/// else the unsigned integer cast to a signed one.
pub open spec fn typed_number(
    as_float: Option<u64>,
    as_signed: Option<i64>,
    as_unsigned: Option<u64>,
) -> Option<ValueModel> {
    match (as_float, as_signed, as_unsigned) {
        (Some(bits), _, _) => Some(ValueModel::Float(bits)),
        (None, Some(i), _) => Some(ValueModel::Int(i)),
        (None, None, Some(u)) => Some(
            ValueModel::Int(
                if u <= i64::MAX {
                    u as i64
                } else {
                    (u - 0x1_0000_0000_0000_0000) as i64
                },
            ),
        ),
        (None, None, None) => None,
    }
}

/// The typed value of an untyped one: null is no value, a boolean and a text
/// are themselves, a number is typed from its readings, and an array or an
/// object is a failure.
pub open spec fn typed(raw: RawModel) -> Result<Option<ValueModel>, ()> {
    match raw {
        RawModel::Null => Ok(None),
        RawModel::Bool(b) => Ok(Some(ValueModel::Bool(b))),
        RawModel::Number(n) => match typed_number(
            n.float_reading(),
            n.signed_reading(),
            n.unsigned_reading(),
        ) {
            Some(v) => Ok(Some(v)),
            None => Err(()),
        },
        RawModel::String(s) => Ok(Some(ValueModel::String(s))),
        RawModel::Array(_) => Err(()),
        RawModel::Object(_) => Err(()),
    }
}

/// Why a text is no value of a column.
#[derive(Debug, Clone, Copy, PartialEq, Eq, Structural)]
pub enum ColumnParseError {
    /// The value has a variant that the column does not take.
    ValueError,
    /// The text is empty, and the column takes no empty text.
    Empty,
    /// The text does not denote a value of the column's type.
    ParseError,
}

impl ColumnParseError {
    /// What the error says.
    pub open spec fn message(self) -> Seq<char> {
        match self {
            ColumnParseError::ValueError => "invalid variant"@,
            ColumnParseError::Empty => "empty string"@,
            ColumnParseError::ParseError => "invalid string"@,
        }
    }

    /// What the error says.
    pub fn to_string(&self) -> (text: String)
        ensures
            text@ == self.message(),
    {
        match self {
            ColumnParseError::ValueError => "invalid variant".to_owned(),
            ColumnParseError::Empty => "empty string".to_owned(),
            ColumnParseError::ParseError => "invalid string".to_owned(),
        }
    }
}

/// The value that a text denotes in a column. `parsed_float` is what the
/// text denotes as a float, by its binary64 pattern, if it denotes one.
///
/// An empty text is no value in an optional column, the empty text in a
/// text column, and otherwise an error. Any other text is read by the type
/// of the column.
pub open spec fn text_value(column: ColumnModel, text: Seq<char>, parsed_float: Option<u64>) -> Result<
    Option<ValueModel>,
    ColumnParseError,
> {
    if text.len() == 0 {
        if column.optional {
            Ok(None)
        } else if column.ty == ColumnType::String {
            Ok(Some(ValueModel::String(text)))
        } else {
            Err(ColumnParseError::Empty)
        }
    } else {
        match column.ty {
            ColumnType::Bool => match bool_of_text(text) {
                Some(b) => Ok(Some(ValueModel::Bool(b))),
                None => Err(ColumnParseError::ParseError),
            },
            ColumnType::Int => match int_of_text(text) {
                Some(i) => Ok(Some(ValueModel::Int(i))),
                None => Err(ColumnParseError::ParseError),
            },
            ColumnType::Float => match parsed_float {
                Some(bits) => Ok(Some(ValueModel::Float(bits))),
                None => Err(ColumnParseError::ParseError),
            },
            ColumnType::String => Ok(Some(ValueModel::String(text))),
        }
    }
}

/// The model of the outcome of a conversion.
pub open spec fn outcome_view<E>(r: Result<Option<ColumnValue>, E>) -> Result<
    Option<ValueModel>,
    E,
> {
    match r {
        Ok(Some(v)) => Ok(Some(v@)),
        Ok(None) => Ok(None),
        Err(e) => Err(e),
    }
}

impl Clone for ColumnValue {
    fn clone(&self) -> (copy: Self)
        ensures
            copy == *self,
    {
        match self {
            ColumnValue::Bool(b) => ColumnValue::Bool(*b),
            ColumnValue::Int(i) => ColumnValue::Int(*i),
            ColumnValue::Float(bits) => ColumnValue::Float(*bits),
            ColumnValue::String(s) => ColumnValue::String(s.clone()),
        }
    }
}

impl PartialEq for ColumnValue {
    fn eq(&self, other: &Self) -> (r: bool) {
        match (self, other) {
            (ColumnValue::Bool(a), ColumnValue::Bool(b)) => *a == *b,
            (ColumnValue::Int(a), ColumnValue::Int(b)) => *a == *b,
            (ColumnValue::Float(a), ColumnValue::Float(b)) => floats_equal(*a, *b),
            (ColumnValue::String(a), ColumnValue::String(b)) => *a == *b,
            _ => false,
        }
    }
}

impl PartialEqSpecImpl for ColumnValue {
    open spec fn obeys_eq_spec() -> bool {
        true
    }

    open spec fn eq_spec(&self, other: &Self) -> bool {
        self@.equals(other@)
    }
}

/// Whether two floats, given by their binary64 patterns, are equal.
pub fn floats_equal(a: u64, b: u64) -> (r: bool)
    ensures
        r == float_equal(a, b),
{
    let a_magnitude: u64 = a & 0x7fff_ffff_ffff_ffff;
    let b_magnitude: u64 = b & 0x7fff_ffff_ffff_ffff;
    a_magnitude <= 0x7ff0_0000_0000_0000 && b_magnitude <= 0x7ff0_0000_0000_0000 && (a == b || (
    a_magnitude == 0 && b_magnitude == 0))
}

impl ColumnValue {
    /// The column type that matches the variant.
    pub fn ty(&self) -> (t: ColumnType)
        ensures
            t == self@.ty(),
    {
        match self {
            ColumnValue::Bool(_) => ColumnType::Bool,
            ColumnValue::Int(_) => ColumnType::Int,
            ColumnValue::Float(_) => ColumnType::Float,
            ColumnValue::String(_) => ColumnType::String,
        }
    }

    /// The typed value of a number, from its three readings: the float where
    /// it reads as one, else the signed integer where it reads as one, else
    /// the unsigned integer cast to a signed one, and nothing where it has
    /// no reading.
    pub fn from_number_readings(
        as_float: Option<u64>,
        as_signed: Option<i64>,
        as_unsigned: Option<u64>,
    ) -> (r: Option<ColumnValue>)
        ensures
            match r {
                Some(v) => typed_number(as_float, as_signed, as_unsigned) == Some(v@),
                None => typed_number(as_float, as_signed, as_unsigned).is_none(),
            },
    {
        if let Some(bits) = as_float {
            Some(ColumnValue::Float(bits))
        } else if let Some(i) = as_signed {
            Some(ColumnValue::Int(i))
        } else if let Some(u) = as_unsigned {
            if u <= 0x7fff_ffff_ffff_ffff {
                Some(ColumnValue::Int(u as i64))
            } else {
                let low: u64 = u - 0x8000_0000_0000_0000;
                Some(ColumnValue::Int((low as i64) + i64::MIN))
            }
        } else {
            None
        }
    }

    /// Types an untyped value. Null is no value; a boolean and a text map to
    /// their variant; a number becomes a float where it reads as one, else
    /// an integer; an array or an object is a failure.
    pub fn try_from_value(value: RawValue) -> (r: Result<Option<ColumnValue>, ()>)
        ensures
            outcome_view(r) == typed(value@),
    {
        match value {
            RawValue::Null => Ok(None),
            RawValue::Bool(b) => Ok(Some(ColumnValue::Bool(b))),
            RawValue::Number(n) => {
                match Self::from_number_readings(n.as_float(), n.as_i64(), n.as_u64()) {
                    Some(v) => Ok(Some(v)),
                    None => Err(()),
                }
            },
            RawValue::String(s) => Ok(Some(ColumnValue::String(s))),
            RawValue::Array(_) => Err(()),
            RawValue::Object(_) => Err(()),
        }
    }

    /// Reads a text that a user entered as a value of `column`.
    ///
    /// `parsed_float` is what the text denotes as a float, by its binary64
    /// pattern, or `None` where it denotes none; it is read only for a
    /// non-empty text in a float column.
    pub fn try_from_str(column: TableColumn, value: &str, parsed_float: Option<u64>) -> (r: Result<
        Option<ColumnValue>,
        ColumnParseError,
    >)
        ensures
            outcome_view(r) == text_value(column@, value@, parsed_float),
    {
        let text = value.to_owned();
        if text == String::new() {
            return if column.optional {
                Ok(None)
            } else if column.ty == ColumnType::String {
                Ok(Some(ColumnValue::String(text)))
            } else {
                Err(ColumnParseError::Empty)
            };
        }
        proof {
            if value@.len() == 0 {
                assert(value@ =~= Seq::<char>::empty());
            }
        }
        match column.ty {
            ColumnType::Bool => match parse_bool(value) {
                Some(b) => Ok(Some(ColumnValue::Bool(b))),
                None => Err(ColumnParseError::ParseError),
            },
            ColumnType::Int => match parse_int(value) {
                Some(i) => Ok(Some(ColumnValue::Int(i))),
                None => Err(ColumnParseError::ParseError),
            },
            ColumnType::Float => match parsed_float {
                Some(bits) => Ok(Some(ColumnValue::Float(bits))),
                None => Err(ColumnParseError::ParseError),
            },
            ColumnType::String => Ok(Some(ColumnValue::String(text))),
        }
    }

    /// The text that shows the value. `float_text` is the text that shows
    /// the float of a float value; it is read for no other value.
    pub fn to_text(&self, float_text: &str) -> (text: String)
        ensures
            text@ == self@.shown(float_text@),
    {
        match self {
            ColumnValue::Bool(b) => if *b {
                "true".to_owned()
            } else {
                "false".to_owned()
            },
            ColumnValue::Int(i) => int_text(*i),
            ColumnValue::Float(_) => float_text.to_owned(),
            ColumnValue::String(s) => s.clone(),
        }
    }

    /// Whether the value has an untyped form: every value but an infinite
    /// or NaN float has one.
    pub fn is_encodable(&self) -> (b: bool)
        ensures
            b == self@.encodable(),
    {
        match self {
            ColumnValue::Float(bits) => is_finite(*bits),
            _ => true,
        }
    }

    /// The untyped form of the value, which is left as it is.
    pub fn to_value(&self) -> (raw: RawValue)
        requires
            self@.encodable(),
        ensures
            raw@ == self@.untyped(),
    {
        self.clone().into_value()
    }

    /// The untyped form of the value.
    pub fn into_value(self) -> (raw: RawValue)
        requires
            self@.encodable(),
        ensures
            raw@ == self@.untyped(),
    {
        match self {
            ColumnValue::Bool(b) => RawValue::Bool(b),
            ColumnValue::Int(i) => RawValue::Number(RawNumber::from_i64(i)),
            ColumnValue::Float(bits) => RawValue::Number(RawNumber::Float(bits)),
            ColumnValue::String(s) => RawValue::String(s),
        }
    }
}

/// Typing the untyped form of a boolean, a text or a finite float gives the
/// value back.
pub proof fn lemma_round_trip(v: ValueModel)
    requires
        v.encodable(),
        !(v is Int),
    ensures
        typed(v.untyped()) == Ok::<Option<ValueModel>, ()>(Some(v)),
{
}

/// Typing the untyped form of an integer gives a float: the one that stands
/// for the integer. An integer does not come back as an integer.
pub proof fn lemma_round_trip_int(i: i64)
    ensures
        typed(ValueModel::Int(i).untyped()) == Ok::<Option<ValueModel>, ()>(
            Some(
                ValueModel::Float(
                    if i < 0 {
                        crate::raw::float_of_signed(i)
                    } else {
                        crate::raw::float_of_unsigned(i as u64)
                    },
                ),
            ),
        ),
        !typed(ValueModel::Int(i).untyped()).unwrap().unwrap().equals(ValueModel::Int(i)),
{
}

/// A number always has a typed value.
pub proof fn lemma_number_typed(n: RawNumber)
    ensures
        typed(RawModel::Number(n)) is Ok,
        typed(RawModel::Number(n)).unwrap() is Some,
{
}

/// Values of two variants are never equal, and equality is symmetric.
pub proof fn lemma_equality(a: ValueModel, b: ValueModel)
    ensures
        a.equals(b) ==> a.ty() == b.ty(),
        a.equals(b) == b.equals(a),
        !(a is Float) ==> a.equals(a),
{
}

} // verus!
