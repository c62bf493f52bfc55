//! Untyped structured values, as a record fetched from the service holds
//! them: null, booleans, numbers, text, arrays and objects.

use vstd::prelude::*;

verus! {

/// Whether `bits`, read as an IEEE 754 binary64 pattern, is neither an
/// infinity nor a NaN: its exponent field is not all ones.
pub open spec fn is_finite_bits(bits: u64) -> bool {
    bits & 0x7ff0_0000_0000_0000 != 0x7ff0_0000_0000_0000
}

/// The binary64 pattern of the float that stands for an unsigned integer.
pub uninterp spec fn float_of_unsigned(n: u64) -> u64;

/// The binary64 pattern of the float that stands for a signed integer.
pub uninterp spec fn float_of_signed(n: i64) -> u64;

/// Reads an unsigned integer as a float, and gives its binary64 pattern.
///
/// Makes a `serde_json::Number` with `Number::from` and reads it with
/// `Number::as_f64`, which converts an integer with `as` and always answers.
#[verifier::external_body]
fn unsigned_as_float(n: u64) -> (bits: Option<u64>)
    ensures
        bits == Some(float_of_unsigned(n)),
{
    serde_json::Number::from(n).as_f64().map(|x| x.to_bits())
}

/// Reads a signed integer as a float, and gives its binary64 pattern.
///
/// Makes a `serde_json::Number` with `Number::from` and reads it with
/// `Number::as_f64`, which converts an integer with `as` and always answers.
#[verifier::external_body]
fn signed_as_float(n: i64) -> (bits: Option<u64>)
    ensures
        bits == Some(float_of_signed(n)),
{
    serde_json::Number::from(n).as_f64().map(|x| x.to_bits())
}

/// A number of an untyped value: a non-negative integer, a negative
/// integer, or a float given by its binary64 pattern.
#[derive(Debug, Clone, Copy, PartialEq, Eq, Structural)]
pub enum RawNumber {
    PosInt(u64),
    NegInt(i64),
    Float(u64),
}

impl RawNumber {
    /// A negative integer is below zero, and a float is finite.
    pub open spec fn well_formed(self) -> bool {
        match self {
            RawNumber::PosInt(_) => true,
            RawNumber::NegInt(i) => i < 0,
            RawNumber::Float(bits) => is_finite_bits(bits),
        }
    }

    /// The number as a float: a float is itself, an integer the float that
    /// stands for it.
    pub open spec fn float_reading(self) -> Option<u64> {
        match self {
            RawNumber::PosInt(u) => Some(float_of_unsigned(u)),
            RawNumber::NegInt(i) => Some(float_of_signed(i)),
            RawNumber::Float(bits) => Some(bits),
        }
    }

    /// The number as a signed integer, where it is an integer in range.
    pub open spec fn signed_reading(self) -> Option<i64> {
        match self {
            RawNumber::PosInt(u) => if u <= i64::MAX {
                Some(u as i64)
            } else {
                None
            },
            RawNumber::NegInt(i) => Some(i),
            RawNumber::Float(_) => None,
        }
    }

    /// The number as an unsigned integer, where it is a non-negative integer.
    pub open spec fn unsigned_reading(self) -> Option<u64> {
        match self {
            RawNumber::PosInt(u) => Some(u),
            _ => None,
        }
    }

    /// The number made from a signed integer.
    pub open spec fn of_signed(i: i64) -> RawNumber {
        if i < 0 {
            RawNumber::NegInt(i)
        } else {
            RawNumber::PosInt(i as u64)
        }
    }

    /// The number as a float, by its binary64 pattern.
    pub fn as_float(&self) -> (r: Option<u64>)
        ensures
            r == self.float_reading(),
    {
        match self {
            RawNumber::PosInt(u) => unsigned_as_float(*u),
            RawNumber::NegInt(i) => signed_as_float(*i),
            RawNumber::Float(bits) => Some(*bits),
        }
    }

    /// The number as a signed integer, if it is an integer in range.
    pub fn as_i64(&self) -> (r: Option<i64>)
        ensures
            r == self.signed_reading(),
    {
        match self {
            RawNumber::PosInt(u) => {
                if *u <= 0x7fff_ffff_ffff_ffff {
                    Some(*u as i64)
                } else {
                    None
                }
            },
            RawNumber::NegInt(i) => Some(*i),
            RawNumber::Float(_) => None,
        }
    }

    /// The number as an unsigned integer, if it is a non-negative integer.
    pub fn as_u64(&self) -> (r: Option<u64>)
        ensures
            r == self.unsigned_reading(),
    {
        match self {
            RawNumber::PosInt(u) => Some(*u),
            _ => None,
        }
    }

    /// The number made from a signed integer.
    pub fn from_i64(i: i64) -> (r: RawNumber)
        ensures
            r == RawNumber::of_signed(i),
            r.well_formed(),
    {
        if i < 0 {
            RawNumber::NegInt(i)
        } else {
            RawNumber::PosInt(i as u64)
        }
    }

    /// The number made from a float given by its binary64 pattern; an
    /// infinity or a NaN is no number.
    pub fn from_float(bits: u64) -> (r: Option<RawNumber>)
        ensures
            r == if is_finite_bits(bits) {
                Some(RawNumber::Float(bits))
            } else {
                None::<RawNumber>
            },
            r is Some ==> r.unwrap().well_formed(),
    {
        if is_finite(bits) {
            Some(RawNumber::Float(bits))
        } else {
            None
        }
    }
}

/// Whether a binary64 pattern is neither an infinity nor a NaN.
pub fn is_finite(bits: u64) -> (b: bool)
    ensures
        b == is_finite_bits(bits),
{
    bits & 0x7ff0_0000_0000_0000 != 0x7ff0_0000_0000_0000
}

/// An untyped structured value.
#[derive(Debug)]
pub enum RawValue {
    Null,
    Bool(bool),
    Number(RawNumber),
    String(String),
    Array(Vec<RawValue>),
    Object(Vec<(String, RawValue)>),
}

/// Mathematical model of a `RawValue`.
pub enum RawModel {
    Null,
    Bool(bool),
    Number(RawNumber),
    String(Seq<char>),
    Array(Seq<RawModel>),
    Object(Seq<(Seq<char>, RawModel)>),
}

impl RawValue {
    /// The model of this value.
    pub open spec fn model(self) -> RawModel
        decreases self,
    {
        match self {
            RawValue::Null => RawModel::Null,
            RawValue::Bool(b) => RawModel::Bool(b),
            RawValue::Number(n) => RawModel::Number(n),
            RawValue::String(s) => RawModel::String(s@),
            RawValue::Array(items) => RawModel::Array(
                Seq::new(
                    items@.len(),
                    |i: int|
                        if 0 <= i < items@.len() {
                            items@[i].model()
                        } else {
                            arbitrary()
                        },
                ),
            ),
            RawValue::Object(fields) => RawModel::Object(
                Seq::new(
                    fields@.len(),
                    |i: int|
                        if 0 <= i < fields@.len() {
                            (fields@[i].0@, fields@[i].1.model())
                        } else {
                            arbitrary()
                        },
                ),
            ),
        }
    }
}

impl View for RawValue {
    type V = RawModel;

    open spec fn view(&self) -> RawModel {
        self.model()
    }
}

/// The models of a sequence of values.
pub open spec fn items_view(items: Seq<RawValue>) -> Seq<RawModel> {
    Seq::new(items.len(), |i: int| items[i]@)
}

/// The models of a sequence of named values.
pub open spec fn fields_view(fields: Seq<(String, RawValue)>) -> Seq<(Seq<char>, RawModel)> {
    Seq::new(fields.len(), |i: int| (fields[i].0@, fields[i].1@))
}

/// The model of an array holds the models of its items, and the model of
/// an object those of its fields.
pub proof fn lemma_raw_view(v: RawValue)
    ensures
        v matches RawValue::Array(items) ==> v@ == RawModel::Array(items_view(items@)),
        v matches RawValue::Object(fields) ==> v@ == RawModel::Object(fields_view(fields@)),
{
    match v {
        RawValue::Array(items) => {
            assert(v@->Array_0 =~= items_view(items@));
        },
        RawValue::Object(fields) => {
            assert(v@->Object_0 =~= fields_view(fields@));
        },
        _ => {},
    }
}

} // verus!
