//! The dynamic value model of the mapping engine: one runtime value per
//! supported column type, with the codec that the table-driven decoder and
//! parameter builder dispatch through.

use vstd::prelude::*;
use crate::convert::{ConvertTypeToBigQueryType, ConvertValueToBigqueryParamValue, ValueFormatError};
use crate::datetime::{datetime_str, parse_datetime_str, strip_tz, Datetime};
use crate::numbers::{int_dec_str, lemma_dec_str_digits, parse_i64_str};

verus! {

/// The remote column type tag of a mapped field.
#[derive(Clone, Copy, PartialEq, Eq, Structural, Debug)]
pub enum BqType {
    Bool,
    Int64,
    Str,
    Datetime,
}

pub open spec fn bq_type_tag_spec(t: BqType) -> Seq<char> {
    match t {
        BqType::Bool => "BOOL"@,
        BqType::Int64 => "INT64"@,
        BqType::Str => "STRING"@,
        BqType::Datetime => "DATETIME"@,
    }
}

/// The remote name of a column type tag.
pub fn bq_type_tag(t: BqType) -> (r: String)
    ensures
        r@ == bq_type_tag_spec(t),
{
    match t {
        BqType::Bool => bool::to_bigquery_type(),
        BqType::Int64 => i64::to_bigquery_type(),
        BqType::Str => String::to_bigquery_type(),
        BqType::Datetime => Datetime::to_bigquery_type(),
    }
}

/// The mathematical form of a runtime value.
pub enum ValueV {
    Bool(bool),
    Int64(i64),
    Str(Seq<char>),
    Datetime(Datetime),
}

impl ValueV {
    pub open spec fn type_of(self) -> BqType {
        match self {
            ValueV::Bool(_) => BqType::Bool,
            ValueV::Int64(_) => BqType::Int64,
            ValueV::Str(_) => BqType::Str,
            ValueV::Datetime(_) => BqType::Datetime,
        }
    }

    pub open spec fn valid(self) -> bool {
        match self {
            ValueV::Datetime(dt) => dt.well_formed(),
            _ => true,
        }
    }
}

/// One cell value of a supported column type.
#[derive(Clone, PartialEq, Eq, Debug)]
pub enum Value {
    Bool(bool),
    Int64(i64),
    Str(String),
    Datetime(Datetime),
}

impl View for Value {
    type V = ValueV;

    open spec fn view(&self) -> ValueV {
        match self {
            Value::Bool(b) => ValueV::Bool(*b),
            Value::Int64(i) => ValueV::Int64(*i),
            Value::Str(s) => ValueV::Str(s@),
            Value::Datetime(dt) => ValueV::Datetime(*dt),
        }
    }
}

impl Value {
    /// Decides validity of this value at run time.
    pub fn is_valid(&self) -> (r: bool)
        ensures
            r == self@.valid(),
    {
        match self {
            Value::Datetime(dt) => crate::datetime::datetime_is_well_formed(dt),
            _ => true,
        }
    }

    /// The column type of this value.
    pub fn type_of(&self) -> (t: BqType)
        ensures
            t == self@.type_of(),
    {
        match self {
            Value::Bool(_) => BqType::Bool,
            Value::Int64(_) => BqType::Int64,
            Value::Str(_) => BqType::Str,
            Value::Datetime(_) => BqType::Datetime,
        }
    }
}

/// The view of an optional value.
pub open spec fn opt_value_view(v: Option<Value>) -> Option<ValueV> {
    match v {
        Some(x) => Some(x@),
        None => None,
    }
}

/// The remote text of a present value.
pub open spec fn serialize_value_spec(v: ValueV) -> Seq<char> {
    match v {
        ValueV::Bool(b) => if b {
            "TRUE"@
        } else {
            "FALSE"@
        },
        ValueV::Int64(i) => int_dec_str(i as int),
        ValueV::Str(s) => s,
        ValueV::Datetime(dt) => datetime_str(dt),
    }
}

/// The remote text of an optional value: an absent value renders as the
/// literal `NULL`.
pub open spec fn serialize_opt_value_spec(v: Option<ValueV>) -> Seq<char> {
    match v {
        Some(x) => serialize_value_spec(x),
        None => "NULL"@,
    }
}

/// Renders a present value as remote text: `TRUE`/`FALSE` for booleans,
/// plain decimal for integers, the text itself for strings and
/// `YYYY-MM-DD HH:MM:SS` for timestamps.
pub fn serialize_value(v: &Value) -> (r: String)
    requires
        v@.valid(),
    ensures
        r@ == serialize_value_spec(v@),
{
    match v {
        Value::Bool(b) => b.to_bigquery_param_value(),
        Value::Int64(i) => i.to_bigquery_param_value(),
        Value::Str(s) => s.to_bigquery_param_value(),
        Value::Datetime(dt) => dt.to_bigquery_param_value(),
    }
}

/// Renders an optional value as remote text, `NULL` where absent.
pub fn serialize_opt_value(v: &Option<Value>) -> (r: String)
    requires
        (match v {
            Some(x) => x@.valid(),
            None => true,
        }),
    ensures
        r@ == serialize_opt_value_spec(opt_value_view(*v)),
{
    match v {
        Some(x) => serialize_value(x),
        None => null_text(),
    }
}

/// The literal `NULL`.
fn null_text() -> (r: String)
    ensures
        r@ == "NULL"@,
{
    String::from_str("NULL")
}

/// The value denoted by remote cell text under a column type, or the reason
/// it is malformed.
pub open spec fn deserialize_value_spec(t: BqType, s: Seq<char>) -> Result<
    ValueV,
    ValueFormatError,
> {
    match t {
        BqType::Bool => if s == "TRUE"@ {
            Ok(ValueV::Bool(true))
        } else if s == "FALSE"@ {
            Ok(ValueV::Bool(false))
        } else {
            Err(ValueFormatError::InvalidBool)
        },
        BqType::Int64 => match parse_i64_str(s) {
            Some(v) => Ok(ValueV::Int64(v)),
            None => Err(ValueFormatError::InvalidInt64),
        },
        BqType::Str => Ok(ValueV::Str(s)),
        BqType::Datetime => match parse_datetime_str(strip_tz(s)) {
            Some(dt) => Ok(ValueV::Datetime(dt)),
            None => Err(ValueFormatError::InvalidDatetime),
        },
    }
}

/// Decodes remote cell text as a value of the given column type; fails
/// exactly on malformed text.
pub fn deserialize_value(t: BqType, s: &String) -> (r: Result<Value, ValueFormatError>)
    ensures
        match r {
            Ok(v) => deserialize_value_spec(t, s@) == Ok::<ValueV, ValueFormatError>(v@)
                && v@.valid() && v@.type_of() == t,
            Err(e) => deserialize_value_spec(t, s@) == Err::<ValueV, ValueFormatError>(e),
        },
{
    match t {
        BqType::Bool => match bool::from_bigquery_value(s) {
            Ok(b) => Ok(Value::Bool(b)),
            Err(_) => Err(ValueFormatError::InvalidBool),
        },
        BqType::Int64 => match i64::from_bigquery_value(s) {
            Ok(i) => Ok(Value::Int64(i)),
            Err(_) => Err(ValueFormatError::InvalidInt64),
        },
        BqType::Str => match String::from_bigquery_value(s) {
            Ok(x) => Ok(Value::Str(x)),
            Err(e) => Err(e),
        },
        BqType::Datetime => match Datetime::from_bigquery_value(s) {
            Ok(dt) => Ok(Value::Datetime(dt)),
            Err(_) => Err(ValueFormatError::InvalidDatetime),
        },
    }
}

/// The optional value denoted by remote cell text: the literal `NULL` means
/// "no value", and text the column type cannot decode is swallowed into "no
/// value" (kept for compatibility with the existing remote data).
pub open spec fn deserialize_opt_value_spec(t: BqType, s: Seq<char>) -> Option<ValueV> {
    if s == "NULL"@ {
        None
    } else {
        match deserialize_value_spec(t, s) {
            Ok(v) => Some(v),
            Err(_) => None,
        }
    }
}

/// Decodes remote cell text as an optional value of the given column type.
pub fn deserialize_opt_value(t: BqType, s: &String) -> (r: Option<Value>)
    ensures
        opt_value_view(r) == deserialize_opt_value_spec(t, s@),
        (match r {
            Some(v) => v@.valid() && v@.type_of() == t,
            None => true,
        }),
{
    if crate::text::str_eq(s.as_str(), "NULL") {
        None
    } else {
        match deserialize_value(t, s) {
            Ok(v) => Some(v),
            Err(_) => None,
        }
    }
}

/// The type default: `FALSE`, zero, the empty string, or the epoch
/// timestamp.
pub open spec fn default_value_spec(t: BqType) -> ValueV {
    match t {
        BqType::Bool => ValueV::Bool(false),
        BqType::Int64 => ValueV::Int64(0),
        BqType::Str => ValueV::Str(Seq::empty()),
        BqType::Datetime => ValueV::Datetime(
            Datetime { year: 1970u16, month: 1u8, day: 1u8, hour: 0u8, minute: 0u8, second: 0u8 },
        ),
    }
}

/// Builds the type default value for a column type.
pub fn default_value(t: BqType) -> (r: Value)
    ensures
        r@ == default_value_spec(t),
        r@.valid(),
        r@.type_of() == t,
{
    match t {
        BqType::Bool => Value::Bool(false),
        BqType::Int64 => Value::Int64(0),
        BqType::Str => Value::Str(String::new()),
        BqType::Datetime => Value::Datetime(crate::datetime::datetime_default()),
    }
}

/// Round trip: decoding the rendering of any valid value under its own type
/// returns the value, exactly.
pub proof fn lemma_value_round_trip(v: ValueV)
    requires
        v.valid(),
    ensures
        deserialize_value_spec(v.type_of(), serialize_value_spec(v)) == Ok::<
            ValueV,
            ValueFormatError,
        >(v),
{
    match v {
        ValueV::Bool(b) => {
            reveal_strlit("TRUE");
            reveal_strlit("FALSE");
            assert("TRUE"@.len() == 4 && "FALSE"@.len() == 5);
        },
        ValueV::Int64(i) => {
            crate::numbers::lemma_i64_dec_round_trip(i);
        },
        ValueV::Str(_) => {},
        ValueV::Datetime(dt) => {
            crate::datetime::lemma_datetime_round_trip(dt);
        },
    }
}

/// Only a string value can render as the literal `NULL`.
pub proof fn lemma_serialize_not_null(v: ValueV)
    requires
        v.valid(),
        !(v is Str),
    ensures
        serialize_value_spec(v) != "NULL"@,
{
    reveal_strlit("NULL");
    assert("NULL"@.len() == 4);
    match v {
        ValueV::Bool(b) => {
            reveal_strlit("TRUE");
            reveal_strlit("FALSE");
            assert("TRUE"@[0] == 'T' && "FALSE"@.len() == 5);
            assert("NULL"@[0] == 'N');
        },
        ValueV::Int64(i) => {
            let s = int_dec_str(i as int);
            if i >= 0 {
                lemma_dec_str_digits(i as nat);
                assert(crate::numbers::is_digit(s[0]));
                assert('N' as u32 == 78);
                assert(s[0] != 'N');
            } else {
                assert(s[0] == '-');
                assert('-' as u32 == 45 && 'N' as u32 == 78);
            }
            assert(s != "NULL"@) by {
                assert(s[0] != "NULL"@[0]);
            }
        },
        ValueV::Str(_) => {},
        ValueV::Datetime(dt) => {
            crate::datetime::lemma_pad4(dt.year as nat);
            crate::datetime::lemma_pad2(dt.month as nat);
            crate::datetime::lemma_pad2(dt.day as nat);
            crate::datetime::lemma_pad2(dt.hour as nat);
            crate::datetime::lemma_pad2(dt.minute as nat);
            crate::datetime::lemma_pad2(dt.second as nat);
            assert(datetime_str(dt).len() == 19);
        },
    }
}

/// Null round trip: rendering an absent optional value and decoding the
/// rendering yields "no value", under every column type.
pub proof fn lemma_null_round_trip(t: BqType)
    ensures
        deserialize_opt_value_spec(t, serialize_opt_value_spec(None)) == None::<ValueV>,
{
}

/// Optional round trip: rendering an optional value and decoding the
/// rendering under the value's own type returns the value. A present string
/// holding exactly the text `NULL` is the one value this cannot hold of: its
/// rendering collides with the `NULL` literal and decodes to "no value".
pub proof fn lemma_opt_value_round_trip(v: Option<ValueV>, t: BqType)
    requires
        (match v {
            Some(x) => x.valid() && serialize_value_spec(x) != "NULL"@ && t == x.type_of(),
            None => true,
        }),
    ensures
        deserialize_opt_value_spec(t, serialize_opt_value_spec(v)) == v,
{
    match v {
        Some(x) => {
            lemma_value_round_trip(x);
        },
        None => {},
    }
}

} // verus!
