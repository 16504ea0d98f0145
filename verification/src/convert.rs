//! The typed value codec: per-type conversion between local values and the
//! remote textual representation, and the per-type remote type tag.

use vstd::prelude::*;
use vstd::string::*;
use crate::datetime::{
    datetime_str, format_datetime, parse_datetime, parse_datetime_str, strip_tz, strip_tz_exec,
    Datetime,
};
use crate::numbers::{i64_to_dec, int_dec_str, parse_i64, parse_i64_str};
use crate::text::str_eq;

verus! {

/// Why a remote cell value could not be decoded into a typed local value.
#[derive(Clone, Copy, PartialEq, Eq, Structural, Debug)]
pub enum ValueFormatError {
    /// The text was neither `TRUE` nor `FALSE`.
    InvalidBool,
    /// The text was not a decimal integer in range.
    InvalidInt64,
    /// The text did not hold a calendar timestamp `YYYY-MM-DD HH:MM:SS`.
    InvalidDatetime,
}

/// Maps a local type to the remote column type tag.
pub trait ConvertTypeToBigQueryType {
    /// The remote type tag of this local type.
    spec fn bigquery_type_spec() -> Seq<char>;

    /// Returns the remote type tag.
    fn to_bigquery_type() -> (r: String)
        ensures
            r@ == Self::bigquery_type_spec(),
    ;
}

impl ConvertTypeToBigQueryType for bool {
    open spec fn bigquery_type_spec() -> Seq<char> {
        "BOOL"@
    }

    fn to_bigquery_type() -> (r: String) {
        String::from_str("BOOL")
    }
}

impl ConvertTypeToBigQueryType for i32 {
    open spec fn bigquery_type_spec() -> Seq<char> {
        "INT64"@
    }

    fn to_bigquery_type() -> (r: String) {
        String::from_str("INT64")
    }
}

impl ConvertTypeToBigQueryType for i64 {
    open spec fn bigquery_type_spec() -> Seq<char> {
        "INT64"@
    }

    fn to_bigquery_type() -> (r: String) {
        String::from_str("INT64")
    }
}

impl ConvertTypeToBigQueryType for String {
    open spec fn bigquery_type_spec() -> Seq<char> {
        "STRING"@
    }

    fn to_bigquery_type() -> (r: String) {
        String::from_str("STRING")
    }
}

impl ConvertTypeToBigQueryType for Datetime {
    open spec fn bigquery_type_spec() -> Seq<char> {
        "DATETIME"@
    }

    fn to_bigquery_type() -> (r: String) {
        String::from_str("DATETIME")
    }
}

/// A nullable wrapping reuses the wrapped type's tag: nullability lives at
/// the parameter-value level, not in the type tag.
impl<T: ConvertTypeToBigQueryType> ConvertTypeToBigQueryType for Option<T> {
    open spec fn bigquery_type_spec() -> Seq<char> {
        T::bigquery_type_spec()
    }

    fn to_bigquery_type() -> (r: String) {
        T::to_bigquery_type()
    }
}

/// Converts a typed local value to the remote textual representation and
/// back.
pub trait ConvertValueToBigqueryParamValue: Sized {
    /// The remote text for this value.
    spec fn param_value_spec(&self) -> Seq<char>;

    /// Whether this value can be rendered at all.
    spec fn serial_ok(&self) -> bool;

    /// Whether decoding the given remote text succeeds.
    spec fn from_value_admissible(s: Seq<char>) -> bool;

    /// The decoded value for admissible remote text; pins the result.
    spec fn from_value_rel(s: Seq<char>, v: Self) -> bool;

    /// Whether rendering this value and decoding the rendering gives the
    /// value back.
    spec fn round_trippable(&self) -> bool;

    /// Renders the value as remote parameter text.
    fn to_bigquery_param_value(&self) -> (r: String)
        requires
            self.serial_ok(),
        ensures
            r@ == self.param_value_spec(),
    ;

    /// Decodes remote cell text into a value of this type.
    fn from_bigquery_value(value: &String) -> (r: Result<Self, ValueFormatError>)
        ensures
            r is Ok <==> Self::from_value_admissible(value@),
            r matches Ok(v) ==> Self::from_value_rel(value@, v),
    ;

    /// Round trip: decoding a rendered value succeeds, and the value itself
    /// is what the decode relation yields for the rendering.
    proof fn lemma_round_trip(&self)
        requires
            self.serial_ok(),
            self.round_trippable(),
        ensures
            Self::from_value_admissible(self.param_value_spec()),
            Self::from_value_rel(self.param_value_spec(), *self),
    ;
}

impl ConvertValueToBigqueryParamValue for i64 {
    open spec fn param_value_spec(&self) -> Seq<char> {
        int_dec_str(*self as int)
    }

    open spec fn serial_ok(&self) -> bool {
        true
    }

    open spec fn from_value_admissible(s: Seq<char>) -> bool {
        parse_i64_str(s) is Some
    }

    open spec fn from_value_rel(s: Seq<char>, v: Self) -> bool {
        parse_i64_str(s) == Some(v)
    }

    open spec fn round_trippable(&self) -> bool {
        true
    }

    fn to_bigquery_param_value(&self) -> (r: String) {
        i64_to_dec(*self)
    }

    fn from_bigquery_value(value: &String) -> (r: Result<Self, ValueFormatError>) {
        match parse_i64(value.as_str()) {
            Some(v) => Ok(v),
            None => Err(ValueFormatError::InvalidInt64),
        }
    }

    proof fn lemma_round_trip(&self) {
        crate::numbers::lemma_i64_dec_round_trip(*self);
    }
}

impl ConvertValueToBigqueryParamValue for String {
    open spec fn param_value_spec(&self) -> Seq<char> {
        self@
    }

    open spec fn serial_ok(&self) -> bool {
        true
    }

    open spec fn from_value_admissible(s: Seq<char>) -> bool {
        true
    }

    open spec fn from_value_rel(s: Seq<char>, v: Self) -> bool {
        v@ == s
    }

    open spec fn round_trippable(&self) -> bool {
        true
    }

    fn to_bigquery_param_value(&self) -> (r: String) {
        self.clone()
    }

    fn from_bigquery_value(value: &String) -> (r: Result<Self, ValueFormatError>) {
        Ok(value.clone())
    }

    proof fn lemma_round_trip(&self) {
    }
}

impl ConvertValueToBigqueryParamValue for bool {
    open spec fn param_value_spec(&self) -> Seq<char> {
        if *self {
            "TRUE"@
        } else {
            "FALSE"@
        }
    }

    open spec fn serial_ok(&self) -> bool {
        true
    }

    open spec fn from_value_admissible(s: Seq<char>) -> bool {
        s == "TRUE"@ || s == "FALSE"@
    }

    open spec fn from_value_rel(s: Seq<char>, v: Self) -> bool {
        v == (s == "TRUE"@)
    }

    open spec fn round_trippable(&self) -> bool {
        true
    }

    fn to_bigquery_param_value(&self) -> (r: String) {
        if *self {
            String::from_str("TRUE")
        } else {
            String::from_str("FALSE")
        }
    }

    fn from_bigquery_value(value: &String) -> (r: Result<Self, ValueFormatError>) {
        if str_eq(value.as_str(), "TRUE") {
            Ok(true)
        } else if str_eq(value.as_str(), "FALSE") {
            Ok(false)
        } else {
            Err(ValueFormatError::InvalidBool)
        }
    }

    proof fn lemma_round_trip(&self) {
        reveal_strlit("TRUE");
        reveal_strlit("FALSE");
        assert("TRUE"@.len() == 4 && "FALSE"@.len() == 5);
    }
}

impl ConvertValueToBigqueryParamValue for Datetime {
    open spec fn param_value_spec(&self) -> Seq<char> {
        datetime_str(*self)
    }

    open spec fn serial_ok(&self) -> bool {
        self.well_formed()
    }

    open spec fn from_value_admissible(s: Seq<char>) -> bool {
        parse_datetime_str(strip_tz(s)) is Some
    }

    open spec fn from_value_rel(s: Seq<char>, v: Self) -> bool {
        parse_datetime_str(strip_tz(s)) == Some(v)
    }

    open spec fn round_trippable(&self) -> bool {
        self.well_formed()
    }

    fn to_bigquery_param_value(&self) -> (r: String) {
        format_datetime(self)
    }

    fn from_bigquery_value(value: &String) -> (r: Result<Self, ValueFormatError>) {
        let stripped = strip_tz_exec(value.as_str());
        match parse_datetime(stripped.as_str()) {
            Some(dt) => Ok(dt),
            None => Err(ValueFormatError::InvalidDatetime),
        }
    }

    proof fn lemma_round_trip(&self) {
        crate::datetime::lemma_datetime_round_trip(*self);
    }
}

/// The nullable wrapping of a convertible type: an absent value renders as
/// the literal `NULL`; on decoding, `NULL` means "no value", and text the
/// inner type cannot decode is swallowed into "no value" as well (kept for
/// compatibility).
impl<R: ConvertValueToBigqueryParamValue> ConvertValueToBigqueryParamValue for Option<R> {
    open spec fn param_value_spec(&self) -> Seq<char> {
        match self {
            Some(x) => x.param_value_spec(),
            None => "NULL"@,
        }
    }

    open spec fn serial_ok(&self) -> bool {
        match self {
            Some(x) => x.serial_ok(),
            None => true,
        }
    }

    open spec fn from_value_admissible(s: Seq<char>) -> bool {
        true
    }

    open spec fn from_value_rel(s: Seq<char>, v: Self) -> bool {
        if s == "NULL"@ {
            v is None
        } else if R::from_value_admissible(s) {
            match v {
                Some(x) => R::from_value_rel(s, x),
                None => false,
            }
        } else {
            v is None
        }
    }

    open spec fn round_trippable(&self) -> bool {
        match self {
            Some(x) => x.round_trippable() && x.param_value_spec() != "NULL"@,
            None => true,
        }
    }

    fn to_bigquery_param_value(&self) -> (r: String) {
        match self {
            Some(x) => x.to_bigquery_param_value(),
            None => String::from_str("NULL"),
        }
    }

    fn from_bigquery_value(value: &String) -> (r: Result<Self, ValueFormatError>) {
        if str_eq(value.as_str(), "NULL") {
            Ok(None)
        } else {
            match R::from_bigquery_value(value) {
                Ok(v) => Ok(Some(v)),
                Err(_) => Ok(None),
            }
        }
    }

    proof fn lemma_round_trip(&self) {
        match self {
            Some(x) => {
                x.lemma_round_trip();
            },
            None => {},
        }
    }
}

/// The conjunction of the two codec capabilities: what a mapped field's type
/// must offer.
pub trait BigDataValueType<T>: ConvertTypeToBigQueryType + ConvertValueToBigqueryParamValue {

}

impl<T: ConvertTypeToBigQueryType + ConvertValueToBigqueryParamValue> BigDataValueType<T> for T {

}

} // verus!
