use google_bigquery::convert::{
    ConvertTypeToBigQueryType, ConvertValueToBigqueryParamValue, ValueFormatError,
};
use google_bigquery::datetime::{datetime_new, Datetime};
use google_bigquery::values::{
    deserialize_opt_value, deserialize_value, serialize_opt_value, serialize_value, BqType, Value,
};

fn dt(year: u16, month: u8, day: u8, hour: u8, minute: u8, second: u8) -> Datetime {
    datetime_new(year, month, day, hour, minute, second).unwrap()
}

#[test]
fn type_tags() {
    assert_eq!(bool::to_bigquery_type(), "BOOL");
    assert_eq!(i32::to_bigquery_type(), "INT64");
    assert_eq!(i64::to_bigquery_type(), "INT64");
    assert_eq!(String::to_bigquery_type(), "STRING");
    assert_eq!(Datetime::to_bigquery_type(), "DATETIME");
    // the optional wrapping reuses the wrapped type's tag
    assert_eq!(Option::<bool>::to_bigquery_type(), "BOOL");
    assert_eq!(Option::<i64>::to_bigquery_type(), "INT64");
}

#[test]
fn bool_round_trip() {
    assert_eq!(true.to_bigquery_param_value(), "TRUE");
    assert_eq!(false.to_bigquery_param_value(), "FALSE");
    assert_eq!(bool::from_bigquery_value(&"TRUE".to_string()), Ok(true));
    assert_eq!(bool::from_bigquery_value(&"FALSE".to_string()), Ok(false));
    assert_eq!(
        bool::from_bigquery_value(&"true".to_string()),
        Err(ValueFormatError::InvalidBool)
    );
    assert_eq!(
        bool::from_bigquery_value(&"".to_string()),
        Err(ValueFormatError::InvalidBool)
    );
}

#[test]
fn i64_round_trip() {
    for v in [0i64, 1, -1, 42, -9999, i64::MAX, i64::MIN] {
        let s = v.to_bigquery_param_value();
        assert_eq!(i64::from_bigquery_value(&s), Ok(v));
    }
    assert_eq!((-9999i64).to_bigquery_param_value(), "-9999");
    assert_eq!(i64::from_bigquery_value(&"+7".to_string()), Ok(7));
    assert_eq!(
        i64::from_bigquery_value(&"".to_string()),
        Err(ValueFormatError::InvalidInt64)
    );
    assert_eq!(
        i64::from_bigquery_value(&"12a".to_string()),
        Err(ValueFormatError::InvalidInt64)
    );
    assert_eq!(
        i64::from_bigquery_value(&"9223372036854775808".to_string()),
        Err(ValueFormatError::InvalidInt64)
    );
    assert_eq!(
        i64::from_bigquery_value(&"-9223372036854775809".to_string()),
        Err(ValueFormatError::InvalidInt64)
    );
    assert_eq!(
        i64::from_bigquery_value(&"-9223372036854775808".to_string()),
        Ok(i64::MIN)
    );
}

#[test]
fn string_round_trip() {
    let s = "aosdinsofnpsngusn".to_string();
    assert_eq!(s.to_bigquery_param_value(), s);
    assert_eq!(String::from_bigquery_value(&s), Ok(s.clone()));
}

#[test]
fn datetime_round_trip() {
    let t = dt(2021, 1, 1, 0, 0, 0);
    assert_eq!(t.to_bigquery_param_value(), "2021-01-01 00:00:00");
    assert_eq!(
        Datetime::from_bigquery_value(&"2021-01-01 00:00:00".to_string()),
        Ok(t)
    );
    // RFC3339-like punctuation is normalized before parsing
    assert_eq!(
        Datetime::from_bigquery_value(&"2021-01-01T00:00:00Z".to_string()),
        Ok(t)
    );
    let t2 = dt(1999, 12, 31, 23, 59, 59);
    assert_eq!(t2.to_bigquery_param_value(), "1999-12-31 23:59:59");
    assert_eq!(
        Datetime::from_bigquery_value(&t2.to_bigquery_param_value()),
        Ok(t2)
    );
}

#[test]
fn datetime_rejects_malformed() {
    for bad in [
        "",
        "2021-01-01",
        "2021-13-01 00:00:00",
        "2021-02-30 00:00:00",
        "2021-01-01 24:00:00",
        "2021-01-01 00:60:00",
        "2021-01-01 00:00:60",
        "not a date",
        "2021-01-01 00:00:0x",
    ] {
        assert_eq!(
            Datetime::from_bigquery_value(&bad.to_string()),
            Err(ValueFormatError::InvalidDatetime),
            "{bad}"
        );
    }
    // leap-year rule: 2020-02-29 exists, 2100-02-29 does not
    assert!(Datetime::from_bigquery_value(&"2020-02-29 01:02:03".to_string()).is_ok());
    assert_eq!(
        Datetime::from_bigquery_value(&"2100-02-29 01:02:03".to_string()),
        Err(ValueFormatError::InvalidDatetime)
    );
}

#[test]
fn optional_null_round_trip() {
    assert_eq!(Option::<i64>::None.to_bigquery_param_value(), "NULL");
    assert_eq!(
        Option::<i64>::from_bigquery_value(&"NULL".to_string()),
        Ok(None)
    );
    assert_eq!(
        Option::<bool>::from_bigquery_value(&"NULL".to_string()),
        Ok(None)
    );
    assert_eq!(
        Option::<String>::from_bigquery_value(&"NULL".to_string()),
        Ok(None)
    );
}

#[test]
fn optional_swallows_malformed() {
    // text the inner type cannot decode becomes "no value", not an error
    assert_eq!(
        Option::<i64>::from_bigquery_value(&"abc".to_string()),
        Ok(None)
    );
    assert_eq!(
        Option::<bool>::from_bigquery_value(&"yes".to_string()),
        Ok(None)
    );
    assert_eq!(
        Option::<i64>::from_bigquery_value(&"7".to_string()),
        Ok(Some(7))
    );
    assert_eq!(
        Some(true).to_bigquery_param_value(),
        "TRUE"
    );
}

#[test]
fn value_codec_dispatch() {
    assert_eq!(serialize_value(&Value::Bool(true)), "TRUE");
    assert_eq!(serialize_value(&Value::Int64(-7)), "-7");
    assert_eq!(serialize_value(&Value::Str("x".to_string())), "x");
    assert_eq!(
        serialize_value(&Value::Datetime(dt(2021, 6, 5, 4, 3, 2))),
        "2021-06-05 04:03:02"
    );
    assert_eq!(serialize_opt_value(&None), "NULL");
    assert_eq!(serialize_opt_value(&Some(Value::Int64(3))), "3");
    assert_eq!(
        deserialize_value(BqType::Bool, &"TRUE".to_string()),
        Ok(Value::Bool(true))
    );
    assert_eq!(
        deserialize_value(BqType::Int64, &"x".to_string()),
        Err(ValueFormatError::InvalidInt64)
    );
    assert_eq!(
        deserialize_opt_value(BqType::Str, &"NULL".to_string()),
        None
    );
    assert_eq!(
        deserialize_opt_value(BqType::Str, &"abc".to_string()),
        Some(Value::Str("abc".to_string()))
    );
}

#[test]
fn string_null_collision_is_the_round_trip_exception() {
    // a present string holding exactly "NULL" renders as the NULL literal
    // and decodes back to "no value"
    let v: Option<String> = Some("NULL".to_string());
    let rendered = v.to_bigquery_param_value();
    assert_eq!(rendered, "NULL");
    assert_eq!(Option::<String>::from_bigquery_value(&rendered), Ok(None));
}
