use chrono::NaiveDate;
use pg_ripple::inline::{
    decode_boolean, decode_date_days, decode_datetime_micros, decode_integer, format_inline,
    inline_type, is_inline, try_encode_boolean, try_encode_date, try_encode_datetime,
    try_encode_integer, TYPE_BOOLEAN, TYPE_DATE, TYPE_DATETIME, TYPE_INTEGER,
};

#[test]
fn test_integer_roundtrip() {
    for &v in &[0i64, 1, -1, 42, -42, 1_000_000, -1_000_000] {
        let id = try_encode_integer(&v.to_string()).expect("should encode");
        assert!(is_inline(id));
        assert_eq!(inline_type(id), TYPE_INTEGER);
        assert_eq!(decode_integer(id), v);
    }
}

#[test]
fn test_integer_ordering_preserved() {
    let id0 = try_encode_integer("0").unwrap();
    let id1 = try_encode_integer("1").unwrap();
    let id_neg = try_encode_integer("-1").unwrap();
    assert!(id1 > id0, "1 should have greater inline id than 0");
    assert!(id_neg < id0, "-1 should have smaller inline id than 0");
}

#[test]
fn test_boolean_roundtrip() {
    let id_t = try_encode_boolean("true").unwrap();
    let id_f = try_encode_boolean("false").unwrap();
    assert!(is_inline(id_t));
    assert!(is_inline(id_f));
    assert_eq!(inline_type(id_t), TYPE_BOOLEAN);
    assert!(decode_boolean(id_t));
    assert!(!decode_boolean(id_f));
}

#[test]
fn test_date_roundtrip() {
    let id = try_encode_date("2023-06-15").unwrap();
    assert!(is_inline(id));
    assert_eq!(inline_type(id), TYPE_DATE);
    let epoch = NaiveDate::from_ymd_opt(1970, 1, 1).unwrap();
    let d = NaiveDate::from_ymd_opt(2023, 6, 15).unwrap();
    let expected_days = (d - epoch).num_days();
    assert_eq!(decode_date_days(id), expected_days);
}

#[test]
fn test_datetime_roundtrip() {
    let id = try_encode_datetime("2023-06-15T12:00:00Z").unwrap();
    assert!(is_inline(id));
    assert_eq!(inline_type(id), TYPE_DATETIME);
    // Just verify it's representable.
    let micros = decode_datetime_micros(id);
    assert!(micros > 0);
}

#[test]
fn test_format_integer() {
    let id = try_encode_integer("42").unwrap();
    assert_eq!(
        format_inline(id),
        "\"42\"^^<http://www.w3.org/2001/XMLSchema#integer>"
    );
}

#[test]
fn test_format_boolean() {
    let id = try_encode_boolean("true").unwrap();
    assert_eq!(
        format_inline(id),
        "\"true\"^^<http://www.w3.org/2001/XMLSchema#boolean>"
    );
}

#[test]
fn test_noninline_positive() {
    // Positive i64 values (dictionary IDs) must not be detected as inline.
    assert!(!is_inline(1));
    assert!(!is_inline(42));
    assert!(!is_inline(i64::MAX));
}

#[test]
fn integer_range_limits() {
    assert!(try_encode_integer("36028797018963967").is_some());
    assert!(try_encode_integer("36028797018963968").is_none());
    assert!(try_encode_integer("-36028797018963968").is_some());
    assert!(try_encode_integer("-36028797018963969").is_none());
    assert_eq!(decode_integer(try_encode_integer("-36028797018963968").unwrap()), -36028797018963968);
    assert_eq!(try_encode_integer("-36028797018963968").unwrap(), i64::MIN);
}

#[test]
fn integer_lexical_forms() {
    assert_eq!(decode_integer(try_encode_integer("  +17 ").unwrap()), 17);
    assert_eq!(decode_integer(try_encode_integer("007").unwrap()), 7);
    assert!(try_encode_integer("").is_none());
    assert!(try_encode_integer("-").is_none());
    assert!(try_encode_integer("1.5").is_none());
    assert!(try_encode_integer("abc").is_none());
    assert!(try_encode_integer("99999999999999999999999").is_none());
}

#[test]
fn integer_exact_id() {
    // 42 + 2^55 in the value bits, type code 0, inline flag set.
    assert_eq!(try_encode_integer("42").unwrap(), (0x8080_0000_0000_002Au64) as i64);
}

#[test]
fn boolean_lexical_forms() {
    assert_eq!(try_encode_boolean("1"), try_encode_boolean("true"));
    assert_eq!(try_encode_boolean(" 0 "), try_encode_boolean("false"));
    assert!(try_encode_boolean("TRUE").is_none());
    assert!(try_encode_boolean("yes").is_none());
}

#[test]
fn datetime_offsets() {
    assert!(try_encode_datetime("2023-06-15T12:00:00-08:00").is_none());
    let z = try_encode_datetime("2023-06-15T12:00:00Z").unwrap();
    let plus0 = try_encode_datetime("2023-06-15T12:00:00+00:00").unwrap();
    assert_eq!(z, plus0);
    assert_eq!(inline_type(z), TYPE_DATETIME);
    assert_eq!(decode_datetime_micros(z), 1_686_830_400_000_000);
    assert!(try_encode_datetime("not a date").is_none());
}

#[test]
fn date_epoch_is_zero() {
    let id = try_encode_date("1970-01-01").unwrap();
    assert_eq!(decode_date_days(id), 0);
    assert_eq!(decode_date_days(try_encode_date("1969-12-31").unwrap()), -1);
    assert!(try_encode_date("2023-13-01").is_none());
}

#[test]
fn format_other_types() {
    let d = try_encode_date("2023-06-15").unwrap();
    assert_eq!(format_inline(d), "\"2023-06-15\"^^<http://www.w3.org/2001/XMLSchema#date>");
    let dt = try_encode_datetime("2023-06-15T12:00:00Z").unwrap();
    assert_eq!(
        format_inline(dt),
        "\"2023-06-15T12:00:00.000000Z\"^^<http://www.w3.org/2001/XMLSchema#dateTime>"
    );
    let f = try_encode_boolean("0").unwrap();
    assert_eq!(format_inline(f), "\"false\"^^<http://www.w3.org/2001/XMLSchema#boolean>");
    let neg = try_encode_integer("-5").unwrap();
    assert_eq!(format_inline(neg), "\"-5\"^^<http://www.w3.org/2001/XMLSchema#integer>");
    // Type code 9, value bits = offset (value 0).
    let other = (0x8000_0000_0000_0000u64 | (9u64 << 56) | (1u64 << 55)) as i64;
    assert_eq!(format_inline(other), "\"inline:9:0\"^^<urn:pg_ripple:inline>");
}

#[test]
fn boolean_decodes() {
    assert!(decode_boolean(try_encode_boolean("1").unwrap()));
    assert_eq!(inline_type(try_encode_boolean("0").unwrap()), TYPE_BOOLEAN);
    assert_eq!(inline_type(try_encode_integer("0").unwrap()), TYPE_INTEGER);
    assert_eq!(inline_type(try_encode_date("2000-01-01").unwrap()), TYPE_DATE);
}
