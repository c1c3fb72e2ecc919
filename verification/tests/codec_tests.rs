use pg_migrate::codec::{
    build_insert_values, classify, classify_lowered, encode_cell, encode_value,
    get_column_value_as_sql, wants_fallback, CellRead, CodecError, ColumnValue, Decimal,
    FallbackReads, Moment, Network, TimeOfDay, TypeCategory,
};
use bigdecimal::BigDecimal;
use chrono::{Datelike, NaiveDate, Timelike};
use pg_migrate::schema::ColumnInfo;
use std::str::FromStr;

fn cell(declared: Result<Option<ColumnValue>, String>) -> CellRead {
    CellRead { declared, fallback: FallbackReads::none() }
}

fn value(v: ColumnValue) -> CellRead {
    cell(Ok(Some(v)))
}

fn text(s: &str) -> ColumnValue {
    ColumnValue::Text(s.to_string())
}

fn column(name: &str, data_type: &str) -> ColumnInfo {
    ColumnInfo {
        name: name.to_string(),
        data_type: data_type.to_string(),
        is_nullable: true,
        column_default: None,
        is_primary_key: false,
        ordinal_position: 0,
    }
}

const ALL: [TypeCategory; 14] = [
    TypeCategory::Integer,
    TypeCategory::BigInt,
    TypeCategory::SmallInt,
    TypeCategory::Numeric,
    TypeCategory::Real,
    TypeCategory::Double,
    TypeCategory::Boolean,
    TypeCategory::Timestamp,
    TypeCategory::TimestampTz,
    TypeCategory::Date,
    TypeCategory::Time,
    TypeCategory::Network,
    TypeCategory::Json,
    TypeCategory::Text,
];

#[test]
fn every_name_has_its_family() {
    let names = [
        ("integer", TypeCategory::Integer),
        ("int4", TypeCategory::Integer),
        ("bigint", TypeCategory::BigInt),
        ("int8", TypeCategory::BigInt),
        ("smallint", TypeCategory::SmallInt),
        ("int2", TypeCategory::SmallInt),
        ("numeric", TypeCategory::Numeric),
        ("decimal", TypeCategory::Numeric),
        ("real", TypeCategory::Real),
        ("float4", TypeCategory::Real),
        ("double precision", TypeCategory::Double),
        ("float8", TypeCategory::Double),
        ("boolean", TypeCategory::Boolean),
        ("bool", TypeCategory::Boolean),
        ("timestamp", TypeCategory::Timestamp),
        ("timestamp without time zone", TypeCategory::Timestamp),
        ("timestamp with time zone", TypeCategory::TimestampTz),
        ("timestamptz", TypeCategory::TimestampTz),
        ("date", TypeCategory::Date),
        ("time", TypeCategory::Time),
        ("time without time zone", TypeCategory::Time),
        ("inet", TypeCategory::Network),
        ("cidr", TypeCategory::Network),
        ("json", TypeCategory::Json),
        ("jsonb", TypeCategory::Json),
        ("text", TypeCategory::Text),
        ("character varying", TypeCategory::Text),
        ("uuid", TypeCategory::Text),
        ("", TypeCategory::Text),
    ];
    for (name, family) in names {
        assert_eq!(classify_lowered(name), family);
        assert_eq!(classify(name), family);
    }
}

#[test]
fn type_names_are_matched_in_any_case() {
    assert_eq!(classify("INTEGER"), TypeCategory::Integer);
    assert_eq!(classify("Timestamp With Time Zone"), TypeCategory::TimestampTz);
    assert_eq!(classify("JSONB"), TypeCategory::Json);
    assert_eq!(classify_lowered("INTEGER"), TypeCategory::Text);
}

#[test]
fn integers_have_their_numeral() {
    assert_eq!(encode_value(&ColumnValue::SmallInt(-32768)), Some("-32768".to_string()));
    assert_eq!(encode_value(&ColumnValue::Integer(2147483647)), Some("2147483647".to_string()));
    assert_eq!(encode_value(&ColumnValue::BigInt(-1)), Some("-1".to_string()));
    assert_eq!(encode_value(&ColumnValue::BigInt(0)), Some("0".to_string()));
}

#[test]
fn truth_values_are_keywords() {
    assert_eq!(encode_value(&ColumnValue::Boolean(true)), Some("TRUE".to_string()));
    assert_eq!(encode_value(&ColumnValue::Boolean(false)), Some("FALSE".to_string()));
}

#[test]
fn floating_point_text_is_kept() {
    assert_eq!(encode_value(&ColumnValue::Real(1.5f32.to_string())), Some("1.5".to_string()));
    assert_eq!(encode_value(&ColumnValue::Double((-0.25f64).to_string())), Some("-0.25".to_string()));
    assert_eq!(encode_value(&ColumnValue::Double(1e21f64.to_string())), Some(1e21f64.to_string()));
}

#[test]
fn text_is_quoted_and_escaped() {
    assert_eq!(encode_value(&text("plain")), Some("'plain'".to_string()));
    assert_eq!(encode_value(&text("it's")), Some("'it''s'".to_string()));
    assert_eq!(encode_value(&text("")), Some("''".to_string()));
    assert_eq!(encode_value(&text("NULL")), Some("'NULL'".to_string()));
}

#[test]
fn decimals_are_printed_by_their_crate() {
    let d = |bytes: Vec<u8>, scale: i64| ColumnValue::Numeric(Decimal { unscaled: bytes, scale });
    assert_eq!(encode_value(&d(vec![0x04, 0xe2], 2)), Some("12.50".to_string()));
    assert_eq!(encode_value(&d(vec![0xff], 0)), Some("-1".to_string()));
    assert_eq!(encode_value(&d(vec![], 0)), Some("0".to_string()));
    assert_eq!(encode_value(&d(vec![0x01], 3)), Some("0.001".to_string()));
}

#[test]
fn decimals_agree_with_the_crate() {
    for s in ["0", "1", "-1", "12.50", "0.000001", "123456789012345678901234567890.123456789", "-0.1", "1e10", "1e-10", "100"] {
        let v = BigDecimal::from_str(s).unwrap();
        let (unscaled, scale) = v.as_bigint_and_exponent();
        let got = encode_value(&ColumnValue::Numeric(Decimal {
            unscaled: unscaled.to_signed_bytes_be(),
            scale,
        }));
        assert_eq!(got, Some(v.to_string()));
    }
}

#[test]
fn dates_and_times_are_printed_by_their_crate() {
    assert_eq!(encode_value(&ColumnValue::Date(730_000)), Some("'1999-09-03'".to_string()));
    assert_eq!(encode_value(&ColumnValue::Date(1)), Some("'0001-01-01'".to_string()));
    assert_eq!(
        encode_value(&ColumnValue::Timestamp(Moment { seconds: 1_431_648_000, nanos: 0 })),
        Some("'2015-05-15 00:00:00'".to_string())
    );
    assert_eq!(
        encode_value(&ColumnValue::Timestamp(Moment { seconds: 1_431_648_000, nanos: 500_000_000 })),
        Some("'2015-05-15 00:00:00.500'".to_string())
    );
    assert_eq!(
        encode_value(&ColumnValue::Timestamp(Moment { seconds: -1, nanos: 123_456_000 })),
        Some("'1969-12-31 23:59:59.123456'".to_string())
    );
    assert_eq!(
        encode_value(&ColumnValue::TimestampTz(Moment { seconds: 1_431_648_000, nanos: 0 })),
        Some("'2015-05-15T00:00:00+00:00'".to_string())
    );
    assert_eq!(
        encode_value(&ColumnValue::TimestampTz(Moment { seconds: 0, nanos: 1_000 })),
        Some("'1970-01-01T00:00:00.000001+00:00'".to_string())
    );
    assert_eq!(
        encode_value(&ColumnValue::Time(TimeOfDay { seconds: 3_661, nanos: 0 })),
        Some("'01:01:01'".to_string())
    );
    assert_eq!(
        encode_value(&ColumnValue::Time(TimeOfDay { seconds: 86_399, nanos: 999_999_999 })),
        Some("'23:59:59.999999999'".to_string())
    );
}

#[test]
fn dates_and_times_agree_with_the_crate() {
    let date = NaiveDate::from_ymd_opt(2024, 2, 29).unwrap();
    let time = date.and_hms_micro_opt(13, 5, 9, 250_000).unwrap();
    assert_eq!(
        encode_value(&ColumnValue::Date(date.num_days_from_ce())),
        Some(format!("'{}'", date.format("%Y-%m-%d")))
    );
    assert_eq!(
        encode_value(&ColumnValue::Timestamp(Moment {
            seconds: time.and_utc().timestamp(),
            nanos: time.and_utc().timestamp_subsec_nanos(),
        })),
        Some(format!("'{}'", time.format("%Y-%m-%d %H:%M:%S%.f")))
    );
    assert_eq!(
        encode_value(&ColumnValue::TimestampTz(Moment {
            seconds: time.and_utc().timestamp(),
            nanos: time.and_utc().timestamp_subsec_nanos(),
        })),
        Some(format!("'{}'", time.and_utc().to_rfc3339()))
    );
    assert_eq!(
        encode_value(&ColumnValue::Time(TimeOfDay {
            seconds: time.time().num_seconds_from_midnight(),
            nanos: time.time().nanosecond(),
        })),
        Some(format!("'{}'", time.time().format("%H:%M:%S%.f")))
    );
}

#[test]
fn moments_outside_the_calendar_have_no_literal() {
    let e = None;
    assert_eq!(encode_value(&ColumnValue::Timestamp(Moment { seconds: i64::MAX, nanos: 0 })), e);
    assert_eq!(encode_value(&ColumnValue::Timestamp(Moment { seconds: 0, nanos: 2_000_000_000 })), e);
    assert_eq!(encode_value(&ColumnValue::TimestampTz(Moment { seconds: i64::MIN, nanos: 0 })), e);
    assert_eq!(encode_value(&ColumnValue::Date(i32::MAX)), e);
    assert_eq!(encode_value(&ColumnValue::Time(TimeOfDay { seconds: 86_400, nanos: 0 })), e);
}

#[test]
fn networks_are_printed_with_their_prefix() {
    assert_eq!(
        encode_value(&ColumnValue::Network(Network::V4 { a: 10, b: 1, c: 9, d: 32, prefix: 16 })),
        Some("'10.1.9.32/16'".to_string())
    );
    assert_eq!(
        encode_value(&ColumnValue::Network(Network::V4 { a: 0, b: 0, c: 0, d: 0, prefix: 0 })),
        Some("'0.0.0.0/0'".to_string())
    );
    assert_eq!(
        encode_value(&ColumnValue::Network(Network::V4 { a: 255, b: 255, c: 255, d: 255, prefix: 32 })),
        Some("'255.255.255.255/32'".to_string())
    );
    assert_eq!(
        encode_value(&ColumnValue::Network(Network::V6 { bits: 1, prefix: 128 })),
        Some("'::1/128'".to_string())
    );
    assert_eq!(
        encode_value(&ColumnValue::Network(Network::V6 {
            bits: 0x2001_0db8_0000_0000_0000_0000_0000_0000,
            prefix: 32
        })),
        Some("'2001:db8::/32'".to_string())
    );
}

#[test]
fn a_prefix_longer_than_the_address_has_no_literal() {
    let e = None;
    assert_eq!(
        encode_value(&ColumnValue::Network(Network::V4 { a: 1, b: 2, c: 3, d: 4, prefix: 33 })),
        e
    );
    assert_eq!(encode_value(&ColumnValue::Network(Network::V6 { bits: 0, prefix: 129 })), e);
}

#[test]
fn json_is_compacted_quoted_and_escaped() {
    assert_eq!(
        encode_value(&ColumnValue::Json("{ \"b\": \"it's\", \"a\": [1, 2] }".to_string())),
        Some("'{\"a\":[1,2],\"b\":\"it''s\"}'".to_string())
    );
    assert_eq!(encode_value(&ColumnValue::Json("null".to_string())), Some("'null'".to_string()));
    assert_eq!(encode_value(&ColumnValue::Json(" [ ] ".to_string())), Some("'[]'".to_string()));
}

#[test]
fn json_agrees_with_the_crate() {
    let v: serde_json::Value = serde_json::from_str("{\"k\": [true, null, 1.5, \"x'y\"]}").unwrap();
    assert_eq!(
        encode_value(&ColumnValue::Json(v.to_string())),
        Some(format!("'{}'", v.to_string().replace('\'', "''")))
    );
}

#[test]
fn broken_json_has_no_literal() {
    assert_eq!(encode_value(&ColumnValue::Json("{".to_string())), None);
    assert_eq!(encode_value(&ColumnValue::Json("".to_string())), None);
}

#[test]
fn an_absent_value_is_null_in_every_family() {
    for family in ALL {
        assert_eq!(encode_cell(family, &cell(Ok(None)), "c", "t"), Ok("NULL".to_string()));
    }
    for name in ["integer", "numeric", "timestamptz", "jsonb", "text", "unknown"] {
        assert_eq!(get_column_value_as_sql(&cell(Ok(None)), "c", name), Ok("NULL".to_string()));
    }
}

#[test]
fn a_value_of_its_family_has_its_literal() {
    assert_eq!(
        get_column_value_as_sql(&value(ColumnValue::Integer(5)), "n", "integer"),
        Ok("5".to_string())
    );
    assert_eq!(
        get_column_value_as_sql(&value(ColumnValue::BigInt(5)), "n", "INT8"),
        Ok("5".to_string())
    );
    assert_eq!(
        get_column_value_as_sql(&value(text("o'k")), "n", "character varying"),
        Ok("'o''k'".to_string())
    );
    assert_eq!(
        get_column_value_as_sql(&value(ColumnValue::Boolean(true)), "n", "bool"),
        Ok("TRUE".to_string())
    );
}

#[test]
fn a_cell_that_nothing_can_read_has_no_literal() {
    let got = get_column_value_as_sql(&cell(Err("mismatched types".to_string())), "amount", "integer");
    let error = got.unwrap_err();
    assert_eq!(
        error,
        CodecError { column: "amount".to_string(), data_type: "integer".to_string() }
    );
    assert_eq!(error.message(), "Unsupported or unreadable data type 'integer' for column 'amount'");
}

#[test]
fn a_value_of_another_family_is_not_read() {
    let got = encode_cell(TypeCategory::Date, &value(ColumnValue::Integer(1)), "d", "date");
    assert_eq!(got, Err(CodecError { column: "d".to_string(), data_type: "date".to_string() }));
}

#[test]
fn a_value_without_literal_is_not_read() {
    let got = encode_cell(TypeCategory::Date, &value(ColumnValue::Date(i32::MIN)), "d", "date");
    let error = got.unwrap_err();
    assert_eq!(error.message(), "Unsupported or unreadable data type 'date' for column 'd'");
}

#[test]
fn a_failed_read_falls_back_in_every_family() {
    let fallback = FallbackReads { integer: Some(7), real: None, boolean: None, confirmed_null: false };
    for family in ALL {
        let c = CellRead { declared: Err("bad".to_string()), fallback: fallback.clone() };
        assert_eq!(encode_cell(family, &c, "c", "t"), Ok("7".to_string()));
    }
    let c = CellRead { declared: Ok(Some(ColumnValue::Date(i32::MAX))), fallback: fallback.clone() };
    assert_eq!(encode_cell(TypeCategory::Date, &c, "c", "date"), Ok("7".to_string()));
    let c = CellRead { declared: Ok(Some(text("x"))), fallback };
    assert_eq!(encode_cell(TypeCategory::Integer, &c, "c", "integer"), Ok("7".to_string()));
}

#[test]
fn a_value_that_was_read_is_not_replaced_by_the_fallback() {
    let fallback = FallbackReads { integer: Some(7), real: None, boolean: None, confirmed_null: true };
    let c = CellRead { declared: Ok(Some(ColumnValue::Integer(5))), fallback: fallback.clone() };
    assert_eq!(encode_cell(TypeCategory::Integer, &c, "c", "integer"), Ok("5".to_string()));
    let c = CellRead { declared: Ok(None), fallback };
    assert_eq!(encode_cell(TypeCategory::Integer, &c, "c", "integer"), Ok("NULL".to_string()));
}

#[test]
fn unreadable_text_falls_back_in_order() {
    let with = |fallback: FallbackReads| CellRead { declared: Err("no text".to_string()), fallback };
    let all = FallbackReads {
        integer: Some(7),
        real: Some("1.5".to_string()),
        boolean: Some(true),
        confirmed_null: true,
    };
    assert_eq!(get_column_value_as_sql(&with(all), "c", "text"), Ok("7".to_string()));
    let no_integer = FallbackReads {
        integer: None,
        real: Some("1.5".to_string()),
        boolean: Some(true),
        confirmed_null: true,
    };
    assert_eq!(get_column_value_as_sql(&with(no_integer), "c", "text"), Ok("1.5".to_string()));
    let truth = FallbackReads { integer: None, real: None, boolean: Some(false), confirmed_null: true };
    assert_eq!(get_column_value_as_sql(&with(truth), "c", "text"), Ok("FALSE".to_string()));
    let empty = FallbackReads { integer: None, real: None, boolean: None, confirmed_null: true };
    assert_eq!(get_column_value_as_sql(&with(empty), "c", "text"), Ok("NULL".to_string()));
}

#[test]
fn text_that_nothing_can_read_has_no_literal() {
    let c = cell(Err("no text".to_string()));
    let error = get_column_value_as_sql(&c, "shape", "polygon").unwrap_err();
    assert_eq!(error, CodecError { column: "shape".to_string(), data_type: "polygon".to_string() });
    assert_eq!(error.message(), "Unsupported or unreadable data type 'polygon' for column 'shape'");
}

#[test]
fn a_cell_without_literal_wants_the_fallback() {
    assert!(wants_fallback(TypeCategory::Text, &Err("x".to_string())));
    assert!(wants_fallback(TypeCategory::Integer, &Err("x".to_string())));
    assert!(wants_fallback(TypeCategory::Text, &Ok(Some(ColumnValue::Integer(1)))));
    assert!(wants_fallback(TypeCategory::Date, &Ok(Some(ColumnValue::Date(i32::MAX)))));
    assert!(wants_fallback(TypeCategory::Json, &Ok(Some(ColumnValue::Json("{".to_string())))));
    assert!(!wants_fallback(TypeCategory::Text, &Ok(Some(text("a")))));
    assert!(!wants_fallback(TypeCategory::Text, &Ok(None)));
    assert!(!wants_fallback(TypeCategory::Integer, &Ok(None)));
    assert!(!wants_fallback(TypeCategory::Integer, &Ok(Some(ColumnValue::Integer(1)))));
}

#[test]
fn the_values_of_a_row_are_joined() {
    let columns = vec![column("id", "integer"), column("name", "text"), column("ok", "boolean")];
    let row = vec![
        value(ColumnValue::Integer(1)),
        value(text("a'b")),
        cell(Ok(None)),
    ];
    assert_eq!(build_insert_values(&row, &columns), Ok("1, 'a''b', NULL".to_string()));
    assert_eq!(build_insert_values(&[], &[]), Ok("".to_string()));
}

#[test]
fn the_first_unreadable_cell_ends_the_row() {
    let columns = vec![column("id", "integer"), column("a", "date"), column("b", "date")];
    let row = vec![
        value(ColumnValue::Integer(1)),
        cell(Err("first".to_string())),
        cell(Err("second".to_string())),
    ];
    let error = build_insert_values(&row, &columns).unwrap_err();
    assert_eq!(error, CodecError { column: "a".to_string(), data_type: "date".to_string() });
}

#[test]
fn a_row_that_is_too_short_is_unreadable() {
    let columns = vec![column("id", "integer"), column("a", "date")];
    let row = vec![value(ColumnValue::Integer(1))];
    let error = build_insert_values(&row, &columns).unwrap_err();
    assert_eq!(error.message(), "Unsupported or unreadable data type 'date' for column 'a'");
}

#[test]
fn the_literal_of_an_integer_reads_back_as_the_integer() {
    for v in [i64::MIN, -1_000_000, -1, 0, 1, 42, i64::MAX] {
        let literal = encode_value(&ColumnValue::BigInt(v)).unwrap();
        assert_eq!(literal.parse::<i64>(), Ok(v));
    }
    for v in [i32::MIN, -7, 0, i32::MAX] {
        let literal = encode_value(&ColumnValue::Integer(v)).unwrap();
        assert_eq!(literal.parse::<i32>(), Ok(v));
    }
    for v in [i16::MIN, -7, 0, i16::MAX] {
        let literal = encode_value(&ColumnValue::SmallInt(v)).unwrap();
        assert_eq!(literal.parse::<i16>(), Ok(v));
    }
}

#[test]
fn the_literal_of_a_truth_value_reads_back_as_the_truth_value() {
    for v in [true, false] {
        let literal = encode_value(&ColumnValue::Boolean(v)).unwrap();
        assert_eq!(literal.to_lowercase().parse::<bool>(), Ok(v));
    }
}

#[test]
fn the_literal_of_a_text_reads_back_as_the_text() {
    for s in ["", "plain", "it's", "''", "'", "a''b'c", "tab\there", "ünïcödé '日本'"] {
        let literal = encode_value(&text(s)).unwrap();
        assert!(literal.len() >= 2);
        assert!(literal.starts_with('\'') && literal.ends_with('\''));
        let inner = &literal[1..literal.len() - 1];
        assert_eq!(inner.replace("''", "'"), s);
    }
}

#[test]
fn a_text_that_no_float_prints_to_has_no_literal() {
    for bad in ["'", "1; DROP TABLE t", "", "1 2", "nan", "Infinity", "0x10", "1'"] {
        assert_eq!(encode_value(&ColumnValue::Real(bad.to_string())), None);
        assert_eq!(encode_value(&ColumnValue::Double(bad.to_string())), None);
    }
    for good in ["0", "-1.5", "1e-7", "3.4028235E38", "NaN", "inf", "-inf", "+2"] {
        assert_eq!(encode_value(&ColumnValue::Double(good.to_string())), Some(good.to_string()));
    }
}

#[test]
fn every_float_prints_to_a_text_that_is_taken() {
    for v in [0.0f64, -0.0, 1.5, -2.25e-9, 1e300, f64::MAX, f64::MIN_POSITIVE, f64::NAN, f64::INFINITY, f64::NEG_INFINITY] {
        assert_eq!(encode_value(&ColumnValue::Double(v.to_string())), Some(v.to_string()));
    }
    for v in [0.0f32, 1.1, -3.5e20, f32::MAX, f32::NAN, f32::NEG_INFINITY] {
        assert_eq!(encode_value(&ColumnValue::Real(v.to_string())), Some(v.to_string()));
    }
}

#[test]
fn a_fallback_float_that_is_no_float_is_passed_over() {
    let fallback = FallbackReads {
        integer: None,
        real: Some("'; --".to_string()),
        boolean: Some(true),
        confirmed_null: false,
    };
    let c = CellRead { declared: Err("bad".to_string()), fallback };
    assert_eq!(encode_cell(TypeCategory::Text, &c, "c", "text"), Ok("TRUE".to_string()));
}

#[test]
fn no_literal_can_be_closed_early() {
    let values = vec![
        ColumnValue::Integer(-5),
        ColumnValue::Boolean(true),
        ColumnValue::Double("1.5".to_string()),
        ColumnValue::Numeric(Decimal { unscaled: vec![0x04, 0xe2], scale: 2 }),
        ColumnValue::Date(730_000),
        ColumnValue::Time(TimeOfDay { seconds: 1, nanos: 5 }),
        ColumnValue::Timestamp(Moment { seconds: 0, nanos: 0 }),
        ColumnValue::TimestampTz(Moment { seconds: 0, nanos: 0 }),
        ColumnValue::Network(Network::V6 { bits: 7, prefix: 64 }),
        ColumnValue::Json("{\"a\": \"x'y''z\"}".to_string()),
        ColumnValue::Text("'; DROP TABLE t; --".to_string()),
        ColumnValue::Text("''''".to_string()),
    ];
    for v in values {
        let literal = encode_value(&v).unwrap();
        if literal.contains('\'') {
            assert!(literal.len() >= 2 && literal.starts_with('\'') && literal.ends_with('\''));
            let inner = &literal[1..literal.len() - 1];
            assert!(!inner.replace("''", "").contains('\''));
        }
    }
}

#[test]
fn a_name_that_is_not_ascii_is_lowered_too() {
    assert_eq!(classify("ÉCOLE"), TypeCategory::Text);
    assert_eq!(classify("json\u{212a}"), TypeCategory::Text);
    assert_eq!(classify("BOOLEAN"), TypeCategory::Boolean);
}

#[test]
fn json_numbers_come_back_as_they_were_printed() {
    for v in [0.1f64, 1e-7, 0.30000000000000004, 123456789.12345678, 2.2250738585072014e-308, 1.7976931348623157e308, 5e-324, 9007199254740993.0, 1.0e23] {
        let printed = serde_json::Value::from(v).to_string();
        assert_eq!(encode_value(&ColumnValue::Json(printed.clone())), Some(format!("'{}'", printed)));
    }
    let document = serde_json::from_str::<serde_json::Value>("[1.2345678901234567e-5, 18446744073709551616, -0.0]").unwrap().to_string();
    assert_eq!(encode_value(&ColumnValue::Json(document.clone())), Some(format!("'{}'", document)));
}

#[test]
fn the_text_of_a_decimal_or_a_float_prints_to_itself_again() {
    for s in ["0", "-1", "12.50", "0.000001", "1e10", "1e-10", "123456789012345678901234567890.5"] {
        let first = BigDecimal::from_str(s).unwrap();
        let (unscaled, scale) = first.as_bigint_and_exponent();
        let literal = encode_value(&ColumnValue::Numeric(Decimal {
            unscaled: unscaled.to_signed_bytes_be(),
            scale,
        }))
        .unwrap();
        let again = BigDecimal::from_str(&literal).unwrap();
        let (unscaled, scale) = again.as_bigint_and_exponent();
        let second = encode_value(&ColumnValue::Numeric(Decimal {
            unscaled: unscaled.to_signed_bytes_be(),
            scale,
        }));
        assert_eq!(second, Some(literal));
    }
    for v in [0.1f64, -2.5, 1e-7, 1e21, 123456.789, f64::MAX] {
        let literal = encode_value(&ColumnValue::Double(v.to_string())).unwrap();
        let again: f64 = literal.parse().unwrap();
        assert_eq!(encode_value(&ColumnValue::Double(again.to_string())), Some(literal));
    }
    for v in [0.1f32, -2.5, 1e-7, 16777217.0] {
        let literal = encode_value(&ColumnValue::Real(v.to_string())).unwrap();
        let again: f32 = literal.parse().unwrap();
        assert_eq!(encode_value(&ColumnValue::Real(again.to_string())), Some(literal));
    }
}
