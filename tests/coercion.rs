use replicators::error::ReplicationError;
use replicators::row::{binlog_row_to_noria_row, BinlogCell, ColumnDescriptor, JsonText, TableMap};
use replicators::value::{
    binlog_val_to_noria_val, default_conversion, parse_timestamp_payload, timestamp_from_civil,
    DateTime, DfValue, RawValue, TimestampPayload, MYSQL_TYPE_TIMESTAMP2,
};

const LONG: u8 = 3;
const VARCHAR: u8 = 15;
const DATETIME2: u8 = 18;
const TIME2: u8 = 19;

fn bytes(s: &str) -> RawValue {
    RawValue::Bytes(s.as_bytes().to_vec())
}

fn coercion_kind(r: Result<DfValue, ReplicationError>) -> u8 {
    match r {
        Err(ReplicationError::Coercion { kind, .. }) => kind,
        other => panic!("expected a coercion error, got {:?}", other),
    }
}

#[test]
fn zero_timestamp_is_null() {
    let r = binlog_val_to_noria_val(&bytes("0"), MYSQL_TYPE_TIMESTAMP2, &[0]).unwrap();
    assert!(matches!(r, DfValue::Null));
}

#[test]
fn epoch_seconds_timestamp() {
    let r = binlog_val_to_noria_val(&bytes("1700000000"), MYSQL_TYPE_TIMESTAMP2, &[0]).unwrap();
    match r {
        DfValue::Timestamp(t) => assert_eq!(
            t,
            DateTime { year: 2023, month: 11, day: 14, hour: 22, minute: 13, second: 20, nanosecond: 0 }
        ),
        other => panic!("unexpected {:?}", other),
    }
}

#[test]
fn fractional_timestamp_scales_fraction_by_32() {
    let r = binlog_val_to_noria_val(&bytes("1700000000.500000"), MYSQL_TYPE_TIMESTAMP2, &[6]).unwrap();
    match r {
        DfValue::Timestamp(t) => {
            assert_eq!((t.year, t.month, t.day, t.hour, t.minute, t.second), (2023, 11, 14, 22, 13, 20));
            assert_eq!(t.nanosecond, 500000 * 32);
        },
        other => panic!("unexpected {:?}", other),
    }
}

#[test]
fn fractional_zero_is_the_epoch() {
    let r = binlog_val_to_noria_val(&bytes("0.000000"), MYSQL_TYPE_TIMESTAMP2, &[6]).unwrap();
    match r {
        DfValue::Timestamp(t) => assert_eq!((t.year, t.month, t.day, t.nanosecond), (1970, 1, 1, 0)),
        other => panic!("unexpected {:?}", other),
    }
}

#[test]
fn timestamp_payload_forms() {
    assert_eq!(parse_timestamp_payload(b"0", &[0]), TimestampPayload::Zero);
    assert_eq!(parse_timestamp_payload(b"-0", &[0]), TimestampPayload::Zero);
    assert_eq!(parse_timestamp_payload(b"+15", &[0]), TimestampPayload::At { secs: 15, nanos: 0 });
    assert_eq!(parse_timestamp_payload(b"-15", &[0]), TimestampPayload::At { secs: -15, nanos: 0 });
    assert_eq!(parse_timestamp_payload(b"12.3", &[3]), TimestampPayload::At { secs: 12, nanos: 96 });
    assert_eq!(parse_timestamp_payload(b"12", &[3]), TimestampPayload::Malformed);
    assert_eq!(parse_timestamp_payload(b"1x", &[0]), TimestampPayload::Malformed);
    assert_eq!(parse_timestamp_payload(b"", &[0]), TimestampPayload::Malformed);
    assert_eq!(parse_timestamp_payload(b"1.2.3", &[3]), TimestampPayload::Malformed);
    assert_eq!(parse_timestamp_payload(b"1.200000000", &[3]), TimestampPayload::Malformed);
    assert_eq!(
        parse_timestamp_payload(b"-9223372036854775808", &[0]),
        TimestampPayload::At { secs: i64::MIN, nanos: 0 }
    );
    assert_eq!(parse_timestamp_payload(b"9223372036854775808", &[0]), TimestampPayload::Malformed);
    assert_eq!(parse_timestamp_payload(b"99999999999999999999", &[0]), TimestampPayload::Malformed);
}

#[test]
fn malformed_timestamp_is_a_coercion_error() {
    assert_eq!(coercion_kind(binlog_val_to_noria_val(&bytes("abc"), MYSQL_TYPE_TIMESTAMP2, &[0])), MYSQL_TYPE_TIMESTAMP2);
    assert_eq!(coercion_kind(binlog_val_to_noria_val(&bytes("17"), MYSQL_TYPE_TIMESTAMP2, &[2])), MYSQL_TYPE_TIMESTAMP2);
}

#[test]
fn out_of_range_timestamp_is_a_coercion_error() {
    assert_eq!(
        coercion_kind(binlog_val_to_noria_val(&bytes("9223372036854775807"), MYSQL_TYPE_TIMESTAMP2, &[0])),
        MYSQL_TYPE_TIMESTAMP2
    );
    assert_eq!(coercion_kind(timestamp_from_civil(None, 7)), 7);
}

#[test]
fn civil_time_becomes_a_timestamp() {
    let t = DateTime { year: 2000, month: 2, day: 29, hour: 1, minute: 2, second: 3, nanosecond: 4 };
    match timestamp_from_civil(Some(t), MYSQL_TYPE_TIMESTAMP2).unwrap() {
        DfValue::Timestamp(u) => assert_eq!(u, t),
        other => panic!("unexpected {:?}", other),
    }
}

#[test]
fn bytes_of_other_kinds_are_text_or_binary() {
    match binlog_val_to_noria_val(&bytes("héllo"), VARCHAR, &[]).unwrap() {
        DfValue::Text(s) => assert_eq!(s, "héllo"),
        other => panic!("unexpected {:?}", other),
    }
    match default_conversion(&RawValue::Bytes(vec![0xff, 0x00]), VARCHAR).unwrap() {
        DfValue::ByteArray(b) => assert_eq!(b, vec![0xff, 0x00]),
        other => panic!("unexpected {:?}", other),
    }
    match binlog_val_to_noria_val(&bytes("0"), VARCHAR, &[0]).unwrap() {
        DfValue::Text(s) => assert_eq!(s, "0"),
        other => panic!("unexpected {:?}", other),
    }
}

#[test]
fn integers_and_null_pass_through() {
    assert!(matches!(default_conversion(&RawValue::Null, LONG).unwrap(), DfValue::Null));
    assert!(matches!(default_conversion(&RawValue::Int(-5), LONG).unwrap(), DfValue::Int(-5)));
    assert!(matches!(default_conversion(&RawValue::UInt(u64::MAX), LONG).unwrap(), DfValue::UnsignedInt(u64::MAX)));
    assert!(matches!(binlog_val_to_noria_val(&RawValue::Int(9), MYSQL_TYPE_TIMESTAMP2, &[0]).unwrap(), DfValue::Int(9)));
}

#[test]
fn floats_must_be_finite() {
    let one = 1.5f32.to_bits();
    assert!(matches!(default_conversion(&RawValue::Float(one), 4).unwrap(), DfValue::Float(b) if b == one));
    assert_eq!(coercion_kind(default_conversion(&RawValue::Float(f32::NAN.to_bits()), 4)), 4);
    let d = (-2.25f64).to_bits();
    assert!(matches!(default_conversion(&RawValue::Double(d), 5).unwrap(), DfValue::Double(b) if b == d));
    assert_eq!(coercion_kind(default_conversion(&RawValue::Double(f64::INFINITY.to_bits()), 5)), 5);
}

#[test]
fn dates_become_timestamps() {
    let v = RawValue::Date { year: 2024, month: 2, day: 29, hour: 23, minute: 59, second: 58, micros: 123456 };
    match default_conversion(&v, DATETIME2).unwrap() {
        DfValue::Timestamp(t) => assert_eq!(
            t,
            DateTime { year: 2024, month: 2, day: 29, hour: 23, minute: 59, second: 58, nanosecond: 123456000 }
        ),
        other => panic!("unexpected {:?}", other),
    }
    let zero = RawValue::Date { year: 0, month: 0, day: 0, hour: 0, minute: 0, second: 0, micros: 0 };
    assert!(matches!(default_conversion(&zero, DATETIME2).unwrap(), DfValue::Null));
    let bad = RawValue::Date { year: 2023, month: 2, day: 29, hour: 0, minute: 0, second: 0, micros: 0 };
    assert_eq!(coercion_kind(default_conversion(&bad, DATETIME2)), DATETIME2);
}

#[test]
fn times_count_days_as_hours() {
    let v = RawValue::Time { negative: true, days: 2, hours: 3, minutes: 4, seconds: 5, micros: 6 };
    match default_conversion(&v, TIME2).unwrap() {
        DfValue::Time { negative, hours, minutes, seconds, micros } => {
            assert_eq!((negative, hours, minutes, seconds, micros), (true, 51, 4, 5, 6))
        },
        other => panic!("unexpected {:?}", other),
    }
}

fn table() -> TableMap {
    TableMap {
        schema: "db".to_string(),
        table: "t".to_string(),
        columns: vec![
            ColumnDescriptor { kind: LONG, meta: vec![] },
            ColumnDescriptor { kind: MYSQL_TYPE_TIMESTAMP2, meta: vec![0] },
            ColumnDescriptor { kind: 245, meta: vec![4] },
        ],
    }
}

#[test]
fn row_conversion_uses_column_types() {
    let row = vec![
        BinlogCell::Value(RawValue::Int(1)),
        BinlogCell::Value(bytes("0")),
        BinlogCell::Jsonb(JsonText::Rendered("{\"a\":1}".to_string())),
    ];
    let vals = binlog_row_to_noria_row(&row, &table()).unwrap();
    assert_eq!(vals.len(), 3);
    assert!(matches!(vals[0], DfValue::Int(1)));
    assert!(matches!(vals[1], DfValue::Null));
    assert!(matches!(&vals[2], DfValue::Text(s) if s == "{\"a\":1}"));
}

#[test]
fn opaque_json_payload_is_passed_verbatim() {
    let row = vec![BinlogCell::Jsonb(JsonText::Opaque(b"\"2020-01-01\"".to_vec()))];
    let vals = binlog_row_to_noria_row(&row, &table()).unwrap();
    assert!(matches!(&vals[0], DfValue::Text(s) if s == "\"2020-01-01\""));
    let raw = vec![BinlogCell::Jsonb(JsonText::Opaque(vec![0x22, 0xff, 0x22]))];
    let vals = binlog_row_to_noria_row(&raw, &table()).unwrap();
    assert!(matches!(&vals[0], DfValue::ByteArray(b) if b == &vec![0x22, 0xff, 0x22]));
}

#[test]
fn row_conversion_errors() {
    let bad_json = vec![BinlogCell::Jsonb(JsonText::Invalid("bad".to_string()))];
    assert!(matches!(binlog_row_to_noria_row(&bad_json, &table()), Err(ReplicationError::Coercion { kind: 245, .. })));
    let other = vec![BinlogCell::Value(RawValue::Int(1)), BinlogCell::Other];
    assert!(matches!(binlog_row_to_noria_row(&other, &table()), Err(ReplicationError::Protocol(_))));
    let too_wide = vec![
        BinlogCell::Value(RawValue::Int(1)),
        BinlogCell::Value(RawValue::Null),
        BinlogCell::Value(RawValue::Null),
        BinlogCell::Value(RawValue::Null),
    ];
    assert!(matches!(binlog_row_to_noria_row(&too_wide, &table()), Err(ReplicationError::Protocol(_))));
    let bad_ts = vec![BinlogCell::Value(RawValue::Int(1)), BinlogCell::Value(bytes("x"))];
    assert!(matches!(
        binlog_row_to_noria_row(&bad_ts, &table()),
        Err(ReplicationError::Coercion { kind: MYSQL_TYPE_TIMESTAMP2, .. })
    ));
    assert!(binlog_row_to_noria_row(&vec![], &table()).unwrap().is_empty());
}

#[test]
fn negative_epoch_seconds_fall_before_1970() {
    let r = binlog_val_to_noria_val(&bytes("-1"), MYSQL_TYPE_TIMESTAMP2, &[0]).unwrap();
    match r {
        DfValue::Timestamp(t) => assert_eq!(
            t,
            DateTime { year: 1969, month: 12, day: 31, hour: 23, minute: 59, second: 59, nanosecond: 0 }
        ),
        other => panic!("unexpected {:?}", other),
    }
}
