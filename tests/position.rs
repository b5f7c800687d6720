use std::cmp::Ordering;

use replicators::error::ReplicationError;
use replicators::position::{BinlogPosition, ReplicationOffset};

fn pos(file: &str, position: u32) -> BinlogPosition {
    BinlogPosition { binlog_file: file.to_string(), position }
}

#[test]
fn encode_packs_width_suffix_and_offset() {
    let off = ReplicationOffset::try_from(&pos("host-bin.000123", 4)).unwrap();
    assert_eq!(off.offset, (6u128 << 123) | (123u128 << 64) | 4);
    assert_eq!(off.replication_log_name, "host-bin");
    let back = BinlogPosition::from(&off);
    assert_eq!(back.binlog_file, "host-bin.000123");
    assert_eq!(back.position, 4);
}

#[test]
fn decode_keeps_single_digit_suffix() {
    let off = ReplicationOffset::try_from(&pos("host-bin.1", 0)).unwrap();
    assert_eq!(off.offset >> 123, 1);
    let back = BinlogPosition::from(&off);
    assert_eq!(back.binlog_file, "host-bin.1");
    assert_eq!(back.position, 0);
}

#[test]
fn round_trip_with_seventeen_digits() {
    let file = "log.00000000000000042";
    assert_eq!(file.len() - 4, 17);
    let off = ReplicationOffset::try_from(&pos(file, u32::MAX)).unwrap();
    let back = BinlogPosition::from(&off);
    assert_eq!(back.binlog_file, file);
    assert_eq!(back.position, u32::MAX);
}

#[test]
fn round_trip_with_large_suffix() {
    let file = "db.99999999999999999";
    let off = ReplicationOffset::try_from(&pos(file, 77)).unwrap();
    assert_eq!(BinlogPosition::from(&off).binlog_file, file);
}

#[test]
fn basename_keeps_inner_dots() {
    let off = ReplicationOffset::try_from(&pos("my.host-bin.000007", 9)).unwrap();
    assert_eq!(off.replication_log_name, "my.host-bin");
    assert_eq!(BinlogPosition::from(&off).binlog_file, "my.host-bin.000007");
}

#[test]
fn encode_rejects_missing_separator() {
    match ReplicationOffset::try_from(&pos("hostbin000001", 4)) {
        Err(ReplicationError::InvalidBinlogName(f)) => assert_eq!(f, "hostbin000001"),
        other => panic!("unexpected {:?}", other),
    }
}

#[test]
fn encode_rejects_bad_suffixes() {
    for file in ["bin.00a001", "bin.", "bin.123456789012345678", "bin.+12", "bin.-1"] {
        match ReplicationOffset::try_from(&pos(file, 0)) {
            Err(ReplicationError::InvalidBinlogSuffix(f)) => assert_eq!(f, file),
            other => panic!("unexpected {:?} for {}", other, file),
        }
    }
}

#[test]
fn decode_pads_to_width_or_prints_all_digits() {
    let off = ReplicationOffset { offset: (3u128 << 123) | (5u128 << 64) | 10, replication_log_name: "b".to_string() };
    assert_eq!(BinlogPosition::from(&off).binlog_file, "b.005");
    let off = ReplicationOffset { offset: (2u128 << 123) | (12345u128 << 64), replication_log_name: "b".to_string() };
    assert_eq!(BinlogPosition::from(&off).binlog_file, "b.12345");
    let off = ReplicationOffset { offset: 0, replication_log_name: "b".to_string() };
    assert_eq!(BinlogPosition::from(&off).binlog_file, "b.0");
}

#[test]
fn decode_takes_low_32_bits_as_offset() {
    let off = ReplicationOffset { offset: (1u128 << 123) | (1u128 << 64) | 0x1_0000_0005, replication_log_name: "b".to_string() };
    assert_eq!(BinlogPosition::from(&off).position, 5);
}

#[test]
fn compare_positions() {
    assert_eq!(pos("bin.000001", 100).partial_cmp(&pos("bin.000002", 0)), Some(Ordering::Less));
    assert_eq!(pos("a.000001", 0).partial_cmp(&pos("b.000001", 0)), None);
    assert_eq!(pos("bin.000002", 0).partial_cmp(&pos("bin.000001", 100)), Some(Ordering::Greater));
    assert_eq!(pos("bin.000001", 7).partial_cmp(&pos("bin.000001", 7)), Some(Ordering::Equal));
    assert_eq!(pos("bin.000001", 8).partial_cmp(&pos("bin.000001", 7)), Some(Ordering::Greater));
}

#[test]
fn compare_incomparable_names() {
    assert_eq!(pos("bin000001", 0).partial_cmp(&pos("bin.000001", 0)), None);
    assert_eq!(pos("bin.index", 0).partial_cmp(&pos("bin.000001", 0)), None);
    assert_eq!(pos("bin.99999999999999999999", 0).partial_cmp(&pos("bin.1", 0)), None);
    assert_eq!(pos("x", 3).partial_cmp(&pos("x", 4)), Some(Ordering::Less));
}

#[test]
fn compare_by_suffix_value_across_widths() {
    assert_eq!(pos("bin.9", 0).partial_cmp(&pos("bin.10", 0)), Some(Ordering::Less));
    assert_eq!(pos("bin.01", 5).partial_cmp(&pos("bin.1", 0)), Some(Ordering::Greater));
    assert_eq!(pos("bin.1", 5).partial_cmp(&pos("bin.01", 10)), Some(Ordering::Less));
    assert_eq!(pos("bin.1", 7).partial_cmp(&pos("bin.01", 7)), Some(Ordering::Equal));
}
