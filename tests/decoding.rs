use replicators::decode::EventReader;
use replicators::error::ReplicationError;
use replicators::event::{ChecksumAlg, EventBody, ROTATE_EVENT, WRITE_ROWS_EVENT};
use replicators::position::BinlogPosition;
use replicators::replica::{Outcome, ReplicationAction};
use replicators::session::BinlogStream;

/// A binlog dump packet: status byte `0`, then a v4 event with the given type and body.
fn packet(event_type: u8, log_pos: u32, body: &[u8]) -> Vec<u8> {
    let size = (19 + body.len()) as u32;
    let mut p = vec![0u8];
    p.extend_from_slice(&1_700_000_000u32.to_le_bytes());
    p.push(event_type);
    p.extend_from_slice(&1u32.to_le_bytes());
    p.extend_from_slice(&size.to_le_bytes());
    p.extend_from_slice(&log_pos.to_le_bytes());
    p.extend_from_slice(&0u16.to_le_bytes());
    p.extend_from_slice(body);
    p
}

fn rotate_body(position: u64, name: &str) -> Vec<u8> {
    let mut b = position.to_le_bytes().to_vec();
    b.extend_from_slice(name.as_bytes());
    b
}

#[test]
fn decodes_a_rotate_event() {
    let mut reader = EventReader::new();
    let ev = reader.decode(&packet(ROTATE_EVENT, 0, &rotate_body(4, "host-bin.000124"))).unwrap();
    assert_eq!(ev.event_type, ROTATE_EVENT);
    assert_eq!(ev.log_pos, 0);
    assert_ne!(ev.checksum.alg, ChecksumAlg::Crc32);
    match ev.body {
        EventBody::Rotate { name, position } => {
            assert_eq!(name, "host-bin.000124");
            assert_eq!(position, 4);
        },
        other => panic!("unexpected {:?}", other),
    }
}

#[test]
fn stream_turns_a_rotate_packet_into_log_position() {
    let mut s = BinlogStream::new(BinlogPosition { binlog_file: "host-bin.000123".to_string(), position: 4 });
    match s.next_packet(&packet(ROTATE_EVENT, 0, &rotate_body(4, "host-bin.000124")), None).unwrap() {
        Outcome::Emit(ReplicationAction::LogPosition, off) => {
            assert_eq!(off.replication_log_name, "host-bin");
            assert_eq!(off.offset, (6u128 << 123) | (124u128 << 64) | 4);
        },
        other => panic!("unexpected {:?}", other),
    }
    assert_eq!(s.state.next_position.binlog_file, "host-bin.000124");
}

#[test]
fn unknown_event_types_are_passed_over() {
    let mut s = BinlogStream::new(BinlogPosition { binlog_file: "host-bin.000123".to_string(), position: 4 });
    let r = s.next_packet(&packet(27, 777, &[1, 2, 3, 4, 5]), None).unwrap();
    assert!(matches!(r, Outcome::Continue));
    assert_eq!(s.state.next_position.position, 777);
}

#[test]
fn truncated_events_are_refused() {
    let mut reader = EventReader::new();
    let mut p = packet(ROTATE_EVENT, 0, &rotate_body(4, "host-bin.000124"));
    p.truncate(p.len() - 3);
    assert!(matches!(reader.decode(&p), Err(ReplicationError::Protocol(_))));
    assert!(matches!(reader.decode(&[0u8; 10]), Err(ReplicationError::Protocol(_))));
    assert!(matches!(reader.decode(&[1u8; 40]), Err(ReplicationError::Protocol(_))));
}

/// A `WRITE_ROWS_EVENT` body: table id, flags, an empty extra-data block, then `rest`
/// (column count, column bitmap and rows).
fn write_rows_body(table_id: u64, rest: &[u8]) -> Vec<u8> {
    let mut b = table_id.to_le_bytes()[..6].to_vec();
    b.extend_from_slice(&[0, 0, 2, 0]);
    b.extend_from_slice(rest);
    b
}

fn protocol_message(r: Result<replicators::event::BinlogEvent, ReplicationError>) -> String {
    match r {
        Err(ReplicationError::Protocol(m)) => m,
        other => panic!("expected a protocol error, got {:?}", other),
    }
}

#[test]
fn rows_event_for_an_unknown_table_is_refused() {
    let mut reader = EventReader::new();
    let p = packet(WRITE_ROWS_EVENT, 500, &write_rows_body(99, &[1, 0b1, 0, 7]));
    assert_eq!(protocol_message(reader.decode(&p)), "rows event for an unknown table id");
}

#[test]
fn rows_event_without_columns_is_refused() {
    let mut reader = EventReader::new();
    let p = packet(WRITE_ROWS_EVENT, 500, &write_rows_body(99, &[0, 1, 2, 3, 4]));
    assert_eq!(protocol_message(reader.decode(&p)), "malformed rows event header");
}

#[test]
fn rows_event_whose_bitmap_names_no_column_is_refused() {
    let mut reader = EventReader::new();
    let p = packet(WRITE_ROWS_EVENT, 500, &write_rows_body(99, &[3, 0b1111_1000, 0, 1, 2]));
    assert_eq!(protocol_message(reader.decode(&p)), "malformed rows event header");
}

#[test]
fn rows_event_with_a_huge_column_count_is_refused() {
    let mut reader = EventReader::new();
    let mut rest = vec![0xfe];
    rest.extend_from_slice(&u64::MAX.to_le_bytes());
    rest.extend_from_slice(&[0xff; 8]);
    let p = packet(WRITE_ROWS_EVENT, 500, &write_rows_body(99, &rest));
    assert_eq!(protocol_message(reader.decode(&p)), "malformed rows event header");
}
