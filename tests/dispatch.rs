use replicators::error::ReplicationError;
use replicators::event::{
    BinlogEvent, ChecksumAlg, ChecksumInfo, EventBody, RowImages, RowsKind, GTID_EVENT,
    QUERY_EVENT, ROTATE_EVENT, TABLE_MAP_EVENT, UPDATE_ROWS_EVENT, WRITE_ROWS_EVENT,
    WRITE_ROWS_EVENT_V1, DELETE_ROWS_EVENT,
};
use replicators::position::{BinlogPosition, ReplicationOffset};
use replicators::relation::Relation;
use replicators::replica::{Outcome, ReplicationAction, Replicator, TableOperation};
use replicators::row::{BinlogCell, ColumnDescriptor, TableMap};
use replicators::session::{server_id, BinlogStream, DEFAULT_SERVER_ID};
use replicators::value::{DfValue, RawValue};

fn no_checksum() -> ChecksumInfo {
    ChecksumInfo { alg: ChecksumAlg::Absent, stored: None, computed: 0 }
}

fn event(event_type: u8, log_pos: u32, body: EventBody) -> BinlogEvent {
    BinlogEvent { event_type, log_pos, checksum: no_checksum(), body }
}

fn start() -> Replicator {
    Replicator::new(BinlogPosition { binlog_file: "host-bin.000123".to_string(), position: 4 })
}

fn table_map(id: u64) -> BinlogEvent {
    event(TABLE_MAP_EVENT, 200, EventBody::TableMap { table_id: id })
}

fn table_named(name: &str) -> TableMap {
    TableMap {
        schema: "db".to_string(),
        table: name.to_string(),
        columns: vec![
            ColumnDescriptor { kind: 3, meta: vec![] },
            ColumnDescriptor { kind: 15, meta: vec![0xff, 0] },
        ],
    }
}

fn cells(n: i64, s: &str) -> Vec<BinlogCell> {
    vec![BinlogCell::Value(RawValue::Int(n)), BinlogCell::Value(RawValue::Bytes(s.as_bytes().to_vec()))]
}

fn rows(kind: RowsKind, code: u8, id: u64, rows: Vec<RowImages>) -> BinlogEvent {
    event(code, 300, EventBody::Rows { kind, table_id: id, table: table_named("t"), rows })
}

fn row_is(v: &[DfValue], n: i64, s: &str) -> bool {
    v.len() == 2 && matches!(v[0], DfValue::Int(x) if x == n) && matches!(&v[1], DfValue::Text(t) if t == s)
}

#[test]
fn gtid_table_map_write_rows_yield_one_table_action() {
    let mut r = start();
    assert!(matches!(r.process_event(event(GTID_EVENT, 100, EventBody::Gtid { gno: 7 }), None), Ok(Outcome::Continue)));
    assert!(matches!(r.process_event(table_map(33), None), Ok(Outcome::Continue)));
    let write = rows(RowsKind::Write, WRITE_ROWS_EVENT, 33, vec![RowImages { before: None, after: Some(cells(1, "a")) }]);
    match r.process_event(write, None).unwrap() {
        Outcome::Emit(ReplicationAction::TableAction { table, actions, txid }, off) => {
            assert_eq!((table.schema.as_str(), table.name.as_str()), ("db", "t"));
            assert_eq!(txid, Some(7));
            assert_eq!(actions.len(), 1);
            assert!(matches!(&actions[0], TableOperation::Insert(v) if row_is(v, 1, "a")));
            assert_eq!(off.replication_log_name, "host-bin");
            assert_eq!(off.offset, (6u128 << 123) | (123u128 << 64) | 300);
        },
        other => panic!("unexpected {:?}", other),
    }
    assert_eq!(r.next_position.position, 300);
}

#[test]
fn rotate_yields_log_position() {
    let mut r = start();
    let ev = event(ROTATE_EVENT, 0, EventBody::Rotate { name: "host-bin.000124".to_string(), position: 4 });
    match r.process_event(ev, None).unwrap() {
        Outcome::Emit(ReplicationAction::LogPosition, off) => {
            assert_eq!(off.offset, (6u128 << 123) | (124u128 << 64) | 4)
        },
        other => panic!("unexpected {:?}", other),
    }
    assert_eq!(r.next_position.binlog_file, "host-bin.000124");
    assert_eq!(r.next_position.position, 4);
}

#[test]
fn rotate_position_must_fit_32_bits() {
    let mut r = start();
    let ev = event(ROTATE_EVENT, 0, EventBody::Rotate { name: "host-bin.000124".to_string(), position: 1 << 32 });
    assert!(matches!(r.process_event(ev, None), Err(ReplicationError::Protocol(_))));
}

#[test]
fn txid_follows_the_latest_gtid() {
    let mut r = start();
    r.process_event(table_map(1), None).unwrap();
    let write = |n| rows(RowsKind::Write, WRITE_ROWS_EVENT, 1, vec![RowImages { before: None, after: Some(cells(n, "x")) }]);
    let txid_of = |o: Outcome| match o {
        Outcome::Emit(ReplicationAction::TableAction { txid, .. }, _) => txid,
        other => panic!("unexpected {:?}", other),
    };
    assert_eq!(txid_of(r.process_event(write(1), None).unwrap()), None);
    r.process_event(event(GTID_EVENT, 400, EventBody::Gtid { gno: 10 }), None).unwrap();
    assert_eq!(txid_of(r.process_event(write(2), None).unwrap()), Some(10));
    r.process_event(event(QUERY_EVENT, 450, EventBody::Query { updated_db_names: vec![], query: "BEGIN".to_string() }), None).unwrap();
    assert_eq!(txid_of(r.process_event(write(3), None).unwrap()), Some(10));
    r.process_event(event(GTID_EVENT, 500, EventBody::Gtid { gno: 11 }), None).unwrap();
    assert_eq!(txid_of(r.process_event(write(4), None).unwrap()), Some(11));
}

#[test]
fn update_rows_fan_out_into_delete_then_insert() {
    let mut r = start();
    r.process_event(table_map(5), None).unwrap();
    let ev = rows(RowsKind::Update, UPDATE_ROWS_EVENT, 5, vec![
        RowImages { before: Some(cells(1, "a")), after: Some(cells(1, "b")) },
        RowImages { before: Some(cells(2, "c")), after: Some(cells(3, "d")) },
    ]);
    match r.process_event(ev, None).unwrap() {
        Outcome::Emit(ReplicationAction::TableAction { actions, .. }, _) => {
            assert_eq!(actions.len(), 4);
            assert!(matches!(&actions[0], TableOperation::DeleteRow(v) if row_is(v, 1, "a")));
            assert!(matches!(&actions[1], TableOperation::Insert(v) if row_is(v, 1, "b")));
            assert!(matches!(&actions[2], TableOperation::DeleteRow(v) if row_is(v, 2, "c")));
            assert!(matches!(&actions[3], TableOperation::Insert(v) if row_is(v, 3, "d")));
        },
        other => panic!("unexpected {:?}", other),
    }
}

#[test]
fn delete_rows_use_the_before_image() {
    let mut r = start();
    r.process_event(table_map(5), None).unwrap();
    let ev = rows(RowsKind::Delete, DELETE_ROWS_EVENT, 5, vec![RowImages { before: Some(cells(9, "z")), after: None }]);
    match r.process_event(ev, None).unwrap() {
        Outcome::Emit(ReplicationAction::TableAction { actions, .. }, _) => {
            assert_eq!(actions.len(), 1);
            assert!(matches!(&actions[0], TableOperation::DeleteRow(v) if row_is(v, 9, "z")));
        },
        other => panic!("unexpected {:?}", other),
    }
}

#[test]
fn missing_images_are_protocol_errors() {
    let mut r = start();
    r.process_event(table_map(5), None).unwrap();
    let ev = rows(RowsKind::Write, WRITE_ROWS_EVENT, 5, vec![RowImages { before: Some(cells(1, "a")), after: None }]);
    assert!(matches!(r.process_event(ev, None), Err(ReplicationError::Protocol(_))));
    let ev = rows(RowsKind::Update, UPDATE_ROWS_EVENT, 5, vec![RowImages { before: Some(cells(1, "a")), after: None }]);
    assert!(matches!(r.process_event(ev, None), Err(ReplicationError::Protocol(_))));
}

#[test]
fn table_action_names_the_table_of_the_event() {
    let mut r = start();
    let ev = event(WRITE_ROWS_EVENT, 300, EventBody::Rows {
        kind: RowsKind::Write,
        table_id: 5,
        table: table_named("u"),
        rows: vec![RowImages { before: None, after: Some(cells(1, "a")) }],
    });
    match r.process_event(ev, None).unwrap() {
        Outcome::Emit(ReplicationAction::TableAction { table, .. }, _) => assert_eq!(table.name, "u"),
        other => panic!("unexpected {:?}", other),
    }
}

#[test]
fn legacy_rows_events_are_unsupported() {
    let mut r = start();
    let ev = event(WRITE_ROWS_EVENT_V1, 10, EventBody::LegacyRows);
    assert!(matches!(r.process_event(ev, None), Err(ReplicationError::UnsupportedEvent(WRITE_ROWS_EVENT_V1))));
}

#[test]
fn checksum_mismatch_is_fatal() {
    let mut r = start();
    let mut ev = event(GTID_EVENT, 100, EventBody::Gtid { gno: 3 });
    ev.checksum = ChecksumInfo { alg: ChecksumAlg::Crc32, stored: Some(1), computed: 2 };
    assert!(matches!(
        r.process_event(ev, None),
        Err(ReplicationError::ChecksumMismatch { stored: 1, computed: 2 })
    ));
    assert_eq!(r.current_gtid, None);
    assert_eq!(r.next_position.position, 4);
    let mut ev = event(GTID_EVENT, 100, EventBody::Gtid { gno: 3 });
    ev.checksum = ChecksumInfo { alg: ChecksumAlg::Crc32, stored: None, computed: 2 };
    assert!(matches!(r.process_event(ev, None), Err(ReplicationError::ChecksumMismatch { .. })));
}

#[test]
fn matching_or_absent_checksums_pass() {
    let mut r = start();
    for alg in [ChecksumAlg::Crc32, ChecksumAlg::Off, ChecksumAlg::Absent, ChecksumAlg::Unknown(9)] {
        let mut ev = event(GTID_EVENT, 100, EventBody::Gtid { gno: 3 });
        ev.checksum = ChecksumInfo { alg, stored: Some(5), computed: if alg == ChecksumAlg::Crc32 { 5 } else { 6 } };
        assert!(matches!(r.process_event(ev, None), Ok(Outcome::Continue)));
    }
}

#[test]
fn failed_ddl_is_counted_and_skipped() {
    let mut r = start();
    let q = event(QUERY_EVENT, 150, EventBody::Query { updated_db_names: vec!["db".to_string(), "db2".to_string()], query: "CREATE TABLE ???".to_string() });
    let (schema, query) = match r.process_event(q, None).unwrap() {
        Outcome::ParseDdl { schema, query } => (schema, query),
        other => panic!("unexpected {:?}", other),
    };
    assert_eq!(schema, "db");
    assert_eq!(query, "CREATE TABLE ???");
    assert!(matches!(r.finish_ddl(schema, None, None), Ok(Outcome::Continue)));
    assert_eq!(r.ddl_failures, 1);
    r.process_event(table_map(2), None).unwrap();
    let write = rows(RowsKind::Write, WRITE_ROWS_EVENT, 2, vec![RowImages { before: None, after: Some(cells(1, "a")) }]);
    assert!(matches!(r.process_event(write, None), Ok(Outcome::Emit(ReplicationAction::TableAction { .. }, _))));
}

#[test]
fn parsed_ddl_is_emitted() {
    let mut r = start();
    match r.finish_ddl("db".to_string(), Some(vec!["CREATE TABLE t (x INT)".to_string()]), None).unwrap() {
        Outcome::Emit(ReplicationAction::DdlChange { schema, changes }, _) => {
            assert_eq!(schema, "db");
            assert_eq!(changes, vec!["CREATE TABLE t (x INT)".to_string()]);
        },
        other => panic!("unexpected {:?}", other),
    }
    assert_eq!(r.ddl_failures, 0);
}

#[test]
fn until_bound_surfaces_progress() {
    let mut r = start();
    let limit = ReplicationOffset::try_from(&BinlogPosition { binlog_file: "host-bin.000123".to_string(), position: 150 }).unwrap();
    assert!(matches!(r.process_event(event(GTID_EVENT, 100, EventBody::Gtid { gno: 1 }), Some(&limit)), Ok(Outcome::Continue)));
    match r.process_event(event(GTID_EVENT, 150, EventBody::Gtid { gno: 2 }), Some(&limit)).unwrap() {
        Outcome::Emit(ReplicationAction::LogPosition, off) => assert_eq!(off.offset, limit.offset),
        other => panic!("unexpected {:?}", other),
    }
    assert!(matches!(r.process_event(event(99, 160, EventBody::Other), Some(&limit)), Ok(Outcome::Emit(ReplicationAction::LogPosition, _))));
    let other_family = ReplicationOffset::try_from(&BinlogPosition { binlog_file: "other.000001".to_string(), position: 0 }).unwrap();
    assert!(matches!(r.process_event(event(99, 170, EventBody::Other), Some(&other_family)), Ok(Outcome::Continue)));
}

#[test]
fn unparsable_position_fails_on_emit() {
    let mut r = Replicator::new(BinlogPosition { binlog_file: "nodot".to_string(), position: 0 });
    let ev = event(ROTATE_EVENT, 0, EventBody::Rotate { name: "bad".to_string(), position: 4 });
    assert!(matches!(r.process_event(ev, None), Err(ReplicationError::InvalidBinlogName(_))));
}

#[test]
fn stream_rejects_non_event_packets() {
    let mut s = BinlogStream::new(BinlogPosition { binlog_file: "b.000001".to_string(), position: 4 });
    assert!(matches!(s.next_packet(&[0xfe, 0, 0], None), Err(ReplicationError::Protocol(_))));
    assert!(matches!(s.next_packet(&[], None), Err(ReplicationError::Protocol(_))));
    assert!(matches!(s.next_packet(&[0, 1, 2, 3], None), Err(ReplicationError::Protocol(_))));
}

#[test]
fn default_server_id() {
    assert_eq!(server_id(None), u32::MAX - 55);
    assert_eq!(server_id(None), DEFAULT_SERVER_ID);
    assert_eq!(server_id(Some(12)), 12);
}

#[test]
fn relation_kind_and_name() {
    let t = Relation::Table("users".to_string());
    let v = Relation::View("recent".to_string());
    assert_eq!((t.kind(), t.name()), ("TABLE", "users"));
    assert_eq!((v.kind(), v.name()), ("VIEW", "recent"));
}

#[test]
fn emitted_offsets_never_decrease() {
    let mut r = start();
    r.process_event(table_map(1), None).unwrap();
    let mut seen: Vec<u128> = Vec::new();
    let mut log_pos = 400;
    for n in 0..3 {
        log_pos += 50;
        let mut ev = rows(RowsKind::Write, WRITE_ROWS_EVENT, 1, vec![RowImages { before: None, after: Some(cells(n, "v")) }]);
        ev.log_pos = log_pos;
        if let Outcome::Emit(_, off) = r.process_event(ev, None).unwrap() {
            seen.push(off.offset);
        }
    }
    let rotate = event(ROTATE_EVENT, 0, EventBody::Rotate { name: "host-bin.000124".to_string(), position: 4 });
    if let Outcome::Emit(_, off) = r.process_event(rotate, None).unwrap() {
        seen.push(off.offset);
    }
    r.process_event(table_map(1), None).unwrap();
    let mut ev = rows(RowsKind::Write, WRITE_ROWS_EVENT, 1, vec![RowImages { before: None, after: Some(cells(7, "w")) }]);
    ev.log_pos = 120;
    if let Outcome::Emit(_, off) = r.process_event(ev, None).unwrap() {
        seen.push(off.offset);
    }
    assert_eq!(seen.len(), 5);
    assert!(seen.windows(2).all(|w| w[0] <= w[1]));
}
