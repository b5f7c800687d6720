use vstd::prelude::*;

use mysql_common::binlog::consts::{BinlogChecksumAlg, BinlogVersion, EventType, StatusVarKey};
use mysql_common::binlog::events::{
    Event, EventData, GtidEvent, QueryEvent, RotateEvent, StatusVar, StatusVarVal, TableMapEvent,
};
use mysql_common::binlog::jsonb::JsonbToJsonError;
use mysql_common::binlog::row::BinlogRow;
use mysql_common::binlog::value::BinlogValue;
use mysql_common::binlog::EventStreamReader;
use mysql_common::value::Value;

use crate::error::{class_of, protocol_error, ErrorClass, ReplicationError};
use crate::event::{
    checksum_ok, event_kind, kind_of, validate_event_checksum, BinlogEvent, ChecksumAlg,
    ChecksumInfo, EventBody, EventKind, RowImages, RowsKind,
};
use crate::row::{BinlogCell, ColumnDescriptor, JsonText, TableMap};
use crate::value::RawValue;

verus! {

#[verifier::external_type_specification]
#[verifier::external_body]
pub struct ExEventStreamReader(EventStreamReader);

#[verifier::external_type_specification]
#[verifier::external_body]
pub struct ExEvent(Event);

#[verifier::external_type_specification]
#[verifier::external_body]
pub struct ExTableMapEvent<'a>(TableMapEvent<'a>);

#[verifier::external_type_specification]
#[verifier::external_body]
pub struct ExBinlogRow(BinlogRow);

#[verifier::external_type_specification]
#[verifier::external_body]
pub struct ExValue(Value);

/// Length of a binlog (v4) event header.
pub const EVENT_HEADER_LEN: usize = 19;

/// Length of a CRC32 checksum footer.
pub const CHECKSUM_LEN: u32 = 4;

/// The `event_size` field of the event header that follows the status byte of `packet`
/// (bytes 9 to 12 of the header, little-endian).
pub open spec fn event_size_field(packet: Seq<u8>) -> nat {
    packet[10] as nat + packet[11] as nat * 0x100 + packet[12] as nat * 0x1_0000 + packet[13] as nat
        * 0x100_0000
}

/// The packet holds a whole event after its status byte: a full header, and at least as
/// many bytes as the header's `event_size` says, which covers the header and a checksum.
pub open spec fn frame_complete(packet: Seq<u8>) -> bool {
    &&& packet.len() >= 1 + EVENT_HEADER_LEN
    &&& event_size_field(packet) >= EVENT_HEADER_LEN + CHECKSUM_LEN
    &&& event_size_field(packet) <= packet.len() - 1
}

/// The table ids that a reader holds table maps for.
pub uninterp spec fn known_tables(reader: EventStreamReader) -> Set<u64>;

/// Relies on `EventStreamReader::new`: a reader for binlog version 4 with an empty
/// table-map cache.
#[verifier::external_body]
fn new_stream_reader() -> (r: EventStreamReader)
    ensures
        known_tables(r) == Set::<u64>::empty(),
{
    EventStreamReader::new(BinlogVersion::Version4)
}

/// An event read from a dump packet, together with that packet, the event's type code
/// and `log_pos`, and the post-header lengths (of this event's type, and of
/// `WRITE_ROWS_EVENT`) in the format description it was read with. Only `read_frame`
/// makes one, so its fields always belong to one event.
struct Frame {
    event: Event,
    packet: Vec<u8>,
    event_type: u8,
    log_pos: u32,
    rows_header_len: Option<u8>,
    write_rows_header_len: u8,
}

/// Relies on `EventStreamReader::read`: parses the event that follows the status byte and,
/// for a table-map event, records it in the reader's table-map cache. The reader reads
/// `event_size` bytes without checking that they are there, and cuts a checksum off the
/// end, so the frame must be complete. The header fields come from `Event::header`, the
/// post-header lengths from `FormatDescriptionEvent::get_event_type_header_length`.
///
/// `Event::read` cannot fail on a complete frame: the header (type code at byte 4,
/// `log_pos` at bytes 13 to 16, little-endian) is read without checks, and only a
/// format description (code 15) or a table map (code 19) has its body parsed by the
/// reader. Only a table map changes the reader's table maps.
#[verifier::external_body]
fn read_frame(reader: &mut EventStreamReader, packet: &[u8]) -> (r: Result<Frame, String>)
    requires
        frame_complete(packet@),
    ensures
        r matches Ok(f) ==> {
            &&& f.packet@ == packet@
            &&& f.event_type == packet@[5]
            &&& f.log_pos == le_value(packet@, 14, 4)
        },
        packet@[5] != 15 && packet@[5] != 19 ==> r is Ok,
        packet@[5] != 19 ==> known_tables(*final(reader)) == known_tables(*old(reader)),
{
    let event = reader.read(&packet[1..]).map_err(|e| e.to_string())?;
    let (header, fde) = (event.header(), event.fde());
    let rows_header_len = match header.event_type() {
        Ok(t) => Some(fde.get_event_type_header_length(t)),
        Err(_) => None,
    };
    let write_rows_header_len = fde.get_event_type_header_length(EventType::WRITE_ROWS_EVENT);
    let (event_type, log_pos) = (header.event_type_raw(), header.log_pos());
    Ok(Frame { event, packet: packet.to_vec(), event_type, log_pos, rows_header_len, write_rows_header_len })
}

/// Relies on `BinlogEventFooter::get_checksum_alg`: the algorithm the footer names.
#[verifier::external_body]
fn checksum_alg(ev: &Event) -> ChecksumAlg {
    match ev.footer().get_checksum_alg() {
        Ok(None) => ChecksumAlg::Absent,
        Ok(Some(BinlogChecksumAlg::BINLOG_CHECKSUM_ALG_OFF)) => ChecksumAlg::Off,
        Ok(Some(BinlogChecksumAlg::BINLOG_CHECKSUM_ALG_CRC32)) => ChecksumAlg::Crc32,
        Err(e) => ChecksumAlg::Unknown(e.0),
    }
}

/// Relies on `Event::checksum`: the checksum stored at the end of the event, if any.
#[verifier::external_body]
fn stored_checksum(ev: &Event) -> Option<u32> {
    ev.checksum().map(u32::from_le_bytes)
}

/// Relies on `Event::calc_checksum`: the CRC32 of the event's bytes.
#[verifier::external_body]
fn computed_checksum(ev: &Event) -> u32 {
    ev.calc_checksum(BinlogChecksumAlg::BINLOG_CHECKSUM_ALG_CRC32)
}

/// Relies on `Event::read_event` for a `RotateEvent`: the new file name and position; the
/// position is the little-endian `u64` that starts the body.
#[verifier::external_body]
fn read_rotate(f: &Frame) -> (r: Result<(String, u64), String>)
    ensures
        r matches Ok((_, p)) ==> p == le_value(f.packet@, BODY_START as int, 8),
{
    match f.event.read_event::<RotateEvent>() {
        Ok(r) => Ok((r.name().into_owned(), r.position())),
        Err(e) => Err(e.to_string()),
    }
}

/// The `UPDATED_DB_NAMES` status variable of a query event.
enum UpdatedDbs {
    Absent,
    Names(Vec<String>),
    Unreadable,
}

/// Relies on `Event::read_event` for a `QueryEvent`: its `UPDATED_DB_NAMES` status variable
/// (through `StatusVars::get_status_var` and `StatusVar::get_value`) and the statement text.
#[verifier::external_body]
fn read_query(ev: &Event) -> Result<(UpdatedDbs, String), String> {
    let q = match ev.read_event::<QueryEvent>() {
        Ok(q) => q,
        Err(e) => return Err(e.to_string()),
    };
    let var = q.status_vars().get_status_var(StatusVarKey::UpdatedDbNames);
    let names = match var.as_ref().map(StatusVar::get_value) {
        None => UpdatedDbs::Absent,
        Some(Ok(StatusVarVal::UpdatedDbNames(names))) => {
            UpdatedDbs::Names(names.iter().map(|n| n.as_str().into_owned()).collect())
        },
        Some(_) => UpdatedDbs::Unreadable,
    };
    Ok((names, q.query().into_owned()))
}

/// Relies on `Event::read_event` for a `GtidEvent`: its group number, the little-endian
/// `u64` after the one-byte flags and the 16-byte source id.
#[verifier::external_body]
fn read_gtid(f: &Frame) -> (r: Result<u64, String>)
    ensures
        r matches Ok(gno) ==> gno == le_value(f.packet@, BODY_START + 17, 8),
{
    match f.event.read_event::<GtidEvent>() {
        Ok(g) => Ok(g.gno()),
        Err(e) => Err(e.to_string()),
    }
}

/// Relies on `Event::read_event` for a `TableMapEvent`.
#[verifier::external_body]
fn read_table_map(ev: &Event) -> Result<TableMapEvent<'static>, String> {
    match ev.read_event::<TableMapEvent>() {
        Ok(t) => Ok(t.into_owned()),
        Err(e) => Err(e.to_string()),
    }
}

/// Relies on `TableMapEvent::table_id`.
#[verifier::external_body]
fn table_map_id(t: &TableMapEvent<'static>) -> u64 {
    t.table_id()
}

/// Relies on `TableMapEvent::database_name` and `table_name`.
#[verifier::external_body]
fn table_map_names(t: &TableMapEvent<'static>) -> (String, String) {
    (t.database_name().into_owned(), t.table_name().into_owned())
}

/// Relies on `TableMapEvent::columns_count`.
#[verifier::external_body]
fn table_map_width(t: &TableMapEvent<'static>) -> u64 {
    t.columns_count()
}

/// Relies on `TableMapEvent::get_column_type` and `get_column_metadata`: the type code
/// and metadata of column `idx`, `None` where either cannot be read.
#[verifier::external_body]
fn table_map_column(t: &TableMapEvent<'static>, idx: usize) -> Option<(u8, Vec<u8>)> {
    match (t.get_column_type(idx), t.get_column_metadata(idx)) {
        (Ok(Some(kind)), Some(meta)) => Some((kind as u8, meta.to_vec())),
        _ => None,
    }
}

/// Relies on `Event::read_data` and `RowsEventData::table_id`. Parsing the rows event adds
/// 7 to its column count and slices its column bitmaps to that count, so the layout must
/// have been checked.
#[verifier::external_body]
fn rows_table_id(f: &Frame) -> Result<u64, String>
    requires
        rows_layout_ok(f.packet@, f.event_type, f.rows_header_len, f.write_rows_header_len),
{
    match f.event.read_data() {
        Ok(Some(EventData::RowsEvent(r))) => Ok(r.table_id()),
        Ok(_) => Err("not a rows event".to_string()),
        Err(e) => Err(e.to_string()),
    }
}

/// Relies on `EventStreamReader::get_tme`: the table map the reader holds for `id`.
#[verifier::external_body]
fn reader_table<'a>(reader: &'a EventStreamReader, id: u64) -> (r: Option<&'a TableMapEvent<'static>>)
    ensures
        r is Some <==> known_tables(*reader).contains(id),
{
    reader.get_tme(id)
}

/// Relies on `Event::read_data` and `RowsEventData::rows`: the before and after images of
/// every row, decoded with the column types of `t`, or the first decoding error. Each row
/// image is read past a null bitmap of one byte per eight columns the image holds; with
/// the layout checked every image holds a column, so each row consumes bytes and the
/// iteration ends.
#[verifier::external_body]
fn row_images(f: &Frame, t: &TableMapEvent<'static>) -> Result<
    Vec<(Option<BinlogRow>, Option<BinlogRow>)>,
    String,
>
    requires
        rows_layout_ok(f.packet@, f.event_type, f.rows_header_len, f.write_rows_header_len),
{
    match f.event.read_data() {
        Ok(Some(EventData::RowsEvent(r))) => {
            r.rows(t).collect::<Result<Vec<_>, _>>().map_err(|e| e.to_string())
        },
        Ok(_) => Err("not a rows event".to_string()),
        Err(e) => Err(e.to_string()),
    }
}

/// Relies on `BinlogRow::len`.
#[verifier::external_body]
fn row_width(row: &BinlogRow) -> usize {
    row.len()
}

/// Relies on `BinlogRow::as_ref`: the plain value in column `idx`, if that is what it holds.
#[verifier::external_body]
fn cell_value(row: &BinlogRow, idx: usize) -> Option<Value> {
    match row.as_ref(idx) {
        Some(BinlogValue::Value(v)) => Some(v.clone()),
        _ => None,
    }
}

/// Relies on `BinlogRow::as_ref` and on the JSONB-to-JSON conversion of
/// `mysql_common::binlog::jsonb`: the JSON text of a JSONB cell in column `idx`; an opaque
/// value gives its payload bytes, which are already serialized JSON.
#[verifier::external_body]
fn cell_json(row: &BinlogRow, idx: usize) -> Option<JsonText> {
    let j = match row.as_ref(idx) {
        Some(BinlogValue::Jsonb(j)) => j,
        _ => return None,
    };
    Some(match serde_json::Value::try_from(j.clone()) {
        Ok(v) => JsonText::Rendered(v.to_string()),
        Err(JsonbToJsonError::Opaque) => match j {
            mysql_common::binlog::jsonb::Value::Opaque(o) => JsonText::Opaque(o.data_raw().to_vec()),
            _ => JsonText::Invalid("opaque value inside a JSONB document".to_string()),
        },
        Err(e) => JsonText::Invalid(e.to_string()),
    })
}

/// Relies on the variants of `mysql_common::value::Value`: `NULL`, bytes and integers.
#[verifier::external_body]
fn scalar_value(v: &Value) -> Option<RawValue> {
    match v {
        Value::NULL => Some(RawValue::Null),
        Value::Bytes(b) => Some(RawValue::Bytes(b.clone())),
        Value::Int(i) => Some(RawValue::Int(*i)),
        Value::UInt(u) => Some(RawValue::UInt(*u)),
        _ => None,
    }
}

/// Relies on the variants of `mysql_common::value::Value`: floating-point numbers, by bits.
#[verifier::external_body]
fn float_value(v: &Value) -> Option<RawValue> {
    match v {
        Value::Float(x) => Some(RawValue::Float(x.to_bits())),
        Value::Double(x) => Some(RawValue::Double(x.to_bits())),
        _ => None,
    }
}

/// Relies on the variants of `mysql_common::value::Value`: dates and times.
#[verifier::external_body]
fn temporal_value(v: &Value) -> Option<RawValue> {
    match *v {
        Value::Date(year, month, day, hour, minute, second, micros) => {
            Some(RawValue::Date { year, month, day, hour, minute, second, micros })
        },
        Value::Time(negative, days, hours, minutes, seconds, micros) => {
            Some(RawValue::Time { negative, days, hours, minutes, seconds, micros })
        },
        _ => None,
    }
}

/// The library's form of a plain column value.
fn raw_value(v: &Value) -> RawValue {
    match scalar_value(v) {
        Some(x) => x,
        None => match float_value(v) {
            Some(x) => x,
            None => match temporal_value(v) {
                Some(x) => x,
                None => RawValue::Null,
            },
        },
    }
}

/// The cells of one row image.
fn row_cells(row: &BinlogRow) -> Vec<BinlogCell> {
    let n = row_width(row);
    let mut cells: Vec<BinlogCell> = Vec::new();
    let mut idx: usize = 0;
    while idx < n
        invariant
            idx <= n,
        decreases n - idx,
    {
        let cell = match cell_value(row, idx) {
            Some(v) => BinlogCell::Value(raw_value(&v)),
            None => match cell_json(row, idx) {
                Some(j) => BinlogCell::Jsonb(j),
                None => BinlogCell::Other,
            },
        };
        cells.push(cell);
        idx = idx + 1;
    }
    cells
}

fn image_cells(img: &Option<BinlogRow>) -> Option<Vec<BinlogCell>> {
    match img {
        Some(row) => Some(row_cells(row)),
        None => None,
    }
}

/// The names of the updated databases; a variable that cannot be read names none.
fn updated_names(dbs: UpdatedDbs) -> Vec<String> {
    match dbs {
        UpdatedDbs::Names(names) => names,
        UpdatedDbs::Absent => Vec::new(),
        UpdatedDbs::Unreadable => Vec::new(),
    }
}

/// Index of the first body byte of the event in a dump packet: after the status byte and
/// the event header.
pub const BODY_START: usize = 20;

/// The little-endian number in the `k` bytes of `b` from index `p`.
pub open spec fn le_value(b: Seq<u8>, p: int, k: nat) -> nat
    decreases k,
{
    if k == 0 {
        0
    } else {
        b[p] as nat + 256 * le_value(b, p + 1, (k - 1) as nat)
    }
}

/// The length-encoded integer at index `p` of `b`, and the index after it.
pub open spec fn lenenc_at(b: Seq<u8>, p: int) -> Option<(nat, int)> {
    if p < 0 || p >= b.len() {
        None
    } else if b[p] <= 0xfa {
        Some((b[p] as nat, p + 1))
    } else if b[p] == 0xfc {
        if p + 3 <= b.len() {
            Some((le_value(b, p + 1, 2), p + 3))
        } else {
            None
        }
    } else if b[p] == 0xfd {
        if p + 4 <= b.len() {
            Some((le_value(b, p + 1, 3), p + 4))
        } else {
            None
        }
    } else if b[p] == 0xfe {
        if p + 9 <= b.len() {
            Some((le_value(b, p + 1, 8), p + 9))
        } else {
            None
        }
    } else {
        Some((0, p + 1))
    }
}

/// Where the column count of a rows event starts in its packet: after the table id (4
/// bytes for a post-header of 6, else 6), the flags (2), and, where the post-header is as
/// long as `WRITE_ROWS_EVENT`'s, the extra data that its 2-byte length covers.
pub open spec fn column_count_at(b: Seq<u8>, post_len: u8, write_len: u8) -> Option<int> {
    let p1 = BODY_START + (if post_len == 6 {
        4int
    } else {
        6int
    }) + 2;
    if post_len == write_len {
        if p1 + 2 <= b.len() {
            let x = le_value(b, p1, 2);
            Some(p1 + 2 + if x >= 2 {
                x - 2
            } else {
                0
            })
        } else {
            None
        }
    } else {
        Some(p1)
    }
}

pub open spec fn two_pow(k: nat) -> nat
    decreases k,
{
    if k == 0 {
        1
    } else {
        2 * two_pow((k - 1) as nat)
    }
}

/// One of the first `n` bits of the bitmap `bm` (least significant bit first) is set.
pub open spec fn names_a_column(bm: Seq<u8>, n: nat) -> bool {
    (exists|j: int| 0 <= j < n / 8 && #[trigger] bm[j] != 0) || (n % 8 != 0 && (bm[(n
        / 8) as int] as nat) % two_pow(n % 8) != 0)
}

/// How many column bitmaps a rows event of kind `kind` carries.
pub open spec fn image_count(kind: RowsKind) -> nat {
    match kind {
        RowsKind::Update => 2,
        _ => 1,
    }
}

/// A rows event whose header the row decoder can take: its column count plus 7 fits a
/// `usize`, its column bitmaps lie in the packet, and each names at least one column.
pub open spec fn rows_layout_ok(
    packet: Seq<u8>,
    event_type: u8,
    rows_header_len: Option<u8>,
    write_len: u8,
) -> bool {
    match (kind_of(event_type), rows_header_len) {
        (EventKind::Rows(kind), Some(post)) => match column_count_at(packet, post, write_len) {
            Some(p2) => match lenenc_at(packet, p2) {
                Some((n, p3)) => {
                    let bl = (n + 7) / 8;
                    &&& n + 7 <= usize::MAX
                    &&& p3 + image_count(kind) * bl <= packet.len()
                    &&& names_a_column(packet.subrange(p3, p3 + bl), n)
                    &&& (kind == RowsKind::Update ==> names_a_column(
                        packet.subrange(p3 + bl, p3 + 2 * bl),
                        n,
                    ))
                },
                None => false,
            },
            None => false,
        },
        _ => false,
    }
}

fn le2(b: &[u8], p: usize) -> (r: u64)
    requires
        p + 2 <= b@.len(),
    ensures
        r == le_value(b@, p as int, 2),
        r < 0x1_0000,
{
    reveal_with_fuel(le_value, 3);
    b[p] as u64 + b[p + 1] as u64 * 0x100
}

fn le3(b: &[u8], p: usize) -> (r: u64)
    requires
        p + 3 <= b@.len(),
    ensures
        r == le_value(b@, p as int, 3),
{
    reveal_with_fuel(le_value, 4);
    b[p] as u64 + b[p + 1] as u64 * 0x100 + b[p + 2] as u64 * 0x1_0000
}

fn le8(b: &[u8], p: usize) -> (r: u64)
    requires
        p + 8 <= b@.len(),
    ensures
        r == le_value(b@, p as int, 8),
{
    reveal_with_fuel(le_value, 9);
    b[p] as u64 + b[p + 1] as u64 * 0x100 + b[p + 2] as u64 * 0x1_0000 + b[p + 3] as u64
        * 0x100_0000 + b[p + 4] as u64 * 0x1_0000_0000 + b[p + 5] as u64 * 0x100_0000_0000
        + b[p + 6] as u64 * 0x1_0000_0000_0000 + b[p + 7] as u64 * 0x100_0000_0000_0000
}

fn pow_of_two(k: u64) -> (r: u64)
    requires
        k < 8,
    ensures
        r == two_pow(k as nat),
        r >= 1,
{
    reveal_with_fuel(two_pow, 8);
    if k == 0 {
        1
    } else if k == 1 {
        2
    } else if k == 2 {
        4
    } else if k == 3 {
        8
    } else if k == 4 {
        16
    } else if k == 5 {
        32
    } else if k == 6 {
        64
    } else {
        128
    }
}

/// Whether one of the first `n` bits of the bitmap at `b[start..]` is set.
fn names_column(b: &[u8], start: usize, n: u64) -> (r: bool)
    requires
        start + (n + 7) / 8 <= b@.len(),
    ensures
        r == names_a_column(b@.subrange(start as int, start + (n + 7) / 8), n as nat),
{
    let ghost bm = b@.subrange(start as int, start + (n + 7) / 8);
    let blen = b.len();
    assert(n / 8 <= (n + 7) / 8) by (nonlinear_arith);
    assert(n / 8 <= blen);
    let full = (n / 8) as usize;
    let mut j: usize = 0;
    while j < full
        invariant
            j <= full,
            full == n / 8,
            blen == b@.len(),
            start + full <= b@.len(),
            start + (n + 7) / 8 <= b@.len(),
            bm == b@.subrange(start as int, start + (n + 7) / 8),
            forall|t: int| 0 <= t < j ==> bm[t] == 0,
        decreases full - j,
    {
        if b[start + j] != 0 {
            assert(bm[j as int] != 0);
            return true;
        }
        j = j + 1;
    }
    assert(!(exists|t: int| 0 <= t < n / 8 && #[trigger] bm[t] != 0));
    let rest = n % 8;
    if rest == 0 {
        return false;
    }
    assert(n / 8 < (n + 7) / 8) by (nonlinear_arith)
        requires
            n % 8 != 0,
    ;
    let last = b[start + full] as u64;
    assert(last == bm[(n / 8) as int]);
    last % pow_of_two(rest) != 0
}

/// The length-encoded integer at `b[p..]`, and the index after it.
fn read_lenenc(b: &[u8], p: usize) -> (r: Option<(u64, usize)>)
    ensures
        match r {
            Some((n, q)) => lenenc_at(b@, p as int) == Some((n as nat, q as int)),
            None => lenenc_at(b@, p as int) is None,
        },
{
    let len = b.len();
    if p >= len {
        return None;
    }
    let first = b[p];
    let room = len - p;
    if first <= 0xfa {
        Some((first as u64, p + 1))
    } else if first == 0xfc {
        if room < 3 {
            None
        } else {
            Some((le2(b, p + 1), p + 3))
        }
    } else if first == 0xfd {
        if room < 4 {
            None
        } else {
            Some((le3(b, p + 1), p + 4))
        }
    } else if first == 0xfe {
        if room < 9 {
            None
        } else {
            Some((le8(b, p + 1), p + 9))
        }
    } else {
        Some((0, p + 1))
    }
}

/// Where the column count of a rows event starts (see `column_count_at`).
fn find_column_count(b: &[u8], post: u8, write_len: u8) -> (r: Option<usize>)
    ensures
        match r {
            Some(p) => column_count_at(b@, post, write_len) == Some(p as int),
            None => column_count_at(b@, post, write_len) is None,
        },
{
    let p1: usize = BODY_START + (if post == 6 {
        4
    } else {
        6
    }) + 2;
    if post == write_len {
        if b.len() < p1 + 2 {
            return None;
        }
        let x = le2(b, p1);
        let extra: usize = if x >= 2 {
            (x - 2) as usize
        } else {
            0
        };
        Some(p1 + 2 + extra)
    } else {
        Some(p1)
    }
}

/// Checks a rows event's header against `rows_layout_ok`.
fn rows_layout_check(packet: &[u8], event_type: u8, rows_header_len: Option<u8>, write_len: u8) -> (r:
    bool)
    ensures
        r == rows_layout_ok(packet@, event_type, rows_header_len, write_len),
{
    let kind = match event_kind(event_type) {
        EventKind::Rows(k) => k,
        _ => return false,
    };
    let post = match rows_header_len {
        Some(p) => p,
        None => return false,
    };
    let p2 = match find_column_count(packet, post, write_len) {
        Some(p) => p,
        None => return false,
    };
    let (n, p3) = match read_lenenc(packet, p2) {
        Some(x) => x,
        None => return false,
    };
    let len = packet.len();
    if n as u128 + 7 > usize::MAX as u128 {
        return false;
    }
    let bl: u128 = (n as u128 + 7) / 8;
    let count: u128 = match kind {
        RowsKind::Update => 2,
        _ => 1,
    };
    if p3 as u128 + count * bl > len as u128 {
        return false;
    }
    if !names_column(packet, p3, n) {
        return false;
    }
    if count == 2 {
        let second = p3 + bl as usize;
        let r = names_column(packet, second, n);
        assert(packet@.subrange(second as int, second + (n + 7) / 8) =~= packet@.subrange(
            p3 + bl,
            p3 + 2 * bl,
        ));
        return r;
    }
    true
}

/// The schema, name and column types of a table map.
fn table_of(t: &TableMapEvent<'static>) -> (r: Result<TableMap, ReplicationError>)
    ensures
        r matches Err(e) ==> class_of(e) == ErrorClass::Protocol,
{
    let (schema, table) = table_map_names(t);
    let width = table_map_width(t);
    let mut columns: Vec<ColumnDescriptor> = Vec::new();
    let mut idx: u64 = 0;
    while idx < width
        invariant
            idx <= width,
        decreases width - idx,
    {
        if idx > usize::MAX as u64 {
            return Err(protocol_error("too many columns"));
        }
        match table_map_column(t, idx as usize) {
            Some((kind, meta)) => columns.push(ColumnDescriptor { kind, meta }),
            None => return Err(protocol_error("unable to get column type")),
        }
        idx = idx + 1;
    }
    Ok(TableMap { schema, table, columns })
}

/// The body kind that an event type code calls for.
pub open spec fn body_fits_kind(k: EventKind, body: EventBody) -> bool {
    match k {
        EventKind::Rotate => body is Rotate,
        EventKind::Query => body is Query,
        EventKind::TableMap => body is TableMap,
        EventKind::Rows(kind) => body matches EventBody::Rows { kind: k2, .. } && k2 == kind,
        EventKind::LegacyRows => body is LegacyRows,
        EventKind::Gtid => body is Gtid,
        EventKind::Other => body is Other,
    }
}

/// Reads binlog events out of the packets of a binlog dump: it keeps the format
/// description and the table maps seen so far, which later events are decoded with.
pub struct EventReader {
    reader: EventStreamReader,
}

impl EventReader {
    /// The table ids the reader holds table maps for.
    pub closed spec fn table_ids(&self) -> Set<u64> {
        known_tables(self.reader)
    }

    /// A reader that has seen no table map yet.
    pub fn new() -> (r: EventReader)
        ensures
            r.table_ids() == Set::<u64>::empty(),
    {
        EventReader { reader: new_stream_reader() }
    }

    /// Decodes the event in one packet of the binlog stream. The packet starts with a
    /// status byte that must be `0`; an event whose CRC32 footer does not match its bytes
    /// is refused with `ChecksumMismatch` before its body is read.
    pub fn decode(&mut self, packet: &[u8]) -> (r: Result<BinlogEvent, ReplicationError>)
        ensures
            packet@.len() == 0 || packet@[0] != 0 ==> (r matches Err(e) && class_of(e)
                == ErrorClass::Protocol),
            !frame_complete(packet@) ==> (r matches Err(e) && class_of(e) == ErrorClass::Protocol),
            r matches Ok(ev) ==> {
                &&& checksum_ok(ev.checksum)
                &&& body_fits_kind(kind_of(ev.event_type), ev.body)
                &&& ev.event_type == packet@[5]
                &&& ev.log_pos == le_value(packet@, 14, 4)
                &&& (ev.body matches EventBody::Rotate { position, .. } ==> position == le_value(
                    packet@,
                    BODY_START as int,
                    8,
                ))
                &&& (ev.body matches EventBody::Gtid { gno } ==> gno == le_value(
                    packet@,
                    BODY_START + 17,
                    8,
                ))
                &&& (ev.body matches EventBody::Rows { table_id, .. } ==> old(self).table_ids().contains(
                    table_id,
                ))
            },
            packet@.len() > 0 && packet@[0] == 0 && frame_complete(packet@) && kind_of(packet@[5])
                == EventKind::Other && packet@[5] != 15 ==> (r matches Ok(ev) && ev.body is Other)
                || (r matches Err(e) && class_of(e) == ErrorClass::ChecksumMismatch),
            kind_of(packet@[5]) is Rows ==> (r matches Err(e) ==> class_of(e) == ErrorClass::Protocol
                || class_of(e) == ErrorClass::ChecksumMismatch),
            packet@.len() > 5 && packet@[5] != 19 ==> final(self).table_ids() == old(self).table_ids(),
    {
        if packet.len() == 0 || packet[0] != 0 {
            return Err(protocol_error("expected an event packet"));
        }
        if packet.len() < 1 + EVENT_HEADER_LEN {
            return Err(protocol_error("truncated event header"));
        }
        let size: u64 = packet[10] as u64 + packet[11] as u64 * 0x100 + packet[12] as u64
            * 0x1_0000 + packet[13] as u64 * 0x100_0000;
        if size < (EVENT_HEADER_LEN as u64) + (CHECKSUM_LEN as u64) || size > (packet.len() - 1) as u64 {
            return Err(protocol_error("event size does not match the packet"));
        }
        let frame = match read_frame(&mut self.reader, packet) {
            Ok(f) => f,
            Err(m) => return Err(ReplicationError::Protocol(m)),
        };
        let (code, log_pos) = (frame.event_type, frame.log_pos);
        let ev = &frame.event;
        let checksum = ChecksumInfo {
            alg: checksum_alg(ev),
            stored: stored_checksum(ev),
            computed: computed_checksum(ev),
        };
        if !validate_event_checksum(&checksum) {
            let stored = match checksum.stored {
                Some(s) => s,
                None => 0,
            };
            return Err(ReplicationError::ChecksumMismatch { stored, computed: checksum.computed });
        }
        let body = match event_kind(code) {
            EventKind::Rotate => match read_rotate(&frame) {
                Ok((name, position)) => EventBody::Rotate { name, position },
                Err(m) => return Err(ReplicationError::Protocol(m)),
            },
            EventKind::Query => match read_query(ev) {
                Ok((dbs, query)) => EventBody::Query { updated_db_names: updated_names(dbs), query },
                Err(m) => return Err(ReplicationError::Protocol(m)),
            },
            EventKind::TableMap => match self.table_map_body(ev) {
                Ok(b) => b,
                Err(e) => return Err(e),
            },
            EventKind::Rows(kind) => match self.rows_body(&frame, kind) {
                Ok(b) => b,
                Err(e) => return Err(e),
            },
            EventKind::LegacyRows => EventBody::LegacyRows,
            EventKind::Gtid => match read_gtid(&frame) {
                Ok(gno) => EventBody::Gtid { gno },
                Err(m) => return Err(ReplicationError::Protocol(m)),
            },
            EventKind::Other => EventBody::Other,
        };
        Ok(BinlogEvent { event_type: code, log_pos, checksum, body })
    }

    fn table_map_body(&self, ev: &Event) -> (r: Result<EventBody, ReplicationError>)
        ensures
            r matches Ok(b) ==> b is TableMap,
    {
        match read_table_map(ev) {
            Ok(t) => Ok(EventBody::TableMap { table_id: table_map_id(&t) }),
            Err(m) => Err(ReplicationError::Protocol(m)),
        }
    }

    fn rows_body(&self, frame: &Frame, kind: RowsKind) -> (r: Result<EventBody, ReplicationError>)
        ensures
            r matches Ok(b) ==> b matches EventBody::Rows { kind: k, .. } && k == kind,
            r matches Ok(b) ==> b matches EventBody::Rows { table_id, .. } && self.table_ids().contains(
                table_id,
            ),
            r matches Err(e) ==> class_of(e) == ErrorClass::Protocol,
    {
        if !rows_layout_check(
            frame.packet.as_slice(),
            frame.event_type,
            frame.rows_header_len,
            frame.write_rows_header_len,
        ) {
            return Err(protocol_error("malformed rows event header"));
        }
        let table_id = match rows_table_id(frame) {
            Ok(id) => id,
            Err(m) => return Err(ReplicationError::Protocol(m)),
        };
        let tme = match reader_table(&self.reader, table_id) {
            Some(t) => t,
            None => return Err(protocol_error("rows event for an unknown table id")),
        };
        let images = match row_images(frame, tme) {
            Ok(i) => i,
            Err(m) => return Err(ReplicationError::Protocol(m)),
        };
        let mut rows: Vec<RowImages> = Vec::new();
        let mut i: usize = 0;
        while i < images.len()
            invariant
                i <= images@.len(),
            decreases images@.len() - i,
        {
            let (before, after) = &images[i];
            rows.push(RowImages { before: image_cells(before), after: image_cells(after) });
            i = i + 1;
        }
        let table = match table_of(tme) {
            Ok(t) => t,
            Err(e) => return Err(e),
        };
        Ok(EventBody::Rows { kind, table_id, table, rows })
    }
}

} // verus!
