use vstd::prelude::*;

use crate::row::{cells_view, BinlogCell, CellView, TableMap, TableView};

verus! {

/// Event type code of `ROTATE_EVENT`.
pub const ROTATE_EVENT: u8 = 4;

/// Event type code of `QUERY_EVENT`.
pub const QUERY_EVENT: u8 = 2;

/// Event type code of `TABLE_MAP_EVENT`.
pub const TABLE_MAP_EVENT: u8 = 19;

/// Event type code of `WRITE_ROWS_EVENT_V1`.
pub const WRITE_ROWS_EVENT_V1: u8 = 23;

/// Event type code of `UPDATE_ROWS_EVENT_V1`.
pub const UPDATE_ROWS_EVENT_V1: u8 = 24;

/// Event type code of `DELETE_ROWS_EVENT_V1`.
pub const DELETE_ROWS_EVENT_V1: u8 = 25;

/// Event type code of `WRITE_ROWS_EVENT`.
pub const WRITE_ROWS_EVENT: u8 = 30;

/// Event type code of `UPDATE_ROWS_EVENT`.
pub const UPDATE_ROWS_EVENT: u8 = 31;

/// Event type code of `DELETE_ROWS_EVENT`.
pub const DELETE_ROWS_EVENT: u8 = 32;

/// Event type code of `GTID_EVENT`.
pub const GTID_EVENT: u8 = 33;

/// The checksum algorithm an event's footer advertises.
#[derive(Debug, Clone, Copy, PartialEq, Eq, Structural)]
pub enum ChecksumAlg {
    /// The footer names no algorithm.
    Absent,
    Off,
    Crc32,
    /// An algorithm code this library does not know.
    Unknown(u8),
}

/// An event's checksum footer: the algorithm, the stored checksum (if the event carries
/// one), and the CRC32 recomputed over the event's bytes.
#[derive(Debug, Clone, Copy, PartialEq, Eq, Structural)]
pub struct ChecksumInfo {
    pub alg: ChecksumAlg,
    pub stored: Option<u32>,
    pub computed: u32,
}

/// An event passes the checksum policy: unless its footer says CRC32, anything goes; with
/// CRC32 the stored checksum must be there and equal the recomputed one.
pub open spec fn checksum_ok(c: ChecksumInfo) -> bool {
    c.alg == ChecksumAlg::Crc32 ==> c.stored == Some(c.computed)
}

/// Checks an event's footer against the checksum policy.
pub fn validate_event_checksum(c: &ChecksumInfo) -> (r: bool)
    ensures
        r == checksum_ok(*c),
{
    match c.alg {
        ChecksumAlg::Crc32 => match c.stored {
            Some(s) => s == c.computed,
            None => false,
        },
        _ => true,
    }
}

/// Which rows event a `Rows` body came from.
#[derive(Debug, Clone, Copy, PartialEq, Eq, Structural)]
pub enum RowsKind {
    Write,
    Update,
    Delete,
}

/// The before and after images of one row of a rows event.
#[derive(Debug)]
pub struct RowImages {
    pub before: Option<Vec<BinlogCell>>,
    pub after: Option<Vec<BinlogCell>>,
}

/// The decoded body of a binlog event.
#[derive(Debug)]
pub enum EventBody {
    /// The server switched to binlog file `name`, starting at byte `position`.
    Rotate { name: String, position: u64 },
    /// A statement; `updated_db_names` is empty when the event names no updated database.
    Query { updated_db_names: Vec<String>, query: String },
    /// Binds `table_id` to a table definition, which the reader keeps.
    TableMap { table_id: u64 },
    /// Row changes to the table that the reader's table maps bind `table_id` to.
    Rows { kind: RowsKind, table_id: u64, table: TableMap, rows: Vec<RowImages> },
    /// A rows event of the legacy V1 format.
    LegacyRows,
    /// The start of a transaction with group number `gno`.
    Gtid { gno: u64 },
    /// Any other event.
    Other,
}

/// A decoded binlog event: header fields, checksum footer and body.
#[derive(Debug)]
pub struct BinlogEvent {
    pub event_type: u8,
    pub log_pos: u32,
    pub checksum: ChecksumInfo,
    pub body: EventBody,
}

pub ghost struct ImagesView {
    pub before: Option<Seq<CellView>>,
    pub after: Option<Seq<CellView>>,
}

pub ghost enum BodyView {
    Rotate { name: Seq<char>, position: u64 },
    Query { dbs: Seq<Seq<char>>, query: Seq<char> },
    TableMap { table_id: u64 },
    Rows { kind: RowsKind, table_id: u64, table: TableView, rows: Seq<ImagesView> },
    LegacyRows,
    Gtid { gno: u64 },
    Other,
}

pub ghost struct EventView {
    pub event_type: u8,
    pub log_pos: u32,
    pub checksum: ChecksumInfo,
    pub body: BodyView,
}

pub open spec fn image_view(img: Option<Vec<BinlogCell>>) -> Option<Seq<CellView>> {
    match img {
        Some(v) => Some(cells_view(v@)),
        None => None,
    }
}

impl View for RowImages {
    type V = ImagesView;

    open spec fn view(&self) -> ImagesView {
        ImagesView { before: image_view(self.before), after: image_view(self.after) }
    }
}

pub open spec fn strings_view(v: Seq<String>) -> Seq<Seq<char>> {
    v.map_values(|s: String| s@)
}

pub open spec fn images_view(v: Seq<RowImages>) -> Seq<ImagesView> {
    v.map_values(|r: RowImages| r@)
}

impl View for EventBody {
    type V = BodyView;

    open spec fn view(&self) -> BodyView {
        match self {
            EventBody::Rotate { name, position } => BodyView::Rotate {
                name: name@,
                position: *position,
            },
            EventBody::Query { updated_db_names, query } => BodyView::Query {
                dbs: strings_view(updated_db_names@),
                query: query@,
            },
            EventBody::TableMap { table_id } => BodyView::TableMap { table_id: *table_id },
            EventBody::Rows { kind, table_id, table, rows } => BodyView::Rows {
                kind: *kind,
                table_id: *table_id,
                table: table@,
                rows: images_view(rows@),
            },
            EventBody::LegacyRows => BodyView::LegacyRows,
            EventBody::Gtid { gno } => BodyView::Gtid { gno: *gno },
            EventBody::Other => BodyView::Other,
        }
    }
}

impl View for BinlogEvent {
    type V = EventView;

    open spec fn view(&self) -> EventView {
        EventView {
            event_type: self.event_type,
            log_pos: self.log_pos,
            checksum: self.checksum,
            body: self.body@,
        }
    }
}

/// What an event type code stands for.
#[derive(Debug, Clone, Copy, PartialEq, Eq, Structural)]
pub enum EventKind {
    Rotate,
    Query,
    TableMap,
    Rows(RowsKind),
    LegacyRows,
    Gtid,
    Other,
}

pub open spec fn kind_of(code: u8) -> EventKind {
    if code == ROTATE_EVENT {
        EventKind::Rotate
    } else if code == QUERY_EVENT {
        EventKind::Query
    } else if code == TABLE_MAP_EVENT {
        EventKind::TableMap
    } else if code == WRITE_ROWS_EVENT {
        EventKind::Rows(RowsKind::Write)
    } else if code == UPDATE_ROWS_EVENT {
        EventKind::Rows(RowsKind::Update)
    } else if code == DELETE_ROWS_EVENT {
        EventKind::Rows(RowsKind::Delete)
    } else if code == WRITE_ROWS_EVENT_V1 || code == UPDATE_ROWS_EVENT_V1 || code
        == DELETE_ROWS_EVENT_V1 {
        EventKind::LegacyRows
    } else if code == GTID_EVENT {
        EventKind::Gtid
    } else {
        EventKind::Other
    }
}

/// Classifies an event type code.
pub fn event_kind(code: u8) -> (r: EventKind)
    ensures
        r == kind_of(code),
{
    if code == ROTATE_EVENT {
        EventKind::Rotate
    } else if code == QUERY_EVENT {
        EventKind::Query
    } else if code == TABLE_MAP_EVENT {
        EventKind::TableMap
    } else if code == WRITE_ROWS_EVENT {
        EventKind::Rows(RowsKind::Write)
    } else if code == UPDATE_ROWS_EVENT {
        EventKind::Rows(RowsKind::Update)
    } else if code == DELETE_ROWS_EVENT {
        EventKind::Rows(RowsKind::Delete)
    } else if code == WRITE_ROWS_EVENT_V1 || code == UPDATE_ROWS_EVENT_V1 || code
        == DELETE_ROWS_EVENT_V1 {
        EventKind::LegacyRows
    } else if code == GTID_EVENT {
        EventKind::Gtid
    } else {
        EventKind::Other
    }
}

} // verus!
