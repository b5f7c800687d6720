use vstd::prelude::*;

use crate::error::{class_of, protocol_error, ErrorClass, ReplicationError};
use vstd::utf8::{decode_utf8, valid_utf8};

use crate::value::{
    binlog_val_to_noria_val, coerced, utf8_string, DfValue, EngineValue, RawValue, RawView,
};

verus! {

/// Column type code of `MYSQL_TYPE_JSON`.
pub const MYSQL_TYPE_JSON: u8 = 245;

/// Type code and metadata bytes of one column, from a table-map event.
#[derive(Debug)]
pub struct ColumnDescriptor {
    pub kind: u8,
    pub meta: Vec<u8>,
}

/// The definition a table-map event binds to a table id.
#[derive(Debug)]
pub struct TableMap {
    pub schema: String,
    pub table: String,
    pub columns: Vec<ColumnDescriptor>,
}

/// A JSONB cell after rendering it as JSON text.
#[derive(Debug)]
pub enum JsonText {
    /// The value rendered as JSON text.
    Rendered(String),
    /// An opaque value: its payload bytes, which are already serialized JSON.
    Opaque(Vec<u8>),
    /// Invalid UTF-8 or malformed JSONB, with a description.
    Invalid(String),
}

/// One cell of a row image.
#[derive(Debug)]
pub enum BinlogCell {
    Value(RawValue),
    Jsonb(JsonText),
    /// A cell of any other form (a partial JSON update, or a missing value).
    Other,
}

pub ghost struct ColumnView {
    pub kind: u8,
    pub meta: Seq<u8>,
}

pub ghost struct TableView {
    pub schema: Seq<char>,
    pub table: Seq<char>,
    pub columns: Seq<ColumnView>,
}

pub ghost enum CellView {
    Value(RawView),
    /// JSON text to store as the cell's value.
    Json(Seq<char>),
    /// The payload bytes of an opaque JSON value.
    JsonBytes(Seq<u8>),
    JsonInvalid,
    Other,
}

impl View for ColumnDescriptor {
    type V = ColumnView;

    open spec fn view(&self) -> ColumnView {
        ColumnView { kind: self.kind, meta: self.meta@ }
    }
}

impl View for TableMap {
    type V = TableView;

    open spec fn view(&self) -> TableView {
        TableView {
            schema: self.schema@,
            table: self.table@,
            columns: self.columns@.map_values(|c: ColumnDescriptor| c@),
        }
    }
}

impl View for BinlogCell {
    type V = CellView;

    open spec fn view(&self) -> CellView {
        match self {
            BinlogCell::Value(v) => CellView::Value(v@),
            BinlogCell::Jsonb(JsonText::Rendered(s)) => CellView::Json(s@),
            BinlogCell::Jsonb(JsonText::Opaque(b)) => CellView::JsonBytes(b@),
            BinlogCell::Jsonb(JsonText::Invalid(_)) => CellView::JsonInvalid,
            BinlogCell::Other => CellView::Other,
        }
    }
}

pub open spec fn cells_view(row: Seq<BinlogCell>) -> Seq<CellView> {
    row.map_values(|c: BinlogCell| c@)
}

pub open spec fn values_view(row: Seq<DfValue>) -> Seq<EngineValue> {
    row.map_values(|v: DfValue| v@)
}

/// The engine value of cell `c` in column `i` of table `t`, or the kind of error it gives.
pub open spec fn cell_result(c: CellView, t: TableView, i: int) -> Result<EngineValue, ErrorClass> {
    match c {
        CellView::Value(v) => if 0 <= i < t.columns.len() {
            match coerced(v, t.columns[i].kind, t.columns[i].meta) {
                Some(x) => Ok(x),
                None => Err(ErrorClass::Coercion(t.columns[i].kind)),
            }
        } else {
            Err(ErrorClass::Protocol)
        },
        CellView::Json(s) => Ok(EngineValue::Text(s)),
        CellView::JsonBytes(b) => Ok(
            if valid_utf8(b) {
                EngineValue::Text(decode_utf8(b))
            } else {
                EngineValue::ByteArray(b)
            },
        ),
        CellView::JsonInvalid => Err(ErrorClass::Coercion(MYSQL_TYPE_JSON)),
        CellView::Other => Err(ErrorClass::Protocol),
    }
}

/// A row's engine values, column by column; the first cell that fails decides the error.
pub open spec fn row_result(cells: Seq<CellView>, t: TableView) -> Result<
    Seq<EngineValue>,
    ErrorClass,
>
    decreases cells.len(),
{
    if cells.len() == 0 {
        Ok(seq![])
    } else {
        match row_result(cells.drop_last(), t) {
            Err(e) => Err(e),
            Ok(vs) => match cell_result(cells.last(), t, cells.len() - 1) {
                Ok(x) => Ok(vs.push(x)),
                Err(e) => Err(e),
            },
        }
    }
}

/// Once a prefix of a row fails, the whole row fails with the same error.
proof fn lemma_row_error_extends(cells: Seq<CellView>, k: int, t: TableView)
    requires
        0 <= k <= cells.len(),
        row_result(cells.subrange(0, k), t) is Err,
    ensures
        row_result(cells, t) == row_result(cells.subrange(0, k), t),
    decreases cells.len() - k,
{
    if k == cells.len() {
        assert(cells.subrange(0, k) =~= cells);
    } else {
        let next = cells.subrange(0, k + 1);
        assert(next.drop_last() =~= cells.subrange(0, k));
        assert(next =~= cells.subrange(0, k + 1));
        lemma_row_error_extends(cells, k + 1, t);
    }
}

/// Converts one row image into engine values, using the column types of table `tme`.
pub fn binlog_row_to_noria_row(binlog_row: &Vec<BinlogCell>, tme: &TableMap) -> (r: Result<
    Vec<DfValue>,
    ReplicationError,
>)
    ensures
        match r {
            Ok(vals) => row_result(cells_view(binlog_row@), tme@) == Ok::<
                Seq<EngineValue>,
                ErrorClass,
            >(values_view(vals@)),
            Err(e) => row_result(cells_view(binlog_row@), tme@) == Err::<
                Seq<EngineValue>,
                ErrorClass,
            >(class_of(e)),
        },
{
    let mut out: Vec<DfValue> = Vec::new();
    let mut idx: usize = 0;
    let ghost all = cells_view(binlog_row@);
    proof {
        assert(cells_view(binlog_row@.subrange(0, 0)) =~= seq![]);
        assert(values_view(out@) =~= seq![]);
    }
    while idx < binlog_row.len()
        invariant
            idx <= binlog_row@.len(),
            out@.len() == idx,
            row_result(cells_view(binlog_row@.subrange(0, idx as int)), tme@) == Ok::<
                Seq<EngineValue>,
                ErrorClass,
            >(values_view(out@)),
            all == cells_view(binlog_row@),
        decreases binlog_row@.len() - idx,
    {
        let ghost prefix = binlog_row@.subrange(0, idx as int);
        let ghost next = binlog_row@.subrange(0, (idx + 1) as int);
        proof {
            assert(cells_view(next).drop_last() =~= cells_view(prefix));
            assert(cells_view(next).last() == binlog_row@[idx as int]@);
            assert(cells_view(next) =~= all.subrange(0, idx + 1));
        }
        let cell = match &binlog_row[idx] {
            BinlogCell::Value(v) => {
                if idx >= tme.columns.len() {
                    let e = protocol_error("no column type for a row value");
                    proof {
                        lemma_row_error_extends(all, idx + 1, tme@);
                    }
                    return Err(e);
                }
                let col = &tme.columns[idx];
                match binlog_val_to_noria_val(v, col.kind, col.meta.as_slice()) {
                    Ok(x) => x,
                    Err(e) => {
                        proof {
                            lemma_row_error_extends(all, idx + 1, tme@);
                        }
                        return Err(e);
                    },
                }
            },
            BinlogCell::Jsonb(JsonText::Rendered(s)) => DfValue::Text(s.clone()),
            BinlogCell::Jsonb(JsonText::Opaque(b)) => match utf8_string(b.clone()) {
                Ok(s) => DfValue::Text(s),
                Err(v) => DfValue::ByteArray(v),
            },
            BinlogCell::Jsonb(JsonText::Invalid(m)) => {
                proof {
                    lemma_row_error_extends(all, idx + 1, tme@);
                }
                return Err(ReplicationError::Coercion { kind: MYSQL_TYPE_JSON, message: m.clone() });
            },
            BinlogCell::Other => {
                let e = protocol_error("expected a value in a row image");
                proof {
                    lemma_row_error_extends(all, idx + 1, tme@);
                }
                return Err(e);
            },
        };
        let ghost before = out@;
        out.push(cell);
        proof {
            assert(out@.drop_last() =~= before);
            assert(values_view(out@) =~= values_view(before).push(out@.last()@));
        }
        idx = idx + 1;
    }
    proof {
        assert(binlog_row@.subrange(0, idx as int) =~= binlog_row@);
    }
    Ok(out)
}

} // verus!
