use vstd::prelude::*;

use crate::error::{class_of, protocol_error, ErrorClass, ReplicationError};
use crate::event::{
    checksum_ok, image_view, images_view, strings_view, validate_event_checksum, BinlogEvent,
    BodyView, EventBody, EventView, ImagesView, RowImages, RowsKind,
};
use crate::position::{
    at_or_after, basename_of, comparable_in, lemma_at_or_after_transitive, decoded_file, encoded_offset, in_family, last_dot,
    lemma_order_matches_offsets, position_field, suffix_of, valid_suffix, BinlogPosition,
    ReplicationOffset,
};
use crate::row::{
    binlog_row_to_noria_row, row_result, values_view, BinlogCell, TableMap, TableView,
};
use crate::value::{DfValue, EngineValue};

verus! {

/// A table, by schema and name.
#[derive(Debug)]
pub struct TableName {
    pub schema: String,
    pub name: String,
}

/// One change to a table's rows.
#[derive(Debug)]
pub enum TableOperation {
    Insert(Vec<DfValue>),
    DeleteRow(Vec<DfValue>),
}

/// What the replication stream tells its consumer.
#[derive(Debug)]
pub enum ReplicationAction {
    /// The position advanced with nothing else to apply.
    LogPosition,
    /// A schema change: the statements the DDL parser made of a query, for `schema`.
    DdlChange { schema: String, changes: Vec<String> },
    /// Row changes to one table, with the transaction id of the enclosing GTID, if any.
    TableAction { table: TableName, actions: Vec<TableOperation>, txid: Option<u64> },
}

/// What handling one event asks of the caller.
#[derive(Debug)]
pub enum Outcome {
    /// Hand this action to the consumer; resume later from this offset.
    Emit(ReplicationAction, ReplicationOffset),
    /// Nothing to hand over: read the next event.
    Continue,
    /// A schema-affecting statement: parse `query` and report back with `finish_ddl`.
    ParseDdl { schema: String, query: String },
}

/// The state that turns the events of one replica session into actions: the position to
/// resume from, the current transaction's GTID and the number of DDL statements that failed
/// to parse. (The table maps belong to the event reader, which hands each rows event over
/// with its table.)
pub struct Replicator {
    pub next_position: BinlogPosition,
    pub current_gtid: Option<u64>,
    pub ddl_failures: u64,
}

pub ghost enum OpView {
    Insert(Seq<EngineValue>),
    DeleteRow(Seq<EngineValue>),
}

pub ghost enum ActionView {
    LogPosition,
    DdlChange { schema: Seq<char>, changes: Seq<Seq<char>> },
    TableAction { schema: Seq<char>, name: Seq<char>, ops: Seq<OpView>, txid: Option<u64> },
}

pub ghost enum OutcomeView {
    Emit { action: ActionView, log_name: Seq<char>, offset: nat },
    Continue,
    ParseDdl { schema: Seq<char>, query: Seq<char> },
}

pub ghost struct StateView {
    pub file: Seq<char>,
    pub position: u32,
    pub gtid: Option<u64>,
    pub failures: u64,
}

impl View for TableOperation {
    type V = OpView;

    open spec fn view(&self) -> OpView {
        match self {
            TableOperation::Insert(r) => OpView::Insert(values_view(r@)),
            TableOperation::DeleteRow(r) => OpView::DeleteRow(values_view(r@)),
        }
    }
}

pub open spec fn ops_view(v: Seq<TableOperation>) -> Seq<OpView> {
    v.map_values(|o: TableOperation| o@)
}

impl View for ReplicationAction {
    type V = ActionView;

    open spec fn view(&self) -> ActionView {
        match self {
            ReplicationAction::LogPosition => ActionView::LogPosition,
            ReplicationAction::DdlChange { schema, changes } => ActionView::DdlChange {
                schema: schema@,
                changes: strings_view(changes@),
            },
            ReplicationAction::TableAction { table, actions, txid } => ActionView::TableAction {
                schema: table.schema@,
                name: table.name@,
                ops: ops_view(actions@),
                txid: *txid,
            },
        }
    }
}

impl View for Outcome {
    type V = OutcomeView;

    open spec fn view(&self) -> OutcomeView {
        match self {
            Outcome::Emit(a, o) => OutcomeView::Emit {
                action: a@,
                log_name: o.replication_log_name@,
                offset: o.offset as nat,
            },
            Outcome::Continue => OutcomeView::Continue,
            Outcome::ParseDdl { schema, query } => OutcomeView::ParseDdl {
                schema: schema@,
                query: query@,
            },
        }
    }
}

impl View for Replicator {
    type V = StateView;

    open spec fn view(&self) -> StateView {
        StateView {
            file: self.next_position.binlog_file@,
            position: self.next_position.position,
            gtid: self.current_gtid,
            failures: self.ddl_failures,
        }
    }
}

pub open spec fn until_view(u: Option<&ReplicationOffset>) -> Option<(Seq<char>, u128)> {
    match u {
        Some(o) => Some((o.replication_log_name@, o.offset)),
        None => None,
    }
}

/// The replication offset of position `(file, pos)`, as `ReplicationOffset::try_from` makes it.
pub open spec fn offset_result(file: Seq<char>, pos: u32) -> Result<(Seq<char>, nat), ErrorClass> {
    if last_dot(file) is None {
        Err(ErrorClass::InvalidBinlogName)
    } else if !valid_suffix(suffix_of(file)) {
        Err(ErrorClass::InvalidBinlogSuffix)
    } else {
        Ok((basename_of(file), encoded_offset(file, pos)))
    }
}

/// Hands `a` over together with the state's position as a replication offset.
pub open spec fn emit_at(s: StateView, a: ActionView) -> Result<(StateView, OutcomeView), ErrorClass> {
    match offset_result(s.file, s.position) {
        Ok((n, o)) => Ok((s, OutcomeView::Emit { action: a, log_name: n, offset: o })),
        Err(e) => Err(e),
    }
}

/// The state's position has reached the `until` bound, if there is one.
pub open spec fn until_reached(s: StateView, until: Option<(Seq<char>, u128)>) -> bool {
    match until {
        Some((name, off)) => at_or_after(
            s.file,
            s.position,
            decoded_file(name, off),
            position_field(off),
        ),
        None => false,
    }
}

/// After an event that yields nothing: report the position if the bound is reached.
pub open spec fn after_quiet(s: StateView, until: Option<(Seq<char>, u128)>) -> Result<
    (StateView, OutcomeView),
    ErrorClass,
> {
    if until_reached(s, until) {
        emit_at(s, ActionView::LogPosition)
    } else {
        Ok((s, OutcomeView::Continue))
    }
}

/// The operations one row of a rows event of kind `kind` produces.
pub open spec fn row_ops(kind: RowsKind, img: ImagesView, t: TableView) -> Result<
    Seq<OpView>,
    ErrorClass,
> {
    match kind {
        RowsKind::Write => match img.after {
            Some(a) => match row_result(a, t) {
                Ok(v) => Ok(seq![OpView::Insert(v)]),
                Err(e) => Err(e),
            },
            None => Err(ErrorClass::Protocol),
        },
        RowsKind::Delete => match img.before {
            Some(b) => match row_result(b, t) {
                Ok(v) => Ok(seq![OpView::DeleteRow(v)]),
                Err(e) => Err(e),
            },
            None => Err(ErrorClass::Protocol),
        },
        RowsKind::Update => match img.before {
            Some(b) => match row_result(b, t) {
                Ok(bv) => match img.after {
                    Some(a) => match row_result(a, t) {
                        Ok(av) => Ok(seq![OpView::DeleteRow(bv), OpView::Insert(av)]),
                        Err(e) => Err(e),
                    },
                    None => Err(ErrorClass::Protocol),
                },
                Err(e) => Err(e),
            },
            None => Err(ErrorClass::Protocol),
        },
    }
}

/// The operations of all rows, in order; the first row that fails decides the error.
pub open spec fn rows_ops(kind: RowsKind, rows: Seq<ImagesView>, t: TableView) -> Result<
    Seq<OpView>,
    ErrorClass,
>
    decreases rows.len(),
{
    if rows.len() == 0 {
        Ok(seq![])
    } else {
        match rows_ops(kind, rows.drop_last(), t) {
            Err(e) => Err(e),
            Ok(ops) => match row_ops(kind, rows.last(), t) {
                Ok(more) => Ok(ops + more),
                Err(e) => Err(e),
            },
        }
    }
}

/// Handling one event: the next state and what to tell the caller, or the error.
pub open spec fn step(s: StateView, ev: EventView, until: Option<(Seq<char>, u128)>) -> Result<
    (StateView, OutcomeView),
    ErrorClass,
> {
    if !checksum_ok(ev.checksum) {
        Err(ErrorClass::ChecksumMismatch)
    } else {
        let s1 = StateView { position: ev.log_pos, ..s };
        match ev.body {
            BodyView::Rotate { name, position } => if position > u32::MAX {
                Err(ErrorClass::Protocol)
            } else {
                emit_at(StateView { file: name, position: position as u32, ..s1 }, ActionView::LogPosition)
            },
            BodyView::Query { dbs, query } => if dbs.len() == 0 {
                after_quiet(s1, until)
            } else {
                Ok((s1, OutcomeView::ParseDdl { schema: dbs[0], query }))
            },
            BodyView::TableMap { .. } => after_quiet(s1, until),
            BodyView::Rows { kind, table, rows, .. } => match rows_ops(kind, rows, table) {
                Ok(ops) => emit_at(
                    s1,
                    ActionView::TableAction {
                        schema: table.schema,
                        name: table.table,
                        ops,
                        txid: s1.gtid,
                    },
                ),
                Err(e) => Err(e),
            },
            BodyView::LegacyRows => Err(ErrorClass::UnsupportedEvent(ev.event_type)),
            BodyView::Gtid { gno } => after_quiet(StateView { gtid: Some(gno), ..s1 }, until),
            BodyView::Other => after_quiet(s1, until),
        }
    }
}

/// The failure counter after one more failure; it stays at its maximum.
pub open spec fn bumped(n: u64) -> u64 {
    if n < u64::MAX {
        (n + 1) as u64
    } else {
        n
    }
}

/// Completing a schema-affecting statement: `parsed` holds the parser's statements, or
/// `None` when the text did not parse.
pub open spec fn ddl_step(
    s: StateView,
    schema: Seq<char>,
    parsed: Option<Seq<Seq<char>>>,
    until: Option<(Seq<char>, u128)>,
) -> Result<(StateView, OutcomeView), ErrorClass> {
    match parsed {
        Some(changes) => emit_at(s, ActionView::DdlChange { schema, changes }),
        None => after_quiet(StateView { failures: bumped(s.failures), ..s }, until),
    }
}

pub open spec fn parsed_view(p: Option<Vec<String>>) -> Option<Seq<Seq<char>>> {
    match p {
        Some(v) => Some(strings_view(v@)),
        None => None,
    }
}

proof fn lemma_rows_error_extends(kind: RowsKind, rows: Seq<ImagesView>, k: int, t: TableView)
    requires
        0 <= k <= rows.len(),
        rows_ops(kind, rows.subrange(0, k), t) is Err,
    ensures
        rows_ops(kind, rows, t) == rows_ops(kind, rows.subrange(0, k), t),
    decreases rows.len() - k,
{
    if k == rows.len() {
        assert(rows.subrange(0, k) =~= rows);
    } else {
        let next = rows.subrange(0, k + 1);
        assert(next.drop_last() =~= rows.subrange(0, k));
        lemma_rows_error_extends(kind, rows, k + 1, t);
    }
}

/// Converts one row image, for use inside a rows event.
fn convert_image(img: &Option<Vec<BinlogCell>>, t: &TableMap) -> (r: Result<Vec<DfValue>, ReplicationError>)
    ensures
        match image_view(*img) {
            None => r matches Err(e) && class_of(e) == ErrorClass::Protocol,
            Some(cells) => match r {
                Ok(v) => row_result(cells, t@) == Ok::<Seq<EngineValue>, ErrorClass>(
                    values_view(v@),
                ),
                Err(e) => row_result(cells, t@) == Err::<Seq<EngineValue>, ErrorClass>(
                    class_of(e),
                ),
            },
        },
{
    match img {
        Some(cells) => binlog_row_to_noria_row(cells, t),
        None => Err(protocol_error("missing row image")),
    }
}


/// The operations of all rows of a rows event of kind `kind` on table `t`.
fn rows_to_ops(kind: RowsKind, rows: &Vec<RowImages>, t: &TableMap) -> (r: Result<
    Vec<TableOperation>,
    ReplicationError,
>)
    ensures
        match r {
            Ok(ops) => rows_ops(kind, images_view(rows@), t@) == Ok::<Seq<OpView>, ErrorClass>(
                ops_view(ops@),
            ),
            Err(e) => rows_ops(kind, images_view(rows@), t@) == Err::<Seq<OpView>, ErrorClass>(
                class_of(e),
            ),
        },
{
    let ghost all = images_view(rows@);
    let mut ops: Vec<TableOperation> = Vec::new();
    let mut i: usize = 0;
    proof {
        assert(all.subrange(0, 0) =~= seq![]);
        assert(ops_view(ops@) =~= seq![]);
    }
    while i < rows.len()
        invariant
            i <= rows@.len(),
            all == images_view(rows@),
            rows_ops(kind, all.subrange(0, i as int), t@) == Ok::<Seq<OpView>, ErrorClass>(
                ops_view(ops@),
            ),
        decreases rows@.len() - i,
    {
        let ghost next = all.subrange(0, (i + 1) as int);
        proof {
            assert(next.drop_last() =~= all.subrange(0, i as int));
            assert(next.last() == rows@[i as int]@);
        }
        let row = &rows[i];
        let ghost before_ops = ops_view(ops@);
        match kind {
            RowsKind::Write => match convert_image(&row.after, t) {
                Ok(v) => {
                    ops.push(TableOperation::Insert(v));
                },
                Err(e) => {
                    proof {
                        lemma_rows_error_extends(kind, all, i + 1, t@);
                    }
                    return Err(e);
                },
            },
            RowsKind::Delete => match convert_image(&row.before, t) {
                Ok(v) => {
                    ops.push(TableOperation::DeleteRow(v));
                },
                Err(e) => {
                    proof {
                        lemma_rows_error_extends(kind, all, i + 1, t@);
                    }
                    return Err(e);
                },
            },
            RowsKind::Update => {
                let b = match convert_image(&row.before, t) {
                    Ok(v) => v,
                    Err(e) => {
                        proof {
                            lemma_rows_error_extends(kind, all, i + 1, t@);
                        }
                        return Err(e);
                    },
                };
                let a = match convert_image(&row.after, t) {
                    Ok(v) => v,
                    Err(e) => {
                        proof {
                            lemma_rows_error_extends(kind, all, i + 1, t@);
                        }
                        return Err(e);
                    },
                };
                ops.push(TableOperation::DeleteRow(b));
                ops.push(TableOperation::Insert(a));
            },
        }
        proof {
            let more = ops_view(ops@).subrange(before_ops.len() as int, ops@.len() as int);
            assert(ops_view(ops@) =~= before_ops + more);
            assert(row_ops(kind, next.last(), t@) == Ok::<Seq<OpView>, ErrorClass>(more)) by {
                assert(more =~= match kind {
                    RowsKind::Update => seq![ops@[ops@.len() - 2]@, ops@[ops@.len() - 1]@],
                    _ => seq![ops@[ops@.len() - 1]@],
                });
            }
        }
        i = i + 1;
    }
    proof {
        assert(all.subrange(0, i as int) =~= all);
    }
    Ok(ops)
}

impl Replicator {
    /// A fresh session state that resumes from `next_position`.
    pub fn new(next_position: BinlogPosition) -> (r: Replicator)
        ensures
            r@ == (StateView {
                file: next_position.binlog_file@,
                position: next_position.position,
                gtid: None,
                failures: 0,
            }),
    {
        Replicator { next_position, current_gtid: None, ddl_failures: 0 }
    }

    fn emit(&self, action: ReplicationAction) -> (r: Result<Outcome, ReplicationError>)
        ensures
            match r {
                Ok(o) => emit_at(self@, action@) == Ok::<(StateView, OutcomeView), ErrorClass>(
                    (self@, o@),
                ),
                Err(e) => emit_at(self@, action@) == Err::<(StateView, OutcomeView), ErrorClass>(
                    class_of(e),
                ),
            },
    {
        match ReplicationOffset::try_from(&self.next_position) {
            Ok(off) => Ok(Outcome::Emit(action, off)),
            Err(e) => Err(e),
        }
    }

    fn until_reached(&self, until: Option<&ReplicationOffset>) -> (r: bool)
        ensures
            r == until_reached(self@, until_view(until)),
    {
        match until {
            None => false,
            Some(u) => {
                let limit = BinlogPosition::from(u);
                match self.next_position.partial_cmp(&limit) {
                    Some(core::cmp::Ordering::Greater) => true,
                    Some(core::cmp::Ordering::Equal) => true,
                    _ => false,
                }
            },
        }
    }

    fn after_quiet(&self, until: Option<&ReplicationOffset>) -> (r: Result<Outcome, ReplicationError>)
        ensures
            match r {
                Ok(o) => after_quiet(self@, until_view(until)) == Ok::<
                    (StateView, OutcomeView),
                    ErrorClass,
                >((self@, o@)),
                Err(e) => after_quiet(self@, until_view(until)) == Err::<
                    (StateView, OutcomeView),
                    ErrorClass,
                >(class_of(e)),
            },
    {
        if self.until_reached(until) {
            self.emit(ReplicationAction::LogPosition)
        } else {
            Ok(Outcome::Continue)
        }
    }

    /// Handles one decoded event: checks its checksum, advances the position to the
    /// event's `log_pos`, and handles it as `step` describes.
    pub fn process_event(&mut self, ev: BinlogEvent, until: Option<&ReplicationOffset>) -> (r: Result<
        Outcome,
        ReplicationError,
    >)
        ensures
            match r {
                Ok(o) => step(old(self)@, ev@, until_view(until)) == Ok::<
                    (StateView, OutcomeView),
                    ErrorClass,
                >((final(self)@, o@)),
                Err(e) => step(old(self)@, ev@, until_view(until)) == Err::<
                    (StateView, OutcomeView),
                    ErrorClass,
                >(class_of(e)),
            },
    {
        if !validate_event_checksum(&ev.checksum) {
            let stored = match ev.checksum.stored {
                Some(s) => s,
                None => 0,
            };
            return Err(ReplicationError::ChecksumMismatch { stored, computed: ev.checksum.computed });
        }
        self.next_position.position = ev.log_pos;
        let event_type = ev.event_type;
        match ev.body {
            EventBody::Rotate { name, position } => {
                if position > u32::MAX as u64 {
                    return Err(protocol_error("rotate position does not fit 32 bits"));
                }
                self.next_position = BinlogPosition { binlog_file: name, position: position as u32 };
                self.emit(ReplicationAction::LogPosition)
            },
            EventBody::Query { updated_db_names, query } => {
                if updated_db_names.len() == 0 {
                    self.after_quiet(until)
                } else {
                    let schema = updated_db_names[0].clone();
                    Ok(Outcome::ParseDdl { schema, query })
                }
            },
            EventBody::TableMap { .. } => self.after_quiet(until),
            EventBody::Rows { kind, table, rows, .. } => {
                let t = &table;
                let ops = match rows_to_ops(kind, &rows, t) {
                    Ok(ops) => ops,
                    Err(e) => return Err(e),
                };
                let table = TableName { schema: t.schema.clone(), name: t.table.clone() };
                let action = ReplicationAction::TableAction {
                    table,
                    actions: ops,
                    txid: self.current_gtid,
                };
                self.emit(action)
            },
            EventBody::LegacyRows => Err(ReplicationError::UnsupportedEvent(event_type)),
            EventBody::Gtid { gno } => {
                self.current_gtid = Some(gno);
                self.after_quiet(until)
            },
            EventBody::Other => self.after_quiet(until),
        }
    }

    /// Completes a schema-affecting statement that `process_event` handed out: with the
    /// parser's statements it emits a `DdlChange`; with `None` (the text did not parse) it
    /// counts the failure and goes on as after any event that yields nothing.
    pub fn finish_ddl(
        &mut self,
        schema: String,
        parsed: Option<Vec<String>>,
        until: Option<&ReplicationOffset>,
    ) -> (r: Result<Outcome, ReplicationError>)
        ensures
            match r {
                Ok(o) => ddl_step(old(self)@, schema@, parsed_view(parsed), until_view(until))
                    == Ok::<(StateView, OutcomeView), ErrorClass>((final(self)@, o@)),
                Err(e) => ddl_step(old(self)@, schema@, parsed_view(parsed), until_view(until))
                    == Err::<(StateView, OutcomeView), ErrorClass>(class_of(e)),
            },
    {
        match parsed {
            Some(changes) => self.emit(ReplicationAction::DdlChange { schema, changes }),
            None => {
                if self.ddl_failures < u64::MAX {
                    self.ddl_failures = self.ddl_failures + 1;
                }
                self.after_quiet(until)
            },
        }
    }
}

/// The event does not move the position backwards: a rotation names a position at or
/// after the current one, and any other event's `log_pos` is at or after the current offset.
pub open spec fn in_order(s: StateView, ev: EventView) -> bool {
    match ev.body {
        BodyView::Rotate { name, position } => position <= u32::MAX && at_or_after(
            name,
            position as u32,
            s.file,
            s.position,
        ),
        _ => ev.log_pos >= s.position,
    }
}

/// Position monotonicity: an event that arrives in order leaves the session's position at
/// or after where it was, and so does the completion of a DDL statement.
pub proof fn lemma_position_non_decreasing(
    s: StateView,
    ev: EventView,
    until: Option<(Seq<char>, u128)>,
    schema: Seq<char>,
    parsed: Option<Seq<Seq<char>>>,
)
    ensures
        in_order(s, ev) ==> (step(s, ev, until) matches Ok((s2, _)) ==> at_or_after(
            s2.file,
            s2.position,
            s.file,
            s.position,
        )),
        ddl_step(s, schema, parsed, until) matches Ok((s2, _)) ==> at_or_after(
            s2.file,
            s2.position,
            s.file,
            s.position,
        ),
{
}

/// Position monotonicity over a run of the session: when every state of the run is at or
/// after the one before it (as `lemma_position_non_decreasing` gives for events that arrive
/// in order) and all positions belong to one log family, every later state of the run is
/// at or after every earlier one.
pub proof fn lemma_run_positions_non_decreasing(states: Seq<StateView>, base: Seq<char>)
    requires
        forall|i: int| 0 <= i < states.len() ==> comparable_in(#[trigger] states[i].file, base),
        forall|i: int|
            0 < i < states.len() ==> at_or_after(
                #[trigger] states[i].file,
                states[i].position,
                states[i - 1].file,
                states[i - 1].position,
            ),
    ensures
        forall|i: int, j: int|
            0 <= i <= j < states.len() ==> at_or_after(
                #[trigger] states[j].file,
                states[j].position,
                #[trigger] states[i].file,
                states[i].position,
            ),
    decreases states.len(),
{
    if states.len() > 0 {
        let init = states.drop_last();
        let n = states.len() - 1;
        assert forall|i: int| 0 < i < init.len() implies at_or_after(
            #[trigger] init[i].file,
            init[i].position,
            init[i - 1].file,
            init[i - 1].position,
        ) by {
            assert(init[i] == states[i]);
            assert(init[i - 1] == states[i - 1]);
            assert(at_or_after(states[i].file, states[i].position, states[i - 1].file, states[i - 1].position));
        }
        assert forall|i: int| 0 <= i < init.len() implies comparable_in(#[trigger] init[i].file, base) by {
            assert(init[i] == states[i]);
            assert(comparable_in(states[i].file, base));
        }
        lemma_run_positions_non_decreasing(init, base);
        assert forall|i: int, j: int| 0 <= i <= j < states.len() implies at_or_after(
            #[trigger] states[j].file,
            states[j].position,
            #[trigger] states[i].file,
            states[i].position,
        ) by {
            assert(comparable_in(states[i].file, base));
            assert(comparable_in(states[j].file, base));
            if i == j {
            } else if j == n {
                assert(init[i] == states[i]);
                assert(init[n - 1] == states[n - 1]);
                assert(comparable_in(states[n - 1].file, base));
                assert(at_or_after(
                    states[n].file,
                    states[n].position,
                    states[n - 1].file,
                    states[n - 1].position,
                ));
                assert(at_or_after(init[n - 1].file, init[n - 1].position, init[i].file, init[i].position));
                lemma_at_or_after_transitive(
                    states[n].file,
                    states[n].position,
                    states[n - 1].file,
                    states[n - 1].position,
                    states[i].file,
                    states[i].position,
                    base,
                );
            } else {
                assert(init[i] == states[i]);
                assert(init[j] == states[j]);
                assert(at_or_after(init[j].file, init[j].position, init[i].file, init[i].position));
            }
        }
    }
}

/// The replication offset of the state's position, where it has one.
pub open spec fn state_offset(s: StateView) -> nat {
    encoded_offset(s.file, s.position)
}

/// Position monotonicity over two calls: when two events arrive in order one after the
/// other and every position involved belongs to one log family, the position after the
/// second is at or after the position before the first.
#[verifier::rlimit(50)]
pub proof fn lemma_two_steps_non_decreasing(
    s0: StateView,
    e1: EventView,
    u1: Option<(Seq<char>, u128)>,
    e2: EventView,
    u2: Option<(Seq<char>, u128)>,
    base: Seq<char>,
)
    requires
        in_order(s0, e1),
        step(s0, e1, u1) is Ok,
        in_order(step(s0, e1, u1)->Ok_0.0, e2),
        step(step(s0, e1, u1)->Ok_0.0, e2, u2) is Ok,
        comparable_in(s0.file, base),
        comparable_in(step(s0, e1, u1)->Ok_0.0.file, base),
        comparable_in(step(step(s0, e1, u1)->Ok_0.0, e2, u2)->Ok_0.0.file, base),
    ensures
        ({
            let s1 = step(s0, e1, u1)->Ok_0.0;
            let s2 = step(s1, e2, u2)->Ok_0.0;
            at_or_after(s2.file, s2.position, s0.file, s0.position)
        }),
{
    let s1 = step(s0, e1, u1)->Ok_0.0;
    let s2 = step(s1, e2, u2)->Ok_0.0;
    lemma_position_non_decreasing(s0, e1, u1, seq![], None);
    assert(at_or_after(s1.file, s1.position, s0.file, s0.position));
    lemma_position_non_decreasing(s1, e2, u2, seq![], None);
    assert(at_or_after(s2.file, s2.position, s1.file, s1.position));
    lemma_at_or_after_transitive(
        s2.file,
        s2.position,
        s1.file,
        s1.position,
        s0.file,
        s0.position,
        base,
    );
}

/// Offset monotonicity over a run of the session: when every state of the run is at or
/// after the one before it and all positions are in one log family with a fixed suffix
/// width (as a server names its files), the packed replication offsets never decrease.
pub proof fn lemma_offsets_non_decreasing(states: Seq<StateView>, base: Seq<char>, width: nat)
    requires
        forall|i: int| 0 <= i < states.len() ==> in_family(#[trigger] states[i].file, base, width),
        forall|i: int|
            0 < i < states.len() ==> at_or_after(
                #[trigger] states[i].file,
                states[i].position,
                states[i - 1].file,
                states[i - 1].position,
            ),
    ensures
        forall|i: int|
            0 <= i < states.len() ==> offset_result(#[trigger] states[i].file, states[i].position)
                == Ok::<(Seq<char>, nat), ErrorClass>((base, state_offset(states[i]))),
        forall|i: int, j: int|
            0 <= i <= j < states.len() ==> #[trigger] state_offset(states[i]) <= #[trigger] state_offset(
                states[j],
            ),
    decreases states.len(),
{
    if states.len() > 0 {
        let init = states.drop_last();
        let n = states.len() - 1;
        assert forall|i: int| 0 < i < init.len() implies at_or_after(
            #[trigger] init[i].file,
            init[i].position,
            init[i - 1].file,
            init[i - 1].position,
        ) by {
            assert(init[i] == states[i]);
            assert(init[i - 1] == states[i - 1]);
            assert(at_or_after(states[i].file, states[i].position, states[i - 1].file, states[i - 1].position));
        }
        assert forall|i: int| 0 <= i < init.len() implies in_family(#[trigger] init[i].file, base, width) by {
            assert(init[i] == states[i]);
            assert(in_family(states[i].file, base, width));
        }
        lemma_offsets_non_decreasing(init, base, width);
        assert forall|i: int, j: int| 0 <= i <= j < states.len() implies #[trigger] state_offset(
            states[i],
        ) <= #[trigger] state_offset(states[j]) by {
            if j == n && i < n {
                assert(init[i] == states[i]);
                assert(init[n - 1] == states[n - 1]);
                assert(in_family(states[n].file, base, width));
                assert(in_family(states[n - 1].file, base, width));
                assert(at_or_after(
                    states[n].file,
                    states[n].position,
                    states[n - 1].file,
                    states[n - 1].position,
                ));
                lemma_order_matches_offsets(
                    states[n].file,
                    states[n].position,
                    states[n - 1].file,
                    states[n - 1].position,
                    base,
                    width,
                );
                assert(state_offset(init[i]) <= state_offset(init[n - 1]));
            } else if j < n {
                assert(init[i] == states[i]);
                assert(init[j] == states[j]);
                assert(state_offset(init[i]) <= state_offset(init[j]));
            }
        }
        assert forall|i: int| 0 <= i < states.len() implies offset_result(
            #[trigger] states[i].file,
            states[i].position,
        ) == Ok::<(Seq<char>, nat), ErrorClass>((base, state_offset(states[i]))) by {
            assert(in_family(states[i].file, base, width));
        }
    }
}

/// Transaction grouping: a table action carries the transaction id of the last GTID event;
/// a GTID event sets it, and no other event, nor a DDL completion, changes it.
pub proof fn lemma_txid_follows_gtid(
    s: StateView,
    ev: EventView,
    until: Option<(Seq<char>, u128)>,
    schema: Seq<char>,
    parsed: Option<Seq<Seq<char>>>,
)
    ensures
        step(s, ev, until) matches Ok((s2, out)) ==> {
            &&& (ev.body matches BodyView::Gtid { gno } ==> s2.gtid == Some(gno))
            &&& (!(ev.body is Gtid) ==> s2.gtid == s.gtid)
            &&& (out matches OutcomeView::Emit { action, .. } ==> (action matches ActionView::TableAction { txid, .. } ==> txid == s.gtid))
        },
        ddl_step(s, schema, parsed, until) matches Ok((s2, _)) ==> s2.gtid == s.gtid,
{
}

/// Update fan-out: the rows of an update event give two operations each, in row order:
/// the before image deleted, then the after image inserted.
pub proof fn lemma_update_fan_out(rows: Seq<ImagesView>, t: TableView)
    requires
        rows_ops(RowsKind::Update, rows, t) is Ok,
    ensures
        ({
            let ops = rows_ops(RowsKind::Update, rows, t)->Ok_0;
            &&& ops.len() == 2 * rows.len()
            &&& forall|i: int|
                0 <= i < rows.len() ==> {
                    &&& rows[i].before is Some
                    &&& rows[i].after is Some
                    &&& row_result(rows[i].before->0, t) is Ok
                    &&& row_result(rows[i].after->0, t) is Ok
                    &&& #[trigger] ops[2 * i] == OpView::DeleteRow(
                        row_result(rows[i].before->0, t)->Ok_0,
                    )
                    &&& ops[2 * i + 1] == OpView::Insert(row_result(rows[i].after->0, t)->Ok_0)
                }
        }),
    decreases rows.len(),
{
    if rows.len() > 0 {
        let init = rows.drop_last();
        lemma_update_fan_out(init, t);
        let prev = rows_ops(RowsKind::Update, init, t)->Ok_0;
        let ops = rows_ops(RowsKind::Update, rows, t)->Ok_0;
        let more = row_ops(RowsKind::Update, rows.last(), t)->Ok_0;
        assert(ops == prev + more);
        assert forall|i: int| 0 <= i < rows.len() implies {
            &&& rows[i].before is Some
            &&& rows[i].after is Some
            &&& row_result(rows[i].before->0, t) is Ok
            &&& row_result(rows[i].after->0, t) is Ok
            &&& #[trigger] ops[2 * i] == OpView::DeleteRow(row_result(rows[i].before->0, t)->Ok_0)
            &&& ops[2 * i + 1] == OpView::Insert(row_result(rows[i].after->0, t)->Ok_0)
        } by {
            if i < init.len() {
                assert(rows[i] == init[i]);
                assert(ops[2 * i] == prev[2 * i]);
                assert(ops[2 * i + 1] == prev[2 * i + 1]);
            } else {
                assert(rows[i] == rows.last());
                assert(ops[2 * i] == more[0]);
                assert(ops[2 * i + 1] == more[1]);
            }
        }
    }
}

/// Update fan-out at the level of an event: an update event that passes its checksum, converts without error and comes at a position that has a replication
/// offset yields one table action whose operations are, row by row, the before image
/// deleted and then the after image inserted.
pub proof fn lemma_update_event_fan_out(s: StateView, ev: EventView, until: Option<(Seq<char>, u128)>)
    requires
        checksum_ok(ev.checksum),
        ev.body matches BodyView::Rows { kind, table, rows, .. } && kind == RowsKind::Update
            && rows_ops(RowsKind::Update, rows, table) is Ok,
        offset_result(s.file, ev.log_pos) is Ok,
    ensures
        ({
            let rows = ev.body->Rows_rows;
            let t = ev.body->Rows_table;
            step(s, ev, until) matches Ok((_, OutcomeView::Emit { action: ActionView::TableAction { ops, schema, name, txid }, .. })) && {
                &&& schema == t.schema
                &&& name == t.table
                &&& txid == s.gtid
                &&& ops.len() == 2 * rows.len()
                &&& forall|i: int|
                    0 <= i < rows.len() ==> {
                        &&& #[trigger] ops[2 * i] == OpView::DeleteRow(
                            row_result(rows[i].before->0, t)->Ok_0,
                        )
                        &&& ops[2 * i + 1] == OpView::Insert(row_result(rows[i].after->0, t)->Ok_0)
                    }
            }
        }),
{
    let rows = ev.body->Rows_rows;
    let t = ev.body->Rows_table;
    lemma_update_fan_out(rows, t);
}

/// Checksum enforcement: an event whose CRC32 footer does not match the recomputed
/// checksum is a fatal error, and nothing is emitted for it.
pub proof fn lemma_checksum_enforced(s: StateView, ev: EventView, until: Option<(Seq<char>, u128)>)
    requires
        !checksum_ok(ev.checksum),
    ensures
        step(s, ev, until) == Err::<(StateView, OutcomeView), ErrorClass>(
            ErrorClass::ChecksumMismatch,
        ),
{
}

/// A result of `step` with the failure counter of its state set to `f`.
pub open spec fn with_failures(
    r: Result<(StateView, OutcomeView), ErrorClass>,
    f: u64,
) -> Result<(StateView, OutcomeView), ErrorClass> {
    match r {
        Ok((st, o)) => Ok((StateView { failures: f, ..st }, o)),
        Err(e) => Err(e),
    }
}

/// DDL resilience: a statement that does not parse adds one to the failure counter and
/// emits no schema change; every later event is then handled exactly as it would have
/// been had the statement never come, but for the counter.
pub proof fn lemma_ddl_failure_absorbed(
    s: StateView,
    schema: Seq<char>,
    until: Option<(Seq<char>, u128)>,
    ev: EventView,
    later: Option<(Seq<char>, u128)>,
)
    ensures
        ddl_step(s, schema, None, until) matches Ok((s2, out)) ==> {
            &&& s2 == StateView { failures: bumped(s.failures), ..s }
            &&& (s.failures < u64::MAX ==> s2.failures == s.failures + 1)
            &&& !(out matches OutcomeView::Emit { action: ActionView::DdlChange { .. }, .. })
            &&& step(s2, ev, later) == with_failures(step(s, ev, later), bumped(s.failures))
        },
{
    let s2 = StateView { failures: bumped(s.failures), ..s };
    let s1 = StateView { position: ev.log_pos, ..s };
    let t1 = StateView { position: ev.log_pos, ..s2 };
    assert(t1 == StateView { failures: bumped(s.failures), ..s1 });
    match ev.body {
        BodyView::Gtid { gno } => {
            assert(StateView { gtid: Some(gno), ..t1 } == StateView {
                failures: bumped(s.failures),
                ..StateView { gtid: Some(gno), ..s1 }
            });
        },
        _ => {},
    }
}

} // verus!
