use vstd::prelude::*;

use crate::error::{class_of, ErrorClass, ReplicationError};
use crate::decode::{frame_complete, le_value, EventReader};
use crate::event::{kind_of, EventKind, EventView};
use crate::position::{BinlogPosition, ReplicationOffset};
use crate::replica::{
    ddl_step, parsed_view, step, until_view, Outcome, OutcomeView, Replicator, StateView,
};

verus! {

/// The server id a replica registers with when none is configured.
pub const DEFAULT_SERVER_ID: u32 = u32::MAX - 55;

/// The server id to register with: the configured one, else `DEFAULT_SERVER_ID`.
pub fn server_id(configured: Option<u32>) -> (r: u32)
    ensures
        r == match configured {
            Some(id) => id,
            None => DEFAULT_SERVER_ID,
        },
{
    match configured {
        Some(id) => id,
        None => DEFAULT_SERVER_ID,
    }
}

/// One replica session's binlog stream, apart from the connection: the event reader
/// (with its table maps) and the state that turns events into actions.
pub struct BinlogStream {
    pub reader: EventReader,
    pub state: Replicator,
}

impl BinlogStream {
    /// A stream that starts reading at `start`.
    pub fn new(start: BinlogPosition) -> (r: BinlogStream)
        ensures
            r.state@ == (StateView {
                file: start.binlog_file@,
                position: start.position,
                gtid: None,
                failures: 0,
            }),
    {
        BinlogStream { reader: EventReader::new(), state: Replicator::new(start) }
    }

    /// Handles one packet of the binlog dump: decodes its event and handles it. What
    /// comes out is what `step` gives for the event the packet holds; a packet that does
    /// not decode leaves the state as it was.
    pub fn next_packet(&mut self, packet: &[u8], until: Option<&ReplicationOffset>) -> (r: Result<
        Outcome,
        ReplicationError,
    >)
        ensures
            packet@.len() == 0 || packet@[0] != 0 ==> (r matches Err(e) && class_of(e)
                == ErrorClass::Protocol),
            r matches Ok(o) ==> (exists|ev: EventView|
                ev.event_type == packet@[5] && ev.log_pos == le_value(packet@, 14, 4) && #[trigger] step(
                    old(self).state@,
                    ev,
                    until_view(until),
                ) == Ok::<(StateView, OutcomeView), ErrorClass>((final(self).state@, o@))),
            packet@.len() > 0 && packet@[0] == 0 && frame_complete(packet@) && kind_of(packet@[5])
                == EventKind::Other && packet@[5] != 15 && until is None ==> (r matches Ok(
                Outcome::Continue,
            ) && final(self).state@ == (StateView {
                position: le_value(packet@, 14, 4) as u32,
                ..old(self).state@
            })) || (r matches Err(e) && class_of(e) == ErrorClass::ChecksumMismatch
                && final(self).state@ == old(self).state@),
            r matches Err(e) ==> final(self).state@ == old(self).state@ || exists|ev: EventView|
                step(old(self).state@, ev, until_view(until)) == Err::<
                    (StateView, OutcomeView),
                    ErrorClass,
                >(class_of(e)),
    {
        let ev = match self.reader.decode(packet) {
            Ok(ev) => ev,
            Err(e) => return Err(e),
        };
        let ghost view = ev@;
        let r = self.state.process_event(ev, until);
        proof {
            if r is Ok {
                assert(step(old(self).state@, view, until_view(until)) == Ok::<
                    (StateView, OutcomeView),
                    ErrorClass,
                >((self.state@, r->Ok_0@)));
            } else {
                assert(step(old(self).state@, view, until_view(until)) == Err::<
                    (StateView, OutcomeView),
                    ErrorClass,
                >(class_of(r->Err_0)));
            }
        }
        r
    }

    /// Completes the statement of a `ParseDdl` outcome (see `Replicator::finish_ddl`).
    pub fn finish_ddl(
        &mut self,
        schema: String,
        parsed: Option<Vec<String>>,
        until: Option<&ReplicationOffset>,
    ) -> (r: Result<Outcome, ReplicationError>)
        ensures
            match r {
                Ok(o) => ddl_step(old(self).state@, schema@, parsed_view(parsed), until_view(until))
                    == Ok::<(StateView, OutcomeView), ErrorClass>((final(self).state@, o@)),
                Err(e) => ddl_step(old(self).state@, schema@, parsed_view(parsed), until_view(until))
                    == Err::<(StateView, OutcomeView), ErrorClass>(class_of(e)),
            },
    {
        self.state.finish_ddl(schema, parsed, until)
    }
}

} // verus!
