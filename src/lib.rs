//! Consumes a MySQL primary's binary replication log and turns its events into an ordered
//! stream of table mutations and schema changes.
use vstd::prelude::*;

pub mod error;
pub mod position;
pub mod value;
pub mod row;
pub mod event;
pub mod replica;
pub mod decode;
pub mod relation;
pub mod session;

verus! {

} // verus!
