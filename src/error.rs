use vstd::prelude::*;

verus! {

/// Everything that can stop the replication stream (or a position conversion).
#[derive(Debug)]
pub enum ReplicationError {
    /// The connection to the primary failed.
    Connection(String),
    /// A packet or event did not have the expected shape.
    Protocol(String),
    /// An event's CRC32 footer does not match the recomputed checksum.
    ChecksumMismatch { stored: u32, computed: u32 },
    /// A binlog file name without a `.` separator.
    InvalidBinlogName(String),
    /// A binlog file name whose suffix is not a decimal number of 1 to 17 digits.
    InvalidBinlogSuffix(String),
    /// A legacy (V1) rows event, identified by its event type code.
    UnsupportedEvent(u8),
    /// A column value that could not be converted, with the column's type code.
    Coercion { kind: u8, message: String },
}

/// The kind of a `ReplicationError`, without its message.
pub ghost enum ErrorClass {
    Connection,
    Protocol,
    ChecksumMismatch,
    InvalidBinlogName,
    InvalidBinlogSuffix,
    UnsupportedEvent(u8),
    Coercion(u8),
}

pub open spec fn class_of(e: ReplicationError) -> ErrorClass {
    match e {
        ReplicationError::Connection(_) => ErrorClass::Connection,
        ReplicationError::Protocol(_) => ErrorClass::Protocol,
        ReplicationError::ChecksumMismatch { .. } => ErrorClass::ChecksumMismatch,
        ReplicationError::InvalidBinlogName(_) => ErrorClass::InvalidBinlogName,
        ReplicationError::InvalidBinlogSuffix(_) => ErrorClass::InvalidBinlogSuffix,
        ReplicationError::UnsupportedEvent(c) => ErrorClass::UnsupportedEvent(c),
        ReplicationError::Coercion { kind, .. } => ErrorClass::Coercion(kind),
    }
}

/// A protocol error with the given message.
pub fn protocol_error(message: &str) -> (e: ReplicationError)
    ensures
        class_of(e) == ErrorClass::Protocol,
{
    ReplicationError::Protocol(String::from_str(message))
}

} // verus!
