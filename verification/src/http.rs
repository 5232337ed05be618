//! What the control plane answers over HTTP.

use vstd::prelude::*;

use crate::control::{ControlError, DatabaseError, IngestError};
use crate::model::{IngestAck, IngestStatus};

verus! {

pub const BAD_REQUEST: u16 = 400;

pub const CONFLICT: u16 = 409;

pub const INTERNAL_SERVER_ERROR: u16 = 500;

pub const INSUFFICIENT_STORAGE: u16 = 507;

/// A request that is not granted.
#[derive(Debug, PartialEq, Eq)]
pub struct Refusal {
    pub status: u16,
    pub message: String,
}

/// The status of a refused batch.
pub open spec fn ingest_status(error: IngestError) -> u16 {
    match error {
        IngestError::SchemaVersion => BAD_REQUEST,
        IngestError::Checksum => BAD_REQUEST,
        IngestError::Conflict => CONFLICT,
        IngestError::Database(DatabaseError::StorageFull) => INSUFFICIENT_STORAGE,
        IngestError::Database(_) => INTERNAL_SERVER_ERROR,
        IngestError::Encoding(_) => INTERNAL_SERVER_ERROR,
    }
}

/// The words for a refused batch.
pub open spec fn ingest_words(error: IngestError) -> Seq<char> {
    match error {
        IngestError::SchemaVersion => "invalid batch"@,
        IngestError::Checksum => "invalid batch"@,
        IngestError::Conflict => "batch identity conflict"@,
        IngestError::Database(DatabaseError::StorageFull) => "control storage limit reached"@,
        _ => error.words(),
    }
}

/// A failure of the control plane itself.
pub fn internal(message: String) -> (r: Refusal)
    ensures
        r.status == INTERNAL_SERVER_ERROR,
        r.message == message,
{
    Refusal { status: INTERNAL_SERVER_ERROR, message }
}

/// The answer to a batch: an acknowledgement that names it, or the reason why it is refused.
pub fn ingest_reply(batch_id: String, outcome: Result<IngestStatus, IngestError>) -> (r: Result<
    IngestAck,
    Refusal,
>)
    ensures
        match (outcome, r) {
            (Ok(status), Ok(ack)) => ack.batch_id == batch_id && ack.status == status,
            (Err(error), Err(refusal)) => {
                &&& refusal.status == ingest_status(error)
                &&& refusal.message@ == ingest_words(error)
            },
            _ => false,
        },
{
    match outcome {
        Ok(status) => Ok(IngestAck { batch_id, status }),
        Err(IngestError::SchemaVersion) => Err(
            Refusal { status: BAD_REQUEST, message: "invalid batch".to_owned() },
        ),
        Err(IngestError::Checksum) => Err(
            Refusal { status: BAD_REQUEST, message: "invalid batch".to_owned() },
        ),
        Err(IngestError::Conflict) => Err(
            Refusal { status: CONFLICT, message: "batch identity conflict".to_owned() },
        ),
        Err(IngestError::Database(DatabaseError::StorageFull)) => Err(
            Refusal {
                status: INSUFFICIENT_STORAGE,
                message: "control storage limit reached".to_owned(),
            },
        ),
        Err(error) => Err(internal(error.message())),
    }
}

/// The answer to a query for statistics that failed.
pub fn stats_refusal(error: ControlError) -> (r: Refusal)
    ensures
        r.status == INTERNAL_SERVER_ERROR,
        r.message@ == error.words(),
{
    internal(error.message())
}

/// The answer to a query for a series that failed.
pub fn series_refusal(error: ControlError) -> (r: Refusal)
    ensures
        r.status == BAD_REQUEST,
        r.message@ == error.words(),
{
    Refusal { status: BAD_REQUEST, message: error.message() }
}

} // verus!
