//! The words of every error, written out.

use vstd::prelude::*;

use crate::capture::NoLocalAddress;
use crate::control::{ControlError, DatabaseError, EncodingCause, IngestError};
use crate::packet::PacketError;
use crate::retention::SpoolError;
use crate::sqlite::{NegativeInteger, RangeError};
use crate::upload::UploadError;

verus! {

/// A frame without a flow is described by its link type, or by the header that is cut off or
/// makes no sense.
pub proof fn packet_errors_in_words(error: PacketError)
    ensures
        error matches PacketError::UnsupportedLinkType(link_type) ==> error.words()
            == "unsupported pcap link type "@ + crate::text::signed_decimal(link_type as int),
        error matches PacketError::Truncated(layer) ==> error.words() == "truncated "@ + layer@
            + " header"@,
        error matches PacketError::Invalid(layer) ==> error.words() == "invalid "@ + layer@
            + " header"@,
{
}

/// A number that fits no column is described by the name of its field, a negative one by itself.
pub proof fn number_errors_in_words(range: RangeError, negative: NegativeInteger)
    ensures
        range.words() == range.field@ + " exceeds SQLite INTEGER range"@,
        negative.words() == "negative value "@ + crate::text::signed_decimal(
            negative.value as int,
        ) + " for unsigned field"@,
{
}

/// What a spool refuses is described by its reason.
pub proof fn spool_errors_in_words(error: SpoolError)
    ensures
        error is ZeroLimit ==> error.words() == "spool byte and age limits must be positive"@,
        error is SequenceExhausted ==> error.words() == "spool sequence numbers are exhausted"@,
        error is Encoding ==> error.words() == "serialize batch body"@,
        error matches SpoolError::Range(range) ==> error.words() == range.field@
            + " exceeds SQLite INTEGER range"@,
        error is TotalOverflow ==> error.words() == "integer overflow"@,
        error is DuplicateBatch ==> error.words() == "UNIQUE constraint failed: batches.batch_id"@,
        error is UnknownBatch ==> error.words() == "ack does not match a pending batch"@,
        error is BatchLimit ==> error.words() == "out of range integral type conversion attempted"@,
{
}

/// What the control plane refuses is described by its reason.
pub proof fn control_errors_in_words(
    database: DatabaseError,
    cause: EncodingCause,
    ingest: IngestError,
    control: ControlError,
)
    ensures
        database matches DatabaseError::Range(range) ==> database.words() == range.field@
            + " exceeds SQLite INTEGER range"@,
        database is StorageFull ==> database.words() == "database or disk is full"@,
        database matches DatabaseError::Failure(words) ==> database.words() == words@,
        cause is Body ==> cause.words() == "serialize batch body"@,
        cause matches EncodingCause::Range(range) ==> cause.words() == range.field@
            + " exceeds SQLite INTEGER range"@,
        cause matches EncodingCause::Clock(words) ==> cause.words()
            == "system clock is before Unix epoch: "@ + words@,
        ingest is SchemaVersion ==> ingest.words() == "unsupported schema version"@,
        ingest is Checksum ==> ingest.words() == "batch checksum is invalid"@,
        ingest is Conflict ==> ingest.words() == "batch identity conflicts with stored data"@,
        ingest matches IngestError::Database(inner) ==> ingest.words() == inner.words(),
        ingest matches IngestError::Encoding(inner) ==> ingest.words() == inner.words(),
        control is ZeroLimit ==> control.words() == "control byte and age limits must be positive"@,
        control is EmptyRange ==> control.words() == "from must be less than or equal to to"@,
        control matches ControlError::Range(range) ==> control.words() == range.field@
            + " exceeds SQLite INTEGER range"@,
        control is TotalOverflow ==> control.words() == "integer overflow"@,
        control matches ControlError::TooManyPages { page_count, max_pages } ==> control.words()
            == "control database already uses "@ + crate::text::decimal(page_count as nat)
            + " pages, above configured limit "@ + crate::text::decimal(max_pages as nat),
{
}

/// What stops an upload or a run is described by its reason.
pub proof fn run_errors_in_words(upload: UploadError, missing: NoLocalAddress)
    ensures
        upload matches UploadError::Request(batch_id) ==> upload.words() == "upload batch "@
            + batch_id@,
        upload is Unreadable ==> upload.words() == "decode ingest ack"@,
        upload is OtherBatch ==> upload.words() == "ingest ack batch id does not match request"@,
        upload matches UploadError::Spool(error) ==> upload.words() == error.words(),
        missing.words() == "at least one --local-ip is required to classify direction"@,
{
}

} // verus!
