//! The control plane: idempotent ingest of batches, and queries that keep node and capture point
//! apart.

use vstd::prelude::*;

use crate::batch::{direction_key, BatchEnvelope, EnvelopeModel};
use crate::clock::seconds_since_epoch;
use crate::model::{
    ControlStats, FlowBucket, FlowBucketModel, IngestStatus, SeriesPoint, TransportProtocol,
    SCHEMA_VERSION,
};
use crate::retention::cutoff_at;
use crate::sqlite::{integer, RangeError, INTEGER_MAX};
use crate::inventory::{inventory, NodePoint};
use crate::series::{group_points, sum_points};
use crate::spool::pages_for;
use crate::text::decimal_text;

verus! {

/// How much the control plane may hold, and for how long.
///
/// The bytes are those of the database file. The database keeps to them, with the number of pages
/// that [`max_page_count`] gives, and reports [`DatabaseError::StorageFull`] for a batch that does
/// not fit: see [`ControlStore::ingest_written`].
#[derive(Debug, Clone, Copy, PartialEq, Eq, Structural)]
pub struct ControlLimits {
    pub max_database_bytes: u64,
    pub max_age_seconds: u64,
}

impl Default for ControlLimits {
    fn default() -> (r: Self)
        ensures
            r.max_database_bytes == 128 * 1024 * 1024,
            r.max_age_seconds == 48 * 60 * 60,
    {
        ControlLimits { max_database_bytes: 134_217_728, max_age_seconds: 172_800 }
    }
}

/// What a database reports.
#[derive(Debug, PartialEq, Eq)]
pub enum DatabaseError {
    /// A number does not fit its column.
    Range(RangeError),
    /// The database may not grow any more.
    StorageFull,
    /// Anything else, in the words of the database.
    Failure(String),
}

/// Why a batch could not be read.
#[derive(Debug, PartialEq, Eq)]
pub enum EncodingCause {
    /// The body has no JSON text.
    Body,
    /// A number does not fit its column.
    Range(RangeError),
    /// The clock is before the epoch, in the words of the clock.
    Clock(String),
}

/// Why a batch is refused.
#[derive(Debug, PartialEq, Eq)]
pub enum IngestError {
    /// The format of the batch is not the current one.
    SchemaVersion,
    /// The checksum is not that of the body.
    Checksum,
    /// Another batch is held under the identity or the sequence number.
    Conflict,
    /// The database failed.
    Database(DatabaseError),
    /// The batch could not be read.
    Encoding(EncodingCause),
}

impl DatabaseError {
    /// The words for the error.
    pub open spec fn words(self) -> Seq<char> {
        match self {
            DatabaseError::Range(error) => error.words(),
            DatabaseError::StorageFull => "database or disk is full"@,
            DatabaseError::Failure(words) => words@,
        }
    }

    /// The error in words.
    pub fn message(&self) -> (r: String)
        ensures
            r@ == self.words(),
    {
        match self {
            DatabaseError::Range(error) => error.message(),
            DatabaseError::StorageFull => "database or disk is full".to_owned(),
            DatabaseError::Failure(words) => words.clone(),
        }
    }
}

impl EncodingCause {
    /// The words for the error.
    pub open spec fn words(self) -> Seq<char> {
        match self {
            EncodingCause::Body => "serialize batch body"@,
            EncodingCause::Range(error) => error.words(),
            EncodingCause::Clock(words) => "system clock is before Unix epoch: "@ + words@,
        }
    }

    /// The error in words.
    pub fn message(&self) -> (r: String)
        ensures
            r@ == self.words(),
    {
        match self {
            EncodingCause::Body => "serialize batch body".to_owned(),
            EncodingCause::Range(error) => error.message(),
            EncodingCause::Clock(words) => {
                let mut r = "system clock is before Unix epoch: ".to_owned();
                r.append(words.as_str());
                r
            },
        }
    }
}

impl IngestError {
    /// The words for the error.
    pub open spec fn words(self) -> Seq<char> {
        match self {
            IngestError::SchemaVersion => "unsupported schema version"@,
            IngestError::Checksum => "batch checksum is invalid"@,
            IngestError::Conflict => "batch identity conflicts with stored data"@,
            IngestError::Database(error) => error.words(),
            IngestError::Encoding(cause) => cause.words(),
        }
    }

    /// The error in words.
    pub fn message(&self) -> (r: String)
        ensures
            r@ == self.words(),
    {
        match self {
            IngestError::SchemaVersion => "unsupported schema version".to_owned(),
            IngestError::Checksum => "batch checksum is invalid".to_owned(),
            IngestError::Conflict => "batch identity conflicts with stored data".to_owned(),
            IngestError::Database(error) => error.message(),
            IngestError::Encoding(cause) => cause.message(),
        }
    }
}

/// Whether the error is that of the clock.
pub open spec fn is_clock_error(error: IngestError) -> bool {
    error is Encoding && error->Encoding_0 is Clock
}

/// The name of a protocol in the control plane's rows.
pub open spec fn protocol_name(protocol: TransportProtocol) -> Seq<char> {
    match protocol {
        TransportProtocol::Tcp => "tcp"@,
        TransportProtocol::Udp => "udp"@,
        TransportProtocol::Icmp => "icmp"@,
        TransportProtocol::Other(number) => other_name(number),
    }
}

/// The name of a protocol that has none of its own.
pub open spec fn other_name(number: u8) -> Seq<char> {
    "other:"@ + crate::text::decimal(number as nat)
}

fn other_key(number: u8) -> (r: String)
    ensures
        r@ == other_name(number),
{
    let mut r = "other:".to_owned();
    r.append(decimal_text(number as u64).as_str());
    r
}

/// The name of a protocol in the control plane's rows.
pub fn protocol_key(protocol: TransportProtocol) -> (r: String)
    ensures
        r@ == protocol_name(protocol),
{
    match protocol {
        TransportProtocol::Tcp => "tcp".to_owned(),
        TransportProtocol::Udp => "udp".to_owned(),
        TransportProtocol::Icmp => "icmp".to_owned(),
        TransportProtocol::Other(number) => other_key(number),
    }
}

/// One bucket as the control plane holds it.
#[derive(Debug)]
pub struct FlowRow {
    pub bucket_start: u64,
    pub capture_point: String,
    pub direction: &'static str,
    pub protocol: String,
    pub source_ip: String,
    pub destination_ip: String,
    pub source_port: Option<u16>,
    pub destination_port: Option<u16>,
    pub packets: u64,
    pub bytes: u64,
}

/// The value of a [`FlowRow`].
pub struct FlowModel {
    pub bucket_start: u64,
    pub capture_point: Seq<char>,
    pub direction: Seq<char>,
    pub protocol: Seq<char>,
    pub source_ip: Seq<char>,
    pub destination_ip: Seq<char>,
    pub source_port: Option<u16>,
    pub destination_port: Option<u16>,
    pub packets: u64,
    pub bytes: u64,
}

impl View for FlowRow {
    type V = FlowModel;

    open spec fn view(&self) -> FlowModel {
        FlowModel {
            bucket_start: self.bucket_start,
            capture_point: self.capture_point@,
            direction: self.direction@,
            protocol: self.protocol@,
            source_ip: self.source_ip@,
            destination_ip: self.destination_ip@,
            source_port: self.source_port,
            destination_port: self.destination_port,
            packets: self.packets,
            bytes: self.bytes,
        }
    }
}

/// The values of rows.
pub open spec fn flow_models(rows: Seq<FlowRow>) -> Seq<FlowModel> {
    Seq::new(rows.len(), |i: int| rows[i]@)
}

/// The row of a bucket.
pub open spec fn flow_of(bucket: FlowBucketModel) -> FlowModel {
    FlowModel {
        bucket_start: bucket.bucket_start,
        capture_point: bucket.key.capture_point,
        direction: crate::batch::direction_name(bucket.key.direction),
        protocol: protocol_name(bucket.key.protocol),
        source_ip: crate::addr::ip_text(bucket.key.source_ip),
        destination_ip: crate::addr::ip_text(bucket.key.destination_ip),
        source_port: bucket.key.source_port,
        destination_port: bucket.key.destination_port,
        packets: bucket.packets,
        bytes: bucket.bytes,
    }
}

/// The rows of buckets.
pub open spec fn flows_of(buckets: Seq<FlowBucketModel>) -> Seq<FlowModel> {
    Seq::new(buckets.len(), |i: int| flow_of(buckets[i]))
}

/// The first number of the buckets that no column can hold.
pub open spec fn buckets_misfit(buckets: Seq<FlowBucketModel>) -> Option<RangeError>
    decreases buckets.len(),
{
    if buckets.len() == 0 {
        None
    } else {
        match buckets_misfit(buckets.drop_last()) {
            Some(error) => Some(error),
            None => bucket_misfit(buckets.last()),
        }
    }
}

/// The first number of a bucket that no column can hold.
pub open spec fn bucket_misfit(bucket: FlowBucketModel) -> Option<RangeError> {
    if bucket.bucket_start > INTEGER_MAX {
        Some(RangeError { field: "bucket_start" })
    } else if bucket.packets > INTEGER_MAX {
        Some(RangeError { field: "bucket packets" })
    } else if bucket.bytes > INTEGER_MAX {
        Some(RangeError { field: "bucket bytes" })
    } else {
        None
    }
}

/// The row of a bucket, where every number fits its column.
fn flow_row(bucket: &FlowBucket) -> (r: Result<FlowRow, RangeError>)
    ensures
        match r {
            Ok(row) => row@ == flow_of(bucket@) && bucket_misfit(bucket@) is None,
            Err(error) => bucket_misfit(bucket@) == Some(error),
        },
{
    integer(bucket.bucket_start, "bucket_start")?;
    integer(bucket.packets, "bucket packets")?;
    integer(bucket.bytes, "bucket bytes")?;
    Ok(
        FlowRow {
            bucket_start: bucket.bucket_start,
            capture_point: bucket.key.capture_point.clone(),
            direction: direction_key(bucket.key.direction),
            protocol: protocol_key(bucket.key.protocol),
            source_ip: bucket.key.source_ip.to_text(),
            destination_ip: bucket.key.destination_ip.to_text(),
            source_port: bucket.key.source_port,
            destination_port: bucket.key.destination_port,
            packets: bucket.packets,
            bytes: bucket.bytes,
        },
    )
}

/// The rows of buckets, where every number fits its column.
pub fn flow_rows(buckets: &Vec<FlowBucket>) -> (r: Result<Vec<FlowRow>, RangeError>)
    ensures
        match r {
            Ok(rows) => {
                &&& flow_models(rows@) == flows_of(crate::model::bucket_models(buckets@))
                &&& buckets_misfit(crate::model::bucket_models(buckets@)) is None
            },
            Err(error) => buckets_misfit(crate::model::bucket_models(buckets@)) == Some(error),
        },
{
    let ghost models = crate::model::bucket_models(buckets@);
    let mut rows: Vec<FlowRow> = Vec::new();
    let mut i: usize = 0;
    assert(flow_models(rows@) =~= flows_of(models.take(0)));
    while i < buckets.len()
        invariant
            i <= buckets.len(),
            models == crate::model::bucket_models(buckets@),
            flow_models(rows@) == flows_of(models.take(i as int)),
            buckets_misfit(models.take(i as int)) is None,
        decreases buckets.len() - i,
    {
        proof {
            assert(models.take(i + 1).drop_last() =~= models.take(i as int));
            assert(models.take(i + 1).last() == buckets[i as int]@);
        }
        match flow_row(&buckets[i]) {
            Ok(row) => {
                proof {
                    assert(flow_models(rows@.push(row)) =~= flow_models(rows@).push(row@));
                    assert(flows_of(models.take(i + 1)) =~= flows_of(models.take(i as int)).push(
                        flow_of(models[i as int]),
                    ));
                }
                rows.push(row);
            },
            Err(error) => {
                proof {
                    misfit_of_part(models, i + 1);
                }
                return Err(error);
            },
        }
        i += 1;
    }
    assert(models.take(i as int) =~= models);
    Ok(rows)
}

/// The first misfit among the first buckets is the first among all.
proof fn misfit_of_part(buckets: Seq<FlowBucketModel>, n: int)
    requires
        0 <= n <= buckets.len(),
        buckets_misfit(buckets.take(n)) is Some,
    ensures
        buckets_misfit(buckets) == buckets_misfit(buckets.take(n)),
    decreases buckets.len(),
{
    if n == buckets.len() {
        assert(buckets.take(n) =~= buckets);
    } else {
        assert(buckets.drop_last().take(n) =~= buckets.take(n));
        misfit_of_part(buckets.drop_last(), n);
    }
}

/// A batch that the control plane holds, with its rows.
pub struct StoredBatch {
    pub batch_id: String,
    pub checksum: String,
    pub node_id: String,
    pub boot_id: String,
    pub seq: u64,
    pub created_at: u64,
    pub flows: Vec<FlowRow>,
}

/// The value of a [`StoredBatch`].
pub struct StoredModel {
    pub batch_id: Seq<char>,
    pub checksum: Seq<char>,
    pub node_id: Seq<char>,
    pub boot_id: Seq<char>,
    pub seq: u64,
    pub created_at: u64,
    pub flows: Seq<FlowModel>,
}

impl View for StoredBatch {
    type V = StoredModel;

    open spec fn view(&self) -> StoredModel {
        StoredModel {
            batch_id: self.batch_id@,
            checksum: self.checksum@,
            node_id: self.node_id@,
            boot_id: self.boot_id@,
            seq: self.seq,
            created_at: self.created_at,
            flows: flow_models(self.flows@),
        }
    }
}

/// The values of batches.
pub open spec fn stored_models(batches: Seq<StoredBatch>) -> Seq<StoredModel> {
    Seq::new(batches.len(), |i: int| batches[i]@)
}

/// What the control plane holds: its limits, and the batches in the order of their ingest.
pub struct StoreModel {
    pub limits: ControlLimits,
    pub batches: Seq<StoredModel>,
}

/// What is held of an envelope.
pub open spec fn stored(envelope: EnvelopeModel) -> StoredModel {
    StoredModel {
        batch_id: envelope.batch_id,
        checksum: envelope.checksum,
        node_id: envelope.body.node_id,
        boot_id: envelope.body.boot_id,
        seq: envelope.body.seq,
        created_at: envelope.body.created_at,
        flows: flows_of(envelope.body.buckets),
    }
}

/// The checksum under which an identity is held.
pub open spec fn checksum_under(batches: Seq<StoredModel>, batch_id: Seq<char>) -> Option<Seq<char>>
    decreases batches.len(),
{
    if batches.len() == 0 {
        None
    } else if batches.last().batch_id == batch_id {
        Some(batches.last().checksum)
    } else {
        checksum_under(batches.drop_last(), batch_id)
    }
}

/// Whether a batch is held under that sequence number of the node and boot.
pub open spec fn has_place(
    batch: StoredModel,
    node_id: Seq<char>,
    boot_id: Seq<char>,
    seq: u64,
) -> bool {
    batch.node_id == node_id && batch.boot_id == boot_id && batch.seq == seq
}

/// Whether some batch is held under that sequence number of the node and boot.
pub open spec fn sequence_taken(
    batches: Seq<StoredModel>,
    node_id: Seq<char>,
    boot_id: Seq<char>,
    seq: u64,
) -> bool {
    exists|i: int|
        0 <= i < batches.len() && has_place(#[trigger] batches[i], node_id, boot_id, seq)
}

/// The batches that are not too old.
pub open spec fn unexpired(batches: Seq<StoredModel>, cutoff: u64) -> Seq<StoredModel> {
    batches.filter(|batch: StoredModel| batch.created_at >= cutoff)
}

/// What an envelope itself is refused for.
pub open spec fn envelope_fault(envelope: EnvelopeModel) -> Option<IngestError> {
    if envelope.body.schema_version != SCHEMA_VERSION {
        Some(IngestError::SchemaVersion)
    } else {
        match crate::batch::checksum_of(envelope.body) {
            None => Some(IngestError::Encoding(EncodingCause::Body)),
            Some(checksum) => if checksum != envelope.checksum {
                Some(IngestError::Checksum)
            } else {
                None
            },
        }
    }
}

/// What comes of a sound envelope, given the checksum under which its identity is held and
/// whether its sequence number is taken.
pub open spec fn verdict(
    envelope: EnvelopeModel,
    existing: Option<Seq<char>>,
    taken: bool,
) -> Result<IngestStatus, IngestError> {
    match existing {
        Some(checksum) => if checksum == envelope.checksum {
            Ok(IngestStatus::Duplicate)
        } else {
            Err(IngestError::Conflict)
        },
        None => if envelope.body.seq > INTEGER_MAX {
            Err(IngestError::Encoding(EncodingCause::Range(RangeError { field: "batch seq" })))
        } else if taken {
            Err(IngestError::Conflict)
        } else if envelope.body.created_at > INTEGER_MAX {
            Err(
                IngestError::Encoding(
                    EncodingCause::Range(RangeError { field: "batch created_at" }),
                ),
            )
        } else {
            match buckets_misfit(envelope.body.buckets) {
                Some(error) => Err(IngestError::Encoding(EncodingCause::Range(error))),
                None => Ok(IngestStatus::Inserted),
            }
        },
    }
}

/// What comes of an envelope: the store after it, and whether it was new.
pub open spec fn ingested(store: StoreModel, envelope: EnvelopeModel, now: u64) -> Result<
    (StoreModel, IngestStatus),
    IngestError,
> {
    let cutoff = crate::retention::age_cutoff(now, store.limits.max_age_seconds);
    let left = unexpired(store.batches, cutoff);
    match envelope_fault(envelope) {
        Some(error) => Err(error),
        None => if cutoff > INTEGER_MAX {
            Err(
                IngestError::Database(
                    DatabaseError::Range(RangeError { field: "control cutoff" }),
                ),
            )
        } else {
            match verdict(
                envelope,
                checksum_under(left, envelope.batch_id),
                sequence_taken(
                    left,
                    envelope.body.node_id,
                    envelope.body.boot_id,
                    envelope.body.seq,
                ),
            ) {
                Err(error) => Err(error),
                Ok(IngestStatus::Duplicate) => Ok(
                    (StoreModel { batches: left, ..store }, IngestStatus::Duplicate),
                ),
                Ok(IngestStatus::Inserted) => Ok(
                    (
                        StoreModel { batches: left.push(stored(envelope)), ..store },
                        IngestStatus::Inserted,
                    ),
                ),
            }
        },
    }
}

/// Checks an envelope on its own: its format and its checksum.
pub fn check_envelope(envelope: &BatchEnvelope) -> (r: Result<(), IngestError>)
    ensures
        r == (match envelope_fault(envelope@) {
            Some(error) => Err::<(), IngestError>(error),
            None => Ok(()),
        }),
        r != Err::<(), IngestError>(IngestError::Encoding(EncodingCause::Body)),
{
    if envelope.body.schema_version != SCHEMA_VERSION {
        return Err(IngestError::SchemaVersion);
    }
    match envelope.has_valid_checksum() {
        Ok(valid) => if valid {
            Ok(())
        } else {
            Err(IngestError::Checksum)
        },
        Err(_) => Err(IngestError::Encoding(EncodingCause::Body)),
    }
}

/// The time before which batches are too old.
pub fn control_cutoff(now: u64, max_age_seconds: u64) -> (r: Result<u64, IngestError>)
    ensures
        ({
            let cutoff = crate::retention::age_cutoff(now, max_age_seconds);
            r == (if cutoff > INTEGER_MAX {
                Err::<u64, IngestError>(
                    IngestError::Database(
                        DatabaseError::Range(RangeError { field: "control cutoff" }),
                    ),
                )
            } else {
                Ok(cutoff)
            })
        }),
{
    let cutoff: u64 = cutoff_at(now, max_age_seconds);
    match integer(cutoff, "control cutoff") {
        Ok(_) => Ok(cutoff),
        Err(error) => Err(IngestError::Database(DatabaseError::Range(error))),
    }
}

/// The text, if there is one.
pub open spec fn optional_text(text: Option<String>) -> Option<Seq<char>> {
    match text {
        None => None,
        Some(text) => Some(text@),
    }
}

/// What an accepted envelope asks for.
pub enum Judgement {
    /// Its batch is held already.
    Duplicate,
    /// Its batch is new, and has these rows.
    Insert(Vec<FlowRow>),
}

/// Whether the batch was new.
pub open spec fn judgement_status(judgement: Judgement) -> IngestStatus {
    match judgement {
        Judgement::Duplicate => IngestStatus::Duplicate,
        Judgement::Insert(_) => IngestStatus::Inserted,
    }
}

/// Decides what comes of a sound envelope, given the checksum under which its identity is held
/// and whether its sequence number is taken.
pub fn judge_envelope(
    envelope: &BatchEnvelope,
    existing: &Option<String>,
    taken: bool,
) -> (r: Result<Judgement, IngestError>)
    ensures
        match r {
            Ok(judgement) => {
                &&& verdict(envelope@, optional_text(*existing), taken) == Ok::<
                    IngestStatus,
                    IngestError,
                >(judgement_status(judgement))
                &&& judgement matches Judgement::Insert(rows) ==> flow_models(rows@) == flows_of(
                    envelope@.body.buckets,
                )
            },
            Err(error) => verdict(envelope@, optional_text(*existing), taken) == Err::<
                IngestStatus,
                IngestError,
            >(error),
        },
{
    if let Some(checksum) = existing {
        return if *checksum == envelope.checksum {
            Ok(Judgement::Duplicate)
        } else {
            Err(IngestError::Conflict)
        };
    }
    if let Err(error) = integer(envelope.body.seq, "batch seq") {
        return Err(IngestError::Encoding(EncodingCause::Range(error)));
    }
    if taken {
        return Err(IngestError::Conflict);
    }
    if let Err(error) = integer(envelope.body.created_at, "batch created_at") {
        return Err(IngestError::Encoding(EncodingCause::Range(error)));
    }
    match flow_rows(&envelope.body.buckets) {
        Ok(rows) => Ok(Judgement::Insert(rows)),
        Err(error) => Err(IngestError::Encoding(EncodingCause::Range(error))),
    }
}

/// What is answered to an accepted batch, given whether the database could write it down.
pub fn settle(status: IngestStatus, written: Result<(), DatabaseError>) -> (r: Result<
    IngestStatus,
    IngestError,
>)
    ensures
        r == (match written {
            Ok(()) => Ok::<IngestStatus, IngestError>(status),
            Err(error) => Err(IngestError::Database(error)),
        }),
{
    match written {
        Ok(()) => Ok(status),
        Err(error) => Err(IngestError::Database(error)),
    }
}

/// Why the control plane refuses a request other than to take a batch.
#[derive(Debug, Clone, Copy, PartialEq, Eq)]
pub enum ControlError {
    /// A limit is zero.
    ZeroLimit,
    /// The range of time ends before it starts.
    EmptyRange,
    /// A number does not fit its column.
    Range(RangeError),
    /// A sum does not fit.
    TotalOverflow,
    /// The database is larger than it may become.
    TooManyPages { page_count: u64, max_pages: u64 },
}

impl ControlError {
    /// The words for the error.
    pub open spec fn words(self) -> Seq<char> {
        match self {
            ControlError::ZeroLimit => "control byte and age limits must be positive"@,
            ControlError::EmptyRange => "from must be less than or equal to to"@,
            ControlError::Range(error) => error.words(),
            ControlError::TotalOverflow => "integer overflow"@,
            ControlError::TooManyPages { page_count, max_pages } => {
                "control database already uses "@ + crate::text::decimal(page_count as nat)
                    + " pages, above configured limit "@ + crate::text::decimal(max_pages as nat)
            },
        }
    }

    /// The error in words.
    pub fn message(&self) -> (r: String)
        ensures
            r@ == self.words(),
    {
        match self {
            ControlError::ZeroLimit => "control byte and age limits must be positive".to_owned(),
            ControlError::EmptyRange => "from must be less than or equal to to".to_owned(),
            ControlError::Range(error) => error.message(),
            ControlError::TotalOverflow => "integer overflow".to_owned(),
            ControlError::TooManyPages { page_count, max_pages } => {
                let mut r = "control database already uses ".to_owned();
                r.append(decimal_text(*page_count).as_str());
                r.append(" pages, above configured limit ");
                r.append(decimal_text(*max_pages).as_str());
                r
            },
        }
    }
}

/// Every number of a row fits its column.
pub open spec fn flow_fits(row: FlowModel) -> bool {
    row.bucket_start <= INTEGER_MAX && row.packets <= INTEGER_MAX && row.bytes <= INTEGER_MAX
}

/// Every number of a batch and its rows fits its column.
pub open spec fn stored_fits(batch: StoredModel) -> bool {
    &&& batch.seq <= INTEGER_MAX
    &&& batch.created_at <= INTEGER_MAX
    &&& forall|i: int| 0 <= i < batch.flows.len() ==> flow_fits(#[trigger] batch.flows[i])
}

/// Two batches differ in identity and in place.
pub open spec fn batches_apart(a: StoredModel, b: StoredModel) -> bool {
    a.batch_id != b.batch_id && !has_place(a, b.node_id, b.boot_id, b.seq)
}

/// No two batches share an identity or a place in the sequence of a node and boot, and every
/// number fits its column.
pub open spec fn batches_in_order(batches: Seq<StoredModel>) -> bool {
    &&& forall|i: int, j: int|
        0 <= i < j < batches.len() ==> batches_apart(#[trigger] batches[i], #[trigger] batches[j])
    &&& forall|i: int| 0 <= i < batches.len() ==> stored_fits(#[trigger] batches[i])
}

impl StoreModel {
    /// What holds of every store: no two batches share an identity or a place in the sequence of
    /// a node and boot, and every number fits its column.
    pub open spec fn wf(self) -> bool {
        &&& self.limits.max_database_bytes > 0
        &&& self.limits.max_age_seconds > 0
        &&& batches_in_order(self.batches)
    }
}

/// The batches of the control plane, with their rows.
pub struct ControlStore {
    limits: ControlLimits,
    batches: Vec<StoredBatch>,
}

impl View for ControlStore {
    type V = StoreModel;

    closed spec fn view(&self) -> StoreModel {
        StoreModel { limits: self.limits, batches: stored_models(self.batches@) }
    }
}

/// An identity that is not held is held by no batch.
pub(crate) proof fn no_checksum_no_batch(batches: Seq<StoredModel>, batch_id: Seq<char>)
    ensures
        checksum_under(batches, batch_id) is None <==> (forall|i: int|
            0 <= i < batches.len() ==> (#[trigger] batches[i]).batch_id != batch_id),
    decreases batches.len(),
{
    if batches.len() > 0 {
        let before = batches.drop_last();
        no_checksum_no_batch(before, batch_id);
        if batches.last().batch_id != batch_id {
            if checksum_under(batches, batch_id) is None {
                assert forall|i: int| 0 <= i < batches.len() implies (
                #[trigger] batches[i]).batch_id != batch_id by {
                    if i < before.len() {
                        assert(before[i] == batches[i]);
                    }
                }
            } else {
                let i = choose|i: int|
                    0 <= i < before.len() && (#[trigger] before[i]).batch_id == batch_id;
                assert(batches[i] == before[i]);
            }
        } else {
            assert(batches[batches.len() - 1].batch_id == batch_id);
        }
    }
}

/// Buckets without a misfit have rows whose numbers fit.
proof fn fitting_buckets(buckets: Seq<FlowBucketModel>)
    requires
        buckets_misfit(buckets) is None,
    ensures
        forall|i: int| 0 <= i < flows_of(buckets).len() ==> flow_fits(#[trigger] flows_of(buckets)[i]),
    decreases buckets.len(),
{
    if buckets.len() > 0 {
        fitting_buckets(buckets.drop_last());
        assert forall|i: int| 0 <= i < flows_of(buckets).len() implies flow_fits(
            #[trigger] flows_of(buckets)[i],
        ) by {
            if i < buckets.len() - 1 {
                assert(flows_of(buckets.drop_last())[i] == flows_of(buckets)[i]);
            }
        }
    }
}

/// What holds of every store still holds once a batch was taken.
pub proof fn ingest_keeps_order(store: StoreModel, envelope: EnvelopeModel, now: u64)
    requires
        store.wf(),
        ingested(store, envelope, now) is Ok,
    ensures
        ingested(store, envelope, now)->Ok_0.0.wf(),
{
    let cutoff = crate::retention::age_cutoff(now, store.limits.max_age_seconds);
    let fresh = |batch: StoredModel| batch.created_at >= cutoff;
    let left = unexpired(store.batches, cutoff);
    let apart = |a: StoredModel, b: StoredModel| batches_apart(a, b);
    crate::retention::filter_keeps_pairs(store.batches, fresh, apart);
    crate::retention::filter_keeps_items(store.batches, fresh);
    assert forall|i: int, j: int| 0 <= i < j < left.len() implies batches_apart(
        #[trigger] left[i],
        #[trigger] left[j],
    ) by {
        assert(apart(left[i], left[j]));
    }
    assert forall|i: int| 0 <= i < left.len() implies stored_fits(#[trigger] left[i]) by {
        assert(store.batches.contains(left[i]));
    }
    let next = ingested(store, envelope, now)->Ok_0.0;
    if ingested(store, envelope, now)->Ok_0.1 == IngestStatus::Inserted {
        let new = stored(envelope);
        no_checksum_no_batch(left, envelope.batch_id);
        fitting_buckets(envelope.body.buckets);
        assert forall|i: int, j: int| 0 <= i < j < next.batches.len() implies batches_apart(
            #[trigger] next.batches[i],
            #[trigger] next.batches[j],
        ) by {
            if j == left.len() {
                assert(next.batches[i] == left[i]);
                assert(!has_place(
                    left[i],
                    envelope.body.node_id,
                    envelope.body.boot_id,
                    envelope.body.seq,
                ));
            }
        }
        assert(stored_fits(new));
    }
}

impl ControlStore {
    /// What holds of every store.
    pub open spec fn wf(self) -> bool {
        self@.wf()
    }

    /// Opens an empty store.
    pub fn open(limits: ControlLimits) -> (r: Result<Self, ControlError>)
        ensures
            match r {
                Ok(store) => {
                    &&& limits.max_database_bytes > 0
                    &&& limits.max_age_seconds > 0
                    &&& store.wf()
                    &&& store@ == (StoreModel { limits, batches: Seq::empty() })
                },
                Err(error) => {
                    &&& limits.max_database_bytes == 0 || limits.max_age_seconds == 0
                    &&& error == ControlError::ZeroLimit
                },
            },
    {
        if limits.max_database_bytes == 0 || limits.max_age_seconds == 0 {
            return Err(ControlError::ZeroLimit);
        }
        let store = ControlStore { limits, batches: Vec::new() };
        assert(store@.batches =~= Seq::empty());
        Ok(store)
    }

    /// Opens a store again: with the batches that an earlier store held, from a database with
    /// that many pages of that size. Opening forgets nothing, however old it is.
    pub fn restore(
        limits: ControlLimits,
        page_size: u64,
        page_count: u64,
        batches: Vec<StoredBatch>,
    ) -> (r: Result<Self, ControlError>)
        requires
            page_size > 0,
            batches_in_order(stored_models(batches@)),
        ensures
            match r {
                Ok(store) => {
                    &&& limits.max_database_bytes > 0
                    &&& limits.max_age_seconds > 0
                    &&& page_fault(limits.max_database_bytes, page_size, page_count) is None
                    &&& store.wf()
                    &&& store@ == (StoreModel { limits, batches: stored_models(batches@) })
                },
                Err(error) => if limits.max_database_bytes == 0 || limits.max_age_seconds == 0 {
                    error == ControlError::ZeroLimit
                } else {
                    page_fault(limits.max_database_bytes, page_size, page_count) == Some(error)
                },
            },
    {
        if limits.max_database_bytes == 0 || limits.max_age_seconds == 0 {
            return Err(ControlError::ZeroLimit);
        }
        if let Err(error) = max_page_count(limits.max_database_bytes, page_size, page_count) {
            return Err(error);
        }
        Ok(ControlStore { limits, batches })
    }

    /// Closes the store, and hands out the batches that it holds.
    pub fn close(self) -> (r: Vec<StoredBatch>)
        requires
            self.wf(),
        ensures
            stored_models(r@) == self@.batches,
            batches_in_order(stored_models(r@)),
    {
        self.batches
    }

    /// The checksum under which the identity is held by a batch that is not too old.
    fn existing_checksum(&self, batch_id: &String, cutoff: u64) -> (r: Option<String>)
        ensures
            optional_text(r) == checksum_under(unexpired(self@.batches, cutoff), batch_id@),
    {
        let ghost all = self@.batches;
        let ghost fresh = |batch: StoredModel| batch.created_at >= cutoff;
        let mut r: Option<String> = None;
        let mut i: usize = 0;
        proof {
            reveal(Seq::filter);
            assert(all.take(0) =~= Seq::empty());
        }
        while i < self.batches.len()
            invariant
                i <= self.batches.len(),
                all == self@.batches,
                fresh == (|batch: StoredModel| batch.created_at >= cutoff),
                optional_text(r) == checksum_under(all.take(i as int).filter(fresh), batch_id@),
            decreases self.batches.len() - i,
        {
            proof {
                reveal(Seq::filter);
                assert(all.take(i + 1).drop_last() =~= all.take(i as int));
                assert(all.take(i + 1).last() == self.batches[i as int]@);
            }
            if self.batches[i].created_at >= cutoff {
                proof {
                    let before = all.take(i as int).filter(fresh);
                    assert(before.push(self.batches[i as int]@).drop_last() =~= before);
                }
                if self.batches[i].batch_id == *batch_id {
                    r = Some(self.batches[i].checksum.clone());
                }
            }
            i += 1;
        }
        assert(all.take(i as int) =~= all);
        r
    }

    /// Whether the place is taken by a batch that is not too old.
    fn is_taken(&self, envelope: &BatchEnvelope, cutoff: u64) -> (r: bool)
        ensures
            r == sequence_taken(
                unexpired(self@.batches, cutoff),
                envelope@.body.node_id,
                envelope@.body.boot_id,
                envelope@.body.seq,
            ),
    {
        let ghost all = self@.batches;
        let ghost fresh = |batch: StoredModel| batch.created_at >= cutoff;
        let ghost node_id = envelope@.body.node_id;
        let ghost boot_id = envelope@.body.boot_id;
        let ghost seq = envelope@.body.seq;
        let mut i: usize = 0;
        proof {
            broadcast use vstd::seq_lib::group_filter_ensures;

            crate::retention::filter_keeps_items(all, fresh);
        }
        while i < self.batches.len()
            invariant
                i <= self.batches.len(),
                all == self@.batches,
                node_id == envelope@.body.node_id,
                boot_id == envelope@.body.boot_id,
                seq == envelope@.body.seq,
                fresh == (|batch: StoredModel| batch.created_at >= cutoff),
                forall|j: int|
                    0 <= j < i && (#[trigger] all[j]).created_at >= cutoff ==> !has_place(
                        all[j],
                        node_id,
                        boot_id,
                        seq,
                    ),
            decreases self.batches.len() - i,
        {
            assert(all[i as int] == self.batches[i as int]@);
            if self.batches[i].created_at >= cutoff && self.batches[i].node_id
                == envelope.body.node_id && self.batches[i].boot_id == envelope.body.boot_id
                && self.batches[i].seq == envelope.body.seq {
                proof {
                    broadcast use vstd::seq_lib::group_filter_ensures;

                    let left = all.filter(fresh);
                    assert(fresh(all[i as int]));
                    assert(left.contains(all[i as int]));
                    let k = choose|k: int| 0 <= k < left.len() && left[k] == all[i as int];
                    assert(has_place(left[k], node_id, boot_id, seq));
                }
                return true;
            }
            i += 1;
        }
        proof {
            let left = unexpired(all, cutoff);
            crate::retention::filter_keeps_items(all, fresh);
            assert forall|k: int| 0 <= k < left.len() implies !has_place(
                #[trigger] left[k],
                node_id,
                boot_id,
                seq,
            ) by {
                assert(all.contains(left[k]) && fresh(left[k]));
                let j = choose|j: int| 0 <= j < all.len() && all[j] == left[k];
                assert(all[j].created_at >= cutoff);
            }
        }
        false
    }

    /// Forgets the batches that are too old.
    fn prune_expired(&mut self, cutoff: u64)
        ensures
            final(self)@ == (StoreModel {
                batches: unexpired(old(self)@.batches, cutoff),
                ..old(self)@
            }),
    {
        let ghost all = self@.batches;
        let ghost fresh = |batch: StoredModel| batch.created_at >= cutoff;
        let ghost mut n: int = 0;
        let mut i: usize = 0;
        proof {
            reveal(Seq::filter);
            assert(all.take(0) =~= Seq::empty());
            assert(self@.batches =~= all.take(0).filter(fresh) + all.skip(0));
        }
        while i < self.batches.len()
            invariant
                0 <= n <= all.len(),
                i <= self.batches.len(),
                self.batches.len() - i == all.len() - n,
                fresh == (|batch: StoredModel| batch.created_at >= cutoff),
                i == all.take(n).filter(fresh).len(),
                stored_models(self.batches@) == all.take(n).filter(fresh) + all.skip(n),
                self.limits == old(self).limits,
            decreases self.batches.len() - i,
        {
            let ghost held = self.batches@;
            let ghost done = all.take(n).filter(fresh);
            proof {
                reveal(Seq::filter);
                assert(all.take(n + 1).drop_last() =~= all.take(n));
                assert(all.take(n + 1).last() == all[n]);
                assert(stored_models(held)[i as int] == all.skip(n)[0]);
                assert(held[i as int]@ == all[n]);
            }
            if self.batches[i].created_at < cutoff {
                self.batches.remove(i);
                proof {
                    assert(stored_models(held.remove(i as int)) =~= stored_models(held).remove(
                        i as int,
                    ));
                    assert(stored_models(held).remove(i as int) =~= done + all.skip(n + 1));
                }
            } else {
                proof {
                    assert(stored_models(held) =~= done.push(all[n]) + all.skip(n + 1));
                }
                i += 1;
            }
            proof {
                n = n + 1;
            }
        }
        proof {
            assert(all.take(n) =~= all);
            assert(self@.batches =~= all.filter(fresh));
        }
    }

    /// What an envelope asks for at the given time, and the time before which batches are too old.
    fn judge_at(&self, envelope: &BatchEnvelope, now: u64) -> (r: Result<
        (u64, Judgement),
        IngestError,
    >)
        ensures
            match r {
                Ok((cutoff, judgement)) => {
                    &&& cutoff == crate::retention::age_cutoff(now, self@.limits.max_age_seconds)
                    &&& ingested(self@, envelope@, now) is Ok
                    &&& ingested(self@, envelope@, now)->Ok_0.1 == judgement_status(judgement)
                    &&& judgement matches Judgement::Insert(rows) ==> flow_models(rows@)
                        == flows_of(envelope@.body.buckets)
                },
                Err(error) => ingested(self@, envelope@, now) == Err::<
                    (StoreModel, IngestStatus),
                    IngestError,
                >(error) && error != IngestError::Encoding(EncodingCause::Body),
            },
    {
        check_envelope(envelope)?;
        let cutoff: u64 = control_cutoff(now, self.limits.max_age_seconds)?;
        let existing = self.existing_checksum(&envelope.batch_id, cutoff);
        let taken = self.is_taken(envelope, cutoff);
        let judgement = judge_envelope(envelope, &existing, taken)?;
        Ok((cutoff, judgement))
    }

    /// Takes a batch at the given time, given whether the database could write it down. A batch
    /// that is held already is not taken again; one that contradicts what is held is refused; and
    /// so is one that the database could not write down, be it that it is full. Where it fails
    /// nothing changes.
    pub fn ingest_written(
        &mut self,
        envelope: &BatchEnvelope,
        now: u64,
        written: Result<(), DatabaseError>,
    ) -> (r: Result<IngestStatus, IngestError>)
        requires
            old(self).wf(),
        ensures
            final(self).wf(),
            match (ingested(old(self)@, envelope@, now), written) {
                (Err(error), _) => {
                    &&& r == Err::<IngestStatus, IngestError>(error)
                    &&& final(self)@ == old(self)@
                },
                (Ok(_), Err(error)) => {
                    &&& r == Err::<IngestStatus, IngestError>(IngestError::Database(error))
                    &&& final(self)@ == old(self)@
                },
                (Ok((next, status)), Ok(())) => {
                    &&& r == Ok::<IngestStatus, IngestError>(status)
                    &&& final(self)@ == next
                },
            },
            r != Err::<IngestStatus, IngestError>(IngestError::Encoding(EncodingCause::Body)),
    {
        let ghost store = self@;
        let (cutoff, judgement) = match self.judge_at(envelope, now) {
            Ok(judged) => judged,
            Err(error) => {
                return Err(error);
            },
        };
        let status = match &judgement {
            Judgement::Duplicate => IngestStatus::Duplicate,
            Judgement::Insert(_) => IngestStatus::Inserted,
        };
        let settled = settle(status, written);
        if settled.is_err() {
            return settled;
        }
        proof {
            ingest_keeps_order(store, envelope@, now);
        }
        self.prune_expired(cutoff);
        if let Judgement::Insert(flows) = judgement {
            let batch = StoredBatch {
                batch_id: envelope.batch_id.clone(),
                checksum: envelope.checksum.clone(),
                node_id: envelope.body.node_id.clone(),
                boot_id: envelope.body.boot_id.clone(),
                seq: envelope.body.seq,
                created_at: envelope.body.created_at,
                flows,
            };
            proof {
                assert(batch@ == stored(envelope@));
                assert(stored_models(self.batches@.push(batch)) =~= stored_models(
                    self.batches@,
                ).push(batch@));
            }
            self.batches.push(batch);
        }
        settled
    }

    /// Takes a batch at the given time. A batch that is held already is not taken again; one that
    /// contradicts what is held is refused. Where it fails nothing changes.
    pub fn ingest_at(&mut self, envelope: &BatchEnvelope, now: u64) -> (r: Result<
        IngestStatus,
        IngestError,
    >)
        requires
            old(self).wf(),
        ensures
            final(self).wf(),
            match r {
                Ok(status) => ingested(old(self)@, envelope@, now) == Ok::<
                    (StoreModel, IngestStatus),
                    IngestError,
                >((final(self)@, status)),
                Err(error) => {
                    &&& final(self)@ == old(self)@
                    &&& ingested(old(self)@, envelope@, now) == Err::<
                        (StoreModel, IngestStatus),
                        IngestError,
                    >(error)
                },
            },
            r != Err::<IngestStatus, IngestError>(IngestError::Encoding(EncodingCause::Body)),
    {
        self.ingest_written(envelope, now, Ok(()))
    }

    /// Takes a batch at the time of the clock.
    pub fn ingest(&mut self, envelope: &BatchEnvelope) -> (r: Result<IngestStatus, IngestError>)
        requires
            old(self).wf(),
        ensures
            final(self).wf(),
            match r {
                Ok(status) => exists|now: u64| #[trigger]
                    ingested(old(self)@, envelope@, now) == Ok::<
                        (StoreModel, IngestStatus),
                        IngestError,
                    >((final(self)@, status)),
                Err(error) => {
                    &&& final(self)@ == old(self)@
                    &&& is_clock_error(error) || exists|now: u64| #[trigger]
                        ingested(old(self)@, envelope@, now) == Err::<
                            (StoreModel, IngestStatus),
                            IngestError,
                        >(error)
                },
            },
    {
        match seconds_since_epoch() {
            Ok(now) => self.ingest_at(envelope, now),
            Err(words) => Err(IngestError::Encoding(EncodingCause::Clock(words))),
        }
    }
}

/// Whether a row is asked for: every row, or those of one capture point.
pub open spec fn is_selected(row: FlowModel, capture_point: Option<Seq<char>>) -> bool {
    capture_point matches Some(point) ==> row.capture_point == point
}

/// The traffic of a row.
pub open spec fn point_of(row: FlowModel) -> SeriesPoint {
    SeriesPoint { bucket_start: row.bucket_start, packets: row.packets, bytes: row.bytes }
}

/// The traffic of the rows that are asked for.
pub open spec fn flow_points(flows: Seq<FlowModel>, capture_point: Option<Seq<char>>) -> Seq<
    SeriesPoint,
>
    decreases flows.len(),
{
    if flows.len() == 0 {
        Seq::empty()
    } else {
        let before = flow_points(flows.drop_last(), capture_point);
        if is_selected(flows.last(), capture_point) {
            before.push(point_of(flows.last()))
        } else {
            before
        }
    }
}

/// The traffic of a node, or of one of its capture points.
pub open spec fn node_traffic(
    batches: Seq<StoredModel>,
    node: Seq<char>,
    capture_point: Option<Seq<char>>,
) -> Seq<SeriesPoint>
    decreases batches.len(),
{
    if batches.len() == 0 {
        Seq::empty()
    } else {
        let before = node_traffic(batches.drop_last(), node, capture_point);
        if batches.last().node_id == node {
            before + flow_points(batches.last().flows, capture_point)
        } else {
            before
        }
    }
}

/// Whether a batch counts for a node, or for one of its capture points: then only if it has rows
/// of it.
pub open spec fn batch_counts(
    batch: StoredModel,
    node: Seq<char>,
    capture_point: Option<Seq<char>>,
) -> bool {
    &&& batch.node_id == node
    &&& capture_point is Some ==> flow_points(batch.flows, capture_point).len() > 0
}

/// How many batches count for a node, or for one of its capture points.
pub open spec fn batch_count(
    batches: Seq<StoredModel>,
    node: Seq<char>,
    capture_point: Option<Seq<char>>,
) -> nat
    decreases batches.len(),
{
    if batches.len() == 0 {
        0
    } else {
        batch_count(batches.drop_last(), node, capture_point) + if batch_counts(
            batches.last(),
            node,
            capture_point,
        ) {
            1nat
        } else {
            0nat
        }
    }
}

/// The statistics over that many batches with that traffic.
pub open spec fn are_stats(stats: ControlStats, batches: nat, points: Seq<SeriesPoint>) -> bool {
    &&& stats.batches == batches
    &&& stats.flow_buckets == points.len()
    &&& stats.packets == crate::series::all_packets(points)
    &&& stats.bytes == crate::series::all_bytes(points)
}

/// Whether the sums over the traffic fit.
pub open spec fn totals_fit(points: Seq<SeriesPoint>) -> bool {
    crate::series::all_packets(points) <= INTEGER_MAX && crate::series::all_bytes(points)
        <= INTEGER_MAX
}

/// The statistics over that many batches with that traffic. It fails where a sum does not fit.
pub fn summarize(batches: u64, points: &Vec<SeriesPoint>) -> (r: Result<ControlStats, ControlError>)
    ensures
        match r {
            Ok(stats) => are_stats(stats, batches as nat, points@) && totals_fit(points@),
            Err(error) => !totals_fit(points@) && error == ControlError::TotalOverflow,
        },
{
    match sum_points(points) {
        Ok((packets, bytes)) => Ok(
            ControlStats { batches, flow_buckets: points.len() as u64, packets, bytes },
        ),
        Err(_) => Err(ControlError::TotalOverflow),
    }
}

/// The range of time that is asked for: without a start, from the beginning; without an end, to
/// the last time that a column can hold.
pub open spec fn range_of(from: Option<u64>, to: Option<u64>) -> Result<(u64, u64), ControlError> {
    let first = match from {
        Some(time) => time,
        None => 0,
    };
    let last = match to {
        Some(time) => time,
        None => INTEGER_MAX,
    };
    if first > last {
        Err(ControlError::EmptyRange)
    } else if first > INTEGER_MAX {
        Err(ControlError::Range(RangeError { field: "series from" }))
    } else if last > INTEGER_MAX {
        Err(ControlError::Range(RangeError { field: "series to" }))
    } else {
        Ok((first, last))
    }
}

/// The range of time that is asked for.
pub fn series_range(from: Option<u64>, to: Option<u64>) -> (r: Result<(u64, u64), ControlError>)
    ensures
        r == range_of(from, to),
{
    let first: u64 = match from {
        Some(time) => time,
        None => 0,
    };
    let last: u64 = match to {
        Some(time) => time,
        None => INTEGER_MAX,
    };
    if first > last {
        return Err(ControlError::EmptyRange);
    }
    if let Err(error) = integer(first, "series from") {
        return Err(ControlError::Range(error));
    }
    if let Err(error) = integer(last, "series to") {
        return Err(ControlError::Range(error));
    }
    Ok((first, last))
}

/// The points of a range of time.
pub open spec fn points_between(points: Seq<SeriesPoint>, first: u64, last: u64) -> Seq<
    SeriesPoint,
> {
    points.filter(|point: SeriesPoint| first <= point.bucket_start <= last)
}

/// The traffic by interval, in order, within a range of time.
pub fn series_between(points: &Vec<SeriesPoint>, first: u64, last: u64) -> (r: Result<
    Vec<SeriesPoint>,
    ControlError,
>)
    ensures
        ({
            let chosen = points_between(points@, first, last);
            match r {
                Ok(series) => crate::series::is_series(chosen, series@) && crate::series::sums_fit(
                    chosen,
                ),
                Err(error) => !crate::series::sums_fit(chosen) && error
                    == ControlError::TotalOverflow,
            }
        }),
{
    let mut chosen: Vec<SeriesPoint> = Vec::new();
    let mut i: usize = 0;
    proof {
        reveal(Seq::filter);
        assert(points@.take(0) =~= Seq::empty());
    }
    while i < points.len()
        invariant
            i <= points.len(),
            chosen@ == points_between(points@.take(i as int), first, last),
        decreases points.len() - i,
    {
        proof {
            reveal(Seq::filter);
            assert(points@.take(i + 1).drop_last() =~= points@.take(i as int));
        }
        let point = points[i];
        if first <= point.bucket_start && point.bucket_start <= last {
            chosen.push(point);
        }
        i += 1;
    }
    assert(points@.take(i as int) =~= points@);
    match group_points(&chosen) {
        Ok(series) => Ok(series),
        Err(_) => Err(ControlError::TotalOverflow),
    }
}

/// The node and the capture point of rows.
pub open spec fn flow_pairs(node: Seq<char>, flows: Seq<FlowModel>) -> Seq<
    (Seq<char>, Seq<char>),
> {
    Seq::new(flows.len(), |i: int| (node, flows[i].capture_point))
}

/// The node and the capture point of every row.
pub open spec fn store_pairs(batches: Seq<StoredModel>) -> Seq<(Seq<char>, Seq<char>)>
    decreases batches.len(),
{
    if batches.len() == 0 {
        Seq::empty()
    } else {
        store_pairs(batches.drop_last()) + flow_pairs(batches.last().node_id, batches.last().flows)
    }
}

impl ControlStore {
    /// The traffic of a node, or of one of its capture points, and how many batches count for it.
    fn traffic(&self, node: &str, capture_point: &Option<String>) -> (r: (u64, Vec<SeriesPoint>))
        ensures
            r.0 == batch_count(self@.batches, node@, optional_text(*capture_point)),
            r.1@ == node_traffic(self@.batches, node@, optional_text(*capture_point)),
    {
        let ghost all = self@.batches;
        let ghost point = optional_text(*capture_point);
        let node_id: String = node.to_owned();
        let mut count: u64 = 0;
        let mut points: Vec<SeriesPoint> = Vec::new();
        let mut i: usize = 0;
        assert(all.take(0) =~= Seq::empty());
        while i < self.batches.len()
            invariant
                i <= self.batches.len(),
                all == self@.batches,
                point == optional_text(*capture_point),
                node_id@ == node@,
                count <= i,
                count == batch_count(all.take(i as int), node@, point),
                points@ == node_traffic(all.take(i as int), node@, point),
            decreases self.batches.len() - i,
        {
            proof {
                assert(all.take(i + 1).drop_last() =~= all.take(i as int));
                assert(all.take(i + 1).last() == self.batches[i as int]@);
            }
            let batch = &self.batches[i];
            if batch.node_id == node_id {
                let held = points.len();
                let ghost before = points@;
                let ghost flows = flow_models(batch.flows@);
                let mut j: usize = 0;
                assert(flows.take(0) =~= Seq::empty());
                assert(points@ =~= before + flow_points(flows.take(0), point));
                while j < batch.flows.len()
                    invariant
                        j <= batch.flows.len(),
                        flows == flow_models(batch.flows@),
                        point == optional_text(*capture_point),
                        points@ == before + flow_points(flows.take(j as int), point),
                    decreases batch.flows.len() - j,
                {
                    proof {
                        assert(flows.take(j + 1).drop_last() =~= flows.take(j as int));
                        assert(flows.take(j + 1).last() == batch.flows[j as int]@);
                    }
                    let row = &batch.flows[j];
                    let selected = match capture_point {
                        None => true,
                        Some(wanted) => row.capture_point == *wanted,
                    };
                    if selected {
                        let ghost part = flow_points(flows.take(j as int), point);
                        assert((before + part).push(point_of(row@)) =~= before + part.push(
                            point_of(row@),
                        ));
                        points.push(
                            SeriesPoint {
                                bucket_start: row.bucket_start,
                                packets: row.packets,
                                bytes: row.bytes,
                            },
                        );
                    }
                    j += 1;
                }
                assert(flows.take(j as int) =~= flows);
                if capture_point.is_none() || points.len() > held {
                    count += 1;
                }
            }
            i += 1;
        }
        assert(all.take(i as int) =~= all);
        (count, points)
    }

    /// The statistics of a node, or of one of its capture points. It fails where a sum does not
    /// fit.
    pub fn stats_at(&self, node: &str, capture_point: &Option<String>) -> (r: Result<
        ControlStats,
        ControlError,
    >)
        ensures
            ({
                let points = node_traffic(self@.batches, node@, optional_text(*capture_point));
                match r {
                    Ok(stats) => are_stats(
                        stats,
                        batch_count(self@.batches, node@, optional_text(*capture_point)),
                        points,
                    ) && totals_fit(points),
                    Err(error) => !totals_fit(points) && error == ControlError::TotalOverflow,
                }
            }),
    {
        let (batches, points) = self.traffic(node, capture_point);
        summarize(batches, &points)
    }

    /// The statistics of a node. It fails where a sum does not fit.
    pub fn stats(&self, node: &str) -> (r: Result<ControlStats, ControlError>)
        ensures
            ({
                let points = node_traffic(self@.batches, node@, None);
                match r {
                    Ok(stats) => are_stats(stats, batch_count(self@.batches, node@, None), points)
                        && totals_fit(points),
                    Err(error) => !totals_fit(points) && error == ControlError::TotalOverflow,
                }
            }),
    {
        self.stats_at(node, &None)
    }

    /// The traffic of a node, or of one of its capture points, by interval, within a range of
    /// time. It fails where the range is empty or does not fit, or where a sum does not fit.
    pub fn series_at(
        &self,
        node: &str,
        capture_point: &Option<String>,
        from: Option<u64>,
        to: Option<u64>,
    ) -> (r: Result<Vec<SeriesPoint>, ControlError>)
        ensures
            match range_of(from, to) {
                Err(error) => r == Err::<Vec<SeriesPoint>, ControlError>(error),
                Ok((first, last)) => {
                    let chosen = points_between(
                        node_traffic(self@.batches, node@, optional_text(*capture_point)),
                        first,
                        last,
                    );
                    match r {
                        Ok(series) => crate::series::is_series(chosen, series@)
                            && crate::series::sums_fit(chosen),
                        Err(error) => !crate::series::sums_fit(chosen) && error
                            == ControlError::TotalOverflow,
                    }
                },
            },
    {
        match series_range(from, to) {
            Err(error) => Err(error),
            Ok((first, last)) => {
                let (_, points) = self.traffic(node, capture_point);
                series_between(&points, first, last)
            },
        }
    }

    /// The traffic of a node by interval, within a range of time. It fails where the range is
    /// empty or does not fit, or where a sum does not fit.
    pub fn series(&self, node: &str, from: Option<u64>, to: Option<u64>) -> (r: Result<
        Vec<SeriesPoint>,
        ControlError,
    >)
        ensures
            match range_of(from, to) {
                Err(error) => r == Err::<Vec<SeriesPoint>, ControlError>(error),
                Ok((first, last)) => {
                    let chosen = points_between(
                        node_traffic(self@.batches, node@, None),
                        first,
                        last,
                    );
                    match r {
                        Ok(series) => crate::series::is_series(chosen, series@)
                            && crate::series::sums_fit(chosen),
                        Err(error) => !crate::series::sums_fit(chosen) && error
                            == ControlError::TotalOverflow,
                    }
                },
            },
    {
        self.series_at(node, &None, from, to)
    }

    /// Which nodes report from which capture points, in order.
    pub fn nodes(&self) -> (r: Vec<NodePoint>)
        ensures
            crate::inventory::is_inventory(
                store_pairs(self@.batches),
                crate::inventory::node_points(r@),
            ),
    {
        let ghost all = self@.batches;
        let mut entries: Vec<NodePoint> = Vec::new();
        let mut i: usize = 0;
        assert(all.take(0) =~= Seq::empty());
        assert(crate::inventory::node_points(entries@) =~= store_pairs(all.take(0)));
        while i < self.batches.len()
            invariant
                i <= self.batches.len(),
                all == self@.batches,
                crate::inventory::node_points(entries@) == store_pairs(all.take(i as int)),
            decreases self.batches.len() - i,
        {
            proof {
                assert(all.take(i + 1).drop_last() =~= all.take(i as int));
                assert(all.take(i + 1).last() == self.batches[i as int]@);
            }
            let batch = &self.batches[i];
            let ghost before = store_pairs(all.take(i as int));
            let ghost pairs = flow_pairs(batch.node_id@, flow_models(batch.flows@));
            let mut j: usize = 0;
            assert(crate::inventory::node_points(entries@) =~= before + pairs.take(0));
            while j < batch.flows.len()
                invariant
                    j <= batch.flows.len(),
                    pairs == flow_pairs(batch.node_id@, flow_models(batch.flows@)),
                    crate::inventory::node_points(entries@) == before + pairs.take(j as int),
                decreases batch.flows.len() - j,
            {
                let entry = NodePoint {
                    node_id: batch.node_id.clone(),
                    capture_point: batch.flows[j].capture_point.clone(),
                };
                proof {
                    assert(entry@ == pairs[j as int]);
                    assert(crate::inventory::node_points(entries@.push(entry))
                        =~= crate::inventory::node_points(entries@).push(entry@));
                    assert(before + pairs.take(j + 1) =~= (before + pairs.take(j as int)).push(
                        pairs[j as int],
                    ));
                }
                entries.push(entry);
                j += 1;
            }
            assert(pairs.take(j as int) =~= pairs);
            i += 1;
        }
        assert(all.take(i as int) =~= all);
        inventory(&entries)
    }
}

/// How many pages the database of the control plane may have.
pub open spec fn page_limit(max_database_bytes: u64, page_size: u64) -> int {
    (max_database_bytes + page_size - 1) / page_size as int
}

/// What is wrong with the pages of a database: it has more of them than it may, or no column can
/// hold the number that it may have.
pub open spec fn page_fault(
    max_database_bytes: u64,
    page_size: u64,
    page_count: u64,
) -> Option<ControlError> {
    let limit = page_limit(max_database_bytes, page_size);
    if page_count > limit {
        Some(ControlError::TooManyPages { page_count, max_pages: limit as u64 })
    } else if limit > INTEGER_MAX {
        Some(ControlError::Range(RangeError { field: "max_page_count" }))
    } else {
        None
    }
}

/// How many pages the database of the control plane may have. It fails where the database has
/// more of them already, or where no column can hold the number.
pub fn max_page_count(max_database_bytes: u64, page_size: u64, page_count: u64) -> (r: Result<
    i64,
    ControlError,
>)
    requires
        page_size > 0,
    ensures
        match r {
            Ok(pages) => pages == page_limit(max_database_bytes, page_size) && page_fault(
                max_database_bytes,
                page_size,
                page_count,
            ) is None,
            Err(error) => page_fault(max_database_bytes, page_size, page_count) == Some(error),
        },
{
    let max_pages: u64 = pages_for(max_database_bytes, page_size);
    if page_count > max_pages {
        return Err(ControlError::TooManyPages { page_count, max_pages });
    }
    match integer(max_pages, "max_page_count") {
        Ok(pages) => Ok(pages),
        Err(error) => Err(ControlError::Range(error)),
    }
}

/// A batch that is held is found under its identity.
pub(crate) proof fn held_checksum(batches: Seq<StoredModel>, i: int)
    requires
        forall|i: int, j: int|
            0 <= i < j < batches.len() ==> batches_apart(
                #[trigger] batches[i],
                #[trigger] batches[j],
            ),
        0 <= i < batches.len(),
    ensures
        checksum_under(batches, batches[i].batch_id) == Some(batches[i].checksum),
    decreases batches.len(),
{
    if i < batches.len() - 1 {
        let before = batches.drop_last();
        assert forall|j: int, k: int| 0 <= j < k < before.len() implies batches_apart(
            #[trigger] before[j],
            #[trigger] before[k],
        ) by {
            assert(batches_apart(batches[j], batches[k]));
        }
        assert(batches_apart(batches[i], batches[batches.len() - 1]));
        held_checksum(before, i);
    }
}

/// What is not too old stays, apart from each other as before.
pub(crate) proof fn unexpired_facts(store: StoreModel, cutoff: u64)
    requires
        store.wf(),
    ensures
        ({
            let left = unexpired(store.batches, cutoff);
            &&& forall|i: int, j: int|
                0 <= i < j < left.len() ==> batches_apart(#[trigger] left[i], #[trigger] left[j])
            &&& forall|i: int|
                0 <= i < left.len() ==> store.batches.contains(#[trigger] left[i])
                    && left[i].created_at >= cutoff
            &&& forall|i: int|
                0 <= i < store.batches.len() && (#[trigger] store.batches[i]).created_at >= cutoff
                    ==> left.contains(store.batches[i])
        }),
{
    let left = unexpired(store.batches, cutoff);
    let fresh = |batch: StoredModel| batch.created_at >= cutoff;
    let apart = |a: StoredModel, b: StoredModel| batches_apart(a, b);
    crate::retention::filter_keeps_pairs(store.batches, fresh, apart);
    crate::retention::filter_keeps_items(store.batches, fresh);
    assert forall|i: int, j: int| 0 <= i < j < left.len() implies batches_apart(
        #[trigger] left[i],
        #[trigger] left[j],
    ) by {
        assert(apart(left[i], left[j]));
    }
    assert forall|i: int|
        0 <= i < store.batches.len() && (#[trigger] store.batches[i]).created_at
            >= cutoff implies left.contains(store.batches[i]) by {
        broadcast use vstd::seq_lib::group_filter_ensures;

        assert(fresh(store.batches[i]));
    }
}

/// A batch that is held and not too old is answered as a duplicate, and nothing changes but that
/// what is too old goes.
pub proof fn held_batches_are_duplicates(
    store: StoreModel,
    envelope: EnvelopeModel,
    now: u64,
    i: int,
)
    requires
        store.wf(),
        envelope_fault(envelope) is None,
        crate::retention::age_cutoff(now, store.limits.max_age_seconds) <= INTEGER_MAX,
        0 <= i < store.batches.len(),
        store.batches[i].batch_id == envelope.batch_id,
        store.batches[i].checksum == envelope.checksum,
        store.batches[i].created_at >= crate::retention::age_cutoff(
            now,
            store.limits.max_age_seconds,
        ),
    ensures
        ingested(store, envelope, now) == Ok::<(StoreModel, IngestStatus), IngestError>(
            (
                StoreModel {
                    batches: unexpired(
                        store.batches,
                        crate::retention::age_cutoff(now, store.limits.max_age_seconds),
                    ),
                    ..store
                },
                IngestStatus::Duplicate,
            ),
        ),
{
    let cutoff = crate::retention::age_cutoff(now, store.limits.max_age_seconds);
    let left = unexpired(store.batches, cutoff);
    unexpired_facts(store, cutoff);
    assert(left.contains(store.batches[i]));
    let k = choose|k: int| 0 <= k < left.len() && left[k] == store.batches[i];
    held_checksum(left, k);
}

/// Ingest is idempotent: a batch that was new is a duplicate the next time, for as long as it is
/// not too old; and at the same time nothing changes.
pub proof fn ingest_is_idempotent(store: StoreModel, envelope: EnvelopeModel, now: u64, later: u64)
    requires
        store.wf(),
        ingested(store, envelope, now) is Ok,
        ingested(store, envelope, now)->Ok_0.1 == IngestStatus::Inserted,
        crate::retention::age_cutoff(later, store.limits.max_age_seconds) <= INTEGER_MAX,
        envelope.body.created_at >= crate::retention::age_cutoff(
            later,
            store.limits.max_age_seconds,
        ),
    ensures
        ({
            let next = ingested(store, envelope, now)->Ok_0.0;
            let cutoff = crate::retention::age_cutoff(later, store.limits.max_age_seconds);
            &&& ingested(next, envelope, later) == Ok::<(StoreModel, IngestStatus), IngestError>(
                (
                    StoreModel { batches: unexpired(next.batches, cutoff), ..next },
                    IngestStatus::Duplicate,
                ),
            )
            &&& later == now ==> unexpired(next.batches, cutoff) == next.batches
        }),
{
    let next = ingested(store, envelope, now)->Ok_0.0;
    ingest_keeps_order(store, envelope, now);
    assert(next.batches[next.batches.len() - 1] == stored(envelope));
    held_batches_are_duplicates(next, envelope, later, next.batches.len() - 1);
    if later == now {
        let cutoff = crate::retention::age_cutoff(now, store.limits.max_age_seconds);
        unexpired_facts(store, cutoff);
        nothing_expires(next.batches, cutoff);
    }
}

/// Batches that are not too old all stay.
proof fn nothing_expires(batches: Seq<StoredModel>, cutoff: u64)
    requires
        forall|i: int| 0 <= i < batches.len() ==> (#[trigger] batches[i]).created_at >= cutoff,
    ensures
        unexpired(batches, cutoff) == batches,
    decreases batches.len(),
{
    reveal(Seq::filter);
    if batches.len() > 0 {
        nothing_expires(batches.drop_last(), cutoff);
        assert(batches[batches.len() - 1].created_at >= cutoff);
        assert(batches.drop_last().push(batches.last()) =~= batches);
    }
}

/// A sound batch that contradicts a batch that is held and not too old is refused: one with the
/// same identity and another checksum, or one with another identity in the same place.
pub proof fn contradictions_are_refused(
    store: StoreModel,
    envelope: EnvelopeModel,
    now: u64,
    i: int,
)
    requires
        store.wf(),
        envelope_fault(envelope) is None,
        crate::retention::age_cutoff(now, store.limits.max_age_seconds) <= INTEGER_MAX,
        0 <= i < store.batches.len(),
        store.batches[i].created_at >= crate::retention::age_cutoff(
            now,
            store.limits.max_age_seconds,
        ),
        ({
            ||| store.batches[i].batch_id == envelope.batch_id && store.batches[i].checksum
                != envelope.checksum
            ||| has_place(
                store.batches[i],
                envelope.body.node_id,
                envelope.body.boot_id,
                envelope.body.seq,
            ) && forall|j: int|
                0 <= j < store.batches.len() ==> (#[trigger] store.batches[j]).batch_id
                    != envelope.batch_id
        }),
    ensures
        ingested(store, envelope, now) == Err::<(StoreModel, IngestStatus), IngestError>(
            IngestError::Conflict,
        ),
{
    let cutoff = crate::retention::age_cutoff(now, store.limits.max_age_seconds);
    let left = unexpired(store.batches, cutoff);
    unexpired_facts(store, cutoff);
    assert(left.contains(store.batches[i]));
    let k = choose|k: int| 0 <= k < left.len() && left[k] == store.batches[i];
    assert(stored_fits(store.batches[i]));
    if store.batches[i].batch_id == envelope.batch_id {
        held_checksum(left, k);
    } else {
        no_checksum_no_batch(left, envelope.batch_id);
        assert(has_place(
            left[k],
            envelope.body.node_id,
            envelope.body.boot_id,
            envelope.body.seq,
        ));
        assert forall|j: int| 0 <= j < left.len() implies (#[trigger] left[j]).batch_id
            != envelope.batch_id by {
            assert(store.batches.contains(left[j]));
        }
    }
}

/// Once a batch was taken, nothing that is too old is held but, where it is that old itself, the
/// batch.
pub proof fn ingest_keeps_the_age_limit(
    store: StoreModel,
    envelope: EnvelopeModel,
    now: u64,
    i: int,
)
    requires
        store.wf(),
        ingested(store, envelope, now) is Ok,
        0 <= i < ingested(store, envelope, now)->Ok_0.0.batches.len(),
    ensures
        ({
            let batch = ingested(store, envelope, now)->Ok_0.0.batches[i];
            batch.created_at >= crate::retention::age_cutoff(now, store.limits.max_age_seconds)
                || batch == stored(envelope)
        }),
{
    unexpired_facts(store, crate::retention::age_cutoff(now, store.limits.max_age_seconds));
}

/// Nodes are kept apart: a new batch adds its own rows to the traffic of its node, a duplicate
/// adds nothing, and neither touches the traffic of another node.
pub proof fn nodes_are_kept_apart(
    store: StoreModel,
    envelope: EnvelopeModel,
    now: u64,
    node: Seq<char>,
    capture_point: Option<Seq<char>>,
)
    requires
        ingested(store, envelope, now) is Ok,
    ensures
        ({
            let (next, status) = ingested(store, envelope, now)->Ok_0;
            let before = node_traffic(
                unexpired(
                    store.batches,
                    crate::retention::age_cutoff(now, store.limits.max_age_seconds),
                ),
                node,
                capture_point,
            );
            node_traffic(next.batches, node, capture_point) == if status == IngestStatus::Inserted
                && node == envelope.body.node_id {
                before + flow_points(flows_of(envelope.body.buckets), capture_point)
            } else {
                before
            }
        }),
{
    let (next, status) = ingested(store, envelope, now)->Ok_0;
    let left = unexpired(
        store.batches,
        crate::retention::age_cutoff(now, store.limits.max_age_seconds),
    );
    if status == IngestStatus::Inserted {
        assert(next.batches.drop_last() =~= left);
    }
}

/// Capture points are kept apart: rows of another capture point do not count.
pub proof fn capture_points_are_kept_apart(flows: Seq<FlowModel>, capture_point: Seq<char>)
    requires
        forall|i: int|
            0 <= i < flows.len() ==> (#[trigger] flows[i]).capture_point != capture_point,
    ensures
        flow_points(flows, Some(capture_point)).len() == 0,
    decreases flows.len(),
{
    if flows.len() > 0 {
        assert(flows[flows.len() - 1].capture_point != capture_point);
        assert forall|i: int| 0 <= i < flows.drop_last().len() implies (
        #[trigger] flows.drop_last()[i]).capture_point != capture_point by {
            assert(flows.drop_last()[i] == flows[i]);
        }
        capture_points_are_kept_apart(flows.drop_last(), capture_point);
    }
}

/// A batch that differs from every batch that is held meets none among those that are left.
pub(crate) proof fn apart_from_what_is_left(
    store: StoreModel,
    envelope: EnvelopeModel,
    cutoff: u64,
)
    requires
        store.wf(),
        forall|j: int|
            0 <= j < store.batches.len() ==> batches_apart(
                #[trigger] store.batches[j],
                stored(envelope),
            ),
    ensures
        checksum_under(unexpired(store.batches, cutoff), envelope.batch_id) is None,
        !sequence_taken(
            unexpired(store.batches, cutoff),
            envelope.body.node_id,
            envelope.body.boot_id,
            envelope.body.seq,
        ),
{
    let left = unexpired(store.batches, cutoff);
    unexpired_facts(store, cutoff);
    assert forall|k: int| 0 <= k < left.len() implies batches_apart(
        #[trigger] left[k],
        stored(envelope),
    ) by {
        assert(store.batches.contains(left[k]));
        let j = choose|j: int| 0 <= j < store.batches.len() && store.batches[j] == left[k];
        assert(batches_apart(store.batches[j], stored(envelope)));
    }
    no_checksum_no_batch(left, envelope.batch_id);
}

/// A new batch adds itself to the statistics of its node: one batch, its rows, and their packets
/// and bytes.
pub proof fn a_new_batch_adds_to_the_statistics(
    store: StoreModel,
    envelope: EnvelopeModel,
    now: u64,
)
    requires
        ingested(store, envelope, now) is Ok,
        ingested(store, envelope, now)->Ok_0.1 == IngestStatus::Inserted,
    ensures
        ({
            let next = ingested(store, envelope, now)->Ok_0.0;
            let left = unexpired(
                store.batches,
                crate::retention::age_cutoff(now, store.limits.max_age_seconds),
            );
            let node = envelope.body.node_id;
            let before = node_traffic(left, node, None);
            let after = node_traffic(next.batches, node, None);
            let added = flow_points(flows_of(envelope.body.buckets), None);
            &&& batch_count(next.batches, node, None) == batch_count(left, node, None) + 1
            &&& added.len() == envelope.body.buckets.len()
            &&& after.len() == before.len() + added.len()
            &&& crate::series::all_packets(after) == crate::series::all_packets(before)
                + crate::series::all_packets(added)
            &&& crate::series::all_bytes(after) == crate::series::all_bytes(before)
                + crate::series::all_bytes(added)
        }),
{
    let next = ingested(store, envelope, now)->Ok_0.0;
    let left = unexpired(
        store.batches,
        crate::retention::age_cutoff(now, store.limits.max_age_seconds),
    );
    let node = envelope.body.node_id;
    let added = flow_points(flows_of(envelope.body.buckets), None);
    nodes_are_kept_apart(store, envelope, now, node, None);
    assert(next.batches.drop_last() =~= left);
    crate::series::sums_of_parts(node_traffic(left, node, None), added);
    every_row_counts(flows_of(envelope.body.buckets));
}

/// Where no capture point is asked for every row counts.
proof fn every_row_counts(flows: Seq<FlowModel>)
    ensures
        flow_points(flows, None).len() == flows.len(),
    decreases flows.len(),
{
    if flows.len() > 0 {
        every_row_counts(flows.drop_last());
    }
}

/// Opening again changes no answer: a store with the same batches and other limits answers every
/// query as before.
pub proof fn reopening_changes_no_answer(
    store: StoreModel,
    limits: ControlLimits,
    node: Seq<char>,
    capture_point: Option<Seq<char>>,
)
    ensures
        ({
            let next = StoreModel { limits, ..store };
            &&& node_traffic(next.batches, node, capture_point) == node_traffic(
                store.batches,
                node,
                capture_point,
            )
            &&& batch_count(next.batches, node, capture_point) == batch_count(
                store.batches,
                node,
                capture_point,
            )
            &&& store_pairs(next.batches) == store_pairs(store.batches)
        }),
{
}

} // verus!
