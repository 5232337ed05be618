//! What the values of the library's types owe the types: a value says every field as it is, and
//! lists of values go item by item.

use vstd::prelude::*;

use crate::batch::{BatchBody, BatchEnvelope};
use crate::capture::CaptureConfig;
use crate::control::{FlowRow, Judgement, StoredBatch};
use crate::inventory::NodePoint;
use crate::model::{FlowBucket, FlowKey, GapEvent, IngestStatus};
use crate::packet::{PacketError, PacketMeta};
use crate::retention::{Admission, SpoolError, SpoolRow};
use crate::spool::SpoolParts;
use crate::upload::{UploadError, UploadFault};

verus! {

/// The value of a key, a bucket or a packet says every field as it is.
pub proof fn packets_and_buckets_say_their_fields(
    key: FlowKey,
    bucket: FlowBucket,
    packet: PacketMeta,
    error: PacketError,
)
    ensures
        key@.capture_point == key.capture_point@,
        key@.direction == key.direction,
        key@.protocol == key.protocol,
        key@.source_ip == key.source_ip,
        key@.destination_ip == key.destination_ip,
        key@.source_port == key.source_port,
        key@.destination_port == key.destination_port,
        bucket@.bucket_start == bucket.bucket_start,
        bucket@.key == bucket.key@,
        bucket@.packets == bucket.packets,
        bucket@.bytes == bucket.bytes,
        packet@.timestamp == packet.timestamp,
        packet@.wire_bytes == packet.wire_bytes,
        packet@.key == packet.key@,
        crate::packet::parse_model(Ok(Some(packet))) == Ok::<
            Option<crate::packet::PacketModel>,
            PacketError,
        >(Some(packet@)),
        crate::packet::parse_model(Ok(None)) == Ok::<
            Option<crate::packet::PacketModel>,
            PacketError,
        >(None),
        crate::packet::parse_model(Err(error)) == Err::<
            Option<crate::packet::PacketModel>,
            PacketError,
        >(error),
{
}

/// The value of a batch says every field as it is.
pub proof fn batches_say_their_fields(body: BatchBody, envelope: BatchEnvelope)
    ensures
        body@.schema_version == body.schema_version,
        body@.node_id == body.node_id@,
        body@.boot_id == body.boot_id@,
        body@.seq == body.seq,
        body@.created_at == body.created_at,
        body@.buckets == crate::model::bucket_models(body.buckets@),
        body@.diagnostics == body.diagnostics,
        envelope@.batch_id == envelope.batch_id@,
        envelope@.checksum == envelope.checksum@,
        envelope@.body == envelope.body@,
{
}

/// The value of a pending batch or of a gap says every field as it is.
pub proof fn rows_and_gaps_say_their_fields(row: SpoolRow<BatchEnvelope>, gap: GapEvent)
    ensures
        row@.seq == row.seq,
        row@.batch_id == row.batch_id@,
        row@.checksum == row.checksum@,
        row@.created_at == row.created_at,
        row@.min_bucket == row.min_bucket,
        row@.max_bucket == row.max_bucket,
        row@.payload_bytes == row.payload_bytes,
        row@.payload == row.payload@,
        gap@.seq == gap.seq,
        gap@.min_bucket == gap.min_bucket,
        gap@.max_bucket == gap.max_bucket,
        gap@.lost_bytes == gap.lost_bytes,
        gap@.reason == gap.reason@,
        gap@.created_at == gap.created_at,
{
}

/// The value of what the control plane holds says every field as it is.
pub proof fn held_rows_say_their_fields(row: FlowRow, batch: StoredBatch, entry: NodePoint)
    ensures
        row@.bucket_start == row.bucket_start,
        row@.capture_point == row.capture_point@,
        row@.direction == row.direction@,
        row@.protocol == row.protocol@,
        row@.source_ip == row.source_ip@,
        row@.destination_ip == row.destination_ip@,
        row@.source_port == row.source_port,
        row@.destination_port == row.destination_port,
        row@.packets == row.packets,
        row@.bytes == row.bytes,
        batch@.batch_id == batch.batch_id@,
        batch@.checksum == batch.checksum@,
        batch@.node_id == batch.node_id@,
        batch@.boot_id == batch.boot_id@,
        batch@.seq == batch.seq,
        batch@.created_at == batch.created_at,
        batch@.flows == crate::control::flow_models(batch.flows@),
        entry@.0 == entry.node_id@,
        entry@.1 == entry.capture_point@,
{
}

/// The value of a run's settings says every field as it is.
pub proof fn settings_say_their_fields(config: CaptureConfig)
    ensures
        config@.interface == config.interface@,
        config@.local_ips == config.local_ips@,
        config@.node_id == config.node_id@,
        config@.boot_id == config.boot_id@,
        config@.capture_point == config.capture_point@,
        config@.bucket_seconds == config.bucket_seconds,
        config@.limits == config.limits,
        config@.max_batches == config.max_batches,
{
}

/// Lists of values have the values of the items, one for one and in their order.
pub proof fn lists_go_item_by_item(
    buckets: Seq<FlowBucket>,
    envelopes: Seq<BatchEnvelope>,
    rows: Seq<SpoolRow<BatchEnvelope>>,
    gaps: Seq<GapEvent>,
    flows: Seq<FlowRow>,
    batches: Seq<StoredBatch>,
    entries: Seq<NodePoint>,
    i: int,
)
    ensures
        crate::model::bucket_models(buckets).len() == buckets.len(),
        0 <= i < buckets.len() ==> crate::model::bucket_models(buckets)[i] == buckets[i]@,
        crate::spool::envelope_models(envelopes).len() == envelopes.len(),
        0 <= i < envelopes.len() ==> crate::spool::envelope_models(envelopes)[i] == envelopes[i]@,
        crate::retention::row_models(rows).len() == rows.len(),
        0 <= i < rows.len() ==> crate::retention::row_models(rows)[i] == rows[i]@,
        crate::retention::gap_models(gaps).len() == gaps.len(),
        0 <= i < gaps.len() ==> crate::retention::gap_models(gaps)[i] == gaps[i]@,
        crate::control::flow_models(flows).len() == flows.len(),
        0 <= i < flows.len() ==> crate::control::flow_models(flows)[i] == flows[i]@,
        crate::control::stored_models(batches).len() == batches.len(),
        0 <= i < batches.len() ==> crate::control::stored_models(batches)[i] == batches[i]@,
        crate::inventory::node_points(entries).len() == entries.len(),
        0 <= i < entries.len() ==> crate::inventory::node_points(entries)[i] == entries[i]@,
{
}

/// What a closed spool hands out is what it held.
pub proof fn parts_are_what_was_held(parts: SpoolParts)
    ensures
        crate::spool::stored_table(parts).next_seq == parts.next_seq,
        crate::spool::stored_table(parts).rows == crate::retention::row_models(parts.rows@),
        crate::spool::stored_table(parts).gaps == crate::retention::gap_models(parts.gaps@),
{
}

/// The value of an optional gap, of an admission, of an optional text or of an upload's error is
/// that of what it holds.
pub proof fn outcomes_say_their_fields(
    gap: GapEvent,
    admission: Admission,
    text: String,
    error: SpoolError,
)
    ensures
        crate::retention::optional_gap(None) is None,
        crate::retention::optional_gap(Some(gap)) == Some(gap@),
        admission@.stored == admission.stored,
        admission@.evicted == crate::retention::gap_models(admission.evicted@),
        crate::control::optional_text(None) is None,
        crate::control::optional_text(Some(text)) == Some(text@),
        UploadError::Request(text)@ == UploadFault::Request(text@),
        UploadError::Unreadable@ == UploadFault::Unreadable,
        UploadError::OtherBatch@ == UploadFault::OtherBatch,
        UploadError::Spool(error)@ == UploadFault::Spool(error),
{
}

/// A batch that is to be inserted is answered as inserted, and one that is held as a duplicate.
pub proof fn judgements_have_their_status(rows: Vec<FlowRow>)
    ensures
        crate::control::judgement_status(Judgement::Insert(rows)) == IngestStatus::Inserted,
        crate::control::judgement_status(Judgement::Duplicate) == IngestStatus::Duplicate,
{
}

/// A run starts with nothing counted, and diagnostics that count nothing are zero throughout.
pub proof fn nothing_counted_is_zero()
    ensures
        crate::capture::no_stats().received == 0,
        crate::capture::no_stats().dropped == 0,
        crate::capture::no_stats().interface_dropped == 0,
        crate::model::no_diagnostics().received == 0,
        crate::model::no_diagnostics().dropped == 0,
        crate::model::no_diagnostics().interface_dropped == 0,
        crate::model::no_diagnostics().parse_errors == 0,
{
}

/// Mebibytes and hours can be counted where their bytes and seconds fit eight bytes, and a made-up
/// bucket where its start, its bytes and its source port fit theirs.
pub proof fn what_fits_can_be_counted(mib: u64, hours: u64, now: u64, index: u64)
    ensures
        crate::limits::countable(mib, hours) <==> mib * 1_048_576 <= u64::MAX && hours * 3_600
            <= u64::MAX,
        crate::synthetic::synthetic_fits(now, index) <==> now + 10 * index <= u64::MAX && 1_000
            + 100 * index <= u64::MAX && 40_000 + index % 65_536 <= 65_535,
{
}

} // verus!
