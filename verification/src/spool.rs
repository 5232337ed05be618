//! A bounded spool of batches that wait for their acknowledgement.

use vstd::prelude::*;

use crate::batch::{BatchEnvelope, EnvelopeModel};
use crate::model::{
    CaptureDiagnostics, FlowBucket, FlowBucketModel, GapEvent, SpoolStatus, SCHEMA_VERSION,
};
pub use crate::retention::{SpoolError, SpoolLimits};
use crate::retention::{
    check_removed, offer, payload_total, RowModel, SpoolRow, TableModel,
};
use crate::sqlite::{integer, RangeError, INTEGER_MAX};

verus! {

/// Room in the database for what is not payload.
pub const SQLITE_OVERHEAD_BYTES: u64 = 16_777_216;

/// How large the write-ahead log may stay.
pub const WAL_LIMIT_BYTES: i64 = 4_194_304;

/// What came of a batch.
#[derive(Debug, PartialEq, Eq)]
pub struct EnqueueResult {
    pub batch_id: String,
    pub evicted_batches: u64,
}

impl Clone for EnqueueResult {
    fn clone(&self) -> (r: Self)
        ensures
            r == *self,
    {
        EnqueueResult {
            batch_id: self.batch_id.clone(),
            evicted_batches: self.evicted_batches,
        }
    }
}

/// The first interval of all buckets.
pub open spec fn earliest(buckets: Seq<FlowBucketModel>) -> Option<u64>
    decreases buckets.len(),
{
    if buckets.len() == 0 {
        None
    } else {
        let start = buckets.last().bucket_start;
        match earliest(buckets.drop_last()) {
            None => Some(start),
            Some(other) => Some(if start < other { start } else { other }),
        }
    }
}

/// The last interval of all buckets.
pub open spec fn latest(buckets: Seq<FlowBucketModel>) -> Option<u64>
    decreases buckets.len(),
{
    if buckets.len() == 0 {
        None
    } else {
        let start = buckets.last().bucket_start;
        match latest(buckets.drop_last()) {
            None => Some(start),
            Some(other) => Some(if start > other { start } else { other }),
        }
    }
}

/// Every bucket lies between the first and the last interval, and each of the two is the interval
/// of a bucket.
pub proof fn bucket_range_is_tight(buckets: Seq<FlowBucketModel>)
    ensures
        buckets.len() == 0 <==> earliest(buckets) is None,
        buckets.len() == 0 <==> latest(buckets) is None,
        forall|i: int|
            0 <= i < buckets.len() ==> earliest(buckets)->0 <= (
            #[trigger] buckets[i]).bucket_start <= latest(buckets)->0,
        buckets.len() > 0 ==> exists|i: int|
            0 <= i < buckets.len() && (#[trigger] buckets[i]).bucket_start == earliest(buckets)->0,
        buckets.len() > 0 ==> exists|i: int|
            0 <= i < buckets.len() && (#[trigger] buckets[i]).bucket_start == latest(buckets)->0,
    decreases buckets.len(),
{
    if buckets.len() > 0 {
        let before = buckets.drop_last();
        bucket_range_is_tight(before);
        assert forall|i: int| 0 <= i < buckets.len() implies earliest(buckets)->0 <= (
        #[trigger] buckets[i]).bucket_start <= latest(buckets)->0 by {
            if i < before.len() {
                assert(before[i] == buckets[i]);
            }
        }
        assert(buckets[buckets.len() - 1] == buckets.last());
        if before.len() > 0 {
            let low = choose|i: int|
                0 <= i < before.len() && (#[trigger] before[i]).bucket_start == earliest(before)->0;
            let high = choose|i: int|
                0 <= i < before.len() && (#[trigger] before[i]).bucket_start == latest(before)->0;
            assert(buckets[low] == before[low]);
            assert(buckets[high] == before[high]);
        }
    }
}

/// The first and the last interval of buckets.
pub fn bucket_range(buckets: &Vec<FlowBucket>) -> (r: (Option<u64>, Option<u64>))
    ensures
        r.0 == earliest(crate::model::bucket_models(buckets@)),
        r.1 == latest(crate::model::bucket_models(buckets@)),
        crate::evictions::spans(r.0, r.1, crate::model::bucket_models(buckets@)),
{
    let ghost models = crate::model::bucket_models(buckets@);
    let mut low: Option<u64> = None;
    let mut high: Option<u64> = None;
    let mut i: usize = 0;
    while i < buckets.len()
        invariant
            i <= buckets.len(),
            models == crate::model::bucket_models(buckets@),
            low == earliest(models.take(i as int)),
            high == latest(models.take(i as int)),
        decreases buckets.len() - i,
    {
        let start: u64 = buckets[i].bucket_start;
        proof {
            assert(models.take(i + 1).drop_last() =~= models.take(i as int));
            assert(models.take(i + 1).last() == buckets[i as int]@);
        }
        low = match low {
            None => Some(start),
            Some(other) => Some(if start < other { start } else { other }),
        };
        high = match high {
            None => Some(start),
            Some(other) => Some(if start > other { start } else { other }),
        };
        i += 1;
    }
    assert(models.take(i as int) =~= models);
    proof {
        bucket_range_is_tight(models);
    }
    (low, high)
}

/// How many pages the database of a spool may have.
pub open spec fn page_limit(max_payload_bytes: u64, page_size: u64) -> int {
    (max_payload_bytes + SQLITE_OVERHEAD_BYTES + page_size - 1) / page_size as int
}

/// How many pages the database of a spool may have: as many as hold the payload and the
/// overhead.
pub fn max_page_count(max_payload_bytes: u64, page_size: u64) -> (r: Result<i64, RangeError>)
    requires
        page_size > 0,
        max_payload_bytes + SQLITE_OVERHEAD_BYTES <= u64::MAX,
    ensures
        match r {
            Ok(pages) => pages == page_limit(max_payload_bytes, page_size),
            Err(error) => page_limit(max_payload_bytes, page_size) > INTEGER_MAX && error == (
            RangeError { field: "max_page_count" }),
        },
{
    integer(pages_for(max_payload_bytes + SQLITE_OVERHEAD_BYTES, page_size), "max_page_count")
}

/// How many pages hold that many bytes.
pub fn pages_for(bytes: u64, page_size: u64) -> (r: u64)
    requires
        page_size > 0,
    ensures
        r == (bytes + page_size - 1) / page_size as int,
{
    let whole: u64 = bytes / page_size;
    let rest: u64 = bytes % page_size;
    proof {
        let b = bytes as int;
        let p = page_size as int;
        let q = b / p;
        let m = b % p;
        assert(b == q * p + m && 0 <= m < p) by (nonlinear_arith)
            requires
                p > 0,
                q == b / p,
                m == b % p,
        ;
        if m == 0 {
            assert((b + p - 1) / p == q) by (nonlinear_arith)
                requires
                    p > 0,
                    b == q * p,
            ;
        } else {
            assert((b + p - 1) / p == q + 1) by (nonlinear_arith)
                requires
                    p > 0,
                    0 < m < p,
                    b == q * p + m,
            ;
            assert(q < b) by (nonlinear_arith)
                requires
                    p > 0,
                    0 < m < p,
                    b == q * p + m,
                    b >= 0,
            ;
        }
    }
    if rest == 0 {
        whole
    } else {
        whole + 1
    }
}

/// The row of a sealed batch, or nothing where its envelope has no JSON text.
pub open spec fn row_of(envelope: EnvelopeModel) -> Option<RowModel<EnvelopeModel>> {
    match crate::encoding::json_text(crate::batch::envelope_document(envelope)) {
        None => None,
        Some(text) => Some(
            RowModel {
                seq: envelope.body.seq,
                batch_id: envelope.batch_id,
                checksum: envelope.checksum,
                created_at: envelope.body.created_at,
                min_bucket: earliest(envelope.body.buckets),
                max_bucket: latest(envelope.body.buckets),
                payload_bytes: text.len() as u64,
                payload: envelope,
            },
        ),
    }
}

/// The row of a new batch, or nothing where it has no JSON text.
pub open spec fn new_row(
    node_id: Seq<char>,
    boot_id: Seq<char>,
    seq: u64,
    created_at: u64,
    buckets: Seq<FlowBucketModel>,
    diagnostics: CaptureDiagnostics,
) -> Option<RowModel<EnvelopeModel>> {
    match crate::batch::sealed(
        crate::batch::new_body(node_id, boot_id, seq, created_at, buckets, diagnostics),
    ) {
        None => None,
        Some(envelope) => row_of(envelope),
    }
}

/// Seals a new batch and measures it.
pub fn prepare(
    node_id: String,
    boot_id: String,
    seq: u64,
    created_at: u64,
    buckets: Vec<FlowBucket>,
    diagnostics: CaptureDiagnostics,
) -> (r: Result<SpoolRow<BatchEnvelope>, SpoolError>)
    ensures
        ({
            let row = new_row(
                node_id@,
                boot_id@,
                seq,
                created_at,
                crate::model::bucket_models(buckets@),
                diagnostics,
            );
            match r {
                Ok(prepared) => row == Some(prepared@) && prepared@.checksum.len() == 64,
                Err(error) => row is None && error == SpoolError::Encoding,
            }
        }),
        r is Ok,
{
    let envelope = match BatchEnvelope::new(
        node_id,
        boot_id,
        seq,
        created_at,
        buckets,
        diagnostics,
    ) {
        Ok(envelope) => envelope,
        Err(_) => {
            return Err(SpoolError::Encoding);
        },
    };
    let payload = match envelope.payload() {
        Ok(payload) => payload,
        Err(_) => {
            return Err(SpoolError::Encoding);
        },
    };
    let (min_bucket, max_bucket) = bucket_range(&envelope.body.buckets);
    Ok(
        SpoolRow {
            seq,
            batch_id: envelope.batch_id.clone(),
            checksum: envelope.checksum.clone(),
            created_at,
            min_bucket,
            max_bucket,
            payload_bytes: payload.len() as u64,
            payload: envelope,
        },
    )
}

/// What comes of a batch that is put into the spool: the spool after it, the identity of the
/// batch, and how many batches were given up.
pub open spec fn enqueued(
    table: TableModel<EnvelopeModel>,
    node_id: Seq<char>,
    boot_id: Seq<char>,
    created_at: u64,
    buckets: Seq<FlowBucketModel>,
    diagnostics: CaptureDiagnostics,
) -> Result<(TableModel<EnvelopeModel>, Seq<char>, nat), SpoolError> {
    if table.next_seq > INTEGER_MAX {
        Err(SpoolError::SequenceExhausted)
    } else {
        match new_row(node_id, boot_id, table.next_seq, created_at, buckets, diagnostics) {
            None => Err(SpoolError::Encoding),
            Some(row) => match table.admitted(row) {
                Err(error) => Err(error),
                Ok((next, admission)) => Ok((next, row.batch_id, admission.evicted.len())),
            },
        }
    }
}

/// Whether a row is the row of a sealed batch.
pub open spec fn row_is_sealed(row: RowModel<EnvelopeModel>) -> bool {
    &&& crate::batch::sealed(row.payload.body) == Some(row.payload)
    &&& row_of(row.payload) == Some(row)
    &&& row.payload.body.schema_version == SCHEMA_VERSION
    &&& row.checksum.len() == 64
}

/// Whether a row says of its batch what the batch says of itself.
pub open spec fn row_matches(row: RowModel<EnvelopeModel>) -> bool {
    let envelope = row.payload;
    &&& row.seq == envelope.body.seq
    &&& row.batch_id == envelope.batch_id
    &&& row.checksum == envelope.checksum
    &&& row.created_at == envelope.body.created_at
    &&& row.min_bucket == earliest(envelope.body.buckets)
    &&& row.max_bucket == latest(envelope.body.buckets)
    &&& envelope.batch_id == crate::batch::batch_identity(envelope.body, envelope.checksum)
    &&& envelope.checksum.len() == 64
}

/// What holds of every spool of batches: every row matches its batch.
pub open spec fn holds_batches(table: TableModel<EnvelopeModel>) -> bool {
    &&& table.wf()
    &&& forall|i: int| 0 <= i < table.rows.len() ==> row_matches(#[trigger] table.rows[i])
}

/// Whether every row is that of a sealed batch.
pub open spec fn holds_sealed(table: TableModel<EnvelopeModel>) -> bool {
    &&& holds_batches(table)
    &&& forall|i: int| 0 <= i < table.rows.len() ==> row_is_sealed(#[trigger] table.rows[i])
}

/// Whether the pending bytes are within the limit. A spool that was opened with a smaller limit
/// than it had need not be, until a batch was stored again.
pub open spec fn within_bytes(table: TableModel<EnvelopeModel>) -> bool {
    crate::retention::total(table.rows) <= table.limits.max_payload_bytes
}

/// The spool with other limits.
pub open spec fn with_limits(
    table: TableModel<EnvelopeModel>,
    limits: SpoolLimits,
) -> TableModel<EnvelopeModel> {
    TableModel { limits, ..table }
}

/// The state of a spool that was just opened.
pub open spec fn empty_table(limits: SpoolLimits) -> TableModel<EnvelopeModel> {
    TableModel { limits, next_seq: 0, rows: Seq::empty(), gaps: Seq::empty() }
}

/// Whether a row is the one that an acknowledgement names.
pub open spec fn is_named(
    row: RowModel<EnvelopeModel>,
    batch_id: Seq<char>,
    checksum: Seq<char>,
) -> bool {
    row.batch_id == batch_id && row.checksum == checksum
}

/// Whether an acknowledgement names a pending batch.
pub open spec fn names_pending(
    table: TableModel<EnvelopeModel>,
    batch_id: Seq<char>,
    checksum: Seq<char>,
) -> bool {
    exists|i: int|
        0 <= i < table.rows.len() && is_named(#[trigger] table.rows[i], batch_id, checksum)
}

/// The spool without the batch that an acknowledgement names.
pub open spec fn acknowledged(
    table: TableModel<EnvelopeModel>,
    batch_id: Seq<char>,
    checksum: Seq<char>,
) -> TableModel<EnvelopeModel> {
    TableModel {
        rows: table.rows.filter(
            |row: RowModel<EnvelopeModel>| !is_named(row, batch_id, checksum),
        ),
        ..table
    }
}

/// A spool of batches.
pub struct Spool {
    limits: SpoolLimits,
    next_seq: u64,
    rows: Vec<SpoolRow<BatchEnvelope>>,
    gaps: Vec<GapEvent>,
}

impl View for Spool {
    type V = TableModel<EnvelopeModel>;

    closed spec fn view(&self) -> TableModel<EnvelopeModel> {
        TableModel {
            limits: self.limits,
            next_seq: self.next_seq,
            rows: crate::retention::row_models(self.rows@),
            gaps: crate::retention::gap_models(self.gaps@),
        }
    }
}

/// What a spool holds: the next sequence number, the pending batches in order, and the gaps in
/// order.
pub struct SpoolParts {
    pub next_seq: u64,
    pub rows: Vec<SpoolRow<BatchEnvelope>>,
    pub gaps: Vec<GapEvent>,
}

/// What a spool holds, with limits that let everything stay.
pub open spec fn stored_table(parts: SpoolParts) -> TableModel<EnvelopeModel> {
    TableModel {
        limits: SpoolLimits { max_payload_bytes: u64::MAX, max_age_seconds: u64::MAX },
        next_seq: parts.next_seq,
        rows: crate::retention::row_models(parts.rows@),
        gaps: crate::retention::gap_models(parts.gaps@),
    }
}

/// The pending batches, oldest first.
pub open spec fn pending_batches(table: TableModel<EnvelopeModel>) -> Seq<EnvelopeModel> {
    Seq::new(table.rows.len(), |i: int| table.rows[i].payload)
}

/// The values of envelopes.
pub open spec fn envelope_models(envelopes: Seq<BatchEnvelope>) -> Seq<EnvelopeModel> {
    Seq::new(envelopes.len(), |i: int| envelopes[i]@)
}

/// An identity is pending under one sequence number only: a new batch never meets its own.
pub proof fn new_batches_are_fresh(
    table: TableModel<EnvelopeModel>,
    row: RowModel<EnvelopeModel>,
)
    requires
        holds_batches(table),
        row_matches(row),
        row.seq == table.next_seq,
    ensures
        !table.has_batch(row.batch_id),
{
    assert forall|i: int| 0 <= i < table.rows.len() implies (#[trigger] table.rows[i]).batch_id
        != row.batch_id by {
        let other = table.rows[i];
        assert(row_matches(other));
        crate::batch::identities_tell_sequence_numbers_apart(
            other.payload.body,
            other.checksum,
            row.payload.body,
            row.checksum,
        );
    }
}

/// What holds of every row still holds once a row of which it holds was offered.
proof fn admission_keeps_rows(
    table: TableModel<EnvelopeModel>,
    row: RowModel<EnvelopeModel>,
    sound: spec_fn(RowModel<EnvelopeModel>) -> bool,
)
    requires
        forall|i: int| 0 <= i < table.rows.len() ==> sound(#[trigger] table.rows[i]),
        sound(row),
        table.admitted(row) is Ok,
    ensures
        forall|i: int|
            0 <= i < table.admitted(row)->Ok_0.0.rows.len() ==> sound(
                #[trigger] table.admitted(row)->Ok_0.0.rows[i],
            ),
{
    let next = table.admitted(row)->Ok_0.0;
    if row.payload_bytes <= table.limits.max_payload_bytes {
        let all = table.rows.push(row);
        let cutoff = crate::retention::age_cutoff(row.created_at, table.limits.max_age_seconds);
        let limit = table.limits.max_payload_bytes as nat;
        assert forall|i: int| 0 <= i < next.rows.len() implies sound(#[trigger] next.rows[i]) by {
            let m = crate::retention::kept_place(all, cutoff, limit, i);
            assert(all[m] == next.rows[i]);
            if m < table.rows.len() {
                assert(all[m] == table.rows[m]);
            }
        }
    }
}

/// What holds of every spool of batches still holds once a batch was offered.
proof fn admission_keeps_batches(
    table: TableModel<EnvelopeModel>,
    row: RowModel<EnvelopeModel>,
)
    requires
        holds_batches(table),
        row_matches(row),
        row.seq == table.next_seq,
        table.admitted(row) is Ok,
    ensures
        holds_batches(table.admitted(row)->Ok_0.0),
        holds_sealed(table) && row_is_sealed(row) ==> holds_sealed(table.admitted(row)->Ok_0.0),
{
    crate::retention::admission_keeps_order(table, row);
    let next = table.admitted(row)->Ok_0.0;
    let matching = |row: RowModel<EnvelopeModel>| row_matches(row);
    let sealing = |row: RowModel<EnvelopeModel>| row_is_sealed(row);
    admission_keeps_rows(table, row, matching);
    assert forall|i: int| 0 <= i < next.rows.len() implies row_matches(#[trigger] next.rows[i]) by {
        assert(matching(next.rows[i]));
    }
    if holds_sealed(table) && row_is_sealed(row) {
        admission_keeps_rows(table, row, sealing);
        assert forall|i: int| 0 <= i < next.rows.len() implies row_is_sealed(
            #[trigger] next.rows[i],
        ) by {
            assert(sealing(next.rows[i]));
        }
    }
}

/// Only the named row is missing once it is filtered out.
proof fn filter_of_one(
    rows: Seq<RowModel<EnvelopeModel>>,
    k: int,
    stays: spec_fn(RowModel<EnvelopeModel>) -> bool,
)
    requires
        0 <= k < rows.len(),
        forall|i: int| 0 <= i < rows.len() ==> (stays(#[trigger] rows[i]) <==> i != k),
    ensures
        rows.filter(stays) == rows.remove(k),
    decreases rows.len(),
{
    reveal(Seq::filter);
    let before = rows.drop_last();
    if k == rows.len() - 1 {
        filter_of_all(before, stays);
        assert(rows.remove(k) =~= before);
    } else {
        filter_of_one(before, k, stays);
        assert(stays(rows[rows.len() - 1]));
        assert(rows.remove(k) =~= before.remove(k).push(rows.last()));
    }
}

pub(crate) proof fn filter_of_all(
    rows: Seq<RowModel<EnvelopeModel>>,
    stays: spec_fn(RowModel<EnvelopeModel>) -> bool,
)
    requires
        forall|i: int| 0 <= i < rows.len() ==> stays(#[trigger] rows[i]),
    ensures
        rows.filter(stays) == rows,
    decreases rows.len(),
{
    reveal(Seq::filter);
    if rows.len() > 0 {
        filter_of_all(rows.drop_last(), stays);
        assert(stays(rows[rows.len() - 1]));
        assert(rows.drop_last().push(rows.last()) =~= rows);
    }
}

/// A spool is in order once a batch was acknowledged, and does not hold more than before.
pub proof fn acknowledgement_keeps_order(
    table: TableModel<EnvelopeModel>,
    batch_id: Seq<char>,
    checksum: Seq<char>,
)
    requires
        table.wf(),
    ensures
        acknowledged(table, batch_id, checksum).wf(),
        crate::retention::total(acknowledged(table, batch_id, checksum).rows)
            <= crate::retention::total(table.rows),
        forall|i: int|
            0 <= i < acknowledged(table, batch_id, checksum).rows.len() ==> table.rows.contains(
                #[trigger] acknowledged(table, batch_id, checksum).rows[i],
            ) && !is_named(acknowledged(table, batch_id, checksum).rows[i], batch_id, checksum),
{
    let next = acknowledged(table, batch_id, checksum);
    let stays = |row: RowModel<EnvelopeModel>| !is_named(row, batch_id, checksum);
    let earlier = |a: RowModel<EnvelopeModel>, b: RowModel<EnvelopeModel>| a.seq < b.seq;
    let apart = |a: RowModel<EnvelopeModel>, b: RowModel<EnvelopeModel>| a.batch_id != b.batch_id;
    crate::retention::filter_total(table.rows, stays);
    crate::retention::filter_keeps_items(table.rows, stays);
    crate::retention::filter_keeps_pairs(table.rows, stays, earlier);
    crate::retention::filter_keeps_pairs(table.rows, stays, apart);
    assert forall|i: int, j: int| 0 <= i < j < next.rows.len() implies next.rows[i].seq
        < next.rows[j].seq && next.rows[i].batch_id != next.rows[j].batch_id by {
        assert(earlier(next.rows[i], next.rows[j]));
        assert(apart(next.rows[i], next.rows[j]));
    }
    assert forall|i: int| 0 <= i < next.rows.len() implies (#[trigger] next.rows[i]).seq
        < next.next_seq && crate::retention::row_misfit(next.rows[i]) is None by {
        assert(table.rows.contains(next.rows[i]));
    }
    assert forall|i: int, j: int| 0 <= i < next.rows.len() && 0 <= j < next.gaps.len() implies (
    #[trigger] next.rows[i]).seq != (#[trigger] next.gaps[j]).seq by {
        assert(table.rows.contains(next.rows[i]));
        let k = choose|k: int| 0 <= k < table.rows.len() && table.rows[k] == next.rows[i];
        assert(table.rows[k].seq != table.gaps[j].seq);
    }
}

/// What holds of every spool of batches still holds once a batch was acknowledged.
proof fn acknowledgement_keeps_batches(
    table: TableModel<EnvelopeModel>,
    batch_id: Seq<char>,
    checksum: Seq<char>,
)
    requires
        holds_batches(table),
    ensures
        holds_batches(acknowledged(table, batch_id, checksum)),
        holds_sealed(table) ==> holds_sealed(acknowledged(table, batch_id, checksum)),
        crate::retention::total(acknowledged(table, batch_id, checksum).rows)
            <= crate::retention::total(table.rows),
{
    let next = acknowledged(table, batch_id, checksum);
    acknowledgement_keeps_order(table, batch_id, checksum);
    assert forall|i: int| 0 <= i < next.rows.len() implies row_matches(#[trigger] next.rows[i]) && (
    holds_sealed(table) ==> row_is_sealed(next.rows[i])) by {
        assert(table.rows.contains(next.rows[i]));
    }
}

impl Spool {
    /// What holds of every spool.
    pub open spec fn wf(self) -> bool {
        holds_batches(self@)
    }

    /// Opens an empty spool.
    pub fn open(limits: SpoolLimits) -> (r: Result<Self, SpoolError>)
        ensures
            match r {
                Ok(spool) => {
                    &&& limits.max_payload_bytes > 0
                    &&& limits.max_age_seconds > 0
                    &&& spool.wf()
                    &&& holds_sealed(spool@)
                    &&& spool@ == empty_table(limits)
                },
                Err(error) => {
                    &&& limits.max_payload_bytes == 0 || limits.max_age_seconds == 0
                    &&& error == SpoolError::ZeroLimit
                },
            },
    {
        if limits.max_payload_bytes == 0 || limits.max_age_seconds == 0 {
            return Err(SpoolError::ZeroLimit);
        }
        let spool = Spool { limits, next_seq: 0, rows: Vec::new(), gaps: Vec::new() };
        proof {
            assert(spool@.rows =~= Seq::empty());
            assert(spool@.gaps =~= Seq::empty());
        }
        Ok(spool)
    }

    /// Opens a spool again: with what an earlier spool held, and limits that need not be those
    /// that it had. Nothing is given up before the next batch.
    pub fn restore(limits: SpoolLimits, parts: SpoolParts) -> (r: Result<Self, SpoolError>)
        requires
            holds_batches(stored_table(parts)),
        ensures
            match r {
                Ok(spool) => {
                    &&& limits.max_payload_bytes > 0
                    &&& limits.max_age_seconds > 0
                    &&& spool.wf()
                    &&& spool@ == with_limits(stored_table(parts), limits)
                    &&& holds_sealed(stored_table(parts)) ==> holds_sealed(spool@)
                },
                Err(error) => {
                    &&& limits.max_payload_bytes == 0 || limits.max_age_seconds == 0
                    &&& error == SpoolError::ZeroLimit
                },
            },
    {
        if limits.max_payload_bytes == 0 || limits.max_age_seconds == 0 {
            return Err(SpoolError::ZeroLimit);
        }
        Ok(Spool { limits, next_seq: parts.next_seq, rows: parts.rows, gaps: parts.gaps })
    }

    /// Closes the spool, and hands out what it holds.
    pub fn close(self) -> (r: SpoolParts)
        requires
            self.wf(),
        ensures
            holds_batches(stored_table(r)),
            holds_sealed(self@) ==> holds_sealed(stored_table(r)),
            with_limits(stored_table(r), self@.limits) == self@,
    {
        SpoolParts { next_seq: self.next_seq, rows: self.rows, gaps: self.gaps }
    }

    /// Seals the given buckets as the next batch and keeps it until it is acknowledged, at the
    /// cost of the oldest batches where the limits ask for it. Where it fails nothing changes.
    pub fn enqueue(
        &mut self,
        node_id: String,
        boot_id: String,
        created_at: u64,
        buckets: Vec<FlowBucket>,
        diagnostics: CaptureDiagnostics,
    ) -> (r: Result<EnqueueResult, SpoolError>)
        requires
            old(self).wf(),
        ensures
            final(self).wf(),
            match r {
                Ok(result) => enqueued(
                    old(self)@,
                    node_id@,
                    boot_id@,
                    created_at,
                    crate::model::bucket_models(buckets@),
                    diagnostics,
                ) == Ok::<(TableModel<EnvelopeModel>, Seq<char>, nat), SpoolError>(
                    (final(self)@, result.batch_id@, result.evicted_batches as nat),
                ),
                Err(error) => {
                    &&& final(self)@ == old(self)@
                    &&& enqueued(
                        old(self)@,
                        node_id@,
                        boot_id@,
                        created_at,
                        crate::model::bucket_models(buckets@),
                        diagnostics,
                    ) == Err::<(TableModel<EnvelopeModel>, Seq<char>, nat), SpoolError>(error)
                },
            },
            r != Err::<EnqueueResult, SpoolError>(SpoolError::Encoding),
            r != Err::<EnqueueResult, SpoolError>(SpoolError::DuplicateBatch),
            holds_sealed(old(self)@) ==> holds_sealed(final(self)@),
            within_bytes(old(self)@) ==> within_bytes(final(self)@),
            final(self)@.rows.len() > 0 && final(self)@.rows.last().seq == old(self)@.next_seq
                ==> within_limits(final(self)@, created_at),
    {
        let ghost table = self@;
        if self.next_seq > INTEGER_MAX {
            return Err(SpoolError::SequenceExhausted);
        }
        let row = match prepare(
            node_id,
            boot_id,
            self.next_seq,
            created_at,
            buckets,
            diagnostics,
        ) {
            Ok(row) => row,
            Err(error) => {
                return Err(error);
            },
        };
        let batch_id = row.batch_id.clone();
        proof {
            if table.rows.len() > 0 {
                assert(table.rows.last().seq < table.next_seq);
            }
            new_batches_are_fresh(table, row@);
            if table.admitted(row@) is Ok {
                admission_keeps_batches(table, row@);
                if row@.payload_bytes <= table.limits.max_payload_bytes {
                    a_batch_that_fits_is_pending(table, row@);
                } else {
                    a_batch_too_large_costs_no_other(table, row@);
                }
            }
        }
        match offer(&mut self.rows, &mut self.gaps, self.next_seq, row, self.limits) {
            Err(error) => Err(error),
            Ok(admission) => {
                self.next_seq = self.next_seq + 1;
                Ok(EnqueueResult { batch_id, evicted_batches: admission.evicted.len() as u64 })
            },
        }
    }

    /// The pending batches, oldest first, and no more than `limit` of them.
    pub fn pending(&self, limit: usize) -> (r: Result<Vec<BatchEnvelope>, SpoolError>)
        ensures
            match r {
                Ok(batches) => {
                    &&& limit <= INTEGER_MAX
                    &&& envelope_models(batches@) == pending_batches(self@).take(
                        if limit <= self@.rows.len() {
                            limit as int
                        } else {
                            self@.rows.len() as int
                        },
                    )
                },
                Err(error) => limit > INTEGER_MAX && error == SpoolError::BatchLimit,
            },
    {
        if limit as u64 > INTEGER_MAX {
            return Err(SpoolError::BatchLimit);
        }
        let ghost all = pending_batches(self@);
        let mut batches: Vec<BatchEnvelope> = Vec::new();
        let mut i: usize = 0;
        assert(envelope_models(batches@) =~= all.take(0));
        while i < self.rows.len() && i < limit
            invariant
                i <= self.rows.len(),
                i <= limit,
                all == pending_batches(self@),
                envelope_models(batches@) == all.take(i as int),
            decreases self.rows.len() - i,
        {
            let envelope = self.rows[i].payload.clone();
            proof {
                assert(envelope@ == all[i as int]);
                assert(envelope_models(batches@.push(envelope)) =~= envelope_models(batches@).push(
                    envelope@,
                ));
                assert(all.take(i + 1) =~= all.take(i as int).push(all[i as int]));
            }
            batches.push(envelope);
            i += 1;
        }
        Ok(batches)
    }

    /// Removes the batch with that identity and that checksum, and returns how many were removed.
    fn remove_batch(&mut self, batch_id: &str, checksum: &str) -> (r: usize)
        requires
            old(self).wf(),
        ensures
            final(self).wf(),
            holds_sealed(old(self)@) ==> holds_sealed(final(self)@),
            within_bytes(old(self)@) ==> within_bytes(final(self)@),
            final(self)@ == acknowledged(old(self)@, batch_id@, checksum@),
            r == (if names_pending(old(self)@, batch_id@, checksum@) {
                1usize
            } else {
                0
            }),
    {
        let ghost table = self@;
        let ghost stays = |row: RowModel<EnvelopeModel>| !is_named(row, batch_id@, checksum@);
        let wanted_id: String = batch_id.to_owned();
        let wanted_checksum: String = checksum.to_owned();
        proof {
            acknowledgement_keeps_batches(table, batch_id@, checksum@);
        }
        let mut i: usize = 0;
        while i < self.rows.len()
            invariant
                i <= self.rows.len(),
                wanted_id@ == batch_id@,
                wanted_checksum@ == checksum@,
                table == old(self)@,
                holds_batches(table),
                self == old(self),
                stays == (|row: RowModel<EnvelopeModel>| !is_named(row, batch_id@, checksum@)),
                holds_batches(acknowledged(table, batch_id@, checksum@)),
                holds_sealed(table) ==> holds_sealed(acknowledged(table, batch_id@, checksum@)),
                crate::retention::total(acknowledged(table, batch_id@, checksum@).rows)
                    <= crate::retention::total(table.rows),
                forall|j: int|
                    0 <= j < i ==> !is_named(#[trigger] table.rows[j], batch_id@, checksum@),
            decreases self.rows.len() - i,
        {
            assert(table.rows[i as int] == self.rows[i as int]@);
            if self.rows[i].batch_id == wanted_id && self.rows[i].checksum == wanted_checksum {
                let ghost held = self.rows@;
                self.rows.remove(i);
                proof {
                    assert forall|j: int| 0 <= j < table.rows.len() implies (stays(
                        #[trigger] table.rows[j],
                    ) <==> j != i) by {
                        if j != i {
                            assert(table.rows[j].batch_id != table.rows[i as int].batch_id);
                        }
                    }
                    filter_of_one(table.rows, i as int, stays);
                    crate::retention::row_models_of_remove(held, i as int);
                }
                return 1;
            }
            i += 1;
        }
        proof {
            filter_of_all(table.rows, stays);
        }
        0
    }

    /// Removes the batch with that identity and that checksum. Where none is pending nothing
    /// changes.
    pub fn acknowledge(&mut self, batch_id: &str, checksum: &str) -> (r: Result<(), SpoolError>)
        requires
            old(self).wf(),
        ensures
            final(self).wf(),
            holds_sealed(old(self)@) ==> holds_sealed(final(self)@),
            within_bytes(old(self)@) ==> within_bytes(final(self)@),
            match r {
                Ok(()) => {
                    &&& names_pending(old(self)@, batch_id@, checksum@)
                    &&& final(self)@ == acknowledged(old(self)@, batch_id@, checksum@)
                },
                Err(error) => {
                    &&& !names_pending(old(self)@, batch_id@, checksum@)
                    &&& error == SpoolError::UnknownBatch
                    &&& final(self)@ == old(self)@
                },
            },
    {
        proof {
            let table = self@;
            if !names_pending(table, batch_id@, checksum@) {
                filter_of_all(
                    table.rows,
                    |row: RowModel<EnvelopeModel>| !is_named(row, batch_id@, checksum@),
                );
            }
        }
        let removed = self.remove_batch(batch_id, checksum);
        check_removed(removed)
    }

    /// How full the spool is. It fails where no column can hold the sum of the pending bytes.
    pub fn status(&self) -> (r: Result<SpoolStatus, SpoolError>)
        ensures
            match r {
                Ok(status) => {
                    &&& status.pending_batches == self@.rows.len()
                    &&& status.pending_payload_bytes == crate::retention::total(self@.rows)
                    &&& status.gap_events == self@.gaps.len()
                    &&& crate::retention::total(self@.rows) <= INTEGER_MAX
                },
                Err(error) => {
                    &&& crate::retention::total(self@.rows) > INTEGER_MAX
                    &&& error == SpoolError::TotalOverflow
                },
            },
    {
        match payload_total(&self.rows) {
            Some(pending_payload_bytes) => Ok(
                SpoolStatus {
                    pending_batches: self.rows.len() as u64,
                    pending_payload_bytes,
                    gap_events: self.gaps.len() as u64,
                },
            ),
            None => Err(SpoolError::TotalOverflow),
        }
    }

    /// The gaps, oldest first.
    pub fn gaps(&self) -> (r: Vec<GapEvent>)
        ensures
            crate::retention::gap_models(r@) == self@.gaps,
    {
        let mut r: Vec<GapEvent> = Vec::new();
        let mut i: usize = 0;
        while i < self.gaps.len()
            invariant
                i <= self.gaps.len(),
                r@ == self.gaps@.take(i as int),
            decreases self.gaps.len() - i,
        {
            assert(self.gaps@.take(i + 1) =~= self.gaps@.take(i as int).push(self.gaps@[i as int]));
            r.push(self.gaps[i].clone());
            i += 1;
        }
        assert(self.gaps@.take(i as int) =~= self.gaps@);
        r
    }
}

/// Whether the spool accounts for a sequence number: its batch is pending, or its loss is
/// recorded.
pub open spec fn accounted(table: TableModel<EnvelopeModel>, seq: u64) -> bool {
    ||| exists|i: int| 0 <= i < table.rows.len() && (#[trigger] table.rows[i]).seq == seq
    ||| exists|i: int| 0 <= i < table.gaps.len() && (#[trigger] table.gaps[i]).seq == seq
}

/// Whether the spool is within its limits at that time.
pub open spec fn within_limits(table: TableModel<EnvelopeModel>, now: u64) -> bool {
    &&& within_bytes(table)
    &&& forall|i: int|
        0 <= i < table.rows.len() ==> (#[trigger] table.rows[i]).created_at
            >= crate::retention::age_cutoff(now, table.limits.max_age_seconds)
}

/// A batch that fits is pending once it was enqueued, as the last one, and every pending batch is
/// within the limits.
pub proof fn a_batch_that_fits_is_pending(
    table: TableModel<EnvelopeModel>,
    row: RowModel<EnvelopeModel>,
)
    requires
        table.wf(),
        row.seq == table.next_seq,
        table.admitted(row) is Ok,
        row.payload_bytes <= table.limits.max_payload_bytes,
    ensures
        ({
            let next = table.admitted(row)->Ok_0.0;
            &&& next.rows.len() > 0
            &&& next.rows.last() == row
            &&& pending_batches(next).last() == row.payload
            &&& within_limits(next, row.created_at)
        }),
{
    let next = table.admitted(row)->Ok_0.0;
    let all = table.rows.push(row);
    let cutoff = crate::retention::age_cutoff(row.created_at, table.limits.max_age_seconds);
    let limit = table.limits.max_payload_bytes as nat;
    crate::retention::eviction_keeps_the_limits(all, cutoff, limit);
    crate::retention::the_newest_stays(table.rows, row, cutoff, limit);
}

/// A spool within its bytes stays there: neither a batch that is offered nor an acknowledgement
/// takes it over the limit, and neither changes the limit.
pub proof fn a_spool_stays_within_its_bytes(
    table: TableModel<EnvelopeModel>,
    row: RowModel<EnvelopeModel>,
    batch_id: Seq<char>,
    checksum: Seq<char>,
)
    requires
        table.wf(),
        within_bytes(table),
        row.seq == table.next_seq,
    ensures
        table.admitted(row) matches Ok((next, _)) ==> next.limits == table.limits
            && within_bytes(next),
        acknowledged(table, batch_id, checksum).limits == table.limits,
        within_bytes(acknowledged(table, batch_id, checksum)),
{
    if table.admitted(row) is Ok && row.payload_bytes <= table.limits.max_payload_bytes {
        a_batch_that_fits_is_pending(table, row);
    }
    acknowledgement_keeps_order(table, batch_id, checksum);
}

/// A batch that alone exceeds the limit costs no other batch: nothing changes but that its own
/// loss is recorded.
pub proof fn a_batch_too_large_costs_no_other(
    table: TableModel<EnvelopeModel>,
    row: RowModel<EnvelopeModel>,
)
    requires
        table.wf(),
        row.seq == table.next_seq,
        table.admitted(row) is Ok,
        row.payload_bytes > table.limits.max_payload_bytes,
    ensures
        table.admitted(row)->Ok_0.0.rows == table.rows,
        table.admitted(row)->Ok_0.0.gaps == table.gaps.push(
            crate::retention::gap_of(row, "batch_exceeds_spool_limit"@, row.created_at),
        ),
{
    if table.gaps.len() > 0 {
        assert(table.gaps[table.gaps.len() - 1].seq < table.next_seq);
    }
}

/// Nothing is lost unnoticed: once a batch was offered the spool accounts for the sequence
/// numbers that it accounted for before, and for that of the batch.
pub proof fn nothing_is_lost_unnoticed(
    table: TableModel<EnvelopeModel>,
    row: RowModel<EnvelopeModel>,
    seq: u64,
)
    requires
        table.wf(),
        row.seq == table.next_seq,
        table.admitted(row) is Ok,
    ensures
        accounted(table.admitted(row)->Ok_0.0, seq) <==> (accounted(table, seq) || seq
            == table.next_seq),
{
    let next = table.admitted(row)->Ok_0.0;
    let now = row.created_at;
    if row.payload_bytes > table.limits.max_payload_bytes {
        a_batch_too_large_costs_no_other(table, row);
        let gap = crate::retention::gap_of(row, "batch_exceeds_spool_limit"@, now);
        assert(next.gaps[table.gaps.len() as int] == gap);
        assert forall|i: int| 0 <= i < table.gaps.len() implies next.gaps[i] == (
        #[trigger] table.gaps[i]) by {}
    } else {
        let all = table.rows.push(row);
        let cutoff = crate::retention::age_cutoff(now, table.limits.max_age_seconds);
        let limit = table.limits.max_payload_bytes as nat;
        let go = crate::retention::given_up(all, cutoff, limit);
        let lost = crate::retention::eviction_gaps(go, cutoff, now);
        crate::retention::eviction_shares_out(all, cutoff, limit);
        crate::retention::admission_records(table, row);
        if accounted(table, seq) || seq == table.next_seq {
            if exists|i: int| 0 <= i < all.len() && (#[trigger] all[i]).seq == seq {
                let i = choose|i: int| 0 <= i < all.len() && (#[trigger] all[i]).seq == seq;
                if next.rows.contains(all[i]) {
                } else {
                    assert(go.contains(all[i]));
                    let k = choose|k: int| 0 <= k < go.len() && go[k] == all[i];
                    assert(lost[k].seq == seq);
                    assert(lost.contains(lost[k]));
                    assert(next.gaps.contains(lost[k]));
                }
            } else if seq == table.next_seq {
                assert(all[table.rows.len() as int].seq == seq);
            } else {
                assert forall|i: int| 0 <= i < table.rows.len() implies (
                #[trigger] table.rows[i]).seq != seq by {
                    assert(all[i] == table.rows[i]);
                }
                let i = choose|i: int|
                    0 <= i < table.gaps.len() && (#[trigger] table.gaps[i]).seq == seq;
                assert(next.gaps.contains(table.gaps[i]));
            }
        }
        if accounted(next, seq) {
            if exists|i: int| 0 <= i < next.rows.len() && (#[trigger] next.rows[i]).seq == seq {
                let i = choose|i: int|
                    0 <= i < next.rows.len() && (#[trigger] next.rows[i]).seq == seq;
                let m = crate::retention::kept_place(all, cutoff, limit, i);
                if m < table.rows.len() {
                    assert(table.rows[m].seq == seq);
                }
            } else {
                let i = choose|i: int|
                    0 <= i < next.gaps.len() && (#[trigger] next.gaps[i]).seq == seq;
                assert(next.gaps.contains(next.gaps[i]));
                if !table.gaps.contains(next.gaps[i]) {
                    let k = choose|k: int| 0 <= k < lost.len() && lost[k] == next.gaps[i];
                    let m = crate::retention::given_up_place(all, cutoff, limit, k);
                    if m < table.rows.len() {
                        assert(table.rows[m].seq == seq);
                    }
                }
            }
        }
    }
}

/// A pending batch that is given up leaves a gap with its number, its bucket range and its size;
/// and a gap that is recorded stays recorded.
pub proof fn gaps_tell_what_was_lost(
    table: TableModel<EnvelopeModel>,
    row: RowModel<EnvelopeModel>,
)
    requires
        table.wf(),
        row.seq == table.next_seq,
        table.admitted(row) is Ok,
    ensures
        ({
            let next = table.admitted(row)->Ok_0.0;
            &&& forall|i: int|
                0 <= i < table.rows.len() ==> next.rows.contains(#[trigger] table.rows[i])
                    || next.gaps.contains(
                    crate::retention::gap_of(
                        table.rows[i],
                        crate::retention::eviction_reason(
                            table.rows[i],
                            crate::retention::age_cutoff(
                                row.created_at,
                                table.limits.max_age_seconds,
                            ),
                        ),
                        row.created_at,
                    ),
                )
            &&& forall|i: int|
                0 <= i < table.gaps.len() ==> next.gaps.contains(#[trigger] table.gaps[i])
        }),
{
    let next = table.admitted(row)->Ok_0.0;
    let now = row.created_at;
    if row.payload_bytes > table.limits.max_payload_bytes {
        a_batch_too_large_costs_no_other(table, row);
        assert forall|i: int| 0 <= i < table.gaps.len() implies next.gaps.contains(
            #[trigger] table.gaps[i],
        ) by {
            assert(next.gaps[i] == table.gaps[i]);
        }
    } else {
        let all = table.rows.push(row);
        let cutoff = crate::retention::age_cutoff(now, table.limits.max_age_seconds);
        let limit = table.limits.max_payload_bytes as nat;
        let go = crate::retention::given_up(all, cutoff, limit);
        let lost = crate::retention::eviction_gaps(go, cutoff, now);
        crate::retention::eviction_shares_out(all, cutoff, limit);
        crate::retention::admission_records(table, row);
        assert forall|i: int| 0 <= i < table.rows.len() implies next.rows.contains(
            #[trigger] table.rows[i],
        ) || next.gaps.contains(
            crate::retention::gap_of(
                table.rows[i],
                crate::retention::eviction_reason(table.rows[i], cutoff),
                now,
            ),
        ) by {
            assert(all[i] == table.rows[i]);
            if !next.rows.contains(all[i]) {
                assert(go.contains(all[i]));
                let k = choose|k: int| 0 <= k < go.len() && go[k] == all[i];
                assert(lost.contains(lost[k]));
                assert(next.gaps.contains(lost[k]));
            }
        }
        assert forall|i: int| 0 <= i < table.gaps.len() implies next.gaps.contains(
            #[trigger] table.gaps[i],
        ) by {
            assert(table.gaps.contains(table.gaps[i]));
        }
    }
}

/// To make room the oldest batches go first: a batch that is given up for its size is older than
/// every batch that stays.
pub proof fn the_oldest_go_first(
    table: TableModel<EnvelopeModel>,
    row: RowModel<EnvelopeModel>,
    i: int,
    j: int,
)
    requires
        table.wf(),
        row.seq == table.next_seq,
        table.admitted(row) is Ok,
        row.payload_bytes <= table.limits.max_payload_bytes,
        0 <= i < table.admitted(row)->Ok_0.1.evicted.len(),
        table.admitted(row)->Ok_0.1.evicted[i].reason == "spool_byte_limit"@,
        0 <= j < table.admitted(row)->Ok_0.0.rows.len(),
    ensures
        table.admitted(row)->Ok_0.1.evicted[i].seq < table.admitted(row)->Ok_0.0.rows[j].seq,
{
    let all = table.rows.push(row);
    let cutoff = crate::retention::age_cutoff(row.created_at, table.limits.max_age_seconds);
    let limit = table.limits.max_payload_bytes as nat;
    let m = crate::retention::kept_place(all, cutoff, limit, j);
    let n = crate::retention::given_up_place(all, cutoff, limit, i);
    reveal_strlit("spool_byte_limit");
    reveal_strlit("spool_age_limit");
    assert("spool_byte_limit"@.len() == 16);
    assert("spool_age_limit"@.len() == 15);
    assert(!crate::retention::expired(all[n], cutoff));
    assert(all[n].seq < all[m].seq);
}

/// An acknowledgement removes one batch, the one that it names, and leaves every other batch and
/// every gap where it was.
pub proof fn an_acknowledgement_removes_one(
    table: TableModel<EnvelopeModel>,
    batch_id: Seq<char>,
    checksum: Seq<char>,
)
    requires
        table.wf(),
        names_pending(table, batch_id, checksum),
    ensures
        ({
            let next = acknowledged(table, batch_id, checksum);
            &&& exists|k: int|
                #![trigger table.rows[k]]
                0 <= k < table.rows.len() && table.rows[k].batch_id == batch_id && next.rows
                    == table.rows.remove(k)
            &&& next.gaps == table.gaps
            &&& next.next_seq == table.next_seq
            &&& !names_pending(next, batch_id, checksum)
        }),
{
    let next = acknowledged(table, batch_id, checksum);
    let stays = |row: RowModel<EnvelopeModel>| !is_named(row, batch_id, checksum);
    let k = choose|k: int|
        0 <= k < table.rows.len() && is_named(#[trigger] table.rows[k], batch_id, checksum);
    assert forall|j: int| 0 <= j < table.rows.len() implies (stays(#[trigger] table.rows[j]) <==> j
        != k) by {
        if j < k {
            assert(table.rows[j].batch_id != table.rows[k].batch_id);
        } else if k < j {
            assert(table.rows[k].batch_id != table.rows[j].batch_id);
        }
    }
    filter_of_one(table.rows, k, stays);
    crate::retention::filter_keeps_items(table.rows, stays);
}

/// Every pending batch is in the current format and carries its own checksum.
pub proof fn pending_batches_are_valid(table: TableModel<EnvelopeModel>, i: int)
    requires
        holds_sealed(table),
        0 <= i < pending_batches(table).len(),
    ensures
        ({
            let envelope = pending_batches(table)[i];
            &&& envelope.body.schema_version == SCHEMA_VERSION
            &&& crate::batch::checksum_of(envelope.body) == Some(envelope.checksum)
            &&& envelope.batch_id == crate::batch::batch_identity(envelope.body, envelope.checksum)
        }),
{
    assert(row_is_sealed(table.rows[i]));
}

/// A pending batch is named by its own identity and checksum: acknowledging it succeeds.
pub proof fn pending_batches_can_be_acknowledged(table: TableModel<EnvelopeModel>, i: int)
    requires
        holds_batches(table),
        0 <= i < pending_batches(table).len(),
    ensures
        names_pending(
            table,
            pending_batches(table)[i].batch_id,
            pending_batches(table)[i].checksum,
        ),
{
    assert(row_matches(table.rows[i]));
    assert(is_named(
        table.rows[i],
        pending_batches(table)[i].batch_id,
        pending_batches(table)[i].checksum,
    ));
}

} // verus!
