//! What a spool owes its batches: which of them it gives up, what it records of those, and that
//! the others stay as they are.

use vstd::prelude::*;

use crate::batch::{BodyModel, EnvelopeModel};
use crate::model::{CaptureDiagnostics, FlowBucketModel};
use crate::retention::{RowModel, SpoolError, SpoolLimits, TableModel};
use crate::sqlite::RangeError;

verus! {

/// Whether `low` is the smallest and `high` the largest start of all buckets; where there is no
/// bucket there is neither.
pub open spec fn spans(low: Option<u64>, high: Option<u64>, buckets: Seq<FlowBucketModel>) -> bool {
    if buckets.len() == 0 {
        low is None && high is None
    } else {
        &&& low is Some && high is Some
        &&& forall|i: int|
            0 <= i < buckets.len() ==> low->0 <= (#[trigger] buckets[i]).bucket_start <= high->0
        &&& exists|i: int| 0 <= i < buckets.len() && (#[trigger] buckets[i]).bucket_start == low->0
        &&& exists|i: int| 0 <= i < buckets.len() && (#[trigger] buckets[i]).bucket_start == high->0
    }
}

/// The payload bytes of the rows from `from` on.
pub open spec fn bytes_from<V>(rows: Seq<RowModel<V>>, from: int) -> nat
    decreases rows.len() - from,
{
    if from >= rows.len() {
        0
    } else {
        rows[from].payload_bytes as nat + bytes_from(rows, from + 1)
    }
}

/// The number of bytes in all rows is the sum of their payload bytes, row by row.
pub proof fn totals_are_sums<V>(rows: Seq<RowModel<V>>, from: int)
    requires
        0 <= from <= rows.len(),
    ensures
        crate::retention::total(rows.skip(from)) == bytes_from(rows, from),
        crate::retention::total(rows) == bytes_from(rows, 0),
    decreases rows.len() - from,
{
    if from < rows.len() {
        totals_are_sums(rows, from + 1);
        assert(rows.skip(from).drop_first() =~= rows.skip(from + 1));
    }
    if from > 0 {
        sums_from_the_start(rows, from - 1);
    } else {
        assert(rows.skip(0) =~= rows);
    }
}

proof fn sums_from_the_start<V>(rows: Seq<RowModel<V>>, from: int)
    requires
        0 <= from < rows.len(),
        crate::retention::total(rows.skip(from + 1)) == bytes_from(rows, from + 1),
    ensures
        crate::retention::total(rows.skip(from)) == bytes_from(rows, from),
        crate::retention::total(rows) == bytes_from(rows, 0),
    decreases from,
{
    assert(rows.skip(from).drop_first() =~= rows.skip(from + 1));
    if from > 0 {
        sums_from_the_start(rows, from - 1);
    } else {
        assert(rows.skip(0) =~= rows);
    }
}

proof fn fewer_rows_fewer_bytes<V>(rows: Seq<RowModel<V>>, from: int, to: int)
    requires
        0 <= from <= to,
    ensures
        bytes_from(rows, to) <= bytes_from(rows, from),
    decreases to - from,
{
    if from < to {
        fewer_rows_fewer_bytes(rows, from + 1, to);
    }
}

/// A row has the range of its batch's buckets.
proof fn rows_span_their_buckets(row: RowModel<EnvelopeModel>)
    requires
        row.min_bucket == crate::spool::earliest(row.payload.body.buckets),
        row.max_bucket == crate::spool::latest(row.payload.body.buckets),
    ensures
        spans(row.min_bucket, row.max_bucket, row.payload.body.buckets),
{
    crate::spool::bucket_range_is_tight(row.payload.body.buckets);
}

/// The row of a batch that is put into a spool says of it what was handed in.
pub proof fn a_new_row_says_what_was_handed_in(
    table: TableModel<EnvelopeModel>,
    node_id: Seq<char>,
    boot_id: Seq<char>,
    created_at: u64,
    buckets: Seq<FlowBucketModel>,
    diagnostics: CaptureDiagnostics,
)
    requires
        crate::spool::enqueued(table, node_id, boot_id, created_at, buckets, diagnostics) is Ok,
    ensures
        ({
            let (next, batch_id, evicted) = crate::spool::enqueued(
                table,
                node_id,
                boot_id,
                created_at,
                buckets,
                diagnostics,
            )->Ok_0;
            let found = crate::spool::new_row(
                node_id,
                boot_id,
                table.next_seq,
                created_at,
                buckets,
                diagnostics,
            );
            let row = found->0;
            &&& found is Some
            &&& row.seq == table.next_seq
            &&& row.created_at == created_at
            &&& row.batch_id == batch_id
            &&& row.payload.batch_id == batch_id
            &&& row.checksum == row.payload.checksum
            &&& row.payload.body.schema_version == 1
            &&& row.payload.body.node_id == node_id
            &&& row.payload.body.boot_id == boot_id
            &&& row.payload.body.seq == table.next_seq
            &&& row.payload.body.created_at == created_at
            &&& row.payload.body.buckets == buckets
            &&& row.payload.body.diagnostics == diagnostics
            &&& spans(row.min_bucket, row.max_bucket, buckets)
            &&& table.admitted(row) is Ok
            &&& next == table.admitted(row)->Ok_0.0
            &&& evicted == table.admitted(row)->Ok_0.1.evicted.len()
        }),
{
    crate::spool::bucket_range_is_tight(buckets);
}

/// Every batch that leaves the spool without having been acknowledged leaves a gap that tells it:
/// its number, its size, the smallest and the largest start of its buckets, when it was given up,
/// and whether for its age or for its bytes. Neither how long it was pending nor when it is given
/// up changes its range.
pub proof fn a_lost_batch_leaves_its_range(
    table: TableModel<EnvelopeModel>,
    node_id: Seq<char>,
    boot_id: Seq<char>,
    now: u64,
    buckets: Seq<FlowBucketModel>,
    diagnostics: CaptureDiagnostics,
    i: int,
)
    requires
        crate::spool::holds_batches(table),
        crate::spool::enqueued(table, node_id, boot_id, now, buckets, diagnostics) is Ok,
        0 <= i < table.rows.len(),
        ({
            let next = crate::spool::enqueued(
                table,
                node_id,
                boot_id,
                now,
                buckets,
                diagnostics,
            )->Ok_0.0;
            forall|k: int|
                0 <= k < next.rows.len() ==> (#[trigger] next.rows[k]).seq != table.rows[i].seq
        }),
    ensures
        ({
            let next = crate::spool::enqueued(
                table,
                node_id,
                boot_id,
                now,
                buckets,
                diagnostics,
            )->Ok_0.0;
            let batch = table.rows[i].payload;
            exists|j: int|
                #![trigger next.gaps[j]]
                {
                    &&& 0 <= j < next.gaps.len()
                    &&& next.gaps[j].seq == batch.body.seq
                    &&& spans(next.gaps[j].min_bucket, next.gaps[j].max_bucket, batch.body.buckets)
                    &&& next.gaps[j].lost_bytes == table.rows[i].payload_bytes
                    &&& next.gaps[j].created_at == now
                    &&& batch.body.created_at + table.limits.max_age_seconds < now
                        ==> next.gaps[j].reason == "spool_age_limit"@
                    &&& batch.body.created_at + table.limits.max_age_seconds >= now
                        ==> next.gaps[j].reason == "spool_byte_limit"@
                }
        }),
{
    a_new_row_says_what_was_handed_in(table, node_id, boot_id, now, buckets, diagnostics);
    let row = crate::spool::new_row(
        node_id,
        boot_id,
        table.next_seq,
        now,
        buckets,
        diagnostics,
    )->0;
    let next = table.admitted(row)->Ok_0.0;
    let old = table.rows[i];
    crate::spool::gaps_tell_what_was_lost(table, row);
    assert(crate::spool::row_matches(old));
    rows_span_their_buckets(old);
    if next.rows.contains(old) {
        let k = choose|k: int| 0 <= k < next.rows.len() && next.rows[k] == old;
        assert(next.rows[k].seq == old.seq);
    }
    let gap = crate::retention::gap_of(
        old,
        crate::retention::eviction_reason(
            old,
            crate::retention::age_cutoff(now, table.limits.max_age_seconds),
        ),
        now,
    );
    assert(next.gaps.contains(gap));
    let j = choose|j: int| 0 <= j < next.gaps.len() && next.gaps[j] == gap;
    assert(next.gaps[j] == gap);
}

/// A batch that is put into the spool is the last one pending, or alone exceeds the byte limit.
/// In that case no other batch goes, and the batch leaves a gap that tells it: its number, its
/// size, the smallest and the largest start of its buckets, and its time.
pub proof fn a_new_batch_is_pending_or_lost(
    table: TableModel<EnvelopeModel>,
    node_id: Seq<char>,
    boot_id: Seq<char>,
    now: u64,
    buckets: Seq<FlowBucketModel>,
    diagnostics: CaptureDiagnostics,
)
    requires
        table.wf(),
        crate::spool::enqueued(table, node_id, boot_id, now, buckets, diagnostics) is Ok,
    ensures
        ({
            let (next, batch_id, evicted) = crate::spool::enqueued(
                table,
                node_id,
                boot_id,
                now,
                buckets,
                diagnostics,
            )->Ok_0;
            let is_stored = next.rows.len() > 0 && next.rows.last().seq == table.next_seq;
            &&& next.next_seq == table.next_seq + 1
            &&& next.limits == table.limits
            &&& is_stored ==> {
                let row = next.rows.last();
                &&& row.batch_id == batch_id
                &&& row.payload.batch_id == batch_id
                &&& row.checksum == row.payload.checksum
                &&& row.created_at == now
                &&& row.payload_bytes <= table.limits.max_payload_bytes
                &&& row.payload.body.schema_version == 1
                &&& row.payload.body.node_id == node_id
                &&& row.payload.body.boot_id == boot_id
                &&& row.payload.body.seq == table.next_seq
                &&& row.payload.body.created_at == now
                &&& row.payload.body.buckets == buckets
                &&& row.payload.body.diagnostics == diagnostics
                &&& spans(row.min_bucket, row.max_bucket, buckets)
            }
            &&& !is_stored ==> {
                let gap = next.gaps.last();
                &&& next.rows == table.rows
                &&& next.gaps.len() == table.gaps.len() + 1
                &&& next.gaps.drop_last() == table.gaps
                &&& gap.seq == table.next_seq
                &&& spans(gap.min_bucket, gap.max_bucket, buckets)
                &&& gap.lost_bytes > table.limits.max_payload_bytes
                &&& gap.created_at == now
                &&& gap.reason == "batch_exceeds_spool_limit"@
                &&& evicted == 1
            }
        }),
{
    a_new_row_says_what_was_handed_in(table, node_id, boot_id, now, buckets, diagnostics);
    let row = crate::spool::new_row(
        node_id,
        boot_id,
        table.next_seq,
        now,
        buckets,
        diagnostics,
    )->0;
    let next = table.admitted(row)->Ok_0.0;
    if row.payload_bytes <= table.limits.max_payload_bytes {
        crate::spool::a_batch_that_fits_is_pending(table, row);
    } else {
        crate::spool::a_batch_too_large_costs_no_other(table, row);
        if next.rows.len() > 0 {
            assert(table.rows[table.rows.len() - 1].seq < table.next_seq);
        }
        assert(next.gaps.drop_last() =~= table.gaps);
    }
}

/// A batch goes only where it has to: of the batches that were pending and the new one, which
/// fits, exactly those stay that are young enough and that fit into the byte limit together with
/// all later ones.
pub proof fn only_what_has_to_go_goes(
    table: TableModel<EnvelopeModel>,
    row: RowModel<EnvelopeModel>,
    i: int,
)
    requires
        table.wf(),
        row.seq == table.next_seq,
        row.payload_bytes <= table.limits.max_payload_bytes,
        table.admitted(row) is Ok,
        0 <= i <= table.rows.len(),
    ensures
        ({
            let all = table.rows.push(row);
            let next = table.admitted(row)->Ok_0.0;
            next.rows.contains(all[i]) <==> all[i].created_at + table.limits.max_age_seconds
                >= row.created_at && bytes_from(all, i) <= table.limits.max_payload_bytes
        }),
{
    let all = table.rows.push(row);
    let next = table.admitted(row)->Ok_0.0;
    let cutoff = crate::retention::age_cutoff(row.created_at, table.limits.max_age_seconds);
    let limit = table.limits.max_payload_bytes as nat;
    let k = crate::retention::surplus(all, limit) as int;
    crate::retention::surplus_is_bounded(all, limit);
    crate::retention::eviction_shares_out(all, cutoff, limit);
    totals_are_sums(all, i);
    totals_are_sums(all, k);
    if i < k {
        assert(crate::retention::total(all.skip(i)) > limit);
    } else {
        fewer_rows_fewer_bytes(all, k, i);
    }
    assert forall|m: int| 0 <= m < all.len() && m != i implies (#[trigger] all[m]).seq
        != all[i].seq by {
        if m < i {
            assert(all[m].seq < all[i].seq);
        } else {
            assert(all[i].seq < all[m].seq);
        }
    }
    if next.rows.contains(all[i]) {
        let n = choose|n: int| 0 <= n < next.rows.len() && next.rows[n] == all[i];
        let m = crate::retention::kept_place(all, cutoff, limit, n);
        assert(m == i);
    } else {
        let go = crate::retention::given_up(all, cutoff, limit);
        assert(go.contains(all[i]));
        let n = choose|n: int| 0 <= n < go.len() && go[n] == all[i];
        let m = crate::retention::given_up_place(all, cutoff, limit, n);
        assert(m == i);
    }
}

/// What stays was there: every batch that is pending once a batch was put into the spool was
/// pending before, unchanged, or is the new one; and their order is that of their numbers.
pub proof fn pending_batches_stay_as_they_are(
    table: TableModel<EnvelopeModel>,
    row: RowModel<EnvelopeModel>,
    i: int,
    j: int,
)
    requires
        table.wf(),
        row.seq == table.next_seq,
        table.admitted(row) is Ok,
        0 <= i < j < table.admitted(row)->Ok_0.0.rows.len(),
    ensures
        ({
            let next = table.admitted(row)->Ok_0.0;
            &&& next.rows[i].seq < next.rows[j].seq
            &&& table.rows.push(row).contains(next.rows[i])
            &&& table.rows.push(row).contains(next.rows[j])
        }),
{
    crate::retention::admission_keeps_order(table, row);
    let all = table.rows.push(row);
    let next = table.admitted(row)->Ok_0.0;
    if row.payload_bytes <= table.limits.max_payload_bytes {
        let cutoff = crate::retention::age_cutoff(row.created_at, table.limits.max_age_seconds);
        let limit = table.limits.max_payload_bytes as nat;
        let m = crate::retention::kept_place(all, cutoff, limit, i);
        let n = crate::retention::kept_place(all, cutoff, limit, j);
        assert(all[m] == next.rows[i]);
        assert(all[n] == next.rows[j]);
    } else {
        assert(all[i] == next.rows[i]);
        assert(all[j] == next.rows[j]);
    }
}

/// Every gap that is recorded once a batch was put into the spool was recorded before, unchanged,
/// or tells a batch that is not pending any more, and tells its number, its range, its size and
/// the time. What was recorded stays recorded, and as many gaps are new as batches were given up.
pub proof fn gaps_are_of_lost_batches(
    table: TableModel<EnvelopeModel>,
    row: RowModel<EnvelopeModel>,
    j: int,
)
    requires
        table.wf(),
        row.seq == table.next_seq,
        table.admitted(row) is Ok,
        0 <= j < table.admitted(row)->Ok_0.0.gaps.len(),
    ensures
        ({
            let all = table.rows.push(row);
            let (next, admission) = table.admitted(row)->Ok_0;
            let gap = next.gaps[j];
            &&& table.gaps.contains(gap) || exists|i: int|
                #![trigger all[i]]
                {
                    &&& 0 <= i < all.len()
                    &&& !next.rows.contains(all[i])
                    &&& gap.seq == all[i].seq
                    &&& gap.min_bucket == all[i].min_bucket
                    &&& gap.max_bucket == all[i].max_bucket
                    &&& gap.lost_bytes == all[i].payload_bytes
                    &&& gap.created_at == row.created_at
                }
            &&& forall|k: int| 0 <= k < table.gaps.len() ==> next.gaps.contains(
                #[trigger] table.gaps[k],
            )
            &&& next.gaps.len() == table.gaps.len() + admission.evicted.len()
            &&& next.rows.len() + admission.evicted.len() == table.rows.len() + 1
        }),
{
    let all = table.rows.push(row);
    let (next, admission) = table.admitted(row)->Ok_0;
    let gap = next.gaps[j];
    let now = row.created_at;
    assert(next.gaps.contains(gap));
    crate::spool::gaps_tell_what_was_lost(table, row);
    if row.payload_bytes <= table.limits.max_payload_bytes {
        let cutoff = crate::retention::age_cutoff(now, table.limits.max_age_seconds);
        let limit = table.limits.max_payload_bytes as nat;
        let go = crate::retention::given_up(all, cutoff, limit);
        let lost = crate::retention::eviction_gaps(go, cutoff, now);
        crate::retention::admission_records(table, row);
        crate::retention::eviction_shares_out(all, cutoff, limit);
        if !table.gaps.contains(gap) {
            assert(lost.contains(gap));
            let k = choose|k: int| 0 <= k < lost.len() && lost[k] == gap;
            let m = crate::retention::given_up_place(all, cutoff, limit, k);
            assert(all[m] == go[k]);
            if next.rows.contains(all[m]) {
                let n = choose|n: int| 0 <= n < next.rows.len() && next.rows[n] == all[m];
                assert(next.rows[n].seq != go[k].seq);
            }
        }
    } else {
        crate::spool::a_batch_too_large_costs_no_other(table, row);
        if j < table.gaps.len() {
            assert(gap == table.gaps[j]);
        } else {
            let i = table.rows.len() as int;
            assert(all[i] == row);
            if next.rows.contains(row) {
                let n = choose|n: int| 0 <= n < table.rows.len() && table.rows[n] == row;
                assert(table.rows[n].seq < table.next_seq);
            }
        }
    }
}

/// A batch is accepted wherever its numbers, those of its buckets and the sums fit the columns of
/// a database, eight bytes with a sign: no limit, no age and no earlier batch makes the spool
/// refuse it.
pub proof fn a_countable_batch_is_accepted(
    table: TableModel<EnvelopeModel>,
    row: RowModel<EnvelopeModel>,
)
    requires
        table.wf(),
        forall|i: int|
            0 <= i < table.rows.len() ==> (#[trigger] table.rows[i]).batch_id != row.batch_id,
        row.min_bucket == crate::spool::earliest(row.payload.body.buckets),
        row.max_bucket == crate::spool::latest(row.payload.body.buckets),
        table.next_seq <= 0x7fff_ffff_ffff_ffff,
        row.created_at <= 0x7fff_ffff_ffff_ffff,
        row.payload_bytes <= 0x7fff_ffff_ffff_ffff,
        forall|i: int|
            0 <= i < row.payload.body.buckets.len() ==> (
            #[trigger] row.payload.body.buckets[i]).bucket_start <= 0x7fff_ffff_ffff_ffff,
        table.limits.max_payload_bytes <= 0x7fff_ffff_ffff_ffff,
        bytes_from(table.rows.push(row), 0) <= 0x7fff_ffff_ffff_ffff,
    ensures
        table.admitted(row) is Ok,
{
    rows_span_their_buckets(row);
    let buckets = row.payload.body.buckets;
    if buckets.len() > 0 {
        let low = choose|i: int|
            0 <= i < buckets.len() && (#[trigger] buckets[i]).bucket_start == row.min_bucket->0;
        let high = choose|i: int|
            0 <= i < buckets.len() && (#[trigger] buckets[i]).bucket_start == row.max_bucket->0;
        assert(buckets[low].bucket_start <= 0x7fff_ffff_ffff_ffff);
        assert(buckets[high].bucket_start <= 0x7fff_ffff_ffff_ffff);
    }
    totals_are_sums(table.rows.push(row), 0);
}

/// A refused batch is refused for a reason: the numbers ran out, a number does not fit its
/// column, the sum of the bytes does not, the batch has no JSON text, or its identity is pending.
pub proof fn a_batch_is_refused_for_a_reason(
    table: TableModel<EnvelopeModel>,
    row: RowModel<EnvelopeModel>,
)
    requires
        table.wf(),
        table.admitted(row) is Err,
    ensures
        ({
            let error = table.admitted(row)->Err_0;
            &&& error is SequenceExhausted <==> table.next_seq > 0x7fff_ffff_ffff_ffff
            &&& error is DuplicateBatch ==> exists|i: int|
                0 <= i < table.rows.len() && (#[trigger] table.rows[i]).batch_id == row.batch_id
            &&& error is TotalOverflow ==> bytes_from(table.rows.push(row), 0)
                > 0x7fff_ffff_ffff_ffff
            &&& error is Range ==> row.created_at > 0x7fff_ffff_ffff_ffff || row.payload_bytes
                > 0x7fff_ffff_ffff_ffff || (row.min_bucket matches Some(low) && low
                > 0x7fff_ffff_ffff_ffff) || (row.max_bucket matches Some(high) && high
                > 0x7fff_ffff_ffff_ffff) || table.limits.max_payload_bytes > 0x7fff_ffff_ffff_ffff
            &&& error is SequenceExhausted || error is DuplicateBatch || error is TotalOverflow
                || error is Range
        }),
{
    totals_are_sums(table.rows.push(row), 0);
}

/// An acknowledgement takes the one pending batch that has both its identity and its checksum,
/// and leaves the others, their order, the gaps and the numbers as they are. Where no pending
/// batch has both it names none and changes nothing.
pub proof fn an_acknowledgement_needs_both(
    table: TableModel<EnvelopeModel>,
    batch_id: Seq<char>,
    checksum: Seq<char>,
    k: int,
)
    requires
        crate::spool::holds_batches(table),
    ensures
        ({
            let next = crate::spool::acknowledged(table, batch_id, checksum);
            let is_named = crate::spool::names_pending(table, batch_id, checksum);
            &&& next.gaps == table.gaps
            &&& next.next_seq == table.next_seq
            &&& next.limits == table.limits
            &&& 0 <= k < table.rows.len() && table.rows[k].batch_id == batch_id
                && table.rows[k].checksum == checksum ==> is_named && next.rows
                == table.rows.remove(k)
            &&& (forall|i: int|
                0 <= i < table.rows.len() ==> (#[trigger] table.rows[i]).batch_id != batch_id
                    || table.rows[i].checksum != checksum) ==> !is_named && next.rows == table.rows
        }),
{
    let next = crate::spool::acknowledged(table, batch_id, checksum);
    if crate::spool::names_pending(table, batch_id, checksum) {
        crate::spool::an_acknowledgement_removes_one(table, batch_id, checksum);
        let m = choose|m: int|
            #![trigger table.rows[m]]
            0 <= m < table.rows.len() && table.rows[m].batch_id == batch_id && next.rows
                == table.rows.remove(m);
        if 0 <= k < table.rows.len() && table.rows[k].batch_id == batch_id {
            if k < m {
                assert(table.rows[k].batch_id != table.rows[m].batch_id);
            }
            if m < k {
                assert(table.rows[m].batch_id != table.rows[k].batch_id);
            }
        }
    } else {
        crate::spool::filter_of_all(
            table.rows,
            |row: RowModel<EnvelopeModel>| !crate::spool::is_named(row, batch_id, checksum),
        );
        if 0 <= k < table.rows.len() && table.rows[k].batch_id == batch_id
            && table.rows[k].checksum == checksum {
            assert(crate::spool::is_named(table.rows[k], batch_id, checksum));
        }
    }
}

/// The pending batches are the payloads of the rows, one for one and in their order.
pub proof fn pending_batches_are_the_payloads(table: TableModel<EnvelopeModel>, i: int)
    ensures
        crate::spool::pending_batches(table).len() == table.rows.len(),
        0 <= i < table.rows.len() ==> crate::spool::pending_batches(table)[i]
            == table.rows[i].payload,
{
}

/// A spool that is opened holds nothing, counts from zero and has the given limits; one that is
/// opened again holds everything that it held, and only its limits are new.
pub proof fn opening_changes_only_the_limits(
    table: TableModel<EnvelopeModel>,
    limits: SpoolLimits,
)
    ensures
        ({
            let fresh = crate::spool::empty_table(limits);
            let again = crate::spool::with_limits(table, limits);
            &&& fresh.limits == limits
            &&& fresh.next_seq == 0
            &&& fresh.rows.len() == 0
            &&& fresh.gaps.len() == 0
            &&& again.limits == limits
            &&& again.next_seq == table.next_seq
            &&& again.rows == table.rows
            &&& again.gaps == table.gaps
        }),
{
}

/// The page limit of a spool is the smallest number of pages that hold the payload and sixteen
/// mebibytes of overhead.
pub proof fn pages_hold_the_payload(max_payload_bytes: u64, page_size: u64)
    requires
        page_size > 0,
    ensures
        ({
            let pages = crate::spool::page_limit(max_payload_bytes, page_size);
            &&& pages * page_size >= max_payload_bytes + 16 * 1024 * 1024
            &&& (pages - 1) * page_size < max_payload_bytes + 16 * 1024 * 1024
        }),
{
    let bytes = max_payload_bytes + 16 * 1024 * 1024;
    let p = page_size as int;
    let pages = (bytes + p - 1) / p;
    assert(pages * p >= bytes && (pages - 1) * p < bytes) by (nonlinear_arith)
        requires
            p > 0,
            pages == (bytes + p - 1) / p,
    ;
}

/// A time lies before the cutoff exactly where more than the greatest age has passed since.
pub proof fn the_cutoff_is_the_age_before_now(time: u64, now: u64, max_age_seconds: u64)
    ensures
        time < crate::retention::age_cutoff(now, max_age_seconds) <==> time + max_age_seconds < now,
{
}

/// A batch whose numbers do not fit is refused, and the refusal names the first of them. For a
/// batch that alone exceeds the byte limit the numbers are those of its gap.
pub proof fn numbers_that_do_not_fit_are_named(
    table: TableModel<EnvelopeModel>,
    row: RowModel<EnvelopeModel>,
)
    requires
        table.next_seq <= 0x7fff_ffff_ffff_ffff,
    ensures
        ({
            let low = if row.min_bucket is Some {
                row.min_bucket->0
            } else {
                0
            };
            let high = if row.max_bucket is Some {
                row.max_bucket->0
            } else {
                0
            };
            let limit: u64 = 0x7fff_ffff_ffff_ffff;
            let is_stored = row.payload_bytes <= table.limits.max_payload_bytes;
            let field = if is_stored {
                if row.created_at > limit {
                    "created_at"
                } else if low > limit {
                    "min_bucket"
                } else if high > limit {
                    "max_bucket"
                } else {
                    "payload_bytes"
                }
            } else {
                if low > limit {
                    "gap min_bucket"
                } else if high > limit {
                    "gap max_bucket"
                } else if row.payload_bytes > limit {
                    "gap lost_bytes"
                } else {
                    "gap created_at"
                }
            };
            row.created_at > limit || low > limit || high > limit || row.payload_bytes > limit
                ==> table.admitted(row) == Err::<
                (TableModel<EnvelopeModel>, crate::retention::AdmissionModel),
                SpoolError,
            >(SpoolError::Range(RangeError { field }))
        }),
{
}

/// Pending batches and gaps come in the order of their numbers, all below the next number; no
/// number is both pending and lost, and no two pending batches have the same identity.
pub proof fn a_spool_is_in_order(table: TableModel<EnvelopeModel>, i: int, j: int)
    requires
        table.wf(),
    ensures
        0 <= i < j < table.rows.len() ==> table.rows[i].seq < table.rows[j].seq
            && table.rows[i].batch_id != table.rows[j].batch_id,
        0 <= i < table.rows.len() ==> table.rows[i].seq < table.next_seq,
        0 <= i < j < table.gaps.len() ==> table.gaps[i].seq < table.gaps[j].seq,
        0 <= i < table.gaps.len() ==> table.gaps[i].seq < table.next_seq,
        0 <= i < table.rows.len() && 0 <= j < table.gaps.len() ==> table.rows[i].seq
            != table.gaps[j].seq,
{
}

proof fn one_row_more<V>(rows: Seq<RowModel<V>>, row: RowModel<V>, from: int)
    requires
        0 <= from <= rows.len(),
    ensures
        bytes_from(rows.push(row), from) == bytes_from(rows, from) + row.payload_bytes,
    decreases rows.len() - from,
{
    if from < rows.len() {
        one_row_more(rows, row, from + 1);
    } else {
        assert(bytes_from(rows.push(row), from + 1) == 0);
    }
}

/// Buckets that can be sealed are put into the spool wherever the numbers fit: a batch needs only
/// a JSON text, a free number and identity, and times, sizes and sums of eight bytes with a sign.
pub proof fn a_countable_batch_is_enqueued(
    table: TableModel<EnvelopeModel>,
    node_id: Seq<char>,
    boot_id: Seq<char>,
    now: u64,
    buckets: Seq<FlowBucketModel>,
    diagnostics: CaptureDiagnostics,
)
    requires
        table.wf(),
        ({
            let body = BodyModel {
                schema_version: 1,
                node_id,
                boot_id,
                seq: table.next_seq,
                created_at: now,
                buckets,
                diagnostics,
            };
            let envelope = crate::batch::sealed(body)->0;
            let text = crate::encoding::json_text(crate::batch::envelope_document(envelope));
            &&& crate::encoding::json_text(crate::batch::body_document(body)) is Some
            &&& text is Some
            &&& text->0.len() + bytes_from(table.rows, 0) <= 0x7fff_ffff_ffff_ffff
            &&& forall|i: int|
                0 <= i < table.rows.len() ==> (#[trigger] table.rows[i]).batch_id
                    != envelope.batch_id
        }),
        table.next_seq <= 0x7fff_ffff_ffff_ffff,
        now <= 0x7fff_ffff_ffff_ffff,
        forall|i: int|
            0 <= i < buckets.len() ==> (#[trigger] buckets[i]).bucket_start
                <= 0x7fff_ffff_ffff_ffff,
        table.limits.max_payload_bytes <= 0x7fff_ffff_ffff_ffff,
    ensures
        crate::spool::enqueued(table, node_id, boot_id, now, buckets, diagnostics) is Ok,
{
    let row = crate::spool::new_row(
        node_id,
        boot_id,
        table.next_seq,
        now,
        buckets,
        diagnostics,
    )->0;
    one_row_more(table.rows, row, 0);
    a_countable_batch_is_accepted(table, row);
}

/// Where a batch is refused, or has no JSON text, the spool says why; where it is not, the new
/// row is offered to the spool as it is.
pub proof fn enqueuing_offers_the_new_row(
    table: TableModel<EnvelopeModel>,
    node_id: Seq<char>,
    boot_id: Seq<char>,
    now: u64,
    buckets: Seq<FlowBucketModel>,
    diagnostics: CaptureDiagnostics,
)
    ensures
        ({
            let r = crate::spool::enqueued(table, node_id, boot_id, now, buckets, diagnostics);
            let row = crate::spool::new_row(
                node_id,
                boot_id,
                table.next_seq,
                now,
                buckets,
                diagnostics,
            );
            &&& (r is Err && r->Err_0 is SequenceExhausted) <==> table.next_seq
                > 0x7fff_ffff_ffff_ffff
            &&& table.next_seq <= 0x7fff_ffff_ffff_ffff && row is None ==> r is Err && r->Err_0
                is Encoding
            &&& table.next_seq <= 0x7fff_ffff_ffff_ffff && row is Some ==> (r is Ok
                <==> table.admitted(row->0) is Ok)
            &&& table.next_seq <= 0x7fff_ffff_ffff_ffff && row is Some && r is Err ==> r->Err_0
                == table.admitted(row->0)->Err_0
        }),
{
}

} // verus!
