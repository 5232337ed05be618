//! Where pending batches and gaps come from: over any history of a spool each of them is of the
//! batch that was put into it under that number.

use vstd::prelude::*;

use crate::batch::EnvelopeModel;
use crate::history::SpoolEvent;
use crate::model::GapModel;
use crate::retention::{RowModel, SpoolLimits, TableModel};

verus! {

/// Whether event `m` put the batch with that number into the spool.
pub open spec fn is_source(
    start: TableModel<EnvelopeModel>,
    events: Seq<SpoolEvent>,
    m: int,
    seq: u64,
) -> bool {
    &&& 0 <= m < events.len()
    &&& events[m] is Enqueue
    &&& crate::history::after_event(
        crate::history::after(start, events.take(m)),
        events[m],
    ).next_seq == seq + 1
    &&& crate::history::after(start, events.take(m)).next_seq == seq
}

/// Whether a row holds what event `m` put into the spool.
pub open spec fn holds_source(row: RowModel<EnvelopeModel>, event: SpoolEvent) -> bool {
    &&& event is Enqueue
    &&& row.payload.body.node_id == event->node_id
    &&& row.payload.body.boot_id == event->boot_id
    &&& row.payload.body.created_at == event->created_at
    &&& row.payload.body.buckets == event->buckets
    &&& row.payload.body.diagnostics == event->diagnostics
    &&& row.payload.body.seq == row.seq
    &&& row.created_at == event->created_at
    &&& crate::evictions::spans(row.min_bucket, row.max_bucket, event->buckets)
}

/// Whether a gap tells the range of what event `m` put into the spool.
pub open spec fn tells_source(gap: GapModel, event: SpoolEvent) -> bool {
    &&& event is Enqueue
    &&& crate::evictions::spans(gap.min_bucket, gap.max_bucket, event->buckets)
}

spec fn rows_have_sources(start: TableModel<EnvelopeModel>, events: Seq<SpoolEvent>) -> bool {
    let table = crate::history::after(start, events);
    forall|i: int| #![trigger table.rows[i]]
        0 <= i < table.rows.len() ==> exists|m: int| #![trigger events[m]]
            is_source(start, events, m, table.rows[i].seq) && holds_source(
                table.rows[i],
                events[m],
            )
}

spec fn gaps_have_sources(start: TableModel<EnvelopeModel>, events: Seq<SpoolEvent>) -> bool {
    let table = crate::history::after(start, events);
    forall|i: int| #![trigger table.gaps[i]]
        0 <= i < table.gaps.len() ==> exists|m: int| #![trigger events[m]]
            is_source(start, events, m, table.gaps[i].seq) && tells_source(
                table.gaps[i],
                events[m],
            )
}

proof fn sources_stay(
    start: TableModel<EnvelopeModel>,
    events: Seq<SpoolEvent>,
    m: int,
    seq: u64,
)
    requires
        events.len() > 0,
        is_source(start, events.drop_last(), m, seq),
    ensures
        is_source(start, events, m, seq),
        events[m] == events.drop_last()[m],
{
    assert(events.drop_last().take(m) =~= events.take(m));
}

/// What the last event, where it puts a batch into the spool, puts into it.
proof fn the_last_is_a_source(start: TableModel<EnvelopeModel>, events: Seq<SpoolEvent>) -> (row:
    RowModel<EnvelopeModel>)
    requires
        events.len() > 0,
        crate::history::after(start, events.drop_last()).wf(),
        crate::history::takes_a_number(
            crate::history::after(start, events.drop_last()),
            events.last(),
        ),
    ensures
        ({
            let table = crate::history::after(start, events.drop_last());
            &&& row.seq == table.next_seq
            &&& table.admitted(row) is Ok
            &&& crate::history::after(start, events) == table.admitted(row)->Ok_0.0
            &&& is_source(start, events, events.len() - 1, row.seq)
            &&& holds_source(row, events[events.len() - 1])
        }),
{
    let table = crate::history::after(start, events.drop_last());
    let event = events.last();
    crate::evictions::a_new_row_says_what_was_handed_in(
        table,
        event->node_id,
        event->boot_id,
        event->created_at,
        event->buckets,
        event->diagnostics,
    );
    assert(events.take(events.len() - 1) =~= events.drop_last());
    crate::spool::new_row(
        event->node_id,
        event->boot_id,
        table.next_seq,
        event->created_at,
        event->buckets,
        event->diagnostics,
    )->0
}

proof fn enqueuing_keeps_sources(
    start: TableModel<EnvelopeModel>,
    events: Seq<SpoolEvent>,
    row: RowModel<EnvelopeModel>,
)
    requires
        events.len() > 0,
        ({
            let table = crate::history::after(start, events.drop_last());
            &&& table.wf()
            &&& row.seq == table.next_seq
            &&& table.admitted(row) is Ok
            &&& crate::history::after(start, events) == table.admitted(row)->Ok_0.0
            &&& is_source(start, events, events.len() - 1, row.seq)
            &&& holds_source(row, events[events.len() - 1])
        }),
        rows_have_sources(start, events.drop_last()),
        gaps_have_sources(start, events.drop_last()),
    ensures
        rows_have_sources(start, events),
        gaps_have_sources(start, events),
{
    let before = events.drop_last();
    let table = crate::history::after(start, before);
    let next = crate::history::after(start, events);
    let all = table.rows.push(row);
    assert forall|i: int| #![trigger all[i]] 0 <= i < all.len() implies exists|m: int|
        #![trigger events[m]]
        is_source(start, events, m, all[i].seq) && holds_source(all[i], events[m]) by {
        if i < table.rows.len() {
            assert(all[i] == table.rows[i]);
            let m = choose|m: int| #![trigger before[m]]
                is_source(start, before, m, table.rows[i].seq) && holds_source(
                    table.rows[i],
                    before[m],
                );
            sources_stay(start, events, m, table.rows[i].seq);
            assert(holds_source(all[i], events[m]));
        } else {
            assert(holds_source(all[i], events[events.len() - 1]));
        }
    }
    assert forall|i: int| #![trigger next.rows[i]] 0 <= i < next.rows.len() implies exists|m: int|
        #![trigger events[m]]
        is_source(start, events, m, next.rows[i].seq) && holds_source(next.rows[i], events[m]) by {
        let k = place_before(table, row, i);
        assert(all[k] == next.rows[i]);
    }
    assert forall|i: int| #![trigger next.gaps[i]] 0 <= i < next.gaps.len() implies exists|m: int|
        #![trigger events[m]]
        is_source(start, events, m, next.gaps[i].seq) && tells_source(next.gaps[i], events[m]) by {
        crate::evictions::gaps_are_of_lost_batches(table, row, i);
        let gap = next.gaps[i];
        if table.gaps.contains(gap) {
            let k = choose|k: int| 0 <= k < table.gaps.len() && table.gaps[k] == gap;
            let m = choose|m: int| #![trigger before[m]]
                is_source(start, before, m, table.gaps[k].seq) && tells_source(
                    table.gaps[k],
                    before[m],
                );
            sources_stay(start, events, m, gap.seq);
            assert(tells_source(gap, events[m]));
        } else {
            let k = choose|k: int|
                #![trigger all[k]]
                0 <= k < all.len() && gap.seq == all[k].seq && gap.min_bucket == all[k].min_bucket
                    && gap.max_bucket == all[k].max_bucket;
            let m = choose|m: int| #![trigger events[m]]
                is_source(start, events, m, all[k].seq) && holds_source(all[k], events[m]);
            assert(tells_source(gap, events[m]));
        }
    }
}

proof fn place_before(
    table: TableModel<EnvelopeModel>,
    row: RowModel<EnvelopeModel>,
    i: int,
) -> (k: int)
    requires
        table.wf(),
        row.seq == table.next_seq,
        table.admitted(row) is Ok,
        0 <= i < table.admitted(row)->Ok_0.0.rows.len(),
    ensures
        0 <= k < table.rows.push(row).len(),
        table.rows.push(row)[k] == table.admitted(row)->Ok_0.0.rows[i],
{
    if row.payload_bytes <= table.limits.max_payload_bytes {
        crate::retention::kept_place(
            table.rows.push(row),
            crate::retention::age_cutoff(row.created_at, table.limits.max_age_seconds),
            table.limits.max_payload_bytes as nat,
            i,
        )
    } else {
        i
    }
}

proof fn other_events_keep_sources(start: TableModel<EnvelopeModel>, events: Seq<SpoolEvent>)
    requires
        events.len() > 0,
        crate::history::after(start, events.drop_last()).wf(),
        !crate::history::takes_a_number(
            crate::history::after(start, events.drop_last()),
            events.last(),
        ),
        rows_have_sources(start, events.drop_last()),
        gaps_have_sources(start, events.drop_last()),
    ensures
        rows_have_sources(start, events),
        gaps_have_sources(start, events),
{
    let before = events.drop_last();
    let table = crate::history::after(start, before);
    let next = crate::history::after(start, events);
    if let SpoolEvent::Acknowledge { batch_id, checksum } = events.last() {
        crate::spool::acknowledgement_keeps_order(table, batch_id, checksum);
    }
    assert forall|i: int| #![trigger next.rows[i]] 0 <= i < next.rows.len() implies exists|m: int|
        #![trigger events[m]]
        is_source(start, events, m, next.rows[i].seq) && holds_source(next.rows[i], events[m]) by {
        assert(table.rows.contains(next.rows[i]));
        let k = choose|k: int| 0 <= k < table.rows.len() && table.rows[k] == next.rows[i];
        let m = choose|m: int| #![trigger before[m]]
            is_source(start, before, m, table.rows[k].seq) && holds_source(
                table.rows[k],
                before[m],
            );
        sources_stay(start, events, m, table.rows[k].seq);
        assert(holds_source(next.rows[i], events[m]));
    }
    assert forall|i: int| #![trigger next.gaps[i]] 0 <= i < next.gaps.len() implies exists|m: int|
        #![trigger events[m]]
        is_source(start, events, m, next.gaps[i].seq) && tells_source(next.gaps[i], events[m]) by {
        assert(next.gaps[i] == table.gaps[i]);
        let m = choose|m: int| #![trigger before[m]]
            is_source(start, before, m, table.gaps[i].seq) && tells_source(
                table.gaps[i],
                before[m],
            );
        sources_stay(start, events, m, table.gaps[i].seq);
        assert(tells_source(next.gaps[i], events[m]));
    }
}

proof fn everything_has_a_source(limits: SpoolLimits, events: Seq<SpoolEvent>)
    requires
        limits.max_payload_bytes > 0,
        limits.max_age_seconds > 0,
    ensures
        rows_have_sources(crate::spool::empty_table(limits), events),
        gaps_have_sources(crate::spool::empty_table(limits), events),
    decreases events.len(),
{
    let start = crate::spool::empty_table(limits);
    if events.len() > 0 {
        let before = events.drop_last();
        everything_has_a_source(limits, before);
        crate::history::numbers_count_the_batches(limits, before);
        if crate::history::takes_a_number(crate::history::after(start, before), events.last()) {
            let row = the_last_is_a_source(start, events);
            enqueuing_keeps_sources(start, events, row);
        } else {
            other_events_keep_sources(start, events);
        }
    }
}

/// Every gap tells the batch that was put into the spool under its number: over any history of
/// batches, acknowledgements and restarts, and whenever the batch was given up, the gap's range
/// goes from the smallest to the largest start among the buckets that were handed in.
pub proof fn a_gap_tells_the_batch_of_its_number(
    limits: SpoolLimits,
    events: Seq<SpoolEvent>,
    i: int,
)
    requires
        limits.max_payload_bytes > 0,
        limits.max_age_seconds > 0,
        0 <= i < crate::history::after(crate::spool::empty_table(limits), events).gaps.len(),
    ensures
        ({
            let start = crate::spool::empty_table(limits);
            let gap = crate::history::after(start, events).gaps[i];
            exists|m: int|
                #![trigger events[m]]
                is_source(start, events, m, gap.seq) && events[m] is Enqueue
                    && crate::evictions::spans(
                    gap.min_bucket,
                    gap.max_bucket,
                    events[m]->buckets,
                )
        }),
{
    everything_has_a_source(limits, events);
    let start = crate::spool::empty_table(limits);
    let table = crate::history::after(start, events);
    let gap = table.gaps[i];
    let m = choose|m: int| #![trigger events[m]]
        is_source(start, events, m, table.gaps[i].seq) && tells_source(table.gaps[i], events[m]);
    assert(is_source(start, events, m, gap.seq) && tells_source(gap, events[m]));
}

/// Every pending batch is the one that was put into the spool under its number, with the node,
/// the boot, the time, the buckets and the diagnostics that were handed in.
pub proof fn a_pending_batch_is_what_was_handed_in(
    limits: SpoolLimits,
    events: Seq<SpoolEvent>,
    i: int,
)
    requires
        limits.max_payload_bytes > 0,
        limits.max_age_seconds > 0,
        0 <= i < crate::history::after(crate::spool::empty_table(limits), events).rows.len(),
    ensures
        ({
            let start = crate::spool::empty_table(limits);
            let row = crate::history::after(start, events).rows[i];
            exists|m: int|
                #![trigger events[m]]
                is_source(start, events, m, row.seq) && holds_source(row, events[m])
        }),
{
    everything_has_a_source(limits, events);
    let start = crate::spool::empty_table(limits);
    let table = crate::history::after(start, events);
    let m = choose|m: int| #![trigger events[m]]
        is_source(start, events, m, table.rows[i].seq) && holds_source(table.rows[i], events[m]);
    assert(is_source(start, events, m, table.rows[i].seq) && holds_source(
        table.rows[i],
        events[m],
    ));
}

} // verus!
