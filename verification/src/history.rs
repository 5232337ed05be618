//! A spool over time: what holds after any number of batches, acknowledgements and restarts.

use vstd::prelude::*;

use crate::batch::EnvelopeModel;
use crate::model::{CaptureDiagnostics, FlowBucketModel};
use crate::retention::{RowModel, SpoolError, SpoolLimits, TableModel};

verus! {

/// What happens to a spool.
pub enum SpoolEvent {
    /// A batch is put into it.
    Enqueue {
        node_id: Seq<char>,
        boot_id: Seq<char>,
        created_at: u64,
        buckets: Seq<FlowBucketModel>,
        diagnostics: CaptureDiagnostics,
    },
    /// A batch is acknowledged.
    Acknowledge { batch_id: Seq<char>, checksum: Seq<char> },
    /// It is closed, and opened again with these limits.
    Reopen { limits: SpoolLimits },
}

/// What comes of a batch that is put into the spool, where the event is one.
pub open spec fn enqueue_outcome(table: TableModel<EnvelopeModel>, event: SpoolEvent) -> Option<
    Result<(TableModel<EnvelopeModel>, Seq<char>, nat), SpoolError>,
> {
    match event {
        SpoolEvent::Enqueue { node_id, boot_id, created_at, buckets, diagnostics } => Some(
            crate::spool::enqueued(table, node_id, boot_id, created_at, buckets, diagnostics),
        ),
        _ => None,
    }
}

/// Whether the event puts a batch into the spool: one that is refused does not.
pub open spec fn takes_a_number(table: TableModel<EnvelopeModel>, event: SpoolEvent) -> bool {
    enqueue_outcome(table, event) matches Some(outcome) && outcome is Ok
}

/// The spool after an event. What is refused changes nothing.
pub open spec fn after_event(table: TableModel<EnvelopeModel>, event: SpoolEvent) -> TableModel<
    EnvelopeModel,
> {
    match event {
        SpoolEvent::Enqueue { node_id, boot_id, created_at, buckets, diagnostics } => {
            match crate::spool::enqueued(
                table,
                node_id,
                boot_id,
                created_at,
                buckets,
                diagnostics,
            ) {
                Ok((next, _, _)) => next,
                Err(_) => table,
            }
        },
        SpoolEvent::Acknowledge { batch_id, checksum } => crate::spool::acknowledged(
            table,
            batch_id,
            checksum,
        ),
        SpoolEvent::Reopen { limits } => {
            if limits.max_payload_bytes > 0 && limits.max_age_seconds > 0 {
                crate::spool::with_limits(table, limits)
            } else {
                table
            }
        },
    }
}

/// The spool after all events.
pub open spec fn after(table: TableModel<EnvelopeModel>, events: Seq<SpoolEvent>) -> TableModel<
    EnvelopeModel,
>
    decreases events.len(),
{
    if events.len() == 0 {
        table
    } else {
        after_event(after(table, events.drop_last()), events.last())
    }
}

/// How many of the events put a batch into the spool.
pub open spec fn numbers_taken(table: TableModel<EnvelopeModel>, events: Seq<SpoolEvent>) -> nat
    decreases events.len(),
{
    if events.len() == 0 {
        0
    } else {
        let before = events.drop_last();
        numbers_taken(table, before) + if takes_a_number(after(table, before), events.last()) {
            1nat
        } else {
            0nat
        }
    }
}

/// Whether a batch with that number is pending.
pub open spec fn is_pending(table: TableModel<EnvelopeModel>, seq: u64) -> bool {
    exists|i: int| 0 <= i < table.rows.len() && (#[trigger] table.rows[i]).seq == seq
}

/// Whether the loss of the batch with that number is recorded.
pub open spec fn is_lost(table: TableModel<EnvelopeModel>, seq: u64) -> bool {
    exists|i: int| 0 <= i < table.gaps.len() && (#[trigger] table.gaps[i]).seq == seq
}

/// Whether the event acknowledges the pending batch with that number.
pub open spec fn acknowledges(
    table: TableModel<EnvelopeModel>,
    event: SpoolEvent,
    seq: u64,
) -> bool {
    event matches SpoolEvent::Acknowledge { batch_id, checksum } && exists|i: int|
        0 <= i < table.rows.len() && (#[trigger] table.rows[i]).seq == seq
            && crate::spool::is_named(table.rows[i], batch_id, checksum)
}

/// Whether one of the events acknowledged the batch with that number.
pub open spec fn was_acknowledged(
    table: TableModel<EnvelopeModel>,
    events: Seq<SpoolEvent>,
    seq: u64,
) -> bool
    decreases events.len(),
{
    if events.len() == 0 {
        false
    } else {
        let before = events.drop_last();
        was_acknowledged(table, before, seq) || acknowledges(
            after(table, before),
            events.last(),
            seq,
        )
    }
}

/// The row that an event puts forward under the next number.
proof fn row_put_forward(table: TableModel<EnvelopeModel>, event: SpoolEvent) -> (row: RowModel<
    EnvelopeModel,
>)
    requires
        takes_a_number(table, event),
    ensures
        row.seq == table.next_seq,
        table.admitted(row) is Ok,
        after_event(table, event) == table.admitted(row)->Ok_0.0,
        enqueue_outcome(table, event)->0->Ok_0.1 == row.batch_id,
{
    match event {
        SpoolEvent::Enqueue { node_id, boot_id, created_at, buckets, diagnostics } => {
            crate::spool::new_row(
                node_id,
                boot_id,
                table.next_seq,
                created_at,
                buckets,
                diagnostics,
            )->0
        },
        _ => arbitrary(),
    }
}

/// A spool stays in order, whatever happens to it.
proof fn events_keep_order(table: TableModel<EnvelopeModel>, event: SpoolEvent)
    requires
        table.wf(),
    ensures
        after_event(table, event).wf(),
        after_event(table, event).next_seq == table.next_seq + if takes_a_number(table, event) {
            1int
        } else {
            0
        },
{
    match event {
        SpoolEvent::Enqueue { .. } => {
            if takes_a_number(table, event) {
                let row = row_put_forward(table, event);
                crate::retention::admission_keeps_order(table, row);
            }
        },
        SpoolEvent::Acknowledge { batch_id, checksum } => {
            crate::spool::acknowledgement_keeps_order(table, batch_id, checksum);
        },
        SpoolEvent::Reopen { .. } => {},
    }
}

/// A spool that started empty is in order after any history, and its next number is how many
/// batches were put into it.
pub proof fn numbers_count_the_batches(limits: SpoolLimits, events: Seq<SpoolEvent>)
    requires
        limits.max_payload_bytes > 0,
        limits.max_age_seconds > 0,
    ensures
        after(crate::spool::empty_table(limits), events).wf(),
        after(crate::spool::empty_table(limits), events).next_seq == numbers_taken(
            crate::spool::empty_table(limits),
            events,
        ),
    decreases events.len(),
{
    let start = crate::spool::empty_table(limits);
    if events.len() > 0 {
        numbers_count_the_batches(limits, events.drop_last());
        events_keep_order(after(start, events.drop_last()), events.last());
    }
}

/// Numbers are given out in turn: after any history the next batch that is not refused gets, as
/// its number, how many came before it. None is skipped and none is used again, whatever was
/// given up, acknowledged or opened again in between; and the identity of the batch tells it.
pub proof fn numbers_are_given_out_in_turn(
    limits: SpoolLimits,
    events: Seq<SpoolEvent>,
    node_id: Seq<char>,
    boot_id: Seq<char>,
    created_at: u64,
    buckets: Seq<FlowBucketModel>,
    diagnostics: CaptureDiagnostics,
)
    requires
        limits.max_payload_bytes > 0,
        limits.max_age_seconds > 0,
        crate::spool::enqueued(
            after(crate::spool::empty_table(limits), events),
            node_id,
            boot_id,
            created_at,
            buckets,
            diagnostics,
        ) is Ok,
    ensures
        ({
            let start = crate::spool::empty_table(limits);
            let table = after(start, events);
            let k = numbers_taken(start, events);
            let event = SpoolEvent::Enqueue { node_id, boot_id, created_at, buckets, diagnostics };
            let (next, batch_id, _) = crate::spool::enqueued(
                table,
                node_id,
                boot_id,
                created_at,
                buckets,
                diagnostics,
            )->Ok_0;
            let row = crate::spool::new_row(
                node_id,
                boot_id,
                k as u64,
                created_at,
                buckets,
                diagnostics,
            );
            let prefix = node_id + ":"@ + boot_id + ":"@ + crate::text::decimal(k) + ":"@;
            &&& k <= crate::sqlite::INTEGER_MAX
            &&& row is Some
            &&& row->0.payload.body.seq == k
            &&& batch_id == row->0.batch_id
            &&& batch_id.len() >= prefix.len()
            &&& batch_id.take(prefix.len() as int) == prefix
            &&& is_pending(next, k as u64) || is_lost(next, k as u64)
            &&& next.next_seq == k + 1
            &&& after(start, events.push(event)) == next
            &&& numbers_taken(start, events.push(event)) == k + 1
        }),
{
    let start = crate::spool::empty_table(limits);
    let table = after(start, events);
    let k = numbers_taken(start, events);
    let event = SpoolEvent::Enqueue { node_id, boot_id, created_at, buckets, diagnostics };
    numbers_count_the_batches(limits, events);
    assert(events.push(event).drop_last() =~= events);
    let row = row_put_forward(table, event);
    crate::spool::nothing_is_lost_unnoticed(table, row, k as u64);
    let body = crate::batch::new_body(
        node_id,
        boot_id,
        k as u64,
        created_at,
        buckets,
        diagnostics,
    );
    let checksum = crate::batch::sealed(body)->0.checksum;
    let prefix = node_id + ":"@ + boot_id + ":"@ + crate::text::decimal(k) + ":"@;
    assert(crate::batch::batch_identity(body, checksum) == prefix + checksum.take(16));
    assert((prefix + checksum.take(16)).take(prefix.len() as int) =~= prefix);
    events_keep_order(table, event);
}

/// What a single event does to a number.
proof fn event_moves_number(table: TableModel<EnvelopeModel>, event: SpoolEvent, seq: u64)
    requires
        table.wf(),
    ensures
        ({
            let next = after_event(table, event);
            let new = takes_a_number(table, event) && seq == table.next_seq;
            &&& acknowledges(table, event, seq) ==> is_pending(table, seq) && !is_pending(next, seq)
            &&& (is_pending(next, seq) || is_lost(next, seq)) <==> (is_pending(table, seq) || is_lost(
                table,
                seq,
            ) || new) && !acknowledges(table, event, seq)
            &&& is_lost(table, seq) ==> is_lost(next, seq)
            &&& !(is_pending(next, seq) && is_lost(next, seq))
        }),
{
    let next = after_event(table, event);
    events_keep_order(table, event);
    match event {
        SpoolEvent::Enqueue { .. } => {
            if takes_a_number(table, event) {
                let row = row_put_forward(table, event);
                crate::spool::nothing_is_lost_unnoticed(table, row, seq);
                crate::spool::gaps_tell_what_was_lost(table, row);
                if is_lost(table, seq) {
                    let i = choose|i: int|
                        0 <= i < table.gaps.len() && (#[trigger] table.gaps[i]).seq == seq;
                    assert(next.gaps.contains(table.gaps[i]));
                }
            }
        },
        SpoolEvent::Acknowledge { batch_id, checksum } => {
            acknowledgement_moves_number(table, batch_id, checksum, seq);
        },
        SpoolEvent::Reopen { .. } => {},
    }
}

/// What an acknowledgement does to a number.
proof fn acknowledgement_moves_number(
    table: TableModel<EnvelopeModel>,
    batch_id: Seq<char>,
    checksum: Seq<char>,
    seq: u64,
)
    requires
        table.wf(),
    ensures
        ({
            let next = crate::spool::acknowledged(table, batch_id, checksum);
            let event = SpoolEvent::Acknowledge { batch_id, checksum };
            &&& acknowledges(table, event, seq) ==> is_pending(table, seq)
            &&& is_pending(next, seq) <==> is_pending(table, seq) && !acknowledges(
                table,
                event,
                seq,
            )
            &&& acknowledges(table, event, seq) ==> !is_lost(table, seq)
        }),
{
    let next = crate::spool::acknowledged(table, batch_id, checksum);
    let event = SpoolEvent::Acknowledge { batch_id, checksum };
    let stays = |row: RowModel<EnvelopeModel>| !crate::spool::is_named(row, batch_id, checksum);
    crate::spool::acknowledgement_keeps_order(table, batch_id, checksum);
    if is_pending(next, seq) {
        let i = choose|i: int| 0 <= i < next.rows.len() && (#[trigger] next.rows[i]).seq == seq;
        assert(table.rows.contains(next.rows[i]));
        let k = choose|k: int| 0 <= k < table.rows.len() && table.rows[k] == next.rows[i];
        assert(table.rows[k].seq == seq);
        if acknowledges(table, event, seq) {
            let j = choose|j: int|
                0 <= j < table.rows.len() && (#[trigger] table.rows[j]).seq == seq
                    && crate::spool::is_named(table.rows[j], batch_id, checksum);
            if j < k {
                assert(table.rows[j].seq < table.rows[k].seq);
            } else if k < j {
                assert(table.rows[k].seq < table.rows[j].seq);
            }
        }
    }
    if is_pending(table, seq) && !acknowledges(table, event, seq) {
        let k = choose|k: int| 0 <= k < table.rows.len() && (#[trigger] table.rows[k]).seq == seq;
        assert(stays(table.rows[k]));
        assert(next.rows.contains(table.rows[k])) by {
            broadcast use vstd::seq_lib::group_filter_ensures;

        }
        let i = choose|i: int| 0 <= i < next.rows.len() && next.rows[i] == table.rows[k];
        assert(next.rows[i].seq == seq);
    }
}

/// Every number is accounted for: after any history a number that was given out belongs to a
/// batch that is pending, or whose loss is recorded, or that was acknowledged, and to one of them
/// only; a number that was not given out belongs to none.
pub proof fn every_number_is_accounted_for(
    limits: SpoolLimits,
    events: Seq<SpoolEvent>,
    seq: u64,
)
    requires
        limits.max_payload_bytes > 0,
        limits.max_age_seconds > 0,
    ensures
        ({
            let start = crate::spool::empty_table(limits);
            let table = after(start, events);
            let pending = is_pending(table, seq);
            let lost = is_lost(table, seq);
            let acknowledged = was_acknowledged(start, events, seq);
            &&& seq < numbers_taken(start, events) <==> pending || lost || acknowledged
            &&& !(pending && lost)
            &&& !(pending && acknowledged)
            &&& !(lost && acknowledged)
        }),
    decreases events.len(),
{
    let start = crate::spool::empty_table(limits);
    numbers_count_the_batches(limits, events);
    if events.len() > 0 {
        let before = events.drop_last();
        let table = after(start, before);
        every_number_is_accounted_for(limits, before, seq);
        numbers_count_the_batches(limits, before);
        event_moves_number(table, events.last(), seq);
    }
}

/// A gap stays: once the loss of a batch is recorded, it stays recorded as it is, whatever
/// happens later.
pub proof fn gaps_stay(
    table: TableModel<EnvelopeModel>,
    events: Seq<SpoolEvent>,
    gap: crate::model::GapModel,
)
    requires
        table.wf(),
        table.gaps.contains(gap),
    ensures
        after(table, events).wf(),
        after(table, events).gaps.contains(gap),
    decreases events.len(),
{
    if events.len() > 0 {
        let before = events.drop_last();
        gaps_stay(table, before, gap);
        let held = after(table, before);
        let event = events.last();
        events_keep_order(held, event);
        if takes_a_number(held, event) {
            let row = row_put_forward(held, event);
            crate::spool::gaps_tell_what_was_lost(held, row);
            let i = choose|i: int| 0 <= i < held.gaps.len() && held.gaps[i] == gap;
            assert(after_event(held, event).gaps.contains(held.gaps[i]));
        }
    }
}

/// Opening again changes nothing but the limits: the pending batches, the gaps and the next
/// number are those of before.
pub proof fn reopening_keeps_everything(table: TableModel<EnvelopeModel>, limits: SpoolLimits)
    ensures
        ({
            let next = after_event(table, SpoolEvent::Reopen { limits });
            &&& crate::spool::pending_batches(next) == crate::spool::pending_batches(table)
            &&& next.rows == table.rows
            &&& next.gaps == table.gaps
            &&& next.next_seq == table.next_seq
        }),
{
}

/// The acknowledgements of the oldest batches, one after another.
pub open spec fn acknowledgements(table: TableModel<EnvelopeModel>, n: int) -> Seq<SpoolEvent> {
    Seq::new(
        n as nat,
        |i: int|
            SpoolEvent::Acknowledge {
                batch_id: table.rows[i].payload.batch_id,
                checksum: table.rows[i].payload.checksum,
            },
    )
}

/// An upload is a history of acknowledgements: what is left of the spool is what they leave.
pub proof fn an_upload_acknowledges_the_oldest(table: TableModel<EnvelopeModel>, n: int)
    requires
        crate::spool::holds_batches(table),
        0 <= n <= table.rows.len(),
    ensures
        after(table, acknowledgements(table, n)) == crate::upload::without_first(table, n),
        crate::spool::holds_batches(crate::upload::without_first(table, n)),
    decreases n,
{
    let events = acknowledgements(table, n);
    if n == 0 {
        assert(table.rows.skip(0) =~= table.rows);
    } else {
        assert(events.drop_last() =~= acknowledgements(table, n - 1));
        an_upload_acknowledges_the_oldest(table, n - 1);
        let held = crate::upload::without_first(table, n - 1);
        crate::upload::acknowledge_oldest(held);
        assert(held.rows[0] == table.rows[n - 1]);
        assert(held.rows.skip(1) =~= table.rows.skip(n));
    }
}

} // verus!
