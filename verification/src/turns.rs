//! What one turn of a capture run owes the run: which counts it hands to the spool, as which
//! batches, and what it leaves.

use vstd::prelude::*;

use crate::batch::EnvelopeModel;
use crate::capture::{CaptureStats, SessionModel, Step};
use crate::model::{CaptureDiagnostics, FlowBucketModel, FlowKeyModel};
use crate::packet::{PacketError, PacketModel};
use crate::retention::{SpoolError, TableModel};

verus! {

/// Whether the interval of a count is over at that time.
pub open spec fn is_over(key: (u64, FlowKeyModel), seconds: u64, now: u64) -> bool {
    key.0 + seconds <= now
}

/// Whether every count starts at a multiple of the interval.
pub open spec fn starts_are_multiples(session: SessionModel) -> bool {
    &&& session.config.bucket_seconds > 0
    &&& forall|key: (u64, FlowKeyModel)| #[trigger]
        session.flows.contains_key(key) ==> key.0 % session.config.bucket_seconds == 0
}

/// Whether buckets are exactly the counts whose intervals are over, or exactly the others.
pub open spec fn are_buckets_of(
    buckets: Seq<FlowBucketModel>,
    session: SessionModel,
    now: u64,
    over: bool,
) -> bool {
    &&& forall|i: int|
        #![trigger buckets[i]]
        0 <= i < buckets.len() ==> {
            let key = (buckets[i].bucket_start, buckets[i].key);
            &&& session.flows.contains_key(key)
            &&& session.flows[key] == (buckets[i].packets, buckets[i].bytes)
            &&& is_over(key, session.config.bucket_seconds, now) == over
        }
    &&& forall|start: u64, key: FlowKeyModel| #[trigger]
        session.flows.contains_key((start, key)) && is_over(
            (start, key),
            session.config.bucket_seconds,
            now,
        ) == over ==> exists|i: int|
            0 <= i < buckets.len() && (#[trigger] buckets[i]).bucket_start == start
                && buckets[i].key == key
}

/// What is due are the counts whose intervals are over, and what is left are the others.
pub proof fn over_is_due(session: SessionModel, now: u64)
    requires
        starts_are_multiples(session),
    ensures
        forall|key: (u64, FlowKeyModel)| #[trigger]
            crate::capture::due(session, now).contains_key(key) <==> session.flows.contains_key(key)
                && is_over(key, session.config.bucket_seconds, now),
        forall|key: (u64, FlowKeyModel)| #[trigger]
            crate::capture::after_due(session, now).flows.contains_key(key)
                <==> session.flows.contains_key(key) && !is_over(
                key,
                session.config.bucket_seconds,
                now,
            ),
        forall|key: (u64, FlowKeyModel)|
            crate::capture::due(session, now).contains_key(key) ==> #[trigger] crate::capture::due(
                session,
                now,
            )[key] == session.flows[key],
        forall|key: (u64, FlowKeyModel)|
            crate::capture::after_due(session, now).flows.contains_key(key)
                ==> #[trigger] crate::capture::after_due(session, now).flows[key]
                == session.flows[key],
{
    assert forall|key: (u64, FlowKeyModel)| #[trigger]
        crate::capture::due(session, now).contains_key(key) <==> session.flows.contains_key(key)
            && is_over(key, session.config.bucket_seconds, now) by {
        if session.flows.contains_key(key) {
            crate::counting::an_interval_is_due_once_it_is_over(session, now, key.0, key.1);
        }
    }
    assert forall|key: (u64, FlowKeyModel)| #[trigger]
        crate::capture::after_due(session, now).flows.contains_key(key)
            <==> session.flows.contains_key(key) && !is_over(
            key,
            session.config.bucket_seconds,
            now,
        ) by {
        if session.flows.contains_key(key) {
            crate::counting::an_interval_is_due_once_it_is_over(session, now, key.0, key.1);
        }
    }
}

proof fn due_buckets(session: SessionModel, now: u64, buckets: Seq<FlowBucketModel>)
    requires
        starts_are_multiples(session),
        crate::capture::carries(buckets, crate::capture::due(session, now)),
    ensures
        are_buckets_of(buckets, session, now, true),
{
    over_is_due(session, now);
    let due = crate::capture::due(session, now);
    crate::counting::buckets_say_the_counts(buckets, due);
    assert forall|i: int| #![trigger buckets[i]] 0 <= i < buckets.len() implies {
        let key = (buckets[i].bucket_start, buckets[i].key);
        &&& session.flows.contains_key(key)
        &&& session.flows[key] == (buckets[i].packets, buckets[i].bytes)
        &&& is_over(key, session.config.bucket_seconds, now)
    } by {
        let key = (buckets[i].bucket_start, buckets[i].key);
        assert(due.contains_key(key));
        assert(due[key] == session.flows[key]);
    }
    assert forall|start: u64, key: FlowKeyModel| #[trigger]
        session.flows.contains_key((start, key)) && is_over(
            (start, key),
            session.config.bucket_seconds,
            now,
        ) implies exists|i: int|
        0 <= i < buckets.len() && (#[trigger] buckets[i]).bucket_start == start && buckets[i].key
            == key by {
        assert(due.contains_key((start, key)));
    }
}

proof fn left_buckets(session: SessionModel, now: u64, buckets: Seq<FlowBucketModel>)
    requires
        starts_are_multiples(session),
        crate::capture::carries(buckets, crate::capture::after_due(session, now).flows),
    ensures
        are_buckets_of(buckets, session, now, false),
{
    over_is_due(session, now);
    let left = crate::capture::after_due(session, now).flows;
    crate::counting::buckets_say_the_counts(buckets, left);
    assert forall|i: int| #![trigger buckets[i]] 0 <= i < buckets.len() implies {
        let key = (buckets[i].bucket_start, buckets[i].key);
        &&& session.flows.contains_key(key)
        &&& session.flows[key] == (buckets[i].packets, buckets[i].bytes)
        &&& !is_over(key, session.config.bucket_seconds, now)
    } by {
        let key = (buckets[i].bucket_start, buckets[i].key);
        assert(left.contains_key(key));
        assert(left[key] == session.flows[key]);
    }
    assert forall|start: u64, key: FlowKeyModel| #[trigger]
        session.flows.contains_key((start, key)) && !is_over(
            (start, key),
            session.config.bucket_seconds,
            now,
        ) implies exists|i: int|
        0 <= i < buckets.len() && (#[trigger] buckets[i]).bucket_start == start && buckets[i].key
            == key by {
        assert(left.contains_key((start, key)));
    }
}

/// Whether a pending batch is one of that run: of its node and boot, made at that time, with
/// these diagnostics and the counts whose intervals are over, or the others.
pub open spec fn is_batch_of(
    batch: EnvelopeModel,
    session: SessionModel,
    seq: int,
    created_at: u64,
    diagnostics: CaptureDiagnostics,
    now: u64,
    over: bool,
) -> bool {
    &&& batch.body.node_id == session.config.node_id
    &&& batch.body.boot_id == session.config.boot_id
    &&& batch.body.seq == seq
    &&& batch.body.created_at == created_at
    &&& batch.body.diagnostics == diagnostics
    &&& are_buckets_of(batch.body.buckets, session, now, over)
}

/// A turn in which no interval is over puts nothing into the spool: the frame counts, and the run
/// goes on.
pub proof fn a_quiet_turn_spools_nothing(
    session: SessionModel,
    table: TableModel<EnvelopeModel>,
    outcome: Result<Option<PacketModel>, PacketError>,
    now: u64,
    stats: CaptureStats,
    end: u64,
    r: Result<Step, SpoolError>,
    session_after: SessionModel,
    table_after: TableModel<EnvelopeModel>,
)
    requires
        crate::capture::stepped(
            session,
            table,
            outcome,
            now,
            stats,
            end,
            r,
            session_after,
            table_after,
        ),
        starts_are_multiples(crate::capture::noted(session, outcome)),
        ({
            let heard = crate::capture::noted(session, outcome);
            forall|key: (u64, FlowKeyModel)| #[trigger]
                heard.flows.contains_key(key) ==> !is_over(
                    key,
                    heard.config.bucket_seconds,
                    now,
                )
        }),
    ensures
        r == Ok::<Step, SpoolError>(Step::Continue),
        session_after == crate::capture::noted(session, outcome),
        table_after == table,
{
    let heard = crate::capture::noted(session, outcome);
    over_is_due(heard, now);
    assert(crate::capture::due(heard, now) =~= Map::<(u64, FlowKeyModel), (u64, u64)>::empty());
}

/// A turn in which an interval is over, and after which the run goes on, puts one batch into the
/// spool: of the run's node and boot, at the time of the turn, with the diagnostics since the
/// batch before it, and with exactly the counts whose intervals are over. The others stay. The
/// run goes on because fewer batches than asked for were put into the spool.
pub proof fn a_turn_spools_what_is_over(
    session: SessionModel,
    table: TableModel<EnvelopeModel>,
    outcome: Result<Option<PacketModel>, PacketError>,
    now: u64,
    stats: CaptureStats,
    end: u64,
    session_after: SessionModel,
    table_after: TableModel<EnvelopeModel>,
    key: (u64, FlowKeyModel),
)
    requires
        crate::capture::stepped(
            session,
            table,
            outcome,
            now,
            stats,
            end,
            Ok(Step::Continue),
            session_after,
            table_after,
        ),
        table.wf(),
        session.emitted < u64::MAX,
        starts_are_multiples(crate::capture::noted(session, outcome)),
        crate::capture::noted(session, outcome).flows.contains_key(key),
        is_over(key, crate::capture::noted(session, outcome).config.bucket_seconds, now),
    ensures
        ({
            let heard = crate::capture::noted(session, outcome);
            let diagnostics = crate::capture::diagnostics_of(heard, stats);
            &&& session.config.max_batches matches Some(maximum) ==> session.emitted + 1 < maximum
            &&& session_after.emitted == heard.emitted + 1
            &&& session_after.prior == stats
            &&& session_after.parse_errors == 0
            &&& session_after.config == heard.config
            &&& session_after.link_type == heard.link_type
            &&& forall|other: (u64, FlowKeyModel)| #[trigger]
                session_after.flows.contains_key(other) <==> heard.flows.contains_key(other)
                    && !is_over(other, heard.config.bucket_seconds, now)
            &&& forall|other: (u64, FlowKeyModel)|
                session_after.flows.contains_key(other) ==> #[trigger] session_after.flows[other]
                    == heard.flows[other]
            &&& table_after.next_seq == table.next_seq + 1
            &&& table_after.rows.len() > 0 && table_after.rows.last().seq == table.next_seq
                ==> is_batch_of(
                table_after.rows.last().payload,
                heard,
                table.next_seq as int,
                now,
                diagnostics,
                now,
                true,
            )
        }),
{
    let heard = crate::capture::noted(session, outcome);
    over_is_due(heard, now);
    assert(crate::capture::due(heard, now).contains_key(key));
    let diagnostics = crate::capture::diagnostics_of(heard, stats);
    let config = session.config;
    let buckets = choose|buckets: Seq<FlowBucketModel>| #[trigger]
        crate::capture::carries(buckets, crate::capture::due(heard, now))
            && match crate::spool::enqueued(
            table,
            config.node_id,
            config.boot_id,
            now,
            buckets,
            diagnostics,
        ) {
            Err(error) => false,
            Ok((next, _, _)) => {
                let after = crate::capture::emitted(
                    crate::capture::reported(crate::capture::after_due(heard, now), stats),
                );
                &&& !crate::capture::is_complete(after)
                &&& session_after == after
                &&& table_after == next
            },
        };
    due_buckets(heard, now, buckets);
    crate::evictions::a_new_batch_is_pending_or_lost(
        table,
        config.node_id,
        config.boot_id,
        now,
        buckets,
        diagnostics,
    );
}

/// The turn that ends a run does so because as many batches as were asked for are in the spool.
/// What is left becomes one more batch, at the time of the end and without diagnostics, where
/// anything is left; nothing stays counted.
pub proof fn the_last_turn_spools_everything(
    session: SessionModel,
    table: TableModel<EnvelopeModel>,
    outcome: Result<Option<PacketModel>, PacketError>,
    now: u64,
    stats: CaptureStats,
    end: u64,
    session_after: SessionModel,
    table_after: TableModel<EnvelopeModel>,
)
    requires
        crate::capture::stepped(
            session,
            table,
            outcome,
            now,
            stats,
            end,
            Ok(Step::Finished),
            session_after,
            table_after,
        ),
        table.wf(),
        session.emitted < u64::MAX,
        starts_are_multiples(crate::capture::noted(session, outcome)),
    ensures
        ({
            let heard = crate::capture::noted(session, outcome);
            let is_left = exists|key: (u64, FlowKeyModel)| #[trigger]
                heard.flows.contains_key(key) && !is_over(key, heard.config.bucket_seconds, now);
            &&& session.config.max_batches matches Some(maximum) && session.emitted + 1 >= maximum
            &&& exists|key: (u64, FlowKeyModel)| #[trigger]
                heard.flows.contains_key(key) && is_over(key, heard.config.bucket_seconds, now)
            &&& session_after.emitted == heard.emitted + 1
            &&& session_after.prior == stats
            &&& session_after.parse_errors == 0
            &&& session_after.config == heard.config
            &&& session_after.link_type == heard.link_type
            &&& session_after.flows == Map::<(u64, FlowKeyModel), (u64, u64)>::empty()
            &&& !is_left ==> table_after.next_seq == table.next_seq + 1
            &&& is_left ==> table_after.next_seq == table.next_seq + 2
            &&& !is_left && table_after.rows.len() > 0 && table_after.rows.last().seq
                == table.next_seq ==> is_batch_of(
                table_after.rows.last().payload,
                heard,
                table.next_seq as int,
                now,
                crate::capture::diagnostics_of(heard, stats),
                now,
                true,
            )
            &&& is_left && table_after.rows.len() > 0 && table_after.rows.last().seq
                == table.next_seq + 1 ==> is_batch_of(
                table_after.rows.last().payload,
                heard,
                table.next_seq + 1,
                end,
                CaptureDiagnostics {
                    received: 0,
                    dropped: 0,
                    interface_dropped: 0,
                    parse_errors: 0,
                },
                now,
                false,
            )
        }),
{
    let heard = crate::capture::noted(session, outcome);
    over_is_due(heard, now);
    let due = crate::capture::due(heard, now);
    let left = crate::capture::after_due(heard, now).flows;
    let nothing = Map::<(u64, FlowKeyModel), (u64, u64)>::empty();
    if forall|key: (u64, FlowKeyModel)| !(#[trigger] due.contains_key(key)) {
        assert(due =~= nothing);
    }
    let over = choose|key: (u64, FlowKeyModel)| #[trigger] due.contains_key(key);
    assert(due.contains_key(over));
    assert(heard.flows.contains_key(over));
    if forall|key: (u64, FlowKeyModel)| !(#[trigger] left.contains_key(key)) {
        assert(left =~= nothing);
    }
    if left != nothing {
        let some = choose|key: (u64, FlowKeyModel)| #[trigger] left.contains_key(key);
        assert(left.contains_key(some));
        assert(heard.flows.contains_key(some));
    } else {
        assert forall|key: (u64, FlowKeyModel)| #[trigger]
            heard.flows.contains_key(key) implies is_over(
            key,
            heard.config.bucket_seconds,
            now,
        ) by {
            assert(!left.contains_key(key));
        }
    }
    let diagnostics = crate::capture::diagnostics_of(heard, stats);
    let config = session.config;
    let buckets = choose|buckets: Seq<FlowBucketModel>| #[trigger]
        crate::capture::carries(buckets, due) && match crate::spool::enqueued(
            table,
            config.node_id,
            config.boot_id,
            now,
            buckets,
            diagnostics,
        ) {
            Err(error) => false,
            Ok((next, _, _)) => {
                let after = crate::capture::emitted(
                    crate::capture::reported(crate::capture::after_due(heard, now), stats),
                );
                &&& crate::capture::is_complete(after)
                &&& session_after == (SessionModel { flows: Map::empty(), ..after })
                &&& crate::capture::finished(
                    config,
                    after.flows,
                    next,
                    end,
                    Ok(Step::Finished),
                    table_after,
                )
            },
        };
    due_buckets(heard, now, buckets);
    crate::evictions::a_new_batch_is_pending_or_lost(
        table,
        config.node_id,
        config.boot_id,
        now,
        buckets,
        diagnostics,
    );
    let next = crate::spool::enqueued(
        table,
        config.node_id,
        config.boot_id,
        now,
        buckets,
        diagnostics,
    )->Ok_0.0;
    if left != nothing {
        crate::evictions::a_new_row_says_what_was_handed_in(
            table,
            config.node_id,
            config.boot_id,
            now,
            buckets,
            diagnostics,
        );
        crate::retention::admission_keeps_order(
            table,
            crate::spool::new_row(
                config.node_id,
                config.boot_id,
                table.next_seq,
                now,
                buckets,
                diagnostics,
            )->0,
        );
        let rest = choose|rest: Seq<FlowBucketModel>| #[trigger]
            crate::capture::carries(rest, left) && match crate::spool::enqueued(
                next,
                config.node_id,
                config.boot_id,
                end,
                rest,
                crate::model::no_diagnostics(),
            ) {
                Err(error) => false,
                Ok((last, _, _)) => table_after == last,
            };
        left_buckets(heard, now, rest);
        crate::evictions::a_new_batch_is_pending_or_lost(
            next,
            config.node_id,
            config.boot_id,
            end,
            rest,
            crate::model::no_diagnostics(),
        );
    }
}

} // verus!
