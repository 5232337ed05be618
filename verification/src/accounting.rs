//! A whole capture run: what was counted is in the batches, or still held.

use vstd::prelude::*;

use crate::batch::EnvelopeModel;
use crate::capture::{CaptureStats, SessionModel, Step};
use crate::model::{FlowBucketModel, FlowKeyModel};
use crate::packet::{PacketError, PacketModel};
use crate::retention::{SpoolError, TableModel};

verus! {

/// What one turn of a run is given: what the frame is, the time, the counts of the capture, and
/// the time at the end.
pub struct Turn {
    pub outcome: Result<Option<PacketModel>, PacketError>,
    pub now: u64,
    pub stats: CaptureStats,
    pub end: u64,
}

/// A run and its spool between two turns.
pub struct RunState {
    pub session: SessionModel,
    pub table: TableModel<EnvelopeModel>,
}

/// The buckets that carry these counts, in order.
pub open spec fn listing(flows: Map<(u64, FlowKeyModel), (u64, u64)>) -> Seq<FlowBucketModel> {
    choose|buckets: Seq<FlowBucketModel>| crate::capture::carries(buckets, flows)
}

/// Whether these counts are those of some buckets.
pub open spec fn is_listed(flows: Map<(u64, FlowKeyModel), (u64, u64)>) -> bool {
    exists|buckets: Seq<FlowBucketModel>| crate::capture::carries(buckets, flows)
}

/// No counts at all.
pub open spec fn no_counts() -> Map<(u64, FlowKeyModel), (u64, u64)> {
    Map::empty()
}

/// The run after a turn that brought a batch, but for what its end takes.
pub open spec fn after_batch(session: SessionModel, turn: Turn) -> SessionModel {
    let heard = crate::capture::noted(session, turn.outcome);
    crate::capture::emitted(
        crate::capture::reported(crate::capture::after_due(heard, turn.now), turn.stats),
    )
}

/// The buckets of each batch that a turn puts into the spool.
pub open spec fn turn_batches(session: SessionModel, turn: Turn) -> Seq<Seq<FlowBucketModel>> {
    let due = crate::capture::due(crate::capture::noted(session, turn.outcome), turn.now);
    let after = after_batch(session, turn);
    if due == no_counts() {
        Seq::empty()
    } else if crate::capture::is_complete(after) && after.flows != no_counts() {
        seq![listing(due), listing(after.flows)]
    } else {
        seq![listing(due)]
    }
}

/// Whether a turn leads from one state to the next without an error.
pub open spec fn turns_into(before: RunState, turn: Turn, step: Step, after: RunState) -> bool {
    &&& crate::capture::room_for(before.session, turn.outcome)
    &&& before.session.emitted < u64::MAX
    &&& crate::capture::stepped(
        before.session,
        before.table,
        turn.outcome,
        turn.now,
        turn.stats,
        turn.end,
        Ok::<Step, SpoolError>(step),
        after.session,
        after.table,
    )
}

/// Whether these are the states of a run of these turns that began with nothing counted. Only the
/// last turn can end it.
pub open spec fn is_run(states: Seq<RunState>, turns: Seq<Turn>, steps: Seq<Step>) -> bool {
    &&& states.len() == turns.len() + 1
    &&& steps.len() == turns.len()
    &&& states[0].session.flows == no_counts()
    &&& forall|i: int|
        0 <= i < turns.len() ==> turns_into(
            states[i],
            #[trigger] turns[i],
            steps[i],
            states[i + 1],
        )
    &&& forall|i: int| 0 <= i < steps.len() - 1 ==> #[trigger] steps[i] == Step::Continue
}

/// The buckets of each batch of the first turns.
pub open spec fn run_batches(states: Seq<RunState>, turns: Seq<Turn>, n: nat) -> Seq<
    Seq<FlowBucketModel>,
>
    decreases n,
{
    if n == 0 {
        Seq::empty()
    } else {
        run_batches(states, turns, (n - 1) as nat) + turn_batches(
            states[n - 1].session,
            turns[n - 1],
        )
    }
}

/// The packets of all batches.
pub open spec fn batch_packets(batches: Seq<Seq<FlowBucketModel>>) -> nat
    decreases batches.len(),
{
    if batches.len() == 0 {
        0
    } else {
        batch_packets(batches.drop_last()) + crate::aggregate::list_packets(batches.last())
    }
}

/// The bytes of all batches.
pub open spec fn batch_bytes(batches: Seq<Seq<FlowBucketModel>>) -> nat
    decreases batches.len(),
{
    if batches.len() == 0 {
        0
    } else {
        batch_bytes(batches.drop_last()) + crate::aggregate::list_bytes(batches.last())
    }
}

/// The frames of the first turns that carried a packet.
pub open spec fn packets_seen(turns: Seq<Turn>, n: nat) -> nat
    decreases n,
{
    if n == 0 {
        0
    } else {
        packets_seen(turns, (n - 1) as nat) + match turns[n - 1].outcome {
            Ok(Some(_)) => 1nat,
            _ => 0nat,
        }
    }
}

/// The wire lengths of the frames of the first turns that carried a packet.
pub open spec fn bytes_seen(turns: Seq<Turn>, n: nat) -> nat
    decreases n,
{
    if n == 0 {
        0
    } else {
        bytes_seen(turns, (n - 1) as nat) + match turns[n - 1].outcome {
            Ok(Some(packet)) => packet.wire_bytes as nat,
            _ => 0nat,
        }
    }
}

/// The packets that a run still holds.
pub open spec fn held_packets(session: SessionModel) -> nat {
    crate::aggregate::list_packets(listing(session.flows))
}

/// The bytes that a run still holds.
pub open spec fn held_bytes(session: SessionModel) -> nat {
    crate::aggregate::list_bytes(listing(session.flows))
}

/// The listing of counts is the only one.
proof fn only_listing(buckets: Seq<FlowBucketModel>, flows: Map<(u64, FlowKeyModel), (u64, u64)>)
    requires
        crate::capture::carries(buckets, flows),
    ensures
        is_listed(flows),
        listing(flows) == buckets,
        buckets.len() == 0 <==> flows == no_counts(),
{
    crate::aggregate::counts_tell_the_entries(buckets, listing(flows));
    if buckets.len() == 0 {
        crate::aggregate::no_entries_no_counts(buckets);
    } else {
        crate::aggregate::entries_have_counts(buckets);
    }
}

/// Nothing is listed of no counts.
proof fn nothing_listed()
    ensures
        is_listed(no_counts()),
        listing(no_counts()) == Seq::<FlowBucketModel>::empty(),
{
    let none = Seq::<FlowBucketModel>::empty();
    crate::aggregate::no_entries_no_counts(none);
    only_listing(none, no_counts());
}

/// What a frame adds to what is held.
proof fn frame_adds(session: SessionModel, outcome: Result<Option<PacketModel>, PacketError>)
    requires
        is_listed(session.flows),
        crate::capture::room_for(session, outcome),
    ensures
        ({
            let heard = crate::capture::noted(session, outcome);
            &&& is_listed(heard.flows)
            &&& held_packets(heard) == held_packets(session) + match outcome {
                Ok(Some(_)) => 1nat,
                _ => 0nat,
            }
            &&& held_bytes(heard) == held_bytes(session) + match outcome {
                Ok(Some(packet)) => packet.wire_bytes as nat,
                _ => 0nat,
            }
        }),
{
    if let Ok(Some(packet)) = outcome {
        let list = listing(session.flows);
        let more = crate::aggregate::list_with_packet(
            list,
            crate::capture::count_key(session, packet),
            packet.wire_bytes,
        );
        only_listing(more, crate::capture::noted(session, outcome).flows);
    }
}

/// What is due and what is left make up what is held.
proof fn due_and_left(session: SessionModel, now: u64)
    requires
        is_listed(session.flows),
    ensures
        ({
            let due = crate::capture::due(session, now);
            let left = crate::capture::after_due(session, now).flows;
            &&& is_listed(due)
            &&& is_listed(left)
            &&& crate::aggregate::list_packets(listing(due)) + crate::aggregate::list_packets(
                listing(left),
            ) == held_packets(session)
            &&& crate::aggregate::list_bytes(listing(due)) + crate::aggregate::list_bytes(
                listing(left),
            ) == held_bytes(session)
        }),
{
    let list = listing(session.flows);
    let current = crate::aggregate::interval_of(now, session.config.bucket_seconds);
    let at = crate::aggregate::list_in_parts(list, current);
    only_listing(list.take(at), crate::capture::due(session, now));
    only_listing(list.skip(at), crate::capture::after_due(session, now).flows);
}

/// The sums over the batches of two parts of a run.
proof fn sums_of_batches(a: Seq<Seq<FlowBucketModel>>, b: Seq<Seq<FlowBucketModel>>)
    ensures
        batch_packets(a + b) == batch_packets(a) + batch_packets(b),
        batch_bytes(a + b) == batch_bytes(a) + batch_bytes(b),
    decreases b.len(),
{
    if b.len() == 0 {
        assert(a + b =~= a);
    } else {
        assert((a + b).drop_last() =~= a + b.drop_last());
        sums_of_batches(a, b.drop_last());
    }
}

/// A turn hands over what leaves the run: what it held and the frame, less what it still holds;
/// and no batch of it is empty.
proof fn turn_accounts(before: RunState, turn: Turn, step: Step, after: RunState)
    requires
        is_listed(before.session.flows),
        turns_into(before, turn, step, after),
    ensures
        is_listed(after.session.flows),
        batch_packets(turn_batches(before.session, turn)) + held_packets(after.session)
            == held_packets(before.session) + match turn.outcome {
            Ok(Some(_)) => 1nat,
            _ => 0nat,
        },
        batch_bytes(turn_batches(before.session, turn)) + held_bytes(after.session) == held_bytes(
            before.session,
        ) + match turn.outcome {
            Ok(Some(packet)) => packet.wire_bytes as nat,
            _ => 0nat,
        },
        forall|i: int|
            0 <= i < turn_batches(before.session, turn).len() ==> (#[trigger] turn_batches(
                before.session,
                turn,
            )[i]).len() > 0,
{
    let heard = crate::capture::noted(before.session, turn.outcome);
    let due = crate::capture::due(heard, turn.now);
    let left = crate::capture::after_due(heard, turn.now).flows;
    let batches = turn_batches(before.session, turn);
    frame_adds(before.session, turn.outcome);
    due_and_left(heard, turn.now);
    nothing_listed();
    only_listing(listing(due), due);
    only_listing(listing(left), left);
    reveal_with_fuel(batch_packets, 3);
    reveal_with_fuel(batch_bytes, 3);
    if due != no_counts() {
        if batches.len() == 2 {
            assert(batches.drop_last() =~= seq![listing(due)]);
        }
        assert(seq![listing(due)].drop_last() =~= Seq::empty());
    }
}

/// A run accounts for every packet: what its batches carry and what it still holds are the frames
/// that carried a packet and their wire lengths, and no batch is empty.
pub proof fn a_run_accounts_for_every_packet(
    states: Seq<RunState>,
    turns: Seq<Turn>,
    steps: Seq<Step>,
    n: nat,
)
    requires
        is_run(states, turns, steps),
        n <= turns.len(),
    ensures
        is_listed(states[n as int].session.flows),
        batch_packets(run_batches(states, turns, n)) + held_packets(states[n as int].session)
            == packets_seen(turns, n),
        batch_bytes(run_batches(states, turns, n)) + held_bytes(states[n as int].session)
            == bytes_seen(turns, n),
        forall|i: int|
            0 <= i < run_batches(states, turns, n).len() ==> (#[trigger] run_batches(
                states,
                turns,
                n,
            )[i]).len() > 0,
    decreases n,
{
    if n == 0 {
        nothing_listed();
    } else {
        let m = (n - 1) as nat;
        a_run_accounts_for_every_packet(states, turns, steps, m);
        let turn = turns[m as int];
        assert(turns_into(states[m as int], turn, steps[m as int], states[n as int]));
        turn_accounts(states[m as int], turn, steps[m as int], states[n as int]);
        sums_of_batches(
            run_batches(states, turns, m),
            turn_batches(states[m as int].session, turn),
        );
    }
}

/// What a turn hands over is put into the spool, batch by batch, in order: without a batch the
/// spool does not change, and with one or two it is the spool after them.
pub proof fn a_turn_spools_its_batches(before: RunState, turn: Turn, step: Step, after: RunState)
    requires
        is_listed(before.session.flows),
        turns_into(before, turn, step, after),
    ensures
        ({
            let batches = turn_batches(before.session, turn);
            let config = before.session.config;
            let heard = crate::capture::noted(before.session, turn.outcome);
            let first = crate::spool::enqueued(
                before.table,
                config.node_id,
                config.boot_id,
                turn.now,
                batches[0],
                crate::capture::diagnostics_of(heard, turn.stats),
            );
            let second = crate::spool::enqueued(
                first->Ok_0.0,
                config.node_id,
                config.boot_id,
                turn.end,
                batches[1],
                crate::model::no_diagnostics(),
            );
            &&& batches.len() <= 2
            &&& batches.len() == 0 ==> after.table == before.table
            &&& batches.len() == 1 ==> first is Ok && after.table == first->Ok_0.0
            &&& batches.len() == 2 ==> first is Ok && second is Ok && after.table == second->Ok_0.0
        }),
{
    let heard = crate::capture::noted(before.session, turn.outcome);
    let due = crate::capture::due(heard, turn.now);
    let left = crate::capture::after_due(heard, turn.now).flows;
    frame_adds(before.session, turn.outcome);
    due_and_left(heard, turn.now);
    if due != no_counts() {
        let buckets = choose|buckets: Seq<FlowBucketModel>| #[trigger]
            crate::capture::carries(buckets, due) && match crate::spool::enqueued(
                before.table,
                before.session.config.node_id,
                before.session.config.boot_id,
                turn.now,
                buckets,
                crate::capture::diagnostics_of(heard, turn.stats),
            ) {
                Err(_) => false,
                Ok((next, _, _)) => {
                    let ended = after_batch(before.session, turn);
                    if crate::capture::is_complete(ended) {
                        crate::capture::finished(
                            before.session.config,
                            ended.flows,
                            next,
                            turn.end,
                            Ok::<Step, SpoolError>(step),
                            after.table,
                        )
                    } else {
                        after.table == next
                    }
                },
            };
        only_listing(buckets, due);
        let next = crate::spool::enqueued(
            before.table,
            before.session.config.node_id,
            before.session.config.boot_id,
            turn.now,
            buckets,
            crate::capture::diagnostics_of(heard, turn.stats),
        )->Ok_0.0;
        if crate::capture::is_complete(after_batch(before.session, turn)) && left != no_counts() {
            let rest = choose|rest: Seq<FlowBucketModel>| #[trigger]
                crate::capture::carries(rest, left) && match crate::spool::enqueued(
                    next,
                    before.session.config.node_id,
                    before.session.config.boot_id,
                    turn.end,
                    rest,
                    crate::model::no_diagnostics(),
                ) {
                    Err(_) => false,
                    Ok((last, _, _)) => after.table == last,
                };
            only_listing(rest, left);
        }
    }
}

} // verus!
