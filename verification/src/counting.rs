//! What counting owes the packets: every packet counts once, under its own interval and its own
//! key, and buckets and diagnostics say what was counted.

use vstd::prelude::*;

use crate::aggregate::Aggregator;
use crate::capture::{CaptureStats, Frame, SessionModel};
use crate::model::{Direction, FlowBucketModel, FlowKeyModel};
use crate::packet::{PacketError, PacketModel};

verus! {

/// A timestamp falls into exactly one interval: the one that starts at a multiple of the length,
/// not after the timestamp and less than one length before it.
pub proof fn a_timestamp_has_one_interval(timestamp: u64, seconds: u64, start: u64)
    requires
        seconds > 0,
    ensures
        crate::aggregate::interval_of(timestamp, seconds) == start <==> (start % seconds == 0
            && start <= timestamp < start + seconds),
{
    let t = timestamp as int;
    let s = seconds as int;
    vstd::arithmetic::div_mod::lemma_fundamental_div_mod(t, s);
    vstd::arithmetic::mul::lemma_mul_is_commutative(s, t / s);
    vstd::arithmetic::div_mod::lemma_mod_multiples_basic(t / s, s);
    assert(0 <= t / s * s <= t);
    if start % seconds == 0 && start <= timestamp < start + seconds {
        let n = start as int / s;
        vstd::arithmetic::div_mod::lemma_fundamental_div_mod(start as int, s);
        vstd::arithmetic::mul::lemma_mul_is_commutative(s, n);
        assert(t == n * s + (t - start));
        vstd::arithmetic::div_mod::lemma_fundamental_div_mod_converse(t, s, n, t - start);
    }
}

/// A packet counts under its own interval and its own key: the count there is one packet and its
/// bytes more than before, and the count under every other interval or key is what it was.
pub proof fn a_packet_counts_under_its_own_key(
    aggregator: Aggregator,
    packet: PacketModel,
    start: u64,
    key: FlowKeyModel,
)
    requires
        aggregator.seconds() > 0,
        aggregator.has_room(packet),
    ensures
        ({
            let before = aggregator@;
            let after = crate::aggregate::with_packet(
                before,
                aggregator.key_for(packet),
                packet.wire_bytes,
            );
            let own = start % aggregator.seconds() == 0 && start <= packet.timestamp < start
                + aggregator.seconds() && key.capture_point == packet.key.capture_point
                && key.direction == packet.key.direction && key.protocol == packet.key.protocol
                && key.source_ip == packet.key.source_ip && key.destination_ip
                == packet.key.destination_ip && key.source_port == packet.key.source_port
                && key.destination_port == packet.key.destination_port;
            &&& own && before.contains_key((start, key)) ==> {
                &&& after.contains_key((start, key))
                &&& after[(start, key)].0 == before[(start, key)].0 + 1
                &&& after[(start, key)].1 == before[(start, key)].1 + packet.wire_bytes
            }
            &&& own && !before.contains_key((start, key)) ==> {
                &&& after.contains_key((start, key))
                &&& after[(start, key)] == (1u64, packet.wire_bytes)
            }
            &&& !own ==> {
                &&& after.contains_key((start, key)) <==> before.contains_key((start, key))
                &&& after[(start, key)] == before[(start, key)]
            }
        }),
{
    a_timestamp_has_one_interval(packet.timestamp, aggregator.seconds(), start);
    assert(key == packet.key <==> key.capture_point == packet.key.capture_point && key.direction
        == packet.key.direction && key.protocol == packet.key.protocol && key.source_ip
        == packet.key.source_ip && key.destination_ip == packet.key.destination_ip
        && key.source_port == packet.key.source_port && key.destination_port
        == packet.key.destination_port);
}

/// One more packet changes the count under its own interval and key, and no other.
pub(crate) proof fn only_the_own_count_changes(
    before: Map<(u64, FlowKeyModel), (u64, u64)>,
    seconds: u64,
    timestamp: u64,
    own: FlowKeyModel,
    wire_bytes: u64,
)
    requires
        seconds > 0,
        crate::aggregate::room_in(
            before,
            (crate::aggregate::interval_of(timestamp, seconds), own),
            wire_bytes,
        ),
    ensures
        ({
            let after = crate::aggregate::with_packet(
                before,
                (crate::aggregate::interval_of(timestamp, seconds), own),
                wire_bytes,
            );
            &&& forall|start: u64, key: FlowKeyModel| #[trigger]
                after.contains_key((start, key)) <==> before.contains_key((start, key)) || (start
                    % seconds == 0 && start <= timestamp < start + seconds && key == own)
            &&& forall|start: u64, key: FlowKeyModel|
                after.contains_key((start, key)) && !(start % seconds == 0 && start <= timestamp
                    < start + seconds && key == own) ==> #[trigger] after[(start, key)]
                    == before[(start, key)]
            &&& forall|start: u64|
                start % seconds == 0 && start <= timestamp < start + seconds ==> {
                    let count = if before.contains_key((start, own)) {
                        before[(start, own)]
                    } else {
                        (0u64, 0u64)
                    };
                    &&& (#[trigger] after[(start, own)]).0 == count.0 + 1
                    &&& after[(start, own)].1 == count.1 + wire_bytes
                }
        }),
{
    let after = crate::aggregate::with_packet(
        before,
        (crate::aggregate::interval_of(timestamp, seconds), own),
        wire_bytes,
    );
    assert forall|start: u64, key: FlowKeyModel| #[trigger]
        after.contains_key((start, key)) <==> before.contains_key((start, key)) || (start % seconds
            == 0 && start <= timestamp < start + seconds && key == own) by {
        a_timestamp_has_one_interval(timestamp, seconds, start);
    }
    assert forall|start: u64, key: FlowKeyModel|
        after.contains_key((start, key)) && !(start % seconds == 0 && start <= timestamp < start
            + seconds && key == own) implies #[trigger] after[(start, key)] == before[(
        start,
        key,
    )] by {
        a_timestamp_has_one_interval(timestamp, seconds, start);
    }
    assert forall|start: u64|
        start % seconds == 0 && start <= timestamp < start + seconds implies {
        let count = if before.contains_key((start, own)) {
            before[(start, own)]
        } else {
            (0u64, 0u64)
        };
        &&& (#[trigger] after[(start, own)]).0 == count.0 + 1
        &&& after[(start, own)].1 == count.1 + wire_bytes
    } by {
        a_timestamp_has_one_interval(timestamp, seconds, start);
    }
}

/// A packet finds no room only where a count under its own interval and key would overflow.
pub proof fn room_is_per_key(aggregator: Aggregator, packet: PacketModel, start: u64)
    requires
        aggregator.seconds() > 0,
        start % aggregator.seconds() == 0,
        start <= packet.timestamp < start + aggregator.seconds(),
    ensures
        !aggregator.has_room(packet) <==> aggregator@.contains_key((start, packet.key)) && (
        aggregator@[(start, packet.key)].0 == u64::MAX || aggregator@[(start, packet.key)].1
            + packet.wire_bytes > u64::MAX),
{
    a_timestamp_has_one_interval(packet.timestamp, aggregator.seconds(), start);
}

/// How many of the packets have that key and a timestamp within the interval from `start`.
pub open spec fn packets_in(
    packets: Seq<PacketModel>,
    seconds: u64,
    start: u64,
    key: FlowKeyModel,
) -> nat
    decreases packets.len(),
{
    if packets.len() == 0 {
        0
    } else {
        let last = packets.last();
        packets_in(packets.drop_last(), seconds, start, key) + if start <= last.timestamp < start
            + seconds && last.key == key {
            1nat
        } else {
            0
        }
    }
}

/// How many bytes those packets had on the wire.
pub open spec fn bytes_in(
    packets: Seq<PacketModel>,
    seconds: u64,
    start: u64,
    key: FlowKeyModel,
) -> nat
    decreases packets.len(),
{
    if packets.len() == 0 {
        0
    } else {
        let last = packets.last();
        bytes_in(packets.drop_last(), seconds, start, key) + if start <= last.timestamp < start
            + seconds && last.key == key {
            last.wire_bytes as nat
        } else {
            0
        }
    }
}

/// The counts of an empty aggregator once these packets were pushed.
pub open spec fn after_pushes(aggregator: Aggregator, packets: Seq<PacketModel>) -> Map<
    (u64, FlowKeyModel),
    (u64, u64),
>
    decreases packets.len(),
{
    if packets.len() == 0 {
        Map::empty()
    } else {
        crate::aggregate::with_packet(
            after_pushes(aggregator, packets.drop_last()),
            aggregator.key_for(packets.last()),
            packets.last().wire_bytes,
        )
    }
}

/// Pushed packets are counted exactly: under every interval and key stand the packets with that
/// key and a timestamp within that interval, and their bytes. Nothing stands under an interval
/// and key without such a packet, so packets with different keys never share a count.
pub proof fn pushed_packets_are_counted(
    aggregator: Aggregator,
    packets: Seq<PacketModel>,
    start: u64,
    key: FlowKeyModel,
)
    requires
        aggregator.seconds() > 0,
        packets_in(packets, aggregator.seconds(), start, key) <= u64::MAX,
        bytes_in(packets, aggregator.seconds(), start, key) <= u64::MAX,
    ensures
        after_pushes(aggregator, packets).contains_key((start, key)) <==> start
            % aggregator.seconds() == 0 && packets_in(packets, aggregator.seconds(), start, key)
            > 0,
        after_pushes(aggregator, packets).contains_key((start, key)) ==> {
            &&& after_pushes(aggregator, packets)[(start, key)].0 == packets_in(
                packets,
                aggregator.seconds(),
                start,
                key,
            )
            &&& after_pushes(aggregator, packets)[(start, key)].1 == bytes_in(
                packets,
                aggregator.seconds(),
                start,
                key,
            )
        },
    decreases packets.len(),
{
    if packets.len() > 0 {
        let last = packets.last();
        let seconds = aggregator.seconds();
        pushed_packets_are_counted(aggregator, packets.drop_last(), start, key);
        a_timestamp_has_one_interval(last.timestamp, seconds, start);
        if packets_in(packets.drop_last(), seconds, start, key) == 0 {
            no_packets_no_bytes(packets.drop_last(), seconds, start, key);
        }
    }
}

proof fn no_packets_no_bytes(
    packets: Seq<PacketModel>,
    seconds: u64,
    start: u64,
    key: FlowKeyModel,
)
    requires
        packets_in(packets, seconds, start, key) == 0,
    ensures
        bytes_in(packets, seconds, start, key) == 0,
    decreases packets.len(),
{
    if packets.len() > 0 {
        no_packets_no_bytes(packets.drop_last(), seconds, start, key);
    }
}

/// A packet that counts is one of those that were pushed.
pub proof fn counted_packets_were_pushed(
    packets: Seq<PacketModel>,
    seconds: u64,
    start: u64,
    key: FlowKeyModel,
)
    ensures
        packets_in(packets, seconds, start, key) > 0 <==> exists|i: int|
            0 <= i < packets.len() && (#[trigger] packets[i]).key == key && start
                <= packets[i].timestamp < start + seconds,
    decreases packets.len(),
{
    if packets.len() > 0 {
        let front = packets.drop_last();
        counted_packets_were_pushed(front, seconds, start, key);
        if packets_in(front, seconds, start, key) > 0 {
            let i = choose|i: int|
                0 <= i < front.len() && (#[trigger] front[i]).key == key && start
                    <= front[i].timestamp < start + seconds;
            assert(packets[i] == front[i]);
        }
        if exists|i: int|
            0 <= i < packets.len() && (#[trigger] packets[i]).key == key && start
                <= packets[i].timestamp < start + seconds {
            let i = choose|i: int|
                0 <= i < packets.len() && (#[trigger] packets[i]).key == key && start
                    <= packets[i].timestamp < start + seconds;
            if i < front.len() {
                assert(front[i] == packets[i]);
            } else {
                assert(packets[i] == packets.last());
            }
        }
    }
}

/// Every bucket that an aggregator hands out is the bucket of packets that were pushed: its key
/// is their key, its interval holds their timestamps, and it counts all of them and no other. No
/// two buckets are for the same interval and key.
pub proof fn drained_buckets_count_the_packets(
    aggregator: Aggregator,
    packets: Seq<PacketModel>,
    buckets: Seq<FlowBucketModel>,
    i: int,
    j: int,
)
    requires
        aggregator.seconds() > 0,
        crate::aggregate::in_order(buckets),
        crate::aggregate::counts(buckets) == after_pushes(aggregator, packets),
        0 <= i < buckets.len(),
        0 <= j < buckets.len(),
        packets_in(packets, aggregator.seconds(), buckets[i].bucket_start, buckets[i].key)
            <= u64::MAX,
        bytes_in(packets, aggregator.seconds(), buckets[i].bucket_start, buckets[i].key)
            <= u64::MAX,
    ensures
        buckets[i].bucket_start % aggregator.seconds() == 0,
        exists|n: int|
            0 <= n < packets.len() && (#[trigger] packets[n]).key == buckets[i].key
                && buckets[i].bucket_start <= packets[n].timestamp < buckets[i].bucket_start
                + aggregator.seconds(),
        buckets[i].packets == packets_in(
            packets,
            aggregator.seconds(),
            buckets[i].bucket_start,
            buckets[i].key,
        ),
        buckets[i].bytes == bytes_in(
            packets,
            aggregator.seconds(),
            buckets[i].bucket_start,
            buckets[i].key,
        ),
        i < j ==> buckets[i].bucket_start <= buckets[j].bucket_start,
        i != j ==> buckets[i].bucket_start != buckets[j].bucket_start || buckets[i].key
            != buckets[j].key,
{
    let entry = buckets[i];
    crate::aggregate::counts_at(buckets, i);
    assert(crate::aggregate::entry_key(entry) == (entry.bucket_start, entry.key));
    pushed_packets_are_counted(aggregator, packets, entry.bucket_start, entry.key);
    counted_packets_were_pushed(packets, aggregator.seconds(), entry.bucket_start, entry.key);
    buckets_are_apart(buckets, i, j);
}

/// Buckets in order go by their start, and no two are for the same interval and key.
pub proof fn buckets_are_apart(buckets: Seq<FlowBucketModel>, i: int, j: int)
    requires
        crate::aggregate::in_order(buckets),
        0 <= i < buckets.len(),
        0 <= j < buckets.len(),
    ensures
        i < j ==> buckets[i].bucket_start <= buckets[j].bucket_start,
        i != j ==> buckets[i].bucket_start != buckets[j].bucket_start || buckets[i].key
            != buckets[j].key,
{
    let a = crate::aggregate::entry_key(buckets[i]);
    let b = crate::aggregate::entry_key(buckets[j]);
    crate::aggregate::entry_order_is_total(a, b);
    crate::aggregate::entry_order_is_total(b, a);
    if i < j {
        assert(crate::aggregate::entry_order(a, b) == crate::text::Order::Less);
    }
    if j < i {
        assert(crate::aggregate::entry_order(b, a) == crate::text::Order::Less);
    }
}

/// Buckets that carry counts say them, bucket by bucket, and leave none out.
pub proof fn buckets_say_the_counts(
    buckets: Seq<FlowBucketModel>,
    flows: Map<(u64, FlowKeyModel), (u64, u64)>,
)
    requires
        crate::capture::carries(buckets, flows),
    ensures
        forall|i: int|
            #![trigger buckets[i]]
            0 <= i < buckets.len() ==> flows.contains_key(
                (buckets[i].bucket_start, buckets[i].key),
            ) && flows[(buckets[i].bucket_start, buckets[i].key)] == (
                buckets[i].packets,
                buckets[i].bytes,
            ),
        forall|start: u64, key: FlowKeyModel| #[trigger]
            flows.contains_key((start, key)) ==> exists|i: int|
                0 <= i < buckets.len() && (#[trigger] buckets[i]).bucket_start == start
                    && buckets[i].key == key,
{
    assert forall|i: int| #![trigger buckets[i]] 0 <= i < buckets.len() implies flows.contains_key(
        (buckets[i].bucket_start, buckets[i].key),
    ) && flows[(buckets[i].bucket_start, buckets[i].key)] == (
        buckets[i].packets,
        buckets[i].bytes,
    ) by {
        crate::aggregate::counts_at(buckets, i);
    }
    assert forall|start: u64, key: FlowKeyModel| #[trigger]
        flows.contains_key((start, key)) implies exists|i: int|
        0 <= i < buckets.len() && (#[trigger] buckets[i]).bucket_start == start && buckets[i].key
            == key by {
        crate::aggregate::counted_keys(buckets, (start, key));
        let i = choose|i: int| crate::aggregate::holds_at(buckets, i, (start, key));
        assert(buckets[i].bucket_start == start && buckets[i].key == key);
    }
}

/// A run counts a packet under its own interval and its own key, and nothing else changes.
pub proof fn a_run_counts_a_packet_under_its_own_key(
    session: SessionModel,
    packet: PacketModel,
    start: u64,
    key: FlowKeyModel,
)
    requires
        session.config.bucket_seconds > 0,
        crate::capture::room_for(session, Ok(Some(packet))),
    ensures
        ({
            let before = session.flows;
            let next = crate::capture::noted(session, Ok(Some(packet)));
            let after = next.flows;
            let own = start % session.config.bucket_seconds == 0 && start <= packet.timestamp
                < start + session.config.bucket_seconds && key.capture_point
                == packet.key.capture_point && key.direction == packet.key.direction
                && key.protocol == packet.key.protocol && key.source_ip == packet.key.source_ip
                && key.destination_ip == packet.key.destination_ip && key.source_port
                == packet.key.source_port && key.destination_port == packet.key.destination_port;
            &&& own && before.contains_key((start, key)) ==> {
                &&& after.contains_key((start, key))
                &&& after[(start, key)].0 == before[(start, key)].0 + 1
                &&& after[(start, key)].1 == before[(start, key)].1 + packet.wire_bytes
            }
            &&& own && !before.contains_key((start, key)) ==> {
                &&& after.contains_key((start, key))
                &&& after[(start, key)] == (1u64, packet.wire_bytes)
            }
            &&& !own ==> {
                &&& after.contains_key((start, key)) <==> before.contains_key((start, key))
                &&& after[(start, key)] == before[(start, key)]
            }
            &&& next.config == session.config
            &&& next.link_type == session.link_type
            &&& next.parse_errors == session.parse_errors
            &&& next.prior == session.prior
            &&& next.emitted == session.emitted
        }),
{
    a_timestamp_has_one_interval(packet.timestamp, session.config.bucket_seconds, start);
    assert(key == packet.key <==> key.capture_point == packet.key.capture_point && key.direction
        == packet.key.direction && key.protocol == packet.key.protocol && key.source_ip
        == packet.key.source_ip && key.destination_ip == packet.key.destination_ip
        && key.source_port == packet.key.source_port && key.destination_port
        == packet.key.destination_port);
}

/// A frame that cannot be read counts as one parse error and nothing else; a frame that is not an
/// IP packet, or no frame at all, does not count.
pub proof fn unreadable_frames_are_parse_errors(session: SessionModel, error: PacketError)
    ensures
        crate::capture::noted(session, Ok(None)) == session,
        crate::capture::room_for(session, Ok(None)),
        crate::capture::room_for(session, Err(error)) <==> session.parse_errors < u64::MAX,
        session.parse_errors < u64::MAX ==> {
            let next = crate::capture::noted(session, Err(error));
            &&& next.parse_errors == session.parse_errors + 1
            &&& next.flows == session.flows
            &&& next.config == session.config
            &&& next.link_type == session.link_type
            &&& next.prior == session.prior
            &&& next.emitted == session.emitted
        },
{
}

/// An interval is handed out once it is over, and not before: a count that starts at a multiple
/// of the interval is due when the whole interval lies at or before the time, and stays otherwise.
pub proof fn an_interval_is_due_once_it_is_over(
    session: SessionModel,
    now: u64,
    start: u64,
    key: FlowKeyModel,
)
    requires
        session.config.bucket_seconds > 0,
        session.flows.contains_key((start, key)),
        start % session.config.bucket_seconds == 0,
    ensures
        ({
            let due = crate::capture::due(session, now);
            let left = crate::capture::after_due(session, now);
            let is_over = start + session.config.bucket_seconds <= now;
            &&& due.contains_key((start, key)) <==> is_over
            &&& left.flows.contains_key((start, key)) <==> !is_over
            &&& is_over ==> due[(start, key)] == session.flows[(start, key)]
            &&& !is_over ==> left.flows[(start, key)] == session.flows[(start, key)]
            &&& left.config == session.config
            &&& left.link_type == session.link_type
            &&& left.parse_errors == session.parse_errors
            &&& left.prior == session.prior
            &&& left.emitted == session.emitted
        }),
{
    let seconds = session.config.bucket_seconds;
    let current = crate::aggregate::interval_of(now, seconds);
    a_timestamp_has_one_interval(now, seconds, current);
    if start < current {
        multiples_are_apart(start as int, current as int, seconds as int);
    }
}

proof fn multiples_are_apart(a: int, b: int, step: int)
    requires
        step > 0,
        0 <= a < b,
        a % step == 0,
        b % step == 0,
    ensures
        a + step <= b,
{
    vstd::arithmetic::div_mod::lemma_fundamental_div_mod(a, step);
    vstd::arithmetic::div_mod::lemma_fundamental_div_mod(b, step);
    assert(a + step <= b) by (nonlinear_arith)
        requires
            step > 0,
            a < b,
            a == step * (a / step),
            b == step * (b / step),
    ;
}

/// A batch reports how far each count of the capture went since the batch before it, nothing for
/// a count that went back, and all parse errors so far; the next batch starts from there.
pub proof fn diagnostics_are_what_was_counted_since(session: SessionModel, current: CaptureStats)
    ensures
        ({
            let diagnostics = crate::capture::diagnostics_of(session, current);
            let next = crate::capture::reported(session, current);
            &&& current.received >= session.prior.received ==> session.prior.received
                + diagnostics.received == current.received
            &&& current.received < session.prior.received ==> diagnostics.received == 0
            &&& current.dropped >= session.prior.dropped ==> session.prior.dropped
                + diagnostics.dropped == current.dropped
            &&& current.dropped < session.prior.dropped ==> diagnostics.dropped == 0
            &&& current.interface_dropped >= session.prior.interface_dropped
                ==> session.prior.interface_dropped + diagnostics.interface_dropped
                == current.interface_dropped
            &&& current.interface_dropped < session.prior.interface_dropped
                ==> diagnostics.interface_dropped == 0
            &&& diagnostics.parse_errors == session.parse_errors
            &&& next.parse_errors == 0
            &&& next.prior.received == current.received
            &&& next.prior.dropped == current.dropped
            &&& next.prior.interface_dropped == current.interface_dropped
            &&& next.flows == session.flows
            &&& next.config == session.config
            &&& next.link_type == session.link_type
            &&& next.emitted == session.emitted
        }),
{
}

/// A run reads a frame with its own link type, capture point and local addresses, and with the
/// time and size of the frame.
pub proof fn a_run_reads_frames_with_its_own_settings(session: SessionModel, frame: Frame)
    ensures
        crate::capture::outcome_of(session, None) == Ok::<Option<PacketModel>, PacketError>(None),
        ({
            let r = crate::capture::outcome_of(session, Some(frame));
            match crate::packet::headers_of(frame.data@, session.link_type) {
                Err(error) => r == Err::<Option<PacketModel>, PacketError>(error),
                Ok(None) => r == Ok::<Option<PacketModel>, PacketError>(None),
                Ok(Some(found)) => {
                    let packet = r->Ok_0->Some_0;
                    &&& r is Ok && r->Ok_0 is Some
                    &&& packet.timestamp == frame.timestamp
                    &&& packet.wire_bytes == frame.wire_bytes
                    &&& packet.key.capture_point == session.config.capture_point
                    &&& packet.key.source_ip == found.source
                    &&& packet.key.destination_ip == found.destination
                    &&& packet.key.direction == Direction::Egress || packet.key.direction
                        == Direction::Internal <==> session.config.local_ips.contains(found.source)
                    &&& packet.key.direction == Direction::Ingress || packet.key.direction
                        == Direction::Internal <==> session.config.local_ips.contains(
                        found.destination,
                    )
                },
            }
        }),
{
}

/// A run has no room for a packet only where the count under its own interval and key would
/// overflow, and no room for an unreadable frame only where the parse errors would.
pub proof fn a_run_has_room_per_key(
    session: SessionModel,
    packet: PacketModel,
    error: PacketError,
    start: u64,
)
    requires
        session.config.bucket_seconds > 0,
        start % session.config.bucket_seconds == 0,
        start <= packet.timestamp < start + session.config.bucket_seconds,
    ensures
        !crate::capture::room_for(session, Ok(Some(packet))) <==> session.flows.contains_key(
            (start, packet.key),
        ) && (session.flows[(start, packet.key)].0 == u64::MAX || session.flows[(
            start,
            packet.key,
        )].1 + packet.wire_bytes > u64::MAX),
        crate::capture::room_for(session, Ok(None)),
        crate::capture::room_for(session, Err(error)) <==> session.parse_errors < u64::MAX,
{
    a_timestamp_has_one_interval(packet.timestamp, session.config.bucket_seconds, start);
}

} // verus!
