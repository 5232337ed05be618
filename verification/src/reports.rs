//! What the control plane's answers owe what it holds: every row counts once, for its own node,
//! capture point and interval, and nothing else counts.

use vstd::prelude::*;

use crate::control::{ControlError, DatabaseError, FlowModel, IngestError, StoredModel};
use crate::model::{ControlStats, SeriesPoint};
use crate::sqlite::RangeError;
use crate::text::Order;

verus! {

/// The traffic of a node grows, batch by batch, by the rows of the batches of that node, and by
/// those of no other node; so does the number of its batches, which for a capture point counts
/// only batches with a row of it.
pub proof fn batches_count_for_their_own_node(
    batches: Seq<StoredModel>,
    batch: StoredModel,
    node: Seq<char>,
    capture_point: Option<Seq<char>>,
)
    ensures
        ({
            let more = batches.push(batch);
            let before = crate::control::node_traffic(batches, node, capture_point);
            let after = crate::control::node_traffic(more, node, capture_point);
            let count = crate::control::batch_count(batches, node, capture_point);
            let recount = crate::control::batch_count(more, node, capture_point);
            let has_rows = exists|i: int|
                0 <= i < batch.flows.len() && (capture_point is None || (
                #[trigger] batch.flows[i]).capture_point == capture_point->0);
            &&& batch.node_id != node ==> after == before && recount == count
            &&& batch.node_id == node ==> after == before + crate::control::flow_points(
                batch.flows,
                capture_point,
            )
            &&& batch.node_id == node && capture_point is None ==> recount == count + 1
            &&& batch.node_id == node && capture_point is Some && has_rows ==> recount == count + 1
            &&& batch.node_id == node && capture_point is Some && !has_rows ==> recount == count
        }),
        crate::control::node_traffic(Seq::empty(), node, capture_point).len() == 0,
        crate::control::batch_count(Seq::empty(), node, capture_point) == 0,
{
    assert(batches.push(batch).drop_last() =~= batches);
    rows_are_found(batch.flows, capture_point);
}

proof fn rows_are_found(flows: Seq<FlowModel>, capture_point: Option<Seq<char>>)
    ensures
        crate::control::flow_points(flows, capture_point).len() > 0 <==> exists|i: int|
            0 <= i < flows.len() && (capture_point is None || (
            #[trigger] flows[i]).capture_point == capture_point->0),
    decreases flows.len(),
{
    if flows.len() > 0 {
        let front = flows.drop_last();
        rows_are_found(front, capture_point);
        if crate::control::flow_points(front, capture_point).len() > 0 {
            let i = choose|i: int|
                0 <= i < front.len() && (capture_point is None || (
                #[trigger] front[i]).capture_point == capture_point->0);
            assert(flows[i] == front[i]);
        }
        if exists|i: int|
            0 <= i < flows.len() && (capture_point is None || (
            #[trigger] flows[i]).capture_point == capture_point->0) {
            let i = choose|i: int|
                0 <= i < flows.len() && (capture_point is None || (
                #[trigger] flows[i]).capture_point == capture_point->0);
            if i < front.len() {
                assert(front[i] == flows[i]);
            } else {
                assert(flows[i] == flows.last());
            }
        }
        if crate::control::is_selected(flows.last(), capture_point) {
            assert(flows[flows.len() - 1] == flows.last());
        }
    }
}

/// The traffic of rows is that of each row, in their order: its own interval, packets and bytes.
/// Where a capture point is asked for, only the rows of that capture point count.
pub proof fn rows_count_for_their_own_capture_point(
    flows: Seq<FlowModel>,
    row: FlowModel,
    capture_point: Seq<char>,
)
    ensures
        ({
            let more = flows.push(row);
            let all = crate::control::flow_points(flows, None);
            let some = crate::control::flow_points(flows, Some(capture_point));
            let point = SeriesPoint {
                bucket_start: row.bucket_start,
                packets: row.packets,
                bytes: row.bytes,
            };
            &&& crate::control::flow_points(more, None) == all.push(point)
            &&& row.capture_point == capture_point ==> crate::control::flow_points(
                more,
                Some(capture_point),
            ) == some.push(point)
            &&& row.capture_point != capture_point ==> crate::control::flow_points(
                more,
                Some(capture_point),
            ) == some
        }),
        crate::control::flow_points(Seq::empty(), None).len() == 0,
        crate::control::flow_points(Seq::empty(), Some(capture_point)).len() == 0,
{
    assert(flows.push(row).drop_last() =~= flows);
}

/// The packets of the points, in all.
pub open spec fn packets_of(points: Seq<SeriesPoint>) -> nat
    decreases points.len(),
{
    if points.len() == 0 {
        0
    } else {
        points[0].packets as nat + packets_of(points.skip(1))
    }
}

/// The bytes of the points, in all.
pub open spec fn bytes_of(points: Seq<SeriesPoint>) -> nat
    decreases points.len(),
{
    if points.len() == 0 {
        0
    } else {
        points[0].bytes as nat + bytes_of(points.skip(1))
    }
}

proof fn sums_from_either_end(points: Seq<SeriesPoint>)
    ensures
        crate::series::all_packets(points) == packets_of(points),
        crate::series::all_bytes(points) == bytes_of(points),
    decreases points.len(),
{
    if points.len() > 0 {
        let rest = points.skip(1);
        let front = points.drop_last();
        sums_from_either_end(rest);
        sums_from_either_end(front);
        if points.len() > 1 {
            sums_from_either_end(rest.drop_last());
            assert(front.skip(1) =~= rest.drop_last());
            assert(rest.last() == points.last());
            assert(front[0] == points[0]);
        } else {
            assert(packets_of(rest) == 0 && bytes_of(rest) == 0);
        }
    }
}

/// Statistics say how many batches and rows there are, and the sums of their packets and of their
/// bytes; they are refused only where a sum does not fit eight bytes with a sign.
pub proof fn statistics_are_sums(
    stats: ControlStats,
    batches: nat,
    points: Seq<SeriesPoint>,
)
    ensures
        crate::control::are_stats(stats, batches, points) <==> {
            &&& stats.batches == batches
            &&& stats.flow_buckets == points.len()
            &&& stats.packets == packets_of(points)
            &&& stats.bytes == bytes_of(points)
        },
        crate::control::totals_fit(points) <==> packets_of(points) <= 0x7fff_ffff_ffff_ffff
            && bytes_of(points) <= 0x7fff_ffff_ffff_ffff,
{
    sums_from_either_end(points);
}

/// The points of one interval.
pub open spec fn points_at(points: Seq<SeriesPoint>, start: u64) -> Seq<SeriesPoint> {
    points.filter(|point: SeriesPoint| point.bucket_start == start)
}

proof fn interval_sums(points: Seq<SeriesPoint>, start: u64)
    ensures
        crate::series::packets_at(points, start) == packets_of(points_at(points, start)),
        crate::series::bytes_at(points, start) == bytes_of(points_at(points, start)),
    decreases points.len(),
{
    reveal(Seq::filter);
    if points.len() > 0 {
        let front = points.drop_last();
        interval_sums(front, start);
        let some = points_at(front, start);
        sums_from_either_end(some);
        sums_from_either_end(points_at(points, start));
        if points.last().bucket_start == start {
            assert(points_at(points, start).drop_last() =~= some);
        }
    }
}

/// Whether some point starts at that time.
pub open spec fn starts_at(points: Seq<SeriesPoint>, start: u64) -> bool {
    exists|i: int| 0 <= i < points.len() && (#[trigger] points[i]).bucket_start == start
}

/// A series has one point for every interval with a point, and no other, in the order of time;
/// each says the sums of the packets and of the bytes of that interval.
pub proof fn a_series_says_the_sums(points: Seq<SeriesPoint>, series: Seq<SeriesPoint>, start: u64)
    requires
        crate::series::is_series(points, series),
    ensures
        starts_at(series, start) <==> starts_at(points, start),
        forall|i: int, j: int|
            0 <= i < j < series.len() ==> (#[trigger] series[i]).bucket_start < (
            #[trigger] series[j]).bucket_start,
        forall|i: int|
            0 <= i < series.len() && (#[trigger] series[i]).bucket_start == start ==> {
                &&& series[i].packets == packets_of(points_at(points, start))
                &&& series[i].bytes == bytes_of(points_at(points, start))
            },
{
    interval_sums(points, start);
    if starts_at(series, start) {
        let i = choose|i: int|
            0 <= i < series.len() && (#[trigger] series[i]).bucket_start == start;
        assert(crate::series::has_start(points, series[i].bucket_start));
    }
    if starts_at(points, start) {
        let i = choose|i: int|
            0 <= i < points.len() && (#[trigger] points[i]).bucket_start == start;
        assert(crate::series::has_start(series, points[i].bucket_start));
    }
}

/// A series is refused for its sums only where those of some interval do not fit eight bytes with
/// a sign.
pub proof fn series_sums_fit(points: Seq<SeriesPoint>)
    ensures
        crate::series::sums_fit(points) <==> forall|start: u64|
            #![trigger points_at(points, start)]
            packets_of(points_at(points, start)) <= 0x7fff_ffff_ffff_ffff && bytes_of(
                points_at(points, start),
            ) <= 0x7fff_ffff_ffff_ffff,
{
    assert forall|start: u64|
        #![trigger points_at(points, start)]
        #![trigger crate::series::packets_at(points, start)]
        #![trigger crate::series::bytes_at(points, start)]
        crate::series::packets_at(points, start) == packets_of(points_at(points, start))
            && crate::series::bytes_at(points, start) == bytes_of(points_at(points, start)) by {
        interval_sums(points, start);
    }
}

/// A point is within a range of time where it starts neither before the first nor after the last
/// time of it, both included; the points of a range keep their order.
pub proof fn a_range_holds_both_ends(
    points: Seq<SeriesPoint>,
    point: SeriesPoint,
    first: u64,
    last: u64,
)
    ensures
        crate::control::points_between(Seq::empty(), first, last).len() == 0,
        first <= point.bucket_start && point.bucket_start <= last
            ==> crate::control::points_between(points.push(point), first, last)
            == crate::control::points_between(points, first, last).push(point),
        point.bucket_start < first || last < point.bucket_start ==> crate::control::points_between(
            points.push(point),
            first,
            last,
        ) == crate::control::points_between(points, first, last),
{
    reveal(Seq::filter);
    assert(points.push(point).drop_last() =~= points);
}

/// A range of time starts at zero and ends at the last time of eight bytes with a sign unless it
/// is said otherwise. It is refused where it ends before it starts, or where an end of it does
/// not fit.
pub proof fn ranges_have_defaults(from: Option<u64>, to: Option<u64>)
    ensures
        ({
            let first = if from is Some {
                from->0
            } else {
                0
            };
            let last = if to is Some {
                to->0
            } else {
                0x7fff_ffff_ffff_ffff
            };
            let r = crate::control::range_of(from, to);
            &&& first > last ==> r == Err::<(u64, u64), ControlError>(ControlError::EmptyRange)
            &&& first <= last && last <= 0x7fff_ffff_ffff_ffff ==> r == Ok::<
                (u64, u64),
                ControlError,
            >((first, last))
            &&& first <= last && first > 0x7fff_ffff_ffff_ffff ==> r == Err::<
                (u64, u64),
                ControlError,
            >(ControlError::Range(RangeError { field: "series from" }))
            &&& first <= 0x7fff_ffff_ffff_ffff && last > 0x7fff_ffff_ffff_ffff ==> r == Err::<
                (u64, u64),
                ControlError,
            >(ControlError::Range(RangeError { field: "series to" }))
        }),
{
}

/// The page limit of the control plane is the smallest number of pages that hold its bytes; a
/// database with more pages is refused, and the refusal tells both numbers.
pub proof fn pages_hold_the_database(max_database_bytes: u64, page_size: u64, page_count: u64)
    requires
        page_size > 0,
    ensures
        ({
            let pages = crate::control::page_limit(max_database_bytes, page_size);
            let fault = crate::control::page_fault(max_database_bytes, page_size, page_count);
            &&& pages * page_size >= max_database_bytes
            &&& (pages - 1) * page_size < max_database_bytes
            &&& page_count > pages <==> (fault matches Some(
                ControlError::TooManyPages { page_count: count, max_pages },
            ) && count == page_count && max_pages == pages)
            &&& fault is None ==> page_count * page_size < max_database_bytes + page_size
            &&& page_count <= pages && pages <= 0x7fff_ffff_ffff_ffff ==> fault is None
            &&& page_count <= pages && pages > 0x7fff_ffff_ffff_ffff ==> fault == Some(
                ControlError::Range(RangeError { field: "max_page_count" }),
            )
        }),
{
    let b = max_database_bytes as int;
    let p = page_size as int;
    let c = page_count as int;
    let pages = (b + p - 1) / p;
    assert(pages * p >= b && (pages - 1) * p < b && pages <= b) by (nonlinear_arith)
        requires
            p > 0,
            b >= 0,
            pages == (b + p - 1) / p,
    ;
    if c <= pages {
        assert(c * p < b + p) by (nonlinear_arith)
            requires
                c <= pages,
                p > 0,
                (pages - 1) * p < b,
        ;
    }
}

/// The inventory has every node and capture point of a held row once, and nothing else, ordered
/// by node and then by capture point.
pub proof fn an_inventory_lists_every_pair_once(
    pairs: Seq<(Seq<char>, Seq<char>)>,
    inventory: Seq<(Seq<char>, Seq<char>)>,
)
    requires
        crate::inventory::is_inventory(pairs, inventory),
    ensures
        forall|i: int, j: int|
            0 <= i < j < inventory.len() ==> {
                let a = #[trigger] inventory[i];
                let b = #[trigger] inventory[j];
                &&& a != b
                &&& a.0 == b.0 ==> crate::text::text_order(a.1, b.1) == Order::Less
                &&& a.0 != b.0 ==> crate::text::text_order(a.0, b.0) == Order::Less
            },
        forall|pair: (Seq<char>, Seq<char>)| #[trigger]
            pairs.contains(pair) <==> inventory.contains(pair),
{
    assert forall|i: int, j: int| 0 <= i < j < inventory.len() implies {
        let a = #[trigger] inventory[i];
        let b = #[trigger] inventory[j];
        &&& a != b
        &&& a.0 == b.0 ==> crate::text::text_order(a.1, b.1) == Order::Less
        &&& a.0 != b.0 ==> crate::text::text_order(a.0, b.0) == Order::Less
    } by {
        let a = inventory[i];
        let b = inventory[j];
        assert(crate::inventory::pair_order(a, b) == Order::Less);
        crate::text::text_order_is_total(a.0, b.0);
        crate::text::text_order_is_total(a.1, b.1);
    }
    assert forall|pair: (Seq<char>, Seq<char>)| #[trigger]
        pairs.contains(pair) <==> inventory.contains(pair) by {
        if pairs.contains(pair) {
            let i = choose|i: int| 0 <= i < pairs.len() && pairs[i] == pair;
            assert(inventory.contains(pairs[i]));
        }
        if inventory.contains(pair) {
            let i = choose|i: int| 0 <= i < inventory.len() && inventory[i] == pair;
            assert(pairs.contains(inventory[i]));
        }
    }
}

/// A held row adds its node and capture point to what the inventory lists, and only that.
pub proof fn rows_are_listed_under_their_own_pair(
    batches: Seq<StoredModel>,
    batch: StoredModel,
    pair: (Seq<char>, Seq<char>),
)
    ensures
        crate::control::store_pairs(Seq::empty()).len() == 0,
        crate::control::store_pairs(batches.push(batch)).contains(pair)
            <==> crate::control::store_pairs(batches).contains(pair) || (pair.0 == batch.node_id
            && exists|i: int|
            0 <= i < batch.flows.len() && (#[trigger] batch.flows[i]).capture_point == pair.1),
{
    let more = batches.push(batch);
    assert(more.drop_last() =~= batches);
    let old = crate::control::store_pairs(batches);
    let new = crate::control::flow_pairs(batch.node_id, batch.flows);
    let all = crate::control::store_pairs(more);
    assert(all == old + new);
    if all.contains(pair) {
        let i = choose|i: int| 0 <= i < all.len() && all[i] == pair;
        if i < old.len() {
            assert(old[i] == pair);
        } else {
            assert(new[i - old.len()] == pair);
            assert(batch.flows[i - old.len()].capture_point == pair.1);
        }
    }
    if old.contains(pair) {
        let i = choose|i: int| 0 <= i < old.len() && old[i] == pair;
        assert(all[i] == pair);
    }
    if pair.0 == batch.node_id && exists|i: int|
        0 <= i < batch.flows.len() && (#[trigger] batch.flows[i]).capture_point == pair.1 {
        let i = choose|i: int|
            0 <= i < batch.flows.len() && (#[trigger] batch.flows[i]).capture_point == pair.1;
        assert(new[i] == pair);
        assert(all[old.len() + i] == pair);
    }
}

/// A refused batch is answered with the status of its fault: a bad request for an unsound one, a
/// conflict for a contradiction, insufficient storage for a full database, and an internal error
/// for anything else; the words tell no more than that, but for an internal error.
pub proof fn refusals_have_their_status(error: IngestError)
    ensures
        ({
            let status = crate::http::ingest_status(error);
            let words = crate::http::ingest_words(error);
            &&& error is SchemaVersion || error is Checksum ==> status == 400 && words
                == "invalid batch"@
            &&& error is Conflict ==> status == 409 && words == "batch identity conflict"@
            &&& error == IngestError::Database(DatabaseError::StorageFull) ==> status == 507
                && words == "control storage limit reached"@
            &&& error is Encoding || (error is Database && error != IngestError::Database(
                DatabaseError::StorageFull,
            )) ==> status == 500 && words == error.words()
        }),
{
}

} // verus!
