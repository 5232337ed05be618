//! Sums over traffic: by interval, and in all.

use vstd::prelude::*;

use crate::model::SeriesPoint;
use crate::sqlite::INTEGER_MAX;

verus! {

/// A sum that no column can hold.
#[derive(Debug, Clone, Copy, PartialEq, Eq, Structural)]
pub struct SumOverflow;

/// The packets of all points of an interval.
pub open spec fn packets_at(points: Seq<SeriesPoint>, start: u64) -> nat
    decreases points.len(),
{
    if points.len() == 0 {
        0
    } else if points.last().bucket_start == start {
        packets_at(points.drop_last(), start) + points.last().packets as nat
    } else {
        packets_at(points.drop_last(), start)
    }
}

/// The bytes of all points of an interval.
pub open spec fn bytes_at(points: Seq<SeriesPoint>, start: u64) -> nat
    decreases points.len(),
{
    if points.len() == 0 {
        0
    } else if points.last().bucket_start == start {
        bytes_at(points.drop_last(), start) + points.last().bytes as nat
    } else {
        bytes_at(points.drop_last(), start)
    }
}

/// The packets of all points.
pub open spec fn all_packets(points: Seq<SeriesPoint>) -> nat
    decreases points.len(),
{
    if points.len() == 0 {
        0
    } else {
        all_packets(points.drop_last()) + points.last().packets as nat
    }
}

/// The bytes of all points.
pub open spec fn all_bytes(points: Seq<SeriesPoint>) -> nat
    decreases points.len(),
{
    if points.len() == 0 {
        0
    } else {
        all_bytes(points.drop_last()) + points.last().bytes as nat
    }
}

/// Whether some point lies in the interval.
pub open spec fn has_start(points: Seq<SeriesPoint>, start: u64) -> bool {
    exists|i: int| 0 <= i < points.len() && (#[trigger] points[i]).bucket_start == start
}

/// Whether the sums of every interval fit.
pub open spec fn sums_fit(points: Seq<SeriesPoint>) -> bool {
    forall|start: u64|
        #![trigger packets_at(points, start)]
        #![trigger bytes_at(points, start)]
        packets_at(points, start) <= INTEGER_MAX && bytes_at(points, start) <= INTEGER_MAX
}

/// Whether `series` holds one point for every interval of `points`, in order, with the sums of
/// that interval.
pub open spec fn is_series(points: Seq<SeriesPoint>, series: Seq<SeriesPoint>) -> bool {
    &&& forall|i: int, j: int|
        0 <= i < j < series.len() ==> series[i].bucket_start < series[j].bucket_start
    &&& forall|i: int|
        0 <= i < series.len() ==> has_start(points, (#[trigger] series[i]).bucket_start)
            && series[i].packets == packets_at(points, series[i].bucket_start) && series[i].bytes
            == bytes_at(points, series[i].bucket_start)
    &&& forall|i: int|
        0 <= i < points.len() ==> has_start(series, (#[trigger] points[i]).bucket_start)
}

/// Where no point lies there is no traffic.
proof fn nothing_at(points: Seq<SeriesPoint>, start: u64)
    requires
        !has_start(points, start),
    ensures
        packets_at(points, start) == 0,
        bytes_at(points, start) == 0,
    decreases points.len(),
{
    if points.len() > 0 {
        let before = points.drop_last();
        assert(points[points.len() - 1].bucket_start != start);
        assert(!has_start(before, start)) by {
            if has_start(before, start) {
                let i = choose|i: int|
                    0 <= i < before.len() && (#[trigger] before[i]).bucket_start == start;
                assert(points[i] == before[i]);
            }
        }
        nothing_at(before, start);
    }
}

/// The first points carry no more than all points.
proof fn part_at(points: Seq<SeriesPoint>, n: int, start: u64)
    requires
        0 <= n <= points.len(),
    ensures
        packets_at(points.take(n), start) <= packets_at(points, start),
        bytes_at(points.take(n), start) <= bytes_at(points, start),
    decreases points.len(),
{
    if n == points.len() {
        assert(points.take(n) =~= points);
    } else {
        assert(points.drop_last().take(n) =~= points.take(n));
        part_at(points.drop_last(), n, start);
    }
}

proof fn part_of_all(points: Seq<SeriesPoint>, n: int)
    requires
        0 <= n <= points.len(),
    ensures
        all_packets(points.take(n)) <= all_packets(points),
        all_bytes(points.take(n)) <= all_bytes(points),
    decreases points.len(),
{
    if n == points.len() {
        assert(points.take(n) =~= points);
    } else {
        assert(points.drop_last().take(n) =~= points.take(n));
        part_of_all(points.drop_last(), n);
    }
}

/// One more point in an interval that the series has.
proof fn series_with_more(
    points: Seq<SeriesPoint>,
    series: Seq<SeriesPoint>,
    k: int,
    new: SeriesPoint,
    sum: SeriesPoint,
)
    requires
        is_series(points, series),
        0 <= k < series.len(),
        series[k].bucket_start == new.bucket_start,
        sum.bucket_start == new.bucket_start,
        sum.packets == series[k].packets + new.packets,
        sum.bytes == series[k].bytes + new.bytes,
    ensures
        is_series(points.push(new), series.update(k, sum)),
{
    let more = points.push(new);
    let next = series.update(k, sum);
    assert(more.drop_last() =~= points);
    assert forall|i: int| 0 <= i < next.len() implies has_start(
        more,
        (#[trigger] next[i]).bucket_start,
    ) && next[i].packets == packets_at(more, next[i].bucket_start) && next[i].bytes == bytes_at(
        more,
        next[i].bucket_start,
    ) by {
        assert(next[i].bucket_start == series[i].bucket_start);
        let j = choose|j: int|
            0 <= j < points.len() && (#[trigger] points[j]).bucket_start
                == series[i].bucket_start;
        assert(more[j] == points[j]);
        if i < k {
            assert(series[i].bucket_start < series[k].bucket_start);
        } else if k < i {
            assert(series[k].bucket_start < series[i].bucket_start);
        }
    }
    assert forall|i: int| 0 <= i < more.len() implies has_start(
        next,
        (#[trigger] more[i]).bucket_start,
    ) by {
        if i < points.len() {
            let j = choose|j: int|
                0 <= j < series.len() && (#[trigger] series[j]).bucket_start
                    == points[i].bucket_start;
            assert(next[j].bucket_start == series[j].bucket_start);
        } else {
            assert(next[k].bucket_start == new.bucket_start);
        }
    }
}

/// The first point of an interval.
proof fn series_with_new(
    points: Seq<SeriesPoint>,
    series: Seq<SeriesPoint>,
    k: int,
    new: SeriesPoint,
)
    requires
        is_series(points, series),
        0 <= k <= series.len(),
        forall|i: int| 0 <= i < k ==> (#[trigger] series[i]).bucket_start < new.bucket_start,
        forall|i: int|
            k <= i < series.len() ==> (#[trigger] series[i]).bucket_start > new.bucket_start,
    ensures
        is_series(points.push(new), series.insert(k, new)),
        packets_at(points, new.bucket_start) == 0,
        bytes_at(points, new.bucket_start) == 0,
{
    let more = points.push(new);
    let next = series.insert(k, new);
    assert(more.drop_last() =~= points);
    assert(!has_start(points, new.bucket_start)) by {
        if has_start(points, new.bucket_start) {
            let j = choose|j: int|
                0 <= j < points.len() && (#[trigger] points[j]).bucket_start == new.bucket_start;
            assert(has_start(series, points[j].bucket_start));
        }
    }
    nothing_at(points, new.bucket_start);
    assert(more[points.len() as int] == new);
    assert forall|i: int| 0 <= i < next.len() implies has_start(
        more,
        (#[trigger] next[i]).bucket_start,
    ) && next[i].packets == packets_at(more, next[i].bucket_start) && next[i].bytes == bytes_at(
        more,
        next[i].bucket_start,
    ) by {
        if i != k {
            let m = if i < k { i } else { i - 1 };
            assert(next[i] == series[m]);
            let j = choose|j: int|
                0 <= j < points.len() && (#[trigger] points[j]).bucket_start
                    == series[m].bucket_start;
            assert(more[j] == points[j]);
        }
    }
    assert forall|i: int| 0 <= i < more.len() implies has_start(
        next,
        (#[trigger] more[i]).bucket_start,
    ) by {
        if i < points.len() {
            let j = choose|j: int|
                0 <= j < series.len() && (#[trigger] series[j]).bucket_start
                    == points[i].bucket_start;
            let m = if j < k { j } else { j + 1 };
            assert(next[m] == series[j]);
        } else {
            assert(next[k] == new);
        }
    }
}

fn sum_within(sum: u64, more: u64) -> (r: Option<u64>)
    requires
        sum <= INTEGER_MAX,
    ensures
        match r {
            Some(total) => total == sum + more && total <= INTEGER_MAX,
            None => sum + more > INTEGER_MAX,
        },
{
    if more > INTEGER_MAX - sum {
        None
    } else {
        Some(sum + more)
    }
}

/// The traffic by interval, in order. It fails where the sum of an interval does not fit.
pub fn group_points(points: &Vec<SeriesPoint>) -> (r: Result<Vec<SeriesPoint>, SumOverflow>)
    ensures
        match r {
            Ok(series) => is_series(points@, series@) && sums_fit(points@),
            Err(_) => !sums_fit(points@),
        },
{
    let mut series: Vec<SeriesPoint> = Vec::new();
    let mut i: usize = 0;
    while i < points.len()
        invariant
            i <= points.len(),
            is_series(points@.take(i as int), series@),
            forall|j: int|
                0 <= j < series.len() ==> (#[trigger] series[j]).packets <= INTEGER_MAX
                    && series[j].bytes <= INTEGER_MAX,
        decreases points.len() - i,
    {
        let point = points[i];
        let start: u64 = point.bucket_start;
        let ghost before = points@.take(i as int);
        proof {
            assert(points@.take(i + 1) =~= before.push(point));
            assert(points@.take(i + 1).drop_last() =~= before);
            part_at(points@, i + 1, start);
        }
        let mut k: usize = series.len();
        while k > 0 && series[k - 1].bucket_start > start
            invariant
                k <= series.len(),
                forall|j: int|
                    k <= j < series.len() ==> (#[trigger] series[j]).bucket_start > start,
            decreases k,
        {
            k -= 1;
        }
        let known = k > 0 && series[k - 1].bucket_start == start;
        let sum: SeriesPoint = if known {
            series[k - 1]
        } else {
            SeriesPoint { bucket_start: start, packets: 0, bytes: 0 }
        };
        proof {
            if !known {
                assert forall|j: int| 0 <= j < k implies (
                #[trigger] series[j]).bucket_start < start by {
                    if j < k - 1 {
                        assert(series[j].bucket_start < series[k - 1].bucket_start);
                    }
                }
                series_with_new(before, series@, k as int, point);
            }
            assert(sum.packets == packets_at(before, start));
            assert(sum.bytes == bytes_at(before, start));
        }
        match (sum_within(sum.packets, point.packets), sum_within(sum.bytes, point.bytes)) {
            (Some(packets), Some(bytes)) => {
                let next = SeriesPoint { bucket_start: start, packets, bytes };
                if known {
                    proof {
                        series_with_more(before, series@, k - 1, point, next);
                    }
                    series.set(k - 1, next);
                } else {
                    assert(next == point);
                    series.insert(k, next);
                }
            },
            _ => {
                return Err(SumOverflow);
            },
        }
        i += 1;
    }
    proof {
        assert(points@.take(i as int) =~= points@);
        assert forall|start: u64|
            #![trigger packets_at(points@, start)]
            #![trigger bytes_at(points@, start)]
            packets_at(points@, start) <= INTEGER_MAX && bytes_at(points@, start)
                <= INTEGER_MAX by {
            if has_start(points@, start) {
                let j = choose|j: int|
                    0 <= j < points@.len() && (#[trigger] points@[j]).bucket_start == start;
                assert(has_start(series@, points@[j].bucket_start));
                let m = choose|m: int|
                    0 <= m < series@.len() && (#[trigger] series@[m]).bucket_start == start;
                assert(series[m].packets <= INTEGER_MAX);
            } else {
                nothing_at(points@, start);
            }
        }
    }
    Ok(series)
}

/// The packets and the bytes of all points. It fails where a sum does not fit.
pub fn sum_points(points: &Vec<SeriesPoint>) -> (r: Result<(u64, u64), SumOverflow>)
    ensures
        match r {
            Ok((packets, bytes)) => {
                &&& packets == all_packets(points@)
                &&& bytes == all_bytes(points@)
                &&& packets <= INTEGER_MAX
                &&& bytes <= INTEGER_MAX
            },
            Err(_) => all_packets(points@) > INTEGER_MAX || all_bytes(points@) > INTEGER_MAX,
        },
{
    let mut packets: u64 = 0;
    let mut bytes: u64 = 0;
    let mut i: usize = 0;
    while i < points.len()
        invariant
            i <= points.len(),
            packets == all_packets(points@.take(i as int)),
            bytes == all_bytes(points@.take(i as int)),
            packets <= INTEGER_MAX,
            bytes <= INTEGER_MAX,
        decreases points.len() - i,
    {
        proof {
            assert(points@.take(i + 1).drop_last() =~= points@.take(i as int));
            part_of_all(points@, i + 1);
        }
        match (sum_within(packets, points[i].packets), sum_within(bytes, points[i].bytes)) {
            (Some(more_packets), Some(more_bytes)) => {
                packets = more_packets;
                bytes = more_bytes;
            },
            _ => {
                return Err(SumOverflow);
            },
        }
        i += 1;
    }
    assert(points@.take(i as int) =~= points@);
    Ok((packets, bytes))
}

/// Two series of the same points are the same.
pub proof fn series_is_unique(
    points: Seq<SeriesPoint>,
    a: Seq<SeriesPoint>,
    b: Seq<SeriesPoint>,
)
    requires
        is_series(points, a),
        is_series(points, b),
    ensures
        a == b,
{
    assert forall|i: int| 0 <= i < a.len() implies has_start(
        b,
        (#[trigger] a[i]).bucket_start,
    ) by {
        let j = choose|j: int|
            0 <= j < points.len() && (#[trigger] points[j]).bucket_start == a[i].bucket_start;
        assert(has_start(b, points[j].bucket_start));
    }
    assert forall|i: int| 0 <= i < b.len() implies has_start(
        a,
        (#[trigger] b[i]).bucket_start,
    ) by {
        let j = choose|j: int|
            0 <= j < points.len() && (#[trigger] points[j]).bucket_start == b[i].bucket_start;
        assert(has_start(a, points[j].bucket_start));
    }
    same_starts(a, b);
    assert forall|i: int| 0 <= i < a.len() implies a[i] == b[i] by {
        assert(a[i].bucket_start == b[i].bucket_start);
    }
    assert(a =~= b);
}

/// Sequences in order with the same intervals have them at the same places.
proof fn same_starts(a: Seq<SeriesPoint>, b: Seq<SeriesPoint>)
    requires
        forall|i: int, j: int| 0 <= i < j < a.len() ==> a[i].bucket_start < a[j].bucket_start,
        forall|i: int, j: int| 0 <= i < j < b.len() ==> b[i].bucket_start < b[j].bucket_start,
        forall|i: int| 0 <= i < a.len() ==> has_start(b, (#[trigger] a[i]).bucket_start),
        forall|i: int| 0 <= i < b.len() ==> has_start(a, (#[trigger] b[i]).bucket_start),
    ensures
        a.len() == b.len(),
        forall|i: int| 0 <= i < a.len() ==> (#[trigger] a[i]).bucket_start == b[i].bucket_start,
    decreases a.len(),
{
    if a.len() == 0 {
        if b.len() > 0 {
            assert(has_start(a, b[0].bucket_start));
        }
    } else {
        assert(has_start(b, a[a.len() - 1].bucket_start));
        let x = choose|i: int|
            0 <= i < b.len() && (#[trigger] b[i]).bucket_start == a[a.len() - 1].bucket_start;
        assert(has_start(a, b[b.len() - 1].bucket_start));
        let y = choose|i: int|
            0 <= i < a.len() && (#[trigger] a[i]).bucket_start == b[b.len() - 1].bucket_start;
        if x < b.len() - 1 {
            assert(b[x].bucket_start < b[b.len() - 1].bucket_start);
            if y < a.len() - 1 {
                assert(a[y].bucket_start < a[a.len() - 1].bucket_start);
            }
        }
        assert(a.last().bucket_start == b.last().bucket_start);
        let c = a.drop_last();
        let d = b.drop_last();
        assert forall|i: int| 0 <= i < c.len() implies has_start(
            d,
            (#[trigger] c[i]).bucket_start,
        ) by {
            assert(a[i].bucket_start < a[a.len() - 1].bucket_start);
            assert(has_start(b, a[i].bucket_start));
            let j = choose|j: int|
                0 <= j < b.len() && (#[trigger] b[j]).bucket_start == a[i].bucket_start;
            assert(d[j] == b[j]);
        }
        assert forall|i: int| 0 <= i < d.len() implies has_start(
            c,
            (#[trigger] d[i]).bucket_start,
        ) by {
            assert(b[i].bucket_start < b[b.len() - 1].bucket_start);
            assert(has_start(a, b[i].bucket_start));
            let j = choose|j: int|
                0 <= j < a.len() && (#[trigger] a[j]).bucket_start == b[i].bucket_start;
            assert(c[j] == a[j]);
        }
        same_starts(c, d);
        assert forall|i: int| 0 <= i < a.len() implies (#[trigger] a[i]).bucket_start
            == b[i].bucket_start by {
            if i < c.len() {
                assert(c[i].bucket_start == d[i].bucket_start);
            }
        }
    }
}

/// The sums over a series with one point replaced.
proof fn all_of_update(series: Seq<SeriesPoint>, k: int, point: SeriesPoint)
    requires
        0 <= k < series.len(),
    ensures
        all_packets(series.update(k, point)) + series[k].packets == all_packets(series)
            + point.packets,
        all_bytes(series.update(k, point)) + series[k].bytes == all_bytes(series) + point.bytes,
    decreases series.len(),
{
    let next = series.update(k, point);
    if k == series.len() - 1 {
        assert(next.drop_last() =~= series.drop_last());
    } else {
        assert(next.drop_last() =~= series.drop_last().update(k, point));
        all_of_update(series.drop_last(), k, point);
    }
}

/// The sums over a series without one point.
proof fn all_of_remove(series: Seq<SeriesPoint>, k: int)
    requires
        0 <= k < series.len(),
    ensures
        all_packets(series.remove(k)) + series[k].packets == all_packets(series),
        all_bytes(series.remove(k)) + series[k].bytes == all_bytes(series),
    decreases series.len(),
{
    let next = series.remove(k);
    if k == series.len() - 1 {
        assert(next =~= series.drop_last());
    } else {
        assert(next.last() == series.last());
        assert(next.drop_last() =~= series.drop_last().remove(k));
        all_of_remove(series.drop_last(), k);
    }
}

/// A series carries the traffic of its points: its sums are theirs.
pub proof fn series_adds_up(points: Seq<SeriesPoint>, series: Seq<SeriesPoint>)
    requires
        is_series(points, series),
    ensures
        all_packets(series) == all_packets(points),
        all_bytes(series) == all_bytes(points),
    decreases points.len(),
{
    if points.len() == 0 {
        if series.len() > 0 {
            assert(has_start(points, series[0].bucket_start));
        }
    } else {
        let before = points.drop_last();
        let point = points.last();
        let start = point.bucket_start;
        assert(has_start(series, points[points.len() - 1].bucket_start));
        let k = choose|k: int|
            0 <= k < series.len() && (#[trigger] series[k]).bucket_start == start;
        assert(series[k].packets == packets_at(before, start) + point.packets);
        assert(series[k].bytes == bytes_at(before, start) + point.bytes);
        if has_start(before, start) {
            let rest = SeriesPoint {
                bucket_start: start,
                packets: (series[k].packets - point.packets) as u64,
                bytes: (series[k].bytes - point.bytes) as u64,
            };
            let less = series.update(k, rest);
            assert forall|i: int| 0 <= i < less.len() implies has_start(
                before,
                (#[trigger] less[i]).bucket_start,
            ) && less[i].packets == packets_at(before, less[i].bucket_start) && less[i].bytes
                == bytes_at(before, less[i].bucket_start) by {
                assert(less[i].bucket_start == series[i].bucket_start);
                if i != k {
                    still_there(points, series, i, k);
                }
            }
            assert forall|i: int| 0 <= i < before.len() implies has_start(
                less,
                (#[trigger] before[i]).bucket_start,
            ) by {
                assert(has_start(series, points[i].bucket_start));
                let j = choose|j: int|
                    0 <= j < series.len() && (#[trigger] series[j]).bucket_start
                        == points[i].bucket_start;
                assert(less[j].bucket_start == series[j].bucket_start);
            }
            series_adds_up(before, less);
            all_of_update(series, k, rest);
        } else {
            nothing_at(before, start);
            let less = series.remove(k);
            assert forall|i: int| 0 <= i < less.len() implies has_start(
                before,
                (#[trigger] less[i]).bucket_start,
            ) && less[i].packets == packets_at(before, less[i].bucket_start) && less[i].bytes
                == bytes_at(before, less[i].bucket_start) by {
                let m = if i < k { i } else { i + 1 };
                assert(less[i] == series[m]);
                still_there(points, series, m, k);
            }
            assert forall|i: int| 0 <= i < before.len() implies has_start(
                less,
                (#[trigger] before[i]).bucket_start,
            ) by {
                assert(has_start(series, points[i].bucket_start));
                let j = choose|j: int|
                    0 <= j < series.len() && (#[trigger] series[j]).bucket_start
                        == points[i].bucket_start;
                assert(before[i].bucket_start != start);
                let m = if j < k { j } else { j - 1 };
                assert(less[m] == series[j]);
            }
            series_adds_up(before, less);
            all_of_remove(series, k);
        }
    }
}

/// The last point of a series' points does not touch the other intervals.
proof fn still_there(points: Seq<SeriesPoint>, series: Seq<SeriesPoint>, i: int, k: int)
    requires
        is_series(points, series),
        points.len() > 0,
        0 <= i < series.len(),
        0 <= k < series.len(),
        i != k,
        series[k].bucket_start == points.last().bucket_start,
    ensures
        has_start(points.drop_last(), series[i].bucket_start),
        packets_at(points.drop_last(), series[i].bucket_start) == series[i].packets,
        bytes_at(points.drop_last(), series[i].bucket_start) == series[i].bytes,
{
    if i < k {
        assert(series[i].bucket_start < series[k].bucket_start);
    } else {
        assert(series[k].bucket_start < series[i].bucket_start);
    }
    let j = choose|j: int|
        0 <= j < points.len() && (#[trigger] points[j]).bucket_start == series[i].bucket_start;
    assert(points.drop_last()[j] == points[j]);
}

/// The sums over two lists of points are those over one and those over the other.
pub proof fn sums_of_parts(a: Seq<SeriesPoint>, b: Seq<SeriesPoint>)
    ensures
        all_packets(a + b) == all_packets(a) + all_packets(b),
        all_bytes(a + b) == all_bytes(a) + all_bytes(b),
    decreases b.len(),
{
    if b.len() == 0 {
        assert(a + b =~= a);
    } else {
        assert((a + b).drop_last() =~= a + b.drop_last());
        sums_of_parts(a, b.drop_last());
    }
}

} // verus!
