//! The bookkeeping of a bounded spool: which batches are pending, which were lost, and which
//! have to make room for a new one.

use vstd::prelude::*;

use crate::model::{GapEvent, GapModel};
use crate::sqlite::{integer, RangeError, INTEGER_MAX};

verus! {

/// How much a spool may hold, and for how long.
#[derive(Debug, Clone, Copy, PartialEq, Eq, Structural)]
pub struct SpoolLimits {
    pub max_payload_bytes: u64,
    pub max_age_seconds: u64,
}

impl Default for SpoolLimits {
    fn default() -> (r: Self)
        ensures
            r.max_payload_bytes == 128 * 1024 * 1024,
            r.max_age_seconds == 24 * 60 * 60,
    {
        SpoolLimits { max_payload_bytes: 134_217_728, max_age_seconds: 86_400 }
    }
}

/// Why a spool refuses a request.
#[derive(Debug, Clone, Copy, PartialEq, Eq)]
pub enum SpoolError {
    /// A limit is zero.
    ZeroLimit,
    /// Every sequence number was given out.
    SequenceExhausted,
    /// The batch has no JSON text.
    Encoding,
    /// A number does not fit its column.
    Range(RangeError),
    /// The pending bytes do not fit their sum.
    TotalOverflow,
    /// A pending batch has the same identity.
    DuplicateBatch,
    /// No pending batch has that identity and that checksum.
    UnknownBatch,
    /// More batches are asked for than can be counted.
    BatchLimit,
}

impl SpoolError {
    /// The words for the error.
    pub open spec fn words(self) -> Seq<char> {
        match self {
            SpoolError::ZeroLimit => "spool byte and age limits must be positive"@,
            SpoolError::SequenceExhausted => "spool sequence numbers are exhausted"@,
            SpoolError::Encoding => "serialize batch body"@,
            SpoolError::Range(error) => error.words(),
            SpoolError::TotalOverflow => "integer overflow"@,
            SpoolError::DuplicateBatch => "UNIQUE constraint failed: batches.batch_id"@,
            SpoolError::UnknownBatch => "ack does not match a pending batch"@,
            SpoolError::BatchLimit => "out of range integral type conversion attempted"@,
        }
    }

    /// The error in words.
    pub fn message(&self) -> (r: String)
        ensures
            r@ == self.words(),
    {
        match self {
            SpoolError::ZeroLimit => "spool byte and age limits must be positive".to_owned(),
            SpoolError::SequenceExhausted => "spool sequence numbers are exhausted".to_owned(),
            SpoolError::Encoding => "serialize batch body".to_owned(),
            SpoolError::Range(error) => error.message(),
            SpoolError::TotalOverflow => "integer overflow".to_owned(),
            SpoolError::DuplicateBatch => "UNIQUE constraint failed: batches.batch_id".to_owned(),
            SpoolError::UnknownBatch => "ack does not match a pending batch".to_owned(),
            SpoolError::BatchLimit => "out of range integral type conversion attempted".to_owned(),
        }
    }
}

/// A pending batch. The payload may be held elsewhere: `P` is what the table keeps of it.
pub struct SpoolRow<P> {
    pub seq: u64,
    pub batch_id: String,
    pub checksum: String,
    pub created_at: u64,
    pub min_bucket: Option<u64>,
    pub max_bucket: Option<u64>,
    pub payload_bytes: u64,
    pub payload: P,
}

/// The value of a [`SpoolRow`].
pub struct RowModel<V> {
    pub seq: u64,
    pub batch_id: Seq<char>,
    pub checksum: Seq<char>,
    pub created_at: u64,
    pub min_bucket: Option<u64>,
    pub max_bucket: Option<u64>,
    pub payload_bytes: u64,
    pub payload: V,
}

impl<P: View> View for SpoolRow<P> {
    type V = RowModel<P::V>;

    open spec fn view(&self) -> RowModel<P::V> {
        RowModel {
            seq: self.seq,
            batch_id: self.batch_id@,
            checksum: self.checksum@,
            created_at: self.created_at,
            min_bucket: self.min_bucket,
            max_bucket: self.max_bucket,
            payload_bytes: self.payload_bytes,
            payload: self.payload@,
        }
    }
}

/// The values of rows.
pub open spec fn row_models<P: View>(rows: Seq<SpoolRow<P>>) -> Seq<RowModel<P::V>> {
    Seq::new(rows.len(), |i: int| rows[i]@)
}

/// The values of gaps.
pub open spec fn gap_models(gaps: Seq<GapEvent>) -> Seq<GapModel> {
    Seq::new(gaps.len(), |i: int| gaps[i]@)
}

/// What became of an offered batch: whether it is pending, and the gaps of the batches that were
/// given up, oldest first.
pub struct Admission {
    pub stored: bool,
    pub evicted: Vec<GapEvent>,
}

/// The value of an [`Admission`].
pub struct AdmissionModel {
    pub stored: bool,
    pub evicted: Seq<GapModel>,
}

impl View for Admission {
    type V = AdmissionModel;

    open spec fn view(&self) -> AdmissionModel {
        AdmissionModel { stored: self.stored, evicted: gap_models(self.evicted@) }
    }
}

/// The state of a spool: its limits, the next sequence number, the pending batches in order, and
/// the gaps in order.
pub struct TableModel<V> {
    pub limits: SpoolLimits,
    pub next_seq: u64,
    pub rows: Seq<RowModel<V>>,
    pub gaps: Seq<GapModel>,
}

/// The payload bytes of all rows.
pub open spec fn total<V>(rows: Seq<RowModel<V>>) -> nat
    decreases rows.len(),
{
    if rows.len() == 0 {
        0
    } else {
        rows[0].payload_bytes as nat + total(rows.drop_first())
    }
}

/// How many of the first rows have to go until the others fit into `limit` bytes.
pub open spec fn surplus<V>(rows: Seq<RowModel<V>>, limit: nat) -> nat
    decreases rows.len(),
{
    if total(rows) <= limit {
        0
    } else {
        1 + surplus(rows.drop_first(), limit)
    }
}

/// The time before which batches are too old.
pub open spec fn age_cutoff(now: u64, max_age_seconds: u64) -> u64 {
    if now >= max_age_seconds {
        (now - max_age_seconds) as u64
    } else {
        0
    }
}

/// Whether a row is too old.
pub open spec fn expired<V>(row: RowModel<V>, cutoff: u64) -> bool {
    row.created_at < cutoff
}

/// The rows that are given up: the first ones, until the others fit, and then the expired ones.
pub open spec fn given_up<V>(rows: Seq<RowModel<V>>, cutoff: u64, limit: nat) -> Seq<RowModel<V>> {
    let k = surplus(rows, limit) as int;
    rows.take(k) + rows.skip(k).filter(|row: RowModel<V>| expired(row, cutoff))
}

/// The rows that stay.
pub open spec fn kept<V>(rows: Seq<RowModel<V>>, cutoff: u64, limit: nat) -> Seq<RowModel<V>> {
    rows.skip(surplus(rows, limit) as int).filter(|row: RowModel<V>| !expired(row, cutoff))
}

/// The gap that a row leaves.
pub open spec fn gap_of<V>(row: RowModel<V>, reason: Seq<char>, now: u64) -> GapModel {
    GapModel {
        seq: row.seq,
        min_bucket: row.min_bucket,
        max_bucket: row.max_bucket,
        lost_bytes: row.payload_bytes,
        reason,
        created_at: now,
    }
}

/// Why a pending row is given up.
pub open spec fn eviction_reason<V>(row: RowModel<V>, cutoff: u64) -> Seq<char> {
    if expired(row, cutoff) {
        "spool_age_limit"@
    } else {
        "spool_byte_limit"@
    }
}

/// The gaps that rows leave.
pub open spec fn eviction_gaps<V>(rows: Seq<RowModel<V>>, cutoff: u64, now: u64) -> Seq<GapModel> {
    Seq::new(rows.len(), |i: int| gap_of(rows[i], eviction_reason(rows[i], cutoff), now))
}

/// What is left of the rows within the limits, and the gaps that the others leave. A time that no
/// column can hold is an error once there is a gap to record.
pub open spec fn enforced<V>(rows: Seq<RowModel<V>>, limits: SpoolLimits, now: u64) -> Result<
    (Seq<RowModel<V>>, Seq<GapModel>),
    SpoolError,
> {
    let cutoff = age_cutoff(now, limits.max_age_seconds);
    let limit = limits.max_payload_bytes as nat;
    if cutoff > INTEGER_MAX {
        Err(SpoolError::Range(RangeError { field: "spool cutoff" }))
    } else if limit > INTEGER_MAX {
        Err(SpoolError::Range(RangeError { field: "max_payload_bytes" }))
    } else if total(rows) > INTEGER_MAX {
        Err(SpoolError::TotalOverflow)
    } else if given_up(rows, cutoff, limit).len() > 0 && now > INTEGER_MAX {
        Err(SpoolError::Range(RangeError { field: "gap created_at" }))
    } else {
        Ok(
            (
                kept(rows, cutoff, limit),
                eviction_gaps(given_up(rows, cutoff, limit), cutoff, now),
            ),
        )
    }
}

/// The gaps with one more, in order.
pub open spec fn with_gap(gaps: Seq<GapModel>, gap: GapModel) -> Seq<GapModel>
    decreases gaps.len(),
{
    if gaps.len() == 0 || gaps.last().seq < gap.seq {
        gaps.push(gap)
    } else {
        with_gap(gaps.drop_last(), gap).push(gaps.last())
    }
}

/// The gaps with more of them, in order.
pub open spec fn with_gaps(gaps: Seq<GapModel>, more: Seq<GapModel>) -> Seq<GapModel>
    decreases more.len(),
{
    if more.len() == 0 {
        gaps
    } else {
        with_gap(with_gaps(gaps, more.drop_last()), more.last())
    }
}

/// Whether a column can hold the number, if there is one.
pub open spec fn optional_fits(value: Option<u64>) -> bool {
    value matches Some(number) ==> number <= INTEGER_MAX
}

/// Which number of a row no column can hold.
pub open spec fn row_misfit<V>(row: RowModel<V>) -> Option<RangeError> {
    if row.created_at > INTEGER_MAX {
        Some(RangeError { field: "created_at" })
    } else if !optional_fits(row.min_bucket) {
        Some(RangeError { field: "min_bucket" })
    } else if !optional_fits(row.max_bucket) {
        Some(RangeError { field: "max_bucket" })
    } else if row.payload_bytes > INTEGER_MAX {
        Some(RangeError { field: "payload_bytes" })
    } else {
        None
    }
}

/// Which number of a gap no column can hold.
pub open spec fn gap_misfit(gap: GapModel) -> Option<RangeError> {
    if !optional_fits(gap.min_bucket) {
        Some(RangeError { field: "gap min_bucket" })
    } else if !optional_fits(gap.max_bucket) {
        Some(RangeError { field: "gap max_bucket" })
    } else if gap.lost_bytes > INTEGER_MAX {
        Some(RangeError { field: "gap lost_bytes" })
    } else if gap.created_at > INTEGER_MAX {
        Some(RangeError { field: "gap created_at" })
    } else {
        None
    }
}

/// What is to be done with an offered batch: nothing but to record a gap, where the batch alone
/// exceeds the limit, or else to store it.
pub open spec fn judged<V>(row: RowModel<V>, limits: SpoolLimits) -> Result<
    Option<GapModel>,
    SpoolError,
> {
    if row.payload_bytes > limits.max_payload_bytes {
        let gap = gap_of(row, "batch_exceeds_spool_limit"@, row.created_at);
        match gap_misfit(gap) {
            Some(error) => Err(SpoolError::Range(error)),
            None => Ok(Some(gap)),
        }
    } else {
        match row_misfit(row) {
            Some(error) => Err(SpoolError::Range(error)),
            None => Ok(None),
        }
    }
}

/// The rows come in the order of their numbers, below `next_seq`; every number fits its column.
pub open spec fn rows_in_order<V>(rows: Seq<RowModel<V>>, next_seq: u64) -> bool {
    &&& forall|i: int, j: int| 0 <= i < j < rows.len() ==> rows[i].seq < rows[j].seq
    &&& forall|i: int|
        0 <= i < rows.len() ==> (#[trigger] rows[i]).seq < next_seq && row_misfit(rows[i]) is None
}

/// No two rows have the same identity.
pub open spec fn rows_distinct<V>(rows: Seq<RowModel<V>>) -> bool {
    forall|i: int, j: int| 0 <= i < j < rows.len() ==> rows[i].batch_id != rows[j].batch_id
}

/// The gaps come in the order of their numbers, below `next_seq`; every number fits its column.
pub open spec fn gaps_in_order(gaps: Seq<GapModel>, next_seq: u64) -> bool {
    &&& forall|i: int, j: int| 0 <= i < j < gaps.len() ==> gaps[i].seq < gaps[j].seq
    &&& forall|i: int|
        0 <= i < gaps.len() ==> (#[trigger] gaps[i]).seq < next_seq && gap_misfit(gaps[i]) is None
}

/// No batch is both pending and lost.
pub open spec fn rows_and_gaps_apart<V>(rows: Seq<RowModel<V>>, gaps: Seq<GapModel>) -> bool {
    forall|i: int, j: int|
        0 <= i < rows.len() && 0 <= j < gaps.len() ==> (#[trigger] rows[i]).seq != (
        #[trigger] gaps[j]).seq
}

impl<V> TableModel<V> {
    /// What holds of every spool.
    pub open spec fn wf(self) -> bool {
        &&& self.limits.max_payload_bytes > 0
        &&& self.limits.max_age_seconds > 0
        &&& self.next_seq <= INTEGER_MAX + 1
        &&& rows_in_order(self.rows, self.next_seq)
        &&& rows_distinct(self.rows)
        &&& gaps_in_order(self.gaps, self.next_seq)
        &&& rows_and_gaps_apart(self.rows, self.gaps)
    }

    /// Whether a pending batch has that identity.
    pub open spec fn has_batch(self, batch_id: Seq<char>) -> bool {
        exists|i: int| 0 <= i < self.rows.len() && (#[trigger] self.rows[i]).batch_id == batch_id
    }

    /// What comes of a batch that is offered under the next sequence number.
    ///
    /// One that alone exceeds the limit is lost at once. Any other is stored, and then the oldest
    /// batches make room: the first ones until the others fit, and all that are too old.
    pub open spec fn admitted(self, row: RowModel<V>) -> Result<
        (TableModel<V>, AdmissionModel),
        SpoolError,
    > {
        if self.next_seq > INTEGER_MAX {
            Err(SpoolError::SequenceExhausted)
        } else {
            match judged(row, self.limits) {
                Err(error) => Err(error),
                Ok(Some(gap)) => Ok(
                    (
                        TableModel {
                            next_seq: (self.next_seq + 1) as u64,
                            gaps: with_gap(self.gaps, gap),
                            ..self
                        },
                        AdmissionModel { stored: false, evicted: seq![gap] },
                    ),
                ),
                Ok(None) => if self.has_batch(row.batch_id) {
                    Err(SpoolError::DuplicateBatch)
                } else {
                    match enforced(self.rows.push(row), self.limits, row.created_at) {
                        Err(error) => Err(error),
                        Ok((rows, lost)) => Ok(
                            (
                                TableModel {
                                    next_seq: (self.next_seq + 1) as u64,
                                    rows,
                                    gaps: with_gaps(self.gaps, lost),
                                    ..self
                                },
                                AdmissionModel { stored: true, evicted: lost },
                            ),
                        ),
                    }
                },
            }
        }
    }
}

/// A filter keeps what holds of every two items in order.
pub(crate) proof fn filter_keeps_pairs<A>(
    items: Seq<A>,
    keep: spec_fn(A) -> bool,
    related: spec_fn(A, A) -> bool,
)
    requires
        forall|i: int, j: int| 0 <= i < j < items.len() ==> related(items[i], items[j]),
    ensures
        forall|i: int, j: int|
            0 <= i < j < items.filter(keep).len() ==> related(
                items.filter(keep)[i],
                items.filter(keep)[j],
            ),
    decreases items.len(),
{
    reveal(Seq::filter);
    if items.len() > 0 {
        let before = items.drop_last();
        filter_keeps_pairs(before, keep, related);
        let some = before.filter(keep);
        assert forall|i: int| 0 <= i < some.len() implies related(some[i], items.last()) by {
            assert(before.filter(keep).contains(some[i]));
            before.lemma_filter_contains_rev(keep, some[i]);
        }
    }
}

/// A filter only keeps items that are there and pass.
pub(crate) proof fn filter_keeps_items<A>(items: Seq<A>, keep: spec_fn(A) -> bool)
    ensures
        forall|i: int|
            0 <= i < items.filter(keep).len() ==> items.contains(#[trigger] items.filter(keep)[i])
                && keep(items.filter(keep)[i]),
    decreases items.len(),
{
    reveal(Seq::filter);
    if items.len() > 0 {
        let before = items.drop_last();
        filter_keeps_items(before, keep);
        let some = before.filter(keep);
        let all = items.filter(keep);
        assert forall|i: int| 0 <= i < all.len() implies items.contains(#[trigger] all[i]) && keep(
            all[i],
        ) by {
            if i < some.len() {
                assert(all[i] == some[i]);
                let k = choose|k: int| 0 <= k < before.len() && before[k] == some[i];
                assert(items[k] == all[i]);
            } else {
                assert(all[i] == items.last());
                assert(items[items.len() - 1] == all[i]);
            }
        }
    }
}

/// The surplus is no more than there is.
pub(crate) proof fn surplus_is_bounded<V>(rows: Seq<RowModel<V>>, limit: nat)
    ensures
        surplus(rows, limit) <= rows.len(),
        total(rows.skip(surplus(rows, limit) as int)) <= limit,
        forall|k: int|
            0 <= k < surplus(rows, limit) ==> total(#[trigger] rows.skip(k)) > limit,
    decreases rows.len(),
{
    let k = surplus(rows, limit) as int;
    if total(rows) <= limit {
        assert(rows.skip(0) =~= rows);
    } else {
        surplus_is_bounded(rows.drop_first(), limit);
        assert(rows.drop_first().skip(k - 1) =~= rows.skip(k));
        assert forall|j: int| 0 <= j < k implies total(#[trigger] rows.skip(j)) > limit by {
            if j == 0 {
                assert(rows.skip(0) =~= rows);
            } else {
                assert(rows.drop_first().skip(j - 1) =~= rows.skip(j));
            }
        }
    }
}

/// Rows that are left out only make the total smaller.
pub(crate) proof fn filter_total<V>(rows: Seq<RowModel<V>>, keep: spec_fn(RowModel<V>) -> bool)
    ensures
        total(rows.filter(keep)) <= total(rows),
    decreases rows.len(),
{
    reveal(Seq::filter);
    if rows.len() > 0 {
        filter_total(rows.drop_last(), keep);
        total_of_push(rows.drop_last(), rows.last());
        assert(rows.drop_last().push(rows.last()) =~= rows);
        total_of_push(rows.drop_last().filter(keep), rows.last());
    }
}

proof fn total_of_push<V>(rows: Seq<RowModel<V>>, row: RowModel<V>)
    ensures
        total(rows.push(row)) == total(rows) + row.payload_bytes,
    decreases rows.len(),
{
    if rows.len() == 0 {
        assert(rows.push(row).drop_first() =~= rows);
    } else {
        assert(rows.push(row).drop_first() =~= rows.drop_first().push(row));
        total_of_push(rows.drop_first(), row);
    }
}

/// A gap is put among the others in its place.
proof fn with_gap_inserts(gaps: Seq<GapModel>, gap: GapModel)
    requires
        forall|i: int, j: int| 0 <= i < j < gaps.len() ==> gaps[i].seq < gaps[j].seq,
        forall|i: int| 0 <= i < gaps.len() ==> (#[trigger] gaps[i]).seq != gap.seq,
    ensures
        with_gap(gaps, gap).len() == gaps.len() + 1,
        forall|i: int, j: int|
            0 <= i < j < with_gap(gaps, gap).len() ==> with_gap(gaps, gap)[i].seq < with_gap(
                gaps,
                gap,
            )[j].seq,
        forall|other: GapModel| #[trigger]
            with_gap(gaps, gap).contains(other) <==> (gaps.contains(other) || other == gap),
    decreases gaps.len(),
{
    let more = with_gap(gaps, gap);
    if gaps.len() == 0 || gaps.last().seq < gap.seq {
        assert forall|other: GapModel| #[trigger]
            more.contains(other) <==> (gaps.contains(other) || other == gap) by {
            if gaps.contains(other) {
                let k = choose|k: int| 0 <= k < gaps.len() && gaps[k] == other;
                assert(more[k] == other);
            }
            assert(more[gaps.len() as int] == gap);
            if more.contains(other) && other != gap {
                let k = choose|k: int| 0 <= k < more.len() && more[k] == other;
                assert(gaps[k] == other);
            }
        }
    } else {
        let first = gaps.drop_last();
        with_gap_inserts(first, gap);
        let inner = with_gap(first, gap);
        assert forall|other: GapModel| #[trigger]
            more.contains(other) <==> (gaps.contains(other) || other == gap) by {
            if gaps.contains(other) {
                let k = choose|k: int| 0 <= k < gaps.len() && gaps[k] == other;
                if k < first.len() {
                    assert(first[k] == other);
                    assert(inner.contains(other));
                    let m = choose|m: int| 0 <= m < inner.len() && inner[m] == other;
                    assert(more[m] == other);
                } else {
                    assert(more[inner.len() as int] == other);
                }
            }
            if other == gap {
                assert(inner.contains(other));
                let m = choose|m: int| 0 <= m < inner.len() && inner[m] == other;
                assert(more[m] == other);
            }
            if more.contains(other) {
                let m = choose|m: int| 0 <= m < more.len() && more[m] == other;
                if m < inner.len() {
                    assert(inner[m] == other);
                    assert(inner.contains(other));
                    if other != gap {
                        let k = choose|k: int| 0 <= k < first.len() && first[k] == other;
                        assert(gaps[k] == other);
                    }
                } else {
                    assert(gaps[gaps.len() - 1] == other);
                }
            }
        }
        assert forall|i: int, j: int| 0 <= i < j < more.len() implies more[i].seq < more[j].seq by {
            if j < inner.len() {
                assert(inner[i].seq < inner[j].seq);
            } else {
                assert(more[i] == inner[i]);
                assert(inner.contains(inner[i]));
                if inner[i] != gap {
                    let k = choose|k: int| 0 <= k < first.len() && first[k] == inner[i];
                    assert(gaps[k].seq < gaps[gaps.len() - 1].seq);
                }
            }
        }
    }
}

/// Gaps are put among the others in their places.
proof fn with_gaps_inserts(gaps: Seq<GapModel>, more: Seq<GapModel>)
    requires
        forall|i: int, j: int| 0 <= i < j < gaps.len() ==> gaps[i].seq < gaps[j].seq,
        forall|i: int, j: int| 0 <= i < j < more.len() ==> more[i].seq != more[j].seq,
        forall|i: int, j: int|
            0 <= i < gaps.len() && 0 <= j < more.len() ==> (#[trigger] gaps[i]).seq != (
            #[trigger] more[j]).seq,
    ensures
        with_gaps(gaps, more).len() == gaps.len() + more.len(),
        forall|i: int, j: int|
            0 <= i < j < with_gaps(gaps, more).len() ==> with_gaps(gaps, more)[i].seq < with_gaps(
                gaps,
                more,
            )[j].seq,
        forall|other: GapModel| #[trigger]
            with_gaps(gaps, more).contains(other) <==> (gaps.contains(other) || more.contains(
                other,
            )),
    decreases more.len(),
{
    if more.len() > 0 {
        let first = more.drop_last();
        with_gaps_inserts(gaps, first);
        let inner = with_gaps(gaps, first);
        assert forall|i: int| 0 <= i < inner.len() implies (#[trigger] inner[i]).seq
            != more.last().seq by {
            assert(inner.contains(inner[i]));
            if gaps.contains(inner[i]) {
                let k = choose|k: int| 0 <= k < gaps.len() && gaps[k] == inner[i];
                assert(gaps[k].seq != more[more.len() - 1].seq);
            } else {
                let k = choose|k: int| 0 <= k < first.len() && first[k] == inner[i];
                assert(more[k].seq != more[more.len() - 1].seq);
            }
        }
        with_gap_inserts(inner, more.last());
        assert forall|other: GapModel| #[trigger]
            with_gaps(gaps, more).contains(other) <==> (gaps.contains(other) || more.contains(
                other,
            )) by {
            if more.contains(other) {
                let k = choose|k: int| 0 <= k < more.len() && more[k] == other;
                if k < first.len() {
                    assert(first[k] == other);
                }
            }
            if first.contains(other) {
                let k = choose|k: int| 0 <= k < first.len() && first[k] == other;
                assert(more[k] == other);
            }
            assert(more[more.len() - 1] == more.last());
        }
    }
}

/// A filter and its opposite share out the items.
proof fn filter_shares_out<A>(items: Seq<A>, keep: spec_fn(A) -> bool, drop: spec_fn(A) -> bool)
    requires
        forall|item: A| #[trigger] drop(item) <==> !keep(item),
    ensures
        items.filter(keep).len() + items.filter(drop).len() == items.len(),
        forall|i: int|
            0 <= i < items.len() ==> items.filter(keep).contains(#[trigger] items[i])
                || items.filter(drop).contains(items[i]),
    decreases items.len(),
{
    reveal(Seq::filter);
    if items.len() > 0 {
        let before = items.drop_last();
        filter_shares_out(before, keep, drop);
        broadcast use vstd::seq_lib::group_filter_ensures;

        assert forall|i: int| 0 <= i < items.len() implies items.filter(keep).contains(
            #[trigger] items[i],
        ) || items.filter(drop).contains(items[i]) by {
            if keep(items[i]) {
                assert(items.filter(keep).contains(items[i]));
            } else {
                assert(drop(items[i]));
                assert(items.filter(drop).contains(items[i]));
            }
        }
    }
}

/// The place of a row that stays.
pub(crate) proof fn kept_place<V>(
    rows: Seq<RowModel<V>>,
    cutoff: u64,
    limit: nat,
    i: int,
) -> (m: int)
    requires
        0 <= i < kept(rows, cutoff, limit).len(),
    ensures
        surplus(rows, limit) <= m < rows.len(),
        rows[m] == kept(rows, cutoff, limit)[i],
        !expired(rows[m], cutoff),
{
    let k = surplus(rows, limit) as int;
    surplus_is_bounded(rows, limit);
    let rest = rows.skip(k);
    filter_keeps_items(rest, |row: RowModel<V>| !expired(row, cutoff));
    let row = kept(rows, cutoff, limit)[i];
    assert(rest.contains(row));
    k + choose|m: int| 0 <= m < rest.len() && rest[m] == row
}

/// The place of a row that is given up.
pub(crate) proof fn given_up_place<V>(
    rows: Seq<RowModel<V>>,
    cutoff: u64,
    limit: nat,
    i: int,
) -> (m: int)
    requires
        0 <= i < given_up(rows, cutoff, limit).len(),
    ensures
        0 <= m < rows.len(),
        rows[m] == given_up(rows, cutoff, limit)[i],
        i < surplus(rows, limit) ==> m == i,
        i >= surplus(rows, limit) ==> m >= surplus(rows, limit) && expired(rows[m], cutoff),
{
    let k = surplus(rows, limit) as int;
    surplus_is_bounded(rows, limit);
    let rest = rows.skip(k);
    let goes = |row: RowModel<V>| expired(row, cutoff);
    filter_keeps_items(rest, goes);
    if i < k {
        i
    } else {
        let row = rest.filter(goes)[i - k];
        assert(rest.contains(row));
        k + choose|m: int| 0 <= m < rest.len() && rest[m] == row
    }
}

/// What holds of every two rows in order holds of every two that stay.
proof fn kept_pairs<V>(
    rows: Seq<RowModel<V>>,
    cutoff: u64,
    limit: nat,
    related: spec_fn(RowModel<V>, RowModel<V>) -> bool,
)
    requires
        forall|i: int, j: int| 0 <= i < j < rows.len() ==> related(rows[i], rows[j]),
    ensures
        forall|i: int, j: int|
            0 <= i < j < kept(rows, cutoff, limit).len() ==> related(
                kept(rows, cutoff, limit)[i],
                kept(rows, cutoff, limit)[j],
            ),
{
    surplus_is_bounded(rows, limit);
    let rest = rows.skip(surplus(rows, limit) as int);
    filter_keeps_pairs(rest, |row: RowModel<V>| !expired(row, cutoff), related);
}

/// The rows that are given up are in order.
proof fn given_up_in_order<V>(rows: Seq<RowModel<V>>, cutoff: u64, limit: nat)
    requires
        forall|i: int, j: int| 0 <= i < j < rows.len() ==> rows[i].seq < rows[j].seq,
    ensures
        forall|i: int, j: int|
            0 <= i < j < given_up(rows, cutoff, limit).len() ==> given_up(
                rows,
                cutoff,
                limit,
            )[i].seq < given_up(rows, cutoff, limit)[j].seq,
{
    let k = surplus(rows, limit) as int;
    surplus_is_bounded(rows, limit);
    let rest = rows.skip(k);
    let goes = |row: RowModel<V>| expired(row, cutoff);
    let earlier = |a: RowModel<V>, b: RowModel<V>| a.seq < b.seq;
    filter_keeps_pairs(rest, goes, earlier);
    let old = rest.filter(goes);
    let go = given_up(rows, cutoff, limit);
    assert forall|i: int, j: int| 0 <= i < j < go.len() implies go[i].seq < go[j].seq by {
        let m = given_up_place(rows, cutoff, limit, i);
        let n = given_up_place(rows, cutoff, limit, j);
        if i >= k {
            assert(go[i] == old[i - k] && go[j] == old[j - k]);
            assert(earlier(old[i - k], old[j - k]));
        } else {
            assert(rows[m].seq < rows[n].seq);
        }
    }
}

/// Every row stays or is given up, and none does both.
pub proof fn eviction_shares_out<V>(rows: Seq<RowModel<V>>, cutoff: u64, limit: nat)
    requires
        forall|i: int, j: int| 0 <= i < j < rows.len() ==> rows[i].seq < rows[j].seq,
    ensures
        kept(rows, cutoff, limit).len() + given_up(rows, cutoff, limit).len() == rows.len(),
        forall|i: int|
            0 <= i < rows.len() ==> kept(rows, cutoff, limit).contains(#[trigger] rows[i])
                || given_up(rows, cutoff, limit).contains(rows[i]),
        forall|i: int, j: int|
            0 <= i < kept(rows, cutoff, limit).len() && 0 <= j < given_up(
                rows,
                cutoff,
                limit,
            ).len() ==> (#[trigger] kept(rows, cutoff, limit)[i]).seq != (#[trigger] given_up(
                rows,
                cutoff,
                limit,
            )[j]).seq,
{
    let k = surplus(rows, limit) as int;
    surplus_is_bounded(rows, limit);
    let rest = rows.skip(k);
    let goes = |row: RowModel<V>| expired(row, cutoff);
    let stay = kept(rows, cutoff, limit);
    let go = given_up(rows, cutoff, limit);
    let old = rest.filter(goes);
    filter_shares_out(rest, |row: RowModel<V>| !expired(row, cutoff), goes);
    assert forall|i: int| 0 <= i < rows.len() implies stay.contains(#[trigger] rows[i])
        || go.contains(rows[i]) by {
        if i < k {
            assert(go[i] == rows[i]);
        } else {
            assert(rest[i - k] == rows[i]);
            if old.contains(rows[i]) {
                let m = choose|m: int| 0 <= m < old.len() && old[m] == rows[i];
                assert(go[k + m] == rows[i]);
            }
        }
    }
    assert forall|i: int, j: int| 0 <= i < stay.len() && 0 <= j < go.len() implies (
    #[trigger] stay[i]).seq != (#[trigger] go[j]).seq by {
        let m = kept_place(rows, cutoff, limit, i);
        let n = given_up_place(rows, cutoff, limit, j);
        if m < n {
            assert(rows[m].seq < rows[n].seq);
        } else if n < m {
            assert(rows[n].seq < rows[m].seq);
        }
    }
}

/// What stays fits into the limit, and none of it is too old.
pub proof fn eviction_keeps_the_limits<V>(rows: Seq<RowModel<V>>, cutoff: u64, limit: nat)
    ensures
        total(kept(rows, cutoff, limit)) <= limit,
        forall|i: int|
            0 <= i < kept(rows, cutoff, limit).len() ==> (#[trigger] kept(
                rows,
                cutoff,
                limit,
            )[i]).created_at >= cutoff,
{
    surplus_is_bounded(rows, limit);
    filter_total(
        rows.skip(surplus(rows, limit) as int),
        |row: RowModel<V>| !expired(row, cutoff),
    );
    assert forall|i: int| 0 <= i < kept(rows, cutoff, limit).len() implies (#[trigger] kept(
        rows,
        cutoff,
        limit,
    )[i]).created_at >= cutoff by {
        let m = kept_place(rows, cutoff, limit, i);
    }
}

/// The newest row stays where it fits and is not too old itself.
pub(crate) proof fn the_newest_stays<V>(
    rows: Seq<RowModel<V>>,
    row: RowModel<V>,
    cutoff: u64,
    limit: nat,
)
    requires
        row.payload_bytes <= limit,
        row.created_at >= cutoff,
    ensures
        kept(rows.push(row), cutoff, limit).len() > 0,
        kept(rows.push(row), cutoff, limit).last() == row,
{
    reveal(Seq::filter);
    let all = rows.push(row);
    let k = surplus(all, limit) as int;
    surplus_is_bounded(all, limit);
    if k > rows.len() {
        let last = all.skip(rows.len() as int);
        assert(last.drop_first() =~= Seq::empty());
        assert(total(last.drop_first()) == 0);
        assert(last[0] == row);
        assert(total(last) == row.payload_bytes);
    }
    assert(all.skip(k).last() == row);
}

/// The gaps once a batch was stored are those from before and those of the evicted batches.
pub(crate) proof fn admission_records<V>(table: TableModel<V>, row: RowModel<V>)
    requires
        table.wf(),
        row.seq == table.next_seq,
        table.admitted(row) is Ok,
        row.payload_bytes <= table.limits.max_payload_bytes,
    ensures
        forall|other: GapModel| #[trigger]
            table.admitted(row)->Ok_0.0.gaps.contains(other) <==> (table.gaps.contains(other)
                || table.admitted(row)->Ok_0.1.evicted.contains(other)),
        table.admitted(row)->Ok_0.0.gaps.len() == table.gaps.len()
            + table.admitted(row)->Ok_0.1.evicted.len(),
{
    let all = table.rows.push(row);
    let cutoff = age_cutoff(row.created_at, table.limits.max_age_seconds);
    let limit = table.limits.max_payload_bytes as nat;
    let go = given_up(all, cutoff, limit);
    let lost = eviction_gaps(go, cutoff, row.created_at);
    given_up_in_order(all, cutoff, limit);
    assert forall|i: int, j: int| 0 <= i < table.gaps.len() && 0 <= j < lost.len() implies (
    #[trigger] table.gaps[i]).seq != (#[trigger] lost[j]).seq by {
        let m = given_up_place(all, cutoff, limit, j);
        if m < table.rows.len() {
            assert(table.rows[m].seq != table.gaps[i].seq);
        }
    }
    assert forall|i: int, j: int| 0 <= i < j < lost.len() implies lost[i].seq != lost[j].seq by {
        assert(go[i].seq < go[j].seq);
    }
    with_gaps_inserts(table.gaps, lost);
}

/// What holds of every spool still holds once a batch was offered.
pub proof fn admission_keeps_order<V>(table: TableModel<V>, row: RowModel<V>)
    requires
        table.wf(),
        row.seq == table.next_seq,
        table.admitted(row) is Ok,
    ensures
        table.admitted(row)->Ok_0.0.wf(),
{
    let next = table.admitted(row)->Ok_0.0;
    let now = row.created_at;
    let cutoff = age_cutoff(now, table.limits.max_age_seconds);
    let limit = table.limits.max_payload_bytes;
    if row.payload_bytes > limit {
        let gap = gap_of(row, "batch_exceeds_spool_limit"@, now);
        with_gap_inserts(table.gaps, gap);
        assert forall|i: int| 0 <= i < next.gaps.len() implies (#[trigger] next.gaps[i]).seq
            < next.next_seq && gap_misfit(next.gaps[i]) is None by {
            assert(next.gaps.contains(next.gaps[i]));
            if next.gaps[i] != gap {
                let k = choose|k: int| 0 <= k < table.gaps.len() && table.gaps[k] == next.gaps[i];
                assert(table.gaps[k].seq < table.next_seq);
            }
        }
        assert forall|i: int, j: int|
            0 <= i < next.rows.len() && 0 <= j < next.gaps.len() implies (
        #[trigger] next.rows[i]).seq != (#[trigger] next.gaps[j]).seq by {
            assert(next.gaps.contains(next.gaps[j]));
            if next.gaps[j] != gap {
                let k = choose|k: int| 0 <= k < table.gaps.len() && table.gaps[k] == next.gaps[j];
                assert(table.rows[i].seq != table.gaps[k].seq);
            }
        }
    } else {
        let all = table.rows.push(row);
        let go = given_up(all, cutoff, limit as nat);
        let lost = eviction_gaps(go, cutoff, now);
        eviction_shares_out(all, cutoff, limit as nat);
        given_up_in_order(all, cutoff, limit as nat);
        assert forall|i: int, j: int| 0 <= i < j < all.len() implies all[i].batch_id
            != all[j].batch_id by {
            if j == table.rows.len() {
                assert(all[i] == table.rows[i]);
            }
        }
        let apart = |a: RowModel<V>, b: RowModel<V>| a.batch_id != b.batch_id;
        let earlier = |a: RowModel<V>, b: RowModel<V>| a.seq < b.seq;
        kept_pairs(all, cutoff, limit as nat, apart);
        kept_pairs(all, cutoff, limit as nat, earlier);
        assert forall|i: int, j: int| 0 <= i < j < next.rows.len() implies next.rows[i].batch_id
            != next.rows[j].batch_id && next.rows[i].seq < next.rows[j].seq by {
            assert(apart(next.rows[i], next.rows[j]));
            assert(earlier(next.rows[i], next.rows[j]));
        }
        assert forall|i: int| 0 <= i < next.rows.len() implies (#[trigger] next.rows[i]).seq
            < next.next_seq && row_misfit(next.rows[i]) is None by {
            let m = kept_place(all, cutoff, limit as nat, i);
        }
        assert forall|i: int, j: int|
            0 <= i < table.gaps.len() && 0 <= j < lost.len() implies (#[trigger] table.gaps[i]).seq
            != (#[trigger] lost[j]).seq by {
            let m = given_up_place(all, cutoff, limit as nat, j);
            if m < table.rows.len() {
                assert(table.rows[m].seq != table.gaps[i].seq);
            }
        }
        assert forall|i: int, j: int| 0 <= i < j < lost.len() implies lost[i].seq
            != lost[j].seq by {
            assert(go[i].seq < go[j].seq);
        }
        with_gaps_inserts(table.gaps, lost);
        assert forall|i: int| 0 <= i < next.gaps.len() implies (#[trigger] next.gaps[i]).seq
            < next.next_seq && gap_misfit(next.gaps[i]) is None by {
            assert(next.gaps.contains(next.gaps[i]));
            if table.gaps.contains(next.gaps[i]) {
                let k = choose|k: int| 0 <= k < table.gaps.len() && table.gaps[k] == next.gaps[i];
                assert(table.gaps[k].seq < table.next_seq);
            } else {
                let k = choose|k: int| 0 <= k < lost.len() && lost[k] == next.gaps[i];
                let m = given_up_place(all, cutoff, limit as nat, k);
                assert(row_misfit(all[m]) is None);
            }
        }
        assert forall|i: int, j: int|
            0 <= i < next.rows.len() && 0 <= j < next.gaps.len() implies (
        #[trigger] next.rows[i]).seq != (#[trigger] next.gaps[j]).seq by {
            assert(next.gaps.contains(next.gaps[j]));
            let m = kept_place(all, cutoff, limit as nat, i);
            if table.gaps.contains(next.gaps[j]) {
                let k = choose|k: int| 0 <= k < table.gaps.len() && table.gaps[k] == next.gaps[j];
                if m < table.rows.len() {
                    assert(table.rows[m].seq != table.gaps[k].seq);
                }
            } else {
                let k = choose|k: int| 0 <= k < lost.len() && lost[k] == next.gaps[j];
                assert(next.rows[i].seq != go[k].seq);
            }
        }
    }
}

/// The gap that a batch leaves.
fn leave_gap<P: View>(row: &SpoolRow<P>, reason: &str, now: u64) -> (r: GapEvent)
    ensures
        r@ == gap_of(row@, reason@, now),
        r.seq == row.seq,
        r.min_bucket == row.min_bucket,
        r.max_bucket == row.max_bucket,
        r.lost_bytes == row.payload_bytes,
        r.reason@ == reason@,
        r.created_at == now,
{
    GapEvent {
        seq: row.seq,
        min_bucket: row.min_bucket,
        max_bucket: row.max_bucket,
        lost_bytes: row.payload_bytes,
        reason: reason.to_owned(),
        created_at: now,
    }
}

fn optional_integer(value: Option<u64>, field: &'static str) -> (r: Result<(), SpoolError>)
    ensures
        r == (if optional_fits(value) {
            Ok::<(), SpoolError>(())
        } else {
            Err(SpoolError::Range(RangeError { field }))
        }),
{
    match value {
        None => Ok(()),
        Some(number) => required_integer(number, field),
    }
}

fn required_integer(value: u64, field: &'static str) -> (r: Result<(), SpoolError>)
    ensures
        r == (if value <= INTEGER_MAX {
            Ok::<(), SpoolError>(())
        } else {
            Err(SpoolError::Range(RangeError { field }))
        }),
{
    match integer(value, field) {
        Ok(_) => Ok(()),
        Err(error) => Err(SpoolError::Range(error)),
    }
}

/// Whether every number of a gap fits its column.
fn check_gap(gap: &GapEvent) -> (r: Result<(), SpoolError>)
    ensures
        r == (match gap_misfit(gap@) {
            Some(error) => Err::<(), SpoolError>(SpoolError::Range(error)),
            None => Ok(()),
        }),
{
    optional_integer(gap.min_bucket, "gap min_bucket")?;
    optional_integer(gap.max_bucket, "gap max_bucket")?;
    required_integer(gap.lost_bytes, "gap lost_bytes")?;
    required_integer(gap.created_at, "gap created_at")
}

/// Whether every number of a row fits its column.
fn check_row<P: View>(row: &SpoolRow<P>) -> (r: Result<(), SpoolError>)
    ensures
        r == (match row_misfit(row@) {
            Some(error) => Err::<(), SpoolError>(SpoolError::Range(error)),
            None => Ok(()),
        }),
{
    required_integer(row.created_at, "created_at")?;
    optional_integer(row.min_bucket, "min_bucket")?;
    optional_integer(row.max_bucket, "max_bucket")?;
    required_integer(row.payload_bytes, "payload_bytes")
}

/// The value of a gap, if there is one.
pub open spec fn optional_gap(gap: Option<GapEvent>) -> Option<GapModel> {
    match gap {
        None => None,
        Some(gap) => Some(gap@),
    }
}

/// Decides what is to be done with an offered batch: only to record the gap that is returned, or
/// else to store it.
pub fn judge<P: View>(row: &SpoolRow<P>, limits: SpoolLimits) -> (r: Result<
    Option<GapEvent>,
    SpoolError,
>)
    ensures
        match r {
            Ok(gap) => judged(row@, limits) == Ok::<Option<GapModel>, SpoolError>(
                optional_gap(gap),
            ),
            Err(error) => judged(row@, limits) == Err::<Option<GapModel>, SpoolError>(error),
        },
{
    if row.payload_bytes > limits.max_payload_bytes {
        let gap = leave_gap(row, "batch_exceeds_spool_limit", row.created_at);
        match check_gap(&gap) {
            Ok(()) => Ok(Some(gap)),
            Err(error) => Err(error),
        }
    } else {
        match check_row(row) {
            Ok(()) => Ok(None),
            Err(error) => Err(error),
        }
    }
}

/// Puts a gap among the others, in order.
pub fn insert_gap(gaps: &mut Vec<GapEvent>, gap: GapEvent)
    ensures
        gap_models(final(gaps)@) == with_gap(gap_models(old(gaps)@), gap@),
{
    let ghost before = gap_models(gaps@);
    let mut i: usize = gaps.len();
    assert(before.take(i as int) =~= before);
    assert(with_gap(before, gap@) =~= with_gap(before.take(i as int), gap@) + before.skip(
        i as int,
    ));
    while i > 0 && gaps[i - 1].seq >= gap.seq
        invariant
            i <= gaps.len(),
            before == gap_models(gaps@),
            with_gap(before, gap@) == with_gap(before.take(i as int), gap@) + before.skip(i as int),
        decreases i,
    {
        proof {
            let now = before.take(i as int);
            assert(now.last() == gaps[i - 1]@);
            assert(now.drop_last() =~= before.take(i - 1));
            assert(before.skip(i - 1) =~= seq![before[i - 1]] + before.skip(i as int));
            assert(with_gap(now, gap@) + before.skip(i as int) =~= with_gap(
                before.take(i - 1),
                gap@,
            ) + before.skip(i - 1));
        }
        i -= 1;
    }
    proof {
        if i > 0 {
            assert(before.take(i as int).last() == gaps[i - 1]@);
        }
        assert(with_gap(before.take(i as int), gap@) == before.take(i as int).push(gap@));
        assert(gap_models(gaps@.insert(i as int, gap)) =~= before.take(i as int).push(gap@)
            + before.skip(i as int));
    }
    gaps.insert(i, gap);
}

/// The payload bytes of all rows, or nothing where no column can hold the sum.
pub fn payload_total<P: View>(rows: &Vec<SpoolRow<P>>) -> (r: Option<u64>)
    ensures
        r == (if total(row_models(rows@)) <= INTEGER_MAX {
            Some(total(row_models(rows@)) as u64)
        } else {
            None::<u64>
        }),
        r is Some ==> r->0 == total(row_models(rows@)),
{
    let ghost models = row_models(rows@);
    let mut sum: u64 = 0;
    let mut i: usize = rows.len();
    assert(models.skip(i as int) =~= Seq::empty());
    while i > 0
        invariant
            i <= rows.len(),
            models == row_models(rows@),
            sum == total(models.skip(i as int)),
            sum <= INTEGER_MAX,
        decreases i,
    {
        i -= 1;
        proof {
            assert(models.skip(i as int).drop_first() =~= models.skip(i + 1));
            assert(models.skip(i as int)[0] == rows[i as int]@);
        }
        let bytes: u64 = rows[i].payload_bytes;
        if bytes > INTEGER_MAX - sum {
            proof {
                total_of_part(models, i as int);
            }
            return None;
        }
        sum += bytes;
    }
    assert(models.skip(0) =~= models);
    Some(sum)
}

/// The last rows hold no more than all rows.
proof fn total_of_part<V>(rows: Seq<RowModel<V>>, i: int)
    requires
        0 <= i <= rows.len(),
    ensures
        total(rows.skip(i)) <= total(rows),
    decreases i,
{
    if i == 0 {
        assert(rows.skip(0) =~= rows);
    } else {
        total_of_part(rows, i - 1);
        assert(rows.skip(i - 1).drop_first() =~= rows.skip(i));
    }
}

/// The time before which batches are too old.
pub fn cutoff_at(now: u64, max_age_seconds: u64) -> (r: u64)
    ensures
        r == age_cutoff(now, max_age_seconds),
{
    if now >= max_age_seconds {
        now - max_age_seconds
    } else {
        0
    }
}

proof fn eviction_gaps_of_push<V>(
    rows: Seq<RowModel<V>>,
    row: RowModel<V>,
    cutoff: u64,
    now: u64,
    gaps: Seq<GapEvent>,
    gap: GapEvent,
)
    requires
        gap@ == gap_of(row, eviction_reason(row, cutoff), now),
    ensures
        eviction_gaps(rows.push(row), cutoff, now) == eviction_gaps(rows, cutoff, now).push(gap@),
        gap_models(gaps.push(gap)) == gap_models(gaps).push(gap@),
{
    assert(eviction_gaps(rows.push(row), cutoff, now) =~= eviction_gaps(rows, cutoff, now).push(
        gap@,
    ));
    assert(gap_models(gaps.push(gap)) =~= gap_models(gaps).push(gap@));
}

pub(crate) proof fn row_models_of_remove<P: View>(rows: Seq<SpoolRow<P>>, i: int)
    requires
        0 <= i < rows.len(),
    ensures
        row_models(rows.remove(i)) == row_models(rows).remove(i),
{
    assert(row_models(rows.remove(i)) =~= row_models(rows).remove(i));
}

/// Removes the oldest rows until the others fit into `limit` bytes.
fn make_room<P: View>(
    rows: &mut Vec<SpoolRow<P>>,
    sum: u64,
    cutoff: u64,
    limit: u64,
    now: u64,
) -> (r: Vec<GapEvent>)
    requires
        sum == total(row_models(old(rows)@)),
    ensures
        ({
            let before = row_models(old(rows)@);
            let k = surplus(before, limit as nat) as int;
            &&& row_models(final(rows)@) == before.skip(k)
            &&& gap_models(r@) == eviction_gaps(before.take(k), cutoff, now)
        }),
{
    let ghost before = row_models(rows@);
    let ghost mut k: int = 0;
    let mut sum: u64 = sum;
    let mut gaps: Vec<GapEvent> = Vec::new();
    proof {
        surplus_is_bounded(before, limit as nat);
        assert(before.skip(0) =~= before);
        assert(gap_models(gaps@) =~= eviction_gaps(before.take(0), cutoff, now));
    }
    while sum > limit
        invariant
            0 <= k <= before.len(),
            row_models(rows@) == before.skip(k),
            gap_models(gaps@) == eviction_gaps(before.take(k), cutoff, now),
            sum == total(before.skip(k)),
            surplus(before, limit as nat) == k + surplus(before.skip(k), limit as nat),
        decreases rows.len(),
    {
        assert(rows.len() == before.skip(k).len());
        assert(rows.len() > 0);
        let row = rows.remove(0);
        let bytes: u64 = row.payload_bytes;
        proof {
            assert(row@ == before.skip(k)[0]);
            assert(before.skip(k).drop_first() =~= before.skip(k + 1));
            assert(row_models(rows@) =~= before.skip(k + 1));
            assert(before.take(k + 1) =~= before.take(k).push(row@));
        }
        let reason: &str = if row.created_at < cutoff {
            "spool_age_limit"
        } else {
            "spool_byte_limit"
        };
        let gap = leave_gap(&row, reason, now);
        proof {
            eviction_gaps_of_push(before.take(k), row@, cutoff, now, gaps@, gap);
        }
        gaps.push(gap);
        sum -= bytes;
        proof {
            k = k + 1;
        }
    }
    gaps
}

/// Removes the rows that are too old.
fn drop_expired<P: View>(
    rows: &mut Vec<SpoolRow<P>>,
    gaps: &mut Vec<GapEvent>,
    cutoff: u64,
    now: u64,
)
    ensures
        row_models(final(rows)@) == row_models(old(rows)@).filter(
            |row: RowModel<P::V>| !expired(row, cutoff),
        ),
        gap_models(final(gaps)@) == gap_models(old(gaps)@) + eviction_gaps(
            row_models(old(rows)@).filter(|row: RowModel<P::V>| expired(row, cutoff)),
            cutoff,
            now,
        ),
{
    let ghost before = row_models(rows@);
    let ghost first = gap_models(gaps@);
    let ghost stays = |row: RowModel<P::V>| !expired(row, cutoff);
    let ghost goes = |row: RowModel<P::V>| expired(row, cutoff);
    let ghost mut n: int = 0;
    let mut i: usize = 0;
    proof {
        reveal(Seq::filter);
        assert(before.skip(0) =~= before);
        assert(before.take(0) =~= Seq::empty());
        assert(row_models(rows@) =~= before.take(0).filter(stays) + before.skip(0));
        assert(gap_models(gaps@) =~= first + eviction_gaps(before.take(0).filter(goes), cutoff, now));
    }
    while i < rows.len()
        invariant
            0 <= n <= before.len(),
            i <= rows.len(),
            rows.len() - i == before.len() - n,
            stays == (|row: RowModel<P::V>| !expired(row, cutoff)),
            goes == (|row: RowModel<P::V>| expired(row, cutoff)),
            i == before.take(n).filter(stays).len(),
            row_models(rows@) == before.take(n).filter(stays) + before.skip(n),
            gap_models(gaps@) == first + eviction_gaps(before.take(n).filter(goes), cutoff, now),
        decreases rows.len() - i,
    {
        let ghost all = rows@;
        let ghost held = row_models(all);
        let ghost done = before.take(n).filter(stays);
        let ghost gone = before.take(n).filter(goes);
        proof {
            reveal(Seq::filter);
            assert(before.take(n + 1).drop_last() =~= before.take(n));
            assert(before.take(n + 1).last() == before[n]);
            assert(held[i as int] == before.skip(n)[0]);
            assert(rows[i as int]@ == before[n]);
        }
        if rows[i].created_at < cutoff {
            let row = rows.remove(i);
            let gap = leave_gap(&row, "spool_age_limit", now);
            proof {
                row_models_of_remove(all, i as int);
                assert(held.remove(i as int) =~= done + before.skip(n + 1));
                eviction_gaps_of_push(gone, row@, cutoff, now, gaps@, gap);
                assert((first + eviction_gaps(gone, cutoff, now)).push(gap@) =~= first
                    + eviction_gaps(gone, cutoff, now).push(gap@));
            }
            gaps.push(gap);
        } else {
            proof {
                assert(row_models(rows@) =~= done.push(before[n]) + before.skip(n + 1));
            }
            i += 1;
        }
        proof {
            n = n + 1;
        }
    }
    proof {
        assert(before.take(n) =~= before);
        assert(row_models(rows@) =~= before.filter(stays));
    }
}

/// Whether a row is given up.
fn has_surplus<P: View>(rows: &Vec<SpoolRow<P>>, sum: u64, cutoff: u64, limit: u64) -> (r: bool)
    requires
        sum == total(row_models(rows@)),
    ensures
        r == (given_up(row_models(rows@), cutoff, limit as nat).len() > 0),
{
    let ghost models = row_models(rows@);
    let ghost goes = |row: RowModel<P::V>| expired(row, cutoff);
    if sum > limit {
        proof {
            surplus_is_bounded(models, limit as nat);
        }
        return true;
    }
    assert(models.skip(0) =~= models);
    assert(given_up(models, cutoff, limit as nat) =~= models.filter(goes));
    let mut i: usize = 0;
    while i < rows.len()
        invariant
            i <= rows.len(),
            models == row_models(rows@),
            goes == (|row: RowModel<P::V>| expired(row, cutoff)),
            given_up(models, cutoff, limit as nat) == models.filter(goes),
            forall|j: int| 0 <= j < i ==> !expired(#[trigger] models[j], cutoff),
        decreases rows.len() - i,
    {
        assert(models[i as int] == rows[i as int]@);
        if rows[i].created_at < cutoff {
            proof {
                broadcast use vstd::seq_lib::group_filter_ensures;

                assert(goes(models[i as int]));
                assert(models.filter(goes).contains(models[i as int]));
            }
            return true;
        }
        i += 1;
    }
    proof {
        filter_keeps_items(models, goes);
        if models.filter(goes).len() > 0 {
            let row = models.filter(goes)[0];
            assert(models.contains(row) && goes(row));
        }
    }
    false
}

/// Gives up rows until the others are within the limits, and returns the gaps that they leave.
/// Where it fails nothing is given up.
pub fn enforce_limits<P: View>(
    rows: &mut Vec<SpoolRow<P>>,
    limits: SpoolLimits,
    now: u64,
) -> (r: Result<Vec<GapEvent>, SpoolError>)
    ensures
        match r {
            Ok(gaps) => enforced(row_models(old(rows)@), limits, now) == Ok::<
                (Seq<RowModel<P::V>>, Seq<GapModel>),
                SpoolError,
            >((row_models(final(rows)@), gap_models(gaps@))),
            Err(error) => {
                &&& final(rows)@ == old(rows)@
                &&& enforced(row_models(old(rows)@), limits, now) == Err::<
                    (Seq<RowModel<P::V>>, Seq<GapModel>),
                    SpoolError,
                >(error)
            },
        },
{
    let cutoff: u64 = cutoff_at(now, limits.max_age_seconds);
    required_integer(cutoff, "spool cutoff")?;
    required_integer(limits.max_payload_bytes, "max_payload_bytes")?;
    let ghost before = row_models(rows@);
    match payload_total(rows) {
        None => Err(SpoolError::TotalOverflow),
        Some(sum) => {
            if now > INTEGER_MAX && has_surplus(rows, sum, cutoff, limits.max_payload_bytes) {
                return Err(SpoolError::Range(RangeError { field: "gap created_at" }));
            }
            let mut gaps = make_room(rows, sum, cutoff, limits.max_payload_bytes, now);
            let ghost k = surplus(before, limits.max_payload_bytes as nat) as int;
            drop_expired(rows, &mut gaps, cutoff, now);
            proof {
                surplus_is_bounded(before, limits.max_payload_bytes as nat);
                assert(gap_models(gaps@) =~= eviction_gaps(
                    given_up(before, cutoff, limits.max_payload_bytes as nat),
                    cutoff,
                    now,
                ));
            }
            Ok(gaps)
        },
    }
}

/// Decides whether an acknowledgement succeeded, given how many batches it removed.
pub fn check_removed(removed: usize) -> (r: Result<(), SpoolError>)
    ensures
        r == (if removed == 1 {
            Ok::<(), SpoolError>(())
        } else {
            Err(SpoolError::UnknownBatch)
        }),
{
    if removed != 1 {
        return Err(SpoolError::UnknownBatch);
    }
    Ok(())
}

/// Whether a row has that identity.
fn is_pending<P: View>(rows: &Vec<SpoolRow<P>>, batch_id: &String) -> (r: bool)
    ensures
        r == exists|i: int|
            0 <= i < rows.len() && (#[trigger] row_models(rows@)[i]).batch_id == batch_id@,
{
    let ghost models = row_models(rows@);
    let mut i: usize = 0;
    while i < rows.len()
        invariant
            i <= rows.len(),
            models == row_models(rows@),
            forall|j: int| 0 <= j < i ==> (#[trigger] models[j]).batch_id != batch_id@,
        decreases rows.len() - i,
    {
        assert(models[i as int] == rows[i as int]@);
        if rows[i].batch_id == *batch_id {
            return true;
        }
        i += 1;
    }
    false
}

/// Puts gaps among the others, in order.
fn insert_gaps(gaps: &mut Vec<GapEvent>, more: &Vec<GapEvent>)
    ensures
        gap_models(final(gaps)@) == with_gaps(gap_models(old(gaps)@), gap_models(more@)),
{
    let ghost before = gap_models(gaps@);
    let ghost models = gap_models(more@);
    let mut i: usize = 0;
    assert(models.take(0) =~= Seq::empty());
    while i < more.len()
        invariant
            i <= more.len(),
            models == gap_models(more@),
            gap_models(gaps@) == with_gaps(before, models.take(i as int)),
        decreases more.len() - i,
    {
        proof {
            assert(models.take(i + 1).drop_last() =~= models.take(i as int));
            assert(models.take(i + 1).last() == more[i as int]@);
        }
        insert_gap(gaps, more[i].clone());
        i += 1;
    }
    assert(models.take(i as int) =~= models);
}

/// Offers a batch under the next sequence number to a spool of these rows and gaps: stores it, at
/// the cost of the oldest rows where the limits ask for it, or only records its loss where it
/// alone exceeds them. Where it fails nothing changes.
pub fn offer<P: View>(
    rows: &mut Vec<SpoolRow<P>>,
    gaps: &mut Vec<GapEvent>,
    next_seq: u64,
    row: SpoolRow<P>,
    limits: SpoolLimits,
) -> (r: Result<Admission, SpoolError>)
    ensures
        ({
            let table = TableModel {
                limits,
                next_seq,
                rows: row_models(old(rows)@),
                gaps: gap_models(old(gaps)@),
            };
            match r {
                Ok(admission) => table.admitted(row@) == Ok::<
                    (TableModel<P::V>, AdmissionModel),
                    SpoolError,
                >(
                    (
                        TableModel {
                            limits,
                            next_seq: (next_seq + 1) as u64,
                            rows: row_models(final(rows)@),
                            gaps: gap_models(final(gaps)@),
                        },
                        admission@,
                    ),
                ),
                Err(error) => {
                    &&& final(rows)@ == old(rows)@
                    &&& final(gaps)@ == old(gaps)@
                    &&& table.admitted(row@) == Err::<
                        (TableModel<P::V>, AdmissionModel),
                        SpoolError,
                    >(error)
                },
            }
        }),
{
    if next_seq > INTEGER_MAX {
        return Err(SpoolError::SequenceExhausted);
    }
    let ghost model = row@;
    let ghost table = TableModel {
        limits,
        next_seq,
        rows: row_models(rows@),
        gaps: gap_models(gaps@),
    };
    match judge(&row, limits) {
        Err(error) => {
            return Err(error);
        },
        Ok(Some(gap)) => {
            let mut evicted: Vec<GapEvent> = Vec::new();
            evicted.push(gap.clone());
            assert(gap_models(evicted@) =~= seq![gap@]);
            insert_gap(gaps, gap);
            return Ok(Admission { stored: false, evicted });
        },
        Ok(None) => {},
    }
    let known = is_pending(rows, &row.batch_id);
    assert(known == table.has_batch(model.batch_id)) by {
        assert(table.rows == row_models(rows@));
    }
    if known {
        return Err(SpoolError::DuplicateBatch);
    }
    let now: u64 = row.created_at;
    let ghost held = rows@;
    rows.push(row);
    assert(row_models(rows@) =~= table.rows.push(model));
    match enforce_limits(rows, limits, now) {
        Err(error) => {
            rows.pop();
            assert(rows@ =~= held);
            Err(error)
        },
        Ok(evicted) => {
            insert_gaps(gaps, &evicted);
            Ok(Admission { stored: true, evicted })
        },
    }
}

} // verus!
