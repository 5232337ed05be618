//! What the control plane owes an envelope: when it is taken, when it is a duplicate, when it is
//! refused, and what is held of it.

use vstd::prelude::*;

use crate::batch::EnvelopeModel;
use crate::control::{DatabaseError, EncodingCause, IngestError, StoreModel, StoredModel};
use crate::model::{Direction, FlowBucketModel, IngestStatus, TransportProtocol};
use crate::sqlite::RangeError;

verus! {

/// Whether a batch is held and young enough at that time.
pub open spec fn is_held(store: StoreModel, now: u64, i: int) -> bool {
    0 <= i < store.batches.len() && store.batches[i].created_at + store.limits.max_age_seconds
        >= now
}

/// Whether an envelope is sound: in the current format, with the checksum of its body.
pub open spec fn is_sound(envelope: EnvelopeModel) -> bool {
    &&& envelope.body.schema_version == 1
    &&& crate::encoding::json_text(crate::batch::body_document(envelope.body)) is Some
    &&& envelope.checksum == crate::text::hex(
        crate::encoding::blake3_digest(
            crate::encoding::json_text(crate::batch::body_document(envelope.body))->0,
        ),
    )
}

/// Whether every number of the buckets fits a column of eight bytes with a sign.
pub open spec fn buckets_fit(buckets: Seq<FlowBucketModel>) -> bool {
    forall|i: int|
        0 <= i < buckets.len() ==> (#[trigger] buckets[i]).bucket_start <= 0x7fff_ffff_ffff_ffff
            && buckets[i].packets <= 0x7fff_ffff_ffff_ffff && buckets[i].bytes
            <= 0x7fff_ffff_ffff_ffff
}

proof fn fitting_buckets_have_no_misfit(buckets: Seq<FlowBucketModel>)
    ensures
        crate::control::buckets_misfit(buckets) is None <==> buckets_fit(buckets),
    decreases buckets.len(),
{
    if buckets.len() > 0 {
        let before = buckets.drop_last();
        fitting_buckets_have_no_misfit(before);
        if buckets_fit(buckets) {
            assert forall|i: int| 0 <= i < before.len() implies (
            #[trigger] before[i]).bucket_start <= 0x7fff_ffff_ffff_ffff && before[i].packets
                <= 0x7fff_ffff_ffff_ffff && before[i].bytes <= 0x7fff_ffff_ffff_ffff by {
                assert(before[i] == buckets[i]);
            }
            assert(buckets[buckets.len() - 1] == buckets.last());
        }
        if buckets_fit(before) && crate::control::bucket_misfit(buckets.last()) is None {
            assert forall|i: int| 0 <= i < buckets.len() implies (
            #[trigger] buckets[i]).bucket_start <= 0x7fff_ffff_ffff_ffff && buckets[i].packets
                <= 0x7fff_ffff_ffff_ffff && buckets[i].bytes <= 0x7fff_ffff_ffff_ffff by {
                if i < before.len() {
                    assert(before[i] == buckets[i]);
                }
            }
        }
    }
}

/// The same condition keeps the same items.
proof fn same_filter<A>(items: Seq<A>, p: spec_fn(A) -> bool, q: spec_fn(A) -> bool)
    requires
        forall|item: A| #[trigger] p(item) == q(item),
    ensures
        items.filter(p) == items.filter(q),
    decreases items.len(),
{
    reveal(Seq::filter);
    if items.len() > 0 {
        same_filter(items.drop_last(), p, q);
        assert(p(items.last()) == q(items.last()));
    }
}

/// What is left of a store at a time are the batches that are young enough, in their order.
proof fn what_is_left(store: StoreModel, now: u64)
    ensures
        crate::control::unexpired(
            store.batches,
            crate::retention::age_cutoff(now, store.limits.max_age_seconds),
        ) == store.batches.filter(
            |batch: StoredModel| batch.created_at + store.limits.max_age_seconds >= now,
        ),
{
    let cutoff = crate::retention::age_cutoff(now, store.limits.max_age_seconds);
    same_filter(
        store.batches,
        |batch: StoredModel| batch.created_at >= cutoff,
        |batch: StoredModel| batch.created_at + store.limits.max_age_seconds >= now,
    );
}

/// An unsound envelope is refused for what is wrong with it, whatever is held: one of another
/// format, or one whose checksum is not that of its body.
pub proof fn unsound_envelopes_are_refused(store: StoreModel, envelope: EnvelopeModel, now: u64)
    ensures
        envelope.body.schema_version != 1 ==> crate::control::ingested(store, envelope, now)
            == Err::<(StoreModel, IngestStatus), IngestError>(IngestError::SchemaVersion),
        envelope.body.schema_version == 1 && crate::encoding::json_text(
            crate::batch::body_document(envelope.body),
        ) is Some && !is_sound(envelope) ==> crate::control::ingested(store, envelope, now)
            == Err::<(StoreModel, IngestStatus), IngestError>(IngestError::Checksum),
        crate::control::ingested(store, envelope, now) is Ok ==> is_sound(envelope),
{
}

/// A sound envelope whose identity is held is a duplicate where the checksum is the same, and a
/// conflict where it is not. A duplicate adds nothing: what is left are the batches that are young
/// enough, in their order.
pub proof fn a_held_identity_decides(store: StoreModel, envelope: EnvelopeModel, now: u64, i: int)
    requires
        store.wf(),
        is_sound(envelope),
        now <= 0x7fff_ffff_ffff_ffff + store.limits.max_age_seconds,
        is_held(store, now, i),
        store.batches[i].batch_id == envelope.batch_id,
    ensures
        store.batches[i].checksum != envelope.checksum ==> crate::control::ingested(
            store,
            envelope,
            now,
        ) == Err::<(StoreModel, IngestStatus), IngestError>(IngestError::Conflict),
        store.batches[i].checksum == envelope.checksum ==> (crate::control::ingested(
            store,
            envelope,
            now,
        ) matches Ok((next, status)) && status == IngestStatus::Duplicate && next.limits
            == store.limits && next.batches == store.batches.filter(
            |batch: StoredModel| batch.created_at + store.limits.max_age_seconds >= now,
        )),
{
    let cutoff = crate::retention::age_cutoff(now, store.limits.max_age_seconds);
    let left = crate::control::unexpired(store.batches, cutoff);
    what_is_left(store, now);
    crate::control::unexpired_facts(store, cutoff);
    assert(left.contains(store.batches[i]));
    let k = choose|k: int| 0 <= k < left.len() && left[k] == store.batches[i];
    crate::control::held_checksum(left, k);
}

/// A sound envelope whose identity is not held, and whose numbers fit, is refused as a conflict
/// exactly where some held batch has its node, its boot and its sequence number, all three; it is
/// inserted otherwise. So a batch of another node or another boot than every held one is inserted.
pub proof fn only_a_taken_place_conflicts(store: StoreModel, envelope: EnvelopeModel, now: u64)
    requires
        store.wf(),
        is_sound(envelope),
        now <= 0x7fff_ffff_ffff_ffff + store.limits.max_age_seconds,
        envelope.body.seq <= 0x7fff_ffff_ffff_ffff,
        forall|i: int|
            is_held(store, now, i) ==> (#[trigger] store.batches[i]).batch_id != envelope.batch_id,
    ensures
        ({
            let r = crate::control::ingested(store, envelope, now);
            let is_taken = exists|i: int|
                is_held(store, now, i) && (#[trigger] store.batches[i]).node_id
                    == envelope.body.node_id && store.batches[i].boot_id == envelope.body.boot_id
                    && store.batches[i].seq == envelope.body.seq;
            &&& r == Err::<(StoreModel, IngestStatus), IngestError>(IngestError::Conflict)
                <==> is_taken
            &&& !is_taken && envelope.body.created_at <= 0x7fff_ffff_ffff_ffff && buckets_fit(
                envelope.body.buckets,
            ) ==> (r matches Ok((next, status)) && status == IngestStatus::Inserted)
            &&& r is Ok ==> !is_taken && r->Ok_0.1 == IngestStatus::Inserted
                && envelope.body.created_at <= 0x7fff_ffff_ffff_ffff && buckets_fit(
                envelope.body.buckets,
            )
        }),
{
    let cutoff = crate::retention::age_cutoff(now, store.limits.max_age_seconds);
    let left = crate::control::unexpired(store.batches, cutoff);
    let body = envelope.body;
    crate::control::unexpired_facts(store, cutoff);
    assert forall|j: int| 0 <= j < left.len() implies (#[trigger] left[j]).batch_id
        != envelope.batch_id by {
        assert(store.batches.contains(left[j]));
        let i = choose|i: int| 0 <= i < store.batches.len() && store.batches[i] == left[j];
        assert(is_held(store, now, i));
    }
    crate::control::no_checksum_no_batch(left, envelope.batch_id);
    fitting_buckets_have_no_misfit(body.buckets);
    if crate::control::sequence_taken(left, body.node_id, body.boot_id, body.seq) {
        let j = choose|j: int|
            0 <= j < left.len() && crate::control::has_place(
                #[trigger] left[j],
                body.node_id,
                body.boot_id,
                body.seq,
            );
        assert(store.batches.contains(left[j]));
        let i = choose|i: int| 0 <= i < store.batches.len() && store.batches[i] == left[j];
        assert(is_held(store, now, i) && store.batches[i].node_id == body.node_id);
    } else if exists|i: int|
        is_held(store, now, i) && (#[trigger] store.batches[i]).node_id == body.node_id
            && store.batches[i].boot_id == body.boot_id && store.batches[i].seq == body.seq {
        let i = choose|i: int|
            is_held(store, now, i) && (#[trigger] store.batches[i]).node_id == body.node_id
                && store.batches[i].boot_id == body.boot_id && store.batches[i].seq == body.seq;
        assert(left.contains(store.batches[i]));
        let j = choose|j: int| 0 <= j < left.len() && left[j] == store.batches[i];
        assert(crate::control::has_place(left[j], body.node_id, body.boot_id, body.seq));
    }
}

/// A batch of a boot that no held batch has is taken, whatever its sequence number.
pub proof fn a_new_boot_starts_over(store: StoreModel, envelope: EnvelopeModel, now: u64)
    requires
        store.wf(),
        is_sound(envelope),
        now <= 0x7fff_ffff_ffff_ffff + store.limits.max_age_seconds,
        envelope.body.seq <= 0x7fff_ffff_ffff_ffff,
        envelope.body.created_at <= 0x7fff_ffff_ffff_ffff,
        buckets_fit(envelope.body.buckets),
        forall|i: int|
            0 <= i < store.batches.len() ==> (#[trigger] store.batches[i]).batch_id
                != envelope.batch_id && store.batches[i].boot_id != envelope.body.boot_id,
    ensures
        crate::control::ingested(store, envelope, now) matches Ok((next, status)) && status
            == IngestStatus::Inserted && next.batches.len() > 0 && next.batches.last().batch_id
            == envelope.batch_id,
{
    only_a_taken_place_conflicts(store, envelope, now);
}

/// A new envelope whose numbers do not fit is refused, and the refusal names the number: the
/// sequence number first, then, where the place is free, the time.
pub proof fn numbers_that_do_not_fit_are_named(
    store: StoreModel,
    envelope: EnvelopeModel,
    now: u64,
)
    requires
        store.wf(),
        is_sound(envelope),
        now <= 0x7fff_ffff_ffff_ffff + store.limits.max_age_seconds,
        forall|i: int|
            is_held(store, now, i) ==> (#[trigger] store.batches[i]).batch_id != envelope.batch_id,
    ensures
        ({
            let r = crate::control::ingested(store, envelope, now);
            &&& envelope.body.seq > 0x7fff_ffff_ffff_ffff ==> r == Err::<
                (StoreModel, IngestStatus),
                IngestError,
            >(IngestError::Encoding(EncodingCause::Range(RangeError { field: "batch seq" })))
            &&& envelope.body.seq <= 0x7fff_ffff_ffff_ffff && envelope.body.created_at
                > 0x7fff_ffff_ffff_ffff && r != Err::<(StoreModel, IngestStatus), IngestError>(
                IngestError::Conflict,
            ) ==> r == Err::<(StoreModel, IngestStatus), IngestError>(
                IngestError::Encoding(
                    EncodingCause::Range(RangeError { field: "batch created_at" }),
                ),
            )
        }),
{
    let cutoff = crate::retention::age_cutoff(now, store.limits.max_age_seconds);
    let left = crate::control::unexpired(store.batches, cutoff);
    crate::control::unexpired_facts(store, cutoff);
    assert forall|j: int| 0 <= j < left.len() implies (#[trigger] left[j]).batch_id
        != envelope.batch_id by {
        assert(store.batches.contains(left[j]));
        let i = choose|i: int| 0 <= i < store.batches.len() && store.batches[i] == left[j];
        assert(is_held(store, now, i));
    }
    crate::control::no_checksum_no_batch(left, envelope.batch_id);
}

/// What is inserted is the last batch held, with the identity, checksum, node, boot, sequence
/// number and time of the envelope; before it stand the batches that are young enough, in their
/// order.
pub proof fn an_inserted_batch_is_held(store: StoreModel, envelope: EnvelopeModel, now: u64)
    requires
        crate::control::ingested(store, envelope, now) is Ok,
        crate::control::ingested(store, envelope, now)->Ok_0.1 == IngestStatus::Inserted,
    ensures
        ({
            let next = crate::control::ingested(store, envelope, now)->Ok_0.0;
            let batch = next.batches.last();
            &&& next.limits == store.limits
            &&& next.batches.len() > 0
            &&& next.batches.drop_last() == store.batches.filter(
                |batch: StoredModel| batch.created_at + store.limits.max_age_seconds >= now,
            )
            &&& batch.batch_id == envelope.batch_id
            &&& batch.checksum == envelope.checksum
            &&& batch.node_id == envelope.body.node_id
            &&& batch.boot_id == envelope.body.boot_id
            &&& batch.seq == envelope.body.seq
            &&& batch.created_at == envelope.body.created_at
            &&& batch.flows.len() == envelope.body.buckets.len()
        }),
{
    what_is_left(store, now);
    let cutoff = crate::retention::age_cutoff(now, store.limits.max_age_seconds);
    let left = crate::control::unexpired(store.batches, cutoff);
    let next = crate::control::ingested(store, envelope, now)->Ok_0.0;
    assert(next.batches.drop_last() =~= left);
}

/// What is held of a bucket is the bucket, field by field, with its direction, protocol and
/// addresses in words.
pub proof fn a_held_row_is_its_bucket(
    store: StoreModel,
    envelope: EnvelopeModel,
    now: u64,
    i: int,
)
    requires
        crate::control::ingested(store, envelope, now) is Ok,
        crate::control::ingested(store, envelope, now)->Ok_0.1 == IngestStatus::Inserted,
        0 <= i < envelope.body.buckets.len(),
    ensures
        ({
            let row = crate::control::ingested(
                store,
                envelope,
                now,
            )->Ok_0.0.batches.last().flows[i];
            let bucket = envelope.body.buckets[i];
            &&& row.bucket_start == bucket.bucket_start
            &&& row.capture_point == bucket.key.capture_point
            &&& row.source_ip == crate::addr::ip_text(bucket.key.source_ip)
            &&& row.destination_ip == crate::addr::ip_text(bucket.key.destination_ip)
            &&& row.source_port == bucket.key.source_port
            &&& row.destination_port == bucket.key.destination_port
            &&& row.packets == bucket.packets
            &&& row.bytes == bucket.bytes
            &&& bucket.key.direction == Direction::Ingress ==> row.direction == "ingress"@
            &&& bucket.key.direction == Direction::Egress ==> row.direction == "egress"@
            &&& bucket.key.direction == Direction::Internal ==> row.direction == "internal"@
            &&& bucket.key.direction == Direction::Unknown ==> row.direction == "unknown"@
            &&& bucket.key.protocol == TransportProtocol::Tcp ==> row.protocol == "tcp"@
            &&& bucket.key.protocol == TransportProtocol::Udp ==> row.protocol == "udp"@
            &&& bucket.key.protocol == TransportProtocol::Icmp ==> row.protocol == "icmp"@
            &&& bucket.key.protocol matches TransportProtocol::Other(number) ==> row.protocol
                == crate::control::other_name(number)
        }),
{
}

/// The name of a protocol without a name of its own is its number.
pub proof fn other_protocols_are_named_by_number(number: u8)
    ensures
        crate::control::other_name(number) == "other:"@ + crate::text::decimal(number as nat),
{
}

/// A bucket whose numbers do not fit is named by the first number of it that does not, and of
/// several such buckets the first one counts.
pub proof fn the_first_bucket_that_does_not_fit_is_named(buckets: Seq<FlowBucketModel>, k: int)
    requires
        0 <= k < buckets.len(),
        buckets_fit(buckets.take(k)),
        buckets[k].bucket_start > 0x7fff_ffff_ffff_ffff || buckets[k].packets
            > 0x7fff_ffff_ffff_ffff || buckets[k].bytes > 0x7fff_ffff_ffff_ffff,
    ensures
        crate::control::buckets_misfit(buckets) == Some(
            RangeError {
                field: if buckets[k].bucket_start > 0x7fff_ffff_ffff_ffff {
                    "bucket_start"
                } else if buckets[k].packets > 0x7fff_ffff_ffff_ffff {
                    "bucket packets"
                } else {
                    "bucket bytes"
                },
            },
        ),
    decreases buckets.len(),
{
    let front = buckets.drop_last();
    if k < front.len() {
        assert(front.take(k) =~= buckets.take(k));
        assert(front[k] == buckets[k]);
        the_first_bucket_that_does_not_fit_is_named(front, k);
    } else {
        assert(front =~= buckets.take(k));
        fitting_buckets_have_no_misfit(front);
    }
}

/// A new envelope in a free place whose sequence number and time fit, but whose buckets do not,
/// is refused for the first bucket that does not.
pub proof fn buckets_that_do_not_fit_are_refused(
    store: StoreModel,
    envelope: EnvelopeModel,
    now: u64,
    k: int,
)
    requires
        store.wf(),
        is_sound(envelope),
        now <= 0x7fff_ffff_ffff_ffff + store.limits.max_age_seconds,
        envelope.body.seq <= 0x7fff_ffff_ffff_ffff,
        envelope.body.created_at <= 0x7fff_ffff_ffff_ffff,
        forall|i: int|
            is_held(store, now, i) ==> (#[trigger] store.batches[i]).batch_id != envelope.batch_id
                && !(store.batches[i].node_id == envelope.body.node_id && store.batches[i].boot_id
                == envelope.body.boot_id && store.batches[i].seq == envelope.body.seq),
        0 <= k < envelope.body.buckets.len(),
        buckets_fit(envelope.body.buckets.take(k)),
        envelope.body.buckets[k].bucket_start > 0x7fff_ffff_ffff_ffff
            || envelope.body.buckets[k].packets > 0x7fff_ffff_ffff_ffff
            || envelope.body.buckets[k].bytes > 0x7fff_ffff_ffff_ffff,
    ensures
        crate::control::ingested(store, envelope, now) == Err::<
            (StoreModel, IngestStatus),
            IngestError,
        >(
            IngestError::Encoding(
                EncodingCause::Range(
                    RangeError {
                        field: if envelope.body.buckets[k].bucket_start > 0x7fff_ffff_ffff_ffff {
                            "bucket_start"
                        } else if envelope.body.buckets[k].packets > 0x7fff_ffff_ffff_ffff {
                            "bucket packets"
                        } else {
                            "bucket bytes"
                        },
                    },
                ),
            ),
        ),
{
    the_first_bucket_that_does_not_fit_is_named(envelope.body.buckets, k);
    only_a_taken_place_conflicts(store, envelope, now);
    let cutoff = crate::retention::age_cutoff(now, store.limits.max_age_seconds);
    let left = crate::control::unexpired(store.batches, cutoff);
    crate::control::unexpired_facts(store, cutoff);
    assert forall|j: int| 0 <= j < left.len() implies (#[trigger] left[j]).batch_id
        != envelope.batch_id by {
        assert(store.batches.contains(left[j]));
        let i = choose|i: int| 0 <= i < store.batches.len() && store.batches[i] == left[j];
        assert(is_held(store, now, i));
    }
    crate::control::no_checksum_no_batch(left, envelope.batch_id);
}

/// A time so late that no column can hold the cutoff is refused, for every sound envelope.
pub proof fn a_time_too_late_is_refused(store: StoreModel, envelope: EnvelopeModel, now: u64)
    requires
        is_sound(envelope),
        now > 0x7fff_ffff_ffff_ffff + store.limits.max_age_seconds,
    ensures
        crate::control::ingested(store, envelope, now) == Err::<
            (StoreModel, IngestStatus),
            IngestError,
        >(IngestError::Database(DatabaseError::Range(RangeError { field: "control cutoff" }))),
{
}

/// No two held batches have the same identity, and no two have the same node, boot and sequence
/// number.
pub proof fn held_batches_are_apart(store: StoreModel, i: int, j: int)
    requires
        store.wf(),
        0 <= i < j < store.batches.len(),
    ensures
        store.batches[i].batch_id != store.batches[j].batch_id,
        !(store.batches[i].node_id == store.batches[j].node_id && store.batches[i].boot_id
            == store.batches[j].boot_id && store.batches[i].seq == store.batches[j].seq),
{
    assert(crate::control::batches_apart(store.batches[i], store.batches[j]));
}

/// What is held decides over a sound envelope: the checksum under its identity first, and where
/// the identity is not held, its sequence number, whether its place is taken, its time, and its
/// buckets, in this order.
pub proof fn what_is_held_decides(
    envelope: EnvelopeModel,
    existing: Option<Seq<char>>,
    taken: bool,
)
    ensures
        ({
            let r = crate::control::verdict(envelope, existing, taken);
            let limit: u64 = 0x7fff_ffff_ffff_ffff;
            &&& existing == Some(envelope.checksum) ==> r == Ok::<IngestStatus, IngestError>(
                IngestStatus::Duplicate,
            )
            &&& existing is Some && existing != Some(envelope.checksum) ==> r == Err::<
                IngestStatus,
                IngestError,
            >(IngestError::Conflict)
            &&& existing is None && envelope.body.seq > limit ==> r == Err::<
                IngestStatus,
                IngestError,
            >(IngestError::Encoding(EncodingCause::Range(RangeError { field: "batch seq" })))
            &&& existing is None && envelope.body.seq <= limit && taken ==> r == Err::<
                IngestStatus,
                IngestError,
            >(IngestError::Conflict)
            &&& existing is None && envelope.body.seq <= limit && !taken
                && envelope.body.created_at > limit ==> r == Err::<IngestStatus, IngestError>(
                IngestError::Encoding(
                    EncodingCause::Range(RangeError { field: "batch created_at" }),
                ),
            )
            &&& existing is None && envelope.body.seq <= limit && !taken
                && envelope.body.created_at <= limit ==> (r == Ok::<IngestStatus, IngestError>(
                IngestStatus::Inserted,
            ) <==> buckets_fit(envelope.body.buckets)) && (r is Ok || (r->Err_0 is Encoding
                && r->Err_0->Encoding_0 is Range))
        }),
{
    fitting_buckets_have_no_misfit(envelope.body.buckets);
}

} // verus!
