//! Packets summed up by interval and flow.

use vstd::prelude::*;

use crate::model::{order_keys, FlowBucket, FlowBucketModel, FlowKey, FlowKeyModel};
use crate::packet::{PacketMeta, PacketModel};
use crate::text::Order;

verus! {

/// The start of the interval that `timestamp` falls into.
pub open spec fn interval_of(timestamp: u64, seconds: u64) -> u64 {
    (timestamp as int / seconds as int * seconds as int) as u64
}

/// Entries compare by interval, then by flow.
pub open spec fn entry_order(a: (u64, FlowKeyModel), b: (u64, FlowKeyModel)) -> Order {
    crate::text::refine(
        crate::text::int_order(a.0 as int, b.0 as int),
        crate::model::key_order(a.1, b.1),
    )
}

/// The interval and flow of an entry.
pub open spec fn entry_key(bucket: FlowBucketModel) -> (u64, FlowKeyModel) {
    (bucket.bucket_start, bucket.key)
}

/// Every entry comes before all later ones.
pub open spec fn in_order(flows: Seq<FlowBucketModel>) -> bool {
    forall|i: int, j: int|
        0 <= i < j < flows.len() ==> entry_order(
            #[trigger] entry_key(flows[i]),
            #[trigger] entry_key(flows[j]),
        ) == Order::Less
}

/// `key` is that of entry `i`.
pub open spec fn holds_at(flows: Seq<FlowBucketModel>, i: int, key: (u64, FlowKeyModel)) -> bool {
    0 <= i < flows.len() && entry_key(flows[i]) == key
}

/// The packet and byte counts of a list of entries, by interval and flow.
#[verifier::opaque]
pub open spec fn counts(flows: Seq<FlowBucketModel>) -> Map<(u64, FlowKeyModel), (u64, u64)> {
    Map::new(
        |key: (u64, FlowKeyModel)| exists|i: int| holds_at(flows, i, key),
        |key: (u64, FlowKeyModel)|
            {
                let i = choose|i: int| holds_at(flows, i, key);
                (flows[i].packets, flows[i].bytes)
            },
    )
}

/// One more packet of `wire_bytes` bytes under `key` fits into the counts.
pub open spec fn room_in(
    before: Map<(u64, FlowKeyModel), (u64, u64)>,
    key: (u64, FlowKeyModel),
    wire_bytes: u64,
) -> bool {
    before.contains_key(key) ==> before[key].0 < u64::MAX && before[key].1 + wire_bytes <= u64::MAX
}

/// `before` with one more packet of `wire_bytes` bytes under `key`.
pub open spec fn with_packet(
    before: Map<(u64, FlowKeyModel), (u64, u64)>,
    key: (u64, FlowKeyModel),
    wire_bytes: u64,
) -> Map<(u64, FlowKeyModel), (u64, u64)> {
    let count = if before.contains_key(key) {
        before[key]
    } else {
        (0u64, 0u64)
    };
    before.insert(key, ((count.0 + 1) as u64, (count.1 + wire_bytes) as u64))
}

/// Every interval starts at a multiple of its length, and no count is without a packet.
#[verifier::opaque]
pub open spec fn sound(flows: Map<(u64, FlowKeyModel), (u64, u64)>, seconds: u64) -> bool {
    forall|key: (u64, FlowKeyModel)| #[trigger]
        flows.contains_key(key) ==> key.0 % seconds == 0 && flows[key].0 >= 1
}

/// Counts per interval and flow, not yet handed out.
#[derive(Debug)]
pub struct Aggregator {
    bucket_seconds: u64,
    flows: Vec<FlowBucket>,
}

impl View for Aggregator {
    type V = Map<(u64, FlowKeyModel), (u64, u64)>;

    closed spec fn view(&self) -> Map<(u64, FlowKeyModel), (u64, u64)> {
        counts(crate::model::bucket_models(self.flows@))
    }
}

impl Aggregator {
    /// The length of an interval.
    pub closed spec fn seconds(&self) -> u64 {
        self.bucket_seconds
    }

    /// Intervals are not empty, entries are in order, and counts are sound.
    pub closed spec fn wf(&self) -> bool {
        &&& self.bucket_seconds > 0
        &&& in_order(crate::model::bucket_models(self.flows@))
        &&& sound(self@, self.bucket_seconds)
    }

    /// The counts of an aggregator are sound: every interval starts at a multiple of its length,
    /// and no count is without a packet.
    pub proof fn counts_are_sound(&self, key: (u64, FlowKeyModel))
        requires
            self.wf(),
        ensures
            sound(self@, self.seconds()),
            self@.contains_key(key) ==> key.0 % self.seconds() == 0 && self@[key].0 >= 1,
    {
        reveal(sound);
    }

    /// The interval and flow that a packet counts towards.
    pub open spec fn key_for(&self, packet: PacketModel) -> (u64, FlowKeyModel) {
        (interval_of(packet.timestamp, self.seconds()), packet.key)
    }

    /// One more packet fits into the counts of its interval and flow.
    pub open spec fn has_room(&self, packet: PacketModel) -> bool {
        room_in(self@, self.key_for(packet), packet.wire_bytes)
    }

    /// An aggregator without counts.
    pub fn new(bucket_seconds: u64) -> (r: Self)
        requires
            bucket_seconds > 0,
        ensures
            r.wf(),
            r.seconds() == bucket_seconds,
            r@ == Map::<(u64, FlowKeyModel), (u64, u64)>::empty(),
    {
        let r = Aggregator { bucket_seconds, flows: Vec::new() };
        proof {
            reveal(counts);
            reveal(sound);
        }
        assert(r@ =~= Map::<(u64, FlowKeyModel), (u64, u64)>::empty());
        r
    }

    /// The first entry that does not come before the given interval and flow.
    fn lower_bound(&self, bucket_start: u64, key: &FlowKey) -> (r: usize)
        requires
            self.wf(),
        ensures
            r <= self.flows@.len(),
            forall|i: int|
                0 <= i < r ==> entry_order(
                    #[trigger] entry_key(self.flows@[i]@),
                    (bucket_start, key@),
                ) == Order::Less,
            forall|i: int|
                r <= i < self.flows@.len() ==> entry_order(
                    #[trigger] entry_key(self.flows@[i]@),
                    (bucket_start, key@),
                ) != Order::Less,
    {
        let ghost target = (bucket_start, key@);
        let ghost flows = crate::model::bucket_models(self.flows@);
        let mut low: usize = 0;
        let mut high: usize = self.flows.len();
        while low < high
            invariant
                self.wf(),
                target == (bucket_start, key@),
                flows == crate::model::bucket_models(self.flows@),
                low <= high <= self.flows@.len(),
                forall|i: int|
                    0 <= i < low ==> entry_order(#[trigger] entry_key(self.flows@[i]@), target)
                        == Order::Less,
                forall|i: int|
                    high <= i < self.flows@.len() ==> entry_order(
                        #[trigger] entry_key(self.flows@[i]@),
                        target,
                    ) != Order::Less,
            decreases high - low,
        {
            let middle: usize = low + (high - low) / 2;
            let order = order_entry(&self.flows[middle], bucket_start, key);
            if order == Order::Less {
                assert forall|i: int| 0 <= i < middle + 1 implies entry_order(
                    #[trigger] entry_key(self.flows@[i]@),
                    target,
                ) == Order::Less by {
                    if i < middle {
                        assert(entry_order(entry_key(flows[i]), entry_key(flows[middle as int]))
                            == Order::Less);
                        entry_order_is_transitive(
                            entry_key(flows[i]),
                            entry_key(flows[middle as int]),
                            target,
                        );
                    }
                }
                low = middle + 1;
            } else {
                assert forall|i: int| middle <= i < self.flows@.len() implies entry_order(
                    #[trigger] entry_key(self.flows@[i]@),
                    target,
                ) != Order::Less by {
                    if i > middle {
                        assert(entry_order(entry_key(flows[middle as int]), entry_key(flows[i]))
                            == Order::Less);
                        if entry_order(entry_key(flows[i]), target) == Order::Less {
                            entry_order_is_transitive(
                                entry_key(flows[middle as int]),
                                entry_key(flows[i]),
                                target,
                            );
                        }
                    }
                }
                high = middle;
            }
        }
        low
    }

    /// Whether one more packet fits into the counts of its interval and flow.
    pub fn can_push(&self, packet: &PacketMeta) -> (r: bool)
        requires
            self.wf(),
        ensures
            r == self.has_room(packet@),
    {
        let start = interval_start(packet.timestamp, self.bucket_seconds);
        let at = self.lower_bound(start, &packet.key);
        let ghost flows = crate::model::bucket_models(self.flows@);
        let ghost key = (start, packet.key@);
        if at < self.flows.len() && order_entry(&self.flows[at], start, &packet.key)
            == Order::Same {
            proof {
                entry_order_is_total(entry_key(flows[at as int]), key);
                counts_at(flows, at as int);
            }
            self.flows[at].packets < u64::MAX && self.flows[at].bytes <= u64::MAX
                - packet.wire_bytes
        } else {
            proof {
                absent_between(flows, at as int, key);
            }
            true
        }
    }

    /// Counts a packet towards its interval and flow.
    pub fn push(&mut self, packet: PacketMeta)
        requires
            old(self).wf(),
            old(self).has_room(packet@),
        ensures
            final(self).wf(),
            final(self).seconds() == old(self).seconds(),
            final(self)@ == with_packet(old(self)@, old(self).key_for(packet@), packet.wire_bytes),
            forall|start: u64, key: FlowKeyModel| #[trigger]
                final(self)@.contains_key((start, key)) <==> old(self)@.contains_key((start, key))
                    || (start % old(self).seconds() == 0 && start <= packet.timestamp < start
                    + old(self).seconds() && key == packet.key@),
            forall|start: u64, key: FlowKeyModel|
                final(self)@.contains_key((start, key)) && !(start % old(self).seconds() == 0
                    && start <= packet.timestamp < start + old(self).seconds() && key
                    == packet.key@) ==> #[trigger] final(self)@[(start, key)] == old(
                    self,
                )@[(start, key)],
            forall|start: u64|
                start % old(self).seconds() == 0 && start <= packet.timestamp < start + old(
                    self,
                ).seconds() ==> {
                    let before = if old(self)@.contains_key((start, packet.key@)) {
                        old(self)@[(start, packet.key@)]
                    } else {
                        (0u64, 0u64)
                    };
                    let after = #[trigger] final(self)@[(start, packet.key@)];
                    &&& after.0 == before.0 + 1
                    &&& after.1 == before.1 + packet.wire_bytes
                },
    {
        proof {
            crate::counting::only_the_own_count_changes(
                self@,
                self.bucket_seconds,
                packet.timestamp,
                packet.key@,
                packet.wire_bytes,
            );
        }
        let start = interval_start(packet.timestamp, self.bucket_seconds);
        let at = self.lower_bound(start, &packet.key);
        let ghost flows = crate::model::bucket_models(self.flows@);
        let ghost key = (start, packet.key@);
        if at < self.flows.len() && order_entry(&self.flows[at], start, &packet.key)
            == Order::Same {
            proof {
                entry_order_is_total(entry_key(flows[at as int]), key);
                counts_at(flows, at as int);
            }
            self.flows[at].packets = self.flows[at].packets + 1;
            self.flows[at].bytes = self.flows[at].bytes + packet.wire_bytes;
            proof {
                let after = crate::model::bucket_models(self.flows@);
                assert(after =~= flows.update(at as int, after[at as int]));
                counts_after_update(flows, at as int, after[at as int]);
                sound_with_packet(counts(flows), key, packet.wire_bytes, self.bucket_seconds);
            }
        } else {
            let bucket = FlowBucket {
                bucket_start: start,
                key: packet.key,
                packets: 1,
                bytes: packet.wire_bytes,
            };
            let ghost model = bucket@;
            proof {
                absent_between(flows, at as int, key);
            }
            self.flows.insert(at, bucket);
            proof {
                let after = crate::model::bucket_models(self.flows@);
                assert(after =~= flows.insert(at as int, model));
                order_after_insert(flows, at as int, model);
                counts_after_insert(flows, at as int, model);
                sound_with_packet(counts(flows), key, model.bytes, self.bucket_seconds);
            }
        }
    }

    /// Hands out the counts of every interval that starts before `bucket_start`, in order.
    pub fn drain_before(&mut self, bucket_start: u64) -> (r: Vec<FlowBucket>)
        requires
            old(self).wf(),
        ensures
            final(self).wf(),
            final(self).seconds() == old(self).seconds(),
            in_order(crate::model::bucket_models(r@)),
            sound(counts(crate::model::bucket_models(r@)), old(self).seconds()),
            counts(crate::model::bucket_models(r@)) == old(self)@.restrict(
                Set::new(|key: (u64, FlowKeyModel)| key.0 < bucket_start),
            ),
            final(self)@ == old(self)@.restrict(
                Set::new(|key: (u64, FlowKeyModel)| key.0 >= bucket_start),
            ),
    {
        let ghost flows = crate::model::bucket_models(self.flows@);
        let mut at: usize = 0;
        while at < self.flows.len() && self.flows[at].bucket_start < bucket_start
            invariant
                self.wf(),
                *self == *old(self),
                at <= self.flows@.len(),
                forall|i: int|
                    0 <= i < at ==> (#[trigger] self.flows@[i]).bucket_start < bucket_start,
            decreases self.flows@.len() - at,
        {
            at = at + 1;
        }
        proof {
            assert forall|i: int| at <= i < flows.len() implies (#[trigger] flows[i]).bucket_start
                >= bucket_start by {
                if i > at {
                    assert(entry_order(entry_key(flows[at as int]), entry_key(flows[i]))
                        == Order::Less);
                }
            }
            counts_of_parts(flows, at as int);
        }
        let mut rest = self.flows.split_off(at);
        std::mem::swap(&mut self.flows, &mut rest);
        proof {
            let drained = crate::model::bucket_models(rest@);
            let kept = crate::model::bucket_models(self.flows@);
            assert(drained =~= flows.take(at as int));
            assert(kept =~= flows.skip(at as int));
            assert(counts(drained) =~= old(self)@.restrict(
                Set::new(|key: (u64, FlowKeyModel)| key.0 < bucket_start),
            ));
            assert(counts(kept) =~= old(self)@.restrict(
                Set::new(|key: (u64, FlowKeyModel)| key.0 >= bucket_start),
            ));
            reveal(sound);
        }
        rest
    }

    /// Hands out all counts, in order.
    pub fn drain_all(&mut self) -> (r: Vec<FlowBucket>)
        requires
            old(self).wf(),
        ensures
            final(self).wf(),
            final(self).seconds() == old(self).seconds(),
            in_order(crate::model::bucket_models(r@)),
            sound(counts(crate::model::bucket_models(r@)), old(self).seconds()),
            counts(crate::model::bucket_models(r@)) == old(self)@,
            final(self)@ == Map::<(u64, FlowKeyModel), (u64, u64)>::empty(),
    {
        let mut drained: Vec<FlowBucket> = Vec::new();
        std::mem::swap(&mut self.flows, &mut drained);
        proof {
            reveal(counts);
            reveal(sound);
        }
        assert(self@ =~= Map::<(u64, FlowKeyModel), (u64, u64)>::empty());
        drained
    }
}

/// The order of an entry and the given interval and flow.
fn order_entry(entry: &FlowBucket, bucket_start: u64, key: &FlowKey) -> (r: Order)
    ensures
        r == entry_order(entry_key(entry@), (bucket_start, key@)),
{
    if entry.bucket_start < bucket_start {
        Order::Less
    } else if entry.bucket_start > bucket_start {
        Order::Greater
    } else {
        order_keys(&entry.key, key)
    }
}

/// The start of the interval that `timestamp` falls into.
pub fn interval_start(timestamp: u64, seconds: u64) -> (r: u64)
    requires
        seconds > 0,
    ensures
        r == interval_of(timestamp, seconds),
        r <= timestamp < r + seconds,
        r % seconds == 0,
{
    proof {
        vstd::arithmetic::div_mod::lemma_fundamental_div_mod(timestamp as int, seconds as int);
        vstd::arithmetic::mul::lemma_mul_is_commutative(
            seconds as int,
            timestamp as int / seconds as int,
        );
        vstd::arithmetic::div_mod::lemma_mod_multiples_basic(
            timestamp as int / seconds as int,
            seconds as int,
        );
        assert(0 <= timestamp as int / seconds as int * seconds as int <= timestamp);
    }
    timestamp / seconds * seconds
}

/// The keys of the counts are the keys of the entries.
pub(crate) proof fn counted_keys(flows: Seq<FlowBucketModel>, key: (u64, FlowKeyModel))
    ensures
        counts(flows).contains_key(key) <==> exists|i: int| holds_at(flows, i, key),
{
    reveal(counts);
}

/// In an ordered list each entry's counts are found under its interval and flow.
pub(crate) proof fn counts_at(flows: Seq<FlowBucketModel>, i: int)
    requires
        in_order(flows),
        0 <= i < flows.len(),
    ensures
        counts(flows).contains_key(entry_key(flows[i])),
        counts(flows)[entry_key(flows[i])] == (flows[i].packets, flows[i].bytes),
{
    reveal(counts);
    let key = entry_key(flows[i]);
    assert(holds_at(flows, i, key));
    let found = choose|j: int| holds_at(flows, j, key);
    assert(holds_at(flows, found, key));
    entry_order_is_total(key, key);
    if found < i {
        assert(entry_order(entry_key(flows[found]), entry_key(flows[i])) == Order::Less);
    }
    if i < found {
        assert(entry_order(entry_key(flows[i]), entry_key(flows[found])) == Order::Less);
    }
}

/// A key that falls between two neighbours is that of no entry.
proof fn absent_between(flows: Seq<FlowBucketModel>, at: int, key: (u64, FlowKeyModel))
    requires
        in_order(flows),
        0 <= at <= flows.len(),
        forall|i: int|
            0 <= i < at ==> entry_order(#[trigger] entry_key(flows[i]), key) == Order::Less,
        at < flows.len() ==> entry_order(entry_key(flows[at]), key) == Order::Greater,
    ensures
        !counts(flows).contains_key(key),
        forall|i: int|
            at <= i < flows.len() ==> entry_order(key, #[trigger] entry_key(flows[i]))
                == Order::Less,
{
    entry_order_is_total(key, key);
    assert forall|i: int| at <= i < flows.len() implies entry_order(
        key,
        #[trigger] entry_key(flows[i]),
    ) == Order::Less by {
        entry_order_is_total(key, entry_key(flows[at]));
        if i > at {
            assert(entry_order(entry_key(flows[at]), entry_key(flows[i])) == Order::Less);
            entry_order_is_transitive(key, entry_key(flows[at]), entry_key(flows[i]));
        }
    }
    counted_keys(flows, key);
    assert forall|i: int| !holds_at(flows, i, key) by {
        if 0 <= i < at {
            assert(entry_order(entry_key(flows[i]), key) == Order::Less);
        } else if at <= i < flows.len() {
            assert(entry_order(key, entry_key(flows[i])) == Order::Less);
        }
    }
}

/// Replacing the counts of one entry replaces what is found under its interval and flow.
proof fn counts_after_update(flows: Seq<FlowBucketModel>, at: int, entry: FlowBucketModel)
    requires
        in_order(flows),
        0 <= at < flows.len(),
        entry_key(entry) == entry_key(flows[at]),
    ensures
        in_order(flows.update(at, entry)),
        counts(flows.update(at, entry)) == counts(flows).insert(
            entry_key(entry),
            (entry.packets, entry.bytes),
        ),
{
    let after = flows.update(at, entry);
    let expected = counts(flows).insert(entry_key(entry), (entry.packets, entry.bytes));
    assert forall|i: int, j: int| 0 <= i < j < after.len() implies entry_order(
        #[trigger] entry_key(after[i]),
        #[trigger] entry_key(after[j]),
    ) == Order::Less by {
        assert(entry_order(entry_key(flows[i]), entry_key(flows[j])) == Order::Less);
    }
    let found = counts(after);
    assert forall|key: (u64, FlowKeyModel)|
        #![trigger found.contains_key(key)]
        #![trigger expected.contains_key(key)]
        found.contains_key(key) == expected.contains_key(key) && (found.contains_key(key)
            ==> found[key] == expected[key]) by {
        counted_keys(after, key);
        counted_keys(flows, key);
        if counts(after).contains_key(key) {
            let i = choose|i: int| holds_at(after, i, key);
            counts_at(after, i);
            counts_at(flows, i);
            if i != at {
                entry_order_is_total(entry_key(flows[i]), entry_key(flows[at]));
                entry_order_is_total(entry_key(flows[at]), entry_key(flows[i]));
                if i < at {
                    assert(entry_order(entry_key(flows[i]), entry_key(flows[at])) == Order::Less);
                } else {
                    assert(entry_order(entry_key(flows[at]), entry_key(flows[i])) == Order::Less);
                }
            }
        }
        if expected.contains_key(key) {
            if key == entry_key(entry) {
                assert(holds_at(after, at, key));
            } else {
                let i = choose|i: int| holds_at(flows, i, key);
                assert(holds_at(after, i, key));
            }
        }
    }
    assert(found =~= expected);
}

/// Inserting an entry between its neighbours keeps the order.
proof fn order_after_insert(flows: Seq<FlowBucketModel>, at: int, entry: FlowBucketModel)
    requires
        in_order(flows),
        0 <= at <= flows.len(),
        forall|i: int|
            0 <= i < at ==> entry_order(#[trigger] entry_key(flows[i]), entry_key(entry))
                == Order::Less,
        forall|i: int|
            at <= i < flows.len() ==> entry_order(entry_key(entry), #[trigger] entry_key(flows[i]))
                == Order::Less,
    ensures
        in_order(flows.insert(at, entry)),
{
    let after = flows.insert(at, entry);
    assert forall|i: int, j: int| 0 <= i < j < after.len() implies entry_order(
        #[trigger] entry_key(after[i]),
        #[trigger] entry_key(after[j]),
    ) == Order::Less by {
        let before_i = if i < at { i } else { i - 1 };
        let before_j = if j < at { j } else { j - 1 };
        if i != at && j != at {
            assert(entry_order(entry_key(flows[before_i]), entry_key(flows[before_j]))
                == Order::Less);
        } else if i == at {
            assert(entry_order(entry_key(entry), entry_key(flows[before_j])) == Order::Less);
        } else {
            assert(entry_order(entry_key(flows[before_i]), entry_key(entry)) == Order::Less);
        }
    }
}

/// Inserting an entry between its neighbours adds its counts.
proof fn counts_after_insert(flows: Seq<FlowBucketModel>, at: int, entry: FlowBucketModel)
    requires
        in_order(flows),
        in_order(flows.insert(at, entry)),
        0 <= at <= flows.len(),
        !counts(flows).contains_key(entry_key(entry)),
    ensures
        counts(flows.insert(at, entry)) == counts(flows).insert(
            entry_key(entry),
            (entry.packets, entry.bytes),
        ),
{
    let after = flows.insert(at, entry);
    let expected = counts(flows).insert(entry_key(entry), (entry.packets, entry.bytes));
    let found = counts(after);
    assert forall|key: (u64, FlowKeyModel)|
        #![trigger found.contains_key(key)]
        #![trigger expected.contains_key(key)]
        found.contains_key(key) == expected.contains_key(key) && (found.contains_key(key)
            ==> found[key] == expected[key]) by {
        found_after_insert(flows, at, entry, key);
    }
    assert(found =~= expected);
}

/// What is found under a key once an entry was inserted.
proof fn found_after_insert(
    flows: Seq<FlowBucketModel>,
    at: int,
    entry: FlowBucketModel,
    key: (u64, FlowKeyModel),
)
    requires
        in_order(flows),
        in_order(flows.insert(at, entry)),
        0 <= at <= flows.len(),
        !counts(flows).contains_key(entry_key(entry)),
    ensures
        ({
            let found = counts(flows.insert(at, entry));
            &&& found.contains_key(key) <==> key == entry_key(entry) || counts(flows).contains_key(
                key,
            )
            &&& found.contains_key(key) ==> found[key] == if key == entry_key(entry) {
                (entry.packets, entry.bytes)
            } else {
                counts(flows)[key]
            }
        }),
{
    let after = flows.insert(at, entry);
    counted_keys(after, key);
    counted_keys(flows, key);
    if counts(after).contains_key(key) {
        let i = choose|i: int| holds_at(after, i, key);
        counts_at(after, i);
        if i != at {
            let before = if i < at { i } else { i - 1 };
            assert(after[i] == flows[before]);
            assert(holds_at(flows, before, key));
            counts_at(flows, before);
        }
    }
    if key == entry_key(entry) {
        assert(holds_at(after, at, key));
    } else if counts(flows).contains_key(key) {
        let i = choose|i: int| holds_at(flows, i, key);
        assert(holds_at(after, if i < at { i } else { i + 1 }, key));
    }
}

/// Cutting an ordered list in two shares its counts out between the parts.
proof fn counts_of_parts(flows: Seq<FlowBucketModel>, at: int)
    requires
        in_order(flows),
        0 <= at <= flows.len(),
    ensures
        in_order(flows.take(at)),
        in_order(flows.skip(at)),
        forall|key: (u64, FlowKeyModel)| #[trigger]
            counts(flows.take(at)).contains_key(key) ==> counts(flows).contains_key(key)
                && counts(flows.take(at))[key] == counts(flows)[key] && exists|i: int|
                0 <= i < at && holds_at(flows, i, key),
        forall|key: (u64, FlowKeyModel)| #[trigger]
            counts(flows.skip(at)).contains_key(key) ==> counts(flows).contains_key(key)
                && counts(flows.skip(at))[key] == counts(flows)[key] && exists|i: int|
                at <= i < flows.len() && holds_at(flows, i, key),
        forall|key: (u64, FlowKeyModel)| #[trigger]
            counts(flows).contains_key(key) ==> counts(flows.take(at)).contains_key(key)
                || counts(flows.skip(at)).contains_key(key),
{
    let head = flows.take(at);
    let tail = flows.skip(at);
    assert forall|i: int, j: int| 0 <= i < j < head.len() implies entry_order(
        #[trigger] entry_key(head[i]),
        #[trigger] entry_key(head[j]),
    ) == Order::Less by {
        assert(entry_order(entry_key(flows[i]), entry_key(flows[j])) == Order::Less);
    }
    assert forall|i: int, j: int| 0 <= i < j < tail.len() implies entry_order(
        #[trigger] entry_key(tail[i]),
        #[trigger] entry_key(tail[j]),
    ) == Order::Less by {
        assert(entry_order(entry_key(flows[at + i]), entry_key(flows[at + j])) == Order::Less);
    }
    assert forall|key: (u64, FlowKeyModel)| #[trigger]
        counts(head).contains_key(key) implies counts(flows).contains_key(key)
        && counts(head)[key] == counts(flows)[key] && exists|i: int|
        0 <= i < at && holds_at(flows, i, key) by {
        counted_keys(head, key);
        let i = choose|i: int| holds_at(head, i, key);
        counts_at(head, i);
        counts_at(flows, i);
        assert(holds_at(flows, i, key));
    }
    assert forall|key: (u64, FlowKeyModel)| #[trigger]
        counts(tail).contains_key(key) implies counts(flows).contains_key(key)
        && counts(tail)[key] == counts(flows)[key] && exists|i: int|
        at <= i < flows.len() && holds_at(flows, i, key) by {
        counted_keys(tail, key);
        let i = choose|i: int| holds_at(tail, i, key);
        counts_at(tail, i);
        counts_at(flows, at + i);
        assert(holds_at(flows, at + i, key));
    }
    assert forall|key: (u64, FlowKeyModel)| #[trigger] counts(flows).contains_key(key) implies counts(
        head,
    ).contains_key(key) || counts(tail).contains_key(key) by {
        counted_keys(flows, key);
        counted_keys(head, key);
        counted_keys(tail, key);
        let i = choose|i: int| holds_at(flows, i, key);
        if i < at {
            assert(holds_at(head, i, key));
        } else {
            assert(holds_at(tail, i - at, key));
        }
    }
}

/// Entries that compare the same have one interval and flow, and reversing the operands
/// reverses the order.
pub proof fn entry_order_is_total(a: (u64, FlowKeyModel), b: (u64, FlowKeyModel))
    ensures
        entry_order(a, b) == Order::Same <==> a == b,
        entry_order(a, b) == Order::Less <==> entry_order(b, a) == Order::Greater,
{
    crate::model::key_order_is_total(a.1, b.1);
    crate::model::key_order_is_total(b.1, a.1);
}

/// The order of entries is transitive.
pub proof fn entry_order_is_transitive(
    a: (u64, FlowKeyModel),
    b: (u64, FlowKeyModel),
    c: (u64, FlowKeyModel),
)
    requires
        entry_order(a, b) == Order::Less,
        entry_order(b, c) == Order::Less,
    ensures
        entry_order(a, c) == Order::Less,
{
    if a.0 == b.0 && b.0 == c.0 {
        crate::model::key_order_is_transitive(a.1, b.1, c.1);
    }
}

/// What is handed out and what is kept make up all counts, and share none.
pub proof fn draining_loses_nothing(
    all: Map<(u64, FlowKeyModel), (u64, u64)>,
    bucket_start: u64,
)
    ensures
        ({
            let drained = all.restrict(
                Set::new(|key: (u64, FlowKeyModel)| key.0 < bucket_start),
            );
            let kept = all.restrict(Set::new(|key: (u64, FlowKeyModel)| key.0 >= bucket_start));
            drained.dom().disjoint(kept.dom()) && drained.union_prefer_right(kept) == all
        }),
{
    let drained = all.restrict(Set::new(|key: (u64, FlowKeyModel)| key.0 < bucket_start));
    let kept = all.restrict(Set::new(|key: (u64, FlowKeyModel)| key.0 >= bucket_start));
    assert(drained.union_prefer_right(kept) =~= all);
}

/// The counts do not depend on the order in which two packets arrive.
pub proof fn packets_commute(
    before: Map<(u64, FlowKeyModel), (u64, u64)>,
    first: (u64, FlowKeyModel),
    first_bytes: u64,
    second: (u64, FlowKeyModel),
    second_bytes: u64,
)
    requires
        room_in(before, first, first_bytes),
        room_in(with_packet(before, first, first_bytes), second, second_bytes),
    ensures
        room_in(before, second, second_bytes),
        room_in(with_packet(before, second, second_bytes), first, first_bytes),
        with_packet(with_packet(before, first, first_bytes), second, second_bytes) == with_packet(
            with_packet(before, second, second_bytes),
            first,
            first_bytes,
        ),
{
    assert(with_packet(with_packet(before, first, first_bytes), second, second_bytes)
        =~= with_packet(with_packet(before, second, second_bytes), first, first_bytes));
}

/// Without entries there are no counts.
pub(crate) proof fn no_entries_no_counts(flows: Seq<FlowBucketModel>)
    requires
        flows.len() == 0,
    ensures
        counts(flows) == Map::<(u64, FlowKeyModel), (u64, u64)>::empty(),
{
    reveal(counts);
    assert(counts(flows) =~= Map::<(u64, FlowKeyModel), (u64, u64)>::empty());
}

/// Where there are entries there are counts.
pub(crate) proof fn entries_have_counts(flows: Seq<FlowBucketModel>)
    requires
        flows.len() > 0,
    ensures
        counts(flows) != Map::<(u64, FlowKeyModel), (u64, u64)>::empty(),
{
    reveal(counts);
    assert(holds_at(flows, 0, entry_key(flows[0])));
    assert(counts(flows).contains_key(entry_key(flows[0])));
}

/// An entry of one list is an entry of another with the same counts.
proof fn shared_entry(a: Seq<FlowBucketModel>, b: Seq<FlowBucketModel>, i: int)
    requires
        in_order(a),
        in_order(b),
        counts(a) == counts(b),
        0 <= i < a.len(),
    ensures
        b.contains(a[i]),
{
    let key = entry_key(a[i]);
    counts_at(a, i);
    counted_keys(b, key);
    let j = choose|j: int| holds_at(b, j, key);
    counts_at(b, j);
    assert(b[j] == a[i]);
}

/// Lists in order with the same items are the same.
proof fn same_items<A>(a: Seq<A>, b: Seq<A>, before: spec_fn(A, A) -> bool)
    requires
        forall|x: A, y: A| #[trigger] before(x, y) ==> !before(y, x),
        forall|i: int, j: int| 0 <= i < j < a.len() ==> before(a[i], a[j]),
        forall|i: int, j: int| 0 <= i < j < b.len() ==> before(b[i], b[j]),
        forall|i: int| 0 <= i < a.len() ==> b.contains(#[trigger] a[i]),
        forall|i: int| 0 <= i < b.len() ==> a.contains(#[trigger] b[i]),
    ensures
        a == b,
    decreases a.len(),
{
    if a.len() == 0 {
        if b.len() > 0 {
            assert(a.contains(b[0]));
        }
        assert(a =~= b);
    } else {
        let n = a.len() - 1;
        assert(b.contains(a[n]));
        let m = b.len() - 1;
        assert(a.contains(b[m]));
        assert(a[n] == b[m]) by {
            let x = choose|x: int| 0 <= x < b.len() && b[x] == a[n];
            let y = choose|y: int| 0 <= y < a.len() && a[y] == b[m];
            if x < m && y < n {
                assert(before(b[x], b[m]));
                assert(before(a[y], a[n]));
            }
        }
        let c = a.drop_last();
        let d = b.drop_last();
        assert forall|i: int| 0 <= i < c.len() implies d.contains(#[trigger] c[i]) by {
            assert(b.contains(a[i]));
            let j = choose|j: int| 0 <= j < b.len() && b[j] == a[i];
            assert(before(a[i], a[n]));
            assert(d[j] == c[i]);
        }
        assert forall|i: int| 0 <= i < d.len() implies c.contains(#[trigger] d[i]) by {
            assert(a.contains(b[i]));
            let j = choose|j: int| 0 <= j < a.len() && a[j] == b[i];
            assert(before(b[i], b[m]));
            assert(c[j] == d[i]);
        }
        same_items(c, d, before);
        assert(a =~= c.push(a[n]));
        assert(b =~= d.push(b[m]));
    }
}

/// Counts tell the entries: two lists in order with the same counts are the same.
pub proof fn counts_tell_the_entries(a: Seq<FlowBucketModel>, b: Seq<FlowBucketModel>)
    requires
        in_order(a),
        in_order(b),
        counts(a) == counts(b),
    ensures
        a == b,
{
    assert forall|i: int| 0 <= i < a.len() implies b.contains(#[trigger] a[i]) by {
        shared_entry(a, b, i);
    }
    assert forall|i: int| 0 <= i < b.len() implies a.contains(#[trigger] b[i]) by {
        shared_entry(b, a, i);
    }
    let before = |x: FlowBucketModel, y: FlowBucketModel|
        entry_order(entry_key(x), entry_key(y)) == Order::Less;
    assert forall|x: FlowBucketModel, y: FlowBucketModel| #[trigger] before(x, y) implies !before(
        y,
        x,
    ) by {
        entry_order_is_total(entry_key(x), entry_key(y));
    }
    same_items(a, b, before);
}

/// Entries with sound counts are sound: each starts at a multiple of the interval and has a
/// packet.
pub proof fn entries_are_sound(flows: Seq<FlowBucketModel>, seconds: u64, i: int)
    requires
        in_order(flows),
        sound(counts(flows), seconds),
        0 <= i < flows.len(),
    ensures
        flows[i].bucket_start % seconds == 0,
        flows[i].packets >= 1,
{
    reveal(sound);
    counts_at(flows, i);
}

/// Sound counts stay sound with one packet more.
proof fn sound_with_packet(
    before: Map<(u64, FlowKeyModel), (u64, u64)>,
    key: (u64, FlowKeyModel),
    wire_bytes: u64,
    seconds: u64,
)
    requires
        sound(before, seconds),
        room_in(before, key, wire_bytes),
        key.0 % seconds == 0,
    ensures
        sound(with_packet(before, key, wire_bytes), seconds),
{
    reveal(sound);
}

/// The packets of all entries.
pub open spec fn list_packets(flows: Seq<FlowBucketModel>) -> nat
    decreases flows.len(),
{
    if flows.len() == 0 {
        0
    } else {
        list_packets(flows.drop_last()) + flows.last().packets as nat
    }
}

/// The bytes of all entries.
pub open spec fn list_bytes(flows: Seq<FlowBucketModel>) -> nat
    decreases flows.len(),
{
    if flows.len() == 0 {
        0
    } else {
        list_bytes(flows.drop_last()) + flows.last().bytes as nat
    }
}

/// The sums over a list in two parts.
pub(crate) proof fn sums_of_lists(a: Seq<FlowBucketModel>, b: Seq<FlowBucketModel>)
    ensures
        list_packets(a + b) == list_packets(a) + list_packets(b),
        list_bytes(a + b) == list_bytes(a) + list_bytes(b),
    decreases b.len(),
{
    if b.len() == 0 {
        assert(a + b =~= a);
    } else {
        assert((a + b).drop_last() =~= a + b.drop_last());
        sums_of_lists(a, b.drop_last());
    }
}

/// Where a key belongs in a list in order.
proof fn position(flows: Seq<FlowBucketModel>, key: (u64, FlowKeyModel)) -> (at: int)
    requires
        in_order(flows),
    ensures
        0 <= at <= flows.len(),
        forall|i: int|
            0 <= i < at ==> entry_order(#[trigger] entry_key(flows[i]), key) == Order::Less,
        at < flows.len() ==> entry_order(entry_key(flows[at]), key) != Order::Less,
    decreases flows.len(),
{
    if flows.len() == 0 {
        0
    } else if entry_order(entry_key(flows.last()), key) == Order::Less {
        let last = flows.len() - 1;
        assert forall|i: int| 0 <= i < flows.len() implies entry_order(
            #[trigger] entry_key(flows[i]),
            key,
        ) == Order::Less by {
            if i < last {
                assert(entry_order(entry_key(flows[i]), entry_key(flows[last])) == Order::Less);
                entry_order_is_transitive(entry_key(flows[i]), entry_key(flows[last]), key);
            }
        }
        flows.len() as int
    } else {
        let before = flows.drop_last();
        assert forall|i: int, j: int| 0 <= i < j < before.len() implies entry_order(
            #[trigger] entry_key(before[i]),
            #[trigger] entry_key(before[j]),
        ) == Order::Less by {
            assert(entry_order(entry_key(flows[i]), entry_key(flows[j])) == Order::Less);
        }
        let at = position(before, key);
        assert forall|i: int| 0 <= i < at implies entry_order(#[trigger] entry_key(flows[i]), key)
            == Order::Less by {
            assert(entry_order(entry_key(before[i]), key) == Order::Less);
        }
        at
    }
}

/// The sums over a list with an entry replaced.
proof fn sums_of_update(flows: Seq<FlowBucketModel>, at: int, entry: FlowBucketModel)
    requires
        0 <= at < flows.len(),
    ensures
        list_packets(flows.update(at, entry)) + flows[at].packets == list_packets(flows)
            + entry.packets,
        list_bytes(flows.update(at, entry)) + flows[at].bytes == list_bytes(flows) + entry.bytes,
    decreases flows.len(),
{
    let after = flows.update(at, entry);
    if at == flows.len() - 1 {
        assert(after.drop_last() =~= flows.drop_last());
    } else {
        assert(after.drop_last() =~= flows.drop_last().update(at, entry));
        sums_of_update(flows.drop_last(), at, entry);
    }
}

/// The sums over a list with an entry inserted.
proof fn sums_of_insert(flows: Seq<FlowBucketModel>, at: int, entry: FlowBucketModel)
    requires
        0 <= at <= flows.len(),
    ensures
        list_packets(flows.insert(at, entry)) == list_packets(flows) + entry.packets,
        list_bytes(flows.insert(at, entry)) == list_bytes(flows) + entry.bytes,
    decreases flows.len(),
{
    let after = flows.insert(at, entry);
    if at == flows.len() {
        assert(after.drop_last() =~= flows);
    } else {
        assert(after.last() == flows.last());
        assert(after.drop_last() =~= flows.drop_last().insert(at, entry));
        sums_of_insert(flows.drop_last(), at, entry);
    }
}

/// A list with one packet more in an entry that it has.
proof fn list_with_more(
    flows: Seq<FlowBucketModel>,
    at: int,
    key: (u64, FlowKeyModel),
    wire_bytes: u64,
) -> (after: Seq<FlowBucketModel>)
    requires
        in_order(flows),
        0 <= at < flows.len(),
        entry_key(flows[at]) == key,
        room_in(counts(flows), key, wire_bytes),
    ensures
        in_order(after),
        counts(after) == with_packet(counts(flows), key, wire_bytes),
        list_packets(after) == list_packets(flows) + 1,
        list_bytes(after) == list_bytes(flows) + wire_bytes,
{
    counts_at(flows, at);
    let entry = FlowBucketModel {
        packets: (flows[at].packets + 1) as u64,
        bytes: (flows[at].bytes + wire_bytes) as u64,
        ..flows[at]
    };
    counts_after_update(flows, at, entry);
    sums_of_update(flows, at, entry);
    flows.update(at, entry)
}

/// A list with the first packet of an entry.
proof fn list_with_new(
    flows: Seq<FlowBucketModel>,
    at: int,
    key: (u64, FlowKeyModel),
    wire_bytes: u64,
) -> (after: Seq<FlowBucketModel>)
    requires
        in_order(flows),
        0 <= at <= flows.len(),
        forall|i: int|
            0 <= i < at ==> entry_order(#[trigger] entry_key(flows[i]), key) == Order::Less,
        at < flows.len() ==> entry_order(entry_key(flows[at]), key) == Order::Greater,
    ensures
        in_order(after),
        counts(after) == with_packet(counts(flows), key, wire_bytes),
        list_packets(after) == list_packets(flows) + 1,
        list_bytes(after) == list_bytes(flows) + wire_bytes,
{
    absent_between(flows, at, key);
    let entry = FlowBucketModel {
        bucket_start: key.0,
        key: key.1,
        packets: 1,
        bytes: wire_bytes,
    };
    order_after_insert(flows, at, entry);
    counts_after_insert(flows, at, entry);
    sums_of_insert(flows, at, entry);
    flows.insert(at, entry)
}

/// A list with one packet more: one in order, with the counts of that packet added, and with one
/// packet and its bytes more in all.
pub(crate) proof fn list_with_packet(
    flows: Seq<FlowBucketModel>,
    key: (u64, FlowKeyModel),
    wire_bytes: u64,
) -> (after: Seq<FlowBucketModel>)
    requires
        in_order(flows),
        room_in(counts(flows), key, wire_bytes),
    ensures
        in_order(after),
        counts(after) == with_packet(counts(flows), key, wire_bytes),
        list_packets(after) == list_packets(flows) + 1,
        list_bytes(after) == list_bytes(flows) + wire_bytes,
{
    let at = position(flows, key);
    if at < flows.len() && entry_order(entry_key(flows[at]), key) == Order::Same {
        entry_order_is_total(entry_key(flows[at]), key);
        list_with_more(flows, at, key, wire_bytes)
    } else {
        list_with_new(flows, at, key, wire_bytes)
    }
}

/// Where a list in order passes into the intervals from `bucket_start` on: the two parts carry
/// the counts before and from there on.
pub(crate) proof fn list_in_parts(flows: Seq<FlowBucketModel>, bucket_start: u64) -> (at: int)
    requires
        in_order(flows),
    ensures
        0 <= at <= flows.len(),
        in_order(flows.take(at)),
        in_order(flows.skip(at)),
        counts(flows.take(at)) == counts(flows).restrict(
            Set::new(|key: (u64, FlowKeyModel)| key.0 < bucket_start),
        ),
        counts(flows.skip(at)) == counts(flows).restrict(
            Set::new(|key: (u64, FlowKeyModel)| key.0 >= bucket_start),
        ),
        list_packets(flows) == list_packets(flows.take(at)) + list_packets(flows.skip(at)),
        list_bytes(flows) == list_bytes(flows.take(at)) + list_bytes(flows.skip(at)),
{
    let at = first_from(flows, bucket_start);
    counts_of_parts(flows, at);
    assert(counts(flows.take(at)) =~= counts(flows).restrict(
        Set::new(|key: (u64, FlowKeyModel)| key.0 < bucket_start),
    ));
    assert(counts(flows.skip(at)) =~= counts(flows).restrict(
        Set::new(|key: (u64, FlowKeyModel)| key.0 >= bucket_start),
    ));
    assert(flows.take(at) + flows.skip(at) =~= flows);
    sums_of_lists(flows.take(at), flows.skip(at));
    at
}

/// The first entry of a list in order from `bucket_start` on.
proof fn first_from(flows: Seq<FlowBucketModel>, bucket_start: u64) -> (at: int)
    requires
        in_order(flows),
    ensures
        0 <= at <= flows.len(),
        forall|i: int| 0 <= i < at ==> (#[trigger] flows[i]).bucket_start < bucket_start,
        forall|i: int|
            at <= i < flows.len() ==> (#[trigger] flows[i]).bucket_start >= bucket_start,
    decreases flows.len(),
{
    if flows.len() == 0 {
        0
    } else if flows.last().bucket_start < bucket_start {
        let last = flows.len() - 1;
        assert forall|i: int| 0 <= i < flows.len() implies (#[trigger] flows[i]).bucket_start
            < bucket_start by {
            if i < last {
                assert(entry_order(entry_key(flows[i]), entry_key(flows[last])) == Order::Less);
            }
        }
        flows.len() as int
    } else {
        let before = flows.drop_last();
        assert forall|i: int, j: int| 0 <= i < j < before.len() implies entry_order(
            #[trigger] entry_key(before[i]),
            #[trigger] entry_key(before[j]),
        ) == Order::Less by {
            assert(entry_order(entry_key(flows[i]), entry_key(flows[j])) == Order::Less);
        }
        let at = first_from(before, bucket_start);
        assert forall|i: int| 0 <= i < at implies (#[trigger] flows[i]).bucket_start
            < bucket_start by {
            assert(before[i].bucket_start < bucket_start);
        }
        assert forall|i: int| at <= i < flows.len() implies (#[trigger] flows[i]).bucket_start
            >= bucket_start by {
            if i < before.len() {
                assert(before[i].bucket_start >= bucket_start);
            }
        }
        at
    }
}

} // verus!
