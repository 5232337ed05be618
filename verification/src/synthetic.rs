//! Batches of made-up traffic, to try out the way from spool to query.

use vstd::prelude::*;

use crate::addr::IpAddr;
use crate::batch::EnvelopeModel;
use crate::model::{
    CaptureDiagnostics, Direction, FlowBucket, FlowBucketModel, FlowKey, FlowKeyModel,
    TransportProtocol,
};
use crate::retention::{SpoolError, TableModel};
use crate::spool::Spool;

verus! {

/// The boot that made-up batches come from.
pub open spec fn synthetic_boot() -> Seq<char> {
    "synthetic-boot"@
}

/// Whether the numbers of the made-up bucket can be counted.
pub open spec fn synthetic_fits(now: u64, index: u64) -> bool {
    now + index * 10 <= u64::MAX && 1_000 + index * 100 <= u64::MAX && index % 65_536 <= 25_535
}

/// The made-up bucket of that index.
pub open spec fn synthetic_model(now: u64, index: u64) -> FlowBucketModel {
    FlowBucketModel {
        bucket_start: (now + index * 10) as u64,
        key: FlowKeyModel {
            capture_point: "synthetic:fixture"@,
            direction: Direction::Egress,
            protocol: TransportProtocol::Tcp,
            source_ip: IpAddr::V4(0x0a00_0002),
            destination_ip: IpAddr::V4(0x0101_0101),
            source_port: Some((40_000 + index % 65_536) as u16),
            destination_port: Some(443u16),
        },
        packets: (10 + index) as u64,
        bytes: (1_000 + index * 100) as u64,
    }
}

/// Whether the numbers of the made-up bucket can be counted.
pub fn can_synthesize(now: u64, index: u64) -> (r: bool)
    ensures
        r == synthetic_fits(now, index),
{
    index <= (u64::MAX - 1_000) / 100 && index * 10 <= u64::MAX - now && index % 65_536 <= 25_535
}

/// The made-up bucket of that index: one flow, in the interval of its own, that grows with the
/// index.
pub fn synthetic_bucket(now: u64, index: u64) -> (r: FlowBucket)
    requires
        synthetic_fits(now, index),
    ensures
        r@ == synthetic_model(now, index),
{
    FlowBucket {
        bucket_start: now + index * 10,
        key: FlowKey {
            capture_point: "synthetic:fixture".to_owned(),
            direction: Direction::Egress,
            protocol: TransportProtocol::Tcp,
            source_ip: IpAddr::V4(0x0a00_0002),
            destination_ip: IpAddr::V4(0x0101_0101),
            source_port: Some((40_000 + index % 65_536) as u16),
            destination_port: Some(443),
        },
        packets: 10 + index,
        bytes: 1_000 + index * 100,
    }
}

/// The spool after so many made-up batches, and the error that stopped them, if one did.
pub open spec fn synthesized(
    table: TableModel<EnvelopeModel>,
    node: Seq<char>,
    now: u64,
    batches: nat,
) -> (TableModel<EnvelopeModel>, Option<SpoolError>)
    decreases batches,
{
    if batches == 0 {
        (table, None)
    } else {
        let index = (batches - 1) as nat;
        let (before, stopped) = synthesized(table, node, now, index);
        if stopped is Some {
            (before, stopped)
        } else {
            let bucket = synthetic_model(now, index as u64);
            match crate::spool::enqueued(
                before,
                node,
                synthetic_boot(),
                bucket.bucket_start,
                seq![bucket],
                crate::model::no_diagnostics(),
            ) {
                Err(error) => (before, Some(error)),
                Ok((next, _, _)) => (next, None),
            }
        }
    }
}

/// Once stopped, made-up batches stay stopped.
proof fn stays_stopped(
    table: TableModel<EnvelopeModel>,
    node: Seq<char>,
    now: u64,
    n: nat,
    m: nat,
)
    requires
        n <= m,
        synthesized(table, node, now, n).1 is Some,
    ensures
        synthesized(table, node, now, m) == synthesized(table, node, now, n),
    decreases m,
{
    if n < m {
        stays_stopped(table, node, now, n, (m - 1) as nat);
    }
}

/// Puts so many made-up batches into the spool.
pub fn synthetic(spool: &mut Spool, node: &String, batches: u64, now: u64) -> (r: Result<
    (),
    SpoolError,
>)
    requires
        old(spool).wf(),
        forall|index: u64| index < batches ==> #[trigger] synthetic_fits(now, index),
    ensures
        final(spool).wf(),
        final(spool)@ == synthesized(old(spool)@, node@, now, batches as nat).0,
        match r {
            Ok(()) => synthesized(old(spool)@, node@, now, batches as nat).1 is None,
            Err(error) => synthesized(old(spool)@, node@, now, batches as nat).1 == Some(error),
        },
{
    let ghost table = spool@;
    let mut index: u64 = 0;
    while index < batches
        invariant
            index <= batches,
            table == old(spool)@,
            spool.wf(),
            forall|other: u64| other < batches ==> #[trigger] synthetic_fits(now, other),
            synthesized(table, node@, now, index as nat) == (spool@, None::<SpoolError>),
        decreases batches - index,
    {
        assert(synthetic_fits(now, index));
        let bucket = synthetic_bucket(now, index);
        let start: u64 = bucket.bucket_start;
        let mut buckets: Vec<FlowBucket> = Vec::new();
        buckets.push(bucket);
        proof {
            assert(crate::model::bucket_models(buckets@) =~= seq![synthetic_model(now, index)]);
        }
        if let Err(error) = spool.enqueue(
            node.clone(),
            "synthetic-boot".to_owned(),
            start,
            buckets,
            CaptureDiagnostics::default(),
        ) {
            proof {
                stays_stopped(table, node@, now, (index + 1) as nat, batches as nat);
            }
            return Err(error);
        }
        index += 1;
    }
    Ok(())
}

} // verus!
