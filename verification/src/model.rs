//! What agents and the control plane exchange and report.

use vstd::prelude::*;

pub use crate::batch::{BatchBody, BatchEnvelope};
use crate::addr::IpAddr;
use crate::text::{order_numbers, order_texts, Order};

verus! {

/// The version of the batch format.
pub const SCHEMA_VERSION: u16 = 1;

/// Where a packet went, seen from the local addresses.
#[derive(Debug, Clone, Copy, PartialEq, Eq, PartialOrd, Ord, Hash, Structural)]
pub enum Direction {
    Ingress,
    Egress,
    Internal,
    Unknown,
}

impl Direction {
    /// The position of the direction among all directions.
    pub open spec fn rank(self) -> int {
        match self {
            Direction::Ingress => 0,
            Direction::Egress => 1,
            Direction::Internal => 2,
            Direction::Unknown => 3,
        }
    }

    fn position(self) -> (r: u128)
        ensures
            r == self.rank(),
    {
        match self {
            Direction::Ingress => 0,
            Direction::Egress => 1,
            Direction::Internal => 2,
            Direction::Unknown => 3,
        }
    }
}

/// The protocol that a packet carries above the network layer.
#[derive(Debug, Clone, Copy, PartialEq, Eq, PartialOrd, Ord, Hash, Structural)]
pub enum TransportProtocol {
    Tcp,
    Udp,
    Icmp,
    Other(u8),
}

/// The protocol with an assigned number.
pub open spec fn protocol_of(number: u8) -> TransportProtocol {
    if number == 6 {
        TransportProtocol::Tcp
    } else if number == 17 {
        TransportProtocol::Udp
    } else if number == 1 || number == 58 {
        TransportProtocol::Icmp
    } else {
        TransportProtocol::Other(number)
    }
}

impl From<u8> for TransportProtocol {
    fn from(value: u8) -> (r: Self) {
        match value {
            6 => TransportProtocol::Tcp,
            17 => TransportProtocol::Udp,
            1 | 58 => TransportProtocol::Icmp,
            number => TransportProtocol::Other(number),
        }
    }
}

impl vstd::std_specs::convert::FromSpecImpl<u8> for TransportProtocol {
    open spec fn obeys_from_spec() -> bool {
        true
    }

    open spec fn from_spec(value: u8) -> Self {
        protocol_of(value)
    }
}

impl TransportProtocol {
    /// The position of the protocol among all protocols.
    pub open spec fn rank(self) -> int {
        match self {
            TransportProtocol::Tcp => 0,
            TransportProtocol::Udp => 1,
            TransportProtocol::Icmp => 2,
            TransportProtocol::Other(number) => 3 + number,
        }
    }

    fn position(self) -> (r: u128)
        ensures
            r == self.rank(),
    {
        match self {
            TransportProtocol::Tcp => 0,
            TransportProtocol::Udp => 1,
            TransportProtocol::Icmp => 2,
            TransportProtocol::Other(number) => 3 + widen(number),
        }
    }
}

fn widen(number: u8) -> (r: u128)
    ensures
        r == number,
{
    number as u128
}

/// The position of an optional port: an absent one comes first.
pub open spec fn port_rank(port: Option<u16>) -> int {
    match port {
        None => 0,
        Some(number) => 1 + number,
    }
}

fn port_position(port: Option<u16>) -> (r: u128)
    ensures
        r == port_rank(port),
{
    match port {
        None => 0,
        Some(number) => 1 + number as u128,
    }
}

/// What distinguishes one flow from another.
#[derive(Debug, PartialEq, Eq, PartialOrd, Ord, Hash)]
pub struct FlowKey {
    pub capture_point: String,
    pub direction: Direction,
    pub protocol: TransportProtocol,
    pub source_ip: IpAddr,
    pub destination_ip: IpAddr,
    pub source_port: Option<u16>,
    pub destination_port: Option<u16>,
}

/// The value of a [`FlowKey`].
pub struct FlowKeyModel {
    pub capture_point: Seq<char>,
    pub direction: Direction,
    pub protocol: TransportProtocol,
    pub source_ip: IpAddr,
    pub destination_ip: IpAddr,
    pub source_port: Option<u16>,
    pub destination_port: Option<u16>,
}

impl View for FlowKey {
    type V = FlowKeyModel;

    open spec fn view(&self) -> FlowKeyModel {
        FlowKeyModel {
            capture_point: self.capture_point@,
            direction: self.direction,
            protocol: self.protocol,
            source_ip: self.source_ip,
            destination_ip: self.destination_ip,
            source_port: self.source_port,
            destination_port: self.destination_port,
        }
    }
}

impl Clone for FlowKey {
    fn clone(&self) -> (r: Self)
        ensures
            r == *self,
    {
        FlowKey {
            capture_point: self.capture_point.clone(),
            direction: self.direction,
            protocol: self.protocol,
            source_ip: self.source_ip,
            destination_ip: self.destination_ip,
            source_port: self.source_port,
            destination_port: self.destination_port,
        }
    }
}

/// Keys compare field by field, in the order in which the fields are declared.
pub open spec fn key_order(a: FlowKeyModel, b: FlowKeyModel) -> Order {
    crate::text::refine(
        crate::text::text_order(a.capture_point, b.capture_point),
        crate::text::refine(
            crate::text::int_order(a.direction.rank(), b.direction.rank()),
            crate::text::refine(
                crate::text::int_order(a.protocol.rank(), b.protocol.rank()),
                crate::text::refine(
                    crate::text::int_order(a.source_ip.rank(), b.source_ip.rank()),
                    crate::text::refine(
                        crate::text::int_order(a.destination_ip.rank(), b.destination_ip.rank()),
                        crate::text::refine(
                            crate::text::int_order(port_rank(a.source_port), port_rank(b.source_port)),
                            crate::text::int_order(
                                port_rank(a.destination_port),
                                port_rank(b.destination_port),
                            ),
                        ),
                    ),
                ),
            ),
        ),
    )
}

/// The order of two keys.
pub fn order_keys(a: &FlowKey, b: &FlowKey) -> (r: Order)
    ensures
        r == key_order(a@, b@),
{
    let point = order_texts(a.capture_point.as_str(), b.capture_point.as_str());
    if point != Order::Same {
        return point;
    }
    let direction = order_numbers(a.direction.position(), b.direction.position());
    if direction != Order::Same {
        return direction;
    }
    let protocol = order_numbers(a.protocol.position(), b.protocol.position());
    if protocol != Order::Same {
        return protocol;
    }
    let source = a.source_ip.order(b.source_ip);
    if source != Order::Same {
        return source;
    }
    let destination = a.destination_ip.order(b.destination_ip);
    if destination != Order::Same {
        return destination;
    }
    let source_port = order_numbers(port_position(a.source_port), port_position(b.source_port));
    if source_port != Order::Same {
        return source_port;
    }
    order_numbers(port_position(a.destination_port), port_position(b.destination_port))
}

/// Keys that compare the same are equal, and reversing the operands reverses the order.
pub proof fn key_order_is_total(a: FlowKeyModel, b: FlowKeyModel)
    ensures
        key_order(a, b) == Order::Same <==> a == b,
        key_order(a, b) == Order::Less <==> key_order(b, a) == Order::Greater,
{
    crate::text::text_order_is_total(a.capture_point, b.capture_point);
    crate::text::text_order_is_total(b.capture_point, a.capture_point);
}

/// The order of keys is transitive.
pub proof fn key_order_is_transitive(a: FlowKeyModel, b: FlowKeyModel, c: FlowKeyModel)
    requires
        key_order(a, b) == Order::Less,
        key_order(b, c) == Order::Less,
    ensures
        key_order(a, c) == Order::Less,
{
    crate::text::text_order_is_total(a.capture_point, b.capture_point);
    crate::text::text_order_is_total(b.capture_point, c.capture_point);
    if a.capture_point != b.capture_point && b.capture_point != c.capture_point {
        crate::text::text_order_is_transitive(a.capture_point, b.capture_point, c.capture_point);
    }
}

/// What one flow carried during one interval.
#[derive(Debug, PartialEq, Eq)]
pub struct FlowBucket {
    pub bucket_start: u64,
    pub key: FlowKey,
    pub packets: u64,
    pub bytes: u64,
}

/// The value of a [`FlowBucket`].
pub struct FlowBucketModel {
    pub bucket_start: u64,
    pub key: FlowKeyModel,
    pub packets: u64,
    pub bytes: u64,
}

impl View for FlowBucket {
    type V = FlowBucketModel;

    open spec fn view(&self) -> FlowBucketModel {
        FlowBucketModel {
            bucket_start: self.bucket_start,
            key: self.key@,
            packets: self.packets,
            bytes: self.bytes,
        }
    }
}

impl Clone for FlowBucket {
    fn clone(&self) -> (r: Self)
        ensures
            r == *self,
    {
        FlowBucket {
            bucket_start: self.bucket_start,
            key: self.key.clone(),
            packets: self.packets,
            bytes: self.bytes,
        }
    }
}

/// The values of a list of buckets.
pub open spec fn bucket_models(buckets: Seq<FlowBucket>) -> Seq<FlowBucketModel> {
    buckets.map_values(|b: FlowBucket| b@)
}

/// A copy of a list of buckets.
pub fn copy_buckets(buckets: &Vec<FlowBucket>) -> (r: Vec<FlowBucket>)
    ensures
        r@ == buckets@,
{
    let mut r: Vec<FlowBucket> = Vec::new();
    let mut i: usize = 0;
    while i < buckets.len()
        invariant
            i <= buckets@.len(),
            r@ == buckets@.take(i as int),
        decreases buckets@.len() - i,
    {
        r.push(buckets[i].clone());
        i = i + 1;
        assert(r@ =~= buckets@.take(i as int));
    }
    assert(r@ =~= buckets@);
    r
}

/// Packets that the capture layer counted since the previous batch.
#[derive(Debug, Clone, Copy, PartialEq, Eq, Structural)]
pub struct CaptureDiagnostics {
    pub received: u64,
    pub dropped: u64,
    pub interface_dropped: u64,
    pub parse_errors: u64,
}

impl Default for CaptureDiagnostics {
    fn default() -> (r: Self)
        ensures
            r == no_diagnostics(),
    {
        CaptureDiagnostics { received: 0, dropped: 0, interface_dropped: 0, parse_errors: 0 }
    }
}

/// Diagnostics that count nothing.
pub open spec fn no_diagnostics() -> CaptureDiagnostics {
    CaptureDiagnostics { received: 0, dropped: 0, interface_dropped: 0, parse_errors: 0 }
}

/// A hole in the record: a batch that left the spool before it was acknowledged.
#[derive(Debug, PartialEq, Eq)]
pub struct GapEvent {
    pub seq: u64,
    pub min_bucket: Option<u64>,
    pub max_bucket: Option<u64>,
    pub lost_bytes: u64,
    pub reason: String,
    pub created_at: u64,
}

/// The value of a [`GapEvent`].
pub struct GapModel {
    pub seq: u64,
    pub min_bucket: Option<u64>,
    pub max_bucket: Option<u64>,
    pub lost_bytes: u64,
    pub reason: Seq<char>,
    pub created_at: u64,
}

impl View for GapEvent {
    type V = GapModel;

    open spec fn view(&self) -> GapModel {
        GapModel {
            seq: self.seq,
            min_bucket: self.min_bucket,
            max_bucket: self.max_bucket,
            lost_bytes: self.lost_bytes,
            reason: self.reason@,
            created_at: self.created_at,
        }
    }
}

impl Clone for GapEvent {
    fn clone(&self) -> (r: Self)
        ensures
            r == *self,
    {
        GapEvent {
            seq: self.seq,
            min_bucket: self.min_bucket,
            max_bucket: self.max_bucket,
            lost_bytes: self.lost_bytes,
            reason: self.reason.clone(),
            created_at: self.created_at,
        }
    }
}

/// The control plane's answer to a batch that it holds.
#[derive(Debug, PartialEq, Eq)]
pub struct IngestAck {
    pub batch_id: String,
    pub status: IngestStatus,
}

impl Clone for IngestAck {
    fn clone(&self) -> (r: Self)
        ensures
            r == *self,
    {
        IngestAck { batch_id: self.batch_id.clone(), status: self.status }
    }
}

/// Whether an accepted batch was new.
#[derive(Debug, Clone, Copy, PartialEq, Eq, Structural)]
pub enum IngestStatus {
    Inserted,
    Duplicate,
}

/// How full a spool is.
#[derive(Debug, Clone, Copy, PartialEq, Eq, Structural)]
pub struct SpoolStatus {
    pub pending_batches: u64,
    pub pending_payload_bytes: u64,
    pub gap_events: u64,
}

/// What the control plane holds of one node.
#[derive(Debug, Clone, Copy, PartialEq, Eq, Structural)]
pub struct ControlStats {
    pub batches: u64,
    pub flow_buckets: u64,
    pub packets: u64,
    pub bytes: u64,
}

/// The traffic of one interval.
#[derive(Debug, Clone, Copy, PartialEq, Eq, Structural)]
pub struct SeriesPoint {
    pub bucket_start: u64,
    pub packets: u64,
    pub bytes: u64,
}

} // verus!
