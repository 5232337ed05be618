use flow_observability::addr::IpAddr;
use flow_observability::aggregate::Aggregator;
use flow_observability::model::{Direction, FlowKey, TransportProtocol};
use flow_observability::packet::PacketMeta;

fn key(source_port: u16) -> FlowKey {
    FlowKey {
        capture_point: "physical:eth0".into(),
        direction: Direction::Egress,
        protocol: TransportProtocol::Tcp,
        source_ip: IpAddr::v4(10, 0, 0, 1),
        destination_ip: IpAddr::v4(1, 1, 1, 1),
        source_port: Some(source_port),
        destination_port: Some(443),
    }
}

fn packet(timestamp: u64, bytes: u64) -> PacketMeta {
    PacketMeta {
        timestamp,
        wire_bytes: bytes,
        key: key(12345),
    }
}

#[test]
fn aggregates_by_ten_second_bucket() {
    let mut aggregator = Aggregator::new(10);
    aggregator.push(packet(11, 100));
    aggregator.push(packet(19, 60));
    aggregator.push(packet(20, 40));

    let first = aggregator.drain_before(20);
    assert_eq!(first.len(), 1);
    assert_eq!(first[0].bucket_start, 10);
    assert_eq!((first[0].packets, first[0].bytes), (2, 160));
    assert_eq!(aggregator.drain_all()[0].bucket_start, 20);
}

#[test]
fn drained_buckets_come_in_order_and_once() {
    let mut aggregator = Aggregator::new(10);
    for (timestamp, port) in [(25, 7), (13, 9), (13, 8), (25, 6), (13, 9)] {
        aggregator.push(PacketMeta {
            timestamp,
            wire_bytes: 1,
            key: key(port),
        });
    }
    let drained = aggregator.drain_all();
    let seen: Vec<(u64, Option<u16>, u64)> = drained
        .iter()
        .map(|bucket| (bucket.bucket_start, bucket.key.source_port, bucket.packets))
        .collect();
    assert_eq!(
        seen,
        vec![(10, Some(8), 1), (10, Some(9), 2), (20, Some(6), 1), (20, Some(7), 1)]
    );
    assert!(aggregator.drain_all().is_empty());
}

#[test]
fn draining_keeps_the_current_interval() {
    let mut aggregator = Aggregator::new(10);
    aggregator.push(packet(9, 5));
    aggregator.push(packet(10, 6));
    let first = aggregator.drain_before(10);
    assert_eq!(first.len(), 1);
    assert_eq!(first[0].bytes, 5);
    assert!(aggregator.drain_before(10).is_empty());
    let rest = aggregator.drain_all();
    assert_eq!(rest.len(), 1);
    assert_eq!(rest[0].bytes, 6);
}

#[test]
fn packets_count_the_same_in_any_order() {
    let mut first = Aggregator::new(10);
    first.push(packet(1, 3));
    first.push(packet(2, 4));
    let mut second = Aggregator::new(10);
    second.push(packet(2, 4));
    second.push(packet(1, 3));
    let (a, b) = (first.drain_all(), second.drain_all());
    assert_eq!(a.len(), 1);
    assert_eq!((a[0].packets, a[0].bytes), (b[0].packets, b[0].bytes));
    assert_eq!((a[0].packets, a[0].bytes), (2, 7));
}

#[test]
fn full_counters_have_no_room() {
    let mut aggregator = Aggregator::new(10);
    assert!(aggregator.can_push(&packet(1, u64::MAX)));
    aggregator.push(packet(1, u64::MAX));
    assert!(!aggregator.can_push(&packet(2, 1)));
    assert!(aggregator.can_push(&packet(2, 0)));
    assert!(aggregator.can_push(&packet(12, 1)));
}
