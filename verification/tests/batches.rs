use flow_observability::addr::IpAddr;
use flow_observability::batch::body_checksum;
use flow_observability::model::{
    BatchEnvelope, CaptureDiagnostics, Direction, FlowBucket, FlowKey, TransportProtocol,
    SCHEMA_VERSION,
};
use flow_observability::text::{decimal_text, hex_of_bytes, hex_text, order_texts, signed_text, Order};

fn bucket(protocol: TransportProtocol, source_port: Option<u16>) -> FlowBucket {
    FlowBucket {
        bucket_start: 100,
        key: FlowKey {
            capture_point: "physical:\"eth0\"".into(),
            direction: Direction::Ingress,
            protocol,
            source_ip: IpAddr::v4(10, 0, 0, 1),
            destination_ip: IpAddr::v6(0x2606, 0x4700, 0, 0, 0, 0, 0, 0x1111),
            source_port,
            destination_port: Some(443),
        },
        packets: 2,
        bytes: 300,
    }
}

fn envelope(seq: u64) -> BatchEnvelope {
    BatchEnvelope::new(
        "node-a".into(),
        "boot".into(),
        seq,
        100,
        vec![
            bucket(TransportProtocol::Tcp, Some(50000)),
            bucket(TransportProtocol::Other(47), None),
        ],
        CaptureDiagnostics {
            received: 1,
            dropped: 2,
            interface_dropped: 3,
            parse_errors: 4,
        },
    )
    .unwrap()
}

const BODY: &str =
    "{\"schema_version\":1,\"node_id\":\"node-a\",\"boot_id\":\"boot\",\"seq\":7,\"created_at\":100,\
     \"buckets\":[{\"bucket_start\":100,\"key\":{\"capture_point\":\"physical:\\\"eth0\\\"\",\
     \"direction\":\"ingress\",\"protocol\":{\"name\":\"tcp\"},\"source_ip\":\"10.0.0.1\",\
     \"destination_ip\":\"2606:4700::1111\",\"source_port\":50000,\"destination_port\":443},\
     \"packets\":2,\"bytes\":300},{\"bucket_start\":100,\"key\":{\
     \"capture_point\":\"physical:\\\"eth0\\\"\",\"direction\":\"ingress\",\
     \"protocol\":{\"name\":\"other\",\"number\":47},\"source_ip\":\"10.0.0.1\",\
     \"destination_ip\":\"2606:4700::1111\",\"source_port\":null,\"destination_port\":443},\
     \"packets\":2,\"bytes\":300}],\"diagnostics\":{\"received\":1,\"dropped\":2,\
     \"interface_dropped\":3,\"parse_errors\":4}}";

#[test]
fn the_checksum_is_the_digest_of_the_body_text() {
    let batch = envelope(7);
    let expected = blake3::hash(BODY.as_bytes()).to_hex().to_string();
    assert_eq!(batch.checksum, expected);
    assert_eq!(body_checksum(&batch.body).unwrap(), expected);
    assert_eq!(batch.batch_id, format!("node-a:boot:7:{}", &expected[..16]));
    assert_eq!(batch.body.schema_version, SCHEMA_VERSION);
}

#[test]
fn the_payload_is_the_text_of_the_envelope() {
    let batch = envelope(7);
    let expected = format!(
        "{{\"batch_id\":\"{}\",\"checksum\":\"{}\",\"body\":{}}}",
        batch.batch_id, batch.checksum, BODY
    );
    assert_eq!(String::from_utf8(batch.payload().unwrap()).unwrap(), expected);
}

#[test]
fn sealed_batches_are_valid_until_they_change() {
    let batch = envelope(3);
    assert!(batch.has_valid_checksum().unwrap());
    let mut changed = batch.clone();
    changed.body.buckets[0].bytes += 1;
    assert!(!changed.has_valid_checksum().unwrap());
    let mut renamed = batch.clone();
    renamed.checksum.pop();
    assert!(!renamed.has_valid_checksum().unwrap());
    assert_eq!(batch, envelope(3));
}

#[test]
fn identities_differ_by_sequence_number() {
    assert!(envelope(1).batch_id.starts_with("node-a:boot:1:"));
    assert!(envelope(11).batch_id.starts_with("node-a:boot:11:"));
    assert_ne!(envelope(1).batch_id, envelope(11).batch_id);
}

#[test]
fn numbers_have_their_usual_texts() {
    assert_eq!(decimal_text(0), "0");
    assert_eq!(decimal_text(u64::MAX), "18446744073709551615");
    assert_eq!(signed_text(i64::MIN), "-9223372036854775808");
    assert_eq!(signed_text(12), "12");
    assert_eq!(hex_text(0xbeef), "beef");
    assert_eq!(hex_of_bytes(&[0, 10, 255]), "000aff");
}

#[test]
fn addresses_have_their_usual_texts() {
    assert_eq!(IpAddr::v4(192, 0, 2, 10).to_text(), "192.0.2.10");
    assert_eq!(IpAddr::v6(0, 0, 0, 0, 0, 0, 0, 0).to_text(), "::");
    assert_eq!(IpAddr::v6(0, 0, 0, 0, 0, 0, 0, 1).to_text(), "::1");
    assert_eq!(IpAddr::v6(0x2001, 0xdb8, 0, 0, 1, 0, 0, 1).to_text(), "2001:db8::1:0:0:1");
    assert_eq!(IpAddr::v6(1, 0, 3, 4, 5, 6, 7, 8).to_text(), "1:0:3:4:5:6:7:8");
    assert_eq!(IpAddr::v6(0, 0, 0, 0, 0, 0xffff, 0x0102, 0x0304).to_text(), "::ffff:1.2.3.4");
    assert_eq!(IpAddr::v6(1, 0, 0, 2, 0, 0, 0, 3).to_text(), "1:0:0:2::3");
}

#[test]
fn texts_are_ordered_by_character() {
    assert_eq!(order_texts("a", "b"), Order::Less);
    assert_eq!(order_texts("a", "a"), Order::Same);
    assert_eq!(order_texts("ab", "a"), Order::Greater);
    assert_eq!(order_texts("", "a"), Order::Less);
    assert_eq!(order_texts("\u{e9}", "z"), Order::Greater);
}
