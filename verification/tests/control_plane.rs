use flow_observability::addr::IpAddr;
use flow_observability::control::{
    check_envelope, control_cutoff, flow_rows, judge_envelope, max_page_count, protocol_key,
    series_between, series_range, settle, summarize, ControlError, ControlLimits, ControlStore,
    DatabaseError, EncodingCause, IngestError, Judgement,
};
use flow_observability::http::{ingest_reply, internal, series_refusal, stats_refusal};
use flow_observability::inventory::{inventory, NodePoint};
use flow_observability::model::{
    BatchEnvelope, CaptureDiagnostics, Direction, FlowBucket, FlowKey, IngestStatus, SeriesPoint,
    TransportProtocol,
};
use flow_observability::sqlite::RangeError;

fn bucket(bucket_start: u64, capture_point: &str, packets: u64, bytes: u64) -> FlowBucket {
    FlowBucket {
        bucket_start,
        key: FlowKey {
            capture_point: capture_point.into(),
            direction: Direction::Egress,
            protocol: TransportProtocol::Tcp,
            source_ip: IpAddr::v4(10, 0, 0, 1),
            destination_ip: IpAddr::v4(1, 1, 1, 1),
            source_port: Some(50000),
            destination_port: Some(443),
        },
        packets,
        bytes,
    }
}

fn batch(node: &str, seq: u64, created_at: u64, buckets: Vec<FlowBucket>) -> BatchEnvelope {
    BatchEnvelope::new(
        node.into(),
        "boot".into(),
        seq,
        created_at,
        buckets,
        CaptureDiagnostics::default(),
    )
    .unwrap()
}

fn envelope() -> BatchEnvelope {
    batch("node-a", 0, 100, vec![bucket(100, "physical:eth0", 2, 300)])
}

fn store(max_age_seconds: u64) -> ControlStore {
    ControlStore::open(ControlLimits {
        max_database_bytes: 1024 * 1024,
        max_age_seconds,
    })
    .unwrap()
}

#[test]
fn duplicate_batch_is_idempotent() {
    let mut store = ControlStore::open(ControlLimits {
        max_database_bytes: 1024 * 1024,
        max_age_seconds: u64::MAX,
    })
    .unwrap();
    let batch = envelope();

    assert_eq!(store.ingest(&batch).unwrap(), IngestStatus::Inserted);
    assert_eq!(store.ingest(&batch).unwrap(), IngestStatus::Duplicate);
    assert_eq!(store.stats("node-a").unwrap().flow_buckets, 1);
    assert_eq!(store.stats("node-a").unwrap().bytes, 300);
}

#[test]
fn checksum_change_is_rejected() {
    let mut store = ControlStore::open(ControlLimits {
        max_database_bytes: 1024 * 1024,
        max_age_seconds: u64::MAX,
    })
    .unwrap();
    let mut batch = envelope();
    store.ingest(&batch).unwrap();
    batch.checksum.replace_range(..1, "0");

    assert!(matches!(store.ingest(&batch), Err(IngestError::Checksum)));
}

#[test]
fn age_limit_prunes_expired_batches_before_ingest() {
    let mut store = ControlStore::open(ControlLimits {
        max_database_bytes: 1024 * 1024,
        max_age_seconds: 10,
    })
    .unwrap();
    let old = envelope();
    store.ingest_at(&old, 100).unwrap();
    let mut current = envelope();
    current.body.seq = 1;
    current.body.created_at = 120;
    current.body.buckets[0].bucket_start = 120;
    current = BatchEnvelope::new(
        current.body.node_id,
        current.body.boot_id,
        current.body.seq,
        current.body.created_at,
        current.body.buckets,
        current.body.diagnostics,
    )
    .unwrap();

    store.ingest_at(&current, 120).unwrap();

    let stats = store.stats("node-a").unwrap();
    assert_eq!(stats.batches, 1);
    assert_eq!(stats.flow_buckets, 1);
    assert_eq!(stats.bytes, 300);
}

#[test]
fn the_clock_expires_old_batches() {
    let mut store = store(3600);
    assert_eq!(store.ingest(&envelope()).unwrap(), IngestStatus::Inserted);
    assert_eq!(store.ingest(&envelope()).unwrap(), IngestStatus::Inserted);
    assert_eq!(store.stats("node-a").unwrap().batches, 1);
}

#[test]
fn control_limits_must_be_positive() {
    for (bytes, seconds) in [(0, 1), (1, 0)] {
        match ControlStore::open(ControlLimits {
            max_database_bytes: bytes,
            max_age_seconds: seconds,
        }) {
            Err(error) => {
                assert_eq!(error, ControlError::ZeroLimit);
                assert_eq!(error.message(), "control byte and age limits must be positive");
            }
            Ok(_) => panic!("a limit is zero"),
        }
    }
    let limits = ControlLimits::default();
    assert_eq!(limits.max_database_bytes, 134_217_728);
    assert_eq!(limits.max_age_seconds, 172_800);
}

#[test]
fn other_formats_are_refused() {
    let mut store = store(1_000);
    let mut other = envelope();
    other.body.schema_version = 2;
    let refused = store.ingest_at(&other, 100).unwrap_err();
    assert_eq!(refused, IngestError::SchemaVersion);
    assert_eq!(refused.message(), "unsupported schema version");
    assert_eq!(check_envelope(&other), Err(IngestError::SchemaVersion));
    assert_eq!(check_envelope(&envelope()), Ok(()));
    assert_eq!(store.stats("node-a").unwrap().batches, 0);
}

#[test]
fn contradictions_change_nothing() {
    let mut store = store(1_000);
    store.ingest_at(&envelope(), 100).unwrap();
    let mut renamed = batch("node-a", 1, 100, vec![bucket(100, "physical:eth0", 9, 9)]);
    renamed.batch_id = envelope().batch_id;
    assert_eq!(store.ingest_at(&renamed, 100).unwrap_err(), IngestError::Conflict);
    let same_place = batch("node-a", 0, 100, vec![bucket(100, "physical:eth0", 9, 9)]);
    let refused = store.ingest_at(&same_place, 100).unwrap_err();
    assert_eq!(refused, IngestError::Conflict);
    assert_eq!(refused.message(), "batch identity conflicts with stored data");
    let stats = store.stats("node-a").unwrap();
    assert_eq!((stats.batches, stats.packets, stats.bytes), (1, 2, 300));
    assert_eq!(store.ingest_at(&envelope(), 100).unwrap(), IngestStatus::Duplicate);
}

#[test]
fn a_refused_batch_expires_nothing() {
    let mut store = store(10);
    store.ingest_at(&envelope(), 100).unwrap();
    let mut broken = batch("node-a", 1, 200, Vec::new());
    broken.checksum.push('0');
    assert_eq!(store.ingest_at(&broken, 200).unwrap_err(), IngestError::Checksum);
    assert_eq!(store.stats("node-a").unwrap().batches, 1);
    let late = batch("node-a", 1, 200, Vec::new());
    assert_eq!(store.ingest_at(&late, 200).unwrap(), IngestStatus::Inserted);
    let stats = store.stats("node-a").unwrap();
    assert_eq!((stats.batches, stats.flow_buckets), (1, 0));
}

#[test]
fn batches_with_numbers_that_do_not_fit_are_refused() {
    let big = i64::MAX as u64 + 1;
    let mut store = store(u64::MAX);
    let range = |field| IngestError::Encoding(EncodingCause::Range(RangeError { field }));
    let cases = [
        (batch("n", big, 1, Vec::new()), "batch seq"),
        (batch("n", 1, big, Vec::new()), "batch created_at"),
        (batch("n", 1, 1, vec![bucket(1, "p", 1, 1), bucket(big, "p", 1, 1)]), "bucket_start"),
        (batch("n", 1, 1, vec![bucket(1, "p", big, big)]), "bucket packets"),
        (batch("n", 1, 1, vec![bucket(1, "p", 1, big)]), "bucket bytes"),
    ];
    for (refused, field) in cases {
        assert_eq!(store.ingest_at(&refused, 1).unwrap_err(), range(field));
    }
    assert_eq!(range("batch seq").message(), "batch seq exceeds SQLite INTEGER range");
    assert_eq!(store.stats("n").unwrap().batches, 0);
    assert_eq!(
        control_cutoff(u64::MAX, 1),
        Err(IngestError::Database(DatabaseError::Range(RangeError {
            field: "control cutoff"
        })))
    );
    assert_eq!(control_cutoff(100, 30), Ok(70));
    assert_eq!(
        EncodingCause::Clock("second time provided was later than self".into()).message(),
        "system clock is before Unix epoch: second time provided was later than self"
    );
    assert_eq!(EncodingCause::Body.message(), "serialize batch body");
}

#[test]
fn judgements_follow_what_is_held() {
    let batch = envelope();
    match judge_envelope(&batch, &None, false) {
        Ok(Judgement::Insert(rows)) => {
            assert_eq!(rows.len(), 1);
            assert_eq!(rows[0].direction, "egress");
            assert_eq!(rows[0].protocol, "tcp");
            assert_eq!(rows[0].source_ip, "10.0.0.1");
            assert_eq!(rows[0].destination_ip, "1.1.1.1");
            assert_eq!((rows[0].source_port, rows[0].destination_port), (Some(50000), Some(443)));
            assert_eq!((rows[0].bucket_start, rows[0].packets, rows[0].bytes), (100, 2, 300));
        }
        _ => panic!("the batch is new"),
    }
    assert!(matches!(
        judge_envelope(&batch, &Some(batch.checksum.clone()), true),
        Ok(Judgement::Duplicate)
    ));
    assert!(matches!(
        judge_envelope(&batch, &Some("other".into()), false),
        Err(IngestError::Conflict)
    ));
    assert!(matches!(judge_envelope(&batch, &None, true), Err(IngestError::Conflict)));
    assert_eq!(flow_rows(&Vec::new()).unwrap().len(), 0);
}

#[test]
fn protocols_have_names() {
    assert_eq!(protocol_key(TransportProtocol::Udp), "udp");
    assert_eq!(protocol_key(TransportProtocol::Icmp), "icmp");
    assert_eq!(protocol_key(TransportProtocol::Other(47)), "other:47");
}

#[test]
fn nodes_keep_their_own_traffic() {
    let mut store = store(u64::MAX);
    for index in 0..3 {
        let start = 100 + index * 10;
        let buckets = vec![bucket(start, "synthetic:fixture", 10 + index, 1_000 + index * 100)];
        store.ingest_at(&batch("node-a", index, start, buckets), 100).unwrap();
    }
    for index in 0..2 {
        let start = 100 + index * 10;
        let buckets = vec![bucket(start, "synthetic:fixture", 10 + index, 1_000 + index * 100)];
        store.ingest_at(&batch("node-b", index, start, buckets), 100).unwrap();
    }
    let first = store.stats("node-a").unwrap();
    assert_eq!((first.batches, first.flow_buckets, first.packets, first.bytes), (3, 3, 33, 3_300));
    let second = store.stats("node-b").unwrap();
    assert_eq!(
        (second.batches, second.flow_buckets, second.packets, second.bytes),
        (2, 2, 21, 2_100)
    );
    let none = store.stats("node-c").unwrap();
    assert_eq!((none.batches, none.flow_buckets, none.packets, none.bytes), (0, 0, 0, 0));
}

#[test]
fn capture_points_can_be_asked_for() {
    let mut store = store(u64::MAX);
    let both = vec![bucket(10, "eth0", 1, 10), bucket(10, "wg0", 2, 20), bucket(20, "eth0", 4, 40)];
    store.ingest_at(&batch("n", 0, 10, both), 10).unwrap();
    store.ingest_at(&batch("n", 1, 10, vec![bucket(10, "eth0", 8, 80)]), 10).unwrap();
    let eth0 = store.stats_at("n", &Some("eth0".into())).unwrap();
    assert_eq!((eth0.batches, eth0.flow_buckets, eth0.packets, eth0.bytes), (2, 3, 13, 130));
    let wg0 = store.stats_at("n", &Some("wg0".into())).unwrap();
    assert_eq!((wg0.batches, wg0.flow_buckets, wg0.packets, wg0.bytes), (1, 1, 2, 20));
    let none = store.stats_at("n", &Some("other".into())).unwrap();
    assert_eq!((none.batches, none.flow_buckets), (0, 0));
    assert_eq!(store.stats_at("n", &None).unwrap(), store.stats("n").unwrap());
    assert_eq!(
        store.series_at("n", &Some("wg0".into()), None, None).unwrap(),
        vec![SeriesPoint { bucket_start: 10, packets: 2, bytes: 20 }]
    );
    assert_eq!(
        store.series_at("n", &Some("eth0".into()), Some(11), None).unwrap(),
        vec![SeriesPoint { bucket_start: 20, packets: 4, bytes: 40 }]
    );
}

#[test]
fn the_inventory_names_every_capture_point_once() {
    let mut store = store(u64::MAX);
    assert!(store.nodes().is_empty());
    let buckets = vec![bucket(10, "wg0", 1, 1), bucket(10, "eth0", 1, 1), bucket(20, "eth0", 1, 1)];
    store.ingest_at(&batch("node-b", 0, 10, buckets), 10).unwrap();
    store.ingest_at(&batch("node-a", 0, 10, vec![bucket(10, "wg0", 1, 1)]), 10).unwrap();
    store.ingest_at(&batch("node-c", 0, 10, Vec::new()), 10).unwrap();
    let seen: Vec<(String, String)> = store
        .nodes()
        .into_iter()
        .map(|entry| (entry.node_id, entry.capture_point))
        .collect();
    assert_eq!(
        seen,
        vec![
            ("node-a".to_string(), "wg0".to_string()),
            ("node-b".to_string(), "eth0".to_string()),
            ("node-b".to_string(), "wg0".to_string()),
        ]
    );
    let entry = NodePoint {
        node_id: "n".into(),
        capture_point: "p".into(),
    };
    assert_eq!(inventory(&vec![entry.clone(), entry.clone()]), vec![entry]);
}

#[test]
fn series_are_summed_by_interval_in_order() {
    let mut store = store(u64::MAX);
    let buckets = vec![bucket(30, "p", 1, 10), bucket(10, "p", 2, 20), bucket(30, "q", 4, 40)];
    store.ingest_at(&batch("n", 0, 10, buckets), 10).unwrap();
    store.ingest_at(&batch("n", 1, 10, vec![bucket(20, "p", 0, 0)]), 10).unwrap();
    let all = store.series("n", None, None).unwrap();
    assert_eq!(
        all,
        vec![
            SeriesPoint { bucket_start: 10, packets: 2, bytes: 20 },
            SeriesPoint { bucket_start: 20, packets: 0, bytes: 0 },
            SeriesPoint { bucket_start: 30, packets: 5, bytes: 50 },
        ]
    );
    let stats = store.stats("n").unwrap();
    assert_eq!(all.iter().map(|point| point.packets).sum::<u64>(), stats.packets);
    assert_eq!(all.iter().map(|point| point.bytes).sum::<u64>(), stats.bytes);
    assert_eq!(store.series("n", Some(10), Some(20)).unwrap(), all[..2].to_vec());
    assert_eq!(store.series("n", Some(11), Some(19)).unwrap(), Vec::new());
    assert_eq!(store.series("other", None, None).unwrap(), Vec::new());
}

#[test]
fn ranges_are_checked() {
    let big = i64::MAX as u64 + 1;
    assert_eq!(series_range(None, None), Ok((0, i64::MAX as u64)));
    assert_eq!(series_range(Some(5), Some(5)), Ok((5, 5)));
    assert_eq!(series_range(Some(6), Some(5)), Err(ControlError::EmptyRange));
    assert_eq!(series_range(Some(big), None), Err(ControlError::EmptyRange));
    assert_eq!(
        series_range(Some(big), Some(big)),
        Err(ControlError::Range(RangeError { field: "series from" }))
    );
    assert_eq!(
        series_range(Some(1), Some(big)),
        Err(ControlError::Range(RangeError { field: "series to" }))
    );
    let refused = store(10).series("n", Some(2), Some(1)).unwrap_err();
    assert_eq!(refused.message(), "from must be less than or equal to to");
}

#[test]
fn sums_that_do_not_fit_fail_the_query() {
    let most = i64::MAX as u64;
    let mut store = store(u64::MAX);
    store.ingest_at(&batch("n", 0, 10, vec![bucket(10, "p", 1, most)]), 10).unwrap();
    assert_eq!(store.stats("n").unwrap().bytes, most);
    store.ingest_at(&batch("n", 1, 10, vec![bucket(20, "p", 1, 1)]), 10).unwrap();
    assert_eq!(store.stats("n").unwrap_err(), ControlError::TotalOverflow);
    assert_eq!(store.series("n", None, None).unwrap().len(), 2);
    store.ingest_at(&batch("n", 2, 10, vec![bucket(20, "p", 1, most)]), 10).unwrap();
    assert_eq!(store.series("n", None, None).unwrap_err(), ControlError::TotalOverflow);
    assert_eq!(store.series("n", None, Some(19)).unwrap().len(), 1);
    let point = SeriesPoint { bucket_start: 1, packets: 3, bytes: 4 };
    let stats = summarize(2, &vec![point, point]).unwrap();
    assert_eq!((stats.batches, stats.flow_buckets, stats.packets, stats.bytes), (2, 2, 6, 8));
    assert_eq!(
        series_between(&vec![point, point], 0, 5).unwrap(),
        vec![SeriesPoint { bucket_start: 1, packets: 6, bytes: 8 }]
    );
}

#[test]
fn control_pages_are_bounded() {
    assert_eq!(max_page_count(8192, 4096, 2), Ok(2));
    assert_eq!(max_page_count(8193, 4096, 3), Ok(3));
    let refused = max_page_count(8192, 4096, 3).unwrap_err();
    assert_eq!(
        refused.message(),
        "control database already uses 3 pages, above configured limit 2"
    );
    assert_eq!(
        max_page_count(u64::MAX, 1, 0),
        Err(ControlError::Range(RangeError { field: "max_page_count" }))
    );
}

#[test]
fn replies_carry_a_status() {
    let ack = ingest_reply("b".into(), Ok(IngestStatus::Duplicate)).unwrap();
    assert_eq!((ack.batch_id.as_str(), ack.status), ("b", IngestStatus::Duplicate));
    let reply = |error| {
        let refusal = ingest_reply("b".into(), Err(error)).unwrap_err();
        (refusal.status, refusal.message)
    };
    assert_eq!(reply(IngestError::SchemaVersion), (400, "invalid batch".to_string()));
    assert_eq!(reply(IngestError::Checksum), (400, "invalid batch".to_string()));
    assert_eq!(reply(IngestError::Conflict), (409, "batch identity conflict".to_string()));
    assert_eq!(
        reply(IngestError::Database(DatabaseError::StorageFull)),
        (507, "control storage limit reached".to_string())
    );
    assert_eq!(
        reply(IngestError::Database(DatabaseError::Failure("locked".into()))),
        (500, "locked".to_string())
    );
    assert_eq!(
        reply(IngestError::Encoding(EncodingCause::Body)),
        (500, "serialize batch body".to_string())
    );
    assert_eq!(internal("lock".into()).status, 500);
    assert_eq!(stats_refusal(ControlError::TotalOverflow).status, 500);
    let refusal = series_refusal(ControlError::EmptyRange);
    assert_eq!(refusal.status, 400);
    assert_eq!(refusal.message, "from must be less than or equal to to");
}

#[test]
fn a_full_database_refuses_and_changes_nothing() {
    let mut store = store(10);
    store.ingest_at(&envelope(), 100).unwrap();
    let late = batch("node-a", 1, 200, vec![bucket(200, "physical:eth0", 1, 1)]);
    let full = || Err(DatabaseError::StorageFull);
    assert_eq!(
        store.ingest_written(&late, 200, full()),
        Err(IngestError::Database(DatabaseError::StorageFull))
    );
    assert_eq!(store.stats("node-a").unwrap().bytes, 300);
    let mut broken = late.clone();
    broken.checksum.push('0');
    assert_eq!(store.ingest_written(&broken, 200, full()), Err(IngestError::Checksum));
    assert_eq!(store.ingest_written(&late, 200, Ok(())), Ok(IngestStatus::Inserted));
    assert_eq!(store.stats("node-a").unwrap().bytes, 1);
    assert_eq!(settle(IngestStatus::Duplicate, Ok(())), Ok(IngestStatus::Duplicate));
    assert_eq!(
        settle(IngestStatus::Inserted, Err(DatabaseError::Failure("locked".into()))),
        Err(IngestError::Database(DatabaseError::Failure("locked".into())))
    );
}

#[test]
fn a_store_opened_again_answers_as_before() {
    let limits = |max_database_bytes, max_age_seconds| ControlLimits {
        max_database_bytes,
        max_age_seconds,
    };
    let mut earlier = store(u64::MAX);
    earlier.ingest_at(&envelope(), 100).unwrap();
    earlier
        .ingest_at(&batch("node-b", 0, 100, vec![bucket(110, "wg0", 7, 70)]), 100)
        .unwrap();
    let (stats, series, nodes) = (
        earlier.stats("node-a").unwrap(),
        earlier.series("node-b", None, None).unwrap(),
        earlier.nodes(),
    );
    let mut again = ControlStore::restore(limits(8192, 1), 4096, 2, earlier.close()).unwrap();
    assert_eq!(again.stats("node-a").unwrap(), stats);
    assert_eq!(again.series("node-b", None, None).unwrap(), series);
    assert_eq!(again.nodes(), nodes);
    assert_eq!(again.ingest_at(&envelope(), 100).unwrap(), IngestStatus::Duplicate);

    match ControlStore::restore(limits(8192, 1), 4096, 3, again.close()) {
        Err(error) => assert_eq!(
            error,
            ControlError::TooManyPages {
                page_count: 3,
                max_pages: 2
            }
        ),
        Ok(_) => panic!("the database has too many pages"),
    }
    for refused in [limits(0, 1), limits(1, 0)] {
        assert!(matches!(
            ControlStore::restore(refused, 4096, 0, Vec::new()),
            Err(ControlError::ZeroLimit)
        ));
    }
}
