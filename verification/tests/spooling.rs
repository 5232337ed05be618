use flow_observability::addr::IpAddr;
use flow_observability::limits::{can_count, ControlLimitArgs, LimitArgs};
use flow_observability::model::{
    CaptureDiagnostics, Direction, FlowBucket, FlowKey, TransportProtocol,
};
use flow_observability::retention::{
    check_removed, cutoff_at, enforce_limits, judge, offer, SpoolRow,
};
use flow_observability::spool::{
    bucket_range, max_page_count, pages_for, prepare, Spool, SpoolError, SpoolLimits,
};
use flow_observability::sqlite::{integer, optional_unsigned, unsigned, RangeError};
use flow_observability::synthetic::{can_synthesize, synthetic, synthetic_bucket};

fn bucket(timestamp: u64) -> FlowBucket {
    FlowBucket {
        bucket_start: timestamp,
        key: FlowKey {
            capture_point: "physical:eth0".into(),
            direction: Direction::Egress,
            protocol: TransportProtocol::Tcp,
            source_ip: IpAddr::v4(127, 0, 0, 1),
            destination_ip: IpAddr::v4(1, 1, 1, 1),
            source_port: Some(40000),
            destination_port: Some(443),
        },
        packets: 1,
        bytes: 100,
    }
}

fn limits(max_payload_bytes: u64, max_age_seconds: u64) -> SpoolLimits {
    SpoolLimits {
        max_payload_bytes,
        max_age_seconds,
    }
}

fn put(spool: &mut Spool, created_at: u64, bucket_start: u64) -> u64 {
    spool
        .enqueue(
            "node".into(),
            "boot".into(),
            created_at,
            vec![bucket(bucket_start)],
            Default::default(),
        )
        .unwrap()
        .evicted_batches
}

#[test]
fn byte_limit_evicts_oldest_and_records_gap() {
    let mut spool = Spool::open(SpoolLimits {
        max_payload_bytes: 700,
        max_age_seconds: 3600,
    })
    .unwrap();
    spool
        .enqueue(
            "node".into(),
            "boot".into(),
            100,
            vec![bucket(100)],
            Default::default(),
        )
        .unwrap();
    let result = spool
        .enqueue(
            "node".into(),
            "boot".into(),
            110,
            vec![bucket(110)],
            Default::default(),
        )
        .unwrap();

    assert_eq!(result.evicted_batches, 1);
    assert_eq!(spool.status().unwrap().pending_batches, 1);
    assert_eq!(spool.gaps()[0].seq, 0);
    assert_eq!(spool.gaps()[0].reason, "spool_byte_limit");
}

#[test]
fn age_limit_records_bucket_range() {
    let mut spool = Spool::open(SpoolLimits {
        max_payload_bytes: 1_000_000,
        max_age_seconds: 10,
    })
    .unwrap();
    spool
        .enqueue(
            "node".into(),
            "boot".into(),
            100,
            vec![bucket(90)],
            Default::default(),
        )
        .unwrap();
    spool
        .enqueue(
            "node".into(),
            "boot".into(),
            120,
            vec![bucket(120)],
            Default::default(),
        )
        .unwrap();

    let gaps = spool.gaps();
    let gap = &gaps[0];
    assert_eq!((gap.min_bucket, gap.max_bucket), (Some(90), Some(90)));
    assert_eq!(gap.reason, "spool_age_limit");
}

#[test]
fn limits_must_be_positive() {
    for refused in [limits(0, 1), limits(1, 0)] {
        match Spool::open(refused) {
            Err(error) => {
                assert_eq!(error, SpoolError::ZeroLimit);
                assert_eq!(error.message(), "spool byte and age limits must be positive");
            }
            Ok(_) => panic!("a limit is zero"),
        }
    }
    assert_eq!(SpoolLimits::default(), limits(128 * 1024 * 1024, 24 * 60 * 60));
}

#[test]
fn a_batch_at_the_age_limit_stays() {
    let mut spool = Spool::open(limits(1_000_000, 10)).unwrap();
    assert_eq!(put(&mut spool, 100, 90), 0);
    assert_eq!(put(&mut spool, 110, 110), 0);
    assert_eq!(spool.status().unwrap().pending_batches, 2);
    assert_eq!(put(&mut spool, 111, 111), 1);
    let pending = spool.pending(10).unwrap();
    assert_eq!(pending.len(), 2);
    assert_eq!((pending[0].body.seq, pending[1].body.seq), (1, 2));
}

#[test]
fn a_batch_too_large_is_lost_alone() {
    let mut spool = Spool::open(limits(600, 3600)).unwrap();
    assert_eq!(put(&mut spool, 100, 100), 0);
    let before = spool.status().unwrap();
    let lost = spool
        .enqueue(
            "node".into(),
            "boot".into(),
            101,
            vec![bucket(30), bucket(10), bucket(20)],
            CaptureDiagnostics::default(),
        )
        .unwrap();
    assert_eq!(lost.evicted_batches, 1);
    assert!(lost.batch_id.starts_with("node:boot:1:"));
    let gaps = spool.gaps();
    assert_eq!(gaps.len(), 1);
    assert_eq!(gaps[0].reason, "batch_exceeds_spool_limit");
    assert_eq!((gaps[0].min_bucket, gaps[0].max_bucket), (Some(10), Some(30)));
    assert_eq!((gaps[0].seq, gaps[0].created_at), (1, 101));
    assert!(gaps[0].lost_bytes > 600);
    let after = spool.status().unwrap();
    assert_eq!(after.pending_batches, before.pending_batches);
    assert_eq!(after.pending_payload_bytes, before.pending_payload_bytes);
    assert_eq!(after.gap_events, 1);
}

#[test]
fn the_status_counts_what_is_pending() {
    let mut spool = Spool::open(limits(1_000_000, 3600)).unwrap();
    put(&mut spool, 100, 100);
    put(&mut spool, 101, 100);
    let pending = spool.pending(10).unwrap();
    let bytes: u64 = pending.iter().map(|batch| batch.payload().unwrap().len() as u64).sum();
    let status = spool.status().unwrap();
    assert_eq!(status.pending_batches, 2);
    assert_eq!(status.pending_payload_bytes, bytes);
    assert_eq!(status.gap_events, 0);
    assert_eq!(spool.pending(1).unwrap().len(), 1);
    assert_eq!(spool.pending(0).unwrap().len(), 0);
}

#[test]
fn more_batches_than_can_be_counted_are_refused() {
    let spool = Spool::open(limits(1_000, 10)).unwrap();
    match spool.pending(usize::MAX) {
        Err(error) => {
            assert_eq!(error, SpoolError::BatchLimit);
            assert_eq!(error.message(), "out of range integral type conversion attempted");
        }
        Ok(_) => panic!("no column can hold that limit"),
    }
}

#[test]
fn what_was_put_in_is_pending() {
    let mut spool = Spool::open(limits(1_000_000, 3600)).unwrap();
    put(&mut spool, 100, 90);
    let pending = spool.pending(5).unwrap();
    assert_eq!(pending[0].body.node_id, "node");
    assert_eq!(pending[0].body.boot_id, "boot");
    assert_eq!(pending[0].body.created_at, 100);
    assert_eq!(pending[0].body.buckets[0].bucket_start, 90);
    assert!(pending[0].has_valid_checksum().unwrap());
}

#[test]
fn an_acknowledgement_removes_the_named_batch() {
    let mut spool = Spool::open(limits(1_000_000, 3600)).unwrap();
    put(&mut spool, 100, 100);
    put(&mut spool, 101, 101);
    let pending = spool.pending(2).unwrap();
    let (id, checksum) = (pending[0].batch_id.clone(), pending[0].checksum.clone());
    let other = pending[1].checksum.clone();
    match spool.acknowledge(&id, &other) {
        Err(error) => {
            assert_eq!(error, SpoolError::UnknownBatch);
            assert_eq!(error.message(), "ack does not match a pending batch");
        }
        Ok(()) => panic!("the checksum is another batch's"),
    }
    assert_eq!(spool.status().unwrap().pending_batches, 2);
    spool.acknowledge(&id, &checksum).unwrap();
    assert_eq!(spool.status().unwrap().pending_batches, 1);
    assert_eq!(spool.pending(2).unwrap()[0].body.seq, 1);
    assert!(spool.acknowledge(&id, &checksum).is_err());
    assert!(spool.gaps().is_empty());
}

#[test]
fn sequence_numbers_are_never_used_twice() {
    let mut spool = Spool::open(limits(600, 3600)).unwrap();
    for index in 0..4 {
        put(&mut spool, 100 + index, 100);
    }
    let mut seen: Vec<u64> = spool.gaps().iter().map(|gap| gap.seq).collect();
    seen.extend(spool.pending(10).unwrap().iter().map(|batch| batch.body.seq));
    assert_eq!(seen, vec![0, 1, 2, 3]);
    assert_eq!(put(&mut spool, 104, 100), 1);
}

#[test]
fn numbers_too_large_for_a_column_are_refused() {
    let big = i64::MAX as u64 + 1;
    let mut spool = Spool::open(limits(1_000_000, 3600)).unwrap();
    let refused = spool.enqueue(
        "node".into(),
        "boot".into(),
        big,
        vec![bucket(1)],
        Default::default(),
    );
    assert_eq!(refused, Err(SpoolError::Range(RangeError { field: "created_at" })));
    let refused = spool.enqueue(
        "node".into(),
        "boot".into(),
        1,
        vec![bucket(1), bucket(big)],
        Default::default(),
    );
    assert_eq!(refused, Err(SpoolError::Range(RangeError { field: "max_bucket" })));
    let refused = spool.enqueue(
        "node".into(),
        "boot".into(),
        1,
        vec![bucket(big)],
        Default::default(),
    );
    assert_eq!(refused, Err(SpoolError::Range(RangeError { field: "min_bucket" })));
    assert_eq!(spool.status().unwrap().pending_batches, 0);
    assert_eq!(put(&mut spool, 5, 5), 0);
    assert_eq!(spool.pending(1).unwrap()[0].body.seq, 0);

    let mut narrow = Spool::open(limits(10, 3600)).unwrap();
    let refused = narrow.enqueue(
        "node".into(),
        "boot".into(),
        big,
        vec![bucket(1)],
        Default::default(),
    );
    assert_eq!(refused, Err(SpoolError::Range(RangeError { field: "gap created_at" })));
    let refused = narrow.enqueue(
        "node".into(),
        "boot".into(),
        1,
        vec![bucket(big)],
        Default::default(),
    );
    assert_eq!(refused, Err(SpoolError::Range(RangeError { field: "gap min_bucket" })));

    let mut wide = Spool::open(limits(big, 3600)).unwrap();
    let refused = wide.enqueue(
        "node".into(),
        "boot".into(),
        1,
        vec![bucket(1)],
        Default::default(),
    );
    assert_eq!(refused, Err(SpoolError::Range(RangeError { field: "max_payload_bytes" })));
    assert_eq!(wide.status().unwrap().pending_batches, 0);
}

#[test]
fn a_batch_may_have_no_buckets() {
    let mut spool = Spool::open(limits(400, 3600)).unwrap();
    for _ in 0..2 {
        spool
            .enqueue("n".into(), "b".into(), 7, Vec::new(), Default::default())
            .unwrap();
    }
    let gaps = spool.gaps();
    assert_eq!((gaps[0].min_bucket, gaps[0].max_bucket), (None, None));
    assert_eq!(gaps[0].reason, "spool_byte_limit");
}

fn row(seq: u64, created_at: u64, payload_bytes: u64) -> SpoolRow<()> {
    SpoolRow {
        seq,
        batch_id: format!("batch-{seq}"),
        checksum: String::new(),
        created_at,
        min_bucket: Some(seq),
        max_bucket: Some(seq + 1),
        payload_bytes,
        payload: (),
    }
}

#[test]
fn the_first_rows_go_until_the_others_fit() {
    let mut rows = vec![row(1, 95, 50), row(2, 50, 30), row(3, 99, 40), row(4, 50, 5), row(5, 100, 20)];
    let lost = enforce_limits(&mut rows, limits(100, 20), 100).unwrap();
    let seen: Vec<(u64, &str, u64)> = lost
        .iter()
        .map(|gap| (gap.seq, gap.reason.as_str(), gap.lost_bytes))
        .collect();
    assert_eq!(
        seen,
        vec![(1, "spool_byte_limit", 50), (2, "spool_age_limit", 30), (4, "spool_age_limit", 5)]
    );
    assert!(lost.iter().all(|gap| gap.created_at == 100));
    let left: Vec<u64> = rows.iter().map(|row| row.seq).collect();
    assert_eq!(left, vec![3, 5]);
}

#[test]
fn sums_that_do_not_fit_are_refused() {
    let half = i64::MAX as u64 / 2 + 1;
    let mut rows = vec![row(1, 1, half), row(2, 1, half)];
    match enforce_limits(&mut rows, limits(100, 20), 10) {
        Err(error) => {
            assert_eq!(error, SpoolError::TotalOverflow);
            assert_eq!(error.message(), "integer overflow");
        }
        Ok(_) => panic!("the sum does not fit"),
    }
    assert_eq!(rows.len(), 2);
    match enforce_limits(&mut rows, limits(100, 1), u64::MAX) {
        Err(error) => assert_eq!(
            error.message(),
            "spool cutoff exceeds SQLite INTEGER range"
        ),
        Ok(_) => panic!("the cutoff does not fit"),
    }
}

#[test]
fn a_gap_at_a_time_that_does_not_fit_is_refused() {
    let late = i64::MAX as u64 + 1;
    let mut rows = vec![row(1, 5, 10), row(2, late - 1, 10)];
    match enforce_limits(&mut rows, limits(100, 2), late) {
        Err(error) => assert_eq!(
            error,
            SpoolError::Range(RangeError { field: "gap created_at" })
        ),
        Ok(_) => panic!("the time of the gap does not fit"),
    }
    match enforce_limits(&mut rows, limits(10, u64::MAX), late) {
        Err(error) => assert_eq!(error.message(), "gap created_at exceeds SQLite INTEGER range"),
        Ok(_) => panic!("the time of the gap does not fit"),
    }
    assert_eq!(rows.len(), 2);
    assert!(enforce_limits(&mut rows, limits(100, u64::MAX), late).unwrap().is_empty());
    assert_eq!(rows.len(), 2);
}

#[test]
fn an_offer_changes_rows_and_gaps_or_nothing() {
    let mut rows = vec![row(1, 95, 50)];
    let mut gaps = Vec::new();
    let stored = offer(&mut rows, &mut gaps, 2, row(2, 100, 60), limits(100, 20)).unwrap();
    assert!(stored.stored);
    assert_eq!(stored.evicted.len(), 1);
    assert_eq!((rows.len(), rows[0].seq), (1, 2));
    assert_eq!((gaps.len(), gaps[0].seq), (1, 1));
    let lost = offer(&mut rows, &mut gaps, 3, row(3, 100, 101), limits(100, 20)).unwrap();
    assert!(!lost.stored);
    assert_eq!(lost.evicted[0].reason, "batch_exceeds_spool_limit");
    assert_eq!((rows.len(), gaps.len()), (1, 2));
    let mut same = row(4, 100, 1);
    same.batch_id = "batch-2".into();
    match offer(&mut rows, &mut gaps, 4, same, limits(100, 20)) {
        Err(error) => {
            assert_eq!(error, SpoolError::DuplicateBatch);
            assert_eq!(error.message(), "UNIQUE constraint failed: batches.batch_id");
        }
        Ok(_) => panic!("the identity is pending"),
    }
    let after_last = i64::MAX as u64 + 1;
    assert!(matches!(
        offer(&mut rows, &mut gaps, after_last, row(after_last, 100, 1), limits(100, 20)),
        Err(SpoolError::SequenceExhausted)
    ));
    assert_eq!((rows.len(), gaps.len()), (1, 2));
}

#[test]
fn a_spool_opened_again_holds_what_it_held() {
    let mut spool = Spool::open(limits(1_000_000, 3600)).unwrap();
    for index in 0..3 {
        put(&mut spool, 100 + index, 100);
    }
    let (status, pending) = (spool.status().unwrap(), spool.pending(9).unwrap());
    let mut again = Spool::restore(limits(700, 3600), spool.close()).unwrap();
    assert_eq!(again.status().unwrap(), status);
    assert_eq!(again.pending(9).unwrap(), pending);
    assert!(again.gaps().is_empty());
    assert!(again.status().unwrap().pending_payload_bytes > 700);

    assert_eq!(put(&mut again, 110, 110), 3);
    assert_eq!(again.pending(9).unwrap()[0].body.seq, 3);
    assert!(again.status().unwrap().pending_payload_bytes <= 700);
    let gaps = again.gaps();
    let seen: Vec<u64> = gaps.iter().map(|gap| gap.seq).collect();
    assert_eq!(seen, vec![0, 1, 2]);

    let again = Spool::restore(limits(1_000_000, 1), again.close()).unwrap();
    assert_eq!(again.gaps(), gaps);
    for refused in [limits(0, 1), limits(1, 0)] {
        let parts = Spool::open(limits(1, 1)).unwrap().close();
        assert!(matches!(Spool::restore(refused, parts), Err(SpoolError::ZeroLimit)));
    }
}

#[test]
fn every_number_is_pending_lost_or_acknowledged() {
    let mut spool = Spool::open(limits(1_200, 3600)).unwrap();
    let mut acknowledged = Vec::new();
    for index in 0..6_u64 {
        put(&mut spool, 100 + index, 100);
        if index % 2 == 0 {
            let newest = spool.pending(9).unwrap().pop().unwrap();
            assert_eq!(newest.body.seq, index);
            assert!(newest.batch_id.starts_with(&format!("node:boot:{index}:")));
            spool.acknowledge(&newest.batch_id, &newest.checksum).unwrap();
            acknowledged.push(newest.body.seq);
        }
        spool = Spool::restore(limits(600 + 100 * index, 3600), spool.close()).unwrap();
    }
    let mut all: Vec<u64> = spool.gaps().iter().map(|gap| gap.seq).collect();
    all.extend(spool.pending(9).unwrap().iter().map(|batch| batch.body.seq));
    all.extend(acknowledged);
    all.sort();
    assert_eq!(all, vec![0, 1, 2, 3, 4, 5]);
}

#[test]
fn an_offered_batch_is_stored_or_lost() {
    assert!(judge(&row(1, 1, 100), limits(100, 1)).unwrap().is_none());
    let gap = judge(&row(1, 1, 101), limits(100, 1)).unwrap().unwrap();
    assert_eq!((gap.seq, gap.lost_bytes, gap.created_at), (1, 101, 1));
    assert_eq!(check_removed(1), Ok(()));
    assert_eq!(check_removed(0), Err(SpoolError::UnknownBatch));
    assert_eq!(check_removed(2), Err(SpoolError::UnknownBatch));
    assert_eq!(cutoff_at(100, 30), 70);
    assert_eq!(cutoff_at(10, 30), 0);
}

#[test]
fn a_prepared_batch_is_measured() {
    let prepared = prepare(
        "node".into(),
        "boot".into(),
        3,
        9,
        vec![bucket(20), bucket(5)],
        Default::default(),
    )
    .unwrap();
    assert_eq!(prepared.seq, 3);
    assert_eq!(prepared.payload_bytes, prepared.payload.payload().unwrap().len() as u64);
    assert_eq!((prepared.min_bucket, prepared.max_bucket), (Some(5), Some(20)));
    assert_eq!(prepared.batch_id, prepared.payload.batch_id);
}

#[test]
fn bucket_ranges_are_tight() {
    assert_eq!(bucket_range(&vec![bucket(20), bucket(5), bucket(7)]), (Some(5), Some(20)));
    assert_eq!(bucket_range(&Vec::new()), (None, None));
}

#[test]
fn page_limits_are_rounded_up() {
    assert_eq!(pages_for(4096, 4096), 1);
    assert_eq!(pages_for(4097, 4096), 2);
    assert_eq!(pages_for(0, 4096), 0);
    assert_eq!(max_page_count(1, 4096), Ok(4097));
    assert_eq!(max_page_count(0, 4096), Ok(4096));
    assert_eq!(
        max_page_count(u64::MAX - 16_777_216, 1),
        Err(RangeError { field: "max_page_count" })
    );
}

#[test]
fn columns_hold_signed_numbers() {
    assert_eq!(integer(i64::MAX as u64, "seq"), Ok(i64::MAX));
    assert_eq!(
        integer(i64::MAX as u64 + 1, "seq").unwrap_err().message(),
        "seq exceeds SQLite INTEGER range"
    );
    assert_eq!(unsigned(7, 2), Ok(7));
    assert_eq!(
        unsigned(-7, 2).unwrap_err().message(),
        "negative value -7 for unsigned field"
    );
    assert_eq!(optional_unsigned(None, 0), Ok(None));
    assert_eq!(optional_unsigned(Some(4), 0), Ok(Some(4)));
    assert_eq!(optional_unsigned(Some(-4), 3).unwrap_err().index, 3);
}

#[test]
fn limits_are_given_in_mebibytes_and_hours() {
    let spool = LimitArgs {
        max_spool_mib: 128,
        max_spool_hours: 24,
    };
    assert_eq!(spool.limits(), SpoolLimits::default());
    let control = ControlLimitArgs {
        max_control_mib: 2,
        max_control_hours: 3,
    };
    assert_eq!(control.limits().max_database_bytes, 2_097_152);
    assert_eq!(control.limits().max_age_seconds, 10_800);
    assert!(can_count(128, 24));
    assert!(can_count(u64::MAX >> 20, u64::MAX / 3600));
    assert!(!can_count((u64::MAX >> 20) + 1, 1));
    assert!(!can_count(1, u64::MAX / 3600 + 1));
}

#[test]
fn synthetic_batches_grow_with_their_index() {
    let bucket = synthetic_bucket(1_000, 2);
    assert_eq!(bucket.bucket_start, 1_020);
    assert_eq!((bucket.packets, bucket.bytes), (12, 1_200));
    assert_eq!(bucket.key.capture_point, "synthetic:fixture");
    assert_eq!(bucket.key.source_ip, IpAddr::v4(10, 0, 0, 2));
    assert_eq!(bucket.key.destination_ip, IpAddr::v4(1, 1, 1, 1));
    assert_eq!(bucket.key.source_port, Some(40_002));
    assert_eq!(synthetic_bucket(0, 65_536).key.source_port, Some(40_000));
    assert!(can_synthesize(0, 25_535));
    assert!(!can_synthesize(0, 25_536));
    assert!(!can_synthesize(u64::MAX, 1));
    assert!(can_synthesize(u64::MAX, 0));

    let mut spool = Spool::open(SpoolLimits::default()).unwrap();
    synthetic(&mut spool, &"synthetic".to_string(), 3, 1_750_000_000).unwrap();
    let pending = spool.pending(10).unwrap();
    assert_eq!(pending.len(), 3);
    assert_eq!(pending[2].body.created_at, 1_750_000_020);
    assert_eq!(pending[2].body.boot_id, "synthetic-boot");
    let packets: u64 = pending.iter().map(|batch| batch.body.buckets[0].packets).sum();
    assert_eq!(packets, 33);
}

#[test]
fn synthetic_batches_stop_at_the_first_refusal() {
    let mut spool = Spool::open(SpoolLimits::default()).unwrap();
    let now = i64::MAX as u64 - 10;
    let refused = synthetic(&mut spool, &"n".to_string(), 5, now);
    assert_eq!(refused, Err(SpoolError::Range(RangeError { field: "created_at" })));
    assert_eq!(spool.status().unwrap().pending_batches, 2);
}
