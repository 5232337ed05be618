use flow_observability::addr::IpAddr;
use flow_observability::capture::{
    check_config, CaptureConfig, CaptureSession, CaptureStats, Frame, NoLocalAddress, Progress, Step,
};
use flow_observability::control::{ControlLimits, ControlStore};
use flow_observability::http::ingest_reply;
use flow_observability::model::{Direction, IngestAck, IngestStatus};
use flow_observability::packet::LINKTYPE_RAW;
use flow_observability::retention::SpoolError;
use flow_observability::spool::{Spool, SpoolLimits};
use flow_observability::synthetic::synthetic;
use flow_observability::upload::{check_reply, upload_once, Reply, Upload, UploadError};

fn filled() -> Spool {
    let mut spool = Spool::open(SpoolLimits::default()).unwrap();
    synthetic(&mut spool, &"node-a".to_string(), 3, 1_750_000_000).unwrap();
    synthetic(&mut spool, &"node-b".to_string(), 2, 1_750_000_000).unwrap();
    spool
}

fn ack(batch_id: &str) -> Reply {
    Reply::Ack(IngestAck {
        batch_id: batch_id.into(),
        status: IngestStatus::Inserted,
    })
}

fn fixture_bytes(first: &str, second: &str) -> u64 {
    let mut spool = Spool::open(SpoolLimits::default()).unwrap();
    synthetic(&mut spool, &first.to_string(), 3, 1_750_000_000).unwrap();
    synthetic(&mut spool, &second.to_string(), 2, 1_750_000_000).unwrap();
    let status = spool.status().unwrap();
    assert_eq!(status.pending_batches, 5);
    status.pending_payload_bytes
}

#[test]
fn five_fixture_batches_have_their_size() {
    assert_eq!(fixture_bytes("node-a", "node-b"), 2_845);
    assert_eq!(fixture_bytes("fixture", "fixture-b"), 2_863);
}

#[test]
fn two_nodes_share_a_spool_and_a_store() {
    let mut spool = filled();
    assert_eq!(spool.status().unwrap().pending_batches, 5);

    let offline: Vec<Reply> = (0..5).map(|_| Reply::Failed).collect();
    assert!(upload_once(&mut spool, 100, &offline).is_err());
    assert_eq!(spool.status().unwrap().pending_batches, 5);

    let mut store = ControlStore::open(ControlLimits::default()).unwrap();
    let mut replies = Vec::new();
    for envelope in spool.pending(100).unwrap() {
        let outcome = store.ingest_at(&envelope, 1_750_000_100);
        replies.push(match ingest_reply(envelope.batch_id, outcome) {
            Ok(ack) => Reply::Ack(ack),
            Err(_) => Reply::Failed,
        });
    }
    let report = upload_once(&mut spool, 100, &replies).unwrap();
    assert_eq!(report.acknowledged, 5);
    assert_eq!(spool.status().unwrap().pending_batches, 0);

    let first = store.stats("node-a").unwrap();
    assert_eq!((first.batches, first.flow_buckets, first.packets, first.bytes), (3, 3, 33, 3_300));
    let second = store.stats("node-b").unwrap();
    assert_eq!(
        (second.batches, second.flow_buckets, second.packets, second.bytes),
        (2, 2, 21, 2_100)
    );
}

#[test]
fn an_upload_stops_at_the_first_bad_reply() {
    let mut spool = filled();
    let pending = spool.pending(5).unwrap();
    let replies = vec![ack(&pending[0].batch_id), ack(&pending[1].batch_id), Reply::Failed, Reply::Failed];
    let stopped = upload_once(&mut spool, 4, &replies).unwrap_err();
    assert_eq!(stopped, UploadError::Request(pending[2].batch_id.clone()));
    assert_eq!(stopped.message(), format!("upload batch {}", pending[2].batch_id));
    let left = spool.pending(5).unwrap();
    assert_eq!(left.len(), 3);
    assert_eq!(left[0].batch_id, pending[2].batch_id);

    let stopped = upload_once(&mut spool, 1, &vec![ack(&pending[0].batch_id)]).unwrap_err();
    assert_eq!(stopped, UploadError::OtherBatch);
    assert_eq!(stopped.message(), "ingest ack batch id does not match request");
    let stopped = upload_once(&mut spool, 1, &vec![Reply::Unreadable]).unwrap_err();
    assert_eq!(stopped.message(), "decode ingest ack");
    assert_eq!(spool.status().unwrap().pending_batches, 3);

    let report = upload_once(&mut spool, 1, &vec![ack(&left[0].batch_id)]).unwrap();
    assert_eq!(report.acknowledged, 1);
    assert_eq!(spool.status().unwrap().pending_batches, 2);
    let refused = upload_once(&mut spool, usize::MAX, &replies).unwrap_err();
    assert_eq!(refused, UploadError::Spool(SpoolError::BatchLimit));
}

#[test]
fn an_upload_goes_on_batch_by_batch() {
    let pending = filled().pending(2).unwrap();
    let ids: Vec<String> = pending.iter().map(|batch| batch.batch_id.clone()).collect();
    assert_eq!(check_reply(&pending[0], &ack(&ids[0])), Ok(()));
    assert_eq!(check_reply(&pending[0], &ack(&ids[1])), Err(UploadError::OtherBatch));
    let mut upload = Upload::new(pending);
    assert_eq!(upload.current().unwrap().batch_id, ids[0]);
    assert_eq!(
        upload.advance(0),
        Err(UploadError::Spool(SpoolError::UnknownBatch))
    );
    assert_eq!(upload.report().acknowledged, 0);
    upload.advance(1).unwrap();
    assert_eq!(upload.current().unwrap().batch_id, ids[1]);
    upload.advance(1).unwrap();
    assert!(upload.current().is_none());
    assert_eq!(upload.report().acknowledged, 2);
}

fn config(local_ips: Vec<IpAddr>, max_batches: Option<u64>) -> CaptureConfig {
    CaptureConfig {
        interface: "eth0".into(),
        local_ips,
        node_id: "node-a".into(),
        boot_id: "boot".into(),
        capture_point: "physical:eth0".into(),
        bucket_seconds: 10,
        limits: SpoolLimits::default(),
        max_batches,
    }
}

fn frame(timestamp: u64, wire_bytes: u64) -> Option<Frame> {
    let mut data = vec![0_u8; 24];
    data[0] = 0x45;
    data[9] = 17;
    data[12..16].copy_from_slice(&[192, 0, 2, 10]);
    data[16..20].copy_from_slice(&[1, 1, 1, 1]);
    data[21] = 53;
    data[23] = 54;
    Some(Frame {
        data,
        timestamp,
        wire_bytes,
    })
}

fn stats(received: u64, dropped: u64, interface_dropped: u64) -> CaptureStats {
    CaptureStats {
        received,
        dropped,
        interface_dropped,
    }
}

#[test]
fn a_capture_needs_a_local_address() {
    assert_eq!(check_config(&config(Vec::new(), None)), Err(NoLocalAddress));
    assert_eq!(
        NoLocalAddress.message(),
        "at least one --local-ip is required to classify direction"
    );
    assert_eq!(check_config(&config(vec![IpAddr::v4(1, 1, 1, 1)], None)), Ok(()));
}

#[test]
fn a_run_turns_frames_into_batches() {
    let local = vec![IpAddr::v4(192, 0, 2, 10)];
    let mut session = CaptureSession::new(config(local, Some(2)), LINKTYPE_RAW);
    let mut spool = Spool::open(SpoolLimits::default()).unwrap();
    let broken = Some(Frame {
        data: Vec::new(),
        timestamp: 105,
        wire_bytes: 60,
    });

    assert_eq!(session.step(&mut spool, &frame(101, 60), 101, stats(1, 0, 0), 0), Ok(Step::Continue));
    assert_eq!(session.step(&mut spool, &broken, 105, stats(2, 0, 0), 0), Ok(Step::Continue));
    assert_eq!(session.step(&mut spool, &frame(109, 40), 109, stats(3, 0, 0), 0), Ok(Step::Continue));
    assert_eq!(spool.status().unwrap().pending_batches, 0);

    assert_eq!(session.step(&mut spool, &None, 110, stats(3, 1, 0), 0), Ok(Step::Continue));
    let first = spool.pending(9).unwrap();
    assert_eq!(first.len(), 1);
    assert_eq!((first[0].body.node_id.as_str(), first[0].body.created_at), ("node-a", 110));
    assert_eq!(first[0].body.buckets.len(), 1);
    let bucket = &first[0].body.buckets[0];
    assert_eq!((bucket.bucket_start, bucket.packets, bucket.bytes), (100, 2, 100));
    assert_eq!(bucket.key.direction, Direction::Egress);
    assert_eq!((bucket.key.source_port, bucket.key.destination_port), (Some(53), Some(54)));
    let diagnostics = first[0].body.diagnostics;
    assert_eq!((diagnostics.received, diagnostics.dropped), (3, 1));
    assert_eq!((diagnostics.interface_dropped, diagnostics.parse_errors), (0, 1));

    assert_eq!(session.step(&mut spool, &frame(112, 1), 112, stats(4, 1, 0), 0), Ok(Step::Continue));
    assert_eq!(
        session.step(&mut spool, &frame(121, 2), 121, stats(5, 0, 2), 122),
        Ok(Step::Finished)
    );
    let all = spool.pending(9).unwrap();
    assert_eq!(all.len(), 3);
    let diagnostics = all[1].body.diagnostics;
    assert_eq!((diagnostics.received, diagnostics.dropped), (2, 0));
    assert_eq!((diagnostics.interface_dropped, diagnostics.parse_errors), (2, 0));
    assert_eq!((all[2].body.created_at, all[2].body.buckets[0].bytes), (122, 2));
    assert_eq!(all[2].body.diagnostics.received, 0);
}

#[test]
fn a_run_without_a_maximum_goes_on() {
    let mut session = CaptureSession::new(config(vec![IpAddr::v4(1, 1, 1, 1)], None), LINKTYPE_RAW);
    assert_eq!(session.config().capture_point, "physical:eth0");
    let outcome = session.read_frame(&frame(5, 7).unwrap().data, 5, 7);
    assert!(session.has_room(&outcome));
    session.note(outcome);
    assert!(session.take_due(9).is_empty());
    let due = session.take_due(10);
    assert_eq!(due.len(), 1);
    assert_eq!(due[0].key.direction, Direction::Ingress);
    assert!(session.can_emit());
    assert!(matches!(session.batch_emitted(), Progress::Continue));
    let diagnostics = session.take_diagnostics(stats(9, 0, 0));
    assert_eq!(diagnostics.received, 9);
    assert_eq!(session.take_diagnostics(stats(4, 0, 0)).received, 0);
}

#[test]
fn a_finished_run_with_nothing_left_adds_no_batch() {
    let mut session = CaptureSession::new(config(vec![IpAddr::v4(1, 1, 1, 1)], Some(1)), LINKTYPE_RAW);
    let mut spool = Spool::open(SpoolLimits::default()).unwrap();
    assert_eq!(
        session.step(&mut spool, &frame(5, 7), 20, stats(1, 0, 0), 21),
        Ok(Step::Finished)
    );
    assert_eq!(spool.status().unwrap().pending_batches, 1);
}

#[test]
fn a_run_accounts_for_every_frame() {
    let mut session = CaptureSession::new(config(vec![IpAddr::v4(1, 1, 1, 1)], Some(3)), LINKTYPE_RAW);
    let mut spool = Spool::open(SpoolLimits::default()).unwrap();
    let times = [3, 4, 11, 12, 25, 25, 26, 31, 33];
    let mut steps = Vec::new();
    for (index, time) in times.iter().enumerate() {
        let wire_bytes = 100 + index as u64;
        let step = session.step(&mut spool, &frame(*time, wire_bytes), *time, stats(0, 0, 0), *time);
        steps.push(step.unwrap());
        if steps.last() == Some(&Step::Finished) {
            break;
        }
    }
    let seen = steps.len() as u64;
    assert_eq!(steps.last(), Some(&Step::Finished));
    let batches = spool.pending(99).unwrap();
    assert!(batches.iter().all(|batch| !batch.body.buckets.is_empty()));
    let buckets: Vec<_> = batches.iter().flat_map(|batch| &batch.body.buckets).collect();
    assert_eq!(buckets.iter().map(|bucket| bucket.packets).sum::<u64>(), seen);
    assert_eq!(
        buckets.iter().map(|bucket| bucket.bytes).sum::<u64>(),
        (0..seen).map(|index| 100 + index).sum::<u64>()
    );
    assert!(buckets.iter().all(|bucket| bucket.bucket_start % 10 == 0 && bucket.packets >= 1));
}
