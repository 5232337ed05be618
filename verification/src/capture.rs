//! A capture run: frames become packets, packets become buckets, and buckets become batches.

use vstd::prelude::*;

use crate::addr::IpAddr;
use crate::aggregate::{interval_start, Aggregator};
use crate::batch::EnvelopeModel;
use crate::model::{CaptureDiagnostics, FlowBucket, FlowBucketModel, FlowKeyModel};
use crate::packet::{parse_packet, PacketError, PacketMeta, PacketModel};
use crate::retention::{SpoolError, SpoolLimits, TableModel};
use crate::spool::Spool;

verus! {

/// What is captured, and how much of it.
pub struct CaptureConfig {
    pub interface: String,
    pub local_ips: Vec<IpAddr>,
    pub node_id: String,
    pub boot_id: String,
    pub capture_point: String,
    pub bucket_seconds: u64,
    pub limits: SpoolLimits,
    pub max_batches: Option<u64>,
}

/// The value of a [`CaptureConfig`].
pub struct ConfigModel {
    pub interface: Seq<char>,
    pub local_ips: Seq<IpAddr>,
    pub node_id: Seq<char>,
    pub boot_id: Seq<char>,
    pub capture_point: Seq<char>,
    pub bucket_seconds: u64,
    pub limits: SpoolLimits,
    pub max_batches: Option<u64>,
}

impl View for CaptureConfig {
    type V = ConfigModel;

    open spec fn view(&self) -> ConfigModel {
        ConfigModel {
            interface: self.interface@,
            local_ips: self.local_ips@,
            node_id: self.node_id@,
            boot_id: self.boot_id@,
            capture_point: self.capture_point@,
            bucket_seconds: self.bucket_seconds,
            limits: self.limits,
            max_batches: self.max_batches,
        }
    }
}

/// Without a local address no direction can be told.
#[derive(Debug, Clone, Copy, PartialEq, Eq, Structural)]
pub struct NoLocalAddress;

impl NoLocalAddress {
    /// The words for the error.
    pub open spec fn words(self) -> Seq<char> {
        "at least one --local-ip is required to classify direction"@
    }

    /// The error in words.
    pub fn message(&self) -> (r: String)
        ensures
            r@ == self.words(),
    {
        "at least one --local-ip is required to classify direction".to_owned()
    }
}

/// What the capture itself counted since it was opened.
#[derive(Debug, Clone, Copy, PartialEq, Eq, Structural)]
pub struct CaptureStats {
    pub received: u64,
    pub dropped: u64,
    pub interface_dropped: u64,
}

/// The counts of a capture that was just opened.
pub open spec fn no_stats() -> CaptureStats {
    CaptureStats { received: 0, dropped: 0, interface_dropped: 0 }
}

/// A captured frame.
pub struct Frame {
    pub data: Vec<u8>,
    pub timestamp: u64,
    pub wire_bytes: u64,
}

/// The state of a capture run.
pub struct SessionModel {
    pub config: ConfigModel,
    pub link_type: i32,
    pub flows: Map<(u64, FlowKeyModel), (u64, u64)>,
    pub parse_errors: u64,
    pub prior: CaptureStats,
    pub emitted: u64,
}

/// What a frame is to a capture run.
pub open spec fn outcome_of(
    session: SessionModel,
    frame: Option<Frame>,
) -> Result<Option<PacketModel>, PacketError> {
    match frame {
        None => Ok(None),
        Some(frame) => crate::packet::packet_of(
            frame.data@,
            session.link_type,
            frame.timestamp,
            frame.wire_bytes,
            session.config.capture_point,
            session.config.local_ips,
        ),
    }
}

/// The interval and flow that a packet counts towards.
pub open spec fn count_key(session: SessionModel, packet: PacketModel) -> (u64, FlowKeyModel) {
    (
        crate::aggregate::interval_of(packet.timestamp, session.config.bucket_seconds),
        packet.key,
    )
}

/// Whether the counters have room for what a frame is.
pub open spec fn room_for(
    session: SessionModel,
    outcome: Result<Option<PacketModel>, PacketError>,
) -> bool {
    match outcome {
        Ok(Some(packet)) => crate::aggregate::room_in(
            session.flows,
            count_key(session, packet),
            packet.wire_bytes,
        ),
        Ok(None) => true,
        Err(_) => session.parse_errors < u64::MAX,
    }
}

/// The run after what a frame is: a packet counts towards its flow, anything unreadable counts as
/// an error, and anything else does not count.
pub open spec fn noted(
    session: SessionModel,
    outcome: Result<Option<PacketModel>, PacketError>,
) -> SessionModel {
    match outcome {
        Ok(Some(packet)) => SessionModel {
            flows: crate::aggregate::with_packet(
                session.flows,
                count_key(session, packet),
                packet.wire_bytes,
            ),
            ..session
        },
        Ok(None) => session,
        Err(_) => SessionModel { parse_errors: (session.parse_errors + 1) as u64, ..session },
    }
}

/// The counts of the intervals that are over.
pub open spec fn due(session: SessionModel, now: u64) -> Map<(u64, FlowKeyModel), (u64, u64)> {
    let current = crate::aggregate::interval_of(now, session.config.bucket_seconds);
    session.flows.restrict(Set::new(|key: (u64, FlowKeyModel)| key.0 < current))
}

/// The run without the counts of the intervals that are over.
pub open spec fn after_due(session: SessionModel, now: u64) -> SessionModel {
    let current = crate::aggregate::interval_of(now, session.config.bucket_seconds);
    SessionModel {
        flows: session.flows.restrict(Set::new(|key: (u64, FlowKeyModel)| key.0 >= current)),
        ..session
    }
}

/// Buckets that carry these counts, in order.
pub open spec fn carries(
    buckets: Seq<FlowBucketModel>,
    flows: Map<(u64, FlowKeyModel), (u64, u64)>,
) -> bool {
    crate::aggregate::in_order(buckets) && crate::aggregate::counts(buckets) == flows
}

/// How much a count has grown; nothing where it went back.
pub open spec fn growth(current: u64, prior: u64) -> u64 {
    if current >= prior {
        (current - prior) as u64
    } else {
        0
    }
}

/// The diagnostics of the next batch.
pub open spec fn diagnostics_of(session: SessionModel, current: CaptureStats) -> CaptureDiagnostics {
    CaptureDiagnostics {
        received: growth(current.received, session.prior.received),
        dropped: growth(current.dropped, session.prior.dropped),
        interface_dropped: growth(current.interface_dropped, session.prior.interface_dropped),
        parse_errors: session.parse_errors,
    }
}

/// The run once the diagnostics of a batch were taken.
pub open spec fn reported(session: SessionModel, current: CaptureStats) -> SessionModel {
    SessionModel { parse_errors: 0, prior: current, ..session }
}

/// The run once a batch was put into the spool.
pub open spec fn emitted(session: SessionModel) -> SessionModel {
    SessionModel { emitted: (session.emitted + 1) as u64, ..session }
}

/// Whether the run has put as many batches into the spool as it was asked for.
pub open spec fn is_complete(session: SessionModel) -> bool {
    session.config.max_batches matches Some(maximum) && session.emitted >= maximum
}

/// What comes after a batch.
pub enum Progress {
    /// The next frame.
    Continue,
    /// The end of the run, once these buckets are a batch too, where there are any.
    Finish(Vec<FlowBucket>),
}

/// Whether a run goes on.
#[derive(Debug, Clone, Copy, PartialEq, Eq, Structural)]
pub enum Step {
    Continue,
    Finished,
}

/// A capture run.
pub struct CaptureSession {
    config: CaptureConfig,
    link_type: i32,
    aggregator: Aggregator,
    parse_errors: u64,
    prior: CaptureStats,
    emitted: u64,
}

impl View for CaptureSession {
    type V = SessionModel;

    closed spec fn view(&self) -> SessionModel {
        SessionModel {
            config: self.config@,
            link_type: self.link_type,
            flows: self.aggregator@,
            parse_errors: self.parse_errors,
            prior: self.prior,
            emitted: self.emitted,
        }
    }
}

/// Checks that a run can tell directions.
pub fn check_config(config: &CaptureConfig) -> (r: Result<(), NoLocalAddress>)
    ensures
        r == (if config@.local_ips.len() == 0 {
            Err::<(), NoLocalAddress>(NoLocalAddress)
        } else {
            Ok(())
        }),
{
    if config.local_ips.is_empty() {
        return Err(NoLocalAddress);
    }
    Ok(())
}

fn grown(current: u64, prior: u64) -> (r: u64)
    ensures
        r == growth(current, prior),
{
    if current >= prior {
        current - prior
    } else {
        0
    }
}

impl CaptureSession {
    /// What holds of every run.
    pub closed spec fn wf(&self) -> bool {
        &&& self.config.bucket_seconds > 0
        &&& self.aggregator.wf()
        &&& self.aggregator.seconds() == self.config.bucket_seconds
    }

    /// A run over frames of that link type.
    pub fn new(config: CaptureConfig, link_type: i32) -> (r: Self)
        requires
            config@.bucket_seconds > 0,
        ensures
            r.wf(),
            r@ == (SessionModel {
                config: config@,
                link_type,
                flows: Map::empty(),
                parse_errors: 0,
                prior: no_stats(),
                emitted: 0,
            }),
    {
        let aggregator = Aggregator::new(config.bucket_seconds);
        CaptureSession {
            config,
            link_type,
            aggregator,
            parse_errors: 0,
            prior: CaptureStats { received: 0, dropped: 0, interface_dropped: 0 },
            emitted: 0,
        }
    }

    /// The settings of the run.
    pub fn config(&self) -> (r: &CaptureConfig)
        ensures
            r@ == self@.config,
    {
        &self.config
    }

    /// What a frame is to the run.
    pub fn read_frame(&self, data: &[u8], timestamp: u64, wire_bytes: u64) -> (r: Result<
        Option<PacketMeta>,
        PacketError,
    >)
        ensures
            crate::packet::parse_model(r) == crate::packet::packet_of(
                data@,
                self@.link_type,
                timestamp,
                wire_bytes,
                self@.config.capture_point,
                self@.config.local_ips,
            ),
    {
        parse_packet(
            data,
            self.link_type,
            timestamp,
            wire_bytes,
            self.config.capture_point.as_str(),
            self.config.local_ips.as_slice(),
        )
    }

    /// Whether the counters have room for what a frame is.
    pub fn has_room(&self, outcome: &Result<Option<PacketMeta>, PacketError>) -> (r: bool)
        requires
            self.wf(),
        ensures
            r == room_for(self@, crate::packet::parse_model(*outcome)),
    {
        match outcome {
            Ok(Some(packet)) => self.aggregator.can_push(packet),
            Ok(None) => true,
            Err(_) => self.parse_errors < u64::MAX,
        }
    }

    /// Counts what a frame is.
    pub fn note(&mut self, outcome: Result<Option<PacketMeta>, PacketError>)
        requires
            old(self).wf(),
            room_for(old(self)@, crate::packet::parse_model(outcome)),
        ensures
            final(self).wf(),
            final(self)@ == noted(old(self)@, crate::packet::parse_model(outcome)),
    {
        match outcome {
            Ok(Some(packet)) => {
                self.aggregator.push(packet);
            },
            Ok(None) => {},
            Err(_) => {
                self.parse_errors = self.parse_errors + 1;
            },
        }
    }

    /// Hands out the buckets of the intervals that are over.
    pub fn take_due(&mut self, now: u64) -> (r: Vec<FlowBucket>)
        requires
            old(self).wf(),
        ensures
            final(self).wf(),
            final(self)@ == after_due(old(self)@, now),
            carries(crate::model::bucket_models(r@), due(old(self)@, now)),
    {
        let current: u64 = interval_start(now, self.config.bucket_seconds);
        self.aggregator.drain_before(current)
    }

    /// The diagnostics of the next batch, given what the capture counted.
    pub fn take_diagnostics(&mut self, current: CaptureStats) -> (r: CaptureDiagnostics)
        requires
            old(self).wf(),
        ensures
            final(self).wf(),
            final(self)@ == reported(old(self)@, current),
            r == diagnostics_of(old(self)@, current),
    {
        let diagnostics = CaptureDiagnostics {
            received: grown(current.received, self.prior.received),
            dropped: grown(current.dropped, self.prior.dropped),
            interface_dropped: grown(current.interface_dropped, self.prior.interface_dropped),
            parse_errors: self.parse_errors,
        };
        self.prior = current;
        self.parse_errors = 0;
        diagnostics
    }

    /// Whether one more batch can be counted.
    pub fn can_emit(&self) -> (r: bool)
        ensures
            r == (self@.emitted < u64::MAX),
    {
        self.emitted < u64::MAX
    }

    /// Counts a batch that was put into the spool, and decides what comes after it.
    pub fn batch_emitted(&mut self) -> (r: Progress)
        requires
            old(self).wf(),
            old(self)@.emitted < u64::MAX,
        ensures
            final(self).wf(),
            match r {
                Progress::Continue => {
                    &&& !is_complete(emitted(old(self)@))
                    &&& final(self)@ == emitted(old(self)@)
                },
                Progress::Finish(remaining) => {
                    &&& is_complete(emitted(old(self)@))
                    &&& carries(crate::model::bucket_models(remaining@), old(self)@.flows)
                    &&& final(self)@ == (SessionModel {
                        flows: Map::empty(),
                        ..emitted(old(self)@)
                    })
                },
            },
    {
        self.emitted = self.emitted + 1;
        match self.config.max_batches {
            Some(maximum) => if self.emitted >= maximum {
                Progress::Finish(self.aggregator.drain_all())
            } else {
                Progress::Continue
            },
            None => Progress::Continue,
        }
    }

    /// One turn of the run: a frame, or none where the wait timed out, then the clock, then the
    /// counts of the capture, and at the end of the run the clock once more.
    pub fn step(
        &mut self,
        spool: &mut Spool,
        frame: &Option<Frame>,
        now: u64,
        stats: CaptureStats,
        end: u64,
    ) -> (r: Result<Step, SpoolError>)
        requires
            old(self).wf(),
            old(spool).wf(),
            room_for(old(self)@, outcome_of(old(self)@, *frame)),
            old(self)@.emitted < u64::MAX,
        ensures
            final(self).wf(),
            final(spool).wf(),
            stepped(
                old(self)@,
                old(spool)@,
                outcome_of(old(self)@, *frame),
                now,
                stats,
                end,
                r,
                final(self)@,
                final(spool)@,
            ),
    {
        let outcome = match frame {
            Some(frame) => self.read_frame(
                frame.data.as_slice(),
                frame.timestamp,
                frame.wire_bytes,
            ),
            None => Ok(None),
        };
        self.note(outcome);
        let ghost heard = self@;
        let buckets = self.take_due(now);
        let ghost carried = crate::model::bucket_models(buckets@);
        if buckets.is_empty() {
            proof {
                crate::aggregate::no_entries_no_counts(carried);
                nothing_due(heard, now);
            }
            return Ok(Step::Continue);
        }
        let diagnostics = self.take_diagnostics(stats);
        proof {
            crate::aggregate::entries_have_counts(carried);
            assert(carries(carried, due(heard, now)));
            assert(diagnostics == diagnostics_of(heard, stats));
        }
        let node_id = self.config.node_id.clone();
        let boot_id = self.config.boot_id.clone();
        if let Err(error) = spool.enqueue(node_id, boot_id, now, buckets, diagnostics) {
            return Err(error);
        }
        match self.batch_emitted() {
            Progress::Continue => Ok(Step::Continue),
            Progress::Finish(remaining) => {
                let ghost rest = crate::model::bucket_models(remaining@);
                assert(carries(rest, after_due(heard, now).flows));
                if remaining.is_empty() {
                    proof {
                        crate::aggregate::no_entries_no_counts(rest);
                    }
                    return Ok(Step::Finished);
                }
                proof {
                    crate::aggregate::entries_have_counts(rest);
                }
                let node_id = self.config.node_id.clone();
                let boot_id = self.config.boot_id.clone();
                match spool.enqueue(node_id, boot_id, end, remaining, CaptureDiagnostics::default()) {
                    Ok(_) => Ok(Step::Finished),
                    Err(error) => Err(error),
                }
            },
        }
    }
}

/// The run after a frame whose turn brought no batch.
proof fn nothing_due(session: SessionModel, now: u64)
    requires
        due(session, now) == Map::<(u64, FlowKeyModel), (u64, u64)>::empty(),
    ensures
        after_due(session, now) == session,
{
    let current = crate::aggregate::interval_of(now, session.config.bucket_seconds);
    assert forall|key: (u64, FlowKeyModel)| #[trigger]
        session.flows.contains_key(key) implies key.0 >= current by {
        if key.0 < current {
            assert(due(session, now).contains_key(key));
        }
    }
    assert(after_due(session, now).flows =~= session.flows);
}

/// What the end of a run puts into the spool.
pub open spec fn finished(
    config: ConfigModel,
    flows: Map<(u64, FlowKeyModel), (u64, u64)>,
    table: TableModel<EnvelopeModel>,
    end: u64,
    r: Result<Step, SpoolError>,
    table_after: TableModel<EnvelopeModel>,
) -> bool {
    if flows == Map::<(u64, FlowKeyModel), (u64, u64)>::empty() {
        r == Ok::<Step, SpoolError>(Step::Finished) && table_after == table
    } else {
        exists|rest: Seq<FlowBucketModel>| #[trigger]
            carries(rest, flows) && match crate::spool::enqueued(
                table,
                config.node_id,
                config.boot_id,
                end,
                rest,
                crate::model::no_diagnostics(),
            ) {
                Err(error) => r == Err::<Step, SpoolError>(error) && table_after == table,
                Ok((next, _, _)) => r == Ok::<Step, SpoolError>(Step::Finished) && table_after
                    == next,
            }
    }
}

/// What one turn of a run does: the frame counts; where intervals are over, their buckets and
/// the diagnostics are put into the spool as a batch; and where that was the last batch asked
/// for, so is what is left.
pub open spec fn stepped(
    session: SessionModel,
    table: TableModel<EnvelopeModel>,
    outcome: Result<Option<PacketModel>, PacketError>,
    now: u64,
    stats: CaptureStats,
    end: u64,
    r: Result<Step, SpoolError>,
    session_after: SessionModel,
    table_after: TableModel<EnvelopeModel>,
) -> bool {
    let heard = noted(session, outcome);
    if due(heard, now) == Map::<(u64, FlowKeyModel), (u64, u64)>::empty() {
        &&& r == Ok::<Step, SpoolError>(Step::Continue)
        &&& session_after == heard
        &&& table_after == table
    } else {
        exists|buckets: Seq<FlowBucketModel>| #[trigger]
            carries(buckets, due(heard, now)) && match crate::spool::enqueued(
                table,
                session.config.node_id,
                session.config.boot_id,
                now,
                buckets,
                diagnostics_of(heard, stats),
            ) {
                Err(error) => {
                    &&& r == Err::<Step, SpoolError>(error)
                    &&& session_after == reported(after_due(heard, now), stats)
                    &&& table_after == table
                },
                Ok((next, _, _)) => {
                    let after = emitted(reported(after_due(heard, now), stats));
                    if is_complete(after) {
                        &&& session_after == (SessionModel { flows: Map::empty(), ..after })
                        &&& finished(session.config, after.flows, next, end, r, table_after)
                    } else {
                        &&& r == Ok::<Step, SpoolError>(Step::Continue)
                        &&& session_after == after
                        &&& table_after == next
                    }
                },
            }
    }
}

/// A turn of a run loses no count: what was counted is handed out, or is still there, and not
/// both.
pub proof fn a_turn_loses_no_count(session: SessionModel, now: u64, key: (u64, FlowKeyModel))
    ensures
        session.flows.contains_key(key) <==> (due(session, now).contains_key(key) || after_due(
            session,
            now,
        ).flows.contains_key(key)),
        !(due(session, now).contains_key(key) && after_due(session, now).flows.contains_key(key)),
        due(session, now).contains_key(key) ==> due(session, now)[key] == session.flows[key],
        after_due(session, now).flows.contains_key(key) ==> after_due(session, now).flows[key]
            == session.flows[key],
{
}

/// The diagnostics of two batches in a row add up to what the capture counted between them, for
/// as long as its counts do not go back.
pub proof fn diagnostics_add_up(session: SessionModel, first: CaptureStats, second: CaptureStats)
    requires
        session.prior.received <= first.received <= second.received,
        session.prior.dropped <= first.dropped <= second.dropped,
        session.prior.interface_dropped <= first.interface_dropped <= second.interface_dropped,
    ensures
        ({
            let a = diagnostics_of(session, first);
            let b = diagnostics_of(reported(session, first), second);
            &&& a.received + b.received == second.received - session.prior.received
            &&& a.dropped + b.dropped == second.dropped - session.prior.dropped
            &&& a.interface_dropped + b.interface_dropped == second.interface_dropped
                - session.prior.interface_dropped
            &&& b.parse_errors == 0
        }),
{
}

} // verus!
