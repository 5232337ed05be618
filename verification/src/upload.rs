//! Handing pending batches to the control plane.

use vstd::prelude::*;

use crate::batch::{BatchEnvelope, EnvelopeModel};
use crate::model::{IngestAck, IngestStatus};
use crate::retention::{check_removed, SpoolError, TableModel};
use crate::spool::Spool;

verus! {

/// What an upload achieved.
#[derive(Debug, Clone, Copy, PartialEq, Eq, Structural)]
pub struct UploadReport {
    pub acknowledged: u64,
}

/// What came back for a batch that was sent.
#[derive(Debug, PartialEq, Eq)]
pub enum Reply {
    /// The request failed.
    Failed,
    /// The answer is not an acknowledgement.
    Unreadable,
    /// The answer is an acknowledgement.
    Ack(IngestAck),
}

/// Why an upload stopped.
#[derive(Debug, PartialEq, Eq)]
pub enum UploadError {
    /// The request for the batch with this identity failed.
    Request(String),
    /// The answer is not an acknowledgement.
    Unreadable,
    /// The acknowledgement names another batch.
    OtherBatch,
    /// The spool refused.
    Spool(SpoolError),
}

/// The value of an [`UploadError`].
pub enum UploadFault {
    Request(Seq<char>),
    Unreadable,
    OtherBatch,
    Spool(SpoolError),
}

impl View for UploadError {
    type V = UploadFault;

    open spec fn view(&self) -> UploadFault {
        match *self {
            UploadError::Request(batch_id) => UploadFault::Request(batch_id@),
            UploadError::Unreadable => UploadFault::Unreadable,
            UploadError::OtherBatch => UploadFault::OtherBatch,
            UploadError::Spool(error) => UploadFault::Spool(error),
        }
    }
}

impl UploadError {
    /// The words for the error.
    pub open spec fn words(self) -> Seq<char> {
        match self {
            UploadError::Request(batch_id) => "upload batch "@ + batch_id@,
            UploadError::Unreadable => "decode ingest ack"@,
            UploadError::OtherBatch => "ingest ack batch id does not match request"@,
            UploadError::Spool(error) => error.words(),
        }
    }

    /// The error in words.
    pub fn message(&self) -> (r: String)
        ensures
            r@ == self.words(),
    {
        match self {
            UploadError::Request(batch_id) => {
                let mut r = "upload batch ".to_owned();
                r.append(batch_id.as_str());
                r
            },
            UploadError::Unreadable => "decode ingest ack".to_owned(),
            UploadError::OtherBatch => "ingest ack batch id does not match request".to_owned(),
            UploadError::Spool(error) => error.message(),
        }
    }
}

/// What is wrong with the reply to a batch.
pub open spec fn reply_fault(envelope: EnvelopeModel, reply: Reply) -> Option<UploadFault> {
    match reply {
        Reply::Failed => Some(UploadFault::Request(envelope.batch_id)),
        Reply::Unreadable => Some(UploadFault::Unreadable),
        Reply::Ack(ack) => if ack.batch_id@ != envelope.batch_id {
            Some(UploadFault::OtherBatch)
        } else {
            None
        },
    }
}

/// Decides whether the reply to a batch acknowledges it.
pub fn check_reply(envelope: &BatchEnvelope, reply: &Reply) -> (r: Result<(), UploadError>)
    ensures
        match r {
            Ok(()) => reply_fault(envelope@, *reply) is None,
            Err(error) => reply_fault(envelope@, *reply) == Some(error@),
        },
        r is Ok <==> (*reply matches Reply::Ack(ack) && ack.batch_id@ == envelope.batch_id@),
        *reply is Failed ==> (r matches Err(UploadError::Request(batch_id)) && batch_id@
            == envelope.batch_id@),
        *reply is Unreadable ==> r matches Err(UploadError::Unreadable),
        *reply is Ack && r is Err ==> r matches Err(UploadError::OtherBatch),
{
    match reply {
        Reply::Failed => Err(UploadError::Request(envelope.batch_id.clone())),
        Reply::Unreadable => Err(UploadError::Unreadable),
        Reply::Ack(ack) => if ack.batch_id != envelope.batch_id {
            Err(UploadError::OtherBatch)
        } else {
            Ok(())
        },
    }
}

/// An upload under way: the batches to send in order, and how many of them were acknowledged.
pub struct Upload {
    batches: Vec<BatchEnvelope>,
    done: usize,
}

impl Upload {
    /// The batches to send.
    pub closed spec fn batches(self) -> Seq<EnvelopeModel> {
        crate::spool::envelope_models(self.batches@)
    }

    /// How many batches were acknowledged.
    pub closed spec fn done(self) -> nat {
        self.done as nat
    }

    /// What holds of every upload.
    pub open spec fn wf(self) -> bool {
        self.done() <= self.batches().len()
    }

    /// An upload of these batches.
    pub fn new(batches: Vec<BatchEnvelope>) -> (r: Self)
        ensures
            r.wf(),
            r.batches() == crate::spool::envelope_models(batches@),
            r.done() == 0,
    {
        Upload { batches, done: 0 }
    }

    /// The batch to send next.
    pub fn current(&self) -> (r: Option<&BatchEnvelope>)
        requires
            self.wf(),
        ensures
            match r {
                Some(envelope) => self.done() < self.batches().len() && envelope@
                    == self.batches()[self.done() as int],
                None => self.done() == self.batches().len(),
            },
    {
        if self.done < self.batches.len() {
            Some(&self.batches[self.done])
        } else {
            None
        }
    }

    /// Goes on to the next batch, given how many batches the acknowledgement removed.
    pub fn advance(&mut self, removed: usize) -> (r: Result<(), UploadError>)
        requires
            old(self).wf(),
            old(self).done() < old(self).batches().len(),
        ensures
            final(self).wf(),
            final(self).batches() == old(self).batches(),
            match r {
                Ok(()) => removed == 1 && final(self).done() == old(self).done() + 1,
                Err(error) => {
                    &&& removed != 1
                    &&& error@ == UploadFault::Spool(SpoolError::UnknownBatch)
                    &&& final(self).done() == old(self).done()
                },
            },
    {
        assert(self.done < self.batches.len());
        match check_removed(removed) {
            Ok(()) => {
                self.done += 1;
                Ok(())
            },
            Err(error) => Err(UploadError::Spool(error)),
        }
    }

    /// What the upload achieved so far.
    pub fn report(&self) -> (r: UploadReport)
        ensures
            r.acknowledged == self.done(),
    {
        UploadReport { acknowledged: self.done as u64 }
    }
}

/// How many batches an upload takes.
pub open spec fn upload_size(table: TableModel<EnvelopeModel>, limit: usize) -> int {
    if limit <= table.rows.len() {
        limit as int
    } else {
        table.rows.len() as int
    }
}

/// The spool once its first batches were acknowledged.
pub open spec fn without_first(table: TableModel<EnvelopeModel>, n: int) -> TableModel<
    EnvelopeModel,
> {
    TableModel { rows: table.rows.skip(n), ..table }
}

/// Acknowledging the oldest batch leaves the others.
pub(crate) proof fn acknowledge_oldest(table: TableModel<EnvelopeModel>)
    requires
        crate::spool::holds_batches(table),
        table.rows.len() > 0,
    ensures
        ({
            let envelope = table.rows[0].payload;
            &&& crate::spool::names_pending(table, envelope.batch_id, envelope.checksum)
            &&& crate::spool::acknowledged(table, envelope.batch_id, envelope.checksum)
                == without_first(table, 1)
        }),
        crate::spool::holds_batches(without_first(table, 1)),
{
    let envelope = table.rows[0].payload;
    assert(crate::spool::row_matches(table.rows[0]));
    assert(crate::spool::is_named(table.rows[0], envelope.batch_id, envelope.checksum));
    crate::spool::an_acknowledgement_removes_one(table, envelope.batch_id, envelope.checksum);
    let next = crate::spool::acknowledged(table, envelope.batch_id, envelope.checksum);
    let k = choose|k: int|
        #![trigger table.rows[k]]
        0 <= k < table.rows.len() && table.rows[k].batch_id == envelope.batch_id && next.rows
            == table.rows.remove(k);
    if k > 0 {
        assert(table.rows[0].batch_id != table.rows[k].batch_id);
    }
    assert(table.rows.remove(0) =~= table.rows.skip(1));
}

/// Whether an upload of up to `limit` batches that got these replies can leave the spool like
/// this, with this count of acknowledged batches or this fault.
pub open spec fn is_upload(
    before: TableModel<EnvelopeModel>,
    limit: usize,
    replies: Seq<Reply>,
    after: TableModel<EnvelopeModel>,
    outcome: Result<u64, UploadFault>,
) -> bool {
    if limit > crate::sqlite::INTEGER_MAX {
        after == before && outcome == Err::<u64, UploadFault>(
            UploadFault::Spool(SpoolError::BatchLimit),
        )
    } else {
        exists|k: int|
            #![trigger without_first(before, k)]
            {
                &&& 0 <= k <= upload_size(before, limit)
                &&& forall|i: int|
                    0 <= i < k ==> reply_fault(
                        (#[trigger] before.rows[i]).payload,
                        replies[i],
                    ) is None
                &&& after == without_first(before, k)
                &&& match outcome {
                    Ok(count) => k == upload_size(before, limit) && count == k,
                    Err(fault) => k < upload_size(before, limit) && reply_fault(
                        before.rows[k].payload,
                        replies[k],
                    ) == Some(fault),
                }
            }
    }
}

/// An acknowledgement that carries the batch's own identity acknowledges the batch, whether the
/// control plane inserted it or held it already. Nothing else does: not an acknowledgement of
/// another batch, not an answer that cannot be read, not a request that failed.
pub proof fn own_acknowledgements_are_accepted(envelope: EnvelopeModel, reply: Reply)
    ensures
        reply_fault(envelope, reply) is None <==> (reply matches Reply::Ack(ack) && ack.batch_id@
            == envelope.batch_id && (ack.status is Inserted || ack.status is Duplicate)),
        reply is Failed ==> reply_fault(envelope, reply) == Some(
            UploadFault::Request(envelope.batch_id),
        ),
        reply is Unreadable ==> reply_fault(envelope, reply) == Some(UploadFault::Unreadable),
        reply is Ack && reply->Ack_0.batch_id@ != envelope.batch_id ==> reply_fault(envelope, reply)
            == Some(UploadFault::OtherBatch),
{
}

/// If every reply carries the identity of its batch, the upload succeeds, whatever the statuses:
/// up to `limit` of the oldest batches are gone, the others stay as they were, and no gap is
/// recorded.
pub proof fn an_acknowledged_upload_succeeds(
    before: TableModel<EnvelopeModel>,
    limit: usize,
    replies: Seq<Reply>,
    after: TableModel<EnvelopeModel>,
    outcome: Result<u64, UploadFault>,
)
    requires
        is_upload(before, limit, replies, after, outcome),
        limit <= 0x7fff_ffff_ffff_ffff,
        forall|i: int|
            0 <= i < limit && i < before.rows.len() ==> ((#[trigger] replies[i]) matches Reply::Ack(
                ack,
            ) && ack.batch_id@ == before.rows[i].payload.batch_id),
    ensures
        limit <= before.rows.len() ==> outcome == Ok::<u64, UploadFault>(limit as u64)
            && after.rows == before.rows.skip(limit as int),
        limit > before.rows.len() ==> (outcome matches Ok(count) && count == before.rows.len())
            && after.rows == Seq::<crate::retention::RowModel<EnvelopeModel>>::empty(),
        after.gaps == before.gaps,
        after.next_seq == before.next_seq,
        after.limits == before.limits,
{
    let k = choose|k: int|
        #![trigger without_first(before, k)]
        {
            &&& 0 <= k <= upload_size(before, limit)
            &&& after == without_first(before, k)
            &&& match outcome {
                Ok(count) => k == upload_size(before, limit) && count == k,
                Err(fault) => k < upload_size(before, limit) && reply_fault(
                    before.rows[k].payload,
                    replies[k],
                ) == Some(fault),
            }
        };
    if outcome is Err {
        assert(replies[k] is Ack);
    }
}

/// The first reply that does not carry the identity of its batch stops the upload: the batches
/// before it are gone, it and the batches after it stay, and the fault tells what the reply was.
pub proof fn a_bad_reply_stops_the_upload(
    before: TableModel<EnvelopeModel>,
    limit: usize,
    replies: Seq<Reply>,
    after: TableModel<EnvelopeModel>,
    outcome: Result<u64, UploadFault>,
    k: int,
)
    requires
        is_upload(before, limit, replies, after, outcome),
        limit <= 0x7fff_ffff_ffff_ffff,
        0 <= k < limit,
        k < before.rows.len(),
        forall|i: int|
            0 <= i < k ==> ((#[trigger] replies[i]) matches Reply::Ack(ack) && ack.batch_id@
                == before.rows[i].payload.batch_id),
        !(replies[k] matches Reply::Ack(ack) && ack.batch_id@ == before.rows[k].payload.batch_id),
    ensures
        after.rows == before.rows.skip(k),
        after.gaps == before.gaps,
        after.next_seq == before.next_seq,
        after.limits == before.limits,
        replies[k] is Failed ==> outcome == Err::<u64, UploadFault>(
            UploadFault::Request(before.rows[k].payload.batch_id),
        ),
        replies[k] is Unreadable ==> outcome == Err::<u64, UploadFault>(UploadFault::Unreadable),
        replies[k] is Ack ==> outcome == Err::<u64, UploadFault>(UploadFault::OtherBatch),
{
    let n = choose|n: int|
        #![trigger without_first(before, n)]
        {
            &&& 0 <= n <= upload_size(before, limit)
            &&& forall|i: int|
                0 <= i < n ==> reply_fault((#[trigger] before.rows[i]).payload, replies[i]) is None
            &&& after == without_first(before, n)
            &&& match outcome {
                Ok(count) => n == upload_size(before, limit) && count == n,
                Err(fault) => n < upload_size(before, limit) && reply_fault(
                    before.rows[n].payload,
                    replies[n],
                ) == Some(fault),
            }
        };
    if n > k {
        assert(reply_fault(before.rows[k].payload, replies[k]) is None);
    }
    if n < k {
        assert(replies[n] is Ack);
    }
}

/// An upload of more batches than an integer column can count is refused, and changes nothing.
pub proof fn an_uncountable_upload_is_refused(
    before: TableModel<EnvelopeModel>,
    limit: usize,
    replies: Seq<Reply>,
    after: TableModel<EnvelopeModel>,
    outcome: Result<u64, UploadFault>,
)
    requires
        is_upload(before, limit, replies, after, outcome),
        limit > 0x7fff_ffff_ffff_ffff,
    ensures
        after == before,
        outcome == Err::<u64, UploadFault>(UploadFault::Spool(SpoolError::BatchLimit)),
{
}

/// Hands up to `limit` pending batches over, oldest first, given the reply to each of them.
///
/// The first reply that does not acknowledge its batch stops the upload: the batches before it
/// are gone, and it and the batches after it stay pending.
pub fn upload_once(spool: &mut Spool, limit: usize, replies: &Vec<Reply>) -> (r: Result<
    UploadReport,
    UploadError,
>)
    requires
        old(spool).wf(),
        replies@.len() >= upload_size(old(spool)@, limit),
    ensures
        final(spool).wf(),
        crate::spool::holds_sealed(old(spool)@) ==> crate::spool::holds_sealed(final(spool)@),
        if limit > crate::sqlite::INTEGER_MAX {
            &&& final(spool)@ == old(spool)@
            &&& r matches Err(error) && error@ == UploadFault::Spool(SpoolError::BatchLimit)
        } else {
            let size = upload_size(old(spool)@, limit);
            let batches = crate::spool::pending_batches(old(spool)@);
            exists|k: int|
                #![trigger without_first(old(spool)@, k)]
                {
                    &&& 0 <= k <= size
                    &&& forall|i: int|
                        0 <= i < k ==> reply_fault(#[trigger] batches[i], replies@[i]) is None
                    &&& final(spool)@ == without_first(old(spool)@, k)
                    &&& match r {
                        Ok(report) => k == size && report.acknowledged == size,
                        Err(error) => k < size && reply_fault(batches[k], replies@[k]) == Some(
                            error@,
                        ),
                    }
                }
        },
        is_upload(
            old(spool)@,
            limit,
            replies@,
            final(spool)@,
            match r {
                Ok(report) => Ok(report.acknowledged),
                Err(error) => Err(error@),
            },
        ),
        limit <= 0x7fff_ffff_ffff_ffff && (forall|i: int|
            0 <= i < limit && i < old(spool)@.rows.len() ==> ((#[trigger] replies@[i]) matches Reply::Ack(
                ack,
            ) && ack.batch_id@ == old(spool)@.rows[i].payload.batch_id)) ==> {
            &&& r is Ok
            &&& limit <= old(spool)@.rows.len() ==> r->Ok_0.acknowledged == limit
                && final(spool)@.rows == old(spool)@.rows.skip(limit as int)
            &&& limit > old(spool)@.rows.len() ==> r->Ok_0.acknowledged == old(spool)@.rows.len()
                && final(spool)@.rows.len() == 0
        },
{
    let ghost table = spool@;
    let ghost batches = crate::spool::pending_batches(table);
    let pending = match spool.pending(limit) {
        Ok(pending) => pending,
        Err(error) => {
            return Err(UploadError::Spool(error));
        },
    };
    let ghost size = upload_size(table, limit);
    let mut upload = Upload::new(pending);
    let mut i: usize = 0;
    assert(without_first(table, 0).rows =~= table.rows);
    loop
        invariant
            upload.wf(),
            upload.batches() == batches.take(size),
            batches == crate::spool::pending_batches(table),
            size == upload_size(table, limit),
            table == old(spool)@,
            i == upload.done(),
            i <= size,
            replies@.len() >= size,
            limit <= crate::sqlite::INTEGER_MAX,
            spool.wf(),
            crate::spool::holds_sealed(table) ==> crate::spool::holds_sealed(spool@),
            spool@ == without_first(table, i as int),
            forall|j: int| 0 <= j < i ==> reply_fault(#[trigger] batches[j], replies@[j]) is None,
        decreases size - i,
    {
        assert forall|j: int| 0 <= j < i implies reply_fault(
            (#[trigger] table.rows[j]).payload,
            replies@[j],
        ) is None by {
            assert(batches[j] == table.rows[j].payload);
        }
        let envelope = match upload.current() {
            Some(envelope) => envelope,
            None => {
                return Ok(upload.report());
            },
        };
        assert(envelope@ == batches[i as int]);
        if let Err(error) = check_reply(envelope, &replies[i]) {
            return Err(error);
        }
        proof {
            acknowledge_oldest(spool@);
            assert(spool@.rows[0] == table.rows[i as int]);
            assert(without_first(spool@, 1).rows =~= table.rows.skip(i + 1));
        }
        if let Err(error) = spool.acknowledge(
            envelope.batch_id.as_str(),
            envelope.checksum.as_str(),
        ) {
            return Err(UploadError::Spool(error));
        }
        if let Err(error) = upload.advance(1) {
            return Err(error);
        }
        i += 1;
    }
}

/// The control plane takes every pending batch that it does not hold yet: no pending batch is
/// refused for its format, its checksum, its sequence number or its time.
pub proof fn pending_batches_are_taken(
    table: TableModel<EnvelopeModel>,
    i: int,
    store: crate::control::StoreModel,
    now: u64,
)
    requires
        crate::spool::holds_sealed(table),
        0 <= i < crate::spool::pending_batches(table).len(),
        store.wf(),
        crate::retention::age_cutoff(now, store.limits.max_age_seconds)
            <= crate::sqlite::INTEGER_MAX,
        crate::control::buckets_misfit(
            crate::spool::pending_batches(table)[i].body.buckets,
        ) is None,
        forall|j: int|
            0 <= j < store.batches.len() ==> crate::control::batches_apart(
                #[trigger] store.batches[j],
                crate::control::stored(crate::spool::pending_batches(table)[i]),
            ),
    ensures
        ({
            let envelope = crate::spool::pending_batches(table)[i];
            let outcome = crate::control::ingested(store, envelope, now);
            &&& outcome is Ok
            &&& outcome->Ok_0.1 == IngestStatus::Inserted
            &&& outcome->Ok_0.0.batches.last() == crate::control::stored(envelope)
        }),
{
    let envelope = crate::spool::pending_batches(table)[i];
    crate::spool::pending_batches_are_valid(table, i);
    assert(crate::spool::row_is_sealed(table.rows[i]));
    assert(table.rows[i].seq < table.next_seq);
    assert(crate::retention::row_misfit(table.rows[i]) is None);
    crate::control::apart_from_what_is_left(
        store,
        envelope,
        crate::retention::age_cutoff(now, store.limits.max_age_seconds),
    );
}

} // verus!
