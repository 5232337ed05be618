//! What a sealed batch owes its body: the document names every field with its own value, the
//! checksum is that of the document, and the identity tells node, boot, number and checksum.

use vstd::prelude::*;

use crate::batch::{BodyModel, EnvelopeModel};
use crate::encoding::Json;
use crate::model::{
    CaptureDiagnostics, Direction, FlowBucketModel, FlowKeyModel, TransportProtocol,
};
use crate::retention::{SpoolError, TableModel};

verus! {

/// The document of a body has its fields under their names, in this order, each with its value,
/// and the buckets one for one.
pub proof fn a_body_document_has_every_field(body: BodyModel, i: int)
    ensures
        ({
            let document = crate::batch::body_document(body);
            let fields = document->Record_0;
            let buckets = fields[5].1->List_0;
            &&& document is Record
            &&& fields.len() == 7
            &&& fields[0].0 == "schema_version"@
            &&& fields[0].1 matches Json::Number(number) && number == body.schema_version
            &&& fields[1] == ("node_id"@, Json::Text(body.node_id))
            &&& fields[2] == ("boot_id"@, Json::Text(body.boot_id))
            &&& fields[3] == ("seq"@, Json::Number(body.seq))
            &&& fields[4] == ("created_at"@, Json::Number(body.created_at))
            &&& fields[5].0 == "buckets"@
            &&& fields[5].1 is List
            &&& buckets.len() == body.buckets.len()
            &&& 0 <= i < body.buckets.len() ==> buckets[i] == crate::batch::bucket_document(
                body.buckets[i],
            )
            &&& fields[6].0 == "diagnostics"@
            &&& fields[6].1 == crate::batch::diagnostics_document(body.diagnostics)
        }),
{
}

/// The documents of a bucket and of diagnostics have their fields under their names, in this
/// order, each with its value.
pub proof fn bucket_documents_have_every_field(
    bucket: FlowBucketModel,
    diagnostics: CaptureDiagnostics,
)
    ensures
        ({
            let document = crate::batch::bucket_document(bucket);
            let fields = document->Record_0;
            &&& document is Record
            &&& fields.len() == 4
            &&& fields[0] == ("bucket_start"@, Json::Number(bucket.bucket_start))
            &&& fields[1] == ("key"@, crate::batch::key_document(bucket.key))
            &&& fields[2] == ("packets"@, Json::Number(bucket.packets))
            &&& fields[3] == ("bytes"@, Json::Number(bucket.bytes))
        }),
        ({
            let document = crate::batch::diagnostics_document(diagnostics);
            let fields = document->Record_0;
            &&& document is Record
            &&& fields.len() == 4
            &&& fields[0] == ("received"@, Json::Number(diagnostics.received))
            &&& fields[1] == ("dropped"@, Json::Number(diagnostics.dropped))
            &&& fields[2] == ("interface_dropped"@, Json::Number(diagnostics.interface_dropped))
            &&& fields[3] == ("parse_errors"@, Json::Number(diagnostics.parse_errors))
        }),
{
}

/// The document of a key has its fields under their names, in this order: directions and
/// protocols in words, addresses as text, a port as its number or as nothing.
pub proof fn a_key_document_has_every_field(key: FlowKeyModel)
    ensures
        ({
            let document = crate::batch::key_document(key);
            let fields = document->Record_0;
            &&& document is Record
            &&& fields.len() == 7
            &&& fields[0] == ("capture_point"@, Json::Text(key.capture_point))
            &&& fields[1].0 == "direction"@
            &&& key.direction == Direction::Ingress ==> fields[1].1 == Json::Text("ingress"@)
            &&& key.direction == Direction::Egress ==> fields[1].1 == Json::Text("egress"@)
            &&& key.direction == Direction::Internal ==> fields[1].1 == Json::Text("internal"@)
            &&& key.direction == Direction::Unknown ==> fields[1].1 == Json::Text("unknown"@)
            &&& fields[2].0 == "protocol"@
            &&& key.protocol == TransportProtocol::Tcp ==> fields[2].1 == Json::Record(
                seq![("name"@, Json::Text("tcp"@))],
            )
            &&& key.protocol == TransportProtocol::Udp ==> fields[2].1 == Json::Record(
                seq![("name"@, Json::Text("udp"@))],
            )
            &&& key.protocol == TransportProtocol::Icmp ==> fields[2].1 == Json::Record(
                seq![("name"@, Json::Text("icmp"@))],
            )
            &&& key.protocol matches TransportProtocol::Other(number) ==> (
            fields[2].1 matches Json::Record(parts) && parts.len() == 2 && parts[0] == (
                "name"@,
                Json::Text("other"@),
            ) && parts[1].0 == "number"@ && (parts[1].1 matches Json::Number(value) && value
                == number))
            &&& fields[3] == ("source_ip"@, Json::Text(crate::addr::ip_text(key.source_ip)))
            &&& fields[4] == (
                "destination_ip"@,
                Json::Text(crate::addr::ip_text(key.destination_ip)),
            )
            &&& fields[5].0 == "source_port"@
            &&& key.source_port is None ==> fields[5].1 is Null
            &&& key.source_port matches Some(port) ==> (fields[5].1 matches Json::Number(value)
                && value == port)
            &&& fields[6].0 == "destination_port"@
            &&& key.destination_port is None ==> fields[6].1 is Null
            &&& key.destination_port matches Some(port) ==> (fields[6].1 matches Json::Number(value)
                && value == port)
        }),
{
}

/// Two bodies with the same document agree in everything that the document says: a checksum
/// covers the format, the node, the boot, the number, the time, the diagnostics, and every
/// bucket's start, packets, bytes, capture point, direction, protocol and ports.
pub proof fn a_document_tells_the_body(a: BodyModel, b: BodyModel, i: int)
    requires
        crate::batch::body_document(a) == crate::batch::body_document(b),
    ensures
        a.schema_version == b.schema_version,
        a.node_id == b.node_id,
        a.boot_id == b.boot_id,
        a.seq == b.seq,
        a.created_at == b.created_at,
        a.diagnostics == b.diagnostics,
        a.buckets.len() == b.buckets.len(),
        0 <= i < a.buckets.len() ==> {
            let x = a.buckets[i];
            let y = b.buckets[i];
            &&& x.bucket_start == y.bucket_start
            &&& x.packets == y.packets
            &&& x.bytes == y.bytes
            &&& x.key.capture_point == y.key.capture_point
            &&& x.key.direction == y.key.direction
            &&& x.key.protocol == y.key.protocol
            &&& x.key.source_port == y.key.source_port
            &&& x.key.destination_port == y.key.destination_port
            &&& crate::addr::ip_text(x.key.source_ip) == crate::addr::ip_text(y.key.source_ip)
            &&& crate::addr::ip_text(x.key.destination_ip) == crate::addr::ip_text(
                y.key.destination_ip,
            )
        },
{
    a_body_document_has_every_field(a, i);
    a_body_document_has_every_field(b, i);
    bucket_documents_have_every_field(a.buckets[i], a.diagnostics);
    bucket_documents_have_every_field(b.buckets[i], b.diagnostics);
    if 0 <= i < a.buckets.len() {
        keys_are_told_apart(a.buckets[i].key, b.buckets[i].key);
    }
}

proof fn keys_are_told_apart(a: FlowKeyModel, b: FlowKeyModel)
    requires
        crate::batch::key_document(a) == crate::batch::key_document(b),
    ensures
        a.capture_point == b.capture_point,
        a.direction == b.direction,
        a.protocol == b.protocol,
        a.source_port == b.source_port,
        a.destination_port == b.destination_port,
        crate::addr::ip_text(a.source_ip) == crate::addr::ip_text(b.source_ip),
        crate::addr::ip_text(a.destination_ip) == crate::addr::ip_text(b.destination_ip),
{
    a_key_document_has_every_field(a);
    a_key_document_has_every_field(b);
    reveal_strlit("ingress");
    reveal_strlit("egress");
    reveal_strlit("internal");
    reveal_strlit("unknown");
    assert("ingress"@.len() == 7 && "egress"@.len() == 6 && "internal"@.len() == 8
        && "unknown"@.len() == 7);
    assert("ingress"@[0] != "unknown"@[0]);
    reveal_strlit("tcp");
    reveal_strlit("udp");
    reveal_strlit("icmp");
    reveal_strlit("other");
    assert("tcp"@.len() == 3 && "udp"@.len() == 3 && "icmp"@.len() == 4 && "other"@.len() == 5);
    assert("tcp"@[0] != "udp"@[0]);
    let x = crate::batch::key_document(a)->Record_0;
    let y = crate::batch::key_document(b)->Record_0;
    assert(x[0] == y[0] && x[1] == y[1] && x[2] == y[2] && x[3] == y[3] && x[4] == y[4] && x[5]
        == y[5] && x[6] == y[6]);
    let p = x[2].1->Record_0;
    let q = y[2].1->Record_0;
    assert(p.len() == q.len());
    assert(p[0] == q[0]);
}

/// A sealed batch has the body that was sealed, the checksum of that body's document, and an
/// identity made of node, boot, number and the first sixteen digits of the checksum. Its own
/// document has identity, checksum and body under their names.
pub proof fn a_sealed_batch_says_its_body(body: BodyModel)
    requires
        crate::encoding::json_text(crate::batch::body_document(body)) is Some,
    ensures
        ({
            let envelope = crate::batch::sealed(body)->0;
            let text = crate::encoding::json_text(crate::batch::body_document(body))->0;
            let fields = crate::batch::envelope_document(envelope)->Record_0;
            &&& crate::batch::sealed(body) is Some
            &&& envelope.body == body
            &&& envelope.checksum == crate::text::hex(crate::encoding::blake3_digest(text))
            &&& crate::batch::checksum_of(body) == Some(envelope.checksum)
            &&& envelope.batch_id == body.node_id + seq![':'] + body.boot_id + seq![':']
                + crate::text::decimal(body.seq as nat) + seq![':'] + envelope.checksum.take(16)
            &&& crate::batch::envelope_document(envelope) is Record
            &&& fields.len() == 3
            &&& fields[0] == ("batch_id"@, Json::Text(envelope.batch_id))
            &&& fields[1] == ("checksum"@, Json::Text(envelope.checksum))
            &&& fields[2] == ("body"@, crate::batch::body_document(body))
        }),
{
    reveal_strlit(":");
    assert(":"@ =~= seq![':']);
}

/// A body without JSON text cannot be sealed.
pub proof fn what_has_no_text_is_not_sealed(body: BodyModel)
    ensures
        crate::encoding::json_text(crate::batch::body_document(body)) is None
            <==> crate::batch::sealed(body) is None,
        crate::batch::checksum_of(body) is Some <==> crate::batch::sealed(body) is Some,
{
}

/// A new body is in format one and holds what was handed in.
pub proof fn a_new_body_holds_what_was_handed_in(
    node_id: Seq<char>,
    boot_id: Seq<char>,
    seq: u64,
    created_at: u64,
    buckets: Seq<FlowBucketModel>,
    diagnostics: CaptureDiagnostics,
)
    ensures
        ({
            let body = crate::batch::new_body(
                node_id,
                boot_id,
                seq,
                created_at,
                buckets,
                diagnostics,
            );
            &&& body.schema_version == 1
            &&& body.node_id == node_id
            &&& body.boot_id == boot_id
            &&& body.seq == seq
            &&& body.created_at == created_at
            &&& body.buckets == buckets
            &&& body.diagnostics == diagnostics
        }),
{
}

/// The size of a pending batch is the length of the JSON text of its envelope.
pub proof fn a_row_is_as_large_as_its_text(envelope: EnvelopeModel)
    ensures
        ({
            let text = crate::encoding::json_text(crate::batch::envelope_document(envelope));
            let row = crate::spool::row_of(envelope);
            &&& row is Some <==> text is Some
            &&& text is Some && text->0.len() <= u64::MAX ==> row->0.payload_bytes == text->0.len()
            &&& row is Some ==> {
                &&& row->0.seq == envelope.body.seq
                &&& row->0.batch_id == envelope.batch_id
                &&& row->0.checksum == envelope.checksum
                &&& row->0.created_at == envelope.body.created_at
                &&& row->0.payload == envelope
                &&& crate::evictions::spans(
                    row->0.min_bucket,
                    row->0.max_bucket,
                    envelope.body.buckets,
                )
            }
        }),
{
    crate::spool::bucket_range_is_tight(envelope.body.buckets);
}

/// Made-up buckets follow one another: each is ten seconds after, one packet and a hundred bytes
/// more than, and one source port above the one before it; everything else is the same.
pub proof fn made_up_buckets_follow_one_another(now: u64, index: u64)
    requires
        index < u64::MAX,
        crate::synthetic::synthetic_fits(now, index),
        crate::synthetic::synthetic_fits(now, (index + 1) as u64),
        index % 65_536 < 65_535,
    ensures
        ({
            let a = crate::synthetic::synthetic_model(now, index);
            let b = crate::synthetic::synthetic_model(now, (index + 1) as u64);
            &&& b.bucket_start == a.bucket_start + 10
            &&& b.packets == a.packets + 1
            &&& b.bytes == a.bytes + 100
            &&& a.key.source_port is Some && b.key.source_port is Some
            &&& b.key.source_port->0 == a.key.source_port->0 + 1
            &&& b.key == (FlowKeyModel { source_port: b.key.source_port, ..a.key })
        }),
        ({
            let first = crate::synthetic::synthetic_model(now, 0);
            &&& first.bucket_start == now
            &&& first.packets == 10
            &&& first.bytes == 1_000
            &&& first.key.source_port == Some(40_000u16)
            &&& first.key.destination_port == Some(443u16)
            &&& first.key.direction == Direction::Egress
            &&& first.key.protocol == TransportProtocol::Tcp
            &&& first.key.source_ip == crate::addr::IpAddr::V4(0x0a00_0002)
            &&& first.key.destination_ip == crate::addr::IpAddr::V4(0x0101_0101)
            &&& first.key.capture_point == "synthetic:fixture"@
        }),
{
}

/// Made-up batches are put into the spool one after the other, each with its own bucket, at the
/// start of that bucket, from the made-up boot of the node; the first refusal stops them, and
/// none of them changes anything after it.
pub proof fn made_up_batches_are_put_in_one_by_one(
    table: TableModel<EnvelopeModel>,
    node: Seq<char>,
    now: u64,
    batches: u64,
)
    requires
        table.wf(),
        batches < u64::MAX,
    ensures
        crate::synthetic::synthesized(table, node, now, 0) == (table, None::<SpoolError>),
        ({
            let (before, stopped) = crate::synthetic::synthesized(
                table,
                node,
                now,
                batches as nat,
            );
            let (after, error) = crate::synthetic::synthesized(
                table,
                node,
                now,
                (batches + 1) as nat,
            );
            let bucket = crate::synthetic::synthetic_model(now, batches);
            &&& stopped is Some ==> after == before && error == stopped
            &&& error is Some && stopped is None ==> after == before
            &&& error is None ==> {
                &&& stopped is None
                &&& after.next_seq == before.next_seq + 1
                &&& after.rows.len() > 0 && after.rows.last().seq == before.next_seq ==> {
                    let body = after.rows.last().payload.body;
                    &&& body.node_id == node
                    &&& body.boot_id == "synthetic-boot"@
                    &&& body.created_at == bucket.bucket_start
                    &&& body.buckets == seq![bucket]
                    &&& body.diagnostics.received == 0
                    &&& body.diagnostics.dropped == 0
                    &&& body.diagnostics.interface_dropped == 0
                    &&& body.diagnostics.parse_errors == 0
                }
            }
        }),
{
    made_up_batches_keep_order(table, node, now, batches as nat);
    let (before, stopped) = crate::synthetic::synthesized(table, node, now, batches as nat);
    let bucket = crate::synthetic::synthetic_model(now, batches);
    if stopped is None && crate::spool::enqueued(
        before,
        node,
        crate::synthetic::synthetic_boot(),
        bucket.bucket_start,
        seq![bucket],
        crate::model::no_diagnostics(),
    ) is Ok {
        crate::evictions::a_new_batch_is_pending_or_lost(
            before,
            node,
            crate::synthetic::synthetic_boot(),
            bucket.bucket_start,
            seq![bucket],
            crate::model::no_diagnostics(),
        );
    }
}

proof fn made_up_batches_keep_order(
    table: TableModel<EnvelopeModel>,
    node: Seq<char>,
    now: u64,
    batches: nat,
)
    requires
        table.wf(),
    ensures
        crate::synthetic::synthesized(table, node, now, batches).0.wf(),
    decreases batches,
{
    if batches > 0 {
        let index = (batches - 1) as nat;
        made_up_batches_keep_order(table, node, now, index);
        let before = crate::synthetic::synthesized(table, node, now, index).0;
        let bucket = crate::synthetic::synthetic_model(now, index as u64);
        if crate::spool::enqueued(
            before,
            node,
            crate::synthetic::synthetic_boot(),
            bucket.bucket_start,
            seq![bucket],
            crate::model::no_diagnostics(),
        ) is Ok {
            crate::evictions::a_new_row_says_what_was_handed_in(
                before,
                node,
                crate::synthetic::synthetic_boot(),
                bucket.bucket_start,
                seq![bucket],
                crate::model::no_diagnostics(),
            );
            crate::retention::admission_keeps_order(
                before,
                crate::spool::new_row(
                    node,
                    crate::synthetic::synthetic_boot(),
                    before.next_seq,
                    bucket.bucket_start,
                    seq![bucket],
                    crate::model::no_diagnostics(),
                )->0,
            );
        }
    }
}

} // verus!
