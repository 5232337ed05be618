//! Sealed batches of flow buckets.

use vstd::prelude::*;

use crate::encoding::{
    digest_bytes, list_value, null_value, number_value, text_value, write_json, Fields, Json,
};
use crate::model::{
    copy_buckets, CaptureDiagnostics, Direction, FlowBucket, FlowBucketModel, FlowKey,
    FlowKeyModel, TransportProtocol, SCHEMA_VERSION,
};
use crate::text::{decimal_text, hex_of_bytes};

verus! {

/// What a batch says.
#[derive(Debug, PartialEq, Eq)]
pub struct BatchBody {
    pub schema_version: u16,
    pub node_id: String,
    pub boot_id: String,
    pub seq: u64,
    pub created_at: u64,
    pub buckets: Vec<FlowBucket>,
    pub diagnostics: CaptureDiagnostics,
}

/// The value of a [`BatchBody`].
pub struct BodyModel {
    pub schema_version: u16,
    pub node_id: Seq<char>,
    pub boot_id: Seq<char>,
    pub seq: u64,
    pub created_at: u64,
    pub buckets: Seq<FlowBucketModel>,
    pub diagnostics: CaptureDiagnostics,
}

impl View for BatchBody {
    type V = BodyModel;

    open spec fn view(&self) -> BodyModel {
        BodyModel {
            schema_version: self.schema_version,
            node_id: self.node_id@,
            boot_id: self.boot_id@,
            seq: self.seq,
            created_at: self.created_at,
            buckets: crate::model::bucket_models(self.buckets@),
            diagnostics: self.diagnostics,
        }
    }
}

impl Clone for BatchBody {
    fn clone(&self) -> (r: Self)
        ensures
            r@ == self@,
    {
        BatchBody {
            schema_version: self.schema_version,
            node_id: self.node_id.clone(),
            boot_id: self.boot_id.clone(),
            seq: self.seq,
            created_at: self.created_at,
            buckets: copy_buckets(&self.buckets),
            diagnostics: self.diagnostics,
        }
    }
}

/// A batch with its identity and the checksum of its body.
#[derive(Debug, PartialEq, Eq)]
pub struct BatchEnvelope {
    pub batch_id: String,
    pub checksum: String,
    pub body: BatchBody,
}

/// The value of a [`BatchEnvelope`].
pub struct EnvelopeModel {
    pub batch_id: Seq<char>,
    pub checksum: Seq<char>,
    pub body: BodyModel,
}

impl View for BatchEnvelope {
    type V = EnvelopeModel;

    open spec fn view(&self) -> EnvelopeModel {
        EnvelopeModel {
            batch_id: self.batch_id@,
            checksum: self.checksum@,
            body: self.body@,
        }
    }
}

impl Clone for BatchEnvelope {
    fn clone(&self) -> (r: Self)
        ensures
            r@ == self@,
    {
        BatchEnvelope {
            batch_id: self.batch_id.clone(),
            checksum: self.checksum.clone(),
            body: self.body.clone(),
        }
    }
}

/// A batch that has no JSON text.
#[derive(Debug, Clone, Copy, PartialEq, Eq, Structural)]
pub struct EncodingError;

/// The name of a direction.
pub open spec fn direction_name(direction: Direction) -> Seq<char> {
    match direction {
        Direction::Ingress => "ingress"@,
        Direction::Egress => "egress"@,
        Direction::Internal => "internal"@,
        Direction::Unknown => "unknown"@,
    }
}

/// The name of a direction.
pub fn direction_key(direction: Direction) -> (r: &'static str)
    ensures
        r@ == direction_name(direction),
{
    match direction {
        Direction::Ingress => "ingress",
        Direction::Egress => "egress",
        Direction::Internal => "internal",
        Direction::Unknown => "unknown",
    }
}

/// A protocol as a document: its name, and its number where the name does not say it.
pub open spec fn protocol_document(protocol: TransportProtocol) -> Json {
    match protocol {
        TransportProtocol::Tcp => Json::Record(seq![("name"@, Json::Text("tcp"@))]),
        TransportProtocol::Udp => Json::Record(seq![("name"@, Json::Text("udp"@))]),
        TransportProtocol::Icmp => Json::Record(seq![("name"@, Json::Text("icmp"@))]),
        TransportProtocol::Other(number) => Json::Record(
            seq![("name"@, Json::Text("other"@)), ("number"@, byte_document(number))],
        ),
    }
}

/// A byte as a document.
pub open spec fn byte_document(byte: u8) -> Json {
    Json::Number(byte as u64)
}

/// An optional port as a document.
pub open spec fn port_document(port: Option<u16>) -> Json {
    match port {
        None => Json::Null,
        Some(number) => Json::Number(number as u64),
    }
}

/// A flow key as a document.
pub open spec fn key_document(key: FlowKeyModel) -> Json {
    Json::Record(
        seq![
            ("capture_point"@, Json::Text(key.capture_point)),
            ("direction"@, Json::Text(direction_name(key.direction))),
            ("protocol"@, protocol_document(key.protocol)),
            ("source_ip"@, Json::Text(crate::addr::ip_text(key.source_ip))),
            ("destination_ip"@, Json::Text(crate::addr::ip_text(key.destination_ip))),
            ("source_port"@, port_document(key.source_port)),
            ("destination_port"@, port_document(key.destination_port)),
        ],
    )
}

/// A bucket as a document.
pub open spec fn bucket_document(bucket: FlowBucketModel) -> Json {
    Json::Record(
        seq![
            ("bucket_start"@, Json::Number(bucket.bucket_start)),
            ("key"@, key_document(bucket.key)),
            ("packets"@, Json::Number(bucket.packets)),
            ("bytes"@, Json::Number(bucket.bytes)),
        ],
    )
}

/// Diagnostics as a document.
pub open spec fn diagnostics_document(diagnostics: CaptureDiagnostics) -> Json {
    Json::Record(
        seq![
            ("received"@, Json::Number(diagnostics.received)),
            ("dropped"@, Json::Number(diagnostics.dropped)),
            ("interface_dropped"@, Json::Number(diagnostics.interface_dropped)),
            ("parse_errors"@, Json::Number(diagnostics.parse_errors)),
        ],
    )
}

/// A list of buckets as documents.
pub open spec fn bucket_documents(buckets: Seq<FlowBucketModel>) -> Seq<Json> {
    buckets.map_values(|bucket: FlowBucketModel| bucket_document(bucket))
}

/// A body as a document.
pub open spec fn body_document(body: BodyModel) -> Json {
    Json::Record(
        seq![
            ("schema_version"@, Json::Number(body.schema_version as u64)),
            ("node_id"@, Json::Text(body.node_id)),
            ("boot_id"@, Json::Text(body.boot_id)),
            ("seq"@, Json::Number(body.seq)),
            ("created_at"@, Json::Number(body.created_at)),
            ("buckets"@, Json::List(bucket_documents(body.buckets))),
            ("diagnostics"@, diagnostics_document(body.diagnostics)),
        ],
    )
}

/// An envelope as a document.
pub open spec fn envelope_document(envelope: EnvelopeModel) -> Json {
    Json::Record(
        seq![
            ("batch_id"@, Json::Text(envelope.batch_id)),
            ("checksum"@, Json::Text(envelope.checksum)),
            ("body"@, body_document(envelope.body)),
        ],
    )
}

/// The checksum of a body: the digest of its JSON text in hexadecimal, or nothing where the body
/// has no JSON text.
pub open spec fn checksum_of(body: BodyModel) -> Option<Seq<char>> {
    match crate::encoding::json_text(body_document(body)) {
        None => None,
        Some(text) => Some(crate::text::hex(crate::encoding::blake3_digest(text))),
    }
}

/// The identity of a batch: node, boot, sequence number and the first sixteen digits of the
/// checksum, with colons between them.
pub open spec fn batch_identity(body: BodyModel, checksum: Seq<char>) -> Seq<char> {
    body.node_id + ":"@ + body.boot_id + ":"@ + crate::text::decimal(body.seq as nat) + ":"@
        + checksum.take(16)
}

/// The body of a batch in the current format.
pub open spec fn new_body(
    node_id: Seq<char>,
    boot_id: Seq<char>,
    seq: u64,
    created_at: u64,
    buckets: Seq<FlowBucketModel>,
    diagnostics: CaptureDiagnostics,
) -> BodyModel {
    BodyModel {
        schema_version: SCHEMA_VERSION,
        node_id,
        boot_id,
        seq,
        created_at,
        buckets,
        diagnostics,
    }
}

/// The envelope of a body, or nothing where the body has no JSON text.
pub open spec fn sealed(body: BodyModel) -> Option<EnvelopeModel> {
    match checksum_of(body) {
        None => None,
        Some(checksum) => Some(
            EnvelopeModel { batch_id: batch_identity(body, checksum), checksum, body },
        ),
    }
}

fn port_value(port: Option<u16>) -> (r: serde_json::Value)
    ensures
        crate::encoding::document(r) == port_document(port),
{
    match port {
        None => null_value(),
        Some(number) => number_value(number as u64),
    }
}

fn byte_value(byte: u8) -> (r: serde_json::Value)
    ensures
        crate::encoding::document(r) == byte_document(byte),
{
    number_value(byte as u64)
}

fn protocol_value(protocol: TransportProtocol) -> (r: serde_json::Value)
    ensures
        crate::encoding::document(r) == protocol_document(protocol),
{
    let mut fields = Fields::new();
    match protocol {
        TransportProtocol::Tcp => {
            fields.put("name", text_value("tcp"));
        },
        TransportProtocol::Udp => {
            fields.put("name", text_value("udp"));
        },
        TransportProtocol::Icmp => {
            fields.put("name", text_value("icmp"));
        },
        TransportProtocol::Other(number) => {
            proof {
                reveal_strlit("name");
                assert("name"@.len() == 4);
                reveal_strlit("number");
                assert("number"@.len() == 6);
            }
            fields.put("name", text_value("other"));
            fields.put("number", byte_value(number));
        },
    }
    let ghost documents = fields.documents();
    assert(crate::encoding::Json::Record(documents) == protocol_document(protocol)) by {
        match protocol {
            TransportProtocol::Tcp => {
                assert(documents =~= seq![("name"@, Json::Text("tcp"@))]);
            },
            TransportProtocol::Udp => {
                assert(documents =~= seq![("name"@, Json::Text("udp"@))]);
            },
            TransportProtocol::Icmp => {
                assert(documents =~= seq![("name"@, Json::Text("icmp"@))]);
            },
            TransportProtocol::Other(number) => {
                assert(documents =~= seq![
                    ("name"@, Json::Text("other"@)),
                    ("number"@, byte_document(number)),
                ]);
            },
        }
    }
    fields.record()
}

fn key_value(key: &FlowKey) -> (r: serde_json::Value)
    ensures
        crate::encoding::document(r) == key_document(key@),
{
    proof {
        reveal_strlit("capture_point");
        assert("capture_point"@.len() == 13);
        reveal_strlit("direction");
        assert("direction"@.len() == 9);
        reveal_strlit("protocol");
        assert("protocol"@.len() == 8);
        reveal_strlit("source_ip");
        assert("source_ip"@.len() == 9);
        reveal_strlit("destination_ip");
        assert("destination_ip"@.len() == 14);
        reveal_strlit("source_port");
        assert("source_port"@.len() == 11);
        reveal_strlit("destination_port");
        assert("destination_port"@.len() == 16);
        assert("direction"@[0] != "source_ip"@[0]);
    }
    let mut fields = Fields::new();
    fields.put("capture_point", text_value(key.capture_point.as_str()));
    fields.put("direction", text_value(direction_key(key.direction)));
    fields.put("protocol", protocol_value(key.protocol));
    fields.put("source_ip", text_value(key.source_ip.to_text().as_str()));
    fields.put("destination_ip", text_value(key.destination_ip.to_text().as_str()));
    fields.put("source_port", port_value(key.source_port));
    fields.put("destination_port", port_value(key.destination_port));
    assert(Json::Record(fields.documents()) == key_document(key@)) by {
        assert(fields.documents() =~= key_document(key@)->Record_0);
    }
    fields.record()
}

fn bucket_value(bucket: &FlowBucket) -> (r: serde_json::Value)
    ensures
        crate::encoding::document(r) == bucket_document(bucket@),
{
    proof {
        reveal_strlit("bucket_start");
        assert("bucket_start"@.len() == 12);
        reveal_strlit("key");
        assert("key"@.len() == 3);
        reveal_strlit("packets");
        assert("packets"@.len() == 7);
        reveal_strlit("bytes");
        assert("bytes"@.len() == 5);
    }
    let mut fields = Fields::new();
    fields.put("bucket_start", number_value(bucket.bucket_start));
    fields.put("key", key_value(&bucket.key));
    fields.put("packets", number_value(bucket.packets));
    fields.put("bytes", number_value(bucket.bytes));
    assert(fields.documents() =~= bucket_document(bucket@)->Record_0);
    fields.record()
}

fn diagnostics_value(diagnostics: CaptureDiagnostics) -> (r: serde_json::Value)
    ensures
        crate::encoding::document(r) == diagnostics_document(diagnostics),
{
    proof {
        reveal_strlit("received");
        assert("received"@.len() == 8);
        reveal_strlit("dropped");
        assert("dropped"@.len() == 7);
        reveal_strlit("interface_dropped");
        assert("interface_dropped"@.len() == 17);
        reveal_strlit("parse_errors");
        assert("parse_errors"@.len() == 12);
    }
    let mut fields = Fields::new();
    fields.put("received", number_value(diagnostics.received));
    fields.put("dropped", number_value(diagnostics.dropped));
    fields.put("interface_dropped", number_value(diagnostics.interface_dropped));
    fields.put("parse_errors", number_value(diagnostics.parse_errors));
    assert(fields.documents() =~= diagnostics_document(diagnostics)->Record_0);
    fields.record()
}

fn buckets_value(buckets: &Vec<FlowBucket>) -> (r: serde_json::Value)
    ensures
        crate::encoding::document(r) == Json::List(
            bucket_documents(crate::model::bucket_models(buckets@)),
        ),
{
    let ghost expected = bucket_documents(crate::model::bucket_models(buckets@));
    let mut values: Vec<serde_json::Value> = Vec::new();
    let mut i: usize = 0;
    while i < buckets.len()
        invariant
            i <= buckets@.len(),
            expected == bucket_documents(crate::model::bucket_models(buckets@)),
            crate::encoding::documents(values@) == expected.take(i as int),
        decreases buckets@.len() - i,
    {
        let ghost before = values@;
        let value = bucket_value(&buckets[i]);
        values.push(value);
        i = i + 1;
        assert(crate::encoding::documents(values@) =~= crate::encoding::documents(before).push(
            crate::encoding::document(value),
        ));
        assert(expected.take(i as int) =~= expected.take(i - 1).push(expected[i - 1]));
    }
    assert(expected.take(i as int) =~= expected);
    list_value(values)
}

fn body_value(body: &BatchBody) -> (r: serde_json::Value)
    ensures
        crate::encoding::document(r) == body_document(body@),
{
    proof {
        reveal_strlit("schema_version");
        assert("schema_version"@.len() == 14);
        reveal_strlit("node_id");
        assert("node_id"@.len() == 7);
        reveal_strlit("boot_id");
        assert("boot_id"@.len() == 7);
        reveal_strlit("seq");
        assert("seq"@.len() == 3);
        reveal_strlit("created_at");
        assert("created_at"@.len() == 10);
        reveal_strlit("buckets");
        assert("buckets"@.len() == 7);
        reveal_strlit("diagnostics");
        assert("diagnostics"@.len() == 11);
        assert("node_id"@[0] != "boot_id"@[0]);
        assert("node_id"@[0] != "buckets"@[0]);
        assert("boot_id"@[1] != "buckets"@[1]);
    }
    let mut fields = Fields::new();
    fields.put("schema_version", number_value(body.schema_version as u64));
    fields.put("node_id", text_value(body.node_id.as_str()));
    fields.put("boot_id", text_value(body.boot_id.as_str()));
    fields.put("seq", number_value(body.seq));
    fields.put("created_at", number_value(body.created_at));
    fields.put("buckets", buckets_value(&body.buckets));
    fields.put("diagnostics", diagnostics_value(body.diagnostics));
    assert(fields.documents() =~= body_document(body@)->Record_0);
    fields.record()
}

/// The JSON text of a value, or an error where it has none.
fn written(value: serde_json::Value) -> (r: Result<Vec<u8>, EncodingError>)
    ensures
        match r {
            Ok(bytes) => crate::encoding::json_text(crate::encoding::document(value)) == Some(
                bytes@,
            ),
            Err(_) => crate::encoding::json_text(crate::encoding::document(value)) is None,
        },
        r is Ok,
{
    match write_json(&value) {
        Ok(bytes) => Ok(bytes),
        Err(_) => Err(EncodingError),
    }
}

/// The checksum of a body.
pub fn body_checksum(body: &BatchBody) -> (r: Result<String, EncodingError>)
    ensures
        match r {
            Ok(checksum) => checksum_of(body@) == Some(checksum@) && checksum@.len() == 64,
            Err(_) => checksum_of(body@) is None,
        },
        r is Ok,
{
    let text = match written(body_value(body)) {
        Ok(text) => text,
        Err(error) => {
            return Err(error);
        },
    };
    let digest = digest_bytes(text.as_slice());
    Ok(hex_of_bytes(&digest))
}

impl BatchEnvelope {
    /// Seals a new batch in the current format.
    pub fn new(
        node_id: String,
        boot_id: String,
        seq: u64,
        created_at: u64,
        buckets: Vec<FlowBucket>,
        diagnostics: CaptureDiagnostics,
    ) -> (r: Result<Self, EncodingError>)
        ensures
            ({
                let body = new_body(
                    node_id@,
                    boot_id@,
                    seq,
                    created_at,
                    crate::model::bucket_models(buckets@),
                    diagnostics,
                );
                match r {
                    Ok(envelope) => sealed(body) == Some(envelope@) && envelope@.checksum.len() == 64,
                    Err(_) => sealed(body) is None,
                }
            }),
            r is Ok,
    {
        let body = BatchBody {
            schema_version: SCHEMA_VERSION,
            node_id,
            boot_id,
            seq,
            created_at,
            buckets,
            diagnostics,
        };
        let checksum = match body_checksum(&body) {
            Ok(checksum) => checksum,
            Err(error) => {
                return Err(error);
            },
        };
        let mut batch_id = body.node_id.clone();
        batch_id.append(":");
        batch_id.append(body.boot_id.as_str());
        batch_id.append(":");
        batch_id.append(decimal_text(body.seq).as_str());
        batch_id.append(":");
        batch_id.append(checksum.as_str().substring_char(0, 16));
        assert(checksum@.subrange(0, 16) =~= checksum@.take(16));
        Ok(BatchEnvelope { batch_id, checksum, body })
    }

    /// Whether the checksum is that of the body.
    pub fn has_valid_checksum(&self) -> (r: Result<bool, EncodingError>)
        ensures
            match r {
                Ok(valid) => checksum_of(self@.body) is Some && (valid <==> checksum_of(self@.body)
                    == Some(self@.checksum)),
                Err(_) => checksum_of(self@.body) is None,
            },
            r is Ok,
    {
        match body_checksum(&self.body) {
            Ok(checksum) => Ok(checksum == self.checksum),
            Err(error) => Err(error),
        }
    }

    /// The JSON text of the envelope.
    pub fn payload(&self) -> (r: Result<Vec<u8>, EncodingError>)
        ensures
            match r {
                Ok(bytes) => crate::encoding::json_text(envelope_document(self@)) == Some(bytes@),
                Err(_) => crate::encoding::json_text(envelope_document(self@)) is None,
            },
            r is Ok,
    {
        proof {
            reveal_strlit("batch_id");
            assert("batch_id"@.len() == 8);
            reveal_strlit("checksum");
            assert("checksum"@.len() == 8);
            reveal_strlit("body");
            assert("body"@.len() == 4);
            assert("batch_id"@[0] != "checksum"@[0]);
        }
        let mut fields = Fields::new();
        fields.put("batch_id", text_value(self.batch_id.as_str()));
        fields.put("checksum", text_value(self.checksum.as_str()));
        fields.put("body", body_value(&self.body));
        assert(fields.documents() =~= envelope_document(self@)->Record_0);
        written(fields.record())
    }
}

/// A sealed envelope has a valid checksum.
pub proof fn sealed_envelopes_are_valid(body: BodyModel)
    requires
        sealed(body) is Some,
    ensures
        checksum_of(sealed(body)->0.body) == Some(sealed(body)->0.checksum),
        sealed(body)->0.body == body,
{
}

/// Batches with different sequence numbers have different identities.
pub proof fn identities_tell_sequence_numbers_apart(
    a: BodyModel,
    a_checksum: Seq<char>,
    b: BodyModel,
    b_checksum: Seq<char>,
)
    requires
        a_checksum.len() >= 16,
        b_checksum.len() >= 16,
        a.seq != b.seq,
    ensures
        batch_identity(a, a_checksum) != batch_identity(b, b_checksum),
{
    reveal_strlit(":");
    assert(":"@.len() == 1);
    assert(":"@[0] == ':');
    let left = batch_identity(a, a_checksum);
    let right = batch_identity(b, b_checksum);
    let a_digits = crate::text::decimal(a.seq as nat);
    let b_digits = crate::text::decimal(b.seq as nat);
    let a_start = a.node_id.len() + a.boot_id.len() + 2int;
    let b_start = b.node_id.len() + b.boot_id.len() + 2int;
    assert(left.subrange(a_start, a_start + a_digits.len()) =~= a_digits);
    assert(right.subrange(b_start, b_start + b_digits.len()) =~= b_digits);
    assert(left[a_start - 1] == ':');
    assert(right[b_start - 1] == ':');
    assert(left.len() == a_start + a_digits.len() + 17);
    assert(right.len() == b_start + b_digits.len() + 17);
    if left == right {
        assert(a_start + a_digits.len() == b_start + b_digits.len());
        if a_start > b_start {
            let i = a_start - 1 - b_start;
            assert(b_digits[i] == right[a_start - 1]);
            crate::text::decimal_has_no_colon(b.seq as nat, i);
        } else if b_start > a_start {
            let i = b_start - 1 - a_start;
            assert(a_digits[i] == left[b_start - 1]);
            crate::text::decimal_has_no_colon(a.seq as nat, i);
        } else {
            crate::text::decimal_is_injective(a.seq as nat, b.seq as nat);
        }
    }
}

} // verus!
