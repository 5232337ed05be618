//! JSON documents, their text, and digests of bytes.

use vstd::prelude::*;

verus! {

/// A JSON document.
pub enum Json {
    Null,
    Number(u64),
    Text(Seq<char>),
    List(Seq<Json>),
    Record(Seq<(Seq<char>, Json)>),
}

/// A JSON value of `serde_json`.
#[verifier::external_type_specification]
#[verifier::external_body]
pub struct ExValue(serde_json::Value);

/// The error of `serde_json`.
#[verifier::external_type_specification]
#[verifier::external_body]
pub struct ExJsonError(serde_json::Error);

/// The document that a value of `serde_json` holds, with the fields of each record in order.
pub uninterp spec fn document(value: serde_json::Value) -> Json;

/// The text that `serde_json` writes for a document, or nothing where it reports an error.
pub uninterp spec fn json_text(document: Json) -> Option<Seq<u8>>;

/// The BLAKE3 digest of `data`.
pub uninterp spec fn blake3_digest(data: Seq<u8>) -> Seq<u8>;

/// Calls `serde_json::Value::from` on a text. The value holds that text.
#[verifier::external_body]
pub(crate) fn text_value(text: &str) -> (r: serde_json::Value)
    ensures
        document(r) == Json::Text(text@),
{
    serde_json::Value::from(text)
}

/// Calls `serde_json::Value::from` on a number. The value holds that number.
#[verifier::external_body]
pub(crate) fn number_value(number: u64) -> (r: serde_json::Value)
    ensures
        document(r) == Json::Number(number),
{
    serde_json::Value::from(number)
}

/// Calls `serde_json::Value::from` on the unit. The value is null.
#[verifier::external_body]
pub(crate) fn null_value() -> (r: serde_json::Value)
    ensures
        document(r) == Json::Null,
{
    serde_json::Value::from(())
}

/// The documents of a list of values.
pub open spec fn documents(values: Seq<serde_json::Value>) -> Seq<Json> {
    values.map_values(|value: serde_json::Value| document(value))
}

/// Calls `serde_json::Value::from` on a vector of values. The value lists them in order.
#[verifier::external_body]
pub(crate) fn list_value(values: Vec<serde_json::Value>) -> (r: serde_json::Value)
    ensures
        document(r) == Json::List(documents(values@)),
{
    serde_json::Value::from(values)
}

/// The names and documents of a list of fields.
pub open spec fn field_documents(fields: Seq<(String, serde_json::Value)>) -> Seq<(Seq<char>, Json)> {
    fields.map_values(|field: (String, serde_json::Value)| (field.0@, document(field.1)))
}

/// No two fields have one name.
pub open spec fn distinct_names(fields: Seq<(String, serde_json::Value)>) -> bool {
    forall|i: int, j: int|
        0 <= i < j < fields.len() ==> (#[trigger] fields[i]).0@ != (#[trigger] fields[j]).0@
}

/// Calls `serde_json::Value::from_iter` on names and values. The value is the record of them;
/// with the crate's `preserve_order` feature the fields stay in the given order.
#[verifier::external_body]
pub(crate) fn record_value(fields: Vec<(String, serde_json::Value)>) -> (r: serde_json::Value)
    requires
        distinct_names(fields@),
    ensures
        document(r) == Json::Record(field_documents(fields@)),
{
    serde_json::Value::from_iter(fields)
}

/// Calls `serde_json::to_vec` on a value. The bytes follow from its document; and there are
/// bytes, for a value has only texts as keys, and a vector takes every byte.
#[verifier::external_body]
pub(crate) fn write_json(value: &serde_json::Value) -> (r: Result<Vec<u8>, serde_json::Error>)
    ensures
        match r {
            Ok(bytes) => json_text(document(*value)) == Some(bytes@),
            Err(_) => json_text(document(*value)) is None,
        },
        r is Ok,
{
    serde_json::to_vec(value)
}

/// Calls `blake3::hash` and gives the bytes of the digest, which follow from the data.
#[verifier::external_body]
pub(crate) fn digest_bytes(data: &[u8]) -> (r: [u8; 32])
    ensures
        r@ == blake3_digest(data@),
{
    *blake3::hash(data).as_bytes()
}

/// The fields of a record under construction.
pub(crate) struct Fields {
    items: Vec<(String, serde_json::Value)>,
}

impl Fields {
    /// The names and documents so far.
    pub(crate) closed spec fn documents(&self) -> Seq<(Seq<char>, Json)> {
        field_documents(self.items@)
    }

    /// Names are distinct.
    pub(crate) closed spec fn wf(&self) -> bool {
        distinct_names(self.items@)
    }

    pub(crate) fn new() -> (r: Self)
        ensures
            r.wf(),
            r.documents() == Seq::<(Seq<char>, Json)>::empty(),
    {
        let r = Fields { items: Vec::new() };
        assert(r.documents() =~= Seq::<(Seq<char>, Json)>::empty());
        r
    }

    /// Adds a field with a name that is not there yet.
    pub(crate) fn put(&mut self, name: &str, value: serde_json::Value)
        requires
            old(self).wf(),
            forall|i: int|
                0 <= i < old(self).documents().len() ==> (#[trigger] old(self).documents()[i]).0
                    != name@,
        ensures
            final(self).wf(),
            final(self).documents() == old(self).documents().push((name@, document(value))),
    {
        proof {
            assert forall|i: int| 0 <= i < self.items@.len() implies (#[trigger] self.items@[i]).0@
                != name@ by {
                assert(self.documents()[i].0 != name@);
            }
        }
        self.items.push((name.to_owned(), value));
        assert(self.documents() =~= old(self).documents().push((name@, document(value))));
    }

    /// The record of the fields.
    pub(crate) fn record(self) -> (r: serde_json::Value)
        requires
            self.wf(),
        ensures
            document(r) == Json::Record(self.documents()),
    {
        record_value(self.items)
    }
}

} // verus!
