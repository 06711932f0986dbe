//! The trusted boundary to the document serializers and byte encoders.
//!
//! Every function here is believed, not proved: each one makes a single
//! call into an outside crate (or std) and converts between that crate's
//! values and the library's own. What a call returns as a function of its
//! arguments alone is given a name (`json_doc_of`, `base64_of`, ...), and
//! the verified code reasons in terms of those names.

use vstd::prelude::*;

use crate::doc::{doc_view, Doc, DocV};

verus! {

#[verifier::external_type_specification]
#[verifier::external_body]
pub struct ExJsonValue(serde_json::Value);

#[verifier::external_type_specification]
#[verifier::external_body]
pub struct ExYamlValue(serde_yaml::Value);

/// The document that `serde_json::from_slice` reads from `bytes`, as a
/// tree of this library, or nothing when the bytes are not valid JSON.
pub uninterp spec fn json_doc_of(bytes: Seq<u8>) -> Option<DocV>;

/// The compact encoding that `serde_json::to_vec` gives a tree, object
/// keys in sorted order.
pub uninterp spec fn json_bytes_of(d: DocV) -> Seq<u8>;

/// The document that `serde_yaml::from_slice` reads from `bytes`, as a
/// tree of this library, or nothing when the bytes are not valid YAML.
pub uninterp spec fn yaml_doc_of(bytes: Seq<u8>) -> Option<DocV>;

/// The block-style encoding that `serde_yaml::to_string` gives a tree.
pub uninterp spec fn yaml_bytes_of(d: DocV) -> Seq<u8>;

/// The standard-alphabet, padded base64 encoding of a byte string.
pub uninterp spec fn base64_of(bytes: Seq<u8>) -> Seq<char>;

/// What `String::from_utf8_lossy` makes of a byte string: the decoded
/// text, every invalid sequence replaced.
pub uninterp spec fn lossy_decoded(bytes: Seq<u8>) -> Seq<char>;

/// Relies on serde_json::from_slice: parses `bytes` as one JSON document,
/// converted node for node into the library's tree (numbers keep their
/// textual form).
#[verifier::external_body]
pub(crate) fn parse_json(bytes: &[u8]) -> (r: Option<Doc>)
    ensures
        match r {
            Some(d) => json_doc_of(bytes@) == Some(doc_view(d)),
            None => json_doc_of(bytes@) is None,
        },
{
    match serde_json::from_slice::<serde_json::Value>(bytes) {
        Ok(v) => Some(doc_from_json(v)),
        Err(_) => None,
    }
}

/// Relies on serde_json::to_vec: the compact JSON encoding of the tree.
/// A tree of these variants always serializes; the empty byte string
/// stands in on the error path serde_json never takes here.
#[verifier::external_body]
pub(crate) fn to_json_bytes(d: &Doc) -> (r: Vec<u8>)
    ensures
        r@ == json_bytes_of(doc_view(*d)),
{
    serde_json::to_vec(&doc_to_json(d)).unwrap_or_default()
}

/// Relies on serde_yaml::from_slice: parses `bytes` as one YAML document,
/// converted node for node into the library's tree. Mapping keys become
/// their scalar text; a tag is dropped in favour of the tagged value.
#[verifier::external_body]
pub(crate) fn parse_yaml(bytes: &[u8]) -> (r: Option<Doc>)
    ensures
        match r {
            Some(d) => yaml_doc_of(bytes@) == Some(doc_view(d)),
            None => yaml_doc_of(bytes@) is None,
        },
{
    match serde_yaml::from_slice::<serde_yaml::Value>(bytes) {
        Ok(v) => Some(doc_from_yaml(v)),
        Err(_) => None,
    }
}

/// Relies on serde_yaml::to_string: the block-style YAML encoding of the
/// tree, as its UTF-8 bytes. A tree of these variants always serializes;
/// the empty byte string stands in on the error path serde_yaml never
/// takes here.
#[verifier::external_body]
pub(crate) fn to_yaml_bytes(d: &Doc) -> (r: Vec<u8>)
    ensures
        r@ == yaml_bytes_of(doc_view(*d)),
{
    serde_yaml::to_string(&doc_to_yaml(d)).map(String::into_bytes).unwrap_or_default()
}

/// Relies on base64's STANDARD engine: four alphabet characters for every
/// three bytes, padded with `=`.
#[verifier::external_body]
pub(crate) fn base64_encode(bytes: &[u8]) -> (r: String)
    ensures
        r@ == base64_of(bytes@),
{
    base64::Engine::encode(&base64::engine::general_purpose::STANDARD, bytes)
}

/// Relies on str::from_utf8: decodes exactly the valid UTF-8 byte
/// strings, to the characters they encode.
#[verifier::external_body]
pub(crate) fn utf8_decode(bytes: &[u8]) -> (r: Option<String>)
    ensures
        r is Some <==> vstd::utf8::valid_utf8(bytes@),
        r matches Some(s) ==> s@ == vstd::utf8::decode_utf8(bytes@),
{
    std::str::from_utf8(bytes).ok().map(str::to_owned)
}

/// Relies on String::from_utf8_lossy: text from any byte string, valid
/// UTF-8 decoded unchanged.
#[verifier::external_body]
pub(crate) fn utf8_lossy(bytes: &[u8]) -> (r: String)
    ensures
        r@ == lossy_decoded(bytes@),
        vstd::utf8::valid_utf8(bytes@) ==> r@ == vstd::utf8::decode_utf8(bytes@),
{
    String::from_utf8_lossy(bytes).into_owned()
}

/// Converts a parsed JSON value into the library's tree, one node for one.
#[verifier::external_body]
fn doc_from_json(v: serde_json::Value) -> Doc {
    match v {
        serde_json::Value::Null => Doc::Null,
        serde_json::Value::Bool(b) => Doc::Bool(b),
        serde_json::Value::Number(n) => Doc::Num(n.to_string()),
        serde_json::Value::String(s) => Doc::Str(s),
        serde_json::Value::Array(a) => Doc::Arr(a.into_iter().map(doc_from_json).collect()),
        serde_json::Value::Object(m) => Doc::Obj(
            m.into_iter().map(|(k, v)| (k, doc_from_json(v))).collect(),
        ),
    }
}

/// Converts the library's tree back into a JSON value, one node for one.
#[verifier::external_body]
fn doc_to_json(d: &Doc) -> serde_json::Value {
    match d {
        Doc::Null => serde_json::Value::Null,
        Doc::Bool(b) => serde_json::Value::Bool(*b),
        Doc::Num(s) => match s.parse::<serde_json::Number>() {
            Ok(n) => serde_json::Value::Number(n),
            Err(_) => serde_json::Value::String(s.clone()),
        },
        Doc::Str(s) => serde_json::Value::String(s.clone()),
        Doc::Arr(items) => serde_json::Value::Array(items.iter().map(doc_to_json).collect()),
        Doc::Obj(entries) => serde_json::Value::Object(
            entries.iter().map(|(k, v)| (k.clone(), doc_to_json(v))).collect(),
        ),
    }
}

/// Converts a parsed YAML value into the library's tree, one node for
/// one; mapping keys normalize to their scalar text, tags fall away.
#[verifier::external_body]
fn doc_from_yaml(v: serde_yaml::Value) -> Doc {
    match v {
        serde_yaml::Value::Null => Doc::Null,
        serde_yaml::Value::Bool(b) => Doc::Bool(b),
        serde_yaml::Value::Number(n) => Doc::Num(n.to_string()),
        serde_yaml::Value::String(s) => Doc::Str(s),
        serde_yaml::Value::Sequence(a) => Doc::Arr(a.into_iter().map(doc_from_yaml).collect()),
        serde_yaml::Value::Mapping(m) => Doc::Obj(
            m.into_iter().map(|(k, v)| (yaml_key_text(k), doc_from_yaml(v))).collect(),
        ),
        serde_yaml::Value::Tagged(t) => doc_from_yaml(t.value),
    }
}

/// The text of a YAML mapping key, one variant for one; a non-scalar key
/// has none.
#[verifier::external_body]
fn yaml_key_text(k: serde_yaml::Value) -> String {
    match k {
        serde_yaml::Value::String(s) => s,
        serde_yaml::Value::Bool(b) => b.to_string(),
        serde_yaml::Value::Number(n) => n.to_string(),
        _ => String::new(),
    }
}

/// Converts the library's tree back into a YAML value, one node for one.
#[verifier::external_body]
fn doc_to_yaml(d: &Doc) -> serde_yaml::Value {
    match d {
        Doc::Null => serde_yaml::Value::Null,
        Doc::Bool(b) => serde_yaml::Value::Bool(*b),
        Doc::Num(s) => match s.parse::<serde_yaml::Number>() {
            Ok(n) => serde_yaml::Value::Number(n),
            Err(_) => serde_yaml::Value::String(s.clone()),
        },
        Doc::Str(s) => serde_yaml::Value::String(s.clone()),
        Doc::Arr(items) => serde_yaml::Value::Sequence(items.iter().map(doc_to_yaml).collect()),
        Doc::Obj(entries) => serde_yaml::Value::Mapping(
            entries.iter().map(|(k, v)| (serde_yaml::Value::String(k.clone()), doc_to_yaml(
                v,
            ))).collect(),
        ),
    }
}

} // verus!
