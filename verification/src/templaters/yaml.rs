//! The YAML instance of the structured-document patcher: paths are
//! dot-delimited, documents re-serialize in block style.

use vstd::prelude::*;

use crate::codec::{parse_yaml, to_yaml_bytes, yaml_bytes_of, yaml_doc_of};
use crate::doc::{apply_changes, apply_edits, changes_view};
use crate::error::Error;

verus! {

/// What patching YAML bytes yields: `DocumentError` for bytes that are
/// not YAML, `PathError` for a change whose path does not resolve, and
/// otherwise the re-serialized document with every change applied.
pub open spec fn yaml_update_spec(file: Seq<u8>, cs: Seq<(Seq<char>, Seq<char>)>) -> Result<
    Seq<u8>,
    Error,
> {
    match yaml_doc_of(file) {
        None => Err(Error::DocumentError),
        Some(d) => match apply_changes(d, cs, '.') {
            None => Err(Error::PathError),
            Some(d2) => Ok(yaml_bytes_of(d2)),
        },
    }
}

/// Applies `changes` to one YAML document: every dot-delimited path must
/// resolve to an existing node, which is replaced by the literal string
/// value; one unresolvable path fails the whole file, unpatched.
pub fn update_file(file: &[u8], changes: &Vec<(String, String)>) -> (r: Result<Vec<u8>, Error>)
    ensures
        match r {
            Ok(out) => yaml_update_spec(file@, changes_view(changes@)) == Ok::<_, Error>(out@),
            Err(e) => yaml_update_spec(file@, changes_view(changes@)) == Err::<Seq<u8>, _>(e),
        },
{
    match parse_yaml(file) {
        None => Err(Error::DocumentError),
        Some(d) => match apply_edits(d, changes, '.') {
            Ok(d2) => Ok(to_yaml_bytes(&d2)),
            Err(e) => Err(e),
        },
    }
}

} // verus!
