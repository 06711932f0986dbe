//! The JSON instance of the structured-document patcher: paths are
//! slash-delimited, documents re-serialize compactly with sorted keys.
//! A second entry point applies JSON-pointer replacement operations,
//! whose path grammar differs from the plain patcher's: a leading slash,
//! `~0`/`~1` escapes, and array indices written as bare decimals without
//! a sign or leading zeros.

use vstd::prelude::*;

use crate::codec::{json_bytes_of, json_doc_of, parse_json, to_json_bytes};
use crate::doc::{
    apply_changes, apply_edits, changes_view, doc_view, ptr_set, ptr_set_at, Doc, DocV,
};
use crate::error::Error;
use crate::text::{split_on, split_str, strs_view};

verus! {

/// What patching JSON bytes yields: `DocumentError` for bytes that are
/// not JSON, `PathError` for a change whose path does not resolve, and
/// otherwise the re-serialized document with every change applied.
pub open spec fn json_update_spec(file: Seq<u8>, cs: Seq<(Seq<char>, Seq<char>)>) -> Result<
    Seq<u8>,
    Error,
> {
    match json_doc_of(file) {
        None => Err(Error::DocumentError),
        Some(d) => match apply_changes(d, cs, '/') {
            None => Err(Error::PathError),
            Some(d2) => Ok(json_bytes_of(d2)),
        },
    }
}

/// Applies `changes` to one JSON document: every slash-delimited path
/// must resolve to an existing node, which is replaced by the literal
/// string value; one unresolvable path fails the whole file, unpatched.
pub fn update_file(file: &[u8], changes: &Vec<(String, String)>) -> (r: Result<Vec<u8>, Error>)
    ensures
        match r {
            Ok(out) => json_update_spec(file@, changes_view(changes@)) == Ok::<_, Error>(out@),
            Err(e) => json_update_spec(file@, changes_view(changes@)) == Err::<Seq<u8>, _>(e),
        },
{
    match parse_json(file) {
        None => Err(Error::DocumentError),
        Some(d) => match apply_edits(d, changes, '/') {
            Ok(d2) => Ok(to_json_bytes(&d2)),
            Err(e) => Err(e),
        },
    }
}

/// One replacement of the node an RFC 6901 pointer addresses.
pub struct ReplaceOperation {
    pub path: String,
    pub value: Doc,
}

/// A patch operation; replacement of an existing node is the one kind
/// this library performs.
pub enum PatchOperation {
    Replace(ReplaceOperation),
}

/// An ordered list of patch operations.
pub struct Patch(pub Vec<PatchOperation>);

/// The pointer and replacement value each operation carries.
pub open spec fn patch_view(p: Patch) -> Seq<(Seq<char>, DocV)> {
    p.0@.map(
        |i: int, op: PatchOperation|
            match op {
                PatchOperation::Replace(r) => (r.path@, doc_view(r.value)),
            },
    )
}

/// One token with its `~1` and `~0` escapes decoded, or nothing when a
/// `~` is followed by anything else.
pub open spec fn unescape_token(t: Seq<char>) -> Option<Seq<char>>
    decreases t.len(),
{
    if t.len() == 0 {
        Some(Seq::empty())
    } else if t[0] == '~' {
        if t.len() >= 2 && t[1] == '0' {
            match unescape_token(t.skip(2)) {
                Some(r) => Some(seq!['~'] + r),
                None => None,
            }
        } else if t.len() >= 2 && t[1] == '1' {
            match unescape_token(t.skip(2)) {
                Some(r) => Some(seq!['/'] + r),
                None => None,
            }
        } else {
            None
        }
    } else {
        match unescape_token(t.drop_first()) {
            Some(r) => Some(seq![t[0]] + r),
            None => None,
        }
    }
}

/// Every token of a split pointer decoded, or nothing when one is
/// malformed.
pub open spec fn unescape_tokens(ts: Seq<Seq<char>>) -> Option<Seq<Seq<char>>>
    decreases ts.len(),
{
    if ts.len() == 0 {
        Some(Seq::empty())
    } else {
        match (unescape_token(ts[0]), unescape_tokens(ts.drop_first())) {
            (Some(h), Some(r)) => Some(seq![h] + r),
            _ => None,
        }
    }
}

/// The tokens of an RFC 6901 pointer: empty for the whole document, and
/// otherwise a leading `/` before each reference token.
pub open spec fn pointer_tokens(p: Seq<char>) -> Option<Seq<Seq<char>>> {
    if p.len() == 0 {
        Some(Seq::empty())
    } else if p[0] != '/' {
        None
    } else {
        unescape_tokens(split_on(p, '/').drop_first())
    }
}

/// Decodes one reference token.
fn unescape_token_str(t: &str) -> (r: Result<String, Error>)
    ensures
        match r {
            Ok(s) => unescape_token(t@) == Some(s@),
            Err(e) => e == Error::PathError && unescape_token(t@) is None,
        },
{
    let n = t.unicode_len();
    let mut out = String::new();
    let mut i: usize = 0;
    proof {
        assert(t@.skip(0) =~= t@);
    }
    while i < n
        invariant
            0 <= i <= n,
            n == t@.len(),
            match unescape_token(t@) {
                Some(w) => unescape_token(t@.skip(i as int)) matches Some(r) && w == out@ + r,
                None => unescape_token(t@.skip(i as int)) is None,
            },
        decreases n - i,
    {
        let ghost tail = t@.skip(i as int);
        let c = t.get_char(i);
        proof {
            assert(tail[0] == c);
        }
        if c == '~' {
            if i + 1 < n {
                let c2 = t.get_char(i + 1);
                proof {
                    assert(tail[1] == c2);
                    assert(tail.skip(2) =~= t@.skip(i + 2));
                }
                if c2 == '0' {
                    out.push('~');
                } else if c2 == '1' {
                    out.push('/');
                } else {
                    return Err(Error::PathError);
                }
                proof {
                    if unescape_token(t@) is Some {
                        let w = unescape_token(t@)->Some_0;
                        let r2 = unescape_token(t@.skip(i + 2))->Some_0;
                        assert(w =~= out@ + r2);
                    }
                }
                i = i + 2;
            } else {
                return Err(Error::PathError);
            }
        } else {
            out.push(c);
            proof {
                assert(tail.drop_first() =~= t@.skip(i + 1));
                if unescape_token(t@) is Some {
                    let w = unescape_token(t@)->Some_0;
                    let r2 = unescape_token(t@.skip(i + 1))->Some_0;
                    assert(w =~= out@ + r2);
                }
            }
            i = i + 1;
        }
    }
    proof {
        assert(t@.skip(i as int) =~= Seq::<char>::empty());
        if unescape_token(t@) is Some {
            assert(unescape_token(t@)->Some_0 =~= out@);
        }
    }
    Ok(out)
}

/// Splits and decodes a pointer into its reference tokens.
fn parse_pointer(p: &str) -> (r: Result<Vec<String>, Error>)
    ensures
        match r {
            Ok(toks) => pointer_tokens(p@) == Some(strs_view(toks@)),
            Err(e) => e == Error::PathError && pointer_tokens(p@) is None,
        },
{
    let n = p.unicode_len();
    if n == 0 {
        let toks: Vec<String> = Vec::new();
        proof {
            assert(strs_view(toks@) =~= Seq::<Seq<char>>::empty());
        }
        return Ok(toks);
    }
    if p.get_char(0) != '/' {
        return Err(Error::PathError);
    }
    let raw = split_str(p, '/');
    let ghost rawv = strs_view(raw@).drop_first();
    let mut toks: Vec<String> = Vec::new();
    let m = raw.len();
    proof {
        assert(strs_view(raw@).len() == raw@.len());
        assert(rawv.skip(0) =~= rawv);
    }
    let mut i: usize = 1;
    while i < m
        invariant
            1 <= i <= m,
            m == raw@.len(),
            m >= 1,
            rawv == strs_view(raw@).drop_first(),
            rawv.len() == m - 1,
            strs_view(raw@) == split_on(p@, '/'),
            toks@.len() == i - 1,
            match unescape_tokens(rawv) {
                Some(w) => unescape_tokens(rawv.skip(i - 1)) matches Some(r) && w == strs_view(
                    toks@,
                ) + r,
                None => unescape_tokens(rawv.skip(i - 1)) is None,
            },
        decreases m - i,
    {
        proof {
            assert(rawv.skip(i - 1)[0] == rawv[i - 1]);
            assert(rawv[i - 1] == strs_view(raw@)[i as int]);
            assert(rawv.skip(i - 1).drop_first() =~= rawv.skip(i as int));
        }
        let tok = match unescape_token_str(raw[i].as_str()) {
            Ok(t) => t,
            Err(e) => {
                return Err(e);
            },
        };
        toks.push(tok);
        proof {
            if unescape_tokens(rawv) is Some {
                let w = unescape_tokens(rawv)->Some_0;
                let r2 = unescape_tokens(rawv.skip(i as int))->Some_0;
                assert(w =~= strs_view(toks@) + r2);
            }
        }
        i = i + 1;
    }
    proof {
        assert(rawv.skip(i - 1) =~= Seq::<Seq<char>>::empty());
        if unescape_tokens(rawv) is Some {
            assert(unescape_tokens(rawv)->Some_0 =~= strs_view(toks@));
        }
    }
    Ok(toks)
}

/// What applying a patch to a parsed document yields: the tree after
/// every replacement, or nothing as soon as a pointer is malformed or
/// fails to resolve.
pub open spec fn apply_ptr_ops(d: DocV, ops: Seq<(Seq<char>, DocV)>) -> Option<DocV>
    decreases ops.len(),
{
    if ops.len() == 0 {
        Some(d)
    } else {
        match pointer_tokens(ops[0].0) {
            None => None,
            Some(toks) => match ptr_set(d, toks, ops[0].1) {
                Some(d2) => apply_ptr_ops(d2, ops.drop_first()),
                None => None,
            },
        }
    }
}

/// What patching JSON bytes with pointer operations yields.
pub open spec fn json_patch_spec(file: Seq<u8>, ops: Seq<(Seq<char>, DocV)>) -> Result<
    Seq<u8>,
    Error,
> {
    match json_doc_of(file) {
        None => Err(Error::DocumentError),
        Some(d) => match apply_ptr_ops(d, ops) {
            None => Err(Error::PathError),
            Some(d2) => Ok(json_bytes_of(d2)),
        },
    }
}

/// Applies JSON-pointer replacement operations to one JSON document:
/// every pointer must be well formed and resolve to an existing node,
/// which the operation's value replaces; one bad pointer fails the whole
/// file, unpatched.
pub fn update_json_file(file: &[u8], changes: &Patch) -> (r: Result<Vec<u8>, Error>)
    ensures
        match r {
            Ok(out) => json_patch_spec(file@, patch_view(*changes)) == Ok::<_, Error>(out@),
            Err(e) => json_patch_spec(file@, patch_view(*changes)) == Err::<Seq<u8>, _>(e),
        },
{
    let ghost ops = patch_view(*changes);
    let mut cur = match parse_json(file) {
        Some(d) => d,
        None => {
            return Err(Error::DocumentError);
        },
    };
    let n = changes.0.len();
    let mut i: usize = 0;
    proof {
        assert(ops.skip(0) =~= ops);
    }
    while i < n
        invariant
            0 <= i <= n,
            n == changes.0@.len(),
            ops == patch_view(*changes),
            json_doc_of(file@) matches Some(d0) && apply_ptr_ops(d0, ops) == apply_ptr_ops(
                doc_view(cur),
                ops.skip(i as int),
            ),
        decreases n - i,
    {
        let ghost curv = doc_view(cur);
        proof {
            assert(ops.skip(i as int)[0] == ops[i as int]);
            assert(ops.skip(i as int).drop_first() =~= ops.skip(i + 1));
        }
        let op = &changes.0[i];
        let (path, value) = match op {
            PatchOperation::Replace(rep) => (&rep.path, rep.value.clone_doc()),
        };
        let toks = match parse_pointer(path.as_str()) {
            Ok(t) => t,
            Err(e) => {
                return Err(e);
            },
        };
        proof {
            assert(strs_view(toks@).skip(0) =~= strs_view(toks@));
        }
        match crate::doc::ptr_set_at(cur, &toks, 0, value) {
            Ok(next) => {
                cur = next;
            },
            Err(e) => {
                return Err(e);
            },
        }
        i = i + 1;
    }
    proof {
        assert(ops.skip(i as int) =~= Seq::<(Seq<char>, DocV)>::empty());
    }
    Ok(to_json_bytes(&cur))
}

} // verus!
