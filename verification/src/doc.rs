//! The in-memory document tree shared by the JSON and YAML patchers, its
//! mathematical model, and the path-addressed replacement engine.
//!
//! A path is a sequence of segments. Each segment that reads as a
//! non-negative integer indexes an array node; any other segment is looked
//! up as an object key. The node the whole path addresses is replaced; a
//! path that does not resolve leaves the document untouched and reports
//! `PathError`.

use vstd::prelude::*;

use crate::error::Error;
use crate::text::{parse_seg_index, seg_index, split_on, split_str, strs_view};

verus! {

/// A parsed document: the value graph of one JSON or YAML file. Numbers
/// keep their textual representation, which spares the tree any floating
/// point while re-serialization restores the original value.
pub enum Doc {
    Null,
    Bool(bool),
    Num(String),
    Str(String),
    Arr(Vec<Doc>),
    Obj(Vec<(String, Doc)>),
}

/// The mathematical model of a document tree.
#[verifier::ext_equal]
pub enum DocV {
    Null,
    Bool(bool),
    Num(Seq<char>),
    Str(Seq<char>),
    Arr(Seq<DocV>),
    Obj(Seq<(Seq<char>, DocV)>),
}

pub open spec fn doc_view(d: Doc) -> DocV
    decreases d,
{
    match d {
        Doc::Null => DocV::Null,
        Doc::Bool(b) => DocV::Bool(b),
        Doc::Num(s) => DocV::Num(s@),
        Doc::Str(s) => DocV::Str(s@),
        Doc::Arr(items) => DocV::Arr(arr_view(items@)),
        Doc::Obj(entries) => DocV::Obj(obj_view(entries@)),
    }
}

pub open spec fn arr_view(items: Seq<Doc>) -> Seq<DocV>
    decreases items,
{
    if items.len() == 0 {
        Seq::empty()
    } else {
        arr_view(items.drop_last()).push(doc_view(items.last()))
    }
}

pub open spec fn obj_view(entries: Seq<(String, Doc)>) -> Seq<(Seq<char>, DocV)>
    decreases entries,
{
    if entries.len() == 0 {
        Seq::empty()
    } else {
        obj_view(entries.drop_last()).push((entries.last().0@, doc_view(entries.last().1)))
    }
}

impl View for Doc {
    type V = DocV;

    open spec fn view(&self) -> DocV {
        doc_view(*self)
    }
}

pub proof fn lemma_arr_view(items: Seq<Doc>)
    ensures
        arr_view(items).len() == items.len(),
        forall|i: int| 0 <= i < items.len() ==> arr_view(items)[i] == items[i]@,
    decreases items,
{
    if items.len() > 0 {
        lemma_arr_view(items.drop_last());
        assert forall|i: int| 0 <= i < items.len() implies arr_view(items)[i] == items[i]@ by {
            if i < items.len() - 1 {
                assert(items.drop_last()[i] == items[i]);
            } else {
                assert(items.last() == items[i]);
            }
        }
    }
}

pub proof fn lemma_obj_view(entries: Seq<(String, Doc)>)
    ensures
        obj_view(entries).len() == entries.len(),
        forall|i: int|
            0 <= i < entries.len() ==> obj_view(entries)[i] == (entries[i].0@, entries[i].1@),
    decreases entries,
{
    if entries.len() > 0 {
        lemma_obj_view(entries.drop_last());
        assert forall|i: int|
            0 <= i < entries.len() implies obj_view(entries)[i] == (
            entries[i].0@,
            entries[i].1@,
        ) by {
            if i < entries.len() - 1 {
                assert(entries.drop_last()[i] == entries[i]);
            } else {
                assert(entries.last() == entries[i]);
            }
        }
    }
}

/// The value under `key` in an object's entry list: the first entry
/// carrying the key decides, as a map lookup does when keys are unique.
pub open spec fn obj_get(entries: Seq<(Seq<char>, DocV)>, key: Seq<char>) -> Option<DocV>
    decreases entries.len(),
{
    if entries.len() == 0 {
        None
    } else if entries[0].0 == key {
        Some(entries[0].1)
    } else {
        obj_get(entries.drop_first(), key)
    }
}

/// The entry list with the first entry under `key` holding `v` instead;
/// unchanged when the key is absent.
pub open spec fn obj_set(entries: Seq<(Seq<char>, DocV)>, key: Seq<char>, v: DocV) -> Seq<
    (Seq<char>, DocV),
>
    decreases entries.len(),
{
    if entries.len() == 0 {
        entries
    } else if entries[0].0 == key {
        seq![(entries[0].0, v)] + entries.drop_first()
    } else {
        seq![entries[0]] + obj_set(entries.drop_first(), key, v)
    }
}

pub proof fn lemma_obj_set_shape(entries: Seq<(Seq<char>, DocV)>, key: Seq<char>, v: DocV)
    ensures
        obj_set(entries, key, v).len() == entries.len(),
        forall|i: int|
            0 <= i < entries.len() ==> (#[trigger] obj_set(entries, key, v)[i]).0
                == entries[i].0,
    decreases entries.len(),
{
    if entries.len() > 0 && entries[0].0 != key {
        lemma_obj_set_shape(entries.drop_first(), key, v);
    }
}

pub proof fn lemma_obj_set_get(entries: Seq<(Seq<char>, DocV)>, key: Seq<char>, v: DocV)
    ensures
        obj_get(entries, key) is Some ==> obj_get(obj_set(entries, key, v), key) == Some(v),
        forall|k2: Seq<char>|
            k2 != key ==> #[trigger] obj_get(obj_set(entries, key, v), k2) == obj_get(
                entries,
                k2,
            ),
    decreases entries.len(),
{
    if entries.len() > 0 {
        if entries[0].0 == key {
            let s2 = obj_set(entries, key, v);
            assert(s2[0] == (entries[0].0, v));
            assert(s2.drop_first() =~= entries.drop_first());
            assert forall|k2: Seq<char>|
                k2 != key implies #[trigger] obj_get(obj_set(entries, key, v), k2) == obj_get(
                entries,
                k2,
            ) by {
                assert(obj_get(s2, k2) == obj_get(s2.drop_first(), k2));
                assert(obj_get(entries, k2) == obj_get(entries.drop_first(), k2));
            }
        } else {
            lemma_obj_set_get(entries.drop_first(), key, v);
            let s2 = obj_set(entries, key, v);
            assert(s2[0] == entries[0]);
            assert(s2.drop_first() =~= obj_set(entries.drop_first(), key, v));
            assert forall|k2: Seq<char>|
                k2 != key implies #[trigger] obj_get(obj_set(entries, key, v), k2) == obj_get(
                entries,
                k2,
            ) by {
                if k2 != entries[0].0 {
                    assert(obj_get(s2, k2) == obj_get(s2.drop_first(), k2));
                    assert(obj_get(entries, k2) == obj_get(entries.drop_first(), k2));
                }
            }
        }
    }
}

/// The index of the first entry under `key`, or -1: the bridge between the
/// recursive lookup and an executable scan.
pub proof fn lemma_obj_get_at(entries: Seq<(Seq<char>, DocV)>, key: Seq<char>, j: int, v: DocV)
    requires
        0 <= j < entries.len(),
        entries[j].0 == key,
        forall|i: int| 0 <= i < j ==> (#[trigger] entries[i]).0 != key,
    ensures
        obj_get(entries, key) == Some(entries[j].1),
        obj_set(entries, key, v) =~= entries.update(j, (key, v)),
    decreases j,
{
    if j > 0 {
        assert(forall|i: int|
            0 <= i < entries.len() - 1 ==> entries.drop_first()[i] == entries[i + 1]);
        lemma_obj_get_at(entries.drop_first(), key, j - 1, v);
        assert(entries.drop_first().update(j - 1, (key, v)) =~= entries.update(
            j,
            (key, v),
        ).drop_first());
    }
}

pub proof fn lemma_obj_get_absent(entries: Seq<(Seq<char>, DocV)>, key: Seq<char>)
    requires
        forall|i: int| 0 <= i < entries.len() ==> (#[trigger] entries[i]).0 != key,
    ensures
        obj_get(entries, key) is None,
    decreases entries.len(),
{
    if entries.len() > 0 {
        lemma_obj_get_absent(entries.drop_first(), key);
    }
}

/// The child one path segment selects: an index into an array, or a key
/// into an object; anything else fails.
pub open spec fn doc_child(d: DocV, seg: Seq<char>) -> Option<DocV> {
    match seg_index(seg) {
        Some(i) => match d {
            DocV::Arr(items) => if 0 <= i < items.len() {
                Some(items[i])
            } else {
                None
            },
            _ => None,
        },
        None => match d {
            DocV::Obj(entries) => obj_get(entries, seg),
            _ => None,
        },
    }
}

/// The node a whole path addresses, when every segment resolves.
pub open spec fn doc_get(d: DocV, path: Seq<Seq<char>>) -> Option<DocV>
    decreases path.len(),
{
    if path.len() == 0 {
        Some(d)
    } else {
        match doc_child(d, path[0]) {
            Some(c) => doc_get(c, path.drop_first()),
            None => None,
        }
    }
}

/// The document with the node at `path` replaced by `v`, or nothing when
/// the path does not resolve. Replacement keeps every other node in place.
pub open spec fn doc_set(d: DocV, path: Seq<Seq<char>>, v: DocV) -> Option<DocV>
    decreases path.len(),
{
    if path.len() == 0 {
        Some(v)
    } else {
        match seg_index(path[0]) {
            Some(i) => match d {
                DocV::Arr(items) => if 0 <= i < items.len() {
                    match doc_set(items[i], path.drop_first(), v) {
                        Some(c2) => Some(DocV::Arr(items.update(i, c2))),
                        None => None,
                    }
                } else {
                    None
                },
                _ => None,
            },
            None => match d {
                DocV::Obj(entries) => match obj_get(entries, path[0]) {
                    Some(c) => match doc_set(c, path.drop_first(), v) {
                        Some(c2) => Some(DocV::Obj(obj_set(entries, path[0], c2))),
                        None => None,
                    },
                    None => None,
                },
                _ => None,
            },
        }
    }
}

/// Replacement succeeds exactly where the path resolves to an existing
/// node.
pub proof fn lemma_doc_set_resolves(d: DocV, path: Seq<Seq<char>>, v: DocV)
    ensures
        doc_set(d, path, v) is Some <==> doc_get(d, path) is Some,
    decreases path.len(),
{
    if path.len() > 0 {
        match doc_child(d, path[0]) {
            Some(c) => {
                lemma_doc_set_resolves(c, path.drop_first(), v);
            },
            None => {},
        }
    }
}

/// After a successful replacement the path addresses the new value.
pub proof fn lemma_doc_set_get(d: DocV, path: Seq<Seq<char>>, v: DocV, d2: DocV)
    requires
        doc_set(d, path, v) == Some(d2),
    ensures
        doc_get(d2, path) == Some(v),
    decreases path.len(),
{
    if path.len() > 0 {
        let seg = path[0];
        match seg_index(seg) {
            Some(i) => {
                let items = d->Arr_0;
                let c2 = doc_set(items[i], path.drop_first(), v)->Some_0;
                lemma_doc_set_get(items[i], path.drop_first(), v, c2);
            },
            None => {
                let entries = d->Obj_0;
                let c = obj_get(entries, seg)->Some_0;
                let c2 = doc_set(c, path.drop_first(), v)->Some_0;
                lemma_doc_set_get(c, path.drop_first(), v, c2);
                lemma_obj_set_get(entries, seg, c2);
            },
        }
    }
}

impl Doc {
    /// A copy whose model is the original's.
    pub fn clone_doc(&self) -> (r: Doc)
        ensures
            doc_view(r) == doc_view(*self),
        decreases *self,
    {
        match self {
            Doc::Null => Doc::Null,
            Doc::Bool(b) => Doc::Bool(*b),
            Doc::Num(s) => Doc::Num(s.clone()),
            Doc::Str(s) => Doc::Str(s.clone()),
            Doc::Arr(items) => {
                let n = items.len();
                let mut out: Vec<Doc> = Vec::new();
                let mut i: usize = 0;
                while i < n
                    invariant
                        0 <= i <= n,
                        n == items@.len(),
                        *self == Doc::Arr(*items),
                        out@.len() == i,
                        forall|j: int|
                            0 <= j < i ==> doc_view(#[trigger] out@[j]) == doc_view(items@[j]),
                    decreases n - i,
                {
                    proof {
                        assert(decreases_to!(*self => self->Arr_0));
                        assert(self->Arr_0 == *items);
                        assert(decreases_to!(*items => items@));
                        assert(decreases_to!(items@ => items@[i as int]));
                        assert(decreases_to!(*self => items@[i as int]));
                    }
                    out.push(items[i].clone_doc());
                    i = i + 1;
                }
                proof {
                    lemma_arr_view(out@);
                    lemma_arr_view(items@);
                    assert(arr_view(out@) =~= arr_view(items@));
                }
                Doc::Arr(out)
            },
            Doc::Obj(entries) => {
                let n = entries.len();
                let mut out: Vec<(String, Doc)> = Vec::new();
                let mut i: usize = 0;
                while i < n
                    invariant
                        0 <= i <= n,
                        n == entries@.len(),
                        *self == Doc::Obj(*entries),
                        out@.len() == i,
                        forall|j: int|
                            0 <= j < i ==> (#[trigger] out@[j]).0@ == entries@[j].0@ && doc_view(
                                out@[j].1,
                            ) == doc_view(entries@[j].1),
                    decreases n - i,
                {
                    let e = &entries[i];
                    proof {
                        assert(decreases_to!(*self => self->Obj_0));
                        assert(self->Obj_0 == *entries);
                        assert(decreases_to!(*entries => entries@));
                        assert(decreases_to!(entries@ => entries@[i as int]));
                        assert(decreases_to!(entries@[i as int] => entries@[i as int].1));
                        assert(decreases_to!(*self => entries@[i as int].1));
                    }
                    out.push((e.0.clone(), e.1.clone_doc()));
                    i = i + 1;
                }
                proof {
                    lemma_obj_view(out@);
                    lemma_obj_view(entries@);
                    assert(obj_view(out@) =~= obj_view(entries@));
                }
                Doc::Obj(out)
            },
        }
    }
}

/// The position of the first entry under `key`, scanning in order.
fn find_key(entries: &Vec<(String, Doc)>, key: &String) -> (r: Option<usize>)
    ensures
        match r {
            Some(j) => ({
                &&& j < entries@.len()
                &&& entries@[j as int].0@ == key@
                &&& forall|jj: int| 0 <= jj < j ==> (#[trigger] entries@[jj]).0@ != key@
            }),
            None => forall|jj: int|
                0 <= jj < entries@.len() ==> (#[trigger] entries@[jj]).0@ != key@,
        },
{
    let n = entries.len();
    let mut j: usize = 0;
    while j < n
        invariant
            0 <= j <= n,
            n == entries@.len(),
            forall|jj: int| 0 <= jj < j ==> (#[trigger] entries@[jj]).0@ != key@,
        decreases n - j,
    {
        let e = &entries[j];
        if e.0 == *key {
            return Some(j);
        }
        j = j + 1;
    }
    None
}

/// The child under `key` of an object node: nothing on any other node
/// kind or when the key is absent.
pub fn get_key<'a>(d: &'a Doc, key: &String) -> (r: Option<&'a Doc>)
    ensures
        match r {
            Some(c) => (doc_view(*d) matches DocV::Obj(es) && obj_get(es, key@) == Some(
                doc_view(*c),
            )),
            None => !(doc_view(*d) matches DocV::Obj(es) && obj_get(es, key@) is Some),
        },
{
    match d {
        Doc::Obj(entries) => {
            proof {
                lemma_obj_view(entries@);
            }
            match find_key(entries, key) {
                Some(j) => {
                    proof {
                        assert forall|jj: int|
                            0 <= jj < j implies (#[trigger] obj_view(entries@)[jj]).0
                            != key@ by {
                            assert(obj_view(entries@)[jj].0 == entries@[jj].0@);
                        }
                        lemma_obj_get_at(obj_view(entries@), key@, j as int, DocV::Null);
                    }
                    Some(&entries[j].1)
                },
                None => {
                    proof {
                        assert forall|jj: int|
                            0 <= jj < obj_view(entries@).len() implies (#[trigger] obj_view(
                            entries@,
                        )[jj]).0 != key@ by {
                            assert(obj_view(entries@)[jj].0 == entries@[jj].0@);
                        }
                        lemma_obj_get_absent(obj_view(entries@), key@);
                    }
                    None
                },
            }
        },
        _ => None,
    }
}

/// Replaces the node that segments `k..` of `path` address, rebuilding the
/// spine above it and leaving every sibling in place.
pub fn set_at(d: Doc, path: &Vec<String>, k: usize, value: &str) -> (r: Result<Doc, Error>)
    requires
        k <= path@.len(),
    ensures
        match r {
            Ok(d2) => doc_set(doc_view(d), strs_view(path@).skip(k as int), DocV::Str(value@))
                == Some(doc_view(d2)),
            Err(e) => ({
                &&& e == Error::PathError
                &&& doc_set(doc_view(d), strs_view(path@).skip(k as int), DocV::Str(value@))
                    is None
            }),
        },
    decreases path@.len() - k,
{
    let ghost rest = strs_view(path@).skip(k as int);
    if k == path.len() {
        proof {
            assert(rest =~= Seq::<Seq<char>>::empty());
        }
        return Ok(Doc::Str(String::from_str(value)));
    }
    let seg = &path[k];
    proof {
        assert(rest[0] == seg@);
        assert(rest.drop_first() =~= strs_view(path@).skip(k + 1));
    }
    match parse_seg_index(seg.as_str()) {
        Some(i) => {
            match d {
                Doc::Arr(mut items) => {
                    let ghost items0 = items@;
                    proof {
                        assert(doc_view(d) == DocV::Arr(arr_view(items0)));
                        lemma_arr_view(items0);
                    }
                    if i < items.len() {
                        let child = items.remove(i);
                        match set_at(child, path, k + 1, value) {
                            Ok(c2) => {
                                let ghost c2v = doc_view(c2);
                                items.insert(i, c2);
                                proof {
                                    assert(items@ =~= items0.update(i as int, c2));
                                    lemma_arr_view(items@);
                                    lemma_arr_view(items0);
                                    assert(arr_view(items@) =~= arr_view(items0).update(
                                        i as int,
                                        c2v,
                                    ));
                                }
                                Ok(Doc::Arr(items))
                            },
                            Err(e) => Err(e),
                        }
                    } else {
                        Err(Error::PathError)
                    }
                },
                _ => Err(Error::PathError),
            }
        },
        None => {
            match d {
                Doc::Obj(mut entries) => {
                    let ghost entries0 = entries@;
                    proof {
                        assert(doc_view(d) == DocV::Obj(obj_view(entries0)));
                        lemma_obj_view(entries0);
                    }
                    match find_key(&entries, seg) {
                        Some(j) => {
                            proof {
                                assert forall|jj: int|
                                    0 <= jj < j implies (#[trigger] obj_view(entries0)[jj]).0
                                    != seg@ by {
                                    assert(obj_view(entries0)[jj].0 == entries0[jj].0@);
                                }
                                lemma_obj_get_at(obj_view(entries0), seg@, j as int, DocV::Null);
                            }
                            let entry = entries.remove(j);
                            let (key, child) = entry;
                            proof {
                                assert(doc_view(child) == obj_view(entries0)[j as int].1);
                            }
                            match set_at(child, path, k + 1, value) {
                                Ok(c2) => {
                                    let ghost c2v = doc_view(c2);
                                    entries.insert(j, (key, c2));
                                    proof {
                                        assert(entries@ =~= entries0.update(
                                            j as int,
                                            (entries0[j as int].0, c2),
                                        ));
                                        lemma_obj_view(entries@);
                                        lemma_obj_get_at(
                                            obj_view(entries0),
                                            seg@,
                                            j as int,
                                            c2v,
                                        );
                                        assert(obj_view(entries@) =~= obj_set(
                                            obj_view(entries0),
                                            seg@,
                                            c2v,
                                        ));
                                    }
                                    Ok(Doc::Obj(entries))
                                },
                                Err(e) => Err(e),
                            }
                        },
                        None => {
                            proof {
                                assert forall|jj: int|
                                    0 <= jj < obj_view(entries0).len() implies (
                                #[trigger] obj_view(entries0)[jj]).0 != seg@ by {
                                    assert(obj_view(entries0)[jj].0 == entries0[jj].0@);
                                }
                                lemma_obj_get_absent(obj_view(entries0), seg@);
                            }
                            Err(Error::PathError)
                        },
                    }
                },
                _ => Err(Error::PathError),
            }
        },
    }
}

/// The views of a list of path-to-value replacements.
pub open spec fn changes_view(cs: Seq<(String, String)>) -> Seq<(Seq<char>, Seq<char>)> {
    cs.map(|i: int, c: (String, String)| (c.0@, c.1@))
}

/// The document after every replacement in `cs` has been applied in order,
/// each path split on `delim`, or nothing as soon as one path fails to
/// resolve.
pub open spec fn apply_changes(d: DocV, cs: Seq<(Seq<char>, Seq<char>)>, delim: char) -> Option<
    DocV,
>
    decreases cs.len(),
{
    if cs.len() == 0 {
        Some(d)
    } else {
        match doc_set(d, split_on(cs[0].0, delim), DocV::Str(cs[0].1)) {
            Some(d2) => apply_changes(d2, cs.drop_first(), delim),
            None => None,
        }
    }
}

/// Applies a list of path-addressed replacements to one document tree:
/// all of them resolve and the rewritten tree comes back, or the first
/// unresolvable path fails the whole list.
pub fn apply_edits(d: Doc, changes: &Vec<(String, String)>, delim: char) -> (r: Result<
    Doc,
    Error,
>)
    ensures
        match r {
            Ok(d2) => apply_changes(doc_view(d), changes_view(changes@), delim) == Some(
                doc_view(d2),
            ),
            Err(e) => ({
                &&& e == Error::PathError
                &&& apply_changes(doc_view(d), changes_view(changes@), delim) is None
            }),
        },
{
    let ghost d0 = doc_view(d);
    let ghost cv = changes_view(changes@);
    let mut cur = d;
    let n = changes.len();
    let mut idx: usize = 0;
    proof {
        assert(cv.skip(0) =~= cv);
    }
    while idx < n
        invariant
            0 <= idx <= n,
            n == changes@.len(),
            d0 == doc_view(d),
            cv == changes_view(changes@),
            apply_changes(d0, cv, delim) == apply_changes(doc_view(cur), cv.skip(idx as int), delim),
        decreases n - idx,
    {
        let ghost curv = doc_view(cur);
        let segs = split_str(changes[idx].0.as_str(), delim);
        proof {
            assert(cv.skip(idx as int)[0] == cv[idx as int]);
            assert(cv[idx as int] == (changes@[idx as int].0@, changes@[idx as int].1@));
            assert(cv.skip(idx as int).drop_first() =~= cv.skip(idx + 1));
            assert(strs_view(segs@).skip(0) =~= strs_view(segs@));
        }
        match set_at(cur, &segs, 0, changes[idx].1.as_str()) {
            Ok(next) => {
                cur = next;
            },
            Err(e) => {
                proof {
                    assert(apply_changes(curv, cv.skip(idx as int), delim) is None);
                }
                return Err(e);
            },
        }
        idx = idx + 1;
    }
    proof {
        assert(cv.skip(idx as int) =~= Seq::<(Seq<char>, Seq<char>)>::empty());
    }
    Ok(cur)
}

/// An array index as a JSON pointer reads it: bare decimal digits with
/// no sign and no leading zero (other than `0` itself), fitting a
/// `usize`.
pub open spec fn ptr_index(t: Seq<char>) -> Option<int> {
    if t.len() > 0 && t[0] != '+' && (t[0] != '0' || t.len() == 1) {
        seg_index(t)
    } else {
        None
    }
}

/// Reads a pointer token as an array index.
pub fn parse_ptr_index(s: &str) -> (r: Option<usize>)
    ensures
        match r {
            Some(i) => ptr_index(s@) == Some(i as int),
            None => ptr_index(s@) is None,
        },
{
    let n = s.unicode_len();
    if n == 0 {
        return None;
    }
    let c0 = s.get_char(0);
    if c0 == '+' || (c0 == '0' && n > 1) {
        return None;
    }
    parse_seg_index(s)
}

/// The child one pointer token selects: the node's kind decides whether
/// the token is an object key or an array index.
pub open spec fn ptr_child(d: DocV, tok: Seq<char>) -> Option<DocV> {
    match d {
        DocV::Obj(entries) => obj_get(entries, tok),
        DocV::Arr(items) => match ptr_index(tok) {
            Some(i) => if 0 <= i < items.len() {
                Some(items[i])
            } else {
                None
            },
            None => None,
        },
        _ => None,
    }
}

/// The document with the node at the pointer replaced by `v`, or nothing
/// when a token does not resolve. An empty pointer replaces the whole
/// document.
pub open spec fn ptr_set(d: DocV, toks: Seq<Seq<char>>, v: DocV) -> Option<DocV>
    decreases toks.len(),
{
    if toks.len() == 0 {
        Some(v)
    } else {
        match d {
            DocV::Obj(entries) => match obj_get(entries, toks[0]) {
                Some(c) => match ptr_set(c, toks.drop_first(), v) {
                    Some(c2) => Some(DocV::Obj(obj_set(entries, toks[0], c2))),
                    None => None,
                },
                None => None,
            },
            DocV::Arr(items) => match ptr_index(toks[0]) {
                Some(i) => if 0 <= i < items.len() {
                    match ptr_set(items[i], toks.drop_first(), v) {
                        Some(c2) => Some(DocV::Arr(items.update(i, c2))),
                        None => None,
                    }
                } else {
                    None
                },
                None => None,
            },
            _ => None,
        }
    }
}

/// Replaces the node that tokens `k..` of a pointer address with `value`.
pub fn ptr_set_at(d: Doc, toks: &Vec<String>, k: usize, value: Doc) -> (r: Result<Doc, Error>)
    requires
        k <= toks@.len(),
    ensures
        match r {
            Ok(d2) => ptr_set(doc_view(d), strs_view(toks@).skip(k as int), doc_view(value))
                == Some(doc_view(d2)),
            Err(e) => ({
                &&& e == Error::PathError
                &&& ptr_set(doc_view(d), strs_view(toks@).skip(k as int), doc_view(value))
                    is None
            }),
        },
    decreases toks@.len() - k,
{
    let ghost rest = strs_view(toks@).skip(k as int);
    if k == toks.len() {
        proof {
            assert(rest =~= Seq::<Seq<char>>::empty());
        }
        return Ok(value);
    }
    let tok = &toks[k];
    proof {
        assert(rest[0] == tok@);
        assert(rest.drop_first() =~= strs_view(toks@).skip(k + 1));
    }
    match d {
        Doc::Obj(mut entries) => {
            let ghost entries0 = entries@;
            proof {
                assert(doc_view(d) == DocV::Obj(obj_view(entries0)));
                lemma_obj_view(entries0);
            }
            match find_key(&entries, tok) {
                Some(j) => {
                    proof {
                        assert forall|jj: int|
                            0 <= jj < j implies (#[trigger] obj_view(entries0)[jj]).0
                            != tok@ by {
                            assert(obj_view(entries0)[jj].0 == entries0[jj].0@);
                        }
                        lemma_obj_get_at(obj_view(entries0), tok@, j as int, DocV::Null);
                    }
                    let entry = entries.remove(j);
                    let (key, child) = entry;
                    proof {
                        assert(doc_view(child) == obj_view(entries0)[j as int].1);
                    }
                    match ptr_set_at(child, toks, k + 1, value) {
                        Ok(c2) => {
                            let ghost c2v = doc_view(c2);
                            entries.insert(j, (key, c2));
                            proof {
                                assert(entries@ =~= entries0.update(
                                    j as int,
                                    (entries0[j as int].0, c2),
                                ));
                                lemma_obj_view(entries@);
                                lemma_obj_get_at(obj_view(entries0), tok@, j as int, c2v);
                                assert(obj_view(entries@) =~= obj_set(
                                    obj_view(entries0),
                                    tok@,
                                    c2v,
                                ));
                            }
                            Ok(Doc::Obj(entries))
                        },
                        Err(e) => Err(e),
                    }
                },
                None => {
                    proof {
                        assert forall|jj: int|
                            0 <= jj < obj_view(entries0).len() implies (#[trigger] obj_view(
                            entries0,
                        )[jj]).0 != tok@ by {
                            assert(obj_view(entries0)[jj].0 == entries0[jj].0@);
                        }
                        lemma_obj_get_absent(obj_view(entries0), tok@);
                    }
                    Err(Error::PathError)
                },
            }
        },
        Doc::Arr(mut items) => {
            let ghost items0 = items@;
            proof {
                assert(doc_view(d) == DocV::Arr(arr_view(items0)));
                lemma_arr_view(items0);
            }
            match parse_ptr_index(tok.as_str()) {
                Some(i) => {
                    if i < items.len() {
                        let child = items.remove(i);
                        match ptr_set_at(child, toks, k + 1, value) {
                            Ok(c2) => {
                                let ghost c2v = doc_view(c2);
                                items.insert(i, c2);
                                proof {
                                    assert(items@ =~= items0.update(i as int, c2));
                                    lemma_arr_view(items@);
                                    lemma_arr_view(items0);
                                    assert(arr_view(items@) =~= arr_view(items0).update(
                                        i as int,
                                        c2v,
                                    ));
                                }
                                Ok(Doc::Arr(items))
                            },
                            Err(e) => Err(e),
                        }
                    } else {
                        Err(Error::PathError)
                    }
                },
                None => Err(Error::PathError),
            }
        },
        _ => Err(Error::PathError),
    }
}

/// Two segments address the same child wherever both resolve: equal
/// indices, or equal keys. Distinct spellings of one index (`1`, `01`,
/// `+1`) count as the same segment.
pub open spec fn seg_same(a: Seq<char>, b: Seq<char>) -> bool {
    match (seg_index(a), seg_index(b)) {
        (Some(i), Some(j)) => i == j,
        (None, None) => a == b,
        _ => false,
    }
}

/// The paths part ways at some depth both of them reach: neither addresses
/// a node inside the subtree the other addresses.
pub open spec fn paths_diverge(p: Seq<Seq<char>>, q: Seq<Seq<char>>) -> bool {
    exists|k: int| 0 <= k < p.len() && k < q.len() && !seg_same(p[k], q[k])
}

/// Replacement at `p` leaves every node outside `p`'s subtree as it was:
/// any path that diverges from `p` reads the same value before and after.
pub proof fn lemma_doc_set_frame(d: DocV, p: Seq<Seq<char>>, v: DocV, d2: DocV, q: Seq<Seq<char>>)
    requires
        doc_set(d, p, v) == Some(d2),
        paths_diverge(p, q),
    ensures
        doc_get(d2, q) == doc_get(d, q),
    decreases p.len(),
{
    let k = choose|k: int| 0 <= k < p.len() && k < q.len() && !seg_same(p[k], q[k]);
    if !seg_same(p[0], q[0]) {
        lemma_doc_child_frame(d, p, v, d2, q[0]);
        if doc_child(d, q[0]) is Some {
            assert(doc_get(d2, q) == doc_get(doc_child(d2, q[0])->Some_0, q.drop_first()));
        }
    } else {
        // the paths agree on their first segment, so both descend into the
        // child that was rewritten, and the divergence sits deeper
        assert(k >= 1);
        match seg_index(p[0]) {
            Some(i) => {
                let items = d->Arr_0;
                let c = items[i];
                let c2 = doc_set(c, p.drop_first(), v)->Some_0;
                assert(seg_index(q[0]) == Some(i));
                assert(doc_child(d, q[0]) == Some(c));
                assert(d2 == DocV::Arr(items.update(i, c2)));
                assert(doc_child(d2, q[0]) == Some(c2));
                assert(paths_diverge(p.drop_first(), q.drop_first())) by {
                    assert(p.drop_first()[k - 1] == p[k]);
                    assert(q.drop_first()[k - 1] == q[k]);
                }
                lemma_doc_set_frame(c, p.drop_first(), v, c2, q.drop_first());
            },
            None => {
                let entries = d->Obj_0;
                assert(q[0] == p[0]);
                let c = obj_get(entries, p[0])->Some_0;
                let c2 = doc_set(c, p.drop_first(), v)->Some_0;
                assert(d2 == DocV::Obj(obj_set(entries, p[0], c2)));
                lemma_obj_set_get(entries, p[0], c2);
                assert(doc_child(d2, q[0]) == Some(c2));
                assert(paths_diverge(p.drop_first(), q.drop_first())) by {
                    assert(p.drop_first()[k - 1] == p[k]);
                    assert(q.drop_first()[k - 1] == q[k]);
                }
                lemma_doc_set_frame(c, p.drop_first(), v, c2, q.drop_first());
            },
        }
    }
}

/// One replacement as the patchers apply it: on a document where the
/// path resolves, the patched tree reads the literal value back at that
/// path and reads every diverging path exactly as before; on a document
/// where it does not resolve, no patched tree exists at all.
pub proof fn lemma_patch_reads_back(
    d: DocV,
    path: Seq<char>,
    value: Seq<char>,
    delim: char,
    q: Seq<Seq<char>>,
)
    ensures
        doc_get(d, split_on(path, delim)) is Some <==> apply_changes(
            d,
            seq![(path, value)],
            delim,
        ) is Some,
        apply_changes(d, seq![(path, value)], delim) matches Some(d2) ==> ({
            &&& doc_get(d2, split_on(path, delim)) == Some(DocV::Str(value))
            &&& paths_diverge(split_on(path, delim), q) ==> doc_get(d2, q) == doc_get(d, q)
        }),
{
    reveal_with_fuel(apply_changes, 2);
    let p = split_on(path, delim);
    lemma_doc_set_resolves(d, p, DocV::Str(value));
    let cs = seq![(path, value)];
    assert(cs.drop_first() =~= Seq::<(Seq<char>, Seq<char>)>::empty());
    match doc_set(d, p, DocV::Str(value)) {
        Some(d2) => {
            lemma_doc_set_get(d, p, DocV::Str(value), d2);
            if paths_diverge(p, q) {
                lemma_doc_set_frame(d, p, DocV::Str(value), d2, q);
            }
        },
        None => {},
    }
}

/// One step of the frame argument: a replacement below one child leaves
/// every other child, and the failure of every unresolvable segment, alike.
proof fn lemma_doc_child_frame(d: DocV, p: Seq<Seq<char>>, v: DocV, d2: DocV, seg: Seq<char>)
    requires
        doc_set(d, p, v) == Some(d2),
        p.len() > 0,
        !seg_same(p[0], seg),
    ensures
        doc_child(d2, seg) == doc_child(d, seg),
{
    match seg_index(p[0]) {
        Some(i) => {
            let items = d->Arr_0;
            let c2 = doc_set(items[i], p.drop_first(), v)->Some_0;
            assert(d2 == DocV::Arr(items.update(i, c2)));
            match seg_index(seg) {
                Some(j) => {
                    assert(j != i);
                },
                None => {},
            }
        },
        None => {
            let entries = d->Obj_0;
            let c = obj_get(entries, p[0])->Some_0;
            let c2 = doc_set(c, p.drop_first(), v)->Some_0;
            assert(d2 == DocV::Obj(obj_set(entries, p[0], c2)));
            lemma_obj_set_get(entries, p[0], c2);
            match seg_index(seg) {
                Some(j) => {},
                None => {
                    assert(seg != p[0]);
                },
            }
        },
    }
}

} // verus!
