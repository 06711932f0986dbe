//! The repository abstraction every provider implements: read one file at
//! a reference, write one commit's files to a branch. An in-memory
//! implementation backs the mutation engine's tests.

use vstd::prelude::*;

use crate::commit::CommitRequest;
use crate::error::Error;
use crate::text::str_eq;

verus! {

/// The store after one commit: every file of the request written under
/// its branch, later entries over earlier ones.
pub open spec fn commit_spec(
    stored: Map<(Seq<char>, Seq<char>), Seq<u8>>,
    branch: Seq<char>,
    files: Seq<(Seq<char>, Seq<u8>)>,
) -> Map<(Seq<char>, Seq<char>), Seq<u8>>
    decreases files.len(),
{
    if files.len() == 0 {
        stored
    } else {
        commit_spec(stored, branch, files.drop_last()).insert(
            (branch, files.last().0),
            files.last().1,
        )
    }
}

/// Read a file at a reference, commit a set of file changes: the
/// capability surface the mutation engine and the call sites consume.
/// `stored` models the content the repository holds per (reference, path);
/// a remote implementation may also fail with `RepositoryError` where the
/// transport does.
pub trait Repository {
    /// The model of what the repository holds. An implementation outside
    /// the verifier inherits the default, an empty model, and nothing is
    /// proved about it.
    open spec fn stored(&self) -> Map<(Seq<char>, Seq<char>), Seq<u8>> {
        Map::empty()
    }

    /// The current content of `path` at `reference`.
    fn get(&self, path: &str, reference: &str) -> (r: Result<Vec<u8>, Error>)
        ensures
            (r matches Ok(c) ==> self.stored().contains_key((reference@, path@)) && c@
                == self.stored()[(reference@, path@)]),
            (r matches Err(e) ==> (e is NotFound ==> !self.stored().contains_key(
                (reference@, path@),
            ))),
            (r matches Err(e) ==> (e is NotFound || e is RepositoryError)),
    ;

    /// Writes every file of `payload` to its branch as one logical
    /// commit. A failure may leave part of the set written where the
    /// provider has no atomic multi-file commit.
    fn commit(&mut self, payload: CommitRequest) -> (r: Result<(), Error>)
        ensures
            r matches Ok(_) ==> final(self).stored() == commit_spec(
                old(self).stored(),
                payload.branch@,
                payload.files.entries_view(),
            ),
    ;
}

/// The map that an entry list denotes, the last write to a key deciding.
pub open spec fn entries_map(s: Seq<((Seq<char>, Seq<char>), Seq<u8>)>) -> Map<
    (Seq<char>, Seq<char>),
    Seq<u8>,
>
    decreases s.len(),
{
    if s.len() == 0 {
        Map::empty()
    } else {
        entries_map(s.drop_last()).insert(s.last().0, s.last().1)
    }
}

pub proof fn lemma_entries_map_found(
    s: Seq<((Seq<char>, Seq<char>), Seq<u8>)>,
    k: (Seq<char>, Seq<char>),
    j: int,
)
    requires
        0 <= j < s.len(),
        s[j].0 == k,
        forall|i: int| j < i < s.len() ==> (#[trigger] s[i]).0 != k,
    ensures
        entries_map(s).contains_key(k),
        entries_map(s)[k] == s[j].1,
    decreases s.len(),
{
    if j == s.len() - 1 {
    } else {
        assert(forall|i: int| 0 <= i < s.len() - 1 ==> s.drop_last()[i] == s[i]);
        lemma_entries_map_found(s.drop_last(), k, j);
    }
}

pub proof fn lemma_entries_map_absent(
    s: Seq<((Seq<char>, Seq<char>), Seq<u8>)>,
    k: (Seq<char>, Seq<char>),
)
    requires
        forall|i: int| 0 <= i < s.len() ==> (#[trigger] s[i]).0 != k,
    ensures
        !entries_map(s).contains_key(k),
    decreases s.len(),
{
    if s.len() > 0 {
        assert(forall|i: int| 0 <= i < s.len() - 1 ==> s.drop_last()[i] == s[i]);
        lemma_entries_map_absent(s.drop_last(), k);
    }
}

/// Copies a byte buffer.
pub fn clone_bytes(v: &Vec<u8>) -> (r: Vec<u8>)
    ensures
        r@ == v@,
{
    let r = v.clone();
    proof {
        assert(r@ =~= v@);
    }
    r
}

/// A repository held wholly in memory: content keyed by reference and
/// path. It backs tests and offline runs of the mutation engine.
pub struct InMemoryRepository {
    entries: Vec<((String, String), Vec<u8>)>,
}

impl InMemoryRepository {
    pub closed spec fn entries_view(&self) -> Seq<((Seq<char>, Seq<char>), Seq<u8>)> {
        self.entries@.map(|i: int, e: ((String, String), Vec<u8>)| (((e.0.0)@, (e.0.1)@), e.1@))
    }

    pub fn new() -> (r: InMemoryRepository)
        ensures
            r.stored() == Map::<(Seq<char>, Seq<char>), Seq<u8>>::empty(),
    {
        let r = InMemoryRepository { entries: Vec::new() };
        proof {
            assert(r.entries_view() =~= Seq::<((Seq<char>, Seq<char>), Seq<u8>)>::empty());
        }
        r
    }

    /// Seeds one file, as if it had been committed to `reference` before.
    pub fn insert_file(&mut self, reference: String, path: String, content: Vec<u8>)
        ensures
            final(self).stored() == old(self).stored().insert((reference@, path@), content@),
    {
        let ghost s0 = self.entries_view();
        self.entries.push(((reference, path), content));
        proof {
            assert(self.entries_view() =~= s0.push(((reference@, path@), content@)));
            assert(self.entries_view().drop_last() =~= s0);
        }
    }
}

impl Default for InMemoryRepository {
    fn default() -> (r: InMemoryRepository)
        ensures
            r.stored() == Map::<(Seq<char>, Seq<char>), Seq<u8>>::empty(),
    {
        InMemoryRepository::new()
    }
}

impl Repository for InMemoryRepository {
    closed spec fn stored(&self) -> Map<(Seq<char>, Seq<char>), Seq<u8>> {
        entries_map(self.entries_view())
    }

    /// Reads the latest content written under (reference, path); a file
    /// never written is `NotFound`.
    fn get(&self, path: &str, reference: &str) -> (r: Result<Vec<u8>, Error>)
        ensures
            (r matches Ok(c) ==> self.stored().contains_key((reference@, path@)) && c@
                == self.stored()[(reference@, path@)]),
            (r matches Err(e) ==> e == Error::NotFound && !self.stored().contains_key(
                (reference@, path@),
            )),
    {
        let ghost s0 = self.entries_view();
        let n = self.entries.len();
        let mut j: usize = n;
        while j > 0
            invariant
                0 <= j <= n,
                n == self.entries@.len(),
                self.entries_view() == s0,
                forall|i: int| j <= i < n ==> (#[trigger] s0[i]).0 != (reference@, path@),
            decreases j,
        {
            j = j - 1;
            let e = &self.entries[j];
            if str_eq(e.0.0.as_str(), reference) && str_eq(e.0.1.as_str(), path) {
                proof {
                    assert(s0[j as int].0 == (reference@, path@));
                    lemma_entries_map_found(s0, (reference@, path@), j as int);
                }
                return Ok(clone_bytes(&self.entries[j].1));
            }
            proof {
                assert(s0[j as int].0 == ((self.entries@[j as int].0.0)@, (self.entries@[
                    j as int].0.1)@));
            }
        }
        proof {
            lemma_entries_map_absent(s0, (reference@, path@));
        }
        Err(Error::NotFound)
    }

    /// Writes every file of the request under its branch; in memory this
    /// write is atomic and never fails.
    fn commit(&mut self, payload: CommitRequest) -> (r: Result<(), Error>)
        ensures
            r is Ok,
            final(self).stored() == commit_spec(
                old(self).stored(),
                payload.branch@,
                payload.files.entries_view(),
            ),
    {
        let ghost fv = payload.files.entries_view();
        let files = payload.files.entries();
        let n = files.len();
        let mut i: usize = 0;
        proof {
            assert(fv.take(0) =~= Seq::<(Seq<char>, Seq<u8>)>::empty());
        }
        while i < n
            invariant
                0 <= i <= n,
                n == files@.len(),
                fv == crate::commit::pairs_view(files@),
                self.stored() == commit_spec(old(self).stored(), payload.branch@, fv.take(i as int)),
            decreases n - i,
        {
            let ghost s0 = self.entries_view();
            let entry = &files[i];
            let name = entry.0.clone();
            let content = clone_bytes(&entry.1);
            let branch = payload.branch.clone();
            self.entries.push(((branch, name), content));
            proof {
                assert(self.entries_view() =~= s0.push(
                    ((payload.branch@, fv[i as int].0), fv[i as int].1),
                ));
                assert(self.entries_view().drop_last() =~= s0);
                assert(fv.take(i + 1).drop_last() =~= fv.take(i as int));
                assert(fv.take(i + 1).last() == fv[i as int]);
            }
            i = i + 1;
        }
        proof {
            assert(fv.take(i as int) =~= fv);
        }
        Ok(())
    }
}

} // verus!
