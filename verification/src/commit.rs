//! The commit-request model: the file list a mutation run accumulates and
//! the request a provider turns into its own write protocol, with the
//! author-splitting rule all providers share.

use vstd::prelude::*;

use crate::text::{author_email, author_name, find_char_at, trim_matching, TrimKind};

verus! {

/// The views of a list of path/content pairs.
pub open spec fn pairs_view(s: Seq<(String, Vec<u8>)>) -> Seq<(Seq<char>, Seq<u8>)> {
    s.map(|i: int, e: (String, Vec<u8>)| (e.0@, e.1@))
}

/// `s` with the first entry under `k` holding `v` instead, or with
/// `(k, v)` appended when `k` is new: the last write to a path wins.
pub open spec fn lww_insert(
    s: Seq<(Seq<char>, Seq<u8>)>,
    k: Seq<char>,
    v: Seq<u8>,
) -> Seq<(Seq<char>, Seq<u8>)>
    decreases s.len(),
{
    if s.len() == 0 {
        seq![(k, v)]
    } else if s[0].0 == k {
        seq![(s[0].0, v)] + s.drop_first()
    } else {
        seq![s[0]] + lww_insert(s.drop_first(), k, v)
    }
}

/// The content under path `k`, read at the first entry carrying it.
pub open spec fn lww_lookup(s: Seq<(Seq<char>, Seq<u8>)>, k: Seq<char>) -> Option<Seq<u8>>
    decreases s.len(),
{
    if s.len() == 0 {
        None
    } else if s[0].0 == k {
        Some(s[0].1)
    } else {
        lww_lookup(s.drop_first(), k)
    }
}

/// No path occurs twice.
pub open spec fn keys_unique(s: Seq<(Seq<char>, Seq<u8>)>) -> bool {
    forall|i: int, j: int| 0 <= i < j < s.len() ==> s[i].0 != s[j].0
}

/// An insert changes one entry in place or appends one new entry.
pub proof fn lemma_lww_insert_shape(s: Seq<(Seq<char>, Seq<u8>)>, k: Seq<char>, v: Seq<u8>)
    ensures
        lww_lookup(s, k) is Some ==> ({
            &&& lww_insert(s, k, v).len() == s.len()
            &&& forall|i: int|
                0 <= i < s.len() ==> (#[trigger] lww_insert(s, k, v)[i]).0 == s[i].0
        }),
        lww_lookup(s, k) is None ==> lww_insert(s, k, v) == s.push((k, v)),
    decreases s.len(),
{
    if s.len() == 0 {
        assert(lww_insert(s, k, v) =~= s.push((k, v)));
    } else if s[0].0 == k {
        assert(forall|i: int|
            1 <= i < s.len() ==> (seq![(s[0].0, v)] + s.drop_first())[i] == s[i]);
    } else {
        lemma_lww_insert_shape(s.drop_first(), k, v);
        if lww_lookup(s.drop_first(), k) is None {
            assert(lww_insert(s, k, v) =~= s.push((k, v)));
        }
    }
}

/// Inserting keeps paths unique.
pub proof fn lemma_lww_insert_unique(s: Seq<(Seq<char>, Seq<u8>)>, k: Seq<char>, v: Seq<u8>)
    requires
        keys_unique(s),
    ensures
        keys_unique(lww_insert(s, k, v)),
{
    lemma_lww_insert_shape(s, k, v);
    lemma_lww_lookup_absent_keys(s, k);
    if lww_lookup(s, k) is None {
        assert forall|i: int, j: int|
            0 <= i < j < lww_insert(s, k, v).len() implies lww_insert(s, k, v)[i].0
            != lww_insert(s, k, v)[j].0 by {
            if j < s.len() {
            } else {
                assert(lww_insert(s, k, v)[j] == (k, v));
                assert(lww_insert(s, k, v)[i] == s[i]);
            }
        }
    }
}

/// An absent path differs from every stored one.
pub proof fn lemma_lww_lookup_absent_keys(s: Seq<(Seq<char>, Seq<u8>)>, k: Seq<char>)
    ensures
        lww_lookup(s, k) is None ==> forall|i: int|
            0 <= i < s.len() ==> (#[trigger] s[i]).0 != k,
    decreases s.len(),
{
    if s.len() > 0 {
        lemma_lww_lookup_absent_keys(s.drop_first(), k);
        assert(forall|i: int| 1 <= i < s.len() ==> s[i] == s.drop_first()[i - 1]);
    }
}

/// Carries an executable first-match scan back to `lww_lookup` and
/// `lww_insert`.
pub proof fn lemma_lww_at(s: Seq<(Seq<char>, Seq<u8>)>, k: Seq<char>, j: int, v: Seq<u8>)
    requires
        0 <= j < s.len(),
        s[j].0 == k,
        forall|i: int| 0 <= i < j ==> (#[trigger] s[i]).0 != k,
    ensures
        lww_lookup(s, k) == Some(s[j].1),
        lww_insert(s, k, v) =~= s.update(j, (s[j].0, v)),
    decreases j,
{
    if j > 0 {
        assert(forall|i: int| 0 <= i < s.len() - 1 ==> s.drop_first()[i] == s[i + 1]);
        lemma_lww_at(s.drop_first(), k, j - 1, v);
        assert(s.drop_first().update(j - 1, (s[j].0, v)) =~= s.update(
            j,
            (s[j].0, v),
        ).drop_first());
    }
}

pub proof fn lemma_lww_absent(s: Seq<(Seq<char>, Seq<u8>)>, k: Seq<char>)
    requires
        forall|i: int| 0 <= i < s.len() ==> (#[trigger] s[i]).0 != k,
    ensures
        lww_lookup(s, k) is None,
    decreases s.len(),
{
    if s.len() > 0 {
        lemma_lww_absent(s.drop_first(), k);
    }
}

/// The file contents one commit carries: repository-relative paths, each
/// unique, each mapped to raw bytes. Entries keep the order of first
/// insertion; writing a path again replaces its content in place.
pub struct FileList {
    entries: Vec<(String, Vec<u8>)>,
}

impl FileList {
    /// The ordered path/content pairs this list holds.
    pub closed spec fn entries_view(&self) -> Seq<(Seq<char>, Seq<u8>)> {
        pairs_view(self.entries@)
    }

    /// Paths are unique: the invariant every operation keeps.
    pub open spec fn wf(&self) -> bool {
        keys_unique(self.entries_view())
    }

    pub fn new() -> (r: FileList)
        ensures
            r.entries_view() == Seq::<(Seq<char>, Seq<u8>)>::empty(),
            r.wf(),
    {
        let r = FileList { entries: Vec::new() };
        proof {
            assert(r.entries_view() =~= Seq::<(Seq<char>, Seq<u8>)>::empty());
        }
        r
    }

    pub fn len(&self) -> (r: usize)
        ensures
            r == self.entries_view().len(),
    {
        self.entries.len()
    }

    /// Stores `content` under `path`, overwriting any earlier entry for
    /// the same path.
    pub fn insert(&mut self, path: String, content: Vec<u8>)
        ensures
            final(self).entries_view() == lww_insert(old(self).entries_view(), path@, content@),
            old(self).wf() ==> final(self).wf(),
    {
        let ghost s0 = self.entries_view();
        let n = self.entries.len();
        let mut j: usize = 0;
        while j < n
            invariant
                0 <= j <= n,
                n == self.entries@.len(),
                self.entries_view() == s0,
                s0 == old(self).entries_view(),
                forall|i: int| 0 <= i < j ==> (#[trigger] s0[i]).0 != path@,
            decreases n - j,
        {
            let e = &self.entries[j];
            if e.0 == path {
                proof {
                    assert(s0[j as int].0 == path@);
                    lemma_lww_at(s0, path@, j as int, content@);
                }
                let ghost pre = self.entries@;
                let (key, _prev) = self.entries.remove(j);
                self.entries.insert(j, (key, content));
                proof {
                    assert(self.entries@ =~= pre.update(
                        j as int,
                        (pre[j as int].0, content),
                    ));
                    assert(self.entries_view() =~= s0.update(
                        j as int,
                        (s0[j as int].0, content@),
                    ));
                    assert(self.entries_view() =~= lww_insert(s0, path@, content@));
                    if old(self).wf() {
                        lemma_lww_insert_unique(s0, path@, content@);
                    }
                }
                return ;
            }
            proof {
                assert(s0[j as int].0 == self.entries@[j as int].0@);
            }
            j = j + 1;
        }
        proof {
            lemma_lww_absent(s0, path@);
            lemma_lww_insert_shape(s0, path@, content@);
        }
        self.entries.push((path, content));
        proof {
            assert(self.entries_view() =~= s0.push((path@, content@)));
            if old(self).wf() {
                lemma_lww_insert_unique(s0, path@, content@);
            }
        }
    }

    /// The content stored under `path`, when the list holds it.
    pub fn get(&self, path: &str) -> (r: Option<&Vec<u8>>)
        ensures
            match r {
                Some(c) => lww_lookup(self.entries_view(), path@) == Some(c@),
                None => lww_lookup(self.entries_view(), path@) is None,
            },
    {
        let ghost s0 = self.entries_view();
        let n = self.entries.len();
        let mut j: usize = 0;
        while j < n
            invariant
                0 <= j <= n,
                n == self.entries@.len(),
                self.entries_view() == s0,
                forall|i: int| 0 <= i < j ==> (#[trigger] s0[i]).0 != path@,
            decreases n - j,
        {
            let e = &self.entries[j];
            if crate::text::str_eq(e.0.as_str(), path) {
                proof {
                    assert(s0[j as int].0 == path@);
                    lemma_lww_at(s0, path@, j as int, Seq::<u8>::empty());
                }
                return Some(&self.entries[j].1);
            }
            proof {
                assert(s0[j as int].0 == self.entries@[j as int].0@);
            }
            j = j + 1;
        }
        proof {
            lemma_lww_absent(s0, path@);
        }
        None
    }

    /// The entries in insertion order, for a provider to walk.
    pub fn entries(&self) -> (r: &Vec<(String, Vec<u8>)>)
        ensures
            pairs_view(r@) == self.entries_view(),
    {
        &self.entries
    }
}

/// One logical commit: the branch to write to, a free-form author (either
/// `Name <email>` or a bare name), the commit message, and the files to
/// write. Constructed once per invocation and consumed by one provider.
pub struct CommitRequest {
    pub branch: String,
    pub author: String,
    pub message: String,
    pub files: FileList,
}

impl Default for CommitRequest {
    fn default() -> (r: CommitRequest)
        ensures
            r.branch@ == Seq::<char>::empty(),
            r.author@ == Seq::<char>::empty(),
            r.message@ == Seq::<char>::empty(),
            r.files.entries_view() == Seq::<(Seq<char>, Seq<u8>)>::empty(),
            r.files.wf(),
    {
        CommitRequest {
            branch: String::new(),
            author: String::new(),
            message: String::new(),
            files: FileList::new(),
        }
    }
}

impl CommitRequest {
    /// Splits the author field into its name and email parts: everything
    /// before the first `<` (trimmed) names the author, everything after
    /// it (stripped of whitespace and angle brackets) is the address, and
    /// an author without a `<` is a bare name with no address.
    pub fn split_author(&self) -> (r: (String, String))
        ensures
            r.0@ == author_name(self.author@),
            r.1@ == author_email(self.author@),
    {
        match find_char_at(self.author.as_str(), '<') {
            None => (self.author.clone(), String::new()),
            Some(i) => {
                proof {
                    crate::text::lemma_find_char(self.author@, '<');
                }
                let n = self.author.as_str().unicode_len();
                let name_part = self.author.as_str().substring_char(0, i);
                let email_part = self.author.as_str().substring_char(i + 1, n);
                let name = trim_matching(name_part, TrimKind::Space);
                let email = trim_matching(email_part, TrimKind::Mail);
                (name, email)
            },
        }
    }
}

} // verus!
