//! The mutation engine: an ordered list of directives, each naming a
//! file, a document kind and a set of path edits, turned into one
//! accumulated file list by fetching, patching and collecting.

use vstd::prelude::*;

use crate::commit::{lww_insert, FileList};
use crate::doc::changes_view;
use crate::error::Error;
use crate::repository::Repository;

pub mod json;
pub mod yaml;

verus! {

/// One requested structured edit to one file: the document kind selects
/// the patcher, `changes` maps delimited path strings to literal
/// replacement strings.
pub enum Mutation {
    Json { file: String, changes: Vec<(String, String)> },
    Yaml { file: String, changes: Vec<(String, String)> },
}

/// The file a directive touches.
pub open spec fn mutation_file(m: Mutation) -> Seq<char> {
    match m {
        Mutation::Json { file, .. } => file@,
        Mutation::Yaml { file, .. } => file@,
    }
}

/// What a directive makes of its file's current content.
pub open spec fn mutation_patch(m: Mutation, content: Seq<u8>) -> Result<Seq<u8>, Error> {
    match m {
        Mutation::Json { file, changes } => json::json_update_spec(
            content,
            changes_view(changes@),
        ),
        Mutation::Yaml { file, changes } => yaml::yaml_update_spec(
            content,
            changes_view(changes@),
        ),
    }
}

/// The change set a directive list produces against a repository state:
/// each directive reads its file at `branch`, patches it, and writes the
/// result over any earlier entry for the same path; the first missing
/// file or failed patch sinks the whole run.
pub open spec fn mutate_steps(
    stored: Map<(Seq<char>, Seq<char>), Seq<u8>>,
    branch: Seq<char>,
    muts: Seq<Mutation>,
    acc: Seq<(Seq<char>, Seq<u8>)>,
) -> Option<Seq<(Seq<char>, Seq<u8>)>>
    decreases muts.len(),
{
    if muts.len() == 0 {
        Some(acc)
    } else {
        let file = mutation_file(muts[0]);
        if !stored.contains_key((branch, file)) {
            None
        } else {
            match mutation_patch(muts[0], stored[(branch, file)]) {
                Err(_) => None,
                Ok(bytes) => mutate_steps(
                    stored,
                    branch,
                    muts.drop_first(),
                    lww_insert(acc, file, bytes),
                ),
            }
        }
    }
}

/// The full run, starting from an empty change set.
pub open spec fn mutate_spec(
    stored: Map<(Seq<char>, Seq<char>), Seq<u8>>,
    branch: Seq<char>,
    muts: Seq<Mutation>,
) -> Option<Seq<(Seq<char>, Seq<u8>)>> {
    mutate_steps(stored, branch, muts, Seq::empty())
}

/// A mutation run is a function of the repository state and the directive
/// list alone: two runs over the same state that both complete produce
/// the same change set.
pub proof fn lemma_mutate_deterministic(
    stored: Map<(Seq<char>, Seq<char>), Seq<u8>>,
    branch: Seq<char>,
    muts: Seq<Mutation>,
    fl1: Seq<(Seq<char>, Seq<u8>)>,
    fl2: Seq<(Seq<char>, Seq<u8>)>,
)
    requires
        mutate_spec(stored, branch, muts) == Some(fl1),
        mutate_spec(stored, branch, muts) == Some(fl2),
    ensures
        fl1 == fl2,
{
}

/// Runs the directives in caller order against `repository`, fetching
/// each named file at `branch`, patching it with the matching document
/// patcher, and accumulating the results path by path, the last write to
/// a path winning. The first failure aborts the run: no partial change
/// set comes back.
pub fn mutate<R: Repository>(repository: &R, branch: &str, mutations: &[Mutation]) -> (r: Result<
    FileList,
    Error,
>)
    ensures
        (r matches Ok(fl) ==> ({
            &&& fl.wf()
            &&& mutate_spec(repository.stored(), branch@, mutations@) == Some(fl.entries_view())
        })),
        mutations@.len() == 0 ==> r is Ok,
        (r matches Err(e) ==> (e is NotFound || e is RepositoryError || e is PathError
            || e is DocumentError)),
        (r matches Err(e) ==> ((e is NotFound || e is PathError || e is DocumentError)
            ==> mutate_spec(repository.stored(), branch@, mutations@) is None)),
{
    let ghost stored = repository.stored();
    let ghost muts = mutations@;
    let mut changed = FileList::new();
    let n = mutations.len();
    let mut i: usize = 0;
    proof {
        assert(muts.skip(0) =~= muts);
    }
    while i < n
        invariant
            0 <= i <= n,
            n == muts.len(),
            muts == mutations@,
            stored == repository.stored(),
            changed.wf(),
            mutate_steps(stored, branch@, muts, Seq::empty()) == mutate_steps(
                stored,
                branch@,
                muts.skip(i as int),
                changed.entries_view(),
            ),
        decreases n - i,
    {
        proof {
            assert(muts.skip(i as int)[0] == muts[i as int]);
            assert(muts.skip(i as int).drop_first() =~= muts.skip(i + 1));
        }
        let mutation = &mutations[i];
        match mutation {
            Mutation::Json { file, changes } => {
                let content = match repository.get(file.as_str(), branch) {
                    Ok(c) => c,
                    Err(e) => {
                        return Err(e);
                    },
                };
                let patched = match json::update_file(content.as_slice(), changes) {
                    Ok(p) => p,
                    Err(e) => {
                        return Err(e);
                    },
                };
                changed.insert(file.clone(), patched);
            },
            Mutation::Yaml { file, changes } => {
                let content = match repository.get(file.as_str(), branch) {
                    Ok(c) => c,
                    Err(e) => {
                        return Err(e);
                    },
                };
                let patched = match yaml::update_file(content.as_slice(), changes) {
                    Ok(p) => p,
                    Err(e) => {
                        return Err(e);
                    },
                };
                changed.insert(file.clone(), patched);
            },
        }
        i = i + 1;
    }
    proof {
        assert(muts.skip(i as int) =~= Seq::<Mutation>::empty());
    }
    Ok(changed)
}

} // verus!
