//! Which of the entries met on a walk through a directory tree are files to
//! fingerprint.

use crate::group::paths_model;
use vstd::prelude::*;

verus! {

/// What a walk found at a path.
#[derive(Clone, Copy, Debug, PartialEq, Eq, Structural)]
pub enum EntryKind {
    /// Anything that is not a directory.
    File,
    /// A directory: descended into, never listed.
    Directory,
    /// An entry that could not be inspected.
    Inaccessible,
}

/// One entry met on a walk.
#[derive(Debug)]
pub struct WalkEntry {
    pub path: String,
    pub kind: EntryKind,
}

/// The verdicts that `accept` may have given on the files among `entries`:
/// one for each entry, and for each file one that `accept` can return on its
/// path.
pub open spec fn verdicts_of<F: Fn(&String) -> bool>(
    entries: Seq<WalkEntry>,
    accept: F,
    verdicts: Seq<bool>,
) -> bool {
    &&& verdicts.len() == entries.len()
    &&& forall|i: int|
        0 <= i < entries.len() && entries[i].kind == EntryKind::File ==> call_ensures(
            accept,
            (&entries[i].path,),
            #[trigger] verdicts[i],
        )
}

/// Whether the entry at place `i` is listed: it is a file, and accepted.
pub open spec fn is_listed(entries: Seq<WalkEntry>, verdicts: Seq<bool>, i: int) -> bool {
    entries[i].kind == EntryKind::File && verdicts[i]
}

/// The paths of the files among `entries` that were accepted, in the order
/// of `entries`.
pub open spec fn listed(entries: Seq<WalkEntry>, verdicts: Seq<bool>) -> Seq<Seq<char>>
    decreases entries.len(),
{
    if entries.len() == 0 {
        Seq::empty()
    } else {
        let before = listed(entries.drop_last(), verdicts.drop_last());
        if is_listed(entries, verdicts, entries.len() - 1) {
            before.push(entries.last().path@)
        } else {
            before
        }
    }
}

/// Lists the files to fingerprint among the entries of a walk.
///
/// Directories and entries that could not be inspected are passed over
/// without a call of `accept`; every other entry is listed if `accept` returns true on
/// its path.
pub fn enumerate<F: Fn(&String) -> bool>(entries: &Vec<WalkEntry>, accept: F) -> (files: Vec<
    String,
>)
    requires
        forall|i: int|
            0 <= i < entries.len() && entries[i].kind == EntryKind::File ==> call_requires(
                accept,
                (&#[trigger] entries[i].path,),
            ),
    ensures
        exists|verdicts: Seq<bool>|
            verdicts_of(entries@, accept, verdicts) && paths_model(files@) == listed(
                entries@,
                verdicts,
            ),
{
    let mut files: Vec<String> = Vec::new();
    let ghost mut verdicts: Seq<bool> = Seq::empty();
    let mut i: usize = 0;
    while i < entries.len()
        invariant
            i <= entries.len(),
            forall|k: int|
                0 <= k < entries.len() && entries[k].kind == EntryKind::File ==> call_requires(
                    accept,
                    (&#[trigger] entries[k].path,),
                ),
            verdicts_of(entries@.take(i as int), accept, verdicts),
            paths_model(files@) == listed(entries@.take(i as int), verdicts),
        decreases entries.len() - i,
    {
        let entry = &entries[i];
        let verdict = match entry.kind {
            EntryKind::File => accept(&entry.path),
            _ => false,
        };
        if verdict {
            files.push(entry.path.clone());
        }
        proof {
            let next = entries@.take(i + 1);
            assert(next.drop_last() =~= entries@.take(i as int));
            assert(verdicts.push(verdict).drop_last() =~= verdicts);
            verdicts = verdicts.push(verdict);
        }
        i += 1;
    }
    assert(entries@.take(i as int) =~= entries@);
    files
}

/// The test for an entry to be a file whose path `accepts` holds of.
pub open spec fn is_accepted_file(accepts: spec_fn(Seq<char>) -> bool) -> spec_fn(
    WalkEntry,
) -> bool {
    |e: WalkEntry| e.kind == EntryKind::File && accepts(e.path@)
}

/// The projection of an entry on its path.
pub open spec fn walk_path() -> spec_fn(WalkEntry) -> Seq<char> {
    |e: WalkEntry| e.path@
}

/// The paths of the files among `entries` of which `accepts` holds, in the
/// order of `entries`.
pub open spec fn files_accepted(
    entries: Seq<WalkEntry>,
    accepts: spec_fn(Seq<char>) -> bool,
) -> Seq<Seq<char>> {
    entries.filter(is_accepted_file(accepts)).map_values(walk_path())
}

/// Where the verdicts on the files are those of a predicate on paths, what
/// is listed is the files that the predicate holds of: no directory, no
/// entry that could not be inspected, and no file that it rejects.
pub proof fn lemma_listed_files(
    entries: Seq<WalkEntry>,
    verdicts: Seq<bool>,
    accepts: spec_fn(Seq<char>) -> bool,
)
    requires
        verdicts.len() == entries.len(),
        forall|i: int|
            0 <= i < entries.len() && entries[i].kind == EntryKind::File ==> #[trigger] verdicts[i]
                == accepts(entries[i].path@),
    ensures
        listed(entries, verdicts) == files_accepted(entries, accepts),
    decreases entries.len(),
{
    if entries.len() > 0 {
        let rest = entries.drop_last();
        let last = entries.last();
        assert(entries =~= rest.push(last));
        lemma_listed_files(rest, verdicts.drop_last(), accepts);
        rest.lemma_filter_push(last, is_accepted_file(accepts));
        if is_accepted_file(accepts)(last) {
            rest.filter(is_accepted_file(accepts)).lemma_push_map_commute(walk_path(), last);
        }
    }
}

/// Whether `path` is one of the paths in `ignored`.
pub fn is_ignored(ignored: &Vec<String>, path: &String) -> (found: bool)
    ensures
        found == paths_model(ignored@).contains(path@),
{
    let mut i: usize = 0;
    while i < ignored.len()
        invariant
            i <= ignored.len(),
            forall|k: int| 0 <= k < i ==> ignored[k]@ != path@,
        decreases ignored.len() - i,
    {
        if ignored[i] == *path {
            assert(paths_model(ignored@)[i as int] == path@);
            return true;
        }
        i += 1;
    }
    assert(forall|k: int|
        0 <= k < ignored.len() ==> #[trigger] paths_model(ignored@)[k] == ignored[k]@);
    false
}

} // verus!
