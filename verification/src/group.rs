//! Grouping of paths by the fingerprint of their content.

use crate::fingerprint::{prefix_of, Fingerprint};
use std::collections::HashMap;
use vstd::prelude::*;

verus! {

/// A path and the fingerprint of the content found there.
pub type Entry = (Seq<char>, Seq<u8>);

/// A fingerprint and the paths that share it.
pub type Group = (Seq<u8>, Seq<Seq<char>>);

/// The test for an entry to carry the fingerprint `fp`.
pub open spec fn has_fingerprint(fp: Seq<u8>) -> spec_fn(Entry) -> bool {
    |e: Entry| e.1 == fp
}

/// The projection of an entry on its path.
pub open spec fn path_of() -> spec_fn(Entry) -> Seq<char> {
    |e: Entry| e.0
}

/// The paths among `entries` whose fingerprint is `fp`, in the order of `entries`.
pub open spec fn members(entries: Seq<Entry>, fp: Seq<u8>) -> Seq<Seq<char>> {
    entries.filter(has_fingerprint(fp)).map_values(path_of())
}

/// The fingerprints that occur in `entries`, each once, in the order in
/// which they first occur.
pub open spec fn fingerprints_seen(entries: Seq<Entry>) -> Seq<Seq<u8>>
    decreases entries.len(),
{
    if entries.len() == 0 {
        Seq::empty()
    } else {
        let before = fingerprints_seen(entries.drop_last());
        if before.contains(entries.last().1) {
            before
        } else {
            before.push(entries.last().1)
        }
    }
}

/// The test for a fingerprint to be shared by two entries or more.
pub open spec fn is_duplicated(entries: Seq<Entry>) -> spec_fn(Seq<u8>) -> bool {
    |fp: Seq<u8>| members(entries, fp).len() >= 2
}

/// The group that `entries` form under a fingerprint.
pub open spec fn group_of(entries: Seq<Entry>) -> spec_fn(Seq<u8>) -> Group {
    |fp: Seq<u8>| (fp, members(entries, fp))
}

/// The duplicate groups of `entries`: one for each fingerprint that two
/// entries or more share, in the order in which the fingerprints first occur.
pub open spec fn grouping(entries: Seq<Entry>) -> Seq<Group> {
    fingerprints_seen(entries).filter(is_duplicated(entries)).map_values(group_of(entries))
}

/// The duplicate groups of `entries` as a mapping from fingerprint to paths.
pub open spec fn duplicates(entries: Seq<Entry>) -> Map<Seq<u8>, Seq<Seq<char>>> {
    Map::new(
        |fp: Seq<u8>| members(entries, fp).len() >= 2,
        |fp: Seq<u8>| members(entries, fp),
    )
}

/// One group for every fingerprint seen, duplicated or not.
pub open spec fn tallied(entries: Seq<Entry>) -> Seq<Group> {
    fingerprints_seen(entries).map_values(group_of(entries))
}

/// Adding an entry adds its path to the members of its fingerprint and
/// leaves the members of every other fingerprint.
pub proof fn lemma_members_push(entries: Seq<Entry>, e: Entry, fp: Seq<u8>)
    ensures
        members(entries.push(e), fp) == if e.1 == fp {
            members(entries, fp).push(e.0)
        } else {
            members(entries, fp)
        },
{
    entries.lemma_filter_push(e, has_fingerprint(fp));
    if e.1 == fp {
        entries.filter(has_fingerprint(fp)).lemma_push_map_commute(path_of(), e);
    }
}

/// A fingerprint is seen exactly when it has a member, and none is seen twice.
pub proof fn lemma_fingerprints_seen(entries: Seq<Entry>)
    ensures
        fingerprints_seen(entries).no_duplicates(),
        forall|fp: Seq<u8>| #[trigger]
            fingerprints_seen(entries).contains(fp) <==> members(entries, fp).len() > 0,
    decreases entries.len(),
{
    if entries.len() > 0 {
        let rest = entries.drop_last();
        let last = entries.last();
        lemma_fingerprints_seen(rest);
        assert(entries =~= rest.push(last));
        let before = fingerprints_seen(rest);
        assert forall|fp: Seq<u8>| #[trigger]
            fingerprints_seen(entries).contains(fp) <==> members(entries, fp).len() > 0 by {
            lemma_members_push(rest, last, fp);
            if !before.contains(last.1) {
                let after = before.push(last.1);
                assert(after[before.len() as int] == last.1);
                if before.contains(fp) {
                    let i = choose|i: int| 0 <= i < before.len() && before[i] == fp;
                    assert(after[i] == fp);
                }
            }
        }
    }
}

/// The paths of a list of strings.
pub open spec fn paths_model(paths: Seq<String>) -> Seq<Seq<char>> {
    Seq::new(paths.len(), |i: int| paths[i]@)
}

/// The entries of a list of paths with their fingerprints.
pub open spec fn entries_model(files: Seq<(String, Fingerprint)>) -> Seq<Entry> {
    Seq::new(files.len(), |i: int| (files[i].0@, files[i].1@))
}

/// Two paths or more whose content has one fingerprint.
#[derive(Debug)]
pub struct DuplicateGroup {
    fingerprint: Fingerprint,
    paths: Vec<String>,
}

impl View for DuplicateGroup {
    type V = Group;

    closed spec fn view(&self) -> Group {
        (self.fingerprint@, paths_model(self.paths@))
    }
}

impl DuplicateGroup {
    /// The fingerprint that the paths share.
    pub fn fingerprint(&self) -> (fp: Fingerprint)
        ensures
            fp@ == self@.0,
    {
        self.fingerprint
    }

    /// The paths, in the order in which they were met.
    pub fn paths(&self) -> (paths: &Vec<String>)
        ensures
            paths_model(paths@) == self@.1,
    {
        &self.paths
    }
}

/// The groups of a list of groups.
pub open spec fn groups_model(groups: Seq<DuplicateGroup>) -> Seq<Group> {
    Seq::new(groups.len(), |i: int| groups[i]@)
}

/// The place of the group with fingerprint `fp`, if there is one.
fn find_group(groups: &Vec<DuplicateGroup>, fp: &Fingerprint) -> (found: Option<usize>)
    ensures
        match found {
            Some(j) => j < groups.len() && groups[j as int]@.0 == fp@,
            None => forall|k: int| 0 <= k < groups.len() ==> groups[k]@.0 != fp@,
        },
{
    let mut j: usize = 0;
    while j < groups.len()
        invariant
            j <= groups.len(),
            forall|k: int| 0 <= k < j ==> groups[k]@.0 != fp@,
        decreases groups.len() - j,
    {
        if groups[j].fingerprint == *fp {
            return Some(j);
        }
        j += 1;
    }
    None
}

/// What an index of the groups by the prefix of their fingerprints is good
/// for: the prefix of every group is a key, and every key leads to a group.
spec fn indexes(index: Map<u64, usize>, groups: Seq<DuplicateGroup>) -> bool {
    &&& forall|k: int|
        0 <= k < groups.len() ==> #[trigger] index.contains_key(prefix_of(groups[k]@.0) as u64)
    &&& forall|p: u64| #[trigger] index.contains_key(p) ==> index[p] < groups.len()
}

/// The place of the group with fingerprint `fp`, if there is one, looked up
/// through the index. Only where another fingerprint has the same prefix are
/// the groups searched one by one.
fn find_indexed(
    groups: &Vec<DuplicateGroup>,
    index: &HashMap<u64, usize>,
    fp: &Fingerprint,
) -> (found: Option<usize>)
    requires
        indexes(index@, groups@),
    ensures
        match found {
            Some(j) => j < groups.len() && groups[j as int]@.0 == fp@,
            None => forall|k: int| 0 <= k < groups.len() ==> groups[k]@.0 != fp@,
        },
{
    broadcast use vstd::std_specs::hash::group_hash_axioms;

    let prefix = fp.prefix();
    match index.get(&prefix) {
        Some(j) => {
            if groups[*j].fingerprint == *fp {
                Some(*j)
            } else {
                find_group(groups, fp)
            }
        },
        None => {
            assert forall|k: int| 0 <= k < groups.len() implies groups[k]@.0 != fp@ by {
                assert(index@.contains_key(prefix_of(groups[k]@.0) as u64));
            }
            None
        },
    }
}

/// Sorts the paths by fingerprint: one group for every fingerprint, in the
/// order in which the fingerprints first occur.
fn tally(files: &Vec<(String, Fingerprint)>) -> (groups: Vec<DuplicateGroup>)
    ensures
        groups_model(groups@) == tallied(entries_model(files@)),
{
    broadcast use vstd::std_specs::hash::group_hash_axioms;

    let ghost entries = entries_model(files@);
    let mut groups: Vec<DuplicateGroup> = Vec::new();
    let mut index: HashMap<u64, usize> = HashMap::new();
    let mut i: usize = 0;
    while i < files.len()
        invariant
            i <= files.len(),
            entries == entries_model(files@),
            groups_model(groups@) == tallied(entries.take(i as int)),
            indexes(index@, groups@),
        decreases files.len() - i,
    {
        let path = files[i].0.clone();
        let fp = files[i].1;
        let ghost before = entries.take(i as int);
        let ghost e: Entry = (path@, fp@);
        let ghost seen = fingerprints_seen(before);
        let ghost old_groups = groups@;
        proof {
            assert(entries.take(i + 1) =~= before.push(e));
            assert(before.push(e).drop_last() =~= before);
            lemma_fingerprints_seen(before);
            assert forall|g: Seq<u8>| #[trigger]
                members(before.push(e), g) == if e.1 == g {
                    members(before, g).push(e.0)
                } else {
                    members(before, g)
                } by {
                lemma_members_push(before, e, g);
            }
            assert(groups_model(old_groups).len() == seen.len());
            assert forall|k: int| 0 <= k < seen.len() implies old_groups[k]@ == (
                seen[k],
                members(before, seen[k]),
            ) by {
                assert(groups_model(old_groups)[k] == tallied(before)[k]);
            }
        }
        match find_indexed(&groups, &index, &fp) {
            Some(j) => {
                groups[j].paths.push(path);
                proof {
                    assert(paths_model(groups@[j as int].paths@) =~= paths_model(
                        old_groups[j as int].paths@,
                    ).push(path@));
                }
            },
            None => {
                let mut paths: Vec<String> = Vec::new();
                paths.push(path);
                index.insert(fp.prefix(), groups.len());
                groups.push(DuplicateGroup { fingerprint: fp, paths });
                proof {
                    assert(!seen.contains(fp@)) by {
                        if seen.contains(fp@) {
                            let k = choose|k: int| 0 <= k < seen.len() && seen[k] == fp@;
                        }
                    }
                    assert(paths_model(groups@[seen.len() as int].paths@) =~= members(
                        before,
                        fp@,
                    ).push(path@));
                }
            },
        }
        i += 1;
    }
    assert(entries.take(i as int) =~= entries);
    groups
}

/// The test for a group to have two paths or more.
pub open spec fn is_plural() -> spec_fn(Group) -> bool {
    |g: Group| g.1.len() >= 2
}

/// Drops the groups of one path, and keeps the others in their order.
fn keep_duplicates(groups: Vec<DuplicateGroup>) -> (kept: Vec<DuplicateGroup>)
    ensures
        groups_model(kept@) == groups_model(groups@).filter(is_plural()),
{
    let ghost all = groups_model(groups@);
    let mut kept: Vec<DuplicateGroup> = Vec::new();
    for g in it: groups
        invariant
            all == groups_model(groups@),
            groups_model(kept@) == all.take(it.index() as int).filter(is_plural()),
    {
        proof {
            let n = it.index() as int;
            assert(all.take(n + 1) =~= all.take(n).push(g@));
            all.take(n).lemma_filter_push(g@, is_plural());
        }
        if g.paths.len() >= 2 {
            kept.push(g);
        }
    }
    assert(all.take(all.len() as int) =~= all);
    kept
}

/// What holds of every list of duplicate groups: no fingerprint has two
/// groups, and no group has fewer than two paths.
pub open spec fn well_formed(groups: Seq<Group>) -> bool {
    &&& forall|i: int, j: int|
        0 <= i < j < groups.len() ==> (#[trigger] groups[i]).0 != (#[trigger] groups[j]).0
    &&& forall|i: int| 0 <= i < groups.len() ==> (#[trigger] groups[i]).1.len() >= 2
}

/// The mapping from fingerprint to paths that a list of groups stands for.
pub open spec fn as_map(groups: Seq<Group>) -> Map<Seq<u8>, Seq<Seq<char>>> {
    Map::new(
        |fp: Seq<u8>| exists|i: int| 0 <= i < groups.len() && (#[trigger] groups[i]).0 == fp,
        |fp: Seq<u8>|
            groups[choose|i: int| 0 <= i < groups.len() && (#[trigger] groups[i]).0 == fp].1,
    )
}

/// Filtering keeps a sequence free of repetitions.
proof fn lemma_filter_no_duplicates<A>(s: Seq<A>, pred: spec_fn(A) -> bool)
    requires
        s.no_duplicates(),
    ensures
        s.filter(pred).no_duplicates(),
    decreases s.len(),
{
    if s.len() > 0 {
        let rest = s.drop_last();
        let last = s.last();
        assert(s =~= rest.push(last));
        lemma_filter_no_duplicates(rest, pred);
        rest.lemma_filter_push(last, pred);
        if rest.filter(pred).contains(last) {
            rest.lemma_filter_contains_rev(pred, last);
            let i = choose|i: int| 0 <= i < rest.len() && rest[i] == last;
            assert(s[i] == s[s.len() - 1]);
        }
    }
}

/// Filtering a mapped sequence is mapping the sequence filtered by the
/// composed test.
proof fn lemma_filter_of_map<A, B>(
    s: Seq<A>,
    f: spec_fn(A) -> B,
    pred: spec_fn(B) -> bool,
    composed: spec_fn(A) -> bool,
)
    requires
        forall|x: A| #[trigger] composed(x) == pred(f(x)),
    ensures
        s.map_values(f).filter(pred) == s.filter(composed).map_values(f),
    decreases s.len(),
{
    if s.len() > 0 {
        let rest = s.drop_last();
        let last = s.last();
        assert(s =~= rest.push(last));
        lemma_filter_of_map(rest, f, pred, composed);
        rest.lemma_push_map_commute(f, last);
        rest.map_values(f).lemma_filter_push(f(last), pred);
        rest.lemma_filter_push(last, composed);
        if composed(last) {
            rest.filter(composed).lemma_push_map_commute(f, last);
        }
    }
}

/// The duplicate groups are the tallied groups of two paths or more; they
/// are well formed, and as a mapping they are `duplicates`.
pub proof fn lemma_grouping(entries: Seq<Entry>)
    ensures
        grouping(entries) == tallied(entries).filter(is_plural()),
        well_formed(grouping(entries)),
        as_map(grouping(entries)) == duplicates(entries),
{
    let seen = fingerprints_seen(entries);
    let kept = seen.filter(is_duplicated(entries));
    let groups = grouping(entries);
    lemma_filter_of_map(seen, group_of(entries), is_plural(), is_duplicated(entries));
    lemma_fingerprints_seen(entries);
    lemma_filter_no_duplicates(seen, is_duplicated(entries));
    assert forall|i: int| 0 <= i < groups.len() implies (#[trigger] groups[i]).1.len() >= 2 by {
        seen.lemma_filter_pred(is_duplicated(entries), i);
    }
    assert forall|fp: Seq<u8>| #[trigger]
        as_map(groups).dom().contains(fp) == duplicates(entries).dom().contains(fp) by {
        if members(entries, fp).len() >= 2 {
            assert(seen.contains(fp));
            let k = choose|k: int| 0 <= k < seen.len() && seen[k] == fp;
            seen.lemma_filter_contains(is_duplicated(entries), k);
            let i = choose|i: int| 0 <= i < kept.len() && kept[i] == fp;
            assert(groups[i].0 == fp);
        }
        if as_map(groups).dom().contains(fp) {
            let i = choose|i: int| 0 <= i < groups.len() && (#[trigger] groups[i]).0 == fp;
            seen.lemma_filter_pred(is_duplicated(entries), i);
        }
    }
}

/// A path is a member under a fingerprint exactly when the pair is an entry.
pub proof fn lemma_members_contains(entries: Seq<Entry>, fp: Seq<u8>, path: Seq<char>)
    ensures
        members(entries, fp).contains(path) <==> entries.contains((path, fp)),
    decreases entries.len(),
{
    if entries.len() > 0 {
        let rest = entries.drop_last();
        let last = entries.last();
        assert(entries =~= rest.push(last));
        lemma_members_contains(rest, fp, path);
        lemma_members_push(rest, last, fp);
        let before = members(rest, fp);
        let after = members(entries, fp);
        if after.contains(path) {
            let i = choose|i: int| 0 <= i < after.len() && after[i] == path;
            if i < before.len() {
                assert(before[i] == path);
                let k = choose|k: int| 0 <= k < rest.len() && rest[k] == (path, fp);
                assert(entries[k] == (path, fp));
            } else {
                assert(entries[entries.len() - 1] == (path, fp));
            }
        }
        if entries.contains((path, fp)) {
            let k = choose|k: int| 0 <= k < entries.len() && entries[k] == (path, fp);
            if k < rest.len() {
                let i = choose|i: int| 0 <= i < before.len() && before[i] == path;
                assert(after[i] == path);
            } else {
                assert(after[before.len() as int] == path);
            }
        }
    }
}

/// A path occurs among the members under a fingerprint as often as the pair
/// occurs among the entries.
pub proof fn lemma_members_count(entries: Seq<Entry>, fp: Seq<u8>, path: Seq<char>)
    ensures
        members(entries, fp).to_multiset().count(path) == entries.to_multiset().count((path, fp)),
    decreases entries.len(),
{
    broadcast use vstd::multiset::group_multiset_axioms;

    if entries.len() == 0 {
        vstd::seq_lib::to_multiset_contains(members(entries, fp), path);
        vstd::seq_lib::to_multiset_contains(entries, (path, fp));
    } else {
        let rest = entries.drop_last();
        let last = entries.last();
        assert(entries =~= rest.push(last));
        lemma_members_count(rest, fp, path);
        lemma_members_push(rest, last, fp);
        vstd::seq_lib::to_multiset_build(rest, last);
        if last.1 == fp {
            vstd::seq_lib::to_multiset_build(members(rest, fp), last.0);
        }
    }
}

/// Where no path is listed under two fingerprints, no path lies in two
/// groups.
pub proof fn lemma_groups_are_disjoint(entries: Seq<Entry>)
    requires
        forall|i: int, j: int|
            0 <= i < entries.len() && 0 <= j < entries.len() && (#[trigger] entries[i]).0 == (
            #[trigger] entries[j]).0 ==> entries[i].1 == entries[j].1,
    ensures
        forall|a: int, b: int, path: Seq<char>|
            0 <= a < grouping(entries).len() && 0 <= b < grouping(entries).len()
                && #[trigger] grouping(entries)[a].1.contains(path)
                && #[trigger] grouping(entries)[b].1.contains(path) ==> a == b,
{
    let groups = grouping(entries);
    lemma_grouping(entries);
    lemma_group_members(entries);
    assert forall|a: int, b: int, path: Seq<char>|
        0 <= a < groups.len() && 0 <= b < groups.len() && #[trigger] groups[a].1.contains(path)
            && #[trigger] groups[b].1.contains(path) implies a == b by {
        let i = choose|i: int| 0 <= i < entries.len() && entries[i] == (path, groups[a].0);
        let j = choose|j: int| 0 <= j < entries.len() && entries[j] == (path, groups[b].0);
        assert(entries[i].0 == entries[j].0);
        assert(groups[a].0 == groups[b].0);
    }
}

/// Every group has two paths or more, holds the members of its fingerprint,
/// and every path in it was listed under that fingerprint.
pub proof fn lemma_group_members(entries: Seq<Entry>)
    ensures
        forall|a: int|
            0 <= a < grouping(entries).len() ==> {
                &&& (#[trigger] grouping(entries)[a]).1.len() >= 2
                &&& grouping(entries)[a].1 == members(entries, grouping(entries)[a].0)
            },
        forall|a: int, path: Seq<char>|
            0 <= a < grouping(entries).len() && #[trigger] grouping(entries)[a].1.contains(path)
                ==> entries.contains((path, grouping(entries)[a].0)),
{
    let groups = grouping(entries);
    lemma_grouping(entries);
    assert forall|a: int, path: Seq<char>|
        0 <= a < groups.len() && #[trigger] groups[a].1.contains(path) implies entries.contains(
        (path, groups[a].0),
    ) by {
        lemma_members_contains(entries, groups[a].0, path);
    }
}

/// The order of the entries does not matter to which paths are grouped: two
/// listings of the same pairs have duplicates under the same fingerprints,
/// and under each the same paths, each as often.
pub proof fn lemma_order_independent(first: Seq<Entry>, second: Seq<Entry>)
    requires
        first.to_multiset() == second.to_multiset(),
    ensures
        duplicates(first).dom() == duplicates(second).dom(),
        forall|fp: Seq<u8>| #[trigger]
            members(first, fp).to_multiset() == members(second, fp).to_multiset(),
        forall|fp: Seq<u8>| #[trigger] members(first, fp).to_set() == members(second, fp).to_set(),
{
    broadcast use vstd::multiset::group_multiset_axioms;

    assert forall|fp: Seq<u8>| #[trigger]
        members(first, fp).to_multiset() == members(second, fp).to_multiset() by {
        assert forall|path: Seq<char>|
            members(first, fp).to_multiset().count(path) == members(second, fp).to_multiset().count(
                path,
            ) by {
            lemma_members_count(first, fp, path);
            lemma_members_count(second, fp, path);
        }
    }
    assert forall|fp: Seq<u8>| #[trigger]
        members(first, fp).to_set() == members(second, fp).to_set() by {
        assert forall|path: Seq<char>|
            members(first, fp).contains(path) == members(second, fp).contains(path) by {
            vstd::seq_lib::to_multiset_contains(members(first, fp), path);
            vstd::seq_lib::to_multiset_contains(members(second, fp), path);
        }
    }
    assert forall|fp: Seq<u8>|
        duplicates(first).dom().contains(fp) == duplicates(second).dom().contains(fp) by {
        vstd::seq_lib::to_multiset_len(members(first, fp));
        vstd::seq_lib::to_multiset_len(members(second, fp));
    }
}

/// The outcome of grouping: the duplicate groups, in the order in which
/// their fingerprints were first met.
#[derive(Debug)]
pub struct ScanResult {
    groups: Vec<DuplicateGroup>,
}

impl View for ScanResult {
    type V = Map<Seq<u8>, Seq<Seq<char>>>;

    open spec fn view(&self) -> Map<Seq<u8>, Seq<Seq<char>>> {
        as_map(self.groups())
    }
}

impl ScanResult {
    /// The groups in their order.
    pub closed spec fn groups(&self) -> Seq<Group> {
        groups_model(self.groups@)
    }

    #[verifier::type_invariant]
    spec fn inv(&self) -> bool {
        well_formed(self.groups())
    }

    /// The number of groups.
    pub fn len(&self) -> (n: usize)
        ensures
            n == self.groups().len(),
    {
        self.groups.len()
    }

    /// Whether no duplicates were found.
    pub fn is_empty(&self) -> (empty: bool)
        ensures
            empty == (self.groups().len() == 0),
    {
        self.groups.len() == 0
    }

    /// The group at place `i`, if there are that many.
    pub fn get(&self, i: usize) -> (found: Option<&DuplicateGroup>)
        ensures
            found is Some == (i < self.groups().len()),
            found matches Some(group) ==> group@ == self.groups()[i as int] && group@.1.len() >= 2,
    {
        proof {
            use_type_invariant(self);
        }
        if i < self.groups.len() {
            Some(&self.groups[i])
        } else {
            None
        }
    }

    /// The group of the fingerprint `fp`, if it has one.
    pub fn find(&self, fp: &Fingerprint) -> (found: Option<&DuplicateGroup>)
        ensures
            found is Some == self@.contains_key(fp@),
            found matches Some(group) ==> group@ == (fp@, self@[fp@]) && group@.1.len() >= 2,
    {
        proof {
            use_type_invariant(self);
        }
        match find_group(&self.groups, fp) {
            Some(j) => {
                assert(self.groups()[j as int].0 == fp@);
                Some(&self.groups[j])
            },
            None => {
                assert(forall|k: int|
                    0 <= k < self.groups@.len() ==> #[trigger] self.groups()[k]
                        == self.groups@[k]@);
                None
            },
        }
    }
}

/// Groups paths by fingerprint and keeps the groups of two paths or more.
///
/// Each group lists its paths in the order of `files`, and the groups stand
/// in the order in which their fingerprints first occur in `files`.
pub fn get_sha_256_hashmap(files: &Vec<(String, Fingerprint)>) -> (result: ScanResult)
    ensures
        result.groups() == grouping(entries_model(files@)),
        result@ == duplicates(entries_model(files@)),
        well_formed(result.groups()),
{
    let all = tally(files);
    let kept = keep_duplicates(all);
    proof {
        lemma_grouping(entries_model(files@));
    }
    ScanResult { groups: kept }
}

} // verus!
