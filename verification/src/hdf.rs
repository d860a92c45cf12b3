//! Snapshot of a container file's group/dataset hierarchy: the raw listing a
//! backing file API reports, the immutable tree built from it, and the
//! builder that qualifies every name into a full path.

use vstd::prelude::*;
use crate::paths::join_path;
use crate::paths::join_path_exec;

verus! {

/// What the backing file API reports for one group: its own name and, in the
/// API's iteration order, the child groups and the dataset names directly
/// under it. The root group's name is empty.
pub struct RawGroup {
    pub name: String,
    pub subgroups: Vec<RawGroup>,
    pub datasets: Vec<String>,
}

/// One node of the immutable snapshot tree: the group's fully-qualified
/// slash-separated path, its recursively built subgroups in iteration order,
/// and the fully-qualified paths of the datasets directly under it. The
/// structure is fixed once built; dataset contents are read later, on demand.
pub struct GroupTree {
    pub path: String,
    pub groups: Vec<GroupTree>,
    pub datasets: Vec<String>,
}

/// One loaded file: its canonical filesystem path, the snapshot tree of its
/// hierarchy, and the visibility flag that keeps it in the registry. When
/// `is_opened` turns false the next sweep evicts it.
pub struct FileTree {
    pub path: String,
    pub tree: GroupTree,
    pub is_opened: bool,
}

/// The snapshot `t` mirrors the raw listing `raw` under the group path
/// `parent`: its path is the qualified name, its dataset paths are the
/// qualified dataset names in order, and its subgroups mirror the raw
/// subgroups in order.
pub open spec fn tree_matches(parent: Seq<char>, raw: RawGroup, t: GroupTree) -> bool
    decreases raw,
{
    let p = join_path(parent, raw.name@);
    &&& t.path@ == p
    &&& t.datasets@.len() == raw.datasets@.len()
    &&& (forall|i: int|
        0 <= i < raw.datasets@.len() ==> (#[trigger] t.datasets@[i])@ == join_path(
            p,
            raw.datasets@[i]@,
        ))
    &&& t.groups@.len() == raw.subgroups@.len()
    &&& (forall|i: int|
        0 <= i < raw.subgroups@.len() ==> tree_matches(
            p,
            #[trigger] raw.subgroups@[i],
            t.groups@[i],
        ))
}

/// Every qualified dataset path the raw listing reports under `parent`,
/// depth-first, a group's own datasets before its subgroups'.
pub open spec fn raw_dataset_paths(parent: Seq<char>, raw: RawGroup) -> Seq<Seq<char>>
    decreases raw, 0int,
{
    let p = join_path(parent, raw.name@);
    raw.datasets@.map_values(|name: String| join_path(p, name@)) + raw_paths_from(
        p,
        raw.subgroups@,
        0,
    )
}

pub open spec fn raw_paths_from(parent: Seq<char>, subs: Seq<RawGroup>, i: int) -> Seq<Seq<char>>
    decreases subs, subs.len() - i,
{
    if 0 <= i < subs.len() {
        raw_dataset_paths(parent, subs[i]) + raw_paths_from(parent, subs, i + 1)
    } else {
        Seq::empty()
    }
}

/// Every dataset path held anywhere in the snapshot tree, depth-first, a
/// group's own datasets before its subgroups'.
pub open spec fn all_dataset_paths(t: GroupTree) -> Seq<Seq<char>>
    decreases t, 0int,
{
    t.datasets@.map_values(|d: String| d@) + tree_paths_from(t.groups@, 0)
}

pub open spec fn tree_paths_from(ts: Seq<GroupTree>, i: int) -> Seq<Seq<char>>
    decreases ts, ts.len() - i,
{
    if 0 <= i < ts.len() {
        all_dataset_paths(ts[i]) + tree_paths_from(ts, i + 1)
    } else {
        Seq::empty()
    }
}

/// A snapshot that mirrors a raw listing holds exactly the qualified dataset
/// paths the listing reports, in the same order: none dropped, none
/// duplicated.
pub proof fn lemma_build_tree_complete(parent: Seq<char>, raw: RawGroup, t: GroupTree)
    requires
        tree_matches(parent, raw, t),
    ensures
        all_dataset_paths(t) == raw_dataset_paths(parent, raw),
    decreases raw, 0int,
{
    let p = join_path(parent, raw.name@);
    assert(t.datasets@.map_values(|d: String| d@) =~= raw.datasets@.map_values(
        |name: String| join_path(p, name@),
    ));
    lemma_paths_from(p, raw.subgroups@, t.groups@, 0);
}

proof fn lemma_paths_from(parent: Seq<char>, rs: Seq<RawGroup>, ts: Seq<GroupTree>, i: int)
    requires
        rs.len() == ts.len(),
        forall|k: int| 0 <= k < rs.len() ==> tree_matches(parent, #[trigger] rs[k], ts[k]),
    ensures
        tree_paths_from(ts, i) == raw_paths_from(parent, rs, i),
    decreases rs, rs.len() - i,
{
    if 0 <= i < rs.len() {
        lemma_build_tree_complete(parent, rs[i], ts[i]);
        lemma_paths_from(parent, rs, ts, i + 1);
    }
}

/// Recursively materializes the immutable snapshot of the group whose raw
/// listing is `raw` and whose parent group has the path `parent`: every name
/// is qualified into a full slash-separated path, structure only, no data.
pub fn build_tree(parent: &str, raw: &RawGroup) -> (t: GroupTree)
    ensures
        tree_matches(parent@, *raw, t),
    decreases *raw,
{
    let path = join_path_exec(parent, raw.name.as_str());
    let mut datasets: Vec<String> = Vec::new();
    let mut i: usize = 0;
    while i < raw.datasets.len()
        invariant
            i <= raw.datasets@.len(),
            datasets@.len() == i,
            path@ == join_path(parent@, raw.name@),
            forall|k: int|
                0 <= k < i ==> (#[trigger] datasets@[k])@ == join_path(
                    path@,
                    raw.datasets@[k]@,
                ),
        decreases raw.datasets@.len() - i,
    {
        datasets.push(join_path_exec(path.as_str(), raw.datasets[i].as_str()));
        i = i + 1;
    }
    let mut groups: Vec<GroupTree> = Vec::new();
    let mut j: usize = 0;
    while j < raw.subgroups.len()
        invariant
            j <= raw.subgroups@.len(),
            groups@.len() == j,
            path@ == join_path(parent@, raw.name@),
            forall|k: int|
                0 <= k < j ==> tree_matches(path@, #[trigger] raw.subgroups@[k], groups@[k]),
        decreases raw.subgroups@.len() - j,
    {
        let sub = build_tree(path.as_str(), &raw.subgroups[j]);
        groups.push(sub);
        j = j + 1;
    }
    GroupTree { path, groups, datasets }
}

/// Wraps a freshly enumerated root listing as a loaded file: the snapshot is
/// built under the empty parent path (so the root's path is the single
/// slash), and the file starts out visible. A file whose root listing could
/// not be enumerated yields nothing: no partial snapshot is kept.
pub fn make_file_tree(path: String, root: Option<RawGroup>) -> (r: Option<FileTree>)
    ensures
        r is Some <==> root is Some,
        r matches Some(ft) ==> {
            &&& ft.path == path
            &&& ft.is_opened
            &&& root matches Some(rg) && tree_matches(Seq::<char>::empty(), rg, ft.tree)
        },
{
    match root {
        None => None,
        Some(rg) => {
            let tree = build_tree("", &rg);
            proof {
                reveal_strlit("");
                assert(""@ =~= Seq::<char>::empty());
            }
            Some(FileTree { path, tree, is_opened: true })
        },
    }
}

} // verus!
