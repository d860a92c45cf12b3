//! Top-level viewer state: the registry of loaded files, deduplicated by
//! canonical path, the registry of open detail windows, and the per-frame
//! decisions of the tree renderer.

use vstd::prelude::*;
use crate::hdf::FileTree;
use crate::hdf::GroupTree;
use crate::hdf::RawGroup;
use crate::hdf::make_file_tree;
use crate::hdf::tree_matches;
use crate::paths::last_segment;
use crate::paths::last_segment_exec;
use crate::windows::WindowRegistry;

verus! {

/// Why a file failed to load (or needed no load). `AlreadyLoaded` is the
/// idempotent no-op, not a failure; the others abandon the load with no
/// partial snapshot registered.
#[derive(Debug)]
pub enum LoadError {
    /// The path could not be canonicalized (for instance, it does not exist).
    PathInvalid,
    /// A file with the same canonical path is already in the registry.
    AlreadyLoaded,
    /// The backing file API rejected the open.
    CannotOpen,
    /// Group or dataset enumeration failed mid-traversal.
    EnumerationFailed,
}

/// Some entry's canonical path is `c`.
pub open spec fn spec_is_loaded(files: Seq<FileTree>, c: Seq<char>) -> bool {
    exists|i: int| 0 <= i < files.len() && (#[trigger] files[i]).path@ == c
}

/// How many entries carry the canonical path `c`.
pub open spec fn count_with_path(files: Seq<FileTree>, c: Seq<char>) -> nat
    decreases files.len(),
{
    if files.len() == 0 {
        0
    } else {
        count_with_path(files.drop_last(), c) + if files.last().path@ == c {
            1nat
        } else {
            0nat
        }
    }
}

/// The effect of one successful add of canonical path `c`: one new visible
/// entry at the end, everything else untouched.
pub open spec fn added_transition(pre: Seq<FileTree>, post: Seq<FileTree>, c: Seq<char>) -> bool {
    &&& post.len() == pre.len() + 1
    &&& (forall|i: int| 0 <= i < pre.len() ==> post[i] == pre[i])
    &&& post.last().path@ == c
    &&& post.last().is_opened
}

proof fn lemma_count_zero(files: Seq<FileTree>, c: Seq<char>)
    ensures
        (count_with_path(files, c) == 0) <==> !spec_is_loaded(files, c),
    decreases files.len(),
{
    if files.len() > 0 {
        lemma_count_zero(files.drop_last(), c);
        if spec_is_loaded(files, c) {
            let i = choose|i: int|
                0 <= i < files.len() && (#[trigger] files[i]).path@ == c;
            if i < files.len() - 1 {
                assert(files.drop_last()[i].path@ == c);
            }
        }
        if spec_is_loaded(files.drop_last(), c) {
            let i = choose|i: int|
                0 <= i < files.drop_last().len() && (#[trigger] files.drop_last()[i]).path@
                    == c;
            assert(files[i].path@ == c);
        }
    }
}

/// Adding a file is idempotent by canonical path: a successful add of a path
/// not yet loaded makes it loaded, with exactly one entry carrying it — and
/// the add contract turns any further add of that path into `AlreadyLoaded`
/// with the registry unchanged, so the count stays one.
pub proof fn lemma_add_file_idempotent(pre: Seq<FileTree>, post: Seq<FileTree>, c: Seq<char>)
    requires
        !spec_is_loaded(pre, c),
        added_transition(pre, post, c),
    ensures
        spec_is_loaded(post, c),
        count_with_path(post, c) == 1,
{
    assert(post[post.len() - 1].path@ == c);
    assert(post.drop_last() =~= pre);
    lemma_count_zero(pre, c);
}

/// A dataset directly under the group has the basename `name` (the final
/// segment of its path).
pub open spec fn spec_has_basename(datasets: Seq<String>, name: Seq<char>) -> bool {
    exists|i: int| 0 <= i < datasets.len() && last_segment((#[trigger] datasets[i])@) == name
}

/// The group's direct dataset basenames carry both `data` and
/// `timestamps`, so the tree renderer offers its one Plot action.
pub open spec fn spec_plot_action(g: GroupTree) -> bool {
    spec_has_basename(g.datasets@, "data"@) && spec_has_basename(g.datasets@, "timestamps"@)
}

/// Scans a group's direct dataset paths for one whose basename is `name`.
/// Basenames are compared as a set: duplicates at different depths cannot
/// make the test count anything twice.
pub fn contains_basename(datasets: &Vec<String>, name: &str) -> (r: bool)
    ensures
        r == spec_has_basename(datasets@, name@),
{
    let target = name.to_owned();
    let mut i: usize = 0;
    while i < datasets.len()
        invariant
            target@ == name@,
            i <= datasets@.len(),
            forall|j: int| 0 <= j < i ==> last_segment((#[trigger] datasets@[j])@) != name@,
        decreases datasets@.len() - i,
    {
        let base = last_segment_exec(datasets[i].as_str());
        if base == target {
            return true;
        }
        i = i + 1;
    }
    false
}

/// Whether rendering this group emits its Plot action: exactly when the
/// direct dataset basenames carry both `data` and `timestamps`. The
/// renderer asks once per group render, so the action appears at most once.
pub fn has_plot_action(g: &GroupTree) -> (r: bool)
    ensures
        r == spec_plot_action(*g),
{
    contains_basename(&g.datasets, "data") && contains_basename(&g.datasets, "timestamps")
}

/// One file dropped or hovered onto the window: its path if the host
/// delivered one, and otherwise its MIME type (possibly empty).
pub struct DroppedFile {
    pub path: Option<String>,
    pub mime: String,
}

/// The preview line for one hovered file: its path, else its MIME type,
/// else three question marks, on a fresh line.
pub open spec fn spec_preview_line(f: DroppedFile) -> Seq<char> {
    match f.path {
        Some(p) => seq!['\n'] + p@,
        None => if f.mime@.len() > 0 {
            seq!['\n'] + f.mime@
        } else {
            seq!['\n', '?', '?', '?']
        },
    }
}

/// The full drag-and-drop preview text: a heading, then one line per file.
pub open spec fn spec_preview_text(files: Seq<DroppedFile>) -> Seq<char>
    decreases files.len(),
{
    if files.len() == 0 {
        "Dropping files:\n"@
    } else {
        spec_preview_text(files.drop_last()) + spec_preview_line(files.last())
    }
}

/// Builds the text painted over the window while files hover above it.
pub fn drop_preview_text(files: &Vec<DroppedFile>) -> (r: String)
    ensures
        r@ == spec_preview_text(files@),
{
    let mut text = String::from_str("Dropping files:\n");
    let mut i: usize = 0;
    while i < files.len()
        invariant
            i <= files@.len(),
            text@ == spec_preview_text(files@.subrange(0, i as int)),
        decreases files@.len() - i,
    {
        match &files[i].path {
            Some(p) => {
                text.append("\n");
                text.append(p.as_str());
                proof {
                    reveal_strlit("\n");
                    assert("\n"@ =~= seq!['\n']);
                }
            },
            None => {
                if !files[i].mime.as_str().is_empty() {
                    text.append("\n");
                    text.append(files[i].mime.as_str());
                    proof {
                        reveal_strlit("\n");
                        assert("\n"@ =~= seq!['\n']);
                    }
                } else {
                    text.append("\n???");
                    proof {
                        reveal_strlit("\n???");
                        assert("\n???"@ =~= seq!['\n', '?', '?', '?']);
                    }
                }
            },
        }
        proof {
            let sub = files@.subrange(0, i + 1);
            assert(sub.drop_last() =~= files@.subrange(0, i as int));
            assert(sub.last() == files@[i as int]);
        }
        i = i + 1;
    }
    proof {
        assert(files@.subrange(0, files@.len() as int) =~= files@);
    }
    text
}

/// Exactly the entries still marked open, in their original order.
pub open spec fn open_files(files: Seq<FileTree>) -> Seq<FileTree> {
    files.filter(|f: FileTree| f.is_opened)
}

/// The whole viewer: every loaded file snapshot in load order, and the
/// detail views currently open.
pub struct NWBView {
    pub loaded_files: Vec<FileTree>,
    pub open_windows: WindowRegistry,
}

impl Default for NWBView {
    /// A fresh viewer has no files loaded and no windows open.
    fn default() -> (r: Self)
        ensures
            r.wf(),
            r.loaded_files@.len() == 0,
            r.open_windows.entries@.len() == 0,
    {
        NWBView { loaded_files: Vec::new(), open_windows: WindowRegistry::new() }
    }
}

impl NWBView {
    /// No two loaded files share a canonical path, and the window registry
    /// keys are distinct.
    pub open spec fn wf(self) -> bool {
        &&& self.open_windows.wf()
        &&& forall|i: int, j: int|
            0 <= i < j < self.loaded_files@.len() ==> (#[trigger] self.loaded_files@[i]).path@
                != (#[trigger] self.loaded_files@[j]).path@
    }

    /// Whether a file with this canonical path is already in the registry.
    pub fn is_loaded(&self, canon: &String) -> (r: bool)
        ensures
            r == spec_is_loaded(self.loaded_files@, canon@),
    {
        let mut i: usize = 0;
        while i < self.loaded_files.len()
            invariant
                i <= self.loaded_files@.len(),
                forall|j: int|
                    0 <= j < i ==> (#[trigger] self.loaded_files@[j]).path@ != canon@,
            decreases self.loaded_files@.len() - i,
        {
            if self.loaded_files[i].path == *canon {
                return true;
            }
            i = i + 1;
        }
        false
    }

    /// Registers one file given its canonicalization and the enumeration of
    /// its root group. A path that failed to canonicalize is rejected; a
    /// path already loaded is an idempotent no-op; a failed open or
    /// enumeration abandons the load with the registry unchanged. Only a
    /// fresh, fully enumerated file is appended, visible, at the end.
    pub fn add_file(&mut self, canon: Option<String>, root: Result<RawGroup, LoadError>) -> (r:
        Result<(), LoadError>)
        requires
            old(self).wf(),
            root matches Err(e) ==> (e is CannotOpen || e is EnumerationFailed),
        ensures
            final(self).wf(),
            final(self).open_windows == old(self).open_windows,
            r matches Err(e) ==> final(self).loaded_files@ == old(self).loaded_files@,
            r == Err::<(), LoadError>(LoadError::PathInvalid) <==> canon is None,
            r == Err::<(), LoadError>(LoadError::AlreadyLoaded) <==> (canon matches Some(c) && spec_is_loaded(
                old(self).loaded_files@,
                c@,
            )),
            (canon matches Some(c) && !spec_is_loaded(old(self).loaded_files@, c@) && root
                is Err) ==> r == Err::<(), LoadError>(root->Err_0),
            r is Ok <==> (canon is Some && root is Ok && !spec_is_loaded(
                old(self).loaded_files@,
                canon->0@,
            )),
            r is Ok ==> {
                &&& added_transition(
                    old(self).loaded_files@,
                    final(self).loaded_files@,
                    canon->0@,
                )
                &&& root matches Ok(rg) && tree_matches(
                    Seq::<char>::empty(),
                    rg,
                    final(self).loaded_files@.last().tree,
                )
            },
    {
        match canon {
            None => Err(LoadError::PathInvalid),
            Some(c) => {
                if self.is_loaded(&c) {
                    return Err(LoadError::AlreadyLoaded);
                }
                match root {
                    Err(e) => Err(e),
                    Ok(rg) => {
                        let snapshot = make_file_tree(c, Some(rg));
                        let ghost pre = self.loaded_files@;
                        match snapshot {
                            None => {
                                proof {
                                    assert(false);
                                }
                                Err(LoadError::CannotOpen)
                            },
                            Some(ft) => {
                                self.loaded_files.push(ft);
                                proof {
                                    assert forall|i: int, j: int|
                                        0 <= i < j < self.loaded_files@.len() implies (
                                    #[trigger] self.loaded_files@[i]).path@ != (
                                    #[trigger] self.loaded_files@[j]).path@ by {
                                        if j < pre.len() {
                                            assert(pre[i].path@ != pre[j].path@);
                                        } else {
                                            assert(self.loaded_files@[i] == pre[i]);
                                            if pre[i].path@ == self.loaded_files@[j].path@ {
                                                assert(spec_is_loaded(pre, pre[i].path@));
                                            }
                                        }
                                    }
                                }
                                Ok(())
                            },
                        }
                    },
                }
            },
        }
    }

    /// Evicts every file whose close affordance was used: exactly the
    /// entries with `is_opened` false leave, and the survivors keep their
    /// relative order. Runs once per frame, so a file closed in one frame is
    /// gone by the start of the next.
    pub fn sweep_closed(&mut self)
        requires
            old(self).wf(),
        ensures
            final(self).wf(),
            final(self).open_windows == old(self).open_windows,
            final(self).loaded_files@ == open_files(old(self).loaded_files@),
    {
        let ghost orig = self.loaded_files@;
        let mut i: usize = 0;
        let ghost mut j: int = 0;
        while i < self.loaded_files.len()
            invariant
                self.open_windows == old(self).open_windows,
                old(self).wf(),
                0 <= j <= orig.len(),
                i <= self.loaded_files@.len(),
                self.loaded_files@ == open_files(orig.subrange(0, j)) + orig.subrange(
                    j,
                    orig.len() as int,
                ),
                i == open_files(orig.subrange(0, j)).len(),
                forall|a: int, b: int|
                    0 <= a < b < self.loaded_files@.len() ==> (
                    #[trigger] self.loaded_files@[a]).path@ != (
                    #[trigger] self.loaded_files@[b]).path@,
            decreases self.loaded_files@.len() - i,
        {
            let ghost files_pre = self.loaded_files@;
            let keep = self.loaded_files[i].is_opened;
            if keep {
                proof {
                    reveal_with_fuel(Seq::<FileTree>::filter, 2);
                    let subj = orig.subrange(0, j);
                    let subj1 = orig.subrange(0, j + 1);
                    assert(subj1.drop_last() =~= subj);
                    assert(subj1.last() == orig[j]);
                    assert(self.loaded_files@[i as int] == orig[j]);
                    assert(open_files(subj1) == open_files(subj).push(orig[j]));
                    assert(self.loaded_files@ =~= open_files(subj1) + orig.subrange(
                        j + 1,
                        orig.len() as int,
                    ));
                    j = j + 1;
                }
                i = i + 1;
            } else {
                self.loaded_files.remove(i);
                proof {
                    reveal_with_fuel(Seq::<FileTree>::filter, 2);
                    let subj = orig.subrange(0, j);
                    let subj1 = orig.subrange(0, j + 1);
                    assert(subj1.drop_last() =~= subj);
                    assert(subj1.last() == orig[j]);
                    assert(files_pre[i as int] == orig[j]);
                    assert(open_files(subj1) == open_files(subj));
                    assert(self.loaded_files@ =~= open_files(subj1) + orig.subrange(
                        j + 1,
                        orig.len() as int,
                    ));
                    assert forall|a: int, b: int|
                        0 <= a < b < self.loaded_files@.len() implies (
                    #[trigger] self.loaded_files@[a]).path@ != (
                    #[trigger] self.loaded_files@[b]).path@ by {
                        assert(self.loaded_files@[a] == files_pre[
                            if a < i { a } else { a + 1 }]);
                        assert(self.loaded_files@[b] == files_pre[
                            if b < i { b } else { b + 1 }]);
                    }
                    j = j + 1;
                }
            }
        }
        proof {
            assert(orig.subrange(j, orig.len() as int) =~= Seq::<FileTree>::empty());
            assert(orig.subrange(0, j) =~= orig);
            assert(self.loaded_files@ =~= open_files(orig));
        }
    }
}

} // verus!
