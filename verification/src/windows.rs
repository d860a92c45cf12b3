//! Window registry: the mapping from a dataset or group path to the detail
//! view currently visible under it. A key is present exactly while its view
//! is meant to be shown; opening a key builds its window from a fresh read
//! outcome, and closing removes the key and drops the view's data.

use vstd::prelude::*;
use crate::plot::PlotWindow;
use crate::popup::PopupWindow;
use crate::table::TableWindow;

verus! {

/// The runtime-discovered scalar type of a dataset. One arm per supported
/// kind, and an explicit arm for everything the viewer cannot render.
pub enum TypeClass {
    Float,
    Integer,
    Unsigned,
    Boolean,
    VarLenUnicode,
    VarLenAscii,
    Other,
}

/// The supported kinds are exactly float, signed, unsigned, boolean and the
/// two variable-length string encodings.
pub open spec fn spec_type_supported(tc: TypeClass) -> bool {
    !(tc is Other)
}

/// Decides whether a dataset of this type gets a data view or an error popup.
pub fn type_supported(tc: &TypeClass) -> (r: bool)
    ensures
        r == spec_type_supported(*tc),
{
    match tc {
        TypeClass::Other => false,
        _ => true,
    }
}

/// What opening one dataset produced, captured once at open time: a scalar's
/// display form, a whole array's display rows, an unsupported type, or a
/// failed descriptor/read call with its message.
pub enum ReadOutcome {
    Scalar(String),
    Array(Vec<String>),
    Unsupported,
    Failed(String),
}

/// One visible detail view: a value table, a scalar label, a line plot, or
/// an error popup. Each variant owns exactly the data it renders.
pub enum DetailWindow {
    Table(TableWindow<String>),
    Scalar { name: String, value: String },
    Plot(PlotWindow),
    Error(PopupWindow),
}

/// The window a dataset open action must register under `key`, given what
/// the read produced: data views for readable datasets, and an error popup —
/// never silence — for unsupported types and failed reads.
pub open spec fn window_matches(key: Seq<char>, outcome: ReadOutcome, w: DetailWindow) -> bool {
    match outcome {
        ReadOutcome::Scalar(v) => w matches DetailWindow::Scalar { name, value } && name@ == key
            && value == v,
        ReadOutcome::Array(rows) => w matches DetailWindow::Table(t) && t.name@ == key && t.data
            == Some(rows) && t.scalar is None,
        ReadOutcome::Unsupported => w matches DetailWindow::Error(p) && p.title@
            == "Dataset error"@ && p.message@ == "The dataset type is not supported yet."@
            && p.open,
        ReadOutcome::Failed(msg) => w matches DetailWindow::Error(p) && p.title@
            == "Dataset error"@ && p.message == msg && p.open,
    }
}

/// Builds the detail window for one dataset open action from the read
/// outcome captured for it.
pub fn window_for_dataset(key: &String, outcome: ReadOutcome) -> (w: DetailWindow)
    ensures
        window_matches(key@, outcome, w),
{
    match outcome {
        ReadOutcome::Scalar(v) => DetailWindow::Scalar { name: key.clone(), value: v },
        ReadOutcome::Array(rows) => {
            let mut t = TableWindow::<String>::default();
            t.set_name(key.clone());
            t.set_data(rows);
            DetailWindow::Table(t)
        },
        ReadOutcome::Unsupported => {
            let mut p = PopupWindow::default();
            p.set_title(String::from_str("Dataset error"));
            p.set_message(String::from_str("The dataset type is not supported yet."));
            DetailWindow::Error(p)
        },
        ReadOutcome::Failed(msg) => {
            let mut p = PopupWindow::default();
            p.set_title(String::from_str("Dataset error"));
            p.set_message(msg);
            DetailWindow::Error(p)
        },
    }
}

/// One registry entry: the path key and the view shown under it.
pub struct WindowEntry {
    pub key: String,
    pub window: DetailWindow,
}

/// The registry of currently visible detail views, keyed by path. Entries
/// carry distinct keys; a key is present if and only if its view is meant to
/// be visible this frame.
pub struct WindowRegistry {
    pub entries: Vec<WindowEntry>,
}

impl WindowRegistry {
    /// All keys are distinct.
    pub open spec fn wf(self) -> bool {
        forall|i: int, j: int|
            0 <= i < j < self.entries@.len() ==> (#[trigger] self.entries@[i]).key@ != (
            #[trigger] self.entries@[j]).key@
    }

    pub open spec fn spec_contains(self, k: Seq<char>) -> bool {
        exists|i: int| 0 <= i < self.entries@.len() && (#[trigger] self.entries@[i]).key@ == k
    }

    pub open spec fn index_of(self, k: Seq<char>) -> int {
        choose|i: int| 0 <= i < self.entries@.len() && (#[trigger] self.entries@[i]).key@ == k
    }

    /// The view registered under `k` (meaningful only while `k` is present).
    pub open spec fn spec_get(self, k: Seq<char>) -> DetailWindow {
        self.entries@[self.index_of(k)].window
    }

    /// In a well-formed registry the entry at any index holding `k` is the
    /// one `spec_get` speaks of.
    pub proof fn lemma_get_at(self, k: Seq<char>, i: int)
        requires
            self.wf(),
            0 <= i < self.entries@.len(),
            self.entries@[i].key@ == k,
        ensures
            self.spec_contains(k),
            self.index_of(k) == i,
            self.spec_get(k) == self.entries@[i].window,
    {
        assert(self.spec_contains(k));
        let c = self.index_of(k);
        if c != i {
            assert(self.entries@[if c < i { c } else { i }].key@ != self.entries@[
                if c < i { i } else { c }].key@);
        }
    }

    pub fn new() -> (r: Self)
        ensures
            r.wf(),
            forall|k: Seq<char>| !r.spec_contains(k),
            r.entries@.len() == 0,
    {
        WindowRegistry { entries: Vec::new() }
    }

    /// The index of the entry holding `key`, if the key is present.
    fn find(&self, key: &String) -> (r: Option<usize>)
        ensures
            r matches Some(i) ==> 0 <= i < self.entries@.len() && self.entries@[i as int].key@
                == key@,
            r is None ==> !self.spec_contains(key@),
    {
        let mut i: usize = 0;
        while i < self.entries.len()
            invariant
                i <= self.entries@.len(),
                forall|j: int| 0 <= j < i ==> (#[trigger] self.entries@[j]).key@ != key@,
            decreases self.entries@.len() - i,
        {
            if self.entries[i].key == *key {
                return Some(i);
            }
            i = i + 1;
        }
        None
    }

    /// Whether a detail view is currently visible under `key`.
    pub fn contains(&self, key: &String) -> (r: bool)
        requires
            self.wf(),
        ensures
            r == self.spec_contains(key@),
    {
        match self.find(key) {
            Some(i) => {
                proof {
                    self.lemma_get_at(key@, i as int);
                }
                true
            },
            None => false,
        }
    }

    /// The view visible under `key`, if any.
    pub fn get(&self, key: &String) -> (r: Option<&DetailWindow>)
        requires
            self.wf(),
        ensures
            r is Some <==> self.spec_contains(key@),
            r matches Some(w) ==> *w == self.spec_get(key@),
    {
        match self.find(key) {
            Some(i) => {
                proof {
                    self.lemma_get_at(key@, i as int);
                }
                Some(&self.entries[i].window)
            },
            None => None,
        }
    }

    /// Removes the view under `key`, dropping its data; every other entry
    /// stays, under the same key with the same view.
    pub fn close(&mut self, key: &String)
        requires
            old(self).wf(),
        ensures
            closed_transition(*old(self), *final(self), key@),
    {
        let found = self.find(key);
        match found {
            None => {
                proof {
                    lemma_preserved_refl(*self);
                }
            },
            Some(i) => {
                proof {
                    self.lemma_get_at(key@, i as int);
                }
                let ghost pre = *self;
                self.entries.remove(i);
                proof {
                    lemma_remove_transition(pre, *self, key@, i as int);
                }
            },
        }
    }

    /// Removes and hands back the view under `key`, so a frame can render
    /// it and re-register it while it stays open; for every other key this
    /// is invisible.
    pub fn take(&mut self, key: &String) -> (r: Option<DetailWindow>)
        requires
            old(self).wf(),
        ensures
            closed_transition(*old(self), *final(self), key@),
            r is Some <==> old(self).spec_contains(key@),
            r matches Some(w) ==> w == old(self).spec_get(key@),
    {
        let found = self.find(key);
        match found {
            None => {
                proof {
                    lemma_preserved_refl(*self);
                }
                None
            },
            Some(i) => {
                proof {
                    self.lemma_get_at(key@, i as int);
                }
                let ghost pre = *self;
                let entry = self.entries.remove(i);
                proof {
                    lemma_remove_transition(pre, *self, key@, i as int);
                }
                Some(entry.window)
            },
        }
    }

    /// Registers `w` as the view under `key`, replacing any view already
    /// there; every other entry stays, under the same key with the same view.
    pub fn open_window(&mut self, key: &String, w: DetailWindow)
        requires
            old(self).wf(),
        ensures
            final(self).wf(),
            final(self).spec_contains(key@),
            final(self).spec_get(key@) == w,
            preserved_except(*old(self), *final(self), key@),
    {
        self.close(key);
        let ghost mid = *self;
        self.entries.push(WindowEntry { key: key.clone(), window: w });
        proof {
            let n = mid.entries@.len();
            assert(self.entries@ == mid.entries@.push(
                WindowEntry { key: *key, window: w },
            ));
            assert forall|i: int, j: int| 0 <= i < j < self.entries@.len() implies (
            #[trigger] self.entries@[i]).key@ != (#[trigger] self.entries@[j]).key@ by {
                if j < n {
                    assert(mid.entries@[i].key@ != mid.entries@[j].key@);
                } else {
                    // the new last entry's key was removed from everything below
                    assert(self.entries@[i] == mid.entries@[i]);
                    if mid.entries@[i].key@ == key@ {
                        assert(mid.spec_contains(key@));
                    }
                }
            }
            self.lemma_get_at(key@, n as int);
            assert forall|k2: Seq<char>| k2 != key@ implies final_contains_eq(
                *old(self),
                *self,
                k2,
            ) by {
                assert(final_contains_eq(*old(self), mid, k2));
                if mid.spec_contains(k2) {
                    let i = mid.index_of(k2);
                    assert(self.entries@[i].key@ == k2);
                    self.lemma_get_at(k2, i);
                    mid.lemma_get_at(k2, i);
                } else {
                    if self.spec_contains(k2) {
                        let i = self.index_of(k2);
                        assert(self.entries@[i].key@ == k2);
                        assert(i < n ==> mid.spec_contains(k2));
                    }
                }
            }
        }
    }

    /// Toggling "open" on a dataset path that has no view yet: the window is
    /// built from the read outcome captured at this moment and registered
    /// under the dataset's path, replacing anything stale. Unsupported types
    /// and failed reads register an error popup, so the action never fails
    /// silently.
    pub fn open_dataset(&mut self, key: &String, outcome: ReadOutcome)
        requires
            old(self).wf(),
        ensures
            opened_transition(*old(self), *final(self), key@, outcome),
    {
        let w = window_for_dataset(key, outcome);
        self.open_window(key, w);
    }
}

/// Both registries agree about `k2`: same presence, same view.
pub open spec fn final_contains_eq(pre: WindowRegistry, post: WindowRegistry, k2: Seq<char>) -> bool {
    &&& post.spec_contains(k2) == pre.spec_contains(k2)
    &&& pre.spec_contains(k2) ==> post.spec_get(k2) == pre.spec_get(k2)
}

/// Every key but `k` keeps its presence and its view.
pub open spec fn preserved_except(pre: WindowRegistry, post: WindowRegistry, k: Seq<char>) -> bool {
    forall|k2: Seq<char>| k2 != k ==> final_contains_eq(pre, post, k2)
}

/// What closing `k` does to the registry: `k` is gone and nothing else moved.
pub open spec fn closed_transition(pre: WindowRegistry, post: WindowRegistry, k: Seq<char>) -> bool {
    &&& post.wf()
    &&& !post.spec_contains(k)
    &&& preserved_except(pre, post, k)
}

/// What opening `k` from the read outcome does to the registry: `k` now maps
/// to the window the outcome dictates — fresh, whatever was there before —
/// and nothing else moved.
pub open spec fn opened_transition(
    pre: WindowRegistry,
    post: WindowRegistry,
    k: Seq<char>,
    outcome: ReadOutcome,
) -> bool {
    &&& post.wf()
    &&& post.spec_contains(k)
    &&& window_matches(k, outcome, post.spec_get(k))
    &&& preserved_except(pre, post, k)
}

proof fn lemma_preserved_refl(r: WindowRegistry)
    ensures
        forall|k: Seq<char>| preserved_except(r, r, k),
{
}

/// Removing the single entry holding `k` from a well-formed registry is the
/// `closed_transition` for `k`.
proof fn lemma_remove_transition(pre: WindowRegistry, post: WindowRegistry, k: Seq<char>, i: int)
    requires
        pre.wf(),
        0 <= i < pre.entries@.len(),
        pre.entries@[i].key@ == k,
        post.entries@ == pre.entries@.remove(i),
    ensures
        closed_transition(pre, post, k),
{
    let n = pre.entries@.len();
    assert(post.entries@.len() == n - 1);
    assert(forall|a: int|
        0 <= a < n - 1 ==> #[trigger] post.entries@[a] == if a < i {
            pre.entries@[a]
        } else {
            pre.entries@[a + 1]
        });
    assert(post.wf());
    if post.spec_contains(k) {
        let a = post.index_of(k);
        assert(post.entries@[a].key@ == k);
        let b: int = if a < i { a } else { a + 1 };
        assert(pre.entries@[b].key@ == k && b != i);
        assert(pre.entries@[if b < i { b } else { i }].key@ != pre.entries@[
            if b < i { i } else { b }].key@);
    }
    assert forall|k2: Seq<char>| k2 != k implies final_contains_eq(pre, post, k2) by {
        if pre.spec_contains(k2) {
            let b = pre.index_of(k2);
            pre.lemma_get_at(k2, b);
            assert(b != i);
            let a: int = if b < i { b } else { b - 1 };
            assert(post.entries@[a].key@ == k2);
            post.lemma_get_at(k2, a);
        } else {
            if post.spec_contains(k2) {
                let a = post.index_of(k2);
                assert(post.entries@[a].key@ == k2);
                let b: int = if a < i { a } else { a + 1 };
                assert(pre.entries@[b].key@ == k2);
            }
        }
    }
}

/// Reconciles a view's visibility after a frame: a view whose host window
/// was closed leaves the registry; one still open stays exactly as it is.
pub fn set_open(open: &mut WindowRegistry, key: &String, is_open: bool)
    requires
        old(open).wf(),
    ensures
        final(open).wf(),
        is_open ==> *final(open) == *old(open),
        !is_open ==> closed_transition(*old(open), *final(open), key@),
{
    if !is_open {
        open.close(key);
    }
}

/// Closing a view and reopening it rebuilds its window from the fresh read
/// outcome alone: the view shown after the reopen is dictated by that
/// outcome, never by anything cached before the close.
pub proof fn lemma_reopen_is_fresh(
    r0: WindowRegistry,
    r1: WindowRegistry,
    r2: WindowRegistry,
    k: Seq<char>,
    outcome: ReadOutcome,
)
    requires
        closed_transition(r0, r1, k),
        opened_transition(r1, r2, k, outcome),
    ensures
        r2.spec_contains(k),
        window_matches(k, outcome, r2.spec_get(k)),
{
}

/// Opening a dataset whose type is unsupported always registers an error
/// popup under that dataset's path — an open action never fails silently.
pub proof fn lemma_unsupported_gives_popup(
    pre: WindowRegistry,
    post: WindowRegistry,
    k: Seq<char>,
)
    requires
        opened_transition(pre, post, k, ReadOutcome::Unsupported),
    ensures
        post.spec_contains(k),
        post.spec_get(k) matches DetailWindow::Error(p) && p.title@ == "Dataset error"@
            && p.open,
{
}

} // verus!
