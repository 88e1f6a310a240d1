//! Walking the tree of a module.
//!
//! The walker visits a directory tree depth first, in the order in which
//! each directory lists its entries. It does not read the disk itself: it
//! says which directory to list next, is told what the listing holds, and
//! names each regular file as it comes to it. An entry named `.mirra`, an
//! entry that is neither file nor directory, and an entry whose name
//! could not be one name of a path below the root are passed over, so that
//! nothing below a control directory is ever listed or named.

use crate::path::{
    control_name, is_control_name, is_parent_name, is_plain_name, joined_path,
    lemma_joined_safe, parent_name, plain_name, safe_relative,
};
use crate::wire::texts;
use vstd::prelude::*;

verus! {

/// What kind of thing a directory entry is.
#[derive(Clone, Copy, Debug, PartialEq, Eq, Structural)]
pub enum EntryKind {
    /// A regular file.
    File,
    /// A directory.
    Dir,
    /// Anything else.
    Other,
}

/// One entry of a directory listing.
#[derive(Debug)]
pub struct DirEntry {
    pub name: String,
    pub kind: EntryKind,
}

/// One entry of a directory listing, with the name as its text.
pub struct EntryView {
    pub name: Seq<char>,
    pub kind: EntryKind,
}

impl View for DirEntry {
    type V = EntryView;

    open spec fn view(&self) -> EntryView {
        EntryView { name: self.name@, kind: self.kind }
    }
}

/// The entries of a listing, each with its name as text.
pub open spec fn entry_views(entries: Seq<DirEntry>) -> Seq<EntryView> {
    Seq::new(entries.len(), |i: int| entries[i]@)
}

/// Something that the walk has still to visit.
pub struct Pending {
    dir: bool,
    parts: Vec<String>,
}

/// Something that the walk has still to visit: a directory or a file, by
/// the names that lead to it from the root.
pub struct PendingView {
    pub dir: bool,
    pub parts: Seq<Seq<char>>,
}

impl View for Pending {
    type V = PendingView;

    closed spec fn view(&self) -> PendingView {
        PendingView { dir: self.dir, parts: texts(self.parts@) }
    }
}

/// What the walk comes to next.
#[derive(Debug)]
pub enum WalkStep {
    /// A regular file, by the names that lead to it from the root.
    File { parts: Vec<String> },
    /// A directory whose listing the walker needs before it can go on.
    List { parts: Vec<String> },
    /// Nothing: the walk is over.
    Done,
}

/// What the walk comes to next, with names as texts.
pub enum WalkStepView {
    File { parts: Seq<Seq<char>> },
    List { parts: Seq<Seq<char>> },
    Done,
}

impl View for WalkStep {
    type V = WalkStepView;

    open spec fn view(&self) -> WalkStepView {
        match self {
            WalkStep::File { parts } => WalkStepView::File { parts: texts(parts@) },
            WalkStep::List { parts } => WalkStepView::List { parts: texts(parts@) },
            WalkStep::Done => WalkStepView::Done,
        }
    }
}

/// Whether a name may stand in a path that is sent: it is a plain name,
/// and neither `..` nor the name of the control directory.
pub open spec fn clean_name(name: Seq<char>) -> bool {
    plain_name(name) && name != control_name() && name != parent_name()
}

/// Whether the walk takes up an entry: it is a file or a directory, and
/// its name may stand in a path that is sent.
pub open spec fn visible(e: EntryView) -> bool {
    e.kind != EntryKind::Other && clean_name(e.name)
}

/// Whether each name of a path may stand in a path that is sent.
pub open spec fn clean(parts: Seq<Seq<char>>) -> bool {
    forall|i: int| 0 <= i < parts.len() ==> clean_name(#[trigger] parts[i])
}

/// A clean path with at least one name, joined, is a path that the
/// receiving side takes for safe: no path below a control directory, and
/// none that leads out of the module, is ever sent.
pub proof fn lemma_clean_is_safe(parts: Seq<Seq<char>>)
    requires
        clean(parts),
        parts.len() > 0,
    ensures
        safe_relative(joined_path(parts)),
{
    assert forall|k: int| 0 <= k < parts.len() implies plain_name(#[trigger] parts[k]) by {
        assert(clean_name(parts[k]));
    }
    assert forall|k: int| 0 <= k < parts.len() implies parts[k] != parent_name() by {
        assert(clean_name(parts[k]));
    }
    assert forall|k: int| 0 <= k < parts.len() implies parts[k] != control_name() by {
        assert(clean_name(parts[k]));
    }
    lemma_joined_safe(parts);
}

/// What a listing of the directory at `dir` adds to the work of the walk:
/// the entries that the walk takes up, in the order of the listing.
pub open spec fn children(dir: Seq<Seq<char>>, entries: Seq<EntryView>) -> Seq<PendingView>
    decreases entries.len(),
{
    if entries.len() == 0 {
        seq![]
    } else {
        let rest = children(dir, entries.drop_first());
        if visible(entries[0]) {
            seq![
                PendingView { dir: entries[0].kind == EntryKind::Dir, parts: dir.push(entries[0].name) },
            ] + rest
        } else {
            rest
        }
    }
}

/// The state of a walk: what is still to visit, the next on top, and the
/// directory whose listing is awaited, if any.
pub struct WalkerView {
    pub pending: Seq<PendingView>,
    pub listing: Option<Seq<Seq<char>>>,
}

/// A walk over the tree of a module.
pub struct Walker {
    pending: Vec<Pending>,
    listing: Option<Vec<String>>,
}

impl View for Walker {
    type V = WalkerView;

    closed spec fn view(&self) -> WalkerView {
        WalkerView {
            pending: Seq::new(self.pending@.len(), |i: int| self.pending@[i]@),
            listing: match self.listing {
                Some(parts) => Some(texts(parts@)),
                None => None,
            },
        }
    }
}

impl WalkerView {
    /// A walk that has the root directory before it.
    pub open spec fn start() -> WalkerView {
        WalkerView { pending: seq![PendingView { dir: true, parts: seq![] }], listing: None }
    }

    /// Every path that the walk holds is clean, and every file that it
    /// holds has a name.
    pub open spec fn wf(self) -> bool {
        &&& forall|i: int|
            0 <= i < self.pending.len() ==> clean((#[trigger] self.pending[i]).parts) && (
            self.pending[i].dir || self.pending[i].parts.len() > 0)
        &&& self.listing matches Some(parts) ==> clean(parts)
    }

    /// The walk after its next step, and what that step comes to. A
    /// listing that was awaited and never told counts as empty.
    pub open spec fn next(self) -> (WalkerView, WalkStepView) {
        if self.pending.len() == 0 {
            (WalkerView { pending: self.pending, listing: None }, WalkStepView::Done)
        } else {
            let top = self.pending.last();
            let rest = self.pending.drop_last();
            if top.dir {
                (
                    WalkerView { pending: rest, listing: Some(top.parts) },
                    WalkStepView::List { parts: top.parts },
                )
            } else {
                (
                    WalkerView { pending: rest, listing: None },
                    WalkStepView::File { parts: top.parts },
                )
            }
        }
    }

    /// The walk after it was told the listing that it awaited: the entries
    /// that it takes up are to be visited before all else, the first of
    /// the listing first. Told a listing that it did not await, the walk
    /// stays as it is.
    pub open spec fn expand(self, entries: Seq<EntryView>) -> WalkerView {
        match self.listing {
            Some(dir) => WalkerView {
                pending: self.pending + children(dir, entries).reverse(),
                listing: None,
            },
            None => self,
        }
    }
}

/// The children of a clean directory are clean, and each has a name.
pub proof fn lemma_children_clean(dir: Seq<Seq<char>>, entries: Seq<EntryView>)
    requires
        clean(dir),
    ensures
        forall|i: int|
            0 <= i < children(dir, entries).len() ==> clean(
                (#[trigger] children(dir, entries)[i]).parts,
            ) && children(dir, entries)[i].parts.len() > 0,
    decreases entries.len(),
{
    if entries.len() > 0 {
        let rest = children(dir, entries.drop_first());
        let kids = children(dir, entries);
        lemma_children_clean(dir, entries.drop_first());
        if visible(entries[0]) {
            let child = dir.push(entries[0].name);
            assert forall|k: int| 0 <= k < child.len() implies clean_name(#[trigger] child[k]) by {
                if k < dir.len() {
                    assert(child[k] == dir[k]);
                }
            }
            assert(clean(child));
            assert forall|i: int| 0 <= i < kids.len() implies clean((#[trigger] kids[i]).parts)
                && kids[i].parts.len() > 0 by {
                if i > 0 {
                    assert(kids[i] == rest[i - 1]);
                }
            }
        }
    }
}

/// Nothing below a control directory is ever listed or named: a walk that
/// is well formed stays so after any step and after any listing, and what
/// a step comes to is a clean path, which for a file is not empty.
pub proof fn lemma_walk_stays_clean(w: WalkerView, entries: Seq<EntryView>)
    requires
        w.wf(),
    ensures
        WalkerView::start().wf(),
        w.next().0.wf(),
        w.expand(entries).wf(),
        w.next().1 matches WalkStepView::File { parts } ==> clean(parts) && parts.len() > 0,
        w.next().1 matches WalkStepView::List { parts } ==> clean(parts),
{
    let start = WalkerView::start();
    assert(start.pending[0].parts =~= seq![]);
    if w.pending.len() > 0 {
        assert(clean(w.pending[w.pending.len() - 1].parts));
        let rest = w.pending.drop_last();
        assert forall|i: int| 0 <= i < rest.len() implies clean((#[trigger] rest[i]).parts) && (
        rest[i].dir || rest[i].parts.len() > 0) by {
            assert(rest[i] == w.pending[i]);
        }
    }
    if let Some(dir) = w.listing {
        lemma_children_clean(dir, entries);
        let kids = children(dir, entries);
        let all = w.pending + kids.reverse();
        assert forall|i: int| 0 <= i < all.len() implies clean((#[trigger] all[i]).parts) && (
        all[i].dir || all[i].parts.len() > 0) by {
            if i < w.pending.len() {
                assert(all[i] == w.pending[i]);
            } else {
                let j = i - w.pending.len();
                assert(all[i] == kids[kids.len() - 1 - j]);
            }
        }
    }
}

/// A copy of a list of names.
pub fn clone_parts(parts: &Vec<String>) -> (res: Vec<String>)
    ensures
        texts(res@) == texts(parts@),
{
    let mut res: Vec<String> = Vec::new();
    let mut i: usize = 0;
    while i < parts.len()
        invariant
            i <= parts.len(),
            res@.len() == i,
            forall|j: int| 0 <= j < i ==> res@[j]@ == parts@[j]@,
        decreases parts.len() - i,
    {
        res.push(parts[i].clone());
        i += 1;
    }
    assert(texts(res@) =~= texts(parts@));
    res
}

/// Whether a name may stand in a path that is sent.
pub fn is_clean_name(name: &str) -> (res: bool)
    ensures
        res == clean_name(name@),
{
    is_plain_name(name) && !is_control_name(name) && !is_parent_name(name)
}

/// Whether each name of a path may stand in a path that is sent.
pub fn is_clean(parts: &Vec<String>) -> (res: bool)
    ensures
        res == clean(texts(parts@)),
{
    let mut i: usize = 0;
    while i < parts.len()
        invariant
            i <= parts.len(),
            forall|j: int| 0 <= j < i ==> clean_name(#[trigger] texts(parts@)[j]),
        decreases parts.len() - i,
    {
        if !is_clean_name(parts[i].as_str()) {
            assert(texts(parts@)[i as int] == parts@[i as int]@);
            return false;
        }
        i += 1;
    }
    true
}

impl Walker {
    /// A walk that has the whole tree before it.
    pub fn new() -> (res: Walker)
        ensures
            res@ == WalkerView::start(),
    {
        let mut pending: Vec<Pending> = Vec::new();
        pending.push(Pending { dir: true, parts: Vec::new() });
        let res = Walker { pending, listing: None };
        assert(res@.pending =~= WalkerView::start().pending) by {
            assert(texts(res.pending@[0].parts@) =~= seq![]);
        }
        res
    }

    /// Takes the next step of the walk and says what it comes to.
    pub fn next(&mut self) -> (step: WalkStep)
        ensures
            (final(self)@, step@) == old(self)@.next(),
    {
        let ghost before = self@.pending;
        match self.pending.pop() {
            None => {
                self.listing = None;
                assert(self@.pending =~= before);
                WalkStep::Done
            },
            Some(top) => {
                assert(self@.pending =~= before.drop_last());
                assert(top@ == before.last());
                if top.dir {
                    self.listing = Some(clone_parts(&top.parts));
                    WalkStep::List { parts: top.parts }
                } else {
                    self.listing = None;
                    WalkStep::File { parts: top.parts }
                }
            },
        }
    }

    /// Tells the walk what the directory that it asked for holds.
    pub fn expand(&mut self, entries: &Vec<DirEntry>)
        ensures
            final(self)@ == old(self)@.expand(entry_views(entries@)),
    {
        let dir = match &self.listing {
            Some(parts) => clone_parts(parts),
            None => { return ; },
        };
        self.listing = None;
        let ghost before = old(self)@.pending;
        let ghost all = entry_views(entries@);
        let ghost d = texts(dir@);
        let mut i: usize = entries.len();
        assert(all.skip(i as int) =~= Seq::<EntryView>::empty());
        assert(self@.pending =~= before + children(d, all.skip(i as int)).reverse());
        while i > 0
            invariant
                i <= entries.len(),
                all == entry_views(entries@),
                d == texts(dir@),
                self.listing is None,
                self@.pending == before + children(d, all.skip(i as int)).reverse(),
            decreases i,
        {
            i -= 1;
            let entry = &entries[i];
            let ghost later = children(d, all.skip(i + 1));
            let ghost now = self@.pending;
            proof {
                assert(all.skip(i as int).drop_first() =~= all.skip(i + 1));
                assert(all.skip(i as int)[0] == entry@);
            }
            if entry.kind != EntryKind::Other && is_clean_name(entry.name.as_str()) {
                let mut parts = clone_parts(&dir);
                parts.push(entry.name.clone());
                let item = Pending { dir: entry.kind == EntryKind::Dir, parts };
                assert(texts(item.parts@) =~= d.push(entry@.name));
                self.pending.push(item);
                assert(self@.pending =~= now.push(item@));
                assert((seq![item@] + later).reverse() =~= later.reverse().push(item@));
                assert(self@.pending =~= before + children(d, all.skip(i as int)).reverse());
            }
        }
        assert(all.skip(0) =~= all);
    }
}

} // verus!
