//! What a walk over a tree comes to.
//!
//! The walker of `walk` sees a tree only through the listings it is told.
//! Here a tree is given as a whole, its files are named in the order in
//! which a depth-first traversal meets them, and the walker is shown to
//! name exactly these, in this order, when its listings come from the
//! tree.

use crate::walk::{
    children, clean, clean_name, visible, EntryKind, EntryView, PendingView, WalkStepView,
    WalkerView,
};
use vstd::prelude::*;

verus! {

/// A file, a directory with what it holds in the order of its listing, or
/// something that is neither.
pub enum Tree {
    File { name: Seq<char> },
    Other { name: Seq<char> },
    Dir { name: Seq<char>, entries: Seq<Tree> },
}

impl Tree {
    /// The entry that stands for this tree in the listing of the directory
    /// that holds it.
    pub open spec fn entry(self) -> EntryView {
        match self {
            Tree::File { name } => EntryView { name, kind: EntryKind::File },
            Tree::Other { name } => EntryView { name, kind: EntryKind::Other },
            Tree::Dir { name, .. } => EntryView { name, kind: EntryKind::Dir },
        }
    }

    /// What the directory holds; nothing for what is no directory.
    pub open spec fn entries(self) -> Seq<Tree> {
        match self {
            Tree::Dir { entries, .. } => entries,
            _ => seq![],
        }
    }
}

/// The listing of a directory that holds `entries`.
pub open spec fn listing(entries: Seq<Tree>) -> Seq<EntryView> {
    Seq::new(entries.len(), |i: int| entries[i].entry())
}

/// The files that are to be sent from below the directory at `at`, which
/// holds `entries`, leaving out the entries before `from`: entry by entry
/// in the order of the listing, each directory in full before the entry
/// after it.
pub open spec fn files_in(entries: Seq<Tree>, from: int, at: Seq<Seq<char>>) -> Seq<Seq<Seq<char>>>
    decreases entries, entries.len() - from,
{
    if 0 <= from < entries.len() {
        files_of(entries[from], at) + files_in(entries, from + 1, at)
    } else {
        seq![]
    }
}

/// The files that are to be sent for the entry `t` of the directory at
/// `at`: none for an entry that the walk passes over; the file itself for
/// a file; for a directory, the files below it.
pub open spec fn files_of(t: Tree, at: Seq<Seq<char>>) -> Seq<Seq<Seq<char>>>
    decreases t, 0int,
{
    if !visible(t.entry()) {
        seq![]
    } else {
        match t {
            Tree::File { name } => seq![at.push(name)],
            Tree::Other { .. } => seq![],
            Tree::Dir { name, entries } => files_in(entries, 0, at.push(name)),
        }
    }
}

/// The files of a module whose directory holds `entries`, as paths of
/// names below the module root, in the order of a depth-first traversal.
pub open spec fn module_files(entries: Seq<Tree>) -> Seq<Seq<Seq<char>>> {
    files_in(entries, 0, seq![])
}

/// Whether the walk holds, for each of `trees` and in their order, the
/// matching thing to visit: a directory for a directory and a file for a
/// file.
pub open spec fn holds(pending: Seq<PendingView>, trees: Seq<Tree>) -> bool {
    &&& pending.len() == trees.len()
    &&& forall|i: int|
        0 <= i < pending.len() ==> if (#[trigger] pending[i]).dir {
            trees[i] is Dir
        } else {
            trees[i] is File
        }
}

/// The files that a walk will name which holds `pending` for `trees`: those
/// of what is on top first.
pub open spec fn agenda(pending: Seq<PendingView>, trees: Seq<Tree>) -> Seq<Seq<Seq<char>>>
    decreases pending.len(),
{
    if pending.len() == 0 {
        seq![]
    } else {
        yield_of(pending.last(), trees.last()) + agenda(pending.drop_last(), trees.drop_last())
    }
}

/// The files that a walk will name for one thing that it holds.
pub open spec fn yield_of(p: PendingView, t: Tree) -> Seq<Seq<Seq<char>>> {
    if p.dir {
        files_in(t.entries(), 0, p.parts)
    } else {
        seq![p.parts]
    }
}

/// The entries, from `from` on, that the walk takes up.
pub open spec fn taken_up(entries: Seq<Tree>, from: int) -> Seq<Tree>
    decreases entries.len() - from,
{
    if 0 <= from < entries.len() {
        if visible(entries[from].entry()) {
            seq![entries[from]] + taken_up(entries, from + 1)
        } else {
            taken_up(entries, from + 1)
        }
    } else {
        seq![]
    }
}

/// The files that a walk will name for `pending`, held for `trees`, when
/// it visits them from the first to the last.
pub open spec fn in_order(pending: Seq<PendingView>, trees: Seq<Tree>) -> Seq<Seq<Seq<char>>>
    decreases pending.len(),
{
    if pending.len() == 0 {
        seq![]
    } else {
        yield_of(pending[0], trees[0]) + in_order(pending.drop_first(), trees.drop_first())
    }
}

proof fn lemma_agenda_of_reversed(
    below: Seq<PendingView>,
    below_trees: Seq<Tree>,
    added: Seq<PendingView>,
    added_trees: Seq<Tree>,
)
    requires
        below.len() == below_trees.len(),
        added.len() == added_trees.len(),
    ensures
        agenda(below + added.reverse(), below_trees + added_trees.reverse()) == in_order(
            added,
            added_trees,
        ) + agenda(below, below_trees),
    decreases added.len(),
{
    let stack = below + added.reverse();
    let trees = below_trees + added_trees.reverse();
    if added.len() == 0 {
        assert(stack =~= below);
        assert(trees =~= below_trees);
        assert(in_order(added, added_trees) + agenda(below, below_trees) =~= agenda(
            below,
            below_trees,
        ));
    } else {
        assert(stack.last() == added[0]);
        assert(trees.last() == added_trees[0]);
        assert(stack.drop_last() =~= below + added.drop_first().reverse());
        assert(trees.drop_last() =~= below_trees + added_trees.drop_first().reverse());
        lemma_agenda_of_reversed(
            below,
            below_trees,
            added.drop_first(),
            added_trees.drop_first(),
        );
        assert(agenda(stack, trees) =~= yield_of(added[0], added_trees[0]) + (in_order(
            added.drop_first(),
            added_trees.drop_first(),
        ) + agenda(below, below_trees)));
    }
}

proof fn lemma_children_of_listing(entries: Seq<Tree>, from: int, at: Seq<Seq<char>>)
    requires
        0 <= from <= entries.len(),
    ensures
        ({
            let kids = children(at, listing(entries).skip(from));
            let trees = taken_up(entries, from);
            &&& holds(kids, trees)
            &&& in_order(kids, trees) == files_in(entries, from, at)
        }),
    decreases entries.len() - from,
{
    let list = listing(entries).skip(from);
    let kids = children(at, list);
    let trees = taken_up(entries, from);
    if from < entries.len() {
        assert(list.drop_first() =~= listing(entries).skip(from + 1));
        assert(list[0] == entries[from].entry());
        lemma_children_of_listing(entries, from + 1, at);
        let later = children(at, listing(entries).skip(from + 1));
        let later_trees = taken_up(entries, from + 1);
        let t = entries[from];
        if visible(t.entry()) {
            let kid = PendingView { dir: t.entry().kind == EntryKind::Dir, parts: at.push(t.entry().name) };
            assert(kids =~= seq![kid] + later);
            assert(trees =~= seq![t] + later_trees);
            assert(kids.drop_first() =~= later);
            assert(trees.drop_first() =~= later_trees);
            assert forall|i: int| 0 <= i < kids.len() implies if (#[trigger] kids[i]).dir {
                trees[i] is Dir
            } else {
                trees[i] is File
            } by {
                if i > 0 {
                    assert(kids[i] == later[i - 1]);
                    assert(trees[i] == later_trees[i - 1]);
                }
            }
            assert(yield_of(kid, t) == files_of(t, at));
            assert(in_order(kids, trees) == files_of(t, at) + files_in(entries, from + 1, at));
        } else {
            assert(kids == later);
            assert(trees == later_trees);
            assert(files_of(t, at) + files_in(entries, from + 1, at) =~= files_in(
                entries,
                from + 1,
                at,
            ));
        }
    } else {
        assert(list =~= Seq::<EntryView>::empty());
        assert(kids =~= Seq::<PendingView>::empty());
    }
}

/// Whether the walk `w` is in step with `trees`: it holds them, where it
/// awaits no listing; and where it awaits one, the last of `trees` is the
/// directory to be listed and the walk holds the others.
pub open spec fn follows(w: WalkerView, trees: Seq<Tree>) -> bool {
    match w.listing {
        Some(parts) => trees.len() > 0 && trees.last() is Dir && holds(
            w.pending,
            trees.drop_last(),
        ),
        None => holds(w.pending, trees),
    }
}

/// The files that a walk in step with `trees` has left to name.
pub open spec fn left_to_name(w: WalkerView, trees: Seq<Tree>) -> Seq<Seq<Seq<char>>> {
    match w.listing {
        Some(parts) => files_in(trees.last().entries(), 0, parts) + agenda(
            w.pending,
            trees.drop_last(),
        ),
        None => agenda(w.pending, trees),
    }
}

/// The walk names the files of a tree, and names them depth first.
///
/// Let a walk that awaits no listing be in step with `trees`. If nothing
/// is left to it, no file was left to name. If its next step comes to a
/// file, this is the first of the files left to name, and the others are
/// left to the walk after the step. If its next step asks for a listing,
/// it asks for that of the directory on top, and the same files are left
/// to name.
pub proof fn lemma_walk_next(w: WalkerView, trees: Seq<Tree>)
    requires
        follows(w, trees),
        w.listing is None,
    ensures
        match w.next().1 {
            WalkStepView::Done => left_to_name(w, trees) == Seq::<Seq<Seq<char>>>::empty(),
            WalkStepView::File { parts } => follows(w.next().0, trees.drop_last())
                && left_to_name(w, trees) == seq![parts] + left_to_name(
                w.next().0,
                trees.drop_last(),
            ),
            WalkStepView::List { parts } => follows(w.next().0, trees) && left_to_name(
                w.next().0,
                trees,
            ) == left_to_name(w, trees),
        },
{
    if w.pending.len() > 0 {
        let rest = w.pending.drop_last();
        let rest_trees = trees.drop_last();
        assert forall|i: int| 0 <= i < rest.len() implies if (#[trigger] rest[i]).dir {
            rest_trees[i] is Dir
        } else {
            rest_trees[i] is File
        } by {
            assert(rest[i] == w.pending[i]);
        }
        assert(w.pending[w.pending.len() - 1] == w.pending.last());
    }
}

/// A listing changes nothing about what is left to name.
///
/// Let a walk that awaits a listing be in step with `trees`, and let it be
/// told the listing of the directory it asked for. Then it is in step with
/// the other trees and, on top of them and the first on top, the entries
/// that it takes up; and the same files are left to name.
pub proof fn lemma_walk_told(w: WalkerView, trees: Seq<Tree>)
    requires
        follows(w, trees),
        w.listing is Some,
    ensures
        ({
            let entries = trees.last().entries();
            let told = w.expand(listing(entries));
            let held = trees.drop_last() + taken_up(entries, 0).reverse();
            &&& told.listing is None
            &&& follows(told, held)
            &&& left_to_name(told, held) == left_to_name(w, trees)
        }),
{
    let parts = w.listing->0;
    let entries = trees.last().entries();
    let rest = w.pending;
    let rest_trees = trees.drop_last();
    lemma_children_of_listing(entries, 0, parts);
    assert(listing(entries).skip(0) =~= listing(entries));
    let kids = children(parts, listing(entries));
    let kid_trees = taken_up(entries, 0);
    lemma_agenda_of_reversed(rest, rest_trees, kids, kid_trees);
    let stack = rest + kids.reverse();
    let held = rest_trees + kid_trees.reverse();
    assert forall|i: int| 0 <= i < stack.len() implies if (#[trigger] stack[i]).dir {
        held[i] is Dir
    } else {
        held[i] is File
    } by {
        if i < rest.len() {
            assert(stack[i] == rest[i]);
        } else {
            let j = kids.len() - 1 - (i - rest.len());
            assert(stack[i] == kids[j]);
            assert(held[i] == kid_trees[j]);
        }
    }
}

/// A walk that starts on a module has all the files of the module left to
/// name, and no others.
pub proof fn lemma_walk_starts_with_all(root: Tree)
    requires
        root is Dir,
    ensures
        follows(WalkerView::start(), seq![root]),
        left_to_name(WalkerView::start(), seq![root]) == module_files(root.entries()),
{
    let pending = WalkerView::start().pending;
    let trees = seq![root];
    assert(pending.drop_last() =~= Seq::<PendingView>::empty());
    assert(agenda(pending.drop_last(), trees.drop_last()) =~= Seq::<Seq<Seq<char>>>::empty());
    assert(agenda(pending, trees) =~= yield_of(pending.last(), trees.last()));
}

/// Whether every path of `paths` is clean and has a name.
pub open spec fn all_clean(paths: Seq<Seq<Seq<char>>>) -> bool {
    forall|i: int| 0 <= i < paths.len() ==> clean(#[trigger] paths[i]) && paths[i].len() > 0
}

proof fn lemma_files_in_clean(entries: Seq<Tree>, from: int, at: Seq<Seq<char>>)
    requires
        clean(at),
    ensures
        all_clean(files_in(entries, from, at)),
    decreases entries, entries.len() - from,
{
    if 0 <= from < entries.len() {
        lemma_files_of_clean(entries[from], at);
        lemma_files_in_clean(entries, from + 1, at);
        let first = files_of(entries[from], at);
        let later = files_in(entries, from + 1, at);
        let all = first + later;
        assert forall|i: int| 0 <= i < all.len() implies clean(#[trigger] all[i]) && all[i].len()
            > 0 by {
            if i < first.len() {
                assert(all[i] == first[i]);
            } else {
                assert(all[i] == later[i - first.len()]);
            }
        }
    }
}

proof fn lemma_files_of_clean(t: Tree, at: Seq<Seq<char>>)
    requires
        clean(at),
    ensures
        all_clean(files_of(t, at)),
    decreases t, 0int,
{
    if visible(t.entry()) {
        let below = at.push(t.entry().name);
        assert forall|k: int| 0 <= k < below.len() implies clean_name(#[trigger] below[k]) by {
            if k < at.len() {
                assert(below[k] == at[k]);
            }
        }
        match t {
            Tree::Dir { name, entries } => {
                lemma_files_in_clean(entries, 0, below);
            },
            _ => {},
        }
    }
}

/// No file below a control directory is among the files of a module, and
/// no control directory itself: every path that is named is made of plain
/// names, none of which is `.mirra` or `..`.
pub proof fn lemma_module_files_clean(entries: Seq<Tree>)
    ensures
        all_clean(module_files(entries)),
{
    lemma_files_in_clean(entries, 0, seq![]);
}

} // verus!
