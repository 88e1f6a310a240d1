//! The transfer of a whole module, from its first listing to `EndSync`.
//!
//! A root and a node are run against each other on a model of their
//! surroundings: the tree that the root serves, what its files hold, and
//! the files that the node holds. The run follows the root from request to
//! request. At its end the node holds every file of the module with the
//! content that the root has.

use crate::config::Config;
use crate::hash::digest_hex;
use crate::node::{NodeEventView, NodeSessionView, NodeStage};
use crate::packet::MessageView;
use crate::path::joined_path;
use crate::protocol::{
    exchange, goes_on, lemma_exchange_delivers, lemma_sync_begins, lemma_sync_goes_on,
    sync_follows, to_open, Disk,
};
use crate::root::{
    lemma_step_sound, RootEventView, RootRequestView, RootSessionView, RootStage, RootStepView,
};
use crate::tree::{listing, module_files, taken_up, Tree};
use vstd::prelude::*;

verus! {

/// How many files, directories and other things a tree is made of.
pub open spec fn size_of(t: Tree) -> nat
    decreases t, 0int,
{
    match t {
        Tree::Dir { entries, .. } => 1 + sizes(entries, 0),
        _ => 1,
    }
}

/// The sizes of the trees of `entries` from `from` on, added up.
pub open spec fn sizes(entries: Seq<Tree>, from: int) -> nat
    decreases entries, entries.len() - from,
{
    if 0 <= from < entries.len() {
        size_of(entries[from]) + sizes(entries, from + 1)
    } else {
        0
    }
}

/// The sizes of `trees`, added up.
pub open spec fn weight(trees: Seq<Tree>) -> nat
    decreases trees.len(),
{
    if trees.len() == 0 {
        0
    } else {
        weight(trees.drop_last()) + size_of(trees.last())
    }
}

proof fn lemma_weight_concat(a: Seq<Tree>, b: Seq<Tree>)
    ensures
        weight(a + b) == weight(a) + weight(b),
    decreases b.len(),
{
    if b.len() == 0 {
        assert(a + b =~= a);
    } else {
        assert((a + b).drop_last() =~= a + b.drop_last());
        lemma_weight_concat(a, b.drop_last());
    }
}

proof fn lemma_weight_one(t: Tree)
    ensures
        weight(seq![t]) == size_of(t),
{
    assert(seq![t].drop_last() =~= Seq::<Tree>::empty());
    assert(weight(Seq::<Tree>::empty()) == 0);
    assert(seq![t].last() == t);
}

proof fn lemma_weight_reverse(s: Seq<Tree>)
    ensures
        weight(s.reverse()) == weight(s),
    decreases s.len(),
{
    if s.len() > 0 {
        assert(s.reverse() =~= seq![s.last()] + s.drop_last().reverse());
        lemma_weight_concat(seq![s.last()], s.drop_last().reverse());
        lemma_weight_one(s.last());
        lemma_weight_reverse(s.drop_last());
    } else {
        assert(s.reverse() =~= s);
    }
}

proof fn lemma_weight_taken_up(entries: Seq<Tree>, from: int)
    requires
        0 <= from,
    ensures
        weight(taken_up(entries, from)) <= sizes(entries, from),
    decreases entries.len() - from,
{
    if from < entries.len() {
        lemma_weight_taken_up(entries, from + 1);
        lemma_weight_concat(seq![entries[from]], taken_up(entries, from + 1));
        lemma_weight_one(entries[from]);
    }
}

/// What the root reads from its disk, and how the stream hands out what
/// it carries: for each file, by the names that lead to it, the content of
/// the file, the signature of its digest, and the lengths of the reads in
/// which its content comes to the node.
pub struct Source {
    pub contents: spec_fn(Seq<Seq<char>>) -> Seq<u8>,
    pub certs: spec_fn(Seq<Seq<char>>) -> Seq<char>,
    pub cuts: spec_fn(Seq<Seq<char>>) -> Seq<usize>,
}

/// A root with its latest answer, a node, and the files that the node
/// holds.
pub struct World {
    pub root: RootSessionView,
    pub said: RootStepView,
    pub node: NodeSessionView,
    pub disk: Disk,
}

/// The trees that the walk of the root is in step with after an answer,
/// when it was in step with `trees` up to what the answer asks for.
pub open spec fn in_step(trees: Seq<Tree>, said: RootStepView) -> Seq<Tree> {
    if said.next is OpenFile {
        trees.drop_last()
    } else {
        trees
    }
}

/// Runs the transfer for at most `fuel` requests of the root.
///
/// A listing that the root asks for is that of the directory on top of
/// `trees`. A file that the root asks to be opened is dealt with by root
/// and node together, as `exchange` says. Any other request ends the run.
pub open spec fn run(w: World, trees: Seq<Tree>, config: &Config, src: Source, fuel: nat) -> World
    decreases fuel,
{
    if fuel > 0 && (w.said.next is ListDir || w.said.next is OpenFile) {
        let (next, next_trees) = next_world(w, trees, config, src);
        run(next, next_trees, config, src, (fuel - 1) as nat)
    } else {
        w
    }
}

/// Whether the world is at a point between two requests of a transfer of
/// the whole module, with the walk of the root in step with `trees`.
pub open spec fn steady(w: World, trees: Seq<Tree>) -> bool {
    &&& w.root.wf()
    &&& w.node.wf()
    &&& w.node.stage == NodeStage::Idle
    &&& w.node.syncing
    &&& match w.said.next {
        RootRequestView::ListDir { parts } => w.root.stage == RootStage::Listing && sync_follows(
            w.root,
            trees,
        ) && w.root.walk->0.listing is Some,
        RootRequestView::OpenFile { parts } => w.root.stage == RootStage::Hashing
            && w.root.current == Some(parts) && sync_follows(w.root, trees)
            && w.root.walk->0.listing is None,
        _ => w.root.stage == RootStage::SyncClosing && w.said.send == seq![MessageView::EndSync]
            && w.said.next == RootRequestView::Receive,
    }
}

/// The files that are still to be dealt with.
pub open spec fn pending_files(w: World, trees: Seq<Tree>) -> Seq<Seq<Seq<char>>> {
    match w.said.next {
        RootRequestView::ListDir { parts } => to_open(w.root, trees),
        RootRequestView::OpenFile { parts } => seq![parts] + to_open(w.root, trees),
        _ => seq![],
    }
}

/// How many requests of the root the transfer will take at most.
pub open spec fn effort(w: World, trees: Seq<Tree>) -> nat {
    weight(trees) + if w.said.next is OpenFile {
        1nat
    } else {
        0nat
    }
}

/// Whether the file at `parts` can be delivered to a node that holds
/// `disk`: its size can be declared, its header can be sent, and the file
/// that the node holds at its path, if it holds one with the same digest,
/// is the same file.
pub open spec fn deliverable(parts: Seq<Seq<char>>, disk: Disk, src: Source) -> bool {
    let content = (src.contents)(parts);
    let path = joined_path(parts);
    &&& content.len() <= u64::MAX
    &&& (MessageView::FileHeader {
        path,
        hash: digest_hex(content),
        cert: (src.certs)(parts),
    }).encodable()
    &&& disk.dom().contains(path) && digest_hex(disk[path]) == digest_hex(content) ==> disk[path]
        == content
}

/// Whether all of `files` can be delivered, and no two of them lie at the
/// same path.
pub open spec fn all_deliverable(files: Seq<Seq<Seq<char>>>, disk: Disk, src: Source) -> bool {
    &&& forall|i: int| 0 <= i < files.len() ==> deliverable(#[trigger] files[i], disk, src)
    &&& forall|i: int, j: int|
        0 <= i < j < files.len() ==> joined_path(#[trigger] files[i]) != joined_path(
            #[trigger] files[j],
        )
}

/// Whether one of `files` lies at `path`.
pub open spec fn covers(files: Seq<Seq<Seq<char>>>, path: Seq<char>) -> bool {
    exists|i: int| 0 <= i < files.len() && joined_path(#[trigger] files[i]) == path
}

/// Whether `disk` holds at `path` what `before` holds there.
pub open spec fn untouched(disk: Disk, before: Disk, path: Seq<char>) -> bool {
    disk.dom().contains(path) == before.dom().contains(path) && (before.dom().contains(path)
        ==> disk[path] == before[path])
}

/// Whether `disk` holds the file at `parts` with the content that the
/// root has.
pub open spec fn mirrored(disk: Disk, parts: Seq<Seq<char>>, src: Source) -> bool {
    disk.dom().contains(joined_path(parts)) && disk[joined_path(parts)] == (src.contents)(parts)
}

/// Whether the node holds each of `files` with the content that the root
/// has, and all else as `before`.
pub open spec fn mirrors(
    disk: Disk,
    before: Disk,
    files: Seq<Seq<Seq<char>>>,
    src: Source,
) -> bool {
    &&& forall|i: int| 0 <= i < files.len() ==> mirrored(disk, #[trigger] files[i], src)
    &&& forall|path: Seq<char>| !covers(files, path) ==> #[trigger] untouched(disk, before, path)
}

/// The world after the next request of the root was dealt with, and the
/// trees that the walk of the root is then in step with.
pub open spec fn next_world(w: World, trees: Seq<Tree>, config: &Config, src: Source) -> (
    World,
    Seq<Tree>,
) {
    match w.said.next {
        RootRequestView::ListDir { parts } => {
            let after = w.root.step(
                config,
                RootEventView::Listed { entries: listing(trees.last().entries()) },
            );
            let held = trees.drop_last() + taken_up(trees.last().entries(), 0).reverse();
            (World { root: after.0, said: after.1, ..w }, in_step(held, after.1))
        },
        RootRequestView::OpenFile { parts } => {
            let (root, said, node, disk) = exchange(
                w.root,
                w.node,
                w.disk,
                config,
                (src.contents)(parts),
                (src.certs)(parts),
                (src.cuts)(parts),
            );
            (World { root, said, node, disk }, in_step(trees, said))
        },
        _ => (w, trees),
    }
}

proof fn lemma_list_step(w: World, trees: Seq<Tree>, config: &Config, src: Source)
    requires
        steady(w, trees),
        w.said.next is ListDir,
    ensures
        ({
            let (next, next_trees) = next_world(w, trees, config, src);
            &&& steady(next, next_trees)
            &&& pending_files(next, next_trees) == pending_files(w, trees)
            &&& effort(next, next_trees) < effort(w, trees)
            &&& next.disk == w.disk
        }),
{
    let dir = trees.last();
    let e = RootEventView::Listed { entries: listing(dir.entries()) };
    let after = w.root.step(config, e);
    let held = trees.drop_last() + taken_up(dir.entries(), 0).reverse();
    lemma_sync_goes_on(w.root, config, trees, e);
    lemma_step_sound(w.root, config, e);
    lemma_weight_concat(trees.drop_last(), taken_up(dir.entries(), 0).reverse());
    lemma_weight_reverse(taken_up(dir.entries(), 0));
    lemma_weight_taken_up(dir.entries(), 0);
    let (next, next_trees) = next_world(w, trees, config, src);
    assert(goes_on(to_open(w.root, trees), held, after));
    assert(weight(held) < weight(trees));
    assert(pending_files(next, next_trees) =~= pending_files(w, trees));
}

proof fn lemma_file_step(w: World, trees: Seq<Tree>, config: &Config, src: Source)
    requires
        steady(w, trees),
        w.said.next is OpenFile,
        deliverable(w.said.next->OpenFile_parts, w.disk, src),
    ensures
        ({
            let (next, next_trees) = next_world(w, trees, config, src);
            let parts = w.said.next->OpenFile_parts;
            &&& steady(next, next_trees)
            &&& pending_files(next, next_trees) == to_open(w.root, trees)
            &&& effort(next, next_trees) < effort(w, trees)
            &&& mirrors(next.disk, w.disk, seq![parts], src)
        }),
{
    let parts = w.said.next->OpenFile_parts;
    lemma_exchange_delivers(
        w.root,
        w.node,
        w.disk,
        config,
        trees,
        (src.contents)(parts),
        (src.certs)(parts),
        (src.cuts)(parts),
    );
    let (next, next_trees) = next_world(w, trees, config, src);
    let later = to_open(w.root, trees);
    assert(goes_on(later, trees, (next.root, next.said)));
    match next.said.next {
        RootRequestView::OpenFile { parts: first } => {
            assert(pending_files(next, next_trees) =~= later);
        },
        _ => {},
    }
    let path = joined_path(parts);
    assert forall|other: Seq<char>| !covers(seq![parts], other) implies #[trigger] untouched(
        next.disk,
        w.disk,
        other,
    ) by {
        if path == other {
            assert(joined_path(seq![parts][0]) == other);
        }
    }
}

/// What was mirrored first stays mirrored when more is mirrored after it
/// at other paths.
proof fn lemma_mirrors_more(
    end: Disk,
    mid: Disk,
    before: Disk,
    first: Seq<Seq<char>>,
    later: Seq<Seq<Seq<char>>>,
    src: Source,
)
    requires
        mirrors(mid, before, seq![first], src),
        mirrors(end, mid, later, src),
        forall|k: int| 0 <= k < later.len() ==> joined_path(#[trigger] later[k]) != joined_path(
            first,
        ),
    ensures
        mirrors(end, before, seq![first] + later, src),
{
    let files = seq![first] + later;
    let path = joined_path(first);
    assert(mirrored(mid, seq![first][0], src));
    assert(untouched(end, mid, path));
    assert forall|i: int| 0 <= i < files.len() implies mirrored(end, #[trigger] files[i], src) by {
        if i > 0 {
            assert(files[i] == later[i - 1]);
        }
    }
    assert forall|other: Seq<char>| !covers(files, other) implies #[trigger] untouched(
        end,
        before,
        other,
    ) by {
        if covers(later, other) {
            let k = choose|k: int| 0 <= k < later.len() && joined_path(#[trigger] later[k]) == other;
            assert(joined_path(files[k + 1]) == other);
        }
        if covers(seq![first], other) {
            assert(joined_path(files[0]) == other);
        }
        assert(untouched(end, mid, other));
        assert(untouched(mid, before, other));
    }
}

/// Files that can be delivered to a node can still be delivered when the
/// node has been given another file at another path.
proof fn lemma_still_deliverable(
    files: Seq<Seq<Seq<char>>>,
    disk: Disk,
    next: Disk,
    src: Source,
)
    requires
        files.len() > 0,
        all_deliverable(files, disk, src),
        mirrors(next, disk, seq![files[0]], src),
    ensures
        all_deliverable(files.drop_first(), next, src),
        forall|k: int|
            0 <= k < files.drop_first().len() ==> joined_path(#[trigger] files.drop_first()[k])
                != joined_path(files[0]),
{
    let later = files.drop_first();
    assert forall|k: int| 0 <= k < later.len() implies joined_path(#[trigger] later[k])
        != joined_path(files[0]) by {
        assert(later[k] == files[k + 1]);
        assert(joined_path(files[0]) != joined_path(files[k + 1]));
    }
    assert forall|i: int| 0 <= i < later.len() implies deliverable(
        #[trigger] later[i],
        next,
        src,
    ) by {
        assert(later[i] == files[i + 1]);
        assert(deliverable(files[i + 1], disk, src));
        let path = joined_path(later[i]);
        assert(untouched(next, disk, path));
    }
    assert forall|i: int, j: int| 0 <= i < j < later.len() implies joined_path(
        #[trigger] later[i],
    ) != joined_path(#[trigger] later[j]) by {
        assert(later[i] == files[i + 1]);
        assert(later[j] == files[j + 1]);
    }
}

/// A run goes from request to request.
proof fn lemma_run_unfolds(w: World, trees: Seq<Tree>, config: &Config, src: Source, fuel: nat)
    requires
        fuel > 0,
    ensures
        run(w, trees, config, src, fuel) == if w.said.next is ListDir || w.said.next is OpenFile {
            run(
                next_world(w, trees, config, src).0,
                next_world(w, trees, config, src).1,
                config,
                src,
                (fuel - 1) as nat,
            )
        } else {
            w
        },
{
}

/// A transfer that is under way comes to its end, and at its end the node
/// holds every file that was still to be dealt with, with the content
/// that the root has, and every other file as before.
pub proof fn lemma_run_converges(
    w: World,
    trees: Seq<Tree>,
    config: &Config,
    src: Source,
    fuel: nat,
)
    requires
        steady(w, trees),
        all_deliverable(pending_files(w, trees), w.disk, src),
        fuel >= effort(w, trees),
    ensures
        ({
            let end = run(w, trees, config, src, fuel);
            &&& end.root.wf()
            &&& end.root.stage == RootStage::SyncClosing
            &&& end.said.send == seq![MessageView::EndSync]
            &&& end.said.next == RootRequestView::Receive
            &&& end.node.wf()
            &&& end.node.stage == NodeStage::Idle
            &&& end.node.syncing
            &&& mirrors(end.disk, w.disk, pending_files(w, trees), src)
        }),
    decreases fuel,
{
    let files = pending_files(w, trees);
    let (next, next_trees) = next_world(w, trees, config, src);
    if w.said.next is ListDir {
        lemma_list_step(w, trees, config, src);
        lemma_run_unfolds(w, trees, config, src, fuel);
        lemma_run_converges(next, next_trees, config, src, (fuel - 1) as nat);
    } else if w.said.next is OpenFile {
        assert(files[0] == w.said.next->OpenFile_parts);
        assert(deliverable(files[0], w.disk, src));
        lemma_file_step(w, trees, config, src);
        lemma_run_unfolds(w, trees, config, src, fuel);
        assert(files.drop_first() =~= to_open(w.root, trees));
        lemma_still_deliverable(files, w.disk, next.disk, src);
        lemma_run_converges(next, next_trees, config, src, (fuel - 1) as nat);
        let end = run(w, trees, config, src, fuel);
        lemma_mirrors_more(end.disk, next.disk, w.disk, files[0], files.drop_first(), src);
        assert(seq![files[0]] + files.drop_first() =~= files);
    } else {
        assert(files =~= Seq::empty());
    }
}

/// A transfer of the whole module makes the copy of the node like the
/// module of the root.
///
/// Let a root have announced the transfer of a module with `BeginSync`,
/// and let the node, which holds `disk`, have taken the announcement. Let
/// every file of the module be deliverable, and no two lie at the same
/// path. Then the root, told that the node has acknowledged, runs through
/// the module and ends the transfer with `EndSync`; and the node then
/// holds every file of the module with the content that the root has, and
/// every other file as before.
pub proof fn lemma_full_sync_converges(
    root: RootSessionView,
    node: NodeSessionView,
    disk: Disk,
    module: Tree,
    config: &Config,
    src: Source,
)
    requires
        root.wf(),
        root.stage == RootStage::SyncOffered,
        node.wf(),
        node.stage == NodeStage::Idle,
        !node.syncing,
        module is Dir,
        all_deliverable(module_files(module.entries()), disk, src),
    ensures
        ({
            let (node1, answer) = node.step(NodeEventView::Received(MessageView::BeginSync));
            let (root1, said) = root.step(config, RootEventView::Received(MessageView::Okay));
            let end = run(
                World { root: root1, said, node: node1, disk },
                seq![module],
                config,
                src,
                size_of(module),
            );
            &&& answer.send == seq![MessageView::Okay]
            &&& end.said.send == seq![MessageView::EndSync]
            &&& end.root.stage == RootStage::SyncClosing
            &&& end.node.stage == NodeStage::Idle
            &&& mirrors(end.disk, disk, module_files(module.entries()), src)
        }),
{
    let (node1, answer) = node.step(NodeEventView::Received(MessageView::BeginSync));
    let (root1, said) = root.step(config, RootEventView::Received(MessageView::Okay));
    lemma_sync_begins(root, config, module);
    lemma_step_sound(root, config, RootEventView::Received(MessageView::Okay));
    lemma_weight_one(module);
    let w = World { root: root1, said, node: node1, disk };
    assert(root1.walk->0.listing is Some);
    assert(steady(w, seq![module]));
    lemma_run_converges(w, seq![module], config, src, size_of(module));
}

} // verus!
