//! What holds of a root and a node that talk to each other.
//!
//! Each session is specified by itself in `root` and `node`. Here the two
//! are put side by side, and the exchange about one file is followed from
//! the header to its end.

use crate::config::Config;
use crate::hash::digest_hex;
use crate::node::{
    lemma_node_step_sound, NodeEventView, NodeRequestView, NodeSessionView, NodeStage,
    NodeStepView,
};
use crate::packet::MessageView;
use crate::path::joined_path;
use crate::root::{
    lemma_step_sound, ChangeView, RootEventView, RootRequestView, RootSessionView, RootStage,
    RootStepView,
};
use crate::tree::{
    follows, left_to_name, lemma_walk_next, lemma_walk_starts_with_all, lemma_walk_told, listing,
    module_files, taken_up, Tree,
};
use crate::walk::{clean, lemma_clean_is_safe, WalkerView};
use vstd::prelude::*;

verus! {

/// The header that a root sends for the file it has just hashed.
pub open spec fn header_of(root: RootSessionView, hash: Seq<char>, cert: Seq<char>) -> MessageView {
    MessageView::FileHeader { path: joined_path(root.current->0), hash, cert }
}

/// A file that the node already has is announced and not sent.
///
/// Let a root have hashed a file with the content `content`, and let a
/// node that waits for a message hold, at the path of that file, a file
/// with the same content. Then the root sends exactly the header of the
/// file; the node asks for the digest of its own file and, told it,
/// answers `Skip` without having anything written; and the root, told
/// the `Skip`, lets go of the file and goes on without a `File` message
/// and without another header for it.
pub proof fn lemma_identical_file_is_skipped(
    root: RootSessionView,
    node: NodeSessionView,
    config: &Config,
    content: Seq<u8>,
    local: Seq<u8>,
    cert: Seq<char>,
)
    requires
        root.wf(),
        root.stage == RootStage::Hashing,
        node.wf(),
        node.stage == NodeStage::Idle,
        local == content,
        header_of(root, digest_hex(content), cert).encodable(),
    ensures
        ({
            let header = header_of(root, digest_hex(content), cert);
            let path = joined_path(root.current->0);
            let (root1, sent1) = root.step(
                config,
                RootEventView::Hashed { hash: digest_hex(content), cert },
            );
            let (node1, asked1) = node.step(NodeEventView::Received(header));
            let (node2, answer) = node1.step(NodeEventView::LocalDigest(Some(digest_hex(local))));
            let (root2, sent2) = root1.step(config, RootEventView::Received(MessageView::Skip));
            &&& sent1.send == seq![header]
            &&& root1.stage == RootStage::Offered
            &&& asked1.send == Seq::<MessageView>::empty()
            &&& asked1.next == NodeRequestView::HashLocal { path }
            &&& answer.send == seq![MessageView::Skip]
            &&& answer.next == NodeRequestView::Receive
            &&& !answer.release
            &&& node2.stage == NodeStage::Idle
            &&& node2.syncing == node.syncing
            &&& sent2.release
            &&& forall|i: int|
                0 <= i < sent2.send.len() ==> !(sent2.send[i] is File) && !(sent2.send[i]
                    is FileHeader)
            &&& root2.stage != RootStage::Sizing && root2.stage != RootStage::Streaming
        }),
{
    lemma_clean_is_safe(root.current->0);
}

/// A file that the node lacks, or holds with another digest, is asked
/// for: the node answers the header with `Okay` and has the file opened
/// for writing, and the root, told the `Okay` and then the size of its
/// file, announces that many bytes of content.
pub proof fn lemma_differing_file_is_sent(
    root: RootSessionView,
    node: NodeSessionView,
    config: &Config,
    hash: Seq<char>,
    local: Option<Seq<char>>,
    cert: Seq<char>,
    size: u64,
)
    requires
        root.wf(),
        root.stage == RootStage::Hashing,
        node.wf(),
        node.stage == NodeStage::Idle,
        local != Some(hash),
        header_of(root, hash, cert).encodable(),
    ensures
        ({
            let header = header_of(root, hash, cert);
            let path = joined_path(root.current->0);
            let (root1, sent1) = root.step(config, RootEventView::Hashed { hash, cert });
            let (node1, asked1) = node.step(NodeEventView::Received(header));
            let (node2, answer) = node1.step(NodeEventView::LocalDigest(local));
            let (root2, sent2) = root1.step(config, RootEventView::Received(MessageView::Okay));
            let (root3, sent3) = root2.step(config, RootEventView::Sized { size });
            let (node3, asked3) = node2.step(NodeEventView::FileReady);
            let (node4, asked4) = node3.step(
                NodeEventView::Received(MessageView::File { size }),
            );
            &&& sent1.send == seq![header]
            &&& answer.send == seq![MessageView::Okay]
            &&& answer.next == NodeRequestView::CreateFile { path }
            &&& sent2.send == Seq::<MessageView>::empty()
            &&& sent3.send == seq![MessageView::File { size }]
            &&& asked3.next == NodeRequestView::Receive
            &&& node4.receiver.declared == size
            &&& node4.receiver.remaining == size
            &&& size > 0 ==> asked4.next == NodeRequestView::ReadContent {
                max: node4.receiver.spec_next_read(),
            }
            &&& size == 0 ==> asked4.send == seq![MessageView::Okay] && asked4.release
        }),
{
    lemma_clean_is_safe(root.current->0);
}

/// Whether the root is sending the whole of a module and its walk is in
/// step with `trees`.
pub open spec fn sync_follows(root: RootSessionView, trees: Seq<Tree>) -> bool {
    root.walk matches Some(w) && follows(w, trees)
}

/// The files that a root which sends the whole of a module has still to
/// open.
pub open spec fn to_open(root: RootSessionView, trees: Seq<Tree>) -> Seq<Seq<Seq<char>>> {
    left_to_name(root.walk->0, trees)
}

/// Whether a step of a root goes on with the files `left`, for a walk in
/// step with `trees`: it opens the first of them and has the others still
/// to open; or it asks for a listing and has the same files still to open;
/// or none is left, and it ends the transfer with `EndSync`.
pub open spec fn goes_on(
    left: Seq<Seq<Seq<char>>>,
    trees: Seq<Tree>,
    after: (RootSessionView, RootStepView),
) -> bool {
    match after.1.next {
        RootRequestView::OpenFile { parts } => {
            &&& left.len() > 0
            &&& left[0] == parts
            &&& trees.len() > 0
            &&& trees.last() is File
            &&& after.0.current == Some(parts)
            &&& after.0.stage == RootStage::Hashing
            &&& after.1.send == Seq::<MessageView>::empty()
            &&& sync_follows(after.0, trees.drop_last())
            &&& to_open(after.0, trees.drop_last()) == left.drop_first()
        },
        RootRequestView::ListDir { parts } => {
            &&& after.0.stage == RootStage::Listing
            &&& after.1.send == Seq::<MessageView>::empty()
            &&& after.0.walk->0.listing is Some
            &&& sync_follows(after.0, trees)
            &&& to_open(after.0, trees) == left
        },
        _ => {
            &&& left.len() == 0
            &&& after.0.walk is None
            &&& after.0.stage == RootStage::SyncClosing
            &&& after.1.send == seq![MessageView::EndSync]
            &&& after.1.next == RootRequestView::Receive
        },
    }
}

proof fn lemma_advance_goes_on(root: RootSessionView, trees: Seq<Tree>, release: bool)
    requires
        sync_follows(root, trees),
        root.walk->0.listing is None,
    ensures
        goes_on(to_open(root, trees), trees, root.advance(release)),
{
    let w = root.walk->0;
    lemma_walk_next(w, trees);
    let left = to_open(root, trees);
    let after = root.advance(release);
    match after.1.next {
        RootRequestView::OpenFile { parts } => {
            assert(left.drop_first() =~= to_open(after.0, trees.drop_last()));
        },
        _ => {},
    }
}

/// A transfer of the whole module begins with all the files of the
/// module still to open: told that the node has acknowledged `BeginSync`,
/// the root asks for the listing of the module directory.
pub proof fn lemma_sync_begins(root: RootSessionView, config: &Config, module: Tree)
    requires
        root.stage == RootStage::SyncOffered,
        module is Dir,
    ensures
        ({
            let after = root.step(config, RootEventView::Received(MessageView::Okay));
            &&& after.1.next == RootRequestView::ListDir { parts: Seq::empty() }
            &&& sync_follows(after.0, seq![module])
            &&& to_open(after.0, seq![module]) == module_files(module.entries())
        }),
{
    let trees = seq![module];
    let started = RootSessionView { walk: Some(WalkerView::start()), ..root };
    lemma_walk_starts_with_all(module);
    lemma_advance_goes_on(started, trees, false);
    let after = started.advance(false);
    assert(WalkerView::start().pending.last().parts =~= Seq::empty());
}

/// The files of a module are opened one by one, depth first, and each
/// once.
///
/// Let a root that sends the whole of a module have `left` still to open,
/// with its walk in step with `trees`. Told the listing of the directory
/// it asked for, told that the node skips the file that was offered, or
/// told that the node has acknowledged the content of the file that was
/// sent, the root goes on with `left`.
pub proof fn lemma_sync_goes_on(
    root: RootSessionView,
    config: &Config,
    trees: Seq<Tree>,
    e: RootEventView,
)
    requires
        sync_follows(root, trees),
    ensures
        root.stage == RootStage::Listing && root.walk->0.listing is Some && e == (
        RootEventView::Listed { entries: listing(trees.last().entries()) }) ==> goes_on(
            to_open(root, trees),
            trees.drop_last() + taken_up(trees.last().entries(), 0).reverse(),
            root.step(config, e),
        ),
        root.stage == RootStage::Offered && root.walk->0.listing is None && e
            == RootEventView::Received(MessageView::Skip) ==> goes_on(
            to_open(root, trees),
            trees,
            root.step(config, e),
        ),
        root.stage == RootStage::Delivered && root.walk->0.listing is None && e
            == RootEventView::Received(MessageView::Okay) ==> goes_on(
            to_open(root, trees),
            trees,
            root.step(config, e),
        ),
{
    let w = root.walk->0;
    if root.stage == RootStage::Listing && w.listing is Some && e == (RootEventView::Listed {
        entries: listing(trees.last().entries()),
    }) {
        lemma_walk_told(w, trees);
        let held = trees.drop_last() + taken_up(trees.last().entries(), 0).reverse();
        let told = RootSessionView { walk: Some(w.expand(listing(trees.last().entries()))), ..root };
        lemma_advance_goes_on(told, held, false);
    }
    if w.listing is None {
        lemma_advance_goes_on(root, trees, true);
        lemma_advance_goes_on(root, trees, false);
    }
}

/// While a file is offered and sent, the files still to open stay as they
/// are: a step that neither ends the session nor is one of those that go
/// on with the walk leaves the walk alone.
pub proof fn lemma_file_keeps_walk(root: RootSessionView, config: &Config, e: RootEventView)
    requires
        root.stage == RootStage::Hashing || root.stage == RootStage::Sizing || root.stage
            == RootStage::Streaming || (root.stage == RootStage::Offered && e
            == RootEventView::Received(MessageView::Okay)),
    ensures
        ({
            let after = root.step(config, e);
            after.0.stage != RootStage::Finished ==> after.0.walk == root.walk && after.0.current
                == root.current
        }),
{
}

/// How many bytes a read gives that may take `max` bytes from a stream
/// which holds `have`: as many as `cut` says, where that is at least one
/// and no more than can be had, and else all that can be had.
pub open spec fn read_length(max: usize, have: nat, cut: usize) -> usize {
    let most = if have < max {
        have as usize
    } else {
        max
    };
    if 1 <= cut <= most {
        cut
    } else {
        most
    }
}

/// A node takes the content of a file from a stream.
///
/// The node asks for reads until it has no more to ask for. The stream
/// gives each read some of its bytes from the front, in lengths that
/// `cuts` may choose. The result is the node after the last read, its
/// answer to it, and the bytes that were written, in their order.
pub open spec fn take_content(node: NodeSessionView, stream: Seq<u8>, cuts: Seq<usize>) -> (
    NodeSessionView,
    NodeStepView,
    Seq<u8>,
)
    decreases node.receiver.remaining,
{
    let cut = if cuts.len() > 0 {
        cuts[0]
    } else {
        0
    };
    let read = read_length(node.receiver.spec_next_read(), stream.len(), cut);
    let (after, answer) = node.step(NodeEventView::Chunk { read });
    if answer.next is ReadContent && after.receiver.remaining < node.receiver.remaining && read
        <= stream.len() {
        let (last, said, later) = take_content(
            after,
            stream.skip(read as int),
            if cuts.len() > 0 {
                cuts.drop_first()
            } else {
                cuts
            },
        );
        (last, said, stream.take(read as int) + later)
    } else {
        (after, answer, stream.take(read as int))
    }
}

/// However a stream hands out its bytes, a node that reads a content
/// writes exactly the bytes that were declared, in their order, takes no
/// byte more from the stream, and acknowledges the file when the last of
/// them has come.
pub proof fn lemma_content_arrives(node: NodeSessionView, stream: Seq<u8>, cuts: Seq<usize>)
    requires
        node.wf(),
        node.stage == NodeStage::Receiving,
        0 < node.receiver.remaining <= stream.len(),
    ensures
        ({
            let (last, said, written) = take_content(node, stream, cuts);
            &&& written == stream.take(node.receiver.remaining as int)
            &&& said.send == seq![MessageView::Okay]
            &&& said.release
            &&& said.next == NodeRequestView::Receive
            &&& last.stage == NodeStage::Idle
            &&& last.syncing == node.syncing
            &&& last.receiver.remaining == 0
            &&& last.wf()
        }),
    decreases node.receiver.remaining,
{
    let cut = if cuts.len() > 0 {
        cuts[0]
    } else {
        0
    };
    let read = read_length(node.receiver.spec_next_read(), stream.len(), cut);
    let (after, answer) = node.step(NodeEventView::Chunk { read });
    lemma_node_step_sound(node, NodeEventView::Chunk { read });
    assert(1 <= read <= node.receiver.spec_next_read());
    if answer.next is ReadContent {
        let rest = if cuts.len() > 0 {
            cuts.drop_first()
        } else {
            cuts
        };
        lemma_content_arrives(after, stream.skip(read as int), rest);
        assert(stream.take(read as int) + stream.skip(read as int).take(
            after.receiver.remaining as int,
        ) =~= stream.take(node.receiver.remaining as int));
    }
}

/// The files that a node holds, each under its path below the local
/// directory of the module.
pub type Disk = Map<Seq<char>, Seq<u8>>;

/// A root and a node deal with one file.
///
/// The root has hashed a file with the content `content`; the node waits
/// for a message and holds the files of `disk`. The messages of each side
/// are taken to the other, what the node asks of its disk is answered
/// from `disk`, and the content, where it is sent, comes to the node in
/// reads whose lengths `cuts` may choose. The result is the root and its
/// answer to the last thing it was told, the node, and the disk of the
/// node.
pub open spec fn exchange(
    root: RootSessionView,
    node: NodeSessionView,
    disk: Disk,
    config: &Config,
    content: Seq<u8>,
    cert: Seq<char>,
    cuts: Seq<usize>,
) -> (RootSessionView, RootStepView, NodeSessionView, Disk) {
    let hash = digest_hex(content);
    let path = joined_path(root.current->0);
    let size = content.len() as u64;
    let (root1, _) = root.step(config, RootEventView::Hashed { hash, cert });
    let (node1, _) = node.step(NodeEventView::Received(header_of(root, hash, cert)));
    let local = if disk.dom().contains(path) {
        Some(digest_hex(disk[path]))
    } else {
        None
    };
    let (node2, answer) = node1.step(NodeEventView::LocalDigest(local));
    if answer.send == seq![MessageView::Skip] {
        let (root2, said) = root1.step(config, RootEventView::Received(MessageView::Skip));
        (root2, said, node2, disk)
    } else {
        let (root2, _) = root1.step(config, RootEventView::Received(MessageView::Okay));
        let (root3, _) = root2.step(config, RootEventView::Sized { size });
        let (root4, _) = root3.step(config, RootEventView::ContentSent);
        let (node3, _) = node2.step(NodeEventView::FileReady);
        let (node4, first) = node3.step(NodeEventView::Received(MessageView::File { size }));
        let (node5, written) = if first.next is ReadContent {
            let (last, _, written) = take_content(node4, content, cuts);
            (last, written)
        } else {
            (node4, Seq::<u8>::empty())
        };
        let (root5, said) = root4.step(config, RootEventView::Received(MessageView::Okay));
        (root5, said, node5, disk.insert(path, written))
    }
}

proof fn lemma_root_chain_sound(
    root: RootSessionView,
    config: &Config,
    hash: Seq<char>,
    cert: Seq<char>,
    size: u64,
)
    requires
        root.wf(),
    ensures
        ({
            let (root1, _) = root.step(config, RootEventView::Hashed { hash, cert });
            let (skipped, _) = root1.step(config, RootEventView::Received(MessageView::Skip));
            let (root2, _) = root1.step(config, RootEventView::Received(MessageView::Okay));
            let (root3, _) = root2.step(config, RootEventView::Sized { size });
            let (root4, _) = root3.step(config, RootEventView::ContentSent);
            let (root5, _) = root4.step(config, RootEventView::Received(MessageView::Okay));
            skipped.wf() && root5.wf()
        }),
{
    let (root1, _) = root.step(config, RootEventView::Hashed { hash, cert });
    lemma_step_sound(root, config, RootEventView::Hashed { hash, cert });
    lemma_step_sound(root1, config, RootEventView::Received(MessageView::Skip));
    let (root2, _) = root1.step(config, RootEventView::Received(MessageView::Okay));
    lemma_step_sound(root1, config, RootEventView::Received(MessageView::Okay));
    let (root3, _) = root2.step(config, RootEventView::Sized { size });
    lemma_step_sound(root2, config, RootEventView::Sized { size });
    let (root4, _) = root3.step(config, RootEventView::ContentSent);
    lemma_step_sound(root3, config, RootEventView::ContentSent);
    lemma_step_sound(root4, config, RootEventView::Received(MessageView::Okay));
}

/// After a root and a node have dealt with a file, the node holds it with
/// the content that the root has.
///
/// Let a root that sends the whole of a module have hashed a file with
/// the content `content`, with `left` still to open after it; and let
/// the file that the node holds at its path, if it holds one, either differ
/// from `content` in its digest or be `content`. Then after the exchange
/// the node holds `content` at the path of the file and every other file
/// as before, waits for the next message, and the root goes on with
/// `left`.
pub proof fn lemma_exchange_delivers(
    root: RootSessionView,
    node: NodeSessionView,
    disk: Disk,
    config: &Config,
    trees: Seq<Tree>,
    content: Seq<u8>,
    cert: Seq<char>,
    cuts: Seq<usize>,
)
    requires
        root.wf(),
        root.stage == RootStage::Hashing,
        sync_follows(root, trees),
        root.walk->0.listing is None,
        node.wf(),
        node.stage == NodeStage::Idle,
        content.len() <= u64::MAX,
        header_of(root, digest_hex(content), cert).encodable(),
        disk.dom().contains(joined_path(root.current->0)) && digest_hex(
            disk[joined_path(root.current->0)],
        ) == digest_hex(content) ==> disk[joined_path(root.current->0)] == content,
    ensures
        ({
            let path = joined_path(root.current->0);
            let (root_after, said, node_after, disk_after) = exchange(
                root,
                node,
                disk,
                config,
                content,
                cert,
                cuts,
            );
            &&& disk_after.dom().contains(path)
            &&& disk_after[path] == content
            &&& forall|other: Seq<char>|
                other != path ==> disk_after.dom().contains(other) == disk.dom().contains(other)
                    && (disk.dom().contains(other) ==> disk_after[other] == disk[other])
            &&& node_after.wf()
            &&& node_after.stage == NodeStage::Idle
            &&& node_after.syncing == node.syncing
            &&& root_after.wf()
            &&& goes_on(to_open(root, trees), trees, (root_after, said))
        }),
{
    reveal(exchange);
    let hash = digest_hex(content);
    let path = joined_path(root.current->0);
    let size = content.len() as u64;
    lemma_clean_is_safe(root.current->0);
    lemma_root_chain_sound(root, config, hash, cert, size);
    let local = if disk.dom().contains(path) {
        Some(digest_hex(disk[path]))
    } else {
        None
    };
    let (root1, _) = root.step(config, RootEventView::Hashed { hash, cert });
    let (node1, _) = node.step(NodeEventView::Received(header_of(root, hash, cert)));
    let (node2, answer) = node1.step(NodeEventView::LocalDigest(local));
    lemma_sync_goes_on(root1, config, trees, RootEventView::Received(MessageView::Skip));
    if local != Some(hash) {
        assert(answer.send[0] == MessageView::Okay);
    }
    if answer.send == seq![MessageView::Skip] {
    } else {
        let (root2, _) = root1.step(config, RootEventView::Received(MessageView::Okay));
        let (root3, _) = root2.step(config, RootEventView::Sized { size });
        let (root4, _) = root3.step(config, RootEventView::ContentSent);
        lemma_sync_goes_on(root4, config, trees, RootEventView::Received(MessageView::Okay));
        let (node3, _) = node2.step(NodeEventView::FileReady);
        let (node4, first) = node3.step(NodeEventView::Received(MessageView::File { size }));
        if first.next is ReadContent {
            lemma_content_arrives(node4, content, cuts);
            assert(content.take(content.len() as int) =~= content);
        } else {
            assert(content =~= Seq::<u8>::empty());
        }
    }
}

/// A transfer of the whole module ends when no file is left to open: the
/// node acknowledges `EndSync` and takes single changes again, and the
/// root turns to the watch.
pub proof fn lemma_sync_ends(root: RootSessionView, node: NodeSessionView, config: &Config)
    requires
        root.stage == RootStage::SyncClosing,
        node.stage == NodeStage::Idle,
        node.syncing,
    ensures
        ({
            let (node_after, answer) = node.step(NodeEventView::Received(MessageView::EndSync));
            let (root_after, said) = root.step(
                config,
                RootEventView::Received(MessageView::Okay),
            );
            &&& answer.send == seq![MessageView::Okay]
            &&& answer.next == NodeRequestView::Receive
            &&& node_after.stage == NodeStage::Idle
            &&& !node_after.syncing
            &&& said.send == Seq::<MessageView>::empty()
            &&& said.next == if root.live {
                RootRequestView::Poll
            } else {
                RootRequestView::Watch
            }
        }),
{
}

/// A file that changed while the root watches reaches the node.
///
/// Let a root that watches have hashed a file that was created or written,
/// with the content `content`; and let the file that the node holds at its
/// path, if it holds one, either differ from `content` in its digest or be
/// `content`. Then after the exchange the node holds `content` at the path
/// of the file and every other file as before, waits for the next
/// message, and the root is back at the watch.
pub proof fn lemma_update_delivers(
    root: RootSessionView,
    node: NodeSessionView,
    disk: Disk,
    config: &Config,
    content: Seq<u8>,
    cert: Seq<char>,
    cuts: Seq<usize>,
)
    requires
        root.wf(),
        root.stage == RootStage::Hashing,
        root.walk is None,
        node.wf(),
        node.stage == NodeStage::Idle,
        content.len() <= u64::MAX,
        header_of(root, digest_hex(content), cert).encodable(),
        disk.dom().contains(joined_path(root.current->0)) && digest_hex(
            disk[joined_path(root.current->0)],
        ) == digest_hex(content) ==> disk[joined_path(root.current->0)] == content,
    ensures
        ({
            let path = joined_path(root.current->0);
            let (root_after, said, node_after, disk_after) = exchange(
                root,
                node,
                disk,
                config,
                content,
                cert,
                cuts,
            );
            &&& disk_after.dom().contains(path)
            &&& disk_after[path] == content
            &&& forall|other: Seq<char>|
                other != path ==> disk_after.dom().contains(other) == disk.dom().contains(other)
                    && (disk.dom().contains(other) ==> disk_after[other] == disk[other])
            &&& node_after.wf()
            &&& node_after.stage == NodeStage::Idle
            &&& node_after.syncing == node.syncing
            &&& root_after.wf()
            &&& root_after.stage == RootStage::Polling
            &&& root_after.walk is None
            &&& said.next == RootRequestView::Poll
            &&& said.send == Seq::<MessageView>::empty()
        }),
{
    reveal(exchange);
    let hash = digest_hex(content);
    let path = joined_path(root.current->0);
    let size = content.len() as u64;
    lemma_clean_is_safe(root.current->0);
    lemma_root_chain_sound(root, config, hash, cert, size);
    let local = if disk.dom().contains(path) {
        Some(digest_hex(disk[path]))
    } else {
        None
    };
    let (node1, _) = node.step(NodeEventView::Received(header_of(root, hash, cert)));
    let (node2, answer) = node1.step(NodeEventView::LocalDigest(local));
    if local != Some(hash) {
        assert(answer.send[0] == MessageView::Okay);
    }
    if answer.send == seq![MessageView::Skip] {
    } else {
        let (node3, _) = node2.step(NodeEventView::FileReady);
        let (node4, first) = node3.step(NodeEventView::Received(MessageView::File { size }));
        if first.next is ReadContent {
            lemma_content_arrives(node4, content, cuts);
            assert(content.take(content.len() as int) =~= content);
        } else {
            assert(content =~= Seq::<u8>::empty());
        }
    }
}

/// A change that the watch saw is passed on to the node.
///
/// Let a root watch, and a node wait for a message between transfers of
/// the whole module. A file that was created or written is opened by the
/// root, to be dealt with as `exchange` says. The removal of a file is
/// reported to the node, which acknowledges it and has the file at that
/// path removed; and a renaming likewise. Whether or not the node
/// succeeds, both are then back where they were. A change to a path that
/// is not clean is not passed on.
pub proof fn lemma_change_is_passed_on(
    root: RootSessionView,
    node: NodeSessionView,
    config: &Config,
    c: ChangeView,
    ok: bool,
)
    requires
        root.wf(),
        root.stage == RootStage::Polling,
        node.wf(),
        node.stage == NodeStage::Idle,
        !node.syncing,
    ensures
        ({
            let (root1, said) = root.step(config, RootEventView::Changed(c));
            match c {
                ChangeView::Create { parts } | ChangeView::Write { parts } => if clean(parts)
                    && parts.len() > 0 {
                    &&& said.next == RootRequestView::OpenFile { parts }
                    &&& root1.stage == RootStage::Hashing
                    &&& root1.current == Some(parts)
                    &&& root1.walk == root.walk
                } else {
                    said.next == RootRequestView::Poll && said.send == Seq::<MessageView>::empty()
                },
                ChangeView::Remove { parts } => if clean(parts) && parts.len() > 0 && (
                MessageView::Remove { path: joined_path(parts) }).encodable() {
                    let path = joined_path(parts);
                    let (node1, answer) = node.step(
                        NodeEventView::Received(MessageView::Remove { path }),
                    );
                    let (node2, after) = node1.step(NodeEventView::Applied { ok });
                    let (root2, back) = root1.step(
                        config,
                        RootEventView::Received(MessageView::Okay),
                    );
                    &&& said.send == seq![MessageView::Remove { path }]
                    &&& answer.send == seq![MessageView::Okay]
                    &&& answer.next == NodeRequestView::RemoveFile { path }
                    &&& after.next == NodeRequestView::Receive
                    &&& node2.stage == NodeStage::Idle
                    &&& back.next == RootRequestView::Poll
                    &&& root2.stage == RootStage::Polling
                } else {
                    said.send == Seq::<MessageView>::empty()
                },
                ChangeView::Rename { from, to } => if clean(from) && from.len() > 0 && clean(to)
                    && to.len() > 0 && (MessageView::Rename {
                    old: joined_path(from),
                    new: joined_path(to),
                }).encodable() {
                    let old = joined_path(from);
                    let new = joined_path(to);
                    let (node1, answer) = node.step(
                        NodeEventView::Received(MessageView::Rename { old, new }),
                    );
                    let (node2, after) = node1.step(NodeEventView::Applied { ok });
                    let (root2, back) = root1.step(
                        config,
                        RootEventView::Received(MessageView::Okay),
                    );
                    &&& said.send == seq![MessageView::Rename { old, new }]
                    &&& answer.send == seq![MessageView::Okay]
                    &&& answer.next == NodeRequestView::RenameFile { from: old, to: new }
                    &&& after.next == NodeRequestView::Receive
                    &&& node2.stage == NodeStage::Idle
                    &&& back.next == RootRequestView::Poll
                    &&& root2.stage == RootStage::Polling
                } else {
                    said.send == Seq::<MessageView>::empty()
                },
                ChangeView::Rescan => said.send == seq![MessageView::BeginSync] && root1.stage
                    == RootStage::SyncOffered,
                ChangeView::Other => said.next == RootRequestView::Poll && said.send
                    == Seq::<MessageView>::empty(),
            }
        }),
{
    match c {
        ChangeView::Remove { parts } => {
            if clean(parts) && parts.len() > 0 {
                lemma_clean_is_safe(parts);
            }
        },
        ChangeView::Rename { from, to } => {
            if clean(from) && from.len() > 0 && clean(to) && to.len() > 0 {
                lemma_clean_is_safe(from);
                lemma_clean_is_safe(to);
            }
        },
        _ => {},
    }
}

} // verus!
