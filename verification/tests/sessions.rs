//! A root session and a node session talking to each other over a byte
//! stream held in memory, each with a disk held in memory.

use mirra::config::{Config, RootShare, RootSync};
use mirra::error::ErrorKind;
use mirra::hash::hash_bytes;
use mirra::keys::certificate;
use mirra::node::{NodeEvent, NodeRequest, NodeSession, NodeStage};
use mirra::packet::{Message, Packet, PacketKind};
use mirra::path::join_parts;
use mirra::root::{Change, RootEvent, RootRequest, RootSession, RootStage};
use mirra::walk::{DirEntry, EntryKind};
use mirra::wire::DecodeError;
use std::collections::{BTreeMap, BTreeSet, VecDeque};

type Disk = BTreeMap<String, Vec<u8>>;

fn disk(files: &[(&str, &str)]) -> Disk {
    files.iter().map(|(p, c)| (p.to_string(), c.as_bytes().to_vec())).collect()
}

fn list(disk: &Disk, parts: &[String]) -> Vec<DirEntry> {
    let prefix = if parts.is_empty() { String::new() } else { format!("{}/", parts.join("/")) };
    let mut seen = BTreeSet::new();
    let mut out = Vec::new();
    for path in disk.keys() {
        if let Some(rest) = path.strip_prefix(&prefix) {
            let (name, kind) = match rest.split_once('/') {
                Some((dir, _)) => (dir.to_string(), EntryKind::Dir),
                None => (rest.to_string(), EntryKind::File),
            };
            if seen.insert(name.clone()) {
                out.push(DirEntry { name, kind });
            }
        }
    }
    out
}

/// Takes one message from the front of `wire`, if a whole one is there.
fn take_message(wire: &mut VecDeque<u8>) -> Option<Result<Message, ()>> {
    let bytes: Vec<u8> = wire.iter().copied().collect();
    match Message::decode(&bytes) {
        Ok((m, used)) => {
            wire.drain(..used);
            Some(Ok(m))
        }
        Err(DecodeError::Incomplete(_)) => None,
        Err(DecodeError::Invalid) => Some(Err(())),
    }
}

fn put_messages(wire: &mut VecDeque<u8>, log: &mut Vec<PacketKind>, messages: &[Message]) {
    for m in messages {
        log.push(m.kind());
        wire.extend(m.encode().expect("a session sends only what can be encoded"));
    }
}

struct Root {
    session: RootSession,
    config: Config,
    disk: Disk,
    next: RootRequest,
    open: Option<String>,
    changes: VecDeque<Change>,
    now: u64,
    sent: Vec<PacketKind>,
    headers: Vec<String>,
}

struct Node {
    session: NodeSession,
    disk: Disk,
    next: NodeRequest,
    open: Option<String>,
    sent: Vec<PacketKind>,
    removed: Vec<String>,
}

struct World {
    root: Root,
    node: Node,
    to_node: VecDeque<u8>,
    to_root: VecDeque<u8>,
}

impl World {
    fn new(shared: Disk, local: Disk, module: &str) -> World {
        let mut config = Config::new("root".to_string(), 6007);
        config.shares.insert("m".to_string(), RootShare { path: "m".to_string() });
        let sync =
            RootSync { ip: "127.0.0.1".to_string(), port: 6007, path: "copy".to_string() };
        let node_session = NodeSession::new(module.to_string(), sync);
        let first = node_session.begin();
        World {
            root: Root {
                session: RootSession::new(),
                config,
                disk: shared,
                next: RootRequest::Receive,
                open: None,
                changes: VecDeque::new(),
                now: 0,
                sent: Vec::new(),
                headers: Vec::new(),
            },
            node: Node {
                session: node_session,
                disk: local,
                next: first,
                open: None,
                sent: Vec::new(),
                removed: Vec::new(),
            },
            to_node: VecDeque::new(),
            to_root: VecDeque::new(),
        }
    }

    /// Lets the root do what it asked for; false where it has to wait.
    fn root_turn(&mut self) -> bool {
        let root = &mut self.root;
        let event = match &root.next {
            RootRequest::Finish(_) => return false,
            RootRequest::Receive => match take_message(&mut self.to_root) {
                Some(Ok(m)) => RootEvent::Received(m),
                Some(Err(())) => RootEvent::Garbled,
                None => return false,
            },
            RootRequest::Resolve { path } => RootEvent::Resolved { dir: format!("/srv/{}", path) },
            RootRequest::ListDir { parts } => RootEvent::Listed { entries: list(&root.disk, parts) },
            RootRequest::OpenFile { parts } => {
                let path = join_parts(parts);
                match root.disk.get(&path) {
                    Some(content) => {
                        let hash = hash_bytes(content);
                        let cert = certificate(hash.as_bytes()).unwrap();
                        root.open = Some(path);
                        RootEvent::Hashed { hash, cert }
                    }
                    None => RootEvent::Failed,
                }
            }
            RootRequest::StatFile => {
                let path = root.open.as_ref().expect("a file is open");
                RootEvent::Sized { size: root.disk[path].len() as u64 }
            }
            RootRequest::StreamContent => {
                let path = root.open.as_ref().expect("a file is open");
                self.to_node.extend(root.disk[path].iter().copied());
                RootEvent::ContentSent
            }
            RootRequest::Watch => RootEvent::Watching { now: root.now },
            RootRequest::Poll => match root.changes.pop_front() {
                Some(change) => RootEvent::Changed(change),
                None => return false,
            },
        };
        let step = root.session.step(&root.config, event);
        if step.release {
            root.open = None;
        }
        for m in &step.send {
            if let Message::FileHeader { path, .. } = m {
                root.headers.push(path.clone());
            }
        }
        put_messages(&mut self.to_node, &mut root.sent, &step.send);
        root.next = step.next;
        true
    }

    /// Tells the root that the watch saw nothing, at the time `now`.
    fn root_idle(&mut self, now: u64) {
        let root = &mut self.root;
        assert!(matches!(root.next, RootRequest::Poll));
        root.now = now;
        let step = root.session.step(&root.config, RootEvent::Idle { now });
        put_messages(&mut self.to_node, &mut root.sent, &step.send);
        root.next = step.next;
    }

    /// Lets the node do what it asked for; false where it has to wait.
    fn node_turn(&mut self) -> bool {
        let node = &mut self.node;
        let event = match &node.next {
            NodeRequest::Finish(_) => return false,
            NodeRequest::Connect { .. } => NodeEvent::Connected,
            NodeRequest::Receive => match take_message(&mut self.to_node) {
                Some(Ok(m)) => NodeEvent::Received(m),
                Some(Err(())) => NodeEvent::Garbled,
                None => return false,
            },
            NodeRequest::EnsureDir { .. } => NodeEvent::DirReady,
            NodeRequest::HashLocal { path } => {
                NodeEvent::LocalDigest(node.disk.get(path).map(|content| hash_bytes(content)))
            }
            NodeRequest::CreateFile { path } => {
                node.disk.insert(path.clone(), Vec::new());
                node.open = Some(path.clone());
                NodeEvent::FileReady
            }
            NodeRequest::ReadContent { max } => {
                let n = (*max).min(self.to_node.len());
                let chunk: Vec<u8> = self.to_node.drain(..n).collect();
                let path = node.open.as_ref().expect("a file is open");
                node.disk.get_mut(path).unwrap().extend(chunk);
                NodeEvent::Chunk { read: n }
            }
            NodeRequest::RemoveFile { path } => {
                node.removed.push(path.clone());
                NodeEvent::Applied { ok: node.disk.remove(path).is_some() }
            }
            NodeRequest::RenameFile { from, to } => match node.disk.remove(from) {
                Some(content) => {
                    node.disk.insert(to.clone(), content);
                    NodeEvent::Applied { ok: true }
                }
                None => NodeEvent::Applied { ok: false },
            },
        };
        let step = node.session.step(event);
        if step.release {
            node.open = None;
        }
        put_messages(&mut self.to_root, &mut node.sent, &step.send);
        node.next = step.next;
        true
    }

    /// Runs both sides until each waits for something that does not come.
    fn settle(&mut self) {
        for _ in 0..10_000 {
            let a = self.root_turn();
            let b = self.node_turn();
            if !a && !b {
                return;
            }
        }
        panic!("the sessions do not come to rest");
    }
}

fn parts(path: &str) -> Vec<String> {
    path.split('/').map(|s| s.to_string()).collect()
}

fn count(log: &[PacketKind], kind: PacketKind) -> usize {
    log.iter().filter(|k| **k == kind).count()
}

#[test]
fn fresh_full_sync() {
    let shared = disk(&[("a.txt", "hello"), ("sub/b.txt", "world")]);
    let mut world = World::new(shared.clone(), Disk::new(), "m");
    world.settle();
    assert_eq!(world.node.disk, shared);
    assert_eq!(world.root.session.stage(), RootStage::Polling);
    assert_eq!(world.node.session.stage(), NodeStage::Idle);
    assert_eq!(world.root.session.dir().map(|d| d.as_str()), Some("/srv/m"));
    assert_eq!(world.root.headers, vec!["a.txt".to_string(), "sub/b.txt".to_string()]);
    assert_eq!(
        world.root.sent,
        vec![
            PacketKind::Okay,
            PacketKind::BeginSync,
            PacketKind::FileHeader,
            PacketKind::File,
            PacketKind::FileHeader,
            PacketKind::File,
            PacketKind::EndSync,
        ]
    );
    assert!(world.to_node.is_empty() && world.to_root.is_empty());
}

#[test]
fn skip_on_identical() {
    let shared = disk(&[("a.txt", "hello"), ("sub/b.txt", "world")]);
    let mut world = World::new(shared.clone(), disk(&[("a.txt", "hello")]), "m");
    world.settle();
    assert_eq!(world.node.disk, shared);
    assert_eq!(count(&world.root.sent, PacketKind::FileHeader), 2);
    assert_eq!(count(&world.root.sent, PacketKind::File), 1);
    assert_eq!(count(&world.node.sent, PacketKind::Skip), 1);
    // The one reply to the header of a.txt is the Skip.
    assert_eq!(
        world.node.sent,
        vec![
            PacketKind::Handshake,
            PacketKind::Okay,
            PacketKind::Skip,
            PacketKind::Okay,
            PacketKind::Okay,
            PacketKind::Okay,
        ]
    );
}

#[test]
fn stale_copy_is_replaced() {
    let shared = disk(&[("a.txt", "hello")]);
    let mut world = World::new(shared.clone(), disk(&[("a.txt", "a longer, older text")]), "m");
    world.settle();
    assert_eq!(world.node.disk, shared);
    assert_eq!(count(&world.node.sent, PacketKind::Skip), 0);
}

#[test]
fn live_create() {
    let mut world = World::new(disk(&[("a.txt", "hello")]), Disk::new(), "m");
    world.settle();
    world.root.disk.insert("c.txt".to_string(), b"c".to_vec());
    world.root.changes.push_back(Change::Create { parts: parts("c.txt") });
    world.settle();
    assert_eq!(world.node.disk.get("c.txt"), Some(&b"c".to_vec()));
    assert_eq!(world.node.disk, world.root.disk);
    assert_eq!(world.root.session.stage(), RootStage::Polling);
}

#[test]
fn live_write() {
    let mut world = World::new(disk(&[("a.txt", "hello")]), Disk::new(), "m");
    world.settle();
    world.root.disk.insert("a.txt".to_string(), b"bye".to_vec());
    world.root.changes.push_back(Change::Write { parts: parts("a.txt") });
    world.settle();
    assert_eq!(world.node.disk.get("a.txt"), Some(&b"bye".to_vec()));
}

#[test]
fn live_rename() {
    let mut world = World::new(disk(&[("a.txt", "hello"), ("sub/b.txt", "world")]), Disk::new(), "m");
    world.settle();
    let content = world.root.disk.remove("a.txt").unwrap();
    world.root.disk.insert("a2.txt".to_string(), content);
    world.root.changes.push_back(Change::Rename { from: parts("a.txt"), to: parts("a2.txt") });
    world.settle();
    assert!(world.node.disk.contains_key("a2.txt"));
    assert!(!world.node.disk.contains_key("a.txt"));
    assert_eq!(world.node.disk, world.root.disk);
}

#[test]
fn live_remove() {
    let mut world = World::new(disk(&[("a.txt", "hello"), ("sub/b.txt", "world")]), Disk::new(), "m");
    world.settle();
    world.root.disk.remove("sub/b.txt");
    world.root.changes.push_back(Change::Remove { parts: parts("sub/b.txt") });
    world.settle();
    assert!(!world.node.disk.contains_key("sub/b.txt"));
    assert_eq!(world.node.removed, vec!["sub/b.txt".to_string()]);
    assert_eq!(world.node.disk, world.root.disk);
}

#[test]
fn remove_of_a_missing_file_is_no_failure() {
    let mut world = World::new(disk(&[("a.txt", "hello")]), Disk::new(), "m");
    world.settle();
    world.root.changes.push_back(Change::Remove { parts: parts("never/there.txt") });
    world.settle();
    assert_eq!(world.node.session.stage(), NodeStage::Idle);
    assert_eq!(world.root.session.stage(), RootStage::Polling);
}

#[test]
fn rescan_sends_the_module_again() {
    let mut world = World::new(disk(&[("a.txt", "hello")]), Disk::new(), "m");
    world.settle();
    world.root.disk.insert("late.txt".to_string(), b"late".to_vec());
    world.root.changes.push_back(Change::Rescan);
    world.settle();
    assert_eq!(world.node.disk, world.root.disk);
    assert_eq!(count(&world.root.sent, PacketKind::BeginSync), 2);
    assert_eq!(count(&world.root.sent, PacketKind::File), 2);
    // a.txt was there already and is skipped the second time.
    assert_eq!(count(&world.node.sent, PacketKind::Skip), 1);
    assert_eq!(world.root.session.stage(), RootStage::Polling);
}

#[test]
fn module_not_found() {
    let mut world = World::new(disk(&[("a.txt", "hello")]), Disk::new(), "nope");
    world.settle();
    assert_eq!(world.root.sent, vec![PacketKind::NotFound, PacketKind::Close]);
    assert_eq!(world.node.sent, vec![PacketKind::Handshake, PacketKind::Close]);
    assert!(matches!(world.node.next, NodeRequest::Finish(Err(ErrorKind::InvalidInput))));
    assert!(matches!(world.root.next, RootRequest::Finish(Ok(()))));
    assert!(world.node.disk.is_empty());
}

#[test]
fn control_directory_is_never_sent() {
    let shared = disk(&[
        ("a.txt", "hello"),
        (".mirra/Mirra.toml", "name = \"x\""),
        ("sub/.mirra/private.key", "secret"),
        ("sub/b.txt", "world"),
    ]);
    let mut world = World::new(shared, Disk::new(), "m");
    world.settle();
    assert_eq!(world.node.disk, disk(&[("a.txt", "hello"), ("sub/b.txt", "world")]));
    assert!(world.root.headers.iter().all(|p| !p.contains(".mirra")));
    // Changes below a control directory are passed over as well.
    world.root.changes.push_back(Change::Write { parts: parts(".mirra/Mirra.toml") });
    world.root.changes.push_back(Change::Remove { parts: parts("sub/.mirra/private.key") });
    world.root.changes.push_back(Change::Rename {
        from: parts("a.txt"),
        to: parts(".mirra/a.txt"),
    });
    let before = world.root.sent.len();
    world.settle();
    assert_eq!(world.root.sent.len(), before);
    assert_eq!(world.root.session.stage(), RootStage::Polling);
}

#[test]
fn heartbeat_after_twenty_seconds() {
    let mut world = World::new(disk(&[("a.txt", "hello")]), Disk::new(), "m");
    world.settle();
    let before = world.root.sent.len();
    world.root_idle(20_000);
    assert_eq!(world.root.sent.len(), before);
    assert_eq!(world.root.session.stage(), RootStage::Polling);
    world.root_idle(20_001);
    assert_eq!(world.root.sent.last(), Some(&PacketKind::Heartbeat));
    assert_eq!(world.root.session.stage(), RootStage::Probing);
    world.settle();
    assert_eq!(world.node.sent.last(), Some(&PacketKind::Okay));
    assert_eq!(world.root.session.stage(), RootStage::Polling);
    // The interval starts anew with each heartbeat.
    world.root_idle(40_001);
    assert_eq!(count(&world.root.sent, PacketKind::Heartbeat), 1);
    world.root_idle(40_002);
    assert_eq!(count(&world.root.sent, PacketKind::Heartbeat), 2);
}

#[test]
fn empty_file_is_transferred() {
    let shared = disk(&[("empty", "")]);
    let mut world = World::new(shared.clone(), Disk::new(), "m");
    world.settle();
    assert_eq!(world.node.disk, shared);
    assert_eq!(count(&world.root.sent, PacketKind::File), 1);
}

#[test]
fn large_file_is_read_in_chunks() {
    let content: String = "0123456789abcdef".repeat(1000);
    let shared = disk(&[("big.bin", content.as_str())]);
    let mut world = World::new(shared.clone(), Disk::new(), "m");
    world.settle();
    assert_eq!(world.node.disk["big.bin"].len(), 16_000);
    assert_eq!(world.node.disk, shared);
}
