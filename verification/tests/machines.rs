//! Single steps of the two sessions.

use mirra::config::{Config, RootShare, RootSync};
use mirra::error::ErrorKind;
use mirra::node::{NodeEvent, NodeRequest, NodeSession, NodeStage, NodeStep};
use mirra::packet::Message;
use mirra::root::{
    Change, RootEvent, RootRequest, RootSession, RootStage, RootStep, HEARTBEAT_MS, POLL_PAUSE_MS,
};
use mirra::walk::{DirEntry, EntryKind};

fn config() -> Config {
    let mut config = Config::new("root".to_string(), 6007);
    config.add_share("docs".to_string(), RootShare { path: "shared/docs".to_string() });
    config.add_sync(
        "pics".to_string(),
        RootSync { ip: "10.0.0.9".to_string(), port: 6007, path: "copies/pics".to_string() },
    );
    config
}

fn names(list: &[&str]) -> Vec<String> {
    list.iter().map(|s| s.to_string()).collect()
}

fn file(name: &str) -> DirEntry {
    DirEntry { name: name.to_string(), kind: EntryKind::File }
}

fn handshake(module: &str) -> RootEvent {
    RootEvent::Received(Message::Handshake { module: module.to_string() })
}

fn hashed() -> RootEvent {
    RootEvent::Hashed { hash: "ab".repeat(32), cert: "c2ln".to_string() }
}

/// A root that has sent the header of `a.txt`, the only file of `docs`.
fn root_offering() -> (RootSession, Config) {
    let config = config();
    let mut root = RootSession::new();
    root.step(&config, handshake("docs"));
    root.step(&config, RootEvent::Resolved { dir: "/abs/docs".to_string() });
    root.step(&config, RootEvent::Received(Message::Okay));
    root.step(&config, RootEvent::Listed { entries: vec![file("a.txt")] });
    let step = root.step(&config, hashed());
    assert_eq!(step.send.len(), 1);
    assert_eq!(root.stage(), RootStage::Offered);
    (root, config)
}

/// A root that watches `docs` since the time 1000.
fn root_watching() -> (RootSession, Config) {
    let (mut root, config) = root_offering();
    root.step(&config, RootEvent::Received(Message::Skip));
    assert_eq!(root.stage(), RootStage::SyncClosing);
    root.step(&config, RootEvent::Received(Message::Okay));
    assert_eq!(root.stage(), RootStage::Arming);
    let step = root.step(&config, RootEvent::Watching { now: 1000 });
    assert!(matches!(step.next, RootRequest::Poll));
    (root, config)
}

fn root_ended(step: &RootStep, with: Result<(), ErrorKind>) -> bool {
    matches!(&step.next, RootRequest::Finish(r) if *r == with) && step.release
}

fn node_ended(step: &NodeStep, with: Result<(), ErrorKind>) -> bool {
    matches!(&step.next, NodeRequest::Finish(r) if *r == with) && step.release
}

#[test]
fn root_handshake_hit() {
    let config = config();
    let mut root = RootSession::new();
    assert_eq!(root.stage(), RootStage::Handshake);
    assert!(root.dir().is_none());
    let step = root.step(&config, handshake("docs"));
    assert!(step.send.is_empty());
    assert!(matches!(&step.next, RootRequest::Resolve { path } if path == "shared/docs"));
    let step = root.step(&config, RootEvent::Resolved { dir: "/abs/docs".to_string() });
    assert_eq!(step.send, vec![Message::Okay, Message::BeginSync]);
    assert!(matches!(step.next, RootRequest::Receive));
    assert_eq!(root.dir().map(|d| d.as_str()), Some("/abs/docs"));
    let step = root.step(&config, RootEvent::Received(Message::Okay));
    assert!(matches!(&step.next, RootRequest::ListDir { parts } if parts.is_empty()));
}

#[test]
fn root_serves_a_sync_as_well() {
    let config = config();
    let mut root = RootSession::new();
    let step = root.step(&config, handshake("pics"));
    assert!(matches!(&step.next, RootRequest::Resolve { path } if path == "copies/pics"));
}

#[test]
fn root_handshake_miss_gives_another_chance() {
    let config = config();
    let mut root = RootSession::new();
    for _ in 0..3 {
        let step = root.step(&config, handshake("nope"));
        assert_eq!(step.send, vec![Message::NotFound]);
        assert!(matches!(step.next, RootRequest::Receive));
        assert_eq!(root.stage(), RootStage::Handshake);
    }
    let step = root.step(&config, handshake("docs"));
    assert!(matches!(step.next, RootRequest::Resolve { .. }));
}

#[test]
fn root_handshake_close_and_violations() {
    let config = config();
    let mut root = RootSession::new();
    let step = root.step(&config, RootEvent::Received(Message::Close));
    assert_eq!(step.send, vec![Message::Close]);
    assert!(root_ended(&step, Ok(())));
    assert_eq!(root.stage(), RootStage::Finished);

    for bad in [Message::Okay, Message::Heartbeat, Message::Skip, Message::File { size: 1 }] {
        let mut root = RootSession::new();
        let step = root.step(&config, RootEvent::Received(bad));
        assert!(step.send.is_empty());
        assert!(root_ended(&step, Err(ErrorKind::InvalidData)));
    }
    let mut root = RootSession::new();
    assert!(root_ended(&root.step(&config, RootEvent::Garbled), Err(ErrorKind::InvalidData)));
}

#[test]
fn root_ends_on_failure_and_stays_ended() {
    let config = config();
    let mut root = RootSession::new();
    root.step(&config, handshake("docs"));
    let step = root.step(&config, RootEvent::Failed);
    assert!(root_ended(&step, Err(ErrorKind::Io)));
    let step = root.step(&config, RootEvent::Received(Message::Okay));
    assert!(root_ended(&step, Err(ErrorKind::Other)));
    let step = root.step(&config, RootEvent::Failed);
    assert!(root_ended(&step, Err(ErrorKind::Other)));
}

#[test]
fn root_does_not_take_what_it_did_not_ask_for() {
    let config = config();
    let mut root = RootSession::new();
    let step = root.step(&config, RootEvent::Idle { now: 5 });
    assert!(root_ended(&step, Err(ErrorKind::Other)));
    let (mut root, config) = root_offering();
    let step = root.step(&config, RootEvent::Sized { size: 3 });
    assert!(root_ended(&step, Err(ErrorKind::Other)));
}

#[test]
fn root_header_names_the_file() {
    let config = config();
    let mut root = RootSession::new();
    root.step(&config, handshake("docs"));
    root.step(&config, RootEvent::Resolved { dir: "/abs/docs".to_string() });
    root.step(&config, RootEvent::Received(Message::Okay));
    let step = root.step(
        &config,
        RootEvent::Listed {
            entries: vec![DirEntry { name: "sub".to_string(), kind: EntryKind::Dir }],
        },
    );
    assert!(matches!(&step.next, RootRequest::ListDir { parts } if *parts == names(&["sub"])));
    let step = root.step(&config, RootEvent::Listed { entries: vec![file("b.txt")] });
    assert!(
        matches!(&step.next, RootRequest::OpenFile { parts } if *parts == names(&["sub", "b.txt"]))
    );
    let step = root.step(&config, hashed());
    assert_eq!(
        step.send,
        vec![Message::FileHeader {
            path: "sub/b.txt".to_string(),
            hash: "ab".repeat(32),
            cert: "c2ln".to_string(),
        }]
    );
    assert!(matches!(step.next, RootRequest::Receive));
}

#[test]
fn root_sends_a_wanted_file() {
    let (mut root, config) = root_offering();
    let step = root.step(&config, RootEvent::Received(Message::Okay));
    assert!(step.send.is_empty() && !step.release);
    assert!(matches!(step.next, RootRequest::StatFile));
    let step = root.step(&config, RootEvent::Sized { size: 12 });
    assert_eq!(step.send, vec![Message::File { size: 12 }]);
    assert!(matches!(step.next, RootRequest::StreamContent));
    let step = root.step(&config, RootEvent::ContentSent);
    assert!(step.release && step.send.is_empty());
    assert!(matches!(step.next, RootRequest::Receive));
    assert_eq!(root.stage(), RootStage::Delivered);
    let step = root.step(&config, RootEvent::Received(Message::Okay));
    assert_eq!(step.send, vec![Message::EndSync]);
    assert_eq!(root.stage(), RootStage::SyncClosing);
}

#[test]
fn root_skips_an_unwanted_file() {
    let (mut root, config) = root_offering();
    let step = root.step(&config, RootEvent::Received(Message::Skip));
    assert!(step.release);
    assert_eq!(step.send, vec![Message::EndSync]);
    assert!(matches!(step.next, RootRequest::Receive));
}

#[test]
fn root_ends_cleanly_when_the_node_closes_on_a_header() {
    let (mut root, config) = root_offering();
    let step = root.step(&config, RootEvent::Received(Message::Close));
    assert!(step.send.is_empty());
    assert!(root_ended(&step, Ok(())));
}

#[test]
fn root_takes_no_other_answer_to_a_header() {
    for bad in [Message::Heartbeat, Message::EndSync, Message::NotFound] {
        let (mut root, config) = root_offering();
        assert!(root_ended(
            &root.step(&config, RootEvent::Received(bad)),
            Err(ErrorKind::InvalidData)
        ));
    }
    let (mut root, config) = root_offering();
    root.step(&config, RootEvent::Received(Message::Okay));
    root.step(&config, RootEvent::Sized { size: 0 });
    root.step(&config, RootEvent::ContentSent);
    let step = root.step(&config, RootEvent::Received(Message::Skip));
    assert!(root_ended(&step, Err(ErrorKind::InvalidData)));
}

#[test]
fn root_heartbeat_is_due_after_the_interval() {
    assert_eq!(HEARTBEAT_MS, 20_000);
    assert_eq!(POLL_PAUSE_MS, 10);
    let (mut root, config) = root_watching();
    for now in [1000, 5000, 21_000] {
        let step = root.step(&config, RootEvent::Idle { now });
        assert!(step.send.is_empty());
        assert!(matches!(step.next, RootRequest::Poll));
    }
    // A clock that runs backwards asks for no heartbeat.
    let step = root.step(&config, RootEvent::Idle { now: 0 });
    assert!(step.send.is_empty());
    let step = root.step(&config, RootEvent::Idle { now: 21_001 });
    assert_eq!(step.send, vec![Message::Heartbeat]);
    assert!(matches!(step.next, RootRequest::Receive));
    assert_eq!(root.stage(), RootStage::Probing);
}

#[test]
fn root_heartbeat_answers() {
    let probing = || {
        let (mut root, config) = root_watching();
        root.step(&config, RootEvent::Idle { now: 30_000 });
        (root, config)
    };
    let (mut root, config) = probing();
    let step = root.step(&config, RootEvent::Received(Message::Okay));
    assert!(matches!(step.next, RootRequest::Poll));
    let (mut root, config) = probing();
    let step = root.step(&config, RootEvent::Received(Message::Close));
    assert_eq!(step.send, vec![Message::Close]);
    assert!(root_ended(&step, Ok(())));
    let (mut root, config) = probing();
    let step = root.step(&config, RootEvent::Received(Message::Skip));
    assert!(root_ended(&step, Err(ErrorKind::InvalidData)));
}

#[test]
fn root_reports_changes() {
    let (mut root, config) = root_watching();
    let step = root
        .step(&config, RootEvent::Changed(Change::Remove { parts: names(&["sub", "b.txt"]) }));
    assert_eq!(step.send, vec![Message::Remove { path: "sub/b.txt".to_string() }]);
    assert_eq!(root.stage(), RootStage::Notified);
    let step = root.step(&config, RootEvent::Received(Message::Okay));
    assert!(matches!(step.next, RootRequest::Poll));

    let step = root.step(
        &config,
        RootEvent::Changed(Change::Rename { from: names(&["a.txt"]), to: names(&["b", "a2.txt"]) }),
    );
    assert_eq!(
        step.send,
        vec![Message::Rename { old: "a.txt".to_string(), new: "b/a2.txt".to_string() }]
    );
    let step = root.step(&config, RootEvent::Received(Message::Heartbeat));
    assert!(root_ended(&step, Err(ErrorKind::InvalidData)));
}

#[test]
fn root_opens_created_and_written_files() {
    for change in [
        Change::Create { parts: names(&["new.txt"]) },
        Change::Write { parts: names(&["new.txt"]) },
    ] {
        let (mut root, config) = root_watching();
        let step = root.step(&config, RootEvent::Changed(change));
        assert!(matches!(&step.next, RootRequest::OpenFile { parts } if *parts == names(&["new.txt"])));
        let step = root.step(&config, hashed());
        assert!(matches!(&step.send[0], Message::FileHeader { path, .. } if path == "new.txt"));
        // After the file the session is back at the watch.
        let step = root.step(&config, RootEvent::Received(Message::Skip));
        assert!(step.release && step.send.is_empty());
        assert!(matches!(step.next, RootRequest::Poll));
    }
}

#[test]
fn root_passes_over_changes_it_must_not_send() {
    let (mut root, config) = root_watching();
    for change in [
        Change::Other,
        Change::Create { parts: names(&[]) },
        Change::Write { parts: names(&[".mirra", "Mirra.toml"]) },
        Change::Remove { parts: names(&["a", "..", "b"]) },
        Change::Remove { parts: names(&["a/b"]) },
        Change::Rename { from: names(&["a"]), to: names(&[".mirra", "a"]) },
        Change::Rename { from: names(&[".mirra", "a"]), to: names(&["a"]) },
    ] {
        let step = root.step(&config, RootEvent::Changed(change));
        assert!(step.send.is_empty());
        assert!(matches!(step.next, RootRequest::Poll));
        assert_eq!(root.stage(), RootStage::Polling);
    }
}

fn sync() -> RootSync {
    RootSync { ip: "10.0.0.1".to_string(), port: 7000, path: "copy".to_string() }
}

/// A node that has done the handshake and waits for a message.
fn node_idle() -> NodeSession {
    let mut node = NodeSession::new("docs".to_string(), sync());
    node.step(NodeEvent::Connected);
    node.step(NodeEvent::Received(Message::Okay));
    let step = node.step(NodeEvent::DirReady);
    assert!(matches!(step.next, NodeRequest::Receive));
    assert_eq!(node.stage(), NodeStage::Idle);
    node
}

fn header(path: &str, hash: &str) -> NodeEvent {
    NodeEvent::Received(Message::FileHeader {
        path: path.to_string(),
        hash: hash.to_string(),
        cert: "c2ln".to_string(),
    })
}

#[test]
fn node_handshake() {
    let mut node = NodeSession::new("docs".to_string(), sync());
    assert!(
        matches!(node.begin(), NodeRequest::Connect { host, port } if host == "10.0.0.1" && port == 7000)
    );
    let step = node.step(NodeEvent::Connected);
    assert_eq!(step.send, vec![Message::Handshake { module: "docs".to_string() }]);
    assert!(matches!(step.next, NodeRequest::Receive));
    let step = node.step(NodeEvent::Received(Message::Okay));
    assert!(step.send.is_empty());
    assert!(matches!(&step.next, NodeRequest::EnsureDir { path } if path == "copy"));
}

#[test]
fn node_gives_up_on_a_module_that_is_not_served() {
    let mut node = NodeSession::new("docs".to_string(), sync());
    node.step(NodeEvent::Connected);
    let step = node.step(NodeEvent::Received(Message::NotFound));
    assert_eq!(step.send, vec![Message::Close]);
    assert!(matches!(step.next, NodeRequest::Receive));
    assert_eq!(node.stage(), NodeStage::Leaving);
    let step = node.step(NodeEvent::Received(Message::Close));
    assert!(node_ended(&step, Err(ErrorKind::InvalidInput)));

    // A root that answers the Close with anything else breaks the protocol.
    let mut node = NodeSession::new("docs".to_string(), sync());
    node.step(NodeEvent::Connected);
    node.step(NodeEvent::Received(Message::NotFound));
    let step = node.step(NodeEvent::Received(Message::Okay));
    assert!(node_ended(&step, Err(ErrorKind::InvalidData)));
}

#[test]
fn node_takes_no_other_answer_to_the_handshake() {
    for bad in [Message::Close, Message::BeginSync, Message::Heartbeat] {
        let mut node = NodeSession::new("docs".to_string(), sync());
        node.step(NodeEvent::Connected);
        assert!(node_ended(&node.step(NodeEvent::Received(bad)), Err(ErrorKind::InvalidData)));
    }
    let mut node = NodeSession::new("docs".to_string(), sync());
    assert!(node_ended(&node.step(NodeEvent::Failed), Err(ErrorKind::Io)));
    assert!(node_ended(&node.step(NodeEvent::Connected), Err(ErrorKind::Other)));
}

#[test]
fn node_acknowledges_heartbeats() {
    let mut node = node_idle();
    for _ in 0..3 {
        let step = node.step(NodeEvent::Received(Message::Heartbeat));
        assert_eq!(step.send, vec![Message::Okay]);
        assert!(matches!(step.next, NodeRequest::Receive));
    }
}

#[test]
fn node_skips_a_file_it_has() {
    let mut node = node_idle();
    let step = node.step(header("sub/b.txt", "1234"));
    assert!(step.send.is_empty());
    assert!(matches!(&step.next, NodeRequest::HashLocal { path } if path == "sub/b.txt"));
    let step = node.step(NodeEvent::LocalDigest(Some("1234".to_string())));
    assert_eq!(step.send, vec![Message::Skip]);
    assert!(matches!(step.next, NodeRequest::Receive));
    assert_eq!(node.stage(), NodeStage::Idle);
}

#[test]
fn node_fetches_a_file_it_lacks_or_holds_stale() {
    for local in [None, Some("ffff".to_string())] {
        let mut node = node_idle();
        node.step(header("sub/b.txt", "1234"));
        let step = node.step(NodeEvent::LocalDigest(local));
        assert_eq!(step.send, vec![Message::Okay]);
        assert!(matches!(&step.next, NodeRequest::CreateFile { path } if path == "sub/b.txt"));
        let step = node.step(NodeEvent::FileReady);
        assert!(matches!(step.next, NodeRequest::Receive));
        let step = node.step(NodeEvent::Received(Message::File { size: 5000 }));
        assert!(matches!(step.next, NodeRequest::ReadContent { max: 4096 }));
        let step = node.step(NodeEvent::Chunk { read: 4096 });
        assert!(matches!(step.next, NodeRequest::ReadContent { max: 904 }));
        let step = node.step(NodeEvent::Chunk { read: 900 });
        assert!(matches!(step.next, NodeRequest::ReadContent { max: 4 }));
        assert!(step.send.is_empty() && !step.release);
        let step = node.step(NodeEvent::Chunk { read: 4 });
        assert!(step.release);
        assert_eq!(step.send, vec![Message::Okay]);
        assert!(matches!(step.next, NodeRequest::Receive));
        assert_eq!(node.stage(), NodeStage::Idle);
    }
}

#[test]
fn node_stops_reading_when_the_stream_runs_dry() {
    let mut node = node_idle();
    node.step(header("a.txt", "1234"));
    node.step(NodeEvent::LocalDigest(None));
    node.step(NodeEvent::FileReady);
    node.step(NodeEvent::Received(Message::File { size: 100 }));
    node.step(NodeEvent::Chunk { read: 40 });
    let step = node.step(NodeEvent::Chunk { read: 0 });
    assert!(step.release);
    assert_eq!(step.send, vec![Message::Okay]);
    assert_eq!(node.stage(), NodeStage::Idle);
}

#[test]
fn node_does_not_believe_a_read_longer_than_it_asked_for() {
    let mut node = node_idle();
    node.step(header("a.txt", "1234"));
    node.step(NodeEvent::LocalDigest(None));
    node.step(NodeEvent::FileReady);
    let step = node.step(NodeEvent::Received(Message::File { size: 10 }));
    assert!(matches!(step.next, NodeRequest::ReadContent { max: 10 }));
    assert!(node_ended(&node.step(NodeEvent::Chunk { read: 11 }), Err(ErrorKind::Other)));
}

#[test]
fn node_wants_the_file_message_before_content() {
    let mut node = node_idle();
    node.step(header("a.txt", "1234"));
    node.step(NodeEvent::LocalDigest(None));
    node.step(NodeEvent::FileReady);
    let step = node.step(NodeEvent::Received(Message::Okay));
    assert!(node_ended(&step, Err(ErrorKind::InvalidData)));
}

#[test]
fn node_rejects_paths_that_leave_the_module() {
    for bad in ["../escape", "/etc/passwd", "a/../../b", "", ".mirra/private.key", "x/.mirra/y"] {
        let mut node = node_idle();
        let step = node.step(header(bad, "1234"));
        assert!(step.send.is_empty(), "{}", bad);
        assert!(node_ended(&step, Err(ErrorKind::InvalidData)), "{}", bad);

        let mut node = node_idle();
        let step = node.step(NodeEvent::Received(Message::Remove { path: bad.to_string() }));
        assert!(step.send.is_empty() && node_ended(&step, Err(ErrorKind::InvalidData)), "{}", bad);

        let mut node = node_idle();
        let step = node.step(NodeEvent::Received(Message::Rename {
            old: "fine.txt".to_string(),
            new: bad.to_string(),
        }));
        assert!(step.send.is_empty() && node_ended(&step, Err(ErrorKind::InvalidData)), "{}", bad);

        let mut node = node_idle();
        let step = node.step(NodeEvent::Received(Message::Rename {
            old: bad.to_string(),
            new: "fine.txt".to_string(),
        }));
        assert!(step.send.is_empty() && node_ended(&step, Err(ErrorKind::InvalidData)), "{}", bad);
    }
}

#[test]
fn node_applies_removals_and_renamings_whether_or_not_they_work() {
    for outcome in [NodeEvent::Applied { ok: true }, NodeEvent::Applied { ok: false }, NodeEvent::Failed] {
        let mut node = node_idle();
        let step = node.step(NodeEvent::Received(Message::Remove { path: "a/b.txt".to_string() }));
        assert_eq!(step.send, vec![Message::Okay]);
        assert!(matches!(&step.next, NodeRequest::RemoveFile { path } if path == "a/b.txt"));
        let step = node.step(outcome);
        assert!(step.send.is_empty());
        assert!(matches!(step.next, NodeRequest::Receive));
        assert_eq!(node.stage(), NodeStage::Idle);
    }
    let mut node = node_idle();
    let step = node.step(NodeEvent::Received(Message::Rename {
        old: "a.txt".to_string(),
        new: "b/a2.txt".to_string(),
    }));
    assert_eq!(step.send, vec![Message::Okay]);
    assert!(
        matches!(&step.next, NodeRequest::RenameFile { from, to } if from == "a.txt" && to == "b/a2.txt")
    );
}

#[test]
fn node_full_sync_takes_only_headers() {
    let mut node = node_idle();
    let step = node.step(NodeEvent::Received(Message::BeginSync));
    assert_eq!(step.send, vec![Message::Okay]);
    let step = node.step(header("a.txt", "12"));
    assert!(matches!(step.next, NodeRequest::HashLocal { .. }));
    node.step(NodeEvent::LocalDigest(Some("12".to_string())));
    let step = node.step(NodeEvent::Received(Message::EndSync));
    assert_eq!(step.send, vec![Message::Okay]);
    // After the transfer a heartbeat is in order again.
    let step = node.step(NodeEvent::Received(Message::Heartbeat));
    assert_eq!(step.send, vec![Message::Okay]);

    for bad in [
        Message::Heartbeat,
        Message::BeginSync,
        Message::Remove { path: "a".to_string() },
        Message::Okay,
    ] {
        let mut node = node_idle();
        node.step(NodeEvent::Received(Message::BeginSync));
        let step = node.step(NodeEvent::Received(bad));
        assert!(step.send.is_empty());
        assert!(node_ended(&step, Err(ErrorKind::InvalidData)));
    }
}

#[test]
fn node_closes_on_a_message_that_is_out_of_place() {
    for bad in [Message::EndSync, Message::Okay, Message::Skip, Message::File { size: 1 }] {
        let mut node = node_idle();
        let step = node.step(NodeEvent::Received(bad));
        assert_eq!(step.send, vec![Message::Close]);
        assert!(matches!(step.next, NodeRequest::Receive));
        let step = node.step(NodeEvent::Received(Message::Close));
        assert!(node_ended(&step, Err(ErrorKind::InvalidData)));
    }
    let mut node = node_idle();
    assert!(node_ended(&node.step(NodeEvent::Garbled), Err(ErrorKind::InvalidData)));
}
