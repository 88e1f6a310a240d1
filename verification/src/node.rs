//! The mirroring side of a connection.
//!
//! A node session keeps the local copy of one module in step with a root:
//! it asks for the module, takes what the root sends, and applies each
//! removal and renaming that the root reports. Like the root session it
//! touches neither the network nor the disk: it is told what happened, and
//! answers with the messages to send and the one thing to do next.
//!
//! The root is not trusted with paths. A path that would lead out of the
//! local directory of the module, or into a control directory, ends the
//! session before anything is done about it.

use crate::config::RootSync;
use crate::error::ErrorKind;
use crate::packet::{Message, MessageView};
use crate::path::{is_safe_relative, safe_relative};
use crate::root::message_views;
use crate::transfer::FileReceiver;
use vstd::prelude::*;

verus! {

/// What a node session is told.
#[derive(Debug)]
pub enum NodeEvent {
    /// The connection to the root stands.
    Connected,
    /// The root sent this message.
    Received(Message),
    /// The root sent bytes that are no message.
    Garbled,
    /// The local directory of the module is there.
    DirReady,
    /// The digest of the local file at the path that was asked about, or
    /// nothing where no regular file is there.
    LocalDigest(Option<String>),
    /// The file that is to be written is open and empty.
    FileReady,
    /// This many bytes of content were read from the stream and written
    /// to the open file.
    Chunk { read: usize },
    /// The removal or renaming was tried; whether it succeeded.
    Applied { ok: bool },
    /// What was to be done could not be done.
    Failed,
}

/// What a node session is told, with strings as texts.
pub enum NodeEventView {
    Connected,
    Received(MessageView),
    Garbled,
    DirReady,
    LocalDigest(Option<Seq<char>>),
    FileReady,
    Chunk { read: usize },
    Applied { ok: bool },
    Failed,
}

impl View for NodeEvent {
    type V = NodeEventView;

    open spec fn view(&self) -> NodeEventView {
        match self {
            NodeEvent::Connected => NodeEventView::Connected,
            NodeEvent::Received(m) => NodeEventView::Received(m@),
            NodeEvent::Garbled => NodeEventView::Garbled,
            NodeEvent::DirReady => NodeEventView::DirReady,
            NodeEvent::LocalDigest(d) => NodeEventView::LocalDigest(
                match d {
                    Some(hash) => Some(hash@),
                    None => None,
                },
            ),
            NodeEvent::FileReady => NodeEventView::FileReady,
            NodeEvent::Chunk { read } => NodeEventView::Chunk { read: *read },
            NodeEvent::Applied { ok } => NodeEventView::Applied { ok: *ok },
            NodeEvent::Failed => NodeEventView::Failed,
        }
    }
}

/// The one thing that a node session wants done next. Each request but the
/// last is answered by telling the session what came of it. Every path is
/// relative to the local directory of the module.
#[derive(Debug)]
pub enum NodeRequest {
    /// Connect to the root.
    Connect { host: String, port: u16 },
    /// Read the next message from the root.
    Receive,
    /// Create the local directory of the module, unless it is there.
    EnsureDir { path: String },
    /// Hash the file at `path`, if a regular file is there.
    HashLocal { path: String },
    /// Create the directory that is to hold `path`, unless it is there,
    /// and open the file at `path` for writing, empty.
    CreateFile { path: String },
    /// Read at most `max` bytes of content from the stream and write them
    /// to the open file.
    ReadContent { max: usize },
    /// Remove the file at `path`, if a regular file is there. That this
    /// fails is worth a warning and no more.
    RemoveFile { path: String },
    /// Rename `from` to `to`. That this fails is worth a warning and no
    /// more.
    RenameFile { from: String, to: String },
    /// Nothing: the session is over, with this outcome.
    Finish(Result<(), ErrorKind>),
}

/// A request, with strings as texts.
pub enum NodeRequestView {
    Connect { host: Seq<char>, port: u16 },
    Receive,
    EnsureDir { path: Seq<char> },
    HashLocal { path: Seq<char> },
    CreateFile { path: Seq<char> },
    ReadContent { max: usize },
    RemoveFile { path: Seq<char> },
    RenameFile { from: Seq<char>, to: Seq<char> },
    Finish(Result<(), ErrorKind>),
}

impl View for NodeRequest {
    type V = NodeRequestView;

    open spec fn view(&self) -> NodeRequestView {
        match self {
            NodeRequest::Connect { host, port } => NodeRequestView::Connect {
                host: host@,
                port: *port,
            },
            NodeRequest::Receive => NodeRequestView::Receive,
            NodeRequest::EnsureDir { path } => NodeRequestView::EnsureDir { path: path@ },
            NodeRequest::HashLocal { path } => NodeRequestView::HashLocal { path: path@ },
            NodeRequest::CreateFile { path } => NodeRequestView::CreateFile { path: path@ },
            NodeRequest::ReadContent { max } => NodeRequestView::ReadContent { max: *max },
            NodeRequest::RemoveFile { path } => NodeRequestView::RemoveFile { path: path@ },
            NodeRequest::RenameFile { from, to } => NodeRequestView::RenameFile {
                from: from@,
                to: to@,
            },
            NodeRequest::Finish(r) => NodeRequestView::Finish(*r),
        }
    }
}

/// The answer of a session to what it was told: first close the file that
/// is being written if `release` says so, after that send the messages of
/// `send` in their order, and last do `next`.
#[derive(Debug)]
pub struct NodeStep {
    pub release: bool,
    pub send: Vec<Message>,
    pub next: NodeRequest,
}

/// An answer, with strings as texts.
pub struct NodeStepView {
    pub release: bool,
    pub send: Seq<MessageView>,
    pub next: NodeRequestView,
}

impl View for NodeStep {
    type V = NodeStepView;

    open spec fn view(&self) -> NodeStepView {
        NodeStepView { release: self.release, send: message_views(self.send@), next: self.next@ }
    }
}

/// Where a node session stands.
#[derive(Clone, Copy, Debug, PartialEq, Eq, Structural)]
pub enum NodeStage {
    /// The connection is being made.
    Connecting,
    /// The `Handshake` is sent and not yet answered.
    Greeting,
    /// The local directory of the module is being made sure of.
    Preparing,
    /// The next message of the root is awaited.
    Idle,
    /// The local file at the path of a header is being hashed.
    Comparing,
    /// The file that is to be written is being opened.
    Opening,
    /// The `File` message that precedes the content is awaited.
    AwaitFile,
    /// Content is being read.
    Receiving,
    /// A removal or renaming is being applied.
    Applying,
    /// `Close` is sent and not yet answered.
    Leaving,
    /// The session is over.
    Finished,
}

/// The state of a node session.
pub struct NodeSessionView {
    pub stage: NodeStage,
    /// The name of the module.
    pub module: Seq<char>,
    /// Where the root is found.
    pub host: Seq<char>,
    pub port: u16,
    /// The local directory of the module.
    pub target: Seq<char>,
    /// Whether a transfer of the whole module is under way.
    pub syncing: bool,
    /// The path and the digest of the header that is being dealt with.
    pub offered: Option<(Seq<char>, Seq<char>)>,
    /// The count of the content that is being read.
    pub receiver: FileReceiver,
    /// The error with which the session ends once the root has answered
    /// the `Close`.
    pub verdict: ErrorKind,
}

impl NodeSessionView {
    /// A session that has yet to connect.
    pub open spec fn start(module: Seq<char>, host: Seq<char>, port: u16, target: Seq<char>)
        -> NodeSessionView {
        NodeSessionView {
            stage: NodeStage::Connecting,
            module,
            host,
            port,
            target,
            syncing: false,
            offered: None,
            receiver: FileReceiver::spec_new(0),
            verdict: ErrorKind::InvalidData,
        }
    }

    /// The path that the session holds is safe, and the count of content
    /// is in order.
    pub open spec fn wf(self) -> bool {
        &&& self.offered matches Some(header) ==> safe_relative(header.0)
        &&& self.receiver.wf()
        &&& (self.stage == NodeStage::Comparing || self.stage == NodeStage::Opening || self.stage
            == NodeStage::AwaitFile || self.stage == NodeStage::Receiving) ==> self.offered is Some
    }

    /// The session ends with `result`.
    pub open spec fn end(self, result: Result<(), ErrorKind>) -> (NodeSessionView, NodeStepView) {
        (
            NodeSessionView { stage: NodeStage::Finished, offered: None, ..self },
            NodeStepView { release: true, send: seq![], next: NodeRequestView::Finish(result) },
        )
    }

    /// The session sends `Close`, and will end with `verdict` once the
    /// root has answered.
    pub open spec fn leave(self, verdict: ErrorKind) -> (NodeSessionView, NodeStepView) {
        (
            NodeSessionView { stage: NodeStage::Leaving, offered: None, verdict, ..self },
            NodeStepView {
                release: true,
                send: seq![MessageView::Close],
                next: NodeRequestView::Receive,
            },
        )
    }

    /// The session moves to `stage`, sends `send` and wants `next`.
    pub open spec fn go(self, stage: NodeStage, send: Seq<MessageView>, next: NodeRequestView) -> (
        NodeSessionView,
        NodeStepView,
    ) {
        (NodeSessionView { stage, ..self }, NodeStepView { release: false, send, next })
    }

    /// The session is done with what it was about, says `send` and waits
    /// for the next message.
    pub open spec fn resume(self, release: bool, send: Seq<MessageView>) -> (
        NodeSessionView,
        NodeStepView,
    ) {
        (
            NodeSessionView { stage: NodeStage::Idle, offered: None, ..self },
            NodeStepView { release, send, next: NodeRequestView::Receive },
        )
    }

    /// What the session does about a header: a path that is not safe ends
    /// the session; for a safe one the local file is looked at first.
    pub open spec fn on_header(self, path: Seq<char>, hash: Seq<char>) -> (
        NodeSessionView,
        NodeStepView,
    ) {
        if safe_relative(path) {
            (
                NodeSessionView {
                    stage: NodeStage::Comparing,
                    offered: Some((path, hash)),
                    ..self
                },
                NodeStepView {
                    release: false,
                    send: seq![],
                    next: NodeRequestView::HashLocal { path },
                },
            )
        } else {
            self.end(Err(ErrorKind::InvalidData))
        }
    }

    /// What the session does about a message that comes while the whole
    /// module is being transferred: only headers and the end of the
    /// transfer are in order.
    pub open spec fn on_sync_message(self, m: MessageView) -> (NodeSessionView, NodeStepView) {
        match m {
            MessageView::FileHeader { path, hash, cert } => self.on_header(path, hash),
            MessageView::EndSync => (
                NodeSessionView { stage: NodeStage::Idle, syncing: false, offered: None, ..self },
                NodeStepView {
                    release: false,
                    send: seq![MessageView::Okay],
                    next: NodeRequestView::Receive,
                },
            ),
            _ => self.end(Err(ErrorKind::InvalidData)),
        }
    }

    /// What the session does about a message that comes between
    /// transfers of the whole module.
    pub open spec fn on_live_message(self, m: MessageView) -> (NodeSessionView, NodeStepView) {
        match m {
            MessageView::Heartbeat => self.resume(false, seq![MessageView::Okay]),
            MessageView::BeginSync => (
                NodeSessionView { stage: NodeStage::Idle, syncing: true, offered: None, ..self },
                NodeStepView {
                    release: false,
                    send: seq![MessageView::Okay],
                    next: NodeRequestView::Receive,
                },
            ),
            MessageView::FileHeader { path, hash, cert } => self.on_header(path, hash),
            MessageView::Remove { path } => if safe_relative(path) {
                self.go(
                    NodeStage::Applying,
                    seq![MessageView::Okay],
                    NodeRequestView::RemoveFile { path },
                )
            } else {
                self.end(Err(ErrorKind::InvalidData))
            },
            MessageView::Rename { old, new } => if safe_relative(old) && safe_relative(new) {
                self.go(
                    NodeStage::Applying,
                    seq![MessageView::Okay],
                    NodeRequestView::RenameFile { from: old, to: new },
                )
            } else {
                self.end(Err(ErrorKind::InvalidData))
            },
            _ => self.leave(ErrorKind::InvalidData),
        }
    }

    /// What the session does once it knows the digest of the local file,
    /// if there is one: a file that is there with the digest of the header
    /// is skipped; any other is asked for.
    pub open spec fn on_digest(self, local: Option<Seq<char>>) -> (NodeSessionView, NodeStepView) {
        match self.offered {
            Some((path, hash)) => if local == Some(hash) {
                self.resume(false, seq![MessageView::Skip])
            } else {
                self.go(
                    NodeStage::Opening,
                    seq![MessageView::Okay],
                    NodeRequestView::CreateFile { path },
                )
            },
            None => self.end(Err(ErrorKind::Other)),
        }
    }

    /// What the session does with a count of content: it reads on while
    /// there is more to read, and else acknowledges the file.
    pub open spec fn on_content(self, receiver: FileReceiver, more: bool) -> (
        NodeSessionView,
        NodeStepView,
    ) {
        if more {
            (
                NodeSessionView { stage: NodeStage::Receiving, receiver, ..self },
                NodeStepView {
                    release: false,
                    send: seq![],
                    next: NodeRequestView::ReadContent { max: receiver.spec_next_read() },
                },
            )
        } else {
            NodeSessionView { receiver, ..self }.resume(true, seq![MessageView::Okay])
        }
    }

    /// What the session does about the answer to its `Handshake`.
    pub open spec fn on_greeting(self, e: NodeEventView) -> (NodeSessionView, NodeStepView) {
        match e {
            NodeEventView::Received(MessageView::Okay) => self.go(
                NodeStage::Preparing,
                seq![],
                NodeRequestView::EnsureDir { path: self.target },
            ),
            NodeEventView::Received(MessageView::NotFound) => self.leave(ErrorKind::InvalidInput),
            NodeEventView::Received(_) => self.end(Err(ErrorKind::InvalidData)),
            NodeEventView::Garbled => self.end(Err(ErrorKind::InvalidData)),
            _ => self.end(Err(ErrorKind::Other)),
        }
    }

    /// The state after the session was told `e`, and its answer.
    pub open spec fn step(self, e: NodeEventView) -> (NodeSessionView, NodeStepView) {
        if self.stage == NodeStage::Finished {
            self.end(Err(ErrorKind::Other))
        } else if e is Failed {
            if self.stage == NodeStage::Applying {
                self.resume(false, seq![])
            } else {
                self.end(Err(ErrorKind::Io))
            }
        } else {
            match self.stage {
                NodeStage::Connecting => match e {
                    NodeEventView::Connected => {
                        let m = MessageView::Handshake { module: self.module };
                        if m.encodable() {
                            self.go(NodeStage::Greeting, seq![m], NodeRequestView::Receive)
                        } else {
                            self.end(Err(ErrorKind::Other))
                        }
                    },
                    _ => self.end(Err(ErrorKind::Other)),
                },
                NodeStage::Greeting => self.on_greeting(e),
                NodeStage::Preparing => match e {
                    NodeEventView::DirReady => self.resume(false, seq![]),
                    _ => self.end(Err(ErrorKind::Other)),
                },
                NodeStage::Idle => match e {
                    NodeEventView::Received(m) => if self.syncing {
                        self.on_sync_message(m)
                    } else {
                        self.on_live_message(m)
                    },
                    NodeEventView::Garbled => self.end(Err(ErrorKind::InvalidData)),
                    _ => self.end(Err(ErrorKind::Other)),
                },
                NodeStage::Comparing => match e {
                    NodeEventView::LocalDigest(local) => self.on_digest(local),
                    _ => self.end(Err(ErrorKind::Other)),
                },
                NodeStage::Opening => match e {
                    NodeEventView::FileReady => self.go(
                        NodeStage::AwaitFile,
                        seq![],
                        NodeRequestView::Receive,
                    ),
                    _ => self.end(Err(ErrorKind::Other)),
                },
                NodeStage::AwaitFile => match e {
                    NodeEventView::Received(MessageView::File { size }) => self.on_content(
                        FileReceiver::spec_new(size),
                        size > 0,
                    ),
                    NodeEventView::Received(_) => self.end(Err(ErrorKind::InvalidData)),
                    NodeEventView::Garbled => self.end(Err(ErrorKind::InvalidData)),
                    _ => self.end(Err(ErrorKind::Other)),
                },
                NodeStage::Receiving => match e {
                    NodeEventView::Chunk { read } => if read <= self.receiver.spec_next_read() {
                        self.on_content(
                            self.receiver.spec_advance(read),
                            self.receiver.spec_more(read),
                        )
                    } else {
                        self.end(Err(ErrorKind::Other))
                    },
                    _ => self.end(Err(ErrorKind::Other)),
                },
                NodeStage::Applying => match e {
                    NodeEventView::Applied { ok } => self.resume(false, seq![]),
                    _ => self.end(Err(ErrorKind::Other)),
                },
                NodeStage::Leaving => match e {
                    NodeEventView::Received(MessageView::Close) => self.end(Err(self.verdict)),
                    NodeEventView::Received(_) => self.end(Err(ErrorKind::InvalidData)),
                    NodeEventView::Garbled => self.end(Err(ErrorKind::InvalidData)),
                    _ => self.end(Err(ErrorKind::Other)),
                },
                NodeStage::Finished => self.end(Err(ErrorKind::Other)),
            }
        }
    }
}

/// Whether a request names only safe paths.
pub open spec fn request_safe(r: NodeRequestView) -> bool {
    &&& r matches NodeRequestView::HashLocal { path } ==> safe_relative(path)
    &&& r matches NodeRequestView::CreateFile { path } ==> safe_relative(path)
    &&& r matches NodeRequestView::RemoveFile { path } ==> safe_relative(path)
    &&& r matches NodeRequestView::RenameFile { from, to } ==> safe_relative(from)
        && safe_relative(to)
}

/// What holds of every step of a node session: the session stays well
/// formed, and every path that it wants touched is safe, so that it never
/// writes outside the local directory of the module nor into a control
/// directory; it never reads more content from the stream than the root
/// declared; and every message that it sends can be encoded.
pub proof fn lemma_node_step_sound(s: NodeSessionView, e: NodeEventView)
    requires
        s.wf(),
    ensures
        NodeSessionView::start(s.module, s.host, s.port, s.target).wf(),
        ({
            let (after, out) = s.step(e);
            &&& after.wf()
            &&& request_safe(out.next)
            &&& out.next matches NodeRequestView::ReadContent { max } ==> 0 < max
                <= after.receiver.remaining
            &&& forall|i: int| 0 <= i < out.send.len() ==> (#[trigger] out.send[i]).encodable()
            &&& after.module == s.module && after.target == s.target
        }),
{
    MessageView::Okay.lemma_encodable();
    MessageView::Close.lemma_encodable();
    MessageView::Skip.lemma_encodable();
}

/// A file that is already there is not fetched again: told that the local
/// file has the digest that the header names, the session answers `Skip`,
/// asks for nothing to be written, and waits for the next message. In any
/// other case it answers `Okay` and has the file opened.
pub proof fn lemma_node_skips_same_digest(s: NodeSessionView, local: Option<Seq<char>>)
    requires
        s.wf(),
        s.stage == NodeStage::Comparing,
    ensures
        ({
            let (after, out) = s.step(NodeEventView::LocalDigest(local));
            let (path, hash) = s.offered->0;
            if local == Some(hash) {
                &&& out.send == seq![MessageView::Skip]
                &&& out.next == NodeRequestView::Receive
                &&& after.stage == NodeStage::Idle
            } else {
                &&& out.send == seq![MessageView::Okay]
                &&& out.next == NodeRequestView::CreateFile { path }
            }
        }),
{
}

/// A node session.
pub struct NodeSession {
    stage: NodeStage,
    module: String,
    sync: RootSync,
    syncing: bool,
    offered: Option<(String, String)>,
    receiver: FileReceiver,
    verdict: ErrorKind,
}

impl View for NodeSession {
    type V = NodeSessionView;

    closed spec fn view(&self) -> NodeSessionView {
        NodeSessionView {
            stage: self.stage,
            module: self.module@,
            host: self.sync.ip@,
            port: self.sync.port,
            target: self.sync.path@,
            syncing: self.syncing,
            offered: match self.offered {
                Some((path, hash)) => Some((path@, hash@)),
                None => None,
            },
            receiver: self.receiver,
            verdict: self.verdict,
        }
    }
}

fn no_messages() -> (res: Vec<Message>)
    ensures
        message_views(res@) == Seq::<MessageView>::empty(),
{
    let res: Vec<Message> = Vec::new();
    assert(message_views(res@) =~= Seq::<MessageView>::empty());
    res
}

fn one_message(m: Message) -> (res: Vec<Message>)
    ensures
        message_views(res@) == seq![m@],
{
    let mut res: Vec<Message> = Vec::new();
    res.push(m);
    assert(message_views(res@) =~= seq![m@]);
    res
}

impl NodeSession {
    /// A session that is to mirror `module` as `sync` says.
    pub fn new(module: String, sync: RootSync) -> (res: NodeSession)
        ensures
            res@ == NodeSessionView::start(module@, sync.ip@, sync.port, sync.path@),
    {
        NodeSession {
            stage: NodeStage::Connecting,
            module,
            sync,
            syncing: false,
            offered: None,
            receiver: FileReceiver::new(0),
            verdict: ErrorKind::InvalidData,
        }
    }

    /// The first thing to do for a new session: connect to the root.
    pub fn begin(&self) -> (res: NodeRequest)
        ensures
            res@ == (NodeRequestView::Connect { host: self@.host, port: self@.port }),
    {
        NodeRequest::Connect { host: self.sync.ip.clone(), port: self.sync.port }
    }

    /// Where the session stands.
    pub fn stage(&self) -> (res: NodeStage)
        ensures
            res == self@.stage,
    {
        self.stage
    }

    fn end(&mut self, result: Result<(), ErrorKind>) -> (out: NodeStep)
        ensures
            (final(self)@, out@) == old(self)@.end(result),
    {
        self.stage = NodeStage::Finished;
        self.offered = None;
        NodeStep { release: true, send: no_messages(), next: NodeRequest::Finish(result) }
    }

    fn leave(&mut self, verdict: ErrorKind) -> (out: NodeStep)
        ensures
            (final(self)@, out@) == old(self)@.leave(verdict),
    {
        self.stage = NodeStage::Leaving;
        self.offered = None;
        self.verdict = verdict;
        NodeStep { release: true, send: one_message(Message::Close), next: NodeRequest::Receive }
    }

    fn resume(&mut self, release: bool, send: Vec<Message>) -> (out: NodeStep)
        ensures
            (final(self)@, out@) == old(self)@.resume(release, message_views(send@)),
    {
        self.stage = NodeStage::Idle;
        self.offered = None;
        NodeStep { release, send, next: NodeRequest::Receive }
    }

    fn on_header(&mut self, path: String, hash: String) -> (out: NodeStep)
        ensures
            (final(self)@, out@) == old(self)@.on_header(path@, hash@),
    {
        if is_safe_relative(path.as_str()) {
            self.stage = NodeStage::Comparing;
            self.offered = Some((path.clone(), hash));
            NodeStep { release: false, send: no_messages(), next: NodeRequest::HashLocal { path } }
        } else {
            self.end(Err(ErrorKind::InvalidData))
        }
    }

    fn on_sync_message(&mut self, m: Message) -> (out: NodeStep)
        ensures
            (final(self)@, out@) == old(self)@.on_sync_message(m@),
    {
        match m {
            Message::FileHeader { path, hash, cert } => self.on_header(path, hash),
            Message::EndSync => {
                self.syncing = false;
                self.resume(false, one_message(Message::Okay))
            },
            _ => self.end(Err(ErrorKind::InvalidData)),
        }
    }

    fn on_live_message(&mut self, m: Message) -> (out: NodeStep)
        ensures
            (final(self)@, out@) == old(self)@.on_live_message(m@),
    {
        match m {
            Message::Heartbeat => self.resume(false, one_message(Message::Okay)),
            Message::BeginSync => {
                self.syncing = true;
                self.resume(false, one_message(Message::Okay))
            },
            Message::FileHeader { path, hash, cert } => self.on_header(path, hash),
            Message::Remove { path } => {
                if is_safe_relative(path.as_str()) {
                    self.stage = NodeStage::Applying;
                    NodeStep {
                        release: false,
                        send: one_message(Message::Okay),
                        next: NodeRequest::RemoveFile { path },
                    }
                } else {
                    self.end(Err(ErrorKind::InvalidData))
                }
            },
            Message::Rename { old, new } => {
                if is_safe_relative(old.as_str()) && is_safe_relative(new.as_str()) {
                    self.stage = NodeStage::Applying;
                    NodeStep {
                        release: false,
                        send: one_message(Message::Okay),
                        next: NodeRequest::RenameFile { from: old, to: new },
                    }
                } else {
                    self.end(Err(ErrorKind::InvalidData))
                }
            },
            _ => self.leave(ErrorKind::InvalidData),
        }
    }

    fn on_digest(&mut self, local: Option<String>) -> (out: NodeStep)
        ensures
            (final(self)@, out@) == old(self)@.on_digest(
                match local {
                    Some(hash) => Some(hash@),
                    None => None,
                },
            ),
    {
        let header = match &self.offered {
            Some((path, hash)) => Some((path.clone(), hash.clone())),
            None => None,
        };
        match header {
            Some((path, hash)) => {
                let same = match local {
                    Some(found) => found == hash,
                    None => false,
                };
                if same {
                    self.resume(false, one_message(Message::Skip))
                } else {
                    self.stage = NodeStage::Opening;
                    NodeStep {
                        release: false,
                        send: one_message(Message::Okay),
                        next: NodeRequest::CreateFile { path },
                    }
                }
            },
            None => self.end(Err(ErrorKind::Other)),
        }
    }

    fn on_content(&mut self, receiver: FileReceiver, more: bool) -> (out: NodeStep)
        ensures
            (final(self)@, out@) == old(self)@.on_content(receiver, more),
    {
        self.receiver = receiver;
        if more {
            self.stage = NodeStage::Receiving;
            NodeStep {
                release: false,
                send: no_messages(),
                next: NodeRequest::ReadContent { max: receiver.next_read() },
            }
        } else {
            self.resume(true, one_message(Message::Okay))
        }
    }

    fn on_greeting(&mut self, event: NodeEvent) -> (out: NodeStep)
        ensures
            (final(self)@, out@) == old(self)@.on_greeting(event@),
    {
        match event {
            NodeEvent::Received(Message::Okay) => {
                self.stage = NodeStage::Preparing;
                NodeStep {
                    release: false,
                    send: no_messages(),
                    next: NodeRequest::EnsureDir { path: self.sync.path.clone() },
                }
            },
            NodeEvent::Received(Message::NotFound) => self.leave(ErrorKind::InvalidInput),
            NodeEvent::Received(_) => self.end(Err(ErrorKind::InvalidData)),
            NodeEvent::Garbled => self.end(Err(ErrorKind::InvalidData)),
            _ => self.end(Err(ErrorKind::Other)),
        }
    }

    /// Tells the session what happened, and gives its answer.
    pub fn step(&mut self, event: NodeEvent) -> (out: NodeStep)
        ensures
            (final(self)@, out@) == old(self)@.step(event@),
    {
        if self.stage == NodeStage::Finished {
            return self.end(Err(ErrorKind::Other));
        }
        match event {
            NodeEvent::Failed => {
                if self.stage == NodeStage::Applying {
                    return self.resume(false, no_messages());
                } else {
                    return self.end(Err(ErrorKind::Io));
                }
            },
            _ => {},
        }
        match self.stage {
            NodeStage::Connecting => match event {
                NodeEvent::Connected => {
                    let m = Message::Handshake { module: self.module.clone() };
                    if m.can_encode() {
                        self.stage = NodeStage::Greeting;
                        NodeStep { release: false, send: one_message(m), next: NodeRequest::Receive }
                    } else {
                        self.end(Err(ErrorKind::Other))
                    }
                },
                _ => self.end(Err(ErrorKind::Other)),
            },
            NodeStage::Greeting => self.on_greeting(event),
            NodeStage::Preparing => match event {
                NodeEvent::DirReady => self.resume(false, no_messages()),
                _ => self.end(Err(ErrorKind::Other)),
            },
            NodeStage::Idle => match event {
                NodeEvent::Received(m) => {
                    if self.syncing {
                        self.on_sync_message(m)
                    } else {
                        self.on_live_message(m)
                    }
                },
                NodeEvent::Garbled => self.end(Err(ErrorKind::InvalidData)),
                _ => self.end(Err(ErrorKind::Other)),
            },
            NodeStage::Comparing => match event {
                NodeEvent::LocalDigest(local) => self.on_digest(local),
                _ => self.end(Err(ErrorKind::Other)),
            },
            NodeStage::Opening => match event {
                NodeEvent::FileReady => {
                    self.stage = NodeStage::AwaitFile;
                    NodeStep { release: false, send: no_messages(), next: NodeRequest::Receive }
                },
                _ => self.end(Err(ErrorKind::Other)),
            },
            NodeStage::AwaitFile => match event {
                NodeEvent::Received(Message::File { size }) => self.on_content(
                    FileReceiver::new(size),
                    size > 0,
                ),
                NodeEvent::Received(_) => self.end(Err(ErrorKind::InvalidData)),
                NodeEvent::Garbled => self.end(Err(ErrorKind::InvalidData)),
                _ => self.end(Err(ErrorKind::Other)),
            },
            NodeStage::Receiving => match event {
                NodeEvent::Chunk { read } => {
                    if read <= self.receiver.next_read() {
                        let mut receiver = self.receiver;
                        let more = receiver.advance(read);
                        self.on_content(receiver, more)
                    } else {
                        self.end(Err(ErrorKind::Other))
                    }
                },
                _ => self.end(Err(ErrorKind::Other)),
            },
            NodeStage::Applying => match event {
                NodeEvent::Applied { ok } => self.resume(false, no_messages()),
                _ => self.end(Err(ErrorKind::Other)),
            },
            NodeStage::Leaving => match event {
                NodeEvent::Received(Message::Close) => {
                    let verdict = self.verdict;
                    self.end(Err(verdict))
                },
                NodeEvent::Received(_) => self.end(Err(ErrorKind::InvalidData)),
                NodeEvent::Garbled => self.end(Err(ErrorKind::InvalidData)),
                _ => self.end(Err(ErrorKind::Other)),
            },
            NodeStage::Finished => self.end(Err(ErrorKind::Other)),
        }
    }
}

} // verus!
