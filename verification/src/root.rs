//! The serving side of a connection.
//!
//! A root session serves one node over one connection: it waits for the
//! node to ask for a module, sends the whole module once, and then sends
//! what changes, with a heartbeat when nothing does. The session itself
//! touches neither the network nor the disk. It is told what happened, and
//! answers with the messages to send and the one thing to do next.

use crate::config::Config;
use crate::error::ErrorKind;
use crate::packet::{Message, MessageView};
use crate::path::{join_parts, joined_path, safe_relative};
use crate::walk::{
    clean, clone_parts, entry_views, is_clean, lemma_clean_is_safe, lemma_walk_stays_clean,
    DirEntry, EntryView, WalkStep, WalkStepView, Walker, WalkerView,
};
use crate::wire::texts;
use vstd::prelude::*;

verus! {

/// A heartbeat is due when more than this many milliseconds have passed
/// since the last one.
pub const HEARTBEAT_MS: u64 = 20_000;

/// How long a poll that finds no change should wait before it says so, in
/// milliseconds, so that an idle session does not spin.
pub const POLL_PAUSE_MS: u64 = 10;

/// Something that happened to the tree of the module, with each path given
/// by its names below the module root.
#[derive(Debug)]
pub enum Change {
    /// A file came into being.
    Create { parts: Vec<String> },
    /// A file was written.
    Write { parts: Vec<String> },
    /// A file went away.
    Remove { parts: Vec<String> },
    /// A file moved.
    Rename { from: Vec<String>, to: Vec<String> },
    /// Changes may have been missed.
    Rescan,
    /// Anything else, an error of the watch included.
    Other,
}

/// A change, with names as texts.
pub enum ChangeView {
    Create { parts: Seq<Seq<char>> },
    Write { parts: Seq<Seq<char>> },
    Remove { parts: Seq<Seq<char>> },
    Rename { from: Seq<Seq<char>>, to: Seq<Seq<char>> },
    Rescan,
    Other,
}

impl View for Change {
    type V = ChangeView;

    open spec fn view(&self) -> ChangeView {
        match self {
            Change::Create { parts } => ChangeView::Create { parts: texts(parts@) },
            Change::Write { parts } => ChangeView::Write { parts: texts(parts@) },
            Change::Remove { parts } => ChangeView::Remove { parts: texts(parts@) },
            Change::Rename { from, to } => ChangeView::Rename {
                from: texts(from@),
                to: texts(to@),
            },
            Change::Rescan => ChangeView::Rescan,
            Change::Other => ChangeView::Other,
        }
    }
}

/// What a root session is told.
#[derive(Debug)]
pub enum RootEvent {
    /// The node sent this message.
    Received(Message),
    /// The node sent bytes that are no message.
    Garbled,
    /// The directory of the module, made absolute.
    Resolved { dir: String },
    /// What the directory that was to be listed holds.
    Listed { entries: Vec<DirEntry> },
    /// The file that was to be opened is open and locked; the digest of
    /// its content and the signature of that digest.
    Hashed { hash: String, cert: String },
    /// The size of the open file.
    Sized { size: u64 },
    /// The content of the open file is on the stream.
    ContentSent,
    /// The module is being watched; the time in milliseconds.
    Watching { now: u64 },
    /// The watch saw a change.
    Changed(Change),
    /// The watch saw nothing; the time in milliseconds.
    Idle { now: u64 },
    /// What was to be done could not be done.
    Failed,
}

/// What a root session is told, with strings as texts.
pub enum RootEventView {
    Received(MessageView),
    Garbled,
    Resolved { dir: Seq<char> },
    Listed { entries: Seq<EntryView> },
    Hashed { hash: Seq<char>, cert: Seq<char> },
    Sized { size: u64 },
    ContentSent,
    Watching { now: u64 },
    Changed(ChangeView),
    Idle { now: u64 },
    Failed,
}

impl View for RootEvent {
    type V = RootEventView;

    open spec fn view(&self) -> RootEventView {
        match self {
            RootEvent::Received(m) => RootEventView::Received(m@),
            RootEvent::Garbled => RootEventView::Garbled,
            RootEvent::Resolved { dir } => RootEventView::Resolved { dir: dir@ },
            RootEvent::Listed { entries } => RootEventView::Listed {
                entries: entry_views(entries@),
            },
            RootEvent::Hashed { hash, cert } => RootEventView::Hashed { hash: hash@, cert: cert@ },
            RootEvent::Sized { size } => RootEventView::Sized { size: *size },
            RootEvent::ContentSent => RootEventView::ContentSent,
            RootEvent::Watching { now } => RootEventView::Watching { now: *now },
            RootEvent::Changed(c) => RootEventView::Changed(c@),
            RootEvent::Idle { now } => RootEventView::Idle { now: *now },
            RootEvent::Failed => RootEventView::Failed,
        }
    }
}

/// The one thing that a root session wants done next. Each request but the
/// last is answered by telling the session what came of it.
#[derive(Debug)]
pub enum RootRequest {
    /// Read the next message from the node.
    Receive,
    /// Make the configured path of the module absolute.
    Resolve { path: String },
    /// List the directory with these names below the module root.
    ListDir { parts: Vec<String> },
    /// Open the file with these names below the module root, lock it,
    /// hash its content and sign the digest.
    OpenFile { parts: Vec<String> },
    /// Find the size of the open file.
    StatFile,
    /// Put the content of the open file on the stream.
    StreamContent,
    /// Start to watch the directory of the module and all below it.
    Watch,
    /// Ask the watch for the next change.
    Poll,
    /// Nothing: the session is over, with this outcome.
    Finish(Result<(), ErrorKind>),
}

/// A request, with strings as texts.
pub enum RootRequestView {
    Receive,
    Resolve { path: Seq<char> },
    ListDir { parts: Seq<Seq<char>> },
    OpenFile { parts: Seq<Seq<char>> },
    StatFile,
    StreamContent,
    Watch,
    Poll,
    Finish(Result<(), ErrorKind>),
}

impl View for RootRequest {
    type V = RootRequestView;

    open spec fn view(&self) -> RootRequestView {
        match self {
            RootRequest::Receive => RootRequestView::Receive,
            RootRequest::Resolve { path } => RootRequestView::Resolve { path: path@ },
            RootRequest::ListDir { parts } => RootRequestView::ListDir { parts: texts(parts@) },
            RootRequest::OpenFile { parts } => RootRequestView::OpenFile { parts: texts(parts@) },
            RootRequest::StatFile => RootRequestView::StatFile,
            RootRequest::StreamContent => RootRequestView::StreamContent,
            RootRequest::Watch => RootRequestView::Watch,
            RootRequest::Poll => RootRequestView::Poll,
            RootRequest::Finish(r) => RootRequestView::Finish(*r),
        }
    }
}

/// What a message sequence says.
pub open spec fn message_views(ms: Seq<Message>) -> Seq<MessageView> {
    Seq::new(ms.len(), |i: int| ms[i]@)
}

/// The answer of a session to what it was told: first let go of the open
/// file if `release` says so, after that send the messages of `send` in
/// their order, and last do `next`.
#[derive(Debug)]
pub struct RootStep {
    pub release: bool,
    pub send: Vec<Message>,
    pub next: RootRequest,
}

/// An answer, with strings as texts.
pub struct RootStepView {
    pub release: bool,
    pub send: Seq<MessageView>,
    pub next: RootRequestView,
}

impl View for RootStep {
    type V = RootStepView;

    open spec fn view(&self) -> RootStepView {
        RootStepView { release: self.release, send: message_views(self.send@), next: self.next@ }
    }
}

/// Where a root session stands.
#[derive(Clone, Copy, Debug, PartialEq, Eq, Structural)]
pub enum RootStage {
    /// The node has yet to name a module that is served.
    Handshake,
    /// The directory of the module is being made absolute.
    Resolving,
    /// `BeginSync` is sent and not yet acknowledged.
    SyncOffered,
    /// A directory is being listed.
    Listing,
    /// A file is being opened and hashed.
    Hashing,
    /// A `FileHeader` is sent and not yet answered.
    Offered,
    /// The size of the file that the node wants is being found.
    Sizing,
    /// The content of the file is being sent.
    Streaming,
    /// The content is sent and not yet acknowledged.
    Delivered,
    /// `EndSync` is sent and not yet acknowledged.
    SyncClosing,
    /// The watch is being started.
    Arming,
    /// The watch is being asked for a change.
    Polling,
    /// A `Heartbeat` is sent and not yet answered.
    Probing,
    /// A `Remove` or `Rename` is sent and not yet acknowledged.
    Notified,
    /// The session is over.
    Finished,
}

/// The state of a root session.
pub struct RootSessionView {
    pub stage: RootStage,
    /// The absolute directory of the module, once the handshake is done.
    pub dir: Option<Seq<char>>,
    /// The walk over the module, while the whole of it is being sent.
    pub walk: Option<WalkerView>,
    /// Whether the watch has been started.
    pub live: bool,
    /// When the last heartbeat was sent, or the watch started.
    pub last_heartbeat: u64,
    /// The names of the file that is being offered or sent.
    pub current: Option<Seq<Seq<char>>>,
}

impl RootSessionView {
    /// A session on a connection that was just accepted.
    pub open spec fn start() -> RootSessionView {
        RootSessionView {
            stage: RootStage::Handshake,
            dir: None,
            walk: None,
            live: false,
            last_heartbeat: 0,
            current: None,
        }
    }

    /// The paths that the session holds are clean, it holds what its
    /// stage needs, and the directory of the module is bound exactly from
    /// the end of the handshake on.
    pub open spec fn wf(self) -> bool {
        &&& self.stage == RootStage::Handshake || self.stage == RootStage::Resolving
            ==> self.dir is None
        &&& self.stage != RootStage::Handshake && self.stage != RootStage::Resolving && self.stage
            != RootStage::Finished ==> self.dir is Some
        &&& self.walk matches Some(w) ==> w.wf()
        &&& self.current matches Some(parts) ==> clean(parts) && parts.len() > 0
        &&& self.stage == RootStage::Listing ==> self.walk is Some
        &&& self.stage == RootStage::Hashing ==> self.current is Some
    }

    /// The session ends with `result`.
    pub open spec fn end(self, result: Result<(), ErrorKind>) -> (RootSessionView, RootStepView) {
        (
            RootSessionView { stage: RootStage::Finished, walk: None, current: None, ..self },
            RootStepView { release: true, send: seq![], next: RootRequestView::Finish(result) },
        )
    }

    /// The session answers a `Close` with a `Close` and ends well.
    pub open spec fn close(self) -> (RootSessionView, RootStepView) {
        (
            RootSessionView { stage: RootStage::Finished, walk: None, current: None, ..self },
            RootStepView {
                release: true,
                send: seq![MessageView::Close],
                next: RootRequestView::Finish(Ok(())),
            },
        )
    }

    /// The session moves to `stage`, sends `send` and wants `next`.
    pub open spec fn go(self, stage: RootStage, send: Seq<MessageView>, next: RootRequestView) -> (
        RootSessionView,
        RootStepView,
    ) {
        (RootSessionView { stage, ..self }, RootStepView { release: false, send, next })
    }

    /// The session goes back to asking the watch.
    pub open spec fn poll(self, release: bool) -> (RootSessionView, RootStepView) {
        (
            RootSessionView { stage: RootStage::Polling, current: None, ..self },
            RootStepView { release, send: seq![], next: RootRequestView::Poll },
        )
    }

    /// The session is done with a file, or with a listing, and goes on: to
    /// what the walk comes to next while the whole module is being sent,
    /// and else back to the watch.
    pub open spec fn advance(self, release: bool) -> (RootSessionView, RootStepView) {
        match self.walk {
            None => self.poll(release),
            Some(walk) => {
                let (after, step) = walk.next();
                match step {
                    WalkStepView::List { parts } => (
                        RootSessionView {
                            stage: RootStage::Listing,
                            walk: Some(after),
                            current: None,
                            ..self
                        },
                        RootStepView {
                            release,
                            send: seq![],
                            next: RootRequestView::ListDir { parts },
                        },
                    ),
                    WalkStepView::File { parts } => (
                        RootSessionView {
                            stage: RootStage::Hashing,
                            walk: Some(after),
                            current: Some(parts),
                            ..self
                        },
                        RootStepView {
                            release,
                            send: seq![],
                            next: RootRequestView::OpenFile { parts },
                        },
                    ),
                    WalkStepView::Done => (
                        RootSessionView {
                            stage: RootStage::SyncClosing,
                            walk: None,
                            current: None,
                            ..self
                        },
                        RootStepView {
                            release,
                            send: seq![MessageView::EndSync],
                            next: RootRequestView::Receive,
                        },
                    ),
                }
            },
        }
    }

    /// The session sends `m` if it can be sent, and then waits in `stage`
    /// for the answer; a message that cannot be sent ends the session.
    pub open spec fn offer(self, stage: RootStage, m: MessageView) -> (
        RootSessionView,
        RootStepView,
    ) {
        if m.encodable() {
            self.go(stage, seq![m], RootRequestView::Receive)
        } else {
            self.end(Err(ErrorKind::Other))
        }
    }

    /// What the session does about a change that the watch saw. A change
    /// to a path that is not clean, which is what lies in a control
    /// directory, is passed over.
    pub open spec fn change(self, c: ChangeView) -> (RootSessionView, RootStepView) {
        match c {
            ChangeView::Create { parts } | ChangeView::Write { parts } => {
                if clean(parts) && parts.len() > 0 {
                    (
                        RootSessionView {
                            stage: RootStage::Hashing,
                            current: Some(parts),
                            ..self
                        },
                        RootStepView {
                            release: false,
                            send: seq![],
                            next: RootRequestView::OpenFile { parts },
                        },
                    )
                } else {
                    self.poll(false)
                }
            },
            ChangeView::Remove { parts } => {
                if clean(parts) && parts.len() > 0 {
                    self.offer(
                        RootStage::Notified,
                        MessageView::Remove { path: joined_path(parts) },
                    )
                } else {
                    self.poll(false)
                }
            },
            ChangeView::Rename { from, to } => {
                if clean(from) && from.len() > 0 && clean(to) && to.len() > 0 {
                    self.offer(
                        RootStage::Notified,
                        MessageView::Rename { old: joined_path(from), new: joined_path(to) },
                    )
                } else {
                    self.poll(false)
                }
            },
            ChangeView::Rescan => self.go(
                RootStage::SyncOffered,
                seq![MessageView::BeginSync],
                RootRequestView::Receive,
            ),
            ChangeView::Other => self.poll(false),
        }
    }

    /// What the session does in the stage `Handshake`.
    pub open spec fn on_handshake(self, config: &Config, e: RootEventView) -> (
        RootSessionView,
        RootStepView,
    ) {
        match e {
            RootEventView::Received(MessageView::Handshake { module }) => match config.served(
                module,
            ) {
                Some(path) => self.go(
                    RootStage::Resolving,
                    seq![],
                    RootRequestView::Resolve { path },
                ),
                None => self.go(
                    RootStage::Handshake,
                    seq![MessageView::NotFound],
                    RootRequestView::Receive,
                ),
            },
            RootEventView::Received(MessageView::Close) => self.close(),
            RootEventView::Received(_) => self.end(Err(ErrorKind::InvalidData)),
            RootEventView::Garbled => self.end(Err(ErrorKind::InvalidData)),
            _ => self.end(Err(ErrorKind::Other)),
        }
    }

    /// What the session does in a stage in which it waits for the node to
    /// acknowledge, once the acknowledgement is there.
    pub open spec fn on_ack(self) -> (RootSessionView, RootStepView) {
        match self.stage {
            RootStage::SyncOffered => RootSessionView {
                walk: Some(WalkerView::start()),
                ..self
            }.advance(false),
            RootStage::Delivered => self.advance(false),
            RootStage::SyncClosing => if self.live {
                self.poll(false)
            } else {
                self.go(RootStage::Arming, seq![], RootRequestView::Watch)
            },
            _ => self.poll(false),
        }
    }

    /// What the session does in a stage in which it waits for the node to
    /// acknowledge or, in the stage `Probing`, to answer a heartbeat.
    pub open spec fn on_awaited(self, e: RootEventView) -> (RootSessionView, RootStepView) {
        match e {
            RootEventView::Received(MessageView::Okay) => if self.stage == RootStage::Probing {
                self.poll(false)
            } else {
                self.on_ack()
            },
            RootEventView::Received(MessageView::Close) => if self.stage == RootStage::Probing {
                self.close()
            } else {
                self.end(Err(ErrorKind::InvalidData))
            },
            RootEventView::Received(_) => self.end(Err(ErrorKind::InvalidData)),
            RootEventView::Garbled => self.end(Err(ErrorKind::InvalidData)),
            _ => self.end(Err(ErrorKind::Other)),
        }
    }

    /// What the session does when the node answers a `FileHeader`.
    pub open spec fn on_reply(self, m: MessageView) -> (RootSessionView, RootStepView) {
        match m {
            MessageView::Okay => self.go(RootStage::Sizing, seq![], RootRequestView::StatFile),
            MessageView::Skip => self.advance(true),
            MessageView::Close => self.end(Ok(())),
            _ => self.end(Err(ErrorKind::InvalidData)),
        }
    }

    /// What the session does when it has nothing from the watch at the
    /// time `now`.
    pub open spec fn on_idle(self, now: u64) -> (RootSessionView, RootStepView) {
        if now > self.last_heartbeat && now - self.last_heartbeat > HEARTBEAT_MS {
            (
                RootSessionView { stage: RootStage::Probing, last_heartbeat: now, ..self },
                RootStepView {
                    release: false,
                    send: seq![MessageView::Heartbeat],
                    next: RootRequestView::Receive,
                },
            )
        } else {
            self.poll(false)
        }
    }

    /// The state after the session was told `e`, and its answer.
    pub open spec fn step(self, config: &Config, e: RootEventView) -> (
        RootSessionView,
        RootStepView,
    ) {
        if self.stage == RootStage::Finished {
            self.end(Err(ErrorKind::Other))
        } else if e is Failed {
            self.end(Err(ErrorKind::Io))
        } else {
            match self.stage {
                RootStage::Handshake => self.on_handshake(config, e),
                RootStage::Resolving => match e {
                    RootEventView::Resolved { dir } => (
                        RootSessionView {
                            stage: RootStage::SyncOffered,
                            dir: Some(dir),
                            ..self
                        },
                        RootStepView {
                            release: false,
                            send: seq![MessageView::Okay, MessageView::BeginSync],
                            next: RootRequestView::Receive,
                        },
                    ),
                    _ => self.end(Err(ErrorKind::Other)),
                },
                RootStage::Listing => match e {
                    RootEventView::Listed { entries } => match self.walk {
                        Some(walk) => RootSessionView {
                            walk: Some(walk.expand(entries)),
                            ..self
                        }.advance(false),
                        None => self.end(Err(ErrorKind::Other)),
                    },
                    _ => self.end(Err(ErrorKind::Other)),
                },
                RootStage::Hashing => match e {
                    RootEventView::Hashed { hash, cert } => match self.current {
                        Some(parts) => self.offer(
                            RootStage::Offered,
                            MessageView::FileHeader { path: joined_path(parts), hash, cert },
                        ),
                        None => self.end(Err(ErrorKind::Other)),
                    },
                    _ => self.end(Err(ErrorKind::Other)),
                },
                RootStage::Offered => match e {
                    RootEventView::Received(m) => self.on_reply(m),
                    RootEventView::Garbled => self.end(Err(ErrorKind::InvalidData)),
                    _ => self.end(Err(ErrorKind::Other)),
                },
                RootStage::Sizing => match e {
                    RootEventView::Sized { size } => self.go(
                        RootStage::Streaming,
                        seq![MessageView::File { size }],
                        RootRequestView::StreamContent,
                    ),
                    _ => self.end(Err(ErrorKind::Other)),
                },
                RootStage::Streaming => match e {
                    RootEventView::ContentSent => (
                        RootSessionView { stage: RootStage::Delivered, ..self },
                        RootStepView {
                            release: true,
                            send: seq![],
                            next: RootRequestView::Receive,
                        },
                    ),
                    _ => self.end(Err(ErrorKind::Other)),
                },
                RootStage::SyncOffered | RootStage::Delivered | RootStage::SyncClosing
                | RootStage::Notified | RootStage::Probing => self.on_awaited(e),
                RootStage::Arming => match e {
                    RootEventView::Watching { now } => (
                        RootSessionView {
                            stage: RootStage::Polling,
                            live: true,
                            last_heartbeat: now,
                            current: None,
                            ..self
                        },
                        RootStepView { release: false, send: seq![], next: RootRequestView::Poll },
                    ),
                    _ => self.end(Err(ErrorKind::Other)),
                },
                RootStage::Polling => match e {
                    RootEventView::Idle { now } => self.on_idle(now),
                    RootEventView::Changed(c) => self.change(c),
                    _ => self.end(Err(ErrorKind::Other)),
                },
                RootStage::Finished => self.end(Err(ErrorKind::Other)),
            }
        }
    }
}

/// Whether a message is fit to be sent by a root: it can be encoded, and
/// every path in it is one that the receiving side takes for safe.
pub open spec fn message_ok(m: MessageView) -> bool {
    &&& m.encodable()
    &&& m matches MessageView::FileHeader { path, .. } ==> safe_relative(path)
    &&& m matches MessageView::Remove { path } ==> safe_relative(path)
    &&& m matches MessageView::Rename { old, new } ==> safe_relative(old) && safe_relative(new)
}

/// Whether a request names only clean paths.
pub open spec fn request_ok(r: RootRequestView) -> bool {
    &&& r matches RootRequestView::ListDir { parts } ==> clean(parts)
    &&& r matches RootRequestView::OpenFile { parts } ==> clean(parts) && parts.len() > 0
}

/// What holds of every step of a root session: the session stays well
/// formed; the directory of the module, once bound, stays as it is; every
/// message sent is fit to be sent; and nothing below a control directory
/// is asked for.
pub open spec fn sound(before: RootSessionView, after: (RootSessionView, RootStepView)) -> bool {
    &&& after.0.wf()
    &&& before.dir is Some ==> after.0.dir == before.dir
    &&& forall|i: int| 0 <= i < after.1.send.len() ==> message_ok(#[trigger] after.1.send[i])
    &&& request_ok(after.1.next)
}

proof fn lemma_advance_sound(s: RootSessionView, release: bool)
    requires
        s.wf(),
        s.dir is Some,
    ensures
        sound(s, s.advance(release)),
{
    if let Some(walk) = s.walk {
        lemma_walk_stays_clean(walk, seq![]);
    }
}

proof fn lemma_offer_sound(s: RootSessionView, stage: RootStage, m: MessageView)
    requires
        s.wf(),
        m.encodable() ==> message_ok(m),
        stage == RootStage::Offered || stage == RootStage::Notified,
        s.dir is Some,
    ensures
        sound(s, s.offer(stage, m)),
{
}

proof fn lemma_change_sound(s: RootSessionView, c: ChangeView)
    requires
        s.wf(),
        s.dir is Some,
    ensures
        sound(s, s.change(c)),
{
    match c {
        ChangeView::Remove { parts } => {
            if clean(parts) && parts.len() > 0 {
                lemma_clean_is_safe(parts);
                lemma_offer_sound(
                    s,
                    RootStage::Notified,
                    MessageView::Remove { path: joined_path(parts) },
                );
            }
        },
        ChangeView::Rename { from, to } => {
            if clean(from) && from.len() > 0 && clean(to) && to.len() > 0 {
                lemma_clean_is_safe(from);
                lemma_clean_is_safe(to);
                lemma_offer_sound(
                    s,
                    RootStage::Notified,
                    MessageView::Rename { old: joined_path(from), new: joined_path(to) },
                );
            }
        },
        ChangeView::Rescan => {
            MessageView::BeginSync.lemma_encodable();
        },
        _ => {},
    }
}

proof fn lemma_plain_messages_ok()
    ensures
        message_ok(MessageView::Okay),
        message_ok(MessageView::Close),
        message_ok(MessageView::NotFound),
        message_ok(MessageView::Heartbeat),
        message_ok(MessageView::BeginSync),
        message_ok(MessageView::EndSync),
        message_ok(MessageView::Skip),
        forall|m: MessageView| m is File ==> #[trigger] message_ok(m),
{
    MessageView::Okay.lemma_encodable();
    MessageView::Close.lemma_encodable();
    MessageView::NotFound.lemma_encodable();
    MessageView::Heartbeat.lemma_encodable();
    MessageView::BeginSync.lemma_encodable();
    MessageView::EndSync.lemma_encodable();
    MessageView::Skip.lemma_encodable();
    assert forall|m: MessageView| m is File implies #[trigger] message_ok(m) by {
        m.lemma_encodable();
    }
}

/// Every step of a well-formed root session is sound. In particular no
/// path below a control directory is ever listed, opened or sent, and the
/// directory that the handshake bound is never bound anew.
pub proof fn lemma_step_sound(s: RootSessionView, config: &Config, e: RootEventView)
    requires
        s.wf(),
    ensures
        RootSessionView::start().wf(),
        sound(s, s.step(config, e)),
{
    lemma_plain_messages_ok();
    if s.stage == RootStage::Finished || e is Failed {
    } else {
        match s.stage {
            RootStage::Listing => {
                if let RootEventView::Listed { entries } = e {
                    let walk = s.walk->0;
                    lemma_walk_stays_clean(walk, entries);
                    lemma_advance_sound(
                        RootSessionView { walk: Some(walk.expand(entries)), ..s },
                        false,
                    );
                }
            },
            RootStage::Hashing => {
                if let RootEventView::Hashed { hash, cert } = e {
                    let parts = s.current->0;
                    lemma_clean_is_safe(parts);
                    lemma_offer_sound(
                        s,
                        RootStage::Offered,
                        MessageView::FileHeader { path: joined_path(parts), hash, cert },
                    );
                }
            },
            RootStage::Offered => {
                lemma_advance_sound(s, true);
            },
            RootStage::Polling => {
                if let RootEventView::Changed(c) = e {
                    lemma_change_sound(s, c);
                }
            },
            RootStage::SyncOffered => {
                lemma_walk_stays_clean(WalkerView::start(), seq![]);
                lemma_advance_sound(RootSessionView { walk: Some(WalkerView::start()), ..s }, false);
            },
            RootStage::Delivered => {
                lemma_advance_sound(s, false);
            },
            _ => {},
        }
    }
}

/// While a session watches, a heartbeat is never overdue for long: after
/// the session was told at the time `now` that nothing changed, the last
/// heartbeat, or the start of the watch, lies no more than the heartbeat
/// interval before `now`; and a heartbeat is sent exactly when, before, it
/// lay further back.
pub proof fn lemma_heartbeat_in_time(s: RootSessionView, config: &Config, now: u64)
    requires
        s.stage == RootStage::Polling,
    ensures
        ({
            let (after, out) = s.step(config, RootEventView::Idle { now });
            &&& now - after.last_heartbeat <= HEARTBEAT_MS
            &&& out.send == if now - s.last_heartbeat > HEARTBEAT_MS {
                seq![MessageView::Heartbeat]
            } else {
                seq![]
            }
            &&& now - s.last_heartbeat > HEARTBEAT_MS ==> after.stage == RootStage::Probing
                && after.last_heartbeat == now
        }),
{
}

/// A file that the node does not want is not sent: the content of a file
/// goes out only after the node has answered its header with `Okay`, and
/// a `Skip` leads on to the next file, or back to the watch, with nothing
/// sent for the file that was offered.
pub proof fn lemma_skip_sends_nothing(s: RootSessionView, config: &Config, e: RootEventView)
    requires
        s.wf(),
    ensures
        ({
            let (after, out) = s.step(config, e);
            &&& (exists|i: int| 0 <= i < out.send.len() && out.send[i] is File) ==> s.stage
                == RootStage::Sizing
            &&& after.stage == RootStage::Sizing ==> s.stage == RootStage::Offered && e
                == RootEventView::Received(MessageView::Okay)
            &&& (exists|i: int| 0 <= i < out.send.len() && out.send[i] is FileHeader) ==> s.stage
                == RootStage::Hashing && out.send.len() == 1
            &&& s.stage == RootStage::Offered && e == RootEventView::Received(MessageView::Skip)
                ==> out.release && after.stage != RootStage::Sizing && after.stage
                != RootStage::Streaming && forall|i: int|
                0 <= i < out.send.len() ==> out.send[i] == MessageView::EndSync
        }),
{
}

/// Whether a root in this stage holds a file open and locked.
pub open spec fn holds_file(stage: RootStage) -> bool {
    stage == RootStage::Offered || stage == RootStage::Sizing || stage == RootStage::Streaming
}

/// At most one file is in flight: a file is asked to be opened only when
/// none is held, or in the step that lets go of the one that is held; a
/// file that is held is let go of in the step after which none is held;
/// and content is sized and sent only of a file that is held.
pub proof fn lemma_one_file_in_flight(s: RootSessionView, config: &Config, e: RootEventView)
    ensures
        ({
            let (after, out) = s.step(config, e);
            &&& out.next is OpenFile ==> !holds_file(s.stage) || out.release
            &&& holds_file(s.stage) && !holds_file(after.stage) ==> out.release
            &&& out.next is StatFile || out.next is StreamContent ==> holds_file(s.stage)
                && holds_file(after.stage) && !out.release
            &&& holds_file(after.stage) && !holds_file(s.stage) ==> s.stage == RootStage::Hashing
                && e is Hashed
        }),
{
}

/// A root session.
pub struct RootSession {
    stage: RootStage,
    dir: Option<String>,
    walk: Walker,
    walking: bool,
    live: bool,
    last_heartbeat: u64,
    current: Option<Vec<String>>,
}

impl View for RootSession {
    type V = RootSessionView;

    closed spec fn view(&self) -> RootSessionView {
        RootSessionView {
            stage: self.stage,
            dir: match self.dir {
                Some(dir) => Some(dir@),
                None => None,
            },
            walk: if self.walking {
                Some(self.walk@)
            } else {
                None
            },
            live: self.live,
            last_heartbeat: self.last_heartbeat,
            current: match self.current {
                Some(parts) => Some(texts(parts@)),
                None => None,
            },
        }
    }
}

/// No messages.
fn no_messages() -> (res: Vec<Message>)
    ensures
        message_views(res@) == Seq::<MessageView>::empty(),
{
    let res: Vec<Message> = Vec::new();
    assert(message_views(res@) =~= Seq::<MessageView>::empty());
    res
}

/// The one message `m`.
fn one_message(m: Message) -> (res: Vec<Message>)
    ensures
        message_views(res@) == seq![m@],
{
    let mut res: Vec<Message> = Vec::new();
    res.push(m);
    assert(message_views(res@) =~= seq![m@]);
    res
}

/// The message `a` and after it the message `b`.
fn two_messages(a: Message, b: Message) -> (res: Vec<Message>)
    ensures
        message_views(res@) == seq![a@, b@],
{
    let mut res: Vec<Message> = Vec::new();
    res.push(a);
    res.push(b);
    assert(message_views(res@) =~= seq![a@, b@]);
    res
}

impl RootSession {
    /// A session on a connection that was just accepted. The first thing
    /// to do for it is to read a message from the node.
    pub fn new() -> (res: RootSession)
        ensures
            res@ == RootSessionView::start(),
    {
        RootSession {
            stage: RootStage::Handshake,
            dir: None,
            walk: Walker::new(),
            walking: false,
            live: false,
            last_heartbeat: 0,
            current: None,
        }
    }

    /// Where the session stands.
    pub fn stage(&self) -> (res: RootStage)
        ensures
            res == self@.stage,
    {
        self.stage
    }

    /// The absolute directory of the module that the session serves, once
    /// the handshake is done.
    pub fn dir(&self) -> (res: Option<&String>)
        ensures
            res is Some <==> self@.dir is Some,
            res matches Some(dir) ==> Some(dir@) == self@.dir,
    {
        match &self.dir {
            Some(dir) => Some(dir),
            None => None,
        }
    }

    fn end(&mut self, result: Result<(), ErrorKind>) -> (out: RootStep)
        ensures
            (final(self)@, out@) == old(self)@.end(result),
    {
        self.stage = RootStage::Finished;
        self.walking = false;
        self.current = None;
        RootStep { release: true, send: no_messages(), next: RootRequest::Finish(result) }
    }

    fn close(&mut self) -> (out: RootStep)
        ensures
            (final(self)@, out@) == old(self)@.close(),
    {
        self.stage = RootStage::Finished;
        self.walking = false;
        self.current = None;
        RootStep {
            release: true,
            send: one_message(Message::Close),
            next: RootRequest::Finish(Ok(())),
        }
    }

    fn poll(&mut self, release: bool) -> (out: RootStep)
        ensures
            (final(self)@, out@) == old(self)@.poll(release),
    {
        self.stage = RootStage::Polling;
        self.current = None;
        RootStep { release, send: no_messages(), next: RootRequest::Poll }
    }

    fn advance(&mut self, release: bool) -> (out: RootStep)
        ensures
            (final(self)@, out@) == old(self)@.advance(release),
    {
        if !self.walking {
            return self.poll(release);
        }
        match self.walk.next() {
            WalkStep::List { parts } => {
                self.stage = RootStage::Listing;
                self.current = None;
                RootStep { release, send: no_messages(), next: RootRequest::ListDir { parts } }
            },
            WalkStep::File { parts } => {
                self.stage = RootStage::Hashing;
                self.current = Some(clone_parts(&parts));
                RootStep { release, send: no_messages(), next: RootRequest::OpenFile { parts } }
            },
            WalkStep::Done => {
                self.stage = RootStage::SyncClosing;
                self.walking = false;
                self.current = None;
                RootStep {
                    release,
                    send: one_message(Message::EndSync),
                    next: RootRequest::Receive,
                }
            },
        }
    }

    fn offer(&mut self, stage: RootStage, m: Message) -> (out: RootStep)
        ensures
            (final(self)@, out@) == old(self)@.offer(stage, m@),
    {
        if m.can_encode() {
            self.stage = stage;
            RootStep { release: false, send: one_message(m), next: RootRequest::Receive }
        } else {
            self.end(Err(ErrorKind::Other))
        }
    }

    fn open(&mut self, parts: Vec<String>) -> (out: RootStep)
        ensures
            (final(self)@, out@) == old(self)@.change(ChangeView::Create { parts: texts(parts@) }),
    {
        if is_clean(&parts) && parts.len() > 0 {
            self.stage = RootStage::Hashing;
            self.current = Some(clone_parts(&parts));
            RootStep { release: false, send: no_messages(), next: RootRequest::OpenFile { parts } }
        } else {
            self.poll(false)
        }
    }

    fn change(&mut self, c: Change) -> (out: RootStep)
        ensures
            (final(self)@, out@) == old(self)@.change(c@),
    {
        match c {
            Change::Create { parts } => self.open(parts),
            Change::Write { parts } => self.open(parts),
            Change::Remove { parts } => {
                if is_clean(&parts) && parts.len() > 0 {
                    self.offer(RootStage::Notified, Message::Remove { path: join_parts(&parts) })
                } else {
                    self.poll(false)
                }
            },
            Change::Rename { from, to } => {
                if is_clean(&from) && from.len() > 0 && is_clean(&to) && to.len() > 0 {
                    self.offer(
                        RootStage::Notified,
                        Message::Rename { old: join_parts(&from), new: join_parts(&to) },
                    )
                } else {
                    self.poll(false)
                }
            },
            Change::Rescan => {
                self.stage = RootStage::SyncOffered;
                RootStep {
                    release: false,
                    send: one_message(Message::BeginSync),
                    next: RootRequest::Receive,
                }
            },
            Change::Other => self.poll(false),
        }
    }

    fn on_handshake(&mut self, config: &Config, event: RootEvent) -> (out: RootStep)
        requires
            config.wf(),
        ensures
            (final(self)@, out@) == old(self)@.on_handshake(config, event@),
    {
        match event {
            RootEvent::Received(Message::Handshake { module }) => {
                match config.resolve(module.as_str()) {
                    Some(path) => {
                        self.stage = RootStage::Resolving;
                        RootStep {
                            release: false,
                            send: no_messages(),
                            next: RootRequest::Resolve { path },
                        }
                    },
                    None => {
                        self.stage = RootStage::Handshake;
                        RootStep {
                            release: false,
                            send: one_message(Message::NotFound),
                            next: RootRequest::Receive,
                        }
                    },
                }
            },
            RootEvent::Received(Message::Close) => self.close(),
            RootEvent::Received(_) => self.end(Err(ErrorKind::InvalidData)),
            RootEvent::Garbled => self.end(Err(ErrorKind::InvalidData)),
            _ => self.end(Err(ErrorKind::Other)),
        }
    }

    fn on_ack(&mut self) -> (out: RootStep)
        ensures
            (final(self)@, out@) == old(self)@.on_ack(),
    {
        match self.stage {
            RootStage::SyncOffered => {
                self.walk = Walker::new();
                self.walking = true;
                self.advance(false)
            },
            RootStage::Delivered => self.advance(false),
            RootStage::SyncClosing => {
                if self.live {
                    self.poll(false)
                } else {
                    self.stage = RootStage::Arming;
                    RootStep { release: false, send: no_messages(), next: RootRequest::Watch }
                }
            },
            _ => self.poll(false),
        }
    }

    fn on_reply(&mut self, m: Message) -> (out: RootStep)
        ensures
            (final(self)@, out@) == old(self)@.on_reply(m@),
    {
        match m {
            Message::Okay => {
                self.stage = RootStage::Sizing;
                RootStep { release: false, send: no_messages(), next: RootRequest::StatFile }
            },
            Message::Skip => self.advance(true),
            Message::Close => self.end(Ok(())),
            _ => self.end(Err(ErrorKind::InvalidData)),
        }
    }

    fn on_idle(&mut self, now: u64) -> (out: RootStep)
        ensures
            (final(self)@, out@) == old(self)@.on_idle(now),
    {
        if now > self.last_heartbeat && now - self.last_heartbeat > HEARTBEAT_MS {
            self.stage = RootStage::Probing;
            self.last_heartbeat = now;
            RootStep {
                release: false,
                send: one_message(Message::Heartbeat),
                next: RootRequest::Receive,
            }
        } else {
            self.poll(false)
        }
    }

    fn on_awaited(&mut self, event: RootEvent) -> (out: RootStep)
        requires
            old(self)@.stage == RootStage::SyncOffered || old(self)@.stage == RootStage::Delivered
                || old(self)@.stage == RootStage::SyncClosing || old(self)@.stage
                == RootStage::Notified || old(self)@.stage == RootStage::Probing,
        ensures
            (final(self)@, out@) == old(self)@.on_awaited(event@),
    {
        match event {
            RootEvent::Received(Message::Okay) => {
                if self.stage == RootStage::Probing {
                    self.poll(false)
                } else {
                    self.on_ack()
                }
            },
            RootEvent::Received(Message::Close) => {
                if self.stage == RootStage::Probing {
                    self.close()
                } else {
                    self.end(Err(ErrorKind::InvalidData))
                }
            },
            RootEvent::Received(_) => self.end(Err(ErrorKind::InvalidData)),
            RootEvent::Garbled => self.end(Err(ErrorKind::InvalidData)),
            _ => self.end(Err(ErrorKind::Other)),
        }
    }

    /// Tells the session what happened, and gives its answer.
    pub fn step(&mut self, config: &Config, event: RootEvent) -> (out: RootStep)
        requires
            config.wf(),
        ensures
            (final(self)@, out@) == old(self)@.step(config, event@),
    {
        if self.stage == RootStage::Finished {
            return self.end(Err(ErrorKind::Other));
        }
        match event {
            RootEvent::Failed => {
                return self.end(Err(ErrorKind::Io));
            },
            _ => {},
        }
        match self.stage {
            RootStage::Handshake => self.on_handshake(config, event),
            RootStage::Resolving => match event {
                RootEvent::Resolved { dir } => {
                    self.stage = RootStage::SyncOffered;
                    self.dir = Some(dir);
                    RootStep {
                        release: false,
                        send: two_messages(Message::Okay, Message::BeginSync),
                        next: RootRequest::Receive,
                    }
                },
                _ => self.end(Err(ErrorKind::Other)),
            },
            RootStage::Listing => match event {
                RootEvent::Listed { entries } => {
                    if self.walking {
                        self.walk.expand(&entries);
                        self.advance(false)
                    } else {
                        self.end(Err(ErrorKind::Other))
                    }
                },
                _ => self.end(Err(ErrorKind::Other)),
            },
            RootStage::Hashing => match event {
                RootEvent::Hashed { hash, cert } => {
                    let path = match &self.current {
                        Some(parts) => Some(join_parts(parts)),
                        None => None,
                    };
                    match path {
                        Some(path) => self.offer(
                            RootStage::Offered,
                            Message::FileHeader { path, hash, cert },
                        ),
                        None => self.end(Err(ErrorKind::Other)),
                    }
                },
                _ => self.end(Err(ErrorKind::Other)),
            },
            RootStage::Offered => match event {
                RootEvent::Received(m) => self.on_reply(m),
                RootEvent::Garbled => self.end(Err(ErrorKind::InvalidData)),
                _ => self.end(Err(ErrorKind::Other)),
            },
            RootStage::Sizing => match event {
                RootEvent::Sized { size } => {
                    self.stage = RootStage::Streaming;
                    RootStep {
                        release: false,
                        send: one_message(Message::File { size }),
                        next: RootRequest::StreamContent,
                    }
                },
                _ => self.end(Err(ErrorKind::Other)),
            },
            RootStage::Streaming => match event {
                RootEvent::ContentSent => {
                    self.stage = RootStage::Delivered;
                    RootStep { release: true, send: no_messages(), next: RootRequest::Receive }
                },
                _ => self.end(Err(ErrorKind::Other)),
            },
            RootStage::Arming => match event {
                RootEvent::Watching { now } => {
                    self.live = true;
                    self.last_heartbeat = now;
                    self.poll(false)
                },
                _ => self.end(Err(ErrorKind::Other)),
            },
            RootStage::Polling => match event {
                RootEvent::Idle { now } => self.on_idle(now),
                RootEvent::Changed(c) => self.change(c),
                _ => self.end(Err(ErrorKind::Other)),
            },
            RootStage::Finished => self.end(Err(ErrorKind::Other)),
            _ => self.on_awaited(event),
        }
    }
}

} // verus!
