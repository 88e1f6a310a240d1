//! The messages of the synchronisation protocol and their wire form.
//!
//! A message is one kind byte followed by its fields in declaration order.
//! The numbering of the kinds is part of the protocol: both peers must agree
//! on it.

use crate::wire::{
    all_fit, be64, fits, lemma_be64_inverse, lemma_from_be32_prefix, lemma_parse_strings_exact,
    lemma_parse_strings_wire, parse_strings, parse_u64, read_matches, read_strings, read_u64,
    string_fits, strings_wire, texts, write_string, write_u64, write_u8, DecodeError, Parsed,
};
use vstd::prelude::*;

verus! {

/// The kind of a message, sent as its first byte.
#[derive(Clone, Copy, Debug, PartialEq, Eq, Hash, Structural)]
pub enum PacketKind {
    Okay,
    Close,
    Handshake,
    NotFound,
    Heartbeat,
    BeginSync,
    EndSync,
    FileHeader,
    File,
    Remove,
    Rename,
    Skip,
}

impl PacketKind {
    /// The byte that stands for this kind on the wire.
    pub open spec fn spec_code(self) -> u8 {
        match self {
            PacketKind::Okay => 0x1,
            PacketKind::Close => 0x2,
            PacketKind::Handshake => 0x3,
            PacketKind::NotFound => 0x4,
            PacketKind::Heartbeat => 0x5,
            PacketKind::BeginSync => 0x6,
            PacketKind::EndSync => 0x7,
            PacketKind::FileHeader => 0x8,
            PacketKind::File => 0x9,
            PacketKind::Remove => 0xA,
            PacketKind::Rename => 0xB,
            PacketKind::Skip => 0xC,
        }
    }

    /// The kind that a byte stands for, if any.
    pub open spec fn spec_from_u8(b: u8) -> Option<PacketKind> {
        if b == 0x1 {
            Some(PacketKind::Okay)
        } else if b == 0x2 {
            Some(PacketKind::Close)
        } else if b == 0x3 {
            Some(PacketKind::Handshake)
        } else if b == 0x4 {
            Some(PacketKind::NotFound)
        } else if b == 0x5 {
            Some(PacketKind::Heartbeat)
        } else if b == 0x6 {
            Some(PacketKind::BeginSync)
        } else if b == 0x7 {
            Some(PacketKind::EndSync)
        } else if b == 0x8 {
            Some(PacketKind::FileHeader)
        } else if b == 0x9 {
            Some(PacketKind::File)
        } else if b == 0xA {
            Some(PacketKind::Remove)
        } else if b == 0xB {
            Some(PacketKind::Rename)
        } else if b == 0xC {
            Some(PacketKind::Skip)
        } else {
            None
        }
    }

    /// How many string fields a message of this kind carries.
    pub open spec fn spec_string_fields(self) -> nat {
        match self {
            PacketKind::Handshake => 1,
            PacketKind::FileHeader => 3,
            PacketKind::Remove => 1,
            PacketKind::Rename => 2,
            _ => 0,
        }
    }

    /// The byte that stands for this kind on the wire.
    #[verifier::when_used_as_spec(spec_code)]
    pub fn code(self) -> (res: u8)
        ensures
            res == self.spec_code(),
    {
        match self {
            PacketKind::Okay => 0x1,
            PacketKind::Close => 0x2,
            PacketKind::Handshake => 0x3,
            PacketKind::NotFound => 0x4,
            PacketKind::Heartbeat => 0x5,
            PacketKind::BeginSync => 0x6,
            PacketKind::EndSync => 0x7,
            PacketKind::FileHeader => 0x8,
            PacketKind::File => 0x9,
            PacketKind::Remove => 0xA,
            PacketKind::Rename => 0xB,
            PacketKind::Skip => 0xC,
        }
    }

    /// The kind that `b` stands for; `None` for a byte that is no kind.
    pub fn from_u8(b: u8) -> (res: Option<PacketKind>)
        ensures
            res == Self::spec_from_u8(b),
            res is Some <==> 1 <= b <= 12,
            res matches Some(k) ==> k.code() == b,
    {
        match b {
            0x1 => Some(PacketKind::Okay),
            0x2 => Some(PacketKind::Close),
            0x3 => Some(PacketKind::Handshake),
            0x4 => Some(PacketKind::NotFound),
            0x5 => Some(PacketKind::Heartbeat),
            0x6 => Some(PacketKind::BeginSync),
            0x7 => Some(PacketKind::EndSync),
            0x8 => Some(PacketKind::FileHeader),
            0x9 => Some(PacketKind::File),
            0xA => Some(PacketKind::Remove),
            0xB => Some(PacketKind::Rename),
            0xC => Some(PacketKind::Skip),
            _ => None,
        }
    }

    /// Every kind is found again from its byte, and a byte that is a kind
    /// is that kind's byte.
    pub proof fn lemma_code_inverse(self, b: u8)
        ensures
            Self::spec_from_u8(self.code()) == Some(self),
            Self::spec_from_u8(b) matches Some(k) ==> k.code() == b,
    {
    }
}

/// Anything that is sent under a kind byte.
pub trait Packet {
    /// The kind under which this value is sent.
    spec fn spec_kind(&self) -> PacketKind;

    /// The kind under which this value is sent.
    fn kind(&self) -> (res: PacketKind)
        ensures
            res == self.spec_kind(),
    ;
}

/// A message of the protocol.
#[derive(Debug, PartialEq, Eq)]
pub enum Message {
    /// Acknowledges what was received.
    Okay,
    /// Ends the conversation; the other side answers with the same.
    Close,
    /// Asks for a module by its name.
    Handshake { module: String },
    /// The module asked for is not served.
    NotFound,
    /// Probes whether the other side is alive.
    Heartbeat,
    /// A transfer of the whole module starts.
    BeginSync,
    /// The transfer of the whole module is over.
    EndSync,
    /// Announces a file: its path below the module, the digest of its
    /// content, and the signature of that digest.
    FileHeader { path: String, hash: String, cert: String },
    /// The content of the file announced last follows: `size` bytes.
    File { size: u64 },
    /// The file at `path` is gone.
    Remove { path: String },
    /// The file at `old` is now at `new`.
    Rename { old: String, new: String },
    /// The file announced last is not wanted.
    Skip,
}

/// What a message says, with each string as its text.
pub enum MessageView {
    Okay,
    Close,
    Handshake { module: Seq<char> },
    NotFound,
    Heartbeat,
    BeginSync,
    EndSync,
    FileHeader { path: Seq<char>, hash: Seq<char>, cert: Seq<char> },
    File { size: u64 },
    Remove { path: Seq<char> },
    Rename { old: Seq<char>, new: Seq<char> },
    Skip,
}

impl View for Message {
    type V = MessageView;

    open spec fn view(&self) -> MessageView {
        match self {
            Message::Okay => MessageView::Okay,
            Message::Close => MessageView::Close,
            Message::Handshake { module } => MessageView::Handshake { module: module@ },
            Message::NotFound => MessageView::NotFound,
            Message::Heartbeat => MessageView::Heartbeat,
            Message::BeginSync => MessageView::BeginSync,
            Message::EndSync => MessageView::EndSync,
            Message::FileHeader { path, hash, cert } => MessageView::FileHeader {
                path: path@,
                hash: hash@,
                cert: cert@,
            },
            Message::File { size } => MessageView::File { size: *size },
            Message::Remove { path } => MessageView::Remove { path: path@ },
            Message::Rename { old, new } => MessageView::Rename { old: old@, new: new@ },
            Message::Skip => MessageView::Skip,
        }
    }
}

impl MessageView {
    /// The kind under which the message is sent.
    pub open spec fn kind(self) -> PacketKind {
        match self {
            MessageView::Okay => PacketKind::Okay,
            MessageView::Close => PacketKind::Close,
            MessageView::Handshake { .. } => PacketKind::Handshake,
            MessageView::NotFound => PacketKind::NotFound,
            MessageView::Heartbeat => PacketKind::Heartbeat,
            MessageView::BeginSync => PacketKind::BeginSync,
            MessageView::EndSync => PacketKind::EndSync,
            MessageView::FileHeader { .. } => PacketKind::FileHeader,
            MessageView::File { .. } => PacketKind::File,
            MessageView::Remove { .. } => PacketKind::Remove,
            MessageView::Rename { .. } => PacketKind::Rename,
            MessageView::Skip => PacketKind::Skip,
        }
    }

    /// The string fields of the message, in declaration order.
    pub open spec fn strings(self) -> Seq<Seq<char>> {
        match self {
            MessageView::Handshake { module } => seq![module],
            MessageView::FileHeader { path, hash, cert } => seq![path, hash, cert],
            MessageView::Remove { path } => seq![path],
            MessageView::Rename { old, new } => seq![old, new],
            _ => seq![],
        }
    }

    /// The message of kind `kind` with the string fields `strings`; for a
    /// `File`, the one that announces `size` bytes.
    pub open spec fn build(kind: PacketKind, strings: Seq<Seq<char>>, size: u64) -> MessageView {
        match kind {
            PacketKind::Okay => MessageView::Okay,
            PacketKind::Close => MessageView::Close,
            PacketKind::Handshake => MessageView::Handshake { module: strings[0] },
            PacketKind::NotFound => MessageView::NotFound,
            PacketKind::Heartbeat => MessageView::Heartbeat,
            PacketKind::BeginSync => MessageView::BeginSync,
            PacketKind::EndSync => MessageView::EndSync,
            PacketKind::FileHeader => MessageView::FileHeader {
                path: strings[0],
                hash: strings[1],
                cert: strings[2],
            },
            PacketKind::File => MessageView::File { size },
            PacketKind::Remove => MessageView::Remove { path: strings[0] },
            PacketKind::Rename => MessageView::Rename { old: strings[0], new: strings[1] },
            PacketKind::Skip => MessageView::Skip,
        }
    }

    /// Whether the message can be sent: each of its strings must fit.
    pub open spec fn encodable(self) -> bool {
        all_fit(self.strings())
    }

    /// What it takes for each kind of message to be sendable.
    pub proof fn lemma_encodable(self)
        ensures
            self.encodable() <==> match self {
                MessageView::Handshake { module } => string_fits(module),
                MessageView::FileHeader { path, hash, cert } => string_fits(path) && string_fits(
                    hash,
                ) && string_fits(cert),
                MessageView::Remove { path } => string_fits(path),
                MessageView::Rename { old, new } => string_fits(old) && string_fits(new),
                _ => true,
            },
    {
        let l = self.strings();
        if self.encodable() {
            if l.len() > 0 {
                assert(string_fits(l[0]));
            }
            if l.len() > 1 {
                assert(string_fits(l[1]));
            }
            if l.len() > 2 {
                assert(string_fits(l[2]));
            }
        }
    }

    /// The bytes that are sent after the kind byte.
    pub open spec fn body(self) -> Seq<u8> {
        match self {
            MessageView::File { size } => be64(size),
            _ => strings_wire(self.strings()),
        }
    }

    /// The bytes that are sent for the message.
    pub open spec fn wire(self) -> Seq<u8> {
        seq![self.kind().code()] + self.body()
    }
}

/// Reading the fields of a message of kind `kind`.
pub open spec fn parse_body(kind: PacketKind, b: Seq<u8>) -> Parsed<MessageView> {
    if kind == PacketKind::File {
        match parse_u64(b) {
            Parsed::Done { value, used } => Parsed::Done {
                value: MessageView::File { size: value },
                used,
            },
            Parsed::Short { missing } => Parsed::Short { missing },
            Parsed::Bad => Parsed::Bad,
        }
    } else {
        match parse_strings(b, kind.spec_string_fields()) {
            Parsed::Done { value, used } => Parsed::Done {
                value: MessageView::build(kind, value, 0),
                used,
            },
            Parsed::Short { missing } => Parsed::Short { missing },
            Parsed::Bad => Parsed::Bad,
        }
    }
}

/// Reading a message: the kind byte, then the fields of that kind. A first
/// byte that is no kind makes the bytes invalid.
pub open spec fn parse_message(b: Seq<u8>) -> Parsed<MessageView> {
    if b.len() < 1 {
        Parsed::Short { missing: 1 }
    } else {
        match PacketKind::spec_from_u8(b[0]) {
            None => Parsed::Bad,
            Some(kind) => match parse_body(kind, b.skip(1)) {
                Parsed::Done { value, used } => Parsed::Done { value, used: 1 + used },
                Parsed::Short { missing } => Parsed::Short { missing },
                Parsed::Bad => Parsed::Bad,
            },
        }
    }
}

/// The fields of a message are read back from the bytes sent after its
/// kind byte, whatever follows them.
pub proof fn lemma_parse_body_wire(m: MessageView, rest: Seq<u8>)
    requires
        m.encodable(),
    ensures
        parse_body(m.kind(), m.body() + rest) == (Parsed::Done { value: m, used: m.body().len() }),
{
    match m {
        MessageView::File { size } => {
            lemma_be64_inverse(size, seq![]);
            let b = m.body() + rest;
            assert(b.take(4) =~= be64(size).take(4));
            assert(b.skip(4).take(4) =~= be64(size).skip(4).take(4));
            lemma_from_be32_prefix(b);
            lemma_from_be32_prefix(b.skip(4));
            lemma_from_be32_prefix(be64(size));
            lemma_from_be32_prefix(be64(size).skip(4));
        },
        _ => {
            lemma_parse_strings_wire(m.strings(), rest);
        },
    }
}

/// Decoding undoes encoding: a message that can be sent is read back from
/// its bytes, whatever follows them on the stream.
pub proof fn lemma_parse_message_wire(m: MessageView, rest: Seq<u8>)
    requires
        m.encodable(),
    ensures
        parse_message(m.wire() + rest) == (Parsed::Done { value: m, used: m.wire().len() }),
{
    let b = m.wire() + rest;
    m.kind().lemma_code_inverse(0);
    assert(b.skip(1) =~= m.body() + rest);
    lemma_parse_body_wire(m, rest);
}

/// Encoding undoes decoding: the bytes from which a message was read are
/// the bytes that are sent for it.
pub proof fn lemma_parse_message_exact(b: Seq<u8>)
    ensures
        parse_message(b) matches Parsed::Done { value, used } ==> value.encodable() && used
            <= b.len() && b.take(used as int) == value.wire(),
{
    if let Parsed::Done { value, used } = parse_message(b) {
        let kind = PacketKind::spec_from_u8(b[0])->0;
        kind.lemma_code_inverse(b[0]);
        let tail = b.skip(1);
        if kind == PacketKind::File {
            lemma_be64_inverse(0, tail.take(8));
            assert(tail.take(8).skip(4) =~= tail.skip(4).take(4));
            lemma_from_be32_prefix(tail);
            lemma_from_be32_prefix(tail.skip(4));
            lemma_from_be32_prefix(tail.take(8));
            lemma_from_be32_prefix(tail.take(8).skip(4));
            assert(tail.take(8).take(4) =~= tail.take(4));
            assert(tail.skip(4).take(4).take(4) =~= tail.skip(4).take(4));
            assert(b.take(9) =~= seq![b[0]] + tail.take(8));
        } else {
            lemma_parse_strings_exact(tail, kind.spec_string_fields());
            let used_body = (used - 1) as nat;
            let strings = parse_strings(tail, kind.spec_string_fields())->value;
            assert(value.strings() =~= strings);
            assert(b.take(used as int) =~= seq![b[0]] + tail.take(used_body as int));
        }
    }
}

impl Clone for Message {
    fn clone(&self) -> (res: Self)
        ensures
            res@ == self@,
    {
        match self {
            Message::Okay => Message::Okay,
            Message::Close => Message::Close,
            Message::Handshake { module } => Message::Handshake { module: module.clone() },
            Message::NotFound => Message::NotFound,
            Message::Heartbeat => Message::Heartbeat,
            Message::BeginSync => Message::BeginSync,
            Message::EndSync => Message::EndSync,
            Message::FileHeader { path, hash, cert } => Message::FileHeader {
                path: path.clone(),
                hash: hash.clone(),
                cert: cert.clone(),
            },
            Message::File { size } => Message::File { size: *size },
            Message::Remove { path } => Message::Remove { path: path.clone() },
            Message::Rename { old, new } => Message::Rename { old: old.clone(), new: new.clone() },
            Message::Skip => Message::Skip,
        }
    }
}

impl Packet for Message {
    open spec fn spec_kind(&self) -> PacketKind {
        self@.kind()
    }

    fn kind(&self) -> (res: PacketKind) {
        match self {
            Message::Okay => PacketKind::Okay,
            Message::Close => PacketKind::Close,
            Message::Handshake { .. } => PacketKind::Handshake,
            Message::NotFound => PacketKind::NotFound,
            Message::Heartbeat => PacketKind::Heartbeat,
            Message::BeginSync => PacketKind::BeginSync,
            Message::EndSync => PacketKind::EndSync,
            Message::FileHeader { .. } => PacketKind::FileHeader,
            Message::File { .. } => PacketKind::File,
            Message::Remove { .. } => PacketKind::Remove,
            Message::Rename { .. } => PacketKind::Rename,
            Message::Skip => PacketKind::Skip,
        }
    }
}

impl Message {
    /// Whether the message can be sent.
    pub fn can_encode(&self) -> (res: bool)
        ensures
            res == self@.encodable(),
    {
        proof {
            self@.lemma_encodable();
        }
        match self {
            Message::Handshake { module } => fits(module.as_str()),
            Message::FileHeader { path, hash, cert } => {
                let ok = fits(path.as_str()) && fits(hash.as_str()) && fits(cert.as_str());
                ok
            },
            Message::Remove { path } => fits(path.as_str()),
            Message::Rename { old, new } => {
                let ok = fits(old.as_str()) && fits(new.as_str());
                ok
            },
            _ => true,
        }
    }

    /// Appends the bytes of the message to `out`, and returns how many
    /// they are.
    pub fn write_to(&self, out: &mut Vec<u8>) -> (written: usize)
        requires
            self@.encodable(),
            old(out)@.len() + self@.wire().len() <= usize::MAX,
        ensures
            final(out)@ == old(out)@ + self@.wire(),
            written == self@.wire().len(),
    {
        let before = out.len();
        write_u8(out, self.kind().code());
        proof {
            reveal_with_fuel(strings_wire, 4);
            self@.lemma_encodable();
        }
        match self {
            Message::Handshake { module } => {
                write_string(out, module.as_str());
            },
            Message::FileHeader { path, hash, cert } => {
                write_string(out, path.as_str());
                write_string(out, hash.as_str());
                write_string(out, cert.as_str());
            },
            Message::File { size } => {
                write_u64(out, *size);
            },
            Message::Remove { path } => {
                write_string(out, path.as_str());
            },
            Message::Rename { old, new } => {
                write_string(out, old.as_str());
                write_string(out, new.as_str());
            },
            _ => {},
        }
        assert(out@ =~= old(out)@ + self@.wire());
        out.len() - before
    }

    /// The bytes of the message; `None` where it cannot be sent because a
    /// string in it is too long for its length to be written.
    pub fn encode(&self) -> (res: Option<Vec<u8>>)
        ensures
            res is Some <==> self@.encodable(),
            res matches Some(bytes) ==> bytes@ == self@.wire(),
    {
        if !self.can_encode() {
            return None;
        }
        let mut out: Vec<u8> = Vec::new();
        write_u8(&mut out, self.kind().code());
        proof {
            reveal_with_fuel(strings_wire, 4);
            self@.lemma_encodable();
        }
        match self {
            Message::Handshake { module } => {
                write_string(&mut out, module.as_str());
            },
            Message::FileHeader { path, hash, cert } => {
                write_string(&mut out, path.as_str());
                write_string(&mut out, hash.as_str());
                write_string(&mut out, cert.as_str());
            },
            Message::File { size } => {
                write_u64(&mut out, *size);
            },
            Message::Remove { path } => {
                write_string(&mut out, path.as_str());
            },
            Message::Rename { old, new } => {
                write_string(&mut out, old.as_str());
                write_string(&mut out, new.as_str());
            },
            _ => {},
        }
        assert(out@ =~= self@.wire());
        Some(out)
    }

    /// Reads one message from the front of `bytes`.
    ///
    /// Gives the message and the number of bytes that encode it; or, where
    /// `bytes` end too early, the number of bytes that are needed at least
    /// before a message can be told; or says that no message begins so.
    pub fn decode(bytes: &[u8]) -> (res: Result<(Message, usize), DecodeError>)
        ensures
            read_matches(res, 0, parse_message(bytes@), |a: Message, b: MessageView| a@ == b),
    {
        if bytes.len() < 1 {
            return Err(DecodeError::Incomplete(1));
        }
        let kind = match PacketKind::from_u8(bytes[0]) {
            Some(k) => k,
            None => { return Err(DecodeError::Invalid); },
        };
        match kind {
            PacketKind::Okay => Ok((Message::Okay, 1)),
            PacketKind::Close => Ok((Message::Close, 1)),
            PacketKind::NotFound => Ok((Message::NotFound, 1)),
            PacketKind::Heartbeat => Ok((Message::Heartbeat, 1)),
            PacketKind::BeginSync => Ok((Message::BeginSync, 1)),
            PacketKind::EndSync => Ok((Message::EndSync, 1)),
            PacketKind::Skip => Ok((Message::Skip, 1)),
            PacketKind::File => {
                let (size, next) = read_u64(bytes, 1)?;
                Ok((Message::File { size }, next))
            },
            PacketKind::Handshake => {
                let (mut fields, next) = read_strings(bytes, 1, 1)?;
                let ghost all = texts(fields@);
                let module = fields.pop().unwrap();
                assert(module@ == all[0]);
                Ok((Message::Handshake { module }, next))
            },
            PacketKind::Remove => {
                let (mut fields, next) = read_strings(bytes, 1, 1)?;
                let ghost all = texts(fields@);
                let path = fields.pop().unwrap();
                assert(path@ == all[0]);
                Ok((Message::Remove { path }, next))
            },
            PacketKind::Rename => {
                let (mut fields, next) = read_strings(bytes, 1, 2)?;
                let ghost all = texts(fields@);
                let new = fields.pop().unwrap();
                let old = fields.pop().unwrap();
                assert(old@ == all[0] && new@ == all[1]);
                Ok((Message::Rename { old, new }, next))
            },
            PacketKind::FileHeader => {
                let (mut fields, next) = read_strings(bytes, 1, 3)?;
                let ghost all = texts(fields@);
                let cert = fields.pop().unwrap();
                let hash = fields.pop().unwrap();
                let path = fields.pop().unwrap();
                assert(path@ == all[0] && hash@ == all[1] && cert@ == all[2]);
                Ok((Message::FileHeader { path, hash, cert }, next))
            },
        }
    }
}

} // verus!
