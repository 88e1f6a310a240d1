//! Typed writing to and reading from a stream of bytes.
//!
//! A byte vector takes values at its end; a reader gives values from the
//! front of what it has not read yet. Both speak the wire form of `wire`
//! and `packet`.

use crate::error::ErrorKind;
use crate::packet::{lemma_parse_message_exact, parse_message, Message, MessageView};
use crate::wire::{
    bool_wire, fits, lemma_parse_string_exact, lemma_parse_string_list_exact, list_fits,
    parse_bool, parse_string, parse_string_list, read_bool, read_string, read_string_list,
    string_fits, string_list_fits, string_list_wire, string_wire, texts, write_bool,
    write_string, write_string_list, DecodeError, Parsed,
};
use vstd::prelude::*;

verus! {

/// Writing values of type `T` to a stream in their wire form.
pub trait WriteAny<T> {
    /// All that was written to the stream.
    spec fn written(&self) -> Seq<u8>;

    /// The wire form of `t`; nothing for a value that cannot be sent.
    spec fn form(t: &T) -> Option<Seq<u8>>;

    /// Writes `t` to the stream and says how many bytes that took. A
    /// value that cannot be sent is refused, and nothing is written.
    fn write_any(&mut self, t: T) -> (res: Result<usize, ErrorKind>)
        ensures
            Self::form(&t) matches Some(bytes) ==> res == Ok::<usize, ErrorKind>(
                bytes.len() as usize,
            ),
            Self::form(&t) matches Some(bytes) ==> final(self).written() == old(self).written()
                + bytes,
            Self::form(&t) is None ==> res == Err::<usize, ErrorKind>(ErrorKind::InvalidInput),
            Self::form(&t) is None ==> final(self).written() == old(self).written(),
    ;
}

impl WriteAny<bool> for Vec<u8> {
    open spec fn written(&self) -> Seq<u8> {
        self@
    }

    open spec fn form(t: &bool) -> Option<Seq<u8>> {
        Some(bool_wire(*t))
    }

    fn write_any(&mut self, t: bool) -> (res: Result<usize, ErrorKind>) {
        write_bool(self, t);
        Ok(1)
    }
}

impl WriteAny<String> for Vec<u8> {
    open spec fn written(&self) -> Seq<u8> {
        self@
    }

    open spec fn form(t: &String) -> Option<Seq<u8>> {
        if string_fits(t@) {
            Some(string_wire(t@))
        } else {
            None
        }
    }

    fn write_any(&mut self, t: String) -> (res: Result<usize, ErrorKind>) {
        if !fits(t.as_str()) {
            return Err(ErrorKind::InvalidInput);
        }
        let before = self.len();
        write_string(self, t.as_str());
        Ok(self.len() - before)
    }
}

impl WriteAny<Vec<String>> for Vec<u8> {
    open spec fn written(&self) -> Seq<u8> {
        self@
    }

    open spec fn form(t: &Vec<String>) -> Option<Seq<u8>> {
        if string_list_fits(texts(t@)) {
            Some(string_list_wire(texts(t@)))
        } else {
            None
        }
    }

    fn write_any(&mut self, t: Vec<String>) -> (res: Result<usize, ErrorKind>) {
        if !list_fits(&t) {
            return Err(ErrorKind::InvalidInput);
        }
        let before = self.len();
        write_string_list(self, &t);
        Ok(self.len() - before)
    }
}

impl WriteAny<Message> for Vec<u8> {
    open spec fn written(&self) -> Seq<u8> {
        self@
    }

    open spec fn form(t: &Message) -> Option<Seq<u8>> {
        if t@.encodable() {
            Some(t@.wire())
        } else {
            None
        }
    }

    fn write_any(&mut self, t: Message) -> (res: Result<usize, ErrorKind>) {
        match t.encode() {
            Some(mut bytes) => {
                let n = bytes.len();
                self.append(&mut bytes);
                Ok(n)
            },
            None => Err(ErrorKind::InvalidInput),
        }
    }
}

/// How the result of a read corresponds to the parse of what was unread:
/// a value is the one that the parse gives, and as many bytes were taken
/// as encode it; a failure is that of the parse, and nothing was taken.
pub open spec fn outcome<T, V>(
    res: Result<T, DecodeError>,
    taken: int,
    parsed: Parsed<V>,
    same: spec_fn(T, V) -> bool,
) -> bool {
    match res {
        Ok(value) => parsed matches Parsed::Done { value: v, used } && same(value, v) && used
            == taken,
        Err(DecodeError::Incomplete(n)) => parsed == (Parsed::<V>::Short { missing: n as nat })
            && n > 0 && taken == 0,
        Err(DecodeError::Invalid) => parsed == Parsed::<V>::Bad && taken == 0,
    }
}

/// Reading values of type `T` from a stream in their wire form.
pub trait ReadAny<T> {
    /// What of the stream has not been read yet.
    spec fn unread(&self) -> Seq<u8>;

    /// Whether reading a `T` from the bytes `unread` gives `res` and takes
    /// `taken` bytes.
    spec fn reads(unread: Seq<u8>, res: Result<T, DecodeError>, taken: int) -> bool;

    /// Reads the next value. Where none can be read, nothing is taken
    /// from the stream.
    fn read_any(&mut self) -> (res: Result<T, DecodeError>)
        ensures
            final(self).unread().len() <= old(self).unread().len(),
            final(self).unread() == old(self).unread().skip(
                old(self).unread().len() - final(self).unread().len(),
            ),
            Self::reads(
                old(self).unread(),
                res,
                old(self).unread().len() - final(self).unread().len(),
            ),
    ;
}

/// A place in a sequence of bytes from which values are read.
pub struct Reader<'a> {
    bytes: &'a [u8],
    pos: usize,
}

impl<'a> Reader<'a> {
    #[verifier::type_invariant]
    spec fn in_bounds(self) -> bool {
        self.pos <= self.bytes@.len()
    }

    /// The bytes from the place of the reader on.
    pub closed spec fn rest(&self) -> Seq<u8> {
        self.bytes@.skip(self.pos as int)
    }

    /// A reader at the beginning of `bytes`.
    pub fn new(bytes: &'a [u8]) -> (res: Self)
        ensures
            res.rest() == bytes@,
    {
        assert(bytes@.skip(0) =~= bytes@);
        Reader { bytes, pos: 0 }
    }

    /// How many bytes are left to read.
    pub fn remaining(&self) -> (n: usize)
        ensures
            n == self.rest().len(),
    {
        proof {
            use_type_invariant(self);
        }
        self.bytes.len() - self.pos
    }

    /// Moves the reader to `next`, a place that a read at its own place
    /// gave.
    fn advance_to(&mut self, next: usize, Ghost(taken): Ghost<int>)
        requires
            0 <= taken <= old(self).rest().len(),
            next == old(self).pos + taken,
        ensures
            final(self).rest() == old(self).rest().skip(taken),
            final(self).rest().len() == old(self).rest().len() - taken,
    {
        proof {
            use_type_invariant(&*self);
        }
        assert(self.bytes@.skip(self.pos as int).skip(taken) =~= self.bytes@.skip(next as int));
        self.pos = next;
    }
}

impl<'a> ReadAny<bool> for Reader<'a> {
    open spec fn unread(&self) -> Seq<u8> {
        self.rest()
    }

    open spec fn reads(unread: Seq<u8>, res: Result<bool, DecodeError>, taken: int) -> bool {
        outcome(res, taken, parse_bool(unread), |a: bool, b: bool| a == b)
    }

    fn read_any(&mut self) -> (res: Result<bool, DecodeError>) {
        proof {
            use_type_invariant(&*self);
        }
        assert(self.rest().skip(0) =~= self.rest());
        match read_bool(self.bytes, self.pos) {
            Ok((value, next)) => {
                self.advance_to(next, Ghost(1));
                Ok(value)
            },
            Err(e) => Err(e),
        }
    }
}

impl<'a> ReadAny<String> for Reader<'a> {
    open spec fn unread(&self) -> Seq<u8> {
        self.rest()
    }

    open spec fn reads(unread: Seq<u8>, res: Result<String, DecodeError>, taken: int) -> bool {
        outcome(res, taken, parse_string(unread), |a: String, b: Seq<char>| a@ == b)
    }

    fn read_any(&mut self) -> (res: Result<String, DecodeError>) {
        proof {
            use_type_invariant(&*self);
            lemma_parse_string_exact(self.rest());
        }
        assert(self.rest().skip(0) =~= self.rest());
        match read_string(self.bytes, self.pos) {
            Ok((value, next)) => {
                self.advance_to(next, Ghost(next - self.pos));
                Ok(value)
            },
            Err(e) => Err(e),
        }
    }
}

impl<'a> ReadAny<Vec<String>> for Reader<'a> {
    open spec fn unread(&self) -> Seq<u8> {
        self.rest()
    }

    open spec fn reads(unread: Seq<u8>, res: Result<Vec<String>, DecodeError>, taken: int)
        -> bool {
        outcome(
            res,
            taken,
            parse_string_list(unread),
            |a: Vec<String>, b: Seq<Seq<char>>| texts(a@) == b,
        )
    }

    fn read_any(&mut self) -> (res: Result<Vec<String>, DecodeError>) {
        proof {
            use_type_invariant(&*self);
            lemma_parse_string_list_exact(self.rest());
        }
        assert(self.rest().skip(0) =~= self.rest());
        match read_string_list(self.bytes, self.pos) {
            Ok((value, next)) => {
                self.advance_to(next, Ghost(next - self.pos));
                Ok(value)
            },
            Err(e) => Err(e),
        }
    }
}

impl<'a> ReadAny<Message> for Reader<'a> {
    open spec fn unread(&self) -> Seq<u8> {
        self.rest()
    }

    open spec fn reads(unread: Seq<u8>, res: Result<Message, DecodeError>, taken: int) -> bool {
        outcome(res, taken, parse_message(unread), |a: Message, b: MessageView| a@ == b)
    }

    fn read_any(&mut self) -> (res: Result<Message, DecodeError>) {
        proof {
            use_type_invariant(&*self);
            lemma_parse_message_exact(self.rest());
        }
        assert(self.rest().skip(0) =~= self.rest());
        let rest = vstd::slice::slice_subrange(self.bytes, self.pos, self.bytes.len());
        assert(rest@ =~= self.rest());
        match Message::decode(rest) {
            Ok((value, used)) => {
                self.advance_to(self.pos + used, Ghost(used as int));
                Ok(value)
            },
            Err(e) => Err(e),
        }
    }
}

} // verus!
