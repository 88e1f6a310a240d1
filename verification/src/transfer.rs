//! The content of a file on the stream.
//!
//! A file travels as a `File` message that declares its size, followed by
//! that many bytes. Both sides move the content in chunks of at most
//! `CHUNK_SIZE` bytes. The receiver must never take more from the stream
//! than was declared, or the messages behind the content would be lost.

use vstd::prelude::*;

verus! {

/// The length of the chunks in which a file is read, hashed and sent.
pub const CHUNK_SIZE: usize = 0x1000;

/// Keeps count of a file's content as it is taken from the stream.
#[derive(Clone, Copy, Debug, PartialEq, Eq, Structural)]
pub struct FileReceiver {
    /// The size that the `File` message declared.
    pub declared: u64,
    /// How many of the declared bytes have not been taken yet.
    pub remaining: u64,
}

impl FileReceiver {
    /// No more is outstanding than was declared.
    pub open spec fn wf(&self) -> bool {
        self.remaining <= self.declared
    }

    /// How many bytes have been taken.
    pub open spec fn taken(&self) -> int {
        self.declared - self.remaining
    }

    /// A receiver that has a content of `size` bytes before it.
    pub open spec fn spec_new(size: u64) -> FileReceiver {
        FileReceiver { declared: size, remaining: size }
    }

    /// The most that the next read may take from the stream: what is
    /// outstanding, but no more than a chunk.
    pub open spec fn spec_next_read(&self) -> usize {
        if self.remaining < CHUNK_SIZE {
            self.remaining as usize
        } else {
            CHUNK_SIZE
        }
    }

    /// The receiver after a read that gave `read` bytes.
    pub open spec fn spec_advance(&self, read: usize) -> FileReceiver
        recommends
            read <= self.spec_next_read(),
    {
        FileReceiver { declared: self.declared, remaining: (self.remaining - read) as u64 }
    }

    /// Whether there is more to read after a read that gave `read` bytes:
    /// a read that gave nothing ends the transfer, whether or not all has
    /// come, and so does the read that brings the last outstanding byte.
    pub open spec fn spec_more(&self, read: usize) -> bool {
        read > 0 && self.remaining - read > 0
    }

    /// Starts to receive a content of `size` bytes.
    pub fn new(size: u64) -> (res: Self)
        ensures
            res == Self::spec_new(size),
            res.wf(),
    {
        FileReceiver { declared: size, remaining: size }
    }

    /// The most that the next read may take from the stream. Zero when
    /// all has come.
    #[verifier::when_used_as_spec(spec_next_read)]
    pub fn next_read(&self) -> (n: usize)
        ensures
            n == self.spec_next_read(),
            n <= CHUNK_SIZE,
            n <= self.remaining,
            n == 0 <==> self.remaining == 0,
    {
        if self.remaining < CHUNK_SIZE as u64 {
            self.remaining as usize
        } else {
            CHUNK_SIZE
        }
    }

    /// Records that a read gave `read` bytes, and says whether to read on.
    pub fn advance(&mut self, read: usize) -> (more: bool)
        requires
            read <= old(self).spec_next_read(),
        ensures
            *final(self) == old(self).spec_advance(read),
            more == old(self).spec_more(read),
            old(self).wf() ==> final(self).wf(),
            final(self).taken() == old(self).taken() + read,
    {
        self.remaining = self.remaining - read as u64;
        read > 0 && self.remaining > 0
    }

    /// How many of the declared bytes never came.
    pub fn missing(&self) -> (n: u64)
        ensures
            n == self.remaining,
    {
        self.remaining
    }

    /// Whether every declared byte has been taken.
    pub fn is_complete(&self) -> (res: bool)
        ensures
            res == (self.remaining == 0),
    {
        self.remaining == 0
    }
}

} // verus!
