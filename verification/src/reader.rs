//! A byte source held in memory, read front to back.

use crate::error::Error;
use crate::wire::{from_be16, from_be32, from_be64, get_u16, get_u32, get_u64};
use vstd::prelude::*;
use vstd::slice::slice_subrange;

verus! {

/// The bytes of a stream and how far they have been read.
pub struct ByteReader {
    bytes: Vec<u8>,
    pos: usize,
}

impl ByteReader {
    #[verifier::type_invariant]
    spec fn in_bounds(&self) -> bool {
        self.pos <= self.bytes@.len()
    }

    /// The bytes not yet read.
    pub closed spec fn remaining(&self) -> Seq<u8> {
        self.bytes@.subrange(self.pos as int, self.bytes@.len() as int)
    }

    /// A reader at the start of `bytes`.
    pub fn new(bytes: Vec<u8>) -> (r: ByteReader)
        ensures
            r.remaining() == bytes@,
    {
        let r = ByteReader { bytes, pos: 0 };
        assert(r.remaining() =~= bytes@);
        r
    }

    /// The next `n` bytes as a slice, without moving on; `None` where fewer are left.
    fn peek(&self, n: usize) -> (r: Option<&[u8]>)
        ensures
            n > self.remaining().len() ==> r is None,
            n <= self.remaining().len() ==> r is Some && r.unwrap()@ == self.remaining().subrange(
                0,
                n as int,
            ) && self.pos + n <= self.bytes@.len(),
    {
        proof {
            use_type_invariant(self);
        }
        if n > self.bytes.len() - self.pos {
            None
        } else {
            let s = slice_subrange(self.bytes.as_slice(), self.pos, self.pos + n);
            assert(s@ =~= self.remaining().subrange(0, n as int));
            Some(s)
        }
    }

    /// Moves on by `n` bytes.
    fn advance(&mut self, n: usize)
        requires
            n <= old(self).remaining().len(),
        ensures
            final(self).remaining() == old(self).remaining().skip(n as int),
    {
        proof {
            use_type_invariant(&*self);
        }
        let len: usize = self.bytes.len();
        assert(self.remaining().len() == len - self.pos);
        self.pos = self.pos + n;
        assert(self.remaining() =~= old(self).remaining().skip(n as int));
    }

    /// Reads one byte. Fails with `IoError`, reading nothing, at the end of the stream.
    pub fn read_u8(&mut self) -> (r: Result<u8, Error>)
        ensures
            old(self).remaining().len() < 1 ==> r == Err::<u8, Error>(Error::IoError)
                && final(self).remaining() == old(self).remaining(),
            old(self).remaining().len() >= 1 ==> r == Ok::<u8, Error>(old(self).remaining()[0])
                && final(self).remaining() == old(self).remaining().skip(1),
    {
        match self.peek(1) {
            None => Err(Error::IoError),
            Some(s) => {
                let b = s[0];
                self.advance(1);
                Ok(b)
            },
        }
    }

    /// Reads a big-endian `u16`. Fails with `IoError`, reading nothing, where
    /// fewer than two bytes are left.
    pub fn read_u16(&mut self) -> (r: Result<u16, Error>)
        ensures
            old(self).remaining().len() < 2 ==> r == Err::<u16, Error>(Error::IoError)
                && final(self).remaining() == old(self).remaining(),
            old(self).remaining().len() >= 2 ==> r == Ok::<u16, Error>(
                from_be16(old(self).remaining()),
            ) && final(self).remaining() == old(self).remaining().skip(2),
    {
        match self.peek(2) {
            None => Err(Error::IoError),
            Some(s) => {
                let n = get_u16(s);
                self.advance(2);
                Ok(n)
            },
        }
    }

    /// Reads a big-endian `u32`. Fails with `IoError`, reading nothing, where
    /// fewer than four bytes are left.
    pub fn read_u32(&mut self) -> (r: Result<u32, Error>)
        ensures
            old(self).remaining().len() < 4 ==> r == Err::<u32, Error>(Error::IoError)
                && final(self).remaining() == old(self).remaining(),
            old(self).remaining().len() >= 4 ==> r == Ok::<u32, Error>(
                from_be32(old(self).remaining()),
            ) && final(self).remaining() == old(self).remaining().skip(4),
    {
        match self.peek(4) {
            None => Err(Error::IoError),
            Some(s) => {
                let n = get_u32(s);
                self.advance(4);
                Ok(n)
            },
        }
    }

    /// Reads a big-endian `u64`. Fails with `IoError`, reading nothing, where
    /// fewer than eight bytes are left.
    pub fn read_u64(&mut self) -> (r: Result<u64, Error>)
        ensures
            old(self).remaining().len() < 8 ==> r == Err::<u64, Error>(Error::IoError)
                && final(self).remaining() == old(self).remaining(),
            old(self).remaining().len() >= 8 ==> r == Ok::<u64, Error>(
                from_be64(old(self).remaining()),
            ) && final(self).remaining() == old(self).remaining().skip(8),
    {
        match self.peek(8) {
            None => Err(Error::IoError),
            Some(s) => {
                let n = get_u64(s);
                self.advance(8);
                Ok(n)
            },
        }
    }

    /// Reads the next `n` bytes. Fails with `IoError`, reading nothing, where
    /// fewer are left.
    pub fn read_bytes(&mut self, n: usize) -> (r: Result<Vec<u8>, Error>)
        ensures
            old(self).remaining().len() < n ==> r == Err::<Vec<u8>, Error>(Error::IoError)
                && final(self).remaining() == old(self).remaining(),
            old(self).remaining().len() >= n ==> r is Ok && r.unwrap()@ == old(
                self,
            ).remaining().subrange(0, n as int) && final(self).remaining() == old(
                self,
            ).remaining().skip(n as int),
    {
        match self.peek(n) {
            None => Err(Error::IoError),
            Some(s) => {
                let v = vstd::slice::slice_to_vec(s);
                self.advance(n);
                Ok(v)
            },
        }
    }
}

} // verus!
