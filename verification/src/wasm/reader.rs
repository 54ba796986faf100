//! A cursor over bytes.

use vstd::prelude::*;
use crate::wasm::error::Error;

verus! {

/// A cursor over bytes held in memory: the bytes and the place of the next
/// byte to read.
pub struct ByteReader<'a> {
    pub bytes: &'a [u8],
    pub position: usize,
}

/// The byte at `at`, or the error of an input that ends before it.
pub open spec fn spec_byte_at(bytes: Seq<u8>, at: int) -> Result<u8, Error> {
    if 0 <= at < bytes.len() {
        Ok(bytes[at])
    } else {
        Err(Error::UnexpectedEof)
    }
}

/// Reads the byte at `at` without moving anything.
pub fn byte_at(bytes: &[u8], at: usize) -> (r: Result<u8, Error>)
    ensures
        r == spec_byte_at(bytes@, at as int),
{
    if at < bytes.len() {
        Ok(bytes[at])
    } else {
        Err(Error::UnexpectedEof)
    }
}

impl<'a> ByteReader<'a> {
    /// A reader that stands at the first byte.
    pub fn new(bytes: &'a [u8]) -> (r: Self)
        ensures
            r.bytes@ == bytes@,
            r.position == 0,
    {
        ByteReader { bytes, position: 0 }
    }

    /// The place of the next byte to read.
    pub fn position(&self) -> (p: usize)
        ensures
            p == self.position,
    {
        self.position
    }

    /// How many bytes are left to read.
    pub fn remaining(&self) -> (n: usize)
        ensures
            n == if self.position <= self.bytes@.len() {
                self.bytes@.len() - self.position
            } else {
                0
            },
    {
        if self.position <= self.bytes.len() {
            self.bytes.len() - self.position
        } else {
            0
        }
    }

    /// Reads one byte and steps over it. At the end of the input nothing moves.
    pub fn read_u8(&mut self) -> (r: Result<u8, Error>)
        ensures
            r == spec_byte_at(old(self).bytes@, old(self).position as int),
            final(self).bytes == old(self).bytes,
            final(self).position == if r is Ok {
                old(self).position + 1
            } else {
                old(self).position as int
            },
    {
        if self.position < self.bytes.len() {
            let byte = self.bytes[self.position];
            self.position = self.position + 1;
            Ok(byte)
        } else {
            Err(Error::UnexpectedEof)
        }
    }
}

} // verus!
