use vstd::prelude::*;

use crate::error::{truncated, DecodeError};

verus! {

/// The unsigned 16-bit value stored little-endian at `b[i..i + 2]`.
pub open spec fn le_u16(b: Seq<u8>, i: int) -> int {
    b[i] as int + 256 * b[i + 1] as int
}

/// The unsigned 32-bit value stored little-endian at `b[i..i + 4]`.
pub open spec fn le_u32(b: Seq<u8>, i: int) -> int {
    b[i] as int + 256 * b[i + 1] as int + 65536 * b[i + 2] as int + 16777216 * b[i + 3] as int
}

/// Relies on byteorder's `LittleEndian::read_u16`, which reads the first two
/// bytes of its slice least significant first and panics on fewer than two.
#[verifier::external_body]
pub(crate) fn read_u16_at(b: &[u8], pos: usize) -> (r: u16)
    requires
        pos + 2 <= b@.len(),
    ensures
        r as int == le_u16(b@, pos as int),
{
    <byteorder::LittleEndian as byteorder::ByteOrder>::read_u16(&b[pos..])
}

/// Relies on byteorder's `LittleEndian::read_u32`, which reads the first four
/// bytes of its slice least significant first and panics on fewer than four.
#[verifier::external_body]
pub(crate) fn read_u32_at(b: &[u8], pos: usize) -> (r: u32)
    requires
        pos + 4 <= b@.len(),
    ensures
        r as int == le_u32(b@, pos as int),
{
    <byteorder::LittleEndian as byteorder::ByteOrder>::read_u32(&b[pos..])
}

/// A positional reader over a borrowed blob. Every read checks that its
/// window lies inside the blob and fails with `Truncated` otherwise, leaving
/// the position where it was.
pub struct ByteReader<'a> {
    data: &'a [u8],
    pos: usize,
}

impl<'a> ByteReader<'a> {
    #[verifier::type_invariant]
    spec fn in_bounds(self) -> bool {
        self.pos <= self.data@.len()
    }

    /// The blob being read.
    pub closed spec fn bytes(&self) -> Seq<u8> {
        self.data@
    }

    /// The offset of the next read.
    pub closed spec fn pos(&self) -> int {
        self.pos as int
    }

    /// The error for a read of `n` bytes at the current position.
    pub open spec fn short(&self, n: int) -> DecodeError {
        truncated(self.pos(), n, self.bytes().len() as int)
    }

    /// Whether `n` more bytes can be read.
    pub open spec fn has(&self, n: int) -> bool {
        self.pos() + n <= self.bytes().len()
    }

    /// A reader positioned at the start of `data`.
    pub fn new(data: &'a [u8]) -> (r: Self)
        ensures
            r.bytes() == data@,
            r.pos() == 0,
    {
        ByteReader { data, pos: 0 }
    }

    /// The offset of the next read.
    pub fn position(&self) -> (r: usize)
        ensures
            r as int == self.pos(),
            self.pos() <= self.bytes().len(),
    {
        proof {
            use_type_invariant(self);
        }
        self.pos
    }

    /// Moves to `pos`, which may be the end of the blob but not past it.
    pub fn set_position(&mut self, pos: usize) -> (r: Result<(), DecodeError>)
        ensures
            final(self).bytes() == old(self).bytes(),
            pos <= old(self).bytes().len() ==> r is Ok && final(self).pos() == pos,
            pos > old(self).bytes().len() ==> r == Err::<(), DecodeError>(
                truncated(pos as int, 0, old(self).bytes().len() as int),
            ) && final(self).pos() == old(self).pos(),
    {
        if pos <= self.data.len() {
            self.pos = pos;
            Ok(())
        } else {
            Err(DecodeError::Truncated { offset: pos as u64, len: 0, available: self.data.len() as u64 })
        }
    }

    /// The length of the blob.
    pub fn blob_len(&self) -> (r: usize)
        ensures
            r as int == self.bytes().len(),
    {
        self.data.len()
    }

    /// Checks that `n` bytes can be read at the current position.
    pub fn need(&self, n: usize) -> (r: Result<(), DecodeError>)
        ensures
            r is Ok <==> self.has(n as int),
            r is Ok ==> self.pos() + n <= usize::MAX,
            !self.has(n as int) ==> r == Err::<(), DecodeError>(self.short(n as int)),
    {
        if self.pos <= self.data.len() && n <= self.data.len() - self.pos {
            Ok(())
        } else {
            Err(DecodeError::Truncated {
                offset: self.pos as u64,
                len: n as u64,
                available: self.data.len() as u64,
            })
        }
    }

    /// Skips `n` bytes.
    pub fn skip(&mut self, n: usize) -> (r: Result<(), DecodeError>)
        ensures
            final(self).bytes() == old(self).bytes(),
            old(self).has(n as int) ==> r is Ok && final(self).pos() == old(self).pos() + n,
            !old(self).has(n as int) ==> r == Err::<(), DecodeError>(old(self).short(n as int))
                && final(self).pos() == old(self).pos(),
    {
        self.need(n)?;
        self.pos = self.pos + n;
        Ok(())
    }

    /// Reads one byte.
    pub fn read_u8(&mut self) -> (r: Result<u8, DecodeError>)
        ensures
            final(self).bytes() == old(self).bytes(),
            old(self).has(1) ==> r == Ok::<u8, DecodeError>(old(self).bytes()[old(self).pos()])
                && final(self).pos() == old(self).pos() + 1,
            !old(self).has(1) ==> r == Err::<u8, DecodeError>(old(self).short(1))
                && final(self).pos() == old(self).pos(),
    {
        self.need(1)?;
        let v = self.data[self.pos];
        self.pos = self.pos + 1;
        Ok(v)
    }

    /// Reads a little-endian `u16`.
    pub fn read_u16(&mut self) -> (r: Result<u16, DecodeError>)
        ensures
            final(self).bytes() == old(self).bytes(),
            old(self).has(2) ==> (r matches Ok(v) && v as int == le_u16(old(self).bytes(), old(self).pos())
                && final(self).pos() == old(self).pos() + 2),
            !old(self).has(2) ==> r == Err::<u16, DecodeError>(old(self).short(2))
                && final(self).pos() == old(self).pos(),
    {
        self.need(2)?;
        let v = read_u16_at(self.data, self.pos);
        self.pos = self.pos + 2;
        Ok(v)
    }

    /// Reads a little-endian `u32`.
    pub fn read_u32(&mut self) -> (r: Result<u32, DecodeError>)
        ensures
            final(self).bytes() == old(self).bytes(),
            old(self).has(4) ==> (r matches Ok(v) && v as int == le_u32(old(self).bytes(), old(self).pos())
                && final(self).pos() == old(self).pos() + 4),
            !old(self).has(4) ==> r == Err::<u32, DecodeError>(old(self).short(4))
                && final(self).pos() == old(self).pos(),
    {
        self.need(4)?;
        let v = read_u32_at(self.data, self.pos);
        self.pos = self.pos + 4;
        Ok(v)
    }

    /// Reads a little-endian 32-bit float, returned as its IEEE-754 bit
    /// pattern.
    pub fn read_f32_bits(&mut self) -> (r: Result<u32, DecodeError>)
        ensures
            final(self).bytes() == old(self).bytes(),
            old(self).has(4) ==> (r matches Ok(v) && v as int == le_u32(old(self).bytes(), old(self).pos())
                && final(self).pos() == old(self).pos() + 4),
            !old(self).has(4) ==> r == Err::<u32, DecodeError>(old(self).short(4))
                && final(self).pos() == old(self).pos(),
    {
        self.read_u32()
    }

    /// Reads `n` bytes.
    pub fn read_bytes(&mut self, n: usize) -> (r: Result<Vec<u8>, DecodeError>)
        ensures
            final(self).bytes() == old(self).bytes(),
            old(self).has(n as int) ==> (r matches Ok(v) && v@ == old(self).bytes().subrange(
                old(self).pos(),
                old(self).pos() + n,
            ) && final(self).pos() == old(self).pos() + n),
            !old(self).has(n as int) ==> r == Err::<Vec<u8>, DecodeError>(old(self).short(n as int))
                && final(self).pos() == old(self).pos(),
    {
        self.need(n)?;
        let v = vstd::slice::slice_to_vec(&self.data[self.pos..self.pos + n]);
        self.pos = self.pos + n;
        Ok(v)
    }
}

} // verus!
