//! Bounds-checked sequential reading of a ClearCodec stream.

use crate::bytes;
use crate::bytes::{join16, join32};
use vstd::prelude::*;
use vstd::slice::slice_subrange;
use vstd::string::*;

verus! {

/// Why a stream could not be decoded.
#[derive(Debug)]
pub struct ClearDecodeError(pub &'static str);

impl ClearDecodeError {
    /// The error as a message.
    pub fn message(&self) -> (r: String)
        ensures
            r@ == "ClearCodec: "@ + self.0@,
    {
        let mut r = String::from_str("ClearCodec: ");
        r.append(self.0);
        r
    }
}

/// What the decoding steps return.
pub type ClearResult<T> = Result<T, ClearDecodeError>;

/// A sequential reader over a stream. Every read is bounds-checked.
pub struct Reader<'a> {
    pub data: &'a [u8],
    pub pos: usize,
}

impl<'a> Reader<'a> {
    /// The read position lies inside the stream or at its end.
    pub open spec fn wf(&self) -> bool {
        self.pos <= self.data@.len()
    }

    /// A reader at the start of `data`.
    pub fn new(data: &'a [u8]) -> (r: Self)
        ensures
            r.wf(),
            r.data@ == data@,
            r.pos == 0,
    {
        Reader { data, pos: 0 }
    }

    /// How many bytes are left to read.
    pub fn remaining(&self) -> (n: usize)
        requires
            self.wf(),
        ensures
            n == self.data@.len() - self.pos,
    {
        self.data.len() - self.pos
    }

    /// Reads one byte.
    pub fn u8(&mut self) -> (r: ClearResult<u8>)
        requires
            old(self).wf(),
        ensures
            final(self).wf(),
            final(self).data@ == old(self).data@,
            if old(self).pos < old(self).data@.len() {
                &&& r matches Ok(v) && v == old(self).data@[old(self).pos as int]
                &&& final(self).pos == old(self).pos + 1
            } else {
                &&& r matches Err(e) && e.0@ == "stream underrun"@
                &&& final(self).pos == old(self).pos
            },
    {
        if self.pos < self.data.len() {
            let v = self.data[self.pos];
            self.pos = self.pos + 1;
            Ok(v)
        } else {
            Err(ClearDecodeError("stream underrun"))
        }
    }

    /// Reads a 16-bit little-endian number.
    pub fn u16(&mut self) -> (r: ClearResult<u16>)
        requires
            old(self).wf(),
        ensures
            final(self).wf(),
            final(self).data@ == old(self).data@,
            if old(self).pos + 2 <= old(self).data@.len() {
                &&& r matches Ok(v) && v == bytes::le16(old(self).data@, old(self).pos as int)
                &&& final(self).pos == old(self).pos + 2
            } else {
                &&& r matches Err(e) && e.0@ == "stream underrun"@
                &&& final(self).pos == old(self).pos
            },
    {
        let b = self.bytes(2)?;
        Ok(join16(b[0], b[1]))
    }

    /// Reads a 32-bit little-endian number.
    pub fn u32(&mut self) -> (r: ClearResult<u32>)
        requires
            old(self).wf(),
        ensures
            final(self).wf(),
            final(self).data@ == old(self).data@,
            if old(self).pos + 4 <= old(self).data@.len() {
                &&& r matches Ok(v) && v == bytes::le32(old(self).data@, old(self).pos as int)
                &&& final(self).pos == old(self).pos + 4
            } else {
                &&& r matches Err(e) && e.0@ == "stream underrun"@
                &&& final(self).pos == old(self).pos
            },
    {
        let b = self.bytes(4)?;
        Ok(join32(b[0], b[1], b[2], b[3]))
    }

    /// Reads the next `n` bytes.
    pub fn bytes(&mut self, n: usize) -> (r: ClearResult<&'a [u8]>)
        requires
            old(self).wf(),
        ensures
            final(self).wf(),
            final(self).data@ == old(self).data@,
            if old(self).pos + n <= old(self).data@.len() {
                &&& r matches Ok(v) && v@ == old(self).data@.subrange(
                    old(self).pos as int,
                    old(self).pos + n,
                )
                &&& final(self).pos == old(self).pos + n
            } else {
                &&& r matches Err(e) && e.0@ == "stream underrun"@
                &&& final(self).pos == old(self).pos
            },
    {
        if n <= self.data.len() - self.pos {
            let end = self.pos + n;
            let s = slice_subrange(self.data, self.pos, end);
            self.pos = end;
            Ok(s)
        } else {
            Err(ClearDecodeError("stream underrun"))
        }
    }
}

} // verus!
