//! A forward-only byte source over a buffer in memory.

use byteorder::ReadBytesExt;
use vstd::prelude::*;

use crate::error::Error;

verus! {

/// `std::io::Error`, with which `byteorder`'s readers fail. Nothing is said
/// of what such an error holds.
#[verifier::external_type_specification]
#[verifier::external_body]
pub struct ExIoError(std::io::Error);

/// `byteorder::ReadBytesExt::read_u8` on the slice `data[pos..]`: it reads
/// one byte with `read_exact`, which on a slice copies the first byte and
/// fails only when the slice is empty.
#[verifier::external_body]
fn read_u8_at(data: &[u8], pos: usize) -> (r: Result<u8, std::io::Error>)
    requires
        pos <= data@.len(),
    ensures
        pos < data@.len() ==> r is Ok && r->Ok_0 == data@[pos as int],
        pos == data@.len() ==> r is Err,
{
    let mut rest: &[u8] = &data[pos..];
    rest.read_u8()
}

/// Bytes in memory together with a read position that only moves forward.
pub struct ByteSource {
    data: Vec<u8>,
    pos: usize,
}

impl ByteSource {
    /// All bytes of the source, consumed or not.
    pub closed spec fn bytes(&self) -> Seq<u8> {
        self.data@
    }

    /// The number of bytes consumed so far.
    pub closed spec fn position(&self) -> int {
        self.pos as int
    }

    /// The position never runs past the end of the bytes.
    pub open spec fn wf(&self) -> bool {
        0 <= self.position() <= self.bytes().len()
    }

    /// A source positioned at the first byte of `data`.
    pub fn new(data: Vec<u8>) -> (s: Self)
        ensures
            s.wf(),
            s.bytes() == data@,
            s.position() == 0,
    {
        ByteSource { data, pos: 0 }
    }

    /// The number of bytes consumed so far.
    pub fn consumed(&self) -> (n: usize)
        ensures
            n == self.position(),
    {
        self.pos
    }

    /// The number of bytes left to read.
    pub fn remaining(&self) -> (n: usize)
        requires
            self.wf(),
        ensures
            n == self.bytes().len() - self.position(),
    {
        self.data.len() - self.pos
    }

    /// Appends `more` behind the bytes that the source holds. What was
    /// consumed stays consumed.
    pub fn extend(&mut self, more: &[u8])
        requires
            old(self).wf(),
        ensures
            final(self).wf(),
            final(self).bytes() == old(self).bytes() + more@,
            final(self).position() == old(self).position(),
    {
        self.data.extend_from_slice(more);
        assert(self.data@ =~= old(self).data@ + more@);
    }

    /// Reads one byte. At the end of the source it fails with `IoError` and
    /// consumes nothing.
    pub fn read_u8(&mut self) -> (r: Result<u8, Error>)
        requires
            old(self).wf(),
        ensures
            final(self).wf(),
            final(self).bytes() == old(self).bytes(),
            old(self).position() < old(self).bytes().len() ==> r == Ok::<u8, Error>(
                old(self).bytes()[old(self).position()],
            ) && final(self).position() == old(self).position() + 1,
            old(self).position() >= old(self).bytes().len() ==> r == Err::<u8, Error>(
                Error::IoError,
            ) && final(self).position() == old(self).position(),
    {
        let total: usize = self.data.len();
        match read_u8_at(self.data.as_slice(), self.pos) {
            Ok(b) => {
                assert(self.pos < total);
                self.pos = self.pos + 1;
                Ok(b)
            },
            Err(_) => Err(Error::IoError),
        }
    }

    /// Reads exactly `n` bytes. Where fewer than `n` are left it fails with
    /// `IoError` and consumes nothing.
    pub fn read_exact(&mut self, n: usize) -> (r: Result<Vec<u8>, Error>)
        requires
            old(self).wf(),
        ensures
            final(self).wf(),
            final(self).bytes() == old(self).bytes(),
            old(self).position() + n <= old(self).bytes().len() ==> r is Ok && r->Ok_0@
                == old(self).bytes().subrange(old(self).position(), old(self).position() + n)
                && final(self).position() == old(self).position() + n,
            old(self).position() + n > old(self).bytes().len() ==> r == Err::<Vec<u8>, Error>(
                Error::IoError,
            ) && final(self).position() == old(self).position(),
    {
        let total: usize = self.data.len();
        if n > total - self.pos {
            return Err(Error::IoError);
        }
        let start: usize = self.pos;
        let mut out: Vec<u8> = Vec::with_capacity(n);
        let mut i: usize = 0;
        while i < n
            invariant
                i <= n,
                start + n <= total,
                total == self.data@.len(),
                start == self.pos,
                out@ == self.data@.subrange(start as int, start + i),
            decreases n - i,
        {
            out.push(self.data[start + i]);
            i = i + 1;
            assert(out@ =~= self.data@.subrange(start as int, start + i));
        }
        self.pos = start + n;
        Ok(out)
    }
}

} // verus!
