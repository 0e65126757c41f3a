//! A read position over bytes held in memory: the source that the readers
//! of both file formats consume.

use crate::endian::be_i32;
use crate::endian::be_i64;
use crate::endian::be_u32;
use crate::endian::read_i32_be;
use crate::endian::read_i64_be;
use crate::endian::read_u32_be;
use vstd::prelude::*;
use vstd::slice::slice_subrange;
use vstd::slice::slice_to_vec;

verus! {

/// Why a read or a seek on a `ByteReader` failed.
#[derive(Clone, Copy, Debug, PartialEq, Eq, Structural)]
pub enum IoErrorKind {
    /// Fewer bytes were left than the read asked for.
    UnexpectedEof,
    /// The seek would have gone before the first byte.
    InvalidSeek,
}

/// Appends `bytes` to `out`.
pub fn extend_bytes(out: &mut Vec<u8>, bytes: &[u8])
    ensures
        final(out)@ == old(out)@ + bytes@,
{
    let mut i: usize = 0;
    while i < bytes.len()
        invariant
            i <= bytes@.len(),
            out@ == old(out)@ + bytes@.take(i as int),
        decreases bytes@.len() - i,
    {
        out.push(bytes[i]);
        i = i + 1;
        assert(out@ =~= old(out)@ + bytes@.take(i as int));
    }
    assert(bytes@.take(i as int) =~= bytes@);
}

/// Whether two runs of bytes are the same.
pub fn bytes_equal(a: &[u8], b: &[u8]) -> (same: bool)
    ensures
        same <==> a@ == b@,
{
    if a.len() != b.len() {
        return false;
    }
    let mut i: usize = 0;
    while i < a.len()
        invariant
            i <= a@.len(),
            a@.len() == b@.len(),
            a@.take(i as int) == b@.take(i as int),
        decreases a@.len() - i,
    {
        if a[i] != b[i] {
            return false;
        }
        i = i + 1;
        assert(a@.take(i as int) =~= a@.take(i - 1).push(a@[i - 1]));
        assert(b@.take(i as int) =~= b@.take(i - 1).push(b@[i - 1]));
    }
    assert(a@.take(i as int) =~= a@);
    assert(b@.take(i as int) =~= b@);
    true
}

/// The bytes of `s` from position `pos` on; none where `pos` lies past the
/// end.
pub open spec fn bytes_from(s: Seq<u8>, pos: nat) -> Seq<u8> {
    if pos <= s.len() {
        s.skip(pos as int)
    } else {
        Seq::empty()
    }
}

/// Bytes in memory with a read position. The position may lie past the
/// end, as that of a file may; a read there finds nothing.
#[derive(Debug)]
pub struct ByteReader {
    data: Vec<u8>,
    pos: u64,
}

impl ByteReader {
    /// All the bytes of the source.
    pub closed spec fn bytes(&self) -> Seq<u8> {
        self.data@
    }

    /// The read position, counted from the first byte.
    pub closed spec fn pos(&self) -> nat {
        self.pos as nat
    }

    /// The source is no longer than memory can hold.
    pub proof fn lemma_len_fits(&self)
        ensures
            self.bytes().len() <= usize::MAX,
    {
        assert(self.data@.len() == self.data.len());
    }

    /// The bytes from the read position on.
    pub open spec fn remaining(&self) -> Seq<u8> {
        bytes_from(self.bytes(), self.pos())
    }

    /// A reader at the first byte of `data`.
    pub fn new(data: Vec<u8>) -> (r: ByteReader)
        ensures
            r.bytes() == data@,
            r.pos() == 0,
    {
        ByteReader { data, pos: 0 }
    }

    /// The read position, counted from the first byte.
    pub fn position(&self) -> (p: u64)
        ensures
            p == self.pos(),
    {
        self.pos
    }

    /// The number of bytes of the source.
    pub fn len(&self) -> (n: usize)
        ensures
            n == self.bytes().len(),
    {
        self.data.len()
    }

    /// All the bytes of the source.
    pub fn get_ref(&self) -> (v: &Vec<u8>)
        ensures
            v@ == self.bytes(),
    {
        &self.data
    }

    /// The bytes of the source, given back.
    pub fn into_inner(self) -> (v: Vec<u8>)
        ensures
            v@ == self.bytes(),
    {
        self.data
    }

    /// How many bytes are left to read.
    pub fn remaining_len(&self) -> (n: usize)
        ensures
            n == self.remaining().len(),
            self.pos() <= self.bytes().len() ==> self.pos() + n == self.bytes().len(),
            self.pos() > self.bytes().len() ==> n == 0,
            self.bytes().len() <= usize::MAX,
    {
        if self.pos <= self.data.len() as u64 {
            self.data.len() - self.pos as usize
        } else {
            0
        }
    }

    /// Moves the read position to `pos`, counted from the first byte.
    pub fn seek(&mut self, pos: u64)
        ensures
            final(self).bytes() == old(self).bytes(),
            final(self).pos() == pos,
    {
        self.pos = pos;
    }

    /// Moves the read position to `back` bytes before the end and returns
    /// it; fails, and moves nothing, where the source is shorter than that.
    pub fn seek_from_end(&mut self, back: u64) -> (r: Result<u64, IoErrorKind>)
        ensures
            final(self).bytes() == old(self).bytes(),
            back <= old(self).bytes().len() ==> r == Ok::<u64, IoErrorKind>(
                (old(self).bytes().len() - back) as u64,
            ) && final(self).pos() == old(self).bytes().len() - back,
            back > old(self).bytes().len() ==> r == Err::<u64, IoErrorKind>(
                IoErrorKind::InvalidSeek,
            ) && final(self).pos() == old(self).pos(),
    {
        let len = self.data.len() as u64;
        if back <= len {
            self.pos = len - back;
            Ok(len - back)
        } else {
            Err(IoErrorKind::InvalidSeek)
        }
    }

    /// Consumes what is left.
    fn skip_rest(&mut self)
        ensures
            final(self).bytes() == old(self).bytes(),
            final(self).pos() == old(self).pos() + old(self).remaining().len(),
            final(self).remaining().len() == 0,
    {
        let len = self.data.len() as u64;
        if self.pos < len {
            self.pos = len;
        }
    }

    /// Reads the next `n` bytes. Where fewer are left, the read fails and
    /// consumes what is left.
    pub fn read_exact(&mut self, n: usize) -> (r: Result<Vec<u8>, IoErrorKind>)
        ensures
            final(self).bytes() == old(self).bytes(),
            n <= old(self).remaining().len() ==> r is Ok && r->Ok_0@ == old(self).remaining().take(
                n as int,
            ) && final(self).pos() == old(self).pos() + n,
            n > old(self).remaining().len() ==> r == Err::<Vec<u8>, IoErrorKind>(
                IoErrorKind::UnexpectedEof,
            ) && final(self).pos() == old(self).pos() + old(self).remaining().len(),
    {
        if n > self.remaining_len() {
            self.skip_rest();
            return Err(IoErrorKind::UnexpectedEof);
        }
        if n == 0 {
            let out: Vec<u8> = Vec::new();
            assert(out@ =~= self.remaining().take(0));
            return Ok(out);
        }
        let start = self.pos as usize;
        let out = slice_to_vec(slice_subrange(self.data.as_slice(), start, start + n));
        assert(out@ =~= self.remaining().take(n as int));
        self.pos = self.pos + n as u64;
        Ok(out)
    }

    /// Reads a big-endian `u32`. Where fewer than four bytes are left, the
    /// read fails and consumes what is left.
    pub fn read_u32(&mut self) -> (r: Result<u32, IoErrorKind>)
        ensures
            final(self).bytes() == old(self).bytes(),
            old(self).remaining().len() >= 4 ==> r == Ok::<u32, IoErrorKind>(
                be_u32(old(self).remaining()),
            ) && final(self).pos() == old(self).pos() + 4,
            old(self).remaining().len() < 4 ==> r == Err::<u32, IoErrorKind>(
                IoErrorKind::UnexpectedEof,
            ) && final(self).pos() == old(self).pos() + old(self).remaining().len(),
    {
        if self.remaining_len() < 4 {
            self.skip_rest();
            return Err(IoErrorKind::UnexpectedEof);
        }
        let rest = slice_subrange(self.data.as_slice(), self.pos as usize, self.data.len());
        assert(rest@ =~= self.remaining());
        match read_u32_be(rest) {
            Ok(v) => {
                self.pos = self.pos + 4;
                Ok(v)
            },
            Err(_) => Err(IoErrorKind::UnexpectedEof),
        }
    }

    /// Reads a big-endian `i32`. Where fewer than four bytes are left, the
    /// read fails and consumes what is left.
    pub fn read_i32(&mut self) -> (r: Result<i32, IoErrorKind>)
        ensures
            final(self).bytes() == old(self).bytes(),
            old(self).remaining().len() >= 4 ==> r == Ok::<i32, IoErrorKind>(
                be_i32(old(self).remaining()),
            ) && final(self).pos() == old(self).pos() + 4,
            old(self).remaining().len() < 4 ==> r == Err::<i32, IoErrorKind>(
                IoErrorKind::UnexpectedEof,
            ) && final(self).pos() == old(self).pos() + old(self).remaining().len(),
    {
        if self.remaining_len() < 4 {
            self.skip_rest();
            return Err(IoErrorKind::UnexpectedEof);
        }
        let rest = slice_subrange(self.data.as_slice(), self.pos as usize, self.data.len());
        assert(rest@ =~= self.remaining());
        match read_i32_be(rest) {
            Ok(v) => {
                self.pos = self.pos + 4;
                Ok(v)
            },
            Err(_) => Err(IoErrorKind::UnexpectedEof),
        }
    }

    /// Reads a big-endian `i64`. Where fewer than eight bytes are left, the
    /// read fails and consumes what is left.
    pub fn read_i64(&mut self) -> (r: Result<i64, IoErrorKind>)
        ensures
            final(self).bytes() == old(self).bytes(),
            old(self).remaining().len() >= 8 ==> r == Ok::<i64, IoErrorKind>(
                be_i64(old(self).remaining()),
            ) && final(self).pos() == old(self).pos() + 8,
            old(self).remaining().len() < 8 ==> r == Err::<i64, IoErrorKind>(
                IoErrorKind::UnexpectedEof,
            ) && final(self).pos() == old(self).pos() + old(self).remaining().len(),
    {
        if self.remaining_len() < 8 {
            self.skip_rest();
            return Err(IoErrorKind::UnexpectedEof);
        }
        let rest = slice_subrange(self.data.as_slice(), self.pos as usize, self.data.len());
        assert(rest@ =~= self.remaining());
        match read_i64_be(rest) {
            Ok(v) => {
                self.pos = self.pos + 8;
                Ok(v)
            },
            Err(_) => Err(IoErrorKind::UnexpectedEof),
        }
    }

    /// How many bytes there are from position `pos` on.
    fn len_from(&self, pos: u64) -> (n: usize)
        ensures
            n == bytes_from(self.bytes(), pos as nat).len(),
            pos <= self.bytes().len() ==> pos + n == self.bytes().len(),
            pos > self.bytes().len() ==> n == 0,
            self.bytes().len() <= usize::MAX,
    {
        if pos <= self.data.len() as u64 {
            self.data.len() - pos as usize
        } else {
            0
        }
    }

    /// The `n` bytes at position `pos`, whatever the read position is,
    /// which stays.
    pub fn read_exact_at(&self, pos: u64, n: usize) -> (r: Result<Vec<u8>, IoErrorKind>)
        ensures
            n <= bytes_from(self.bytes(), pos as nat).len() ==> r is Ok && r->Ok_0@ == bytes_from(
                self.bytes(),
                pos as nat,
            ).take(n as int),
            n > bytes_from(self.bytes(), pos as nat).len() ==> r == Err::<Vec<u8>, IoErrorKind>(
                IoErrorKind::UnexpectedEof,
            ),
    {
        if n > self.len_from(pos) {
            return Err(IoErrorKind::UnexpectedEof);
        }
        if n == 0 {
            let out: Vec<u8> = Vec::new();
            assert(out@ =~= bytes_from(self.bytes(), pos as nat).take(0));
            return Ok(out);
        }
        let start = pos as usize;
        let out = slice_to_vec(slice_subrange(self.data.as_slice(), start, start + n));
        assert(out@ =~= bytes_from(self.bytes(), pos as nat).take(n as int));
        Ok(out)
    }

    /// The big-endian `u32` at position `pos`, whatever the read position
    /// is, which stays.
    pub fn read_u32_at(&self, pos: u64) -> (r: Result<u32, IoErrorKind>)
        ensures
            bytes_from(self.bytes(), pos as nat).len() >= 4 ==> r == Ok::<u32, IoErrorKind>(
                be_u32(bytes_from(self.bytes(), pos as nat)),
            ),
            bytes_from(self.bytes(), pos as nat).len() < 4 ==> r == Err::<u32, IoErrorKind>(
                IoErrorKind::UnexpectedEof,
            ),
    {
        if self.len_from(pos) < 4 {
            return Err(IoErrorKind::UnexpectedEof);
        }
        let rest = slice_subrange(self.data.as_slice(), pos as usize, self.data.len());
        assert(rest@ =~= bytes_from(self.bytes(), pos as nat));
        match read_u32_be(rest) {
            Ok(v) => Ok(v),
            Err(_) => Err(IoErrorKind::UnexpectedEof),
        }
    }
}

} // verus!
