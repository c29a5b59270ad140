//! A reader over a byte slice and a writer into a buffer of fixed size, each
//! with an offset that moves as values are read or written.

use super::error::Error;
use super::error::Fault;
use super::error::Parsed;
use super::error::Result;
use super::bytes::encoded;
use super::varint::lemma_varint_bytes_len;
use super::varint::lp_bytes;
use super::varint::parse_lp_bytes;
use super::varint::parse_bytes;
use super::varint::parse_u16;
use super::varint::parse_u8;
use super::varint::parse_varint;
use super::varint::splice;
use super::varint::u16_bytes;
use super::varint::varint_bytes;
use super::varint::varint_bytes_with_len;
use super::varint::varint_len;
use super::varint::varint_max_for_len;
use super::varint::varint_value;
use super::varint::MAX_VAR_INT;
use vstd::prelude::*;
use vstd::slice::slice_subrange;
use vstd::slice::slice_to_vec;

verus! {

/// Makes the error value of the `octets` crate, a unit struct.
#[verifier::external_body]
pub(crate) fn buffer_too_short() -> (e: octets::BufferTooShortError) {
    octets::BufferTooShortError
}

/// `octets::Octets::get_varint` on the bytes of `buf` from `off` on. It
/// succeeds where the whole encoding lies inside `buf`, and then returns the
/// value that the encoding holds.
#[verifier::external_body]
pub(crate) fn octets_get_varint(buf: &[u8], off: usize) -> (r: core::result::Result<
    u64,
    octets::BufferTooShortError,
>)
    requires
        off <= buf@.len(),
    ensures
        r is Ok <==> parse_varint(buf@, off as int) is Ok,
        r is Ok ==> r->Ok_0 == varint_value(buf@, off as int),
{
    octets::Octets::with_slice(&buf[off..]).get_varint()
}

/// `octets::OctetsMut::put_varint` on the bytes of `buf` from `off` on. It
/// writes the shortest encoding of `v` at `off` where `buf` has room for it,
/// and leaves `buf` as it was where not.
#[verifier::external_body]
pub(crate) fn octets_put_varint(buf: &mut Vec<u8>, off: usize, v: u64) -> (r: core::result::Result<
    (),
    octets::BufferTooShortError,
>)
    requires
        off <= old(buf)@.len(),
        v <= MAX_VAR_INT,
    ensures
        r is Ok <==> off + varint_len(v) <= old(buf)@.len(),
        r is Ok ==> final(buf)@ == splice(old(buf)@, off as int, varint_bytes(v)),
        r is Err ==> final(buf)@ == old(buf)@,
    no_unwind
{
    octets::OctetsMut::with_slice(&mut buf[off..]).put_varint(v).map(|_| ())
}

/// `octets::OctetsMut::put_varint_with_len` on the bytes of `buf` from `off`
/// on. It writes the encoding of `v` in `len` bytes at `off` where `buf` has
/// room for it, and leaves `buf` as it was where not.
#[verifier::external_body]
pub(crate) fn octets_put_varint_with_len(buf: &mut Vec<u8>, off: usize, v: u64, len: usize) -> (r:
    core::result::Result<(), octets::BufferTooShortError>)
    requires
        off <= old(buf)@.len(),
        len == 1 || len == 2 || len == 4 || len == 8,
        v <= varint_max_for_len(len as nat),
    ensures
        r is Ok <==> off + len <= old(buf)@.len(),
        r is Ok ==> final(buf)@ == splice(
            old(buf)@,
            off as int,
            varint_bytes_with_len(v, len as nat),
        ),
        r is Err ==> final(buf)@ == old(buf)@,
    no_unwind
{
    octets::OctetsMut::with_slice(&mut buf[off..]).put_varint_with_len(v, len).map(|_| ())
}

/// A reader over a byte slice. Reading moves its offset forward and never
/// changes the bytes.
pub struct Reader<'a> {
    buf: &'a [u8],
    off: usize,
}

impl<'a> Reader<'a> {
    #[verifier::type_invariant]
    spec fn inv(self) -> bool {
        self.off <= self.buf@.len()
    }

    /// All the bytes of the slice, read or not.
    pub closed spec fn bytes(&self) -> Seq<u8> {
        self.buf@
    }

    /// The offset of the next byte to read.
    pub closed spec fn pos(&self) -> int {
        self.off as int
    }

    pub fn with_slice(buf: &'a [u8]) -> (r: Self)
        ensures
            r.bytes() == buf@,
            r.pos() == 0,
    {
        Reader { buf, off: 0 }
    }

    /// The current offset.
    pub fn off(&self) -> (r: usize)
        ensures
            r == self.pos(),
            0 <= self.pos() <= self.bytes().len() <= usize::MAX,
    {
        proof {
            use_type_invariant(self);
        }
        let _len = self.buf.len();
        self.off
    }

    /// The number of bytes that are left to read.
    pub fn cap(&self) -> (r: usize)
        ensures
            r == self.bytes().len() - self.pos(),
            0 <= self.pos() <= self.bytes().len() <= usize::MAX,
    {
        proof {
            use_type_invariant(self);
        }
        self.buf.len() - self.off
    }

    pub fn get_u8(&mut self) -> (r: Result<u8>)
        ensures
            reads(*old(self), *final(self), r, parse_u8(old(self).bytes(), old(self).pos())),
    {
        proof {
            use_type_invariant(&*self);
        }
        if self.off < self.buf.len() {
            let v = self.buf[self.off];
            self.off += 1;
            Ok(v)
        } else {
            Err(Error::Octets(buffer_too_short()))
        }
    }

    /// The next byte, without moving the offset.
    pub fn peek_u8(&self) -> (r: Result<u8>)
        ensures
            match parse_u8(self.bytes(), self.pos()) {
                Ok((v, _)) => r == Ok::<u8, Error>(v),
                Err(f) => r is Err && r->Err_0.fault() == f,
            },
    {
        proof {
            use_type_invariant(self);
        }
        if self.off < self.buf.len() {
            Ok(self.buf[self.off])
        } else {
            Err(Error::Octets(buffer_too_short()))
        }
    }

    pub fn get_u16(&mut self) -> (r: Result<u16>)
        ensures
            reads(*old(self), *final(self), r, parse_u16(old(self).bytes(), old(self).pos())),
    {
        proof {
            use_type_invariant(&*self);
        }
        if self.buf.len() - self.off >= 2 {
            let hi: u16 = self.buf[self.off] as u16;
            let lo: u16 = self.buf[self.off + 1] as u16;
            self.off += 2;
            Ok(hi * 256 + lo)
        } else {
            Err(Error::Octets(buffer_too_short()))
        }
    }

    pub fn get_varint(&mut self) -> (r: Result<u64>)
        ensures
            reads(*old(self), *final(self), r, parse_varint(old(self).bytes(), old(self).pos())),
    {
        proof {
            use_type_invariant(&*self);
        }
        match octets_get_varint(self.buf, self.off) {
            Ok(v) => {
                let first = self.buf[self.off];
                let len: usize = if first < 0x40 {
                    1
                } else if first < 0x80 {
                    2
                } else if first < 0xc0 {
                    4
                } else {
                    8
                };
                self.off += len;
                Ok(v)
            },
            Err(e) => Err(Error::Octets(e)),
        }
    }

    /// The next `len` bytes, copied.
    pub fn get_bytes(&mut self, len: usize) -> (r: Result<Vec<u8>>)
        ensures
            reads_view(
                *old(self),
                *final(self),
                r,
                parse_bytes(old(self).bytes(), old(self).pos(), len as int),
            ),
    {
        proof {
            use_type_invariant(&*self);
        }
        if self.buf.len() - self.off >= len {
            let v = slice_to_vec(slice_subrange(self.buf, self.off, self.off + len));
            self.off += len;
            Ok(v)
        } else {
            Err(Error::Octets(buffer_too_short()))
        }
    }

    /// The next byte string: its length, then that many bytes, copied.
    pub fn get_bytes_with_varint_length(&mut self) -> (r: Result<Vec<u8>>)
        ensures
            reads_view(
                *old(self),
                *final(self),
                r,
                parse_lp_bytes(old(self).bytes(), old(self).pos()),
            ),
    {
        let len = self.get_varint()?;
        if len > self.cap() as u64 {
            return Err(Error::Octets(buffer_too_short()));
        }
        self.get_bytes(len as usize)
    }

    /// Moves the offset forward by `n` bytes.
    pub fn skip(&mut self, n: usize) -> (r: Result<()>)
        ensures
            final(self).bytes() == old(self).bytes(),
            r is Ok <==> old(self).pos() + n <= old(self).bytes().len(),
            r is Ok ==> final(self).pos() == old(self).pos() + n,
            r is Err ==> r->Err_0.fault() == Fault::TooShort && final(self).pos() == old(
                self,
            ).pos(),
    {
        proof {
            use_type_invariant(&*self);
        }
        if self.buf.len() - self.off >= n {
            self.off += n;
            Ok(())
        } else {
            Err(Error::Octets(buffer_too_short()))
        }
    }
}

/// What a read of a plain value leaves behind: the bytes as they were, and
/// either the value with the offset behind it, or the error with the offset
/// not before where it was.
pub open spec fn reads<T>(before: Reader, after: Reader, r: Result<T>, p: Parsed<T>) -> bool {
    &&& after.bytes() == before.bytes()
    &&& before.pos() <= after.pos() <= after.bytes().len()
    &&& match p {
        Ok((v, next)) => r == Ok::<T, Error>(v) && after.pos() == next,
        Err(f) => r is Err && r->Err_0.fault() == f,
    }
}

/// As [`reads`], for a value that contracts speak of by its view.
pub open spec fn reads_view<T: View>(
    before: Reader,
    after: Reader,
    r: Result<T>,
    p: Parsed<T::V>,
) -> bool {
    &&& after.bytes() == before.bytes()
    &&& before.pos() <= after.pos() <= after.bytes().len()
    &&& match p {
        Ok((v, next)) => r is Ok && r->Ok_0@ == v && after.pos() == next,
        Err(f) => r is Err && r->Err_0.fault() == f,
    }
}

/// The value of the variable-length integer at the offset, without moving
/// the offset.
pub fn peek_varint(b: &Reader) -> (r: Result<u64>)
    ensures
        match parse_varint(b.bytes(), b.pos()) {
            Ok((v, _)) => r == Ok::<u64, Error>(v),
            Err(f) => r is Err && r->Err_0.fault() == f,
        },
{
    proof {
        use_type_invariant(b);
    }
    let mut c = Reader { buf: b.buf, off: b.off };
    c.get_varint()
}

/// A writer into a buffer of fixed size. Writing moves its offset forward;
/// what lies before the offset is what has been written.
pub struct Writer {
    buf: Vec<u8>,
    off: usize,
}

impl Writer {
    #[verifier::type_invariant]
    spec fn inv(self) -> bool {
        self.off <= self.buf@.len()
    }

    /// The bytes written so far.
    pub closed spec fn written(&self) -> Seq<u8> {
        self.buf@.subrange(0, self.off as int)
    }

    /// The size of the buffer.
    pub closed spec fn capacity(&self) -> nat {
        self.buf@.len()
    }

    /// A writer into a fresh buffer of `capacity` bytes.
    pub fn with_capacity(capacity: usize) -> (w: Self)
        ensures
            w.written() == Seq::<u8>::empty(),
            w.capacity() == capacity,
    {
        let w = Writer { buf: vec![0u8; capacity], off: 0 };
        assert(w.written() =~= Seq::<u8>::empty());
        w
    }

    /// The number of bytes written so far.
    pub fn off(&self) -> (r: usize)
        ensures
            r == self.written().len(),
            r <= self.capacity(),
    {
        proof {
            use_type_invariant(self);
        }
        self.off
    }

    /// The number of bytes that can still be written.
    pub fn cap(&self) -> (r: usize)
        ensures
            r == self.capacity() - self.written().len(),
    {
        proof {
            use_type_invariant(self);
        }
        self.buf.len() - self.off
    }

    /// The bytes written so far.
    pub fn as_slice(&self) -> (v: &[u8])
        ensures
            v@ == self.written(),
    {
        proof {
            use_type_invariant(self);
        }
        slice_subrange(self.buf.as_slice(), 0, self.off)
    }

    /// The bytes written so far, copied.
    pub fn to_vec(&self) -> (v: Vec<u8>)
        ensures
            v@ == self.written(),
    {
        proof {
            use_type_invariant(self);
        }
        slice_to_vec(slice_subrange(self.buf.as_slice(), 0, self.off))
    }

    pub fn put_u8(&mut self, v: u8) -> (r: Result<()>)
        ensures
            wrote(*old(self), *final(self), r, seq![v]),
    {
        proof {
            use_type_invariant(&*self);
        }
        if self.off < self.buf.len() {
            self.buf[self.off] = v;
            self.off += 1;
            assert(self.written() =~= old(self).written() + seq![v]);
            Ok(())
        } else {
            Err(Error::Octets(buffer_too_short()))
        }
    }

    pub fn put_u16(&mut self, v: u16) -> (r: Result<()>)
        ensures
            wrote(*old(self), *final(self), r, u16_bytes(v)),
    {
        proof {
            use_type_invariant(&*self);
        }
        if self.buf.len() - self.off >= 2 {
            self.buf[self.off] = (v / 256) as u8;
            self.buf[self.off + 1] = (v % 256) as u8;
            self.off += 2;
            assert(self.written() =~= old(self).written() + u16_bytes(v));
            Ok(())
        } else {
            Err(Error::Octets(buffer_too_short()))
        }
    }

    /// Writes the shortest encoding of `v`.
    pub fn put_varint(&mut self, v: u64) -> (r: Result<()>)
        requires
            v <= MAX_VAR_INT,
        ensures
            wrote(*old(self), *final(self), r, varint_bytes(v)),
    {
        proof {
            use_type_invariant(&*self);
            lemma_varint_bytes_len(v, varint_len(v));
        }
        match octets_put_varint(&mut self.buf, self.off, v) {
            Ok(()) => {
                let len: usize = if v <= 63 {
                    1
                } else if v <= 16383 {
                    2
                } else if v <= 1_073_741_823 {
                    4
                } else {
                    8
                };
                let size = self.buf.len();
                assert(self.off + len <= size);
                self.off += len;
                assert(self.written() =~= old(self).written() + varint_bytes(v));
                Ok(())
            },
            Err(e) => Err(Error::Octets(e)),
        }
    }

    pub fn put_bytes(&mut self, v: &[u8]) -> (r: Result<()>)
        ensures
            wrote(*old(self), *final(self), r, v@),
    {
        proof {
            use_type_invariant(&*self);
        }
        if self.buf.len() - self.off < v.len() {
            return Err(Error::Octets(buffer_too_short()));
        }
        let start = self.off;
        let mut i: usize = 0;
        while i < v.len()
            invariant
                i <= v@.len(),
                start + v@.len() <= self.buf@.len(),
                self.buf@.len() == old(self).buf@.len(),
                self.off == start,
                start == old(self).off,
                forall|k: int| 0 <= k < start ==> self.buf@[k] == old(self).buf@[k],
                forall|k: int| 0 <= k < i ==> self.buf@[start + k] == v@[k],
            decreases v@.len() - i,
        {
            let size = self.buf.len();
            assert(start + i < size);
            self.buf[start + i] = v[i];
            i += 1;
        }
        self.off = start + v.len();
        assert(self.written() =~= old(self).written() + v@);
        Ok(())
    }

    /// Writes a byte string: its length, then its bytes.
    pub fn put_bytes_with_varint_length(&mut self, v: &[u8]) -> (r: Result<()>)
        requires
            v@.len() <= MAX_VAR_INT,
        ensures
            wrote_part(*old(self), *final(self), r, lp_bytes(v@)),
    {
        proof {
            lemma_varint_bytes_len(v@.len() as u64, varint_len(v@.len() as u64));
        }
        self.put_varint(v.len() as u64)?;
        self.put_bytes(v)?;
        assert(self.written() =~= old(self).written() + lp_bytes(v@));
        Ok(())
    }

    /// Moves the offset forward by `n` bytes, which are left for a later
    /// write to fill.
    pub fn skip(&mut self, n: usize) -> (r: Result<()>)
        ensures
            final(self).capacity() == old(self).capacity(),
            r is Ok <==> old(self).written().len() + n <= old(self).capacity(),
            r is Ok ==> final(self).written().len() == old(self).written().len() + n
                && final(self).written().subrange(0, old(self).written().len() as int) == old(
                self,
            ).written(),
            r is Err ==> r->Err_0.fault() == Fault::TooShort && final(self).written() == old(
                self,
            ).written(),
    {
        proof {
            use_type_invariant(&*self);
        }
        if self.buf.len() - self.off >= n {
            self.off += n;
            assert(self.written().subrange(0, old(self).written().len() as int) =~= old(
                self,
            ).written());
            Ok(())
        } else {
            Err(Error::Octets(buffer_too_short()))
        }
    }
}

/// What a write of `part` leaves behind: where it fits, the bytes written
/// before and then `part`; where not, the error and nothing more written.
pub open spec fn wrote(before: Writer, after: Writer, r: Result<()>, part: Seq<u8>) -> bool {
    &&& after.capacity() == before.capacity()
    &&& if before.written().len() + part.len() <= before.capacity() {
        r is Ok && after.written() == before.written() + part
    } else {
        r is Err && r->Err_0.fault() == Fault::TooShort && after.written() == before.written()
    }
}

/// What a write of several values that make up `part` leaves behind: where
/// `part` fits, the bytes written before and then `part`; where not, the
/// error, with what fitted written.
pub open spec fn wrote_part(before: Writer, after: Writer, r: Result<()>, part: Seq<u8>) -> bool {
    encoded(before, after, r, false, false, part)
}

/// Writes `v` as a big-endian 16-bit number over the two bytes at `off`,
/// which have been written before. The offset of the writer stays.
pub fn put_u16_at(b: &mut Writer, v: u16, off: usize) -> (r: Result<()>)
    ensures
        final(b).capacity() == old(b).capacity(),
        r is Ok <==> off + 2 <= old(b).written().len(),
        r is Ok ==> final(b).written() == splice(old(b).written(), off as int, u16_bytes(v)),
        r is Err ==> r->Err_0.fault() == Fault::TooShort && final(b).written() == old(b).written(),
{
    proof {
        use_type_invariant(&*b);
    }
    if off <= b.off && b.off - off >= 2 {
        b.buf[off] = (v / 256) as u8;
        b.buf[off + 1] = (v % 256) as u8;
        assert(b.written() =~= splice(old(b).written(), off as int, u16_bytes(v)));
        Ok(())
    } else {
        Err(Error::Octets(buffer_too_short()))
    }
}

/// Writes the encoding of `v` in `len` bytes over the bytes at `off`, which
/// have been written before. The offset of the writer stays.
pub fn put_varint_with_len_at(b: &mut Writer, v: u64, len: usize, off: usize) -> (r: Result<()>)
    requires
        len == 1 || len == 2 || len == 4 || len == 8,
        v <= varint_max_for_len(len as nat),
    ensures
        final(b).capacity() == old(b).capacity(),
        r is Ok <==> off + len <= old(b).written().len(),
        r is Ok ==> final(b).written() == splice(
            old(b).written(),
            off as int,
            varint_bytes_with_len(v, len as nat),
        ),
        r is Err ==> r->Err_0.fault() == Fault::TooShort && final(b).written() == old(b).written(),
{
    proof {
        use_type_invariant(&*b);
        lemma_varint_bytes_len(v, len as nat);
    }
    if off <= b.off && b.off - off >= len {
        match octets_put_varint_with_len(&mut b.buf, off, v, len) {
            Ok(()) => {
                assert(b.written() =~= splice(
                    old(b).written(),
                    off as int,
                    varint_bytes_with_len(v, len as nat),
                ));
                Ok(())
            },
            Err(e) => Err(Error::Octets(e)),
        }
    } else {
        Err(Error::Octets(buffer_too_short()))
    }
}

} // verus!
