//! A short byte queue of fixed capacity, for a stream that is mostly passed
//! through and now and then has to hold a few bytes back, to look ahead or to
//! parse. While the queue is empty, reading through it copies nothing.

use vstd::array::array_fill_for_copy_types;
use vstd::prelude::*;
use vstd::slice::slice_subrange;

verus! {

/// The part of a buffer of `N` bytes that is filled: from `offset` up to
/// `end`.
struct Window<const N: usize> {
    offset: usize,
    end: usize,
}

impl<const N: usize> Window<N> {
    #[verifier::type_invariant]
    spec fn inv(self) -> bool {
        self.offset <= self.end <= N
    }
}

pub struct ShortBuf<const N: usize> {
    buf: [u8; N],
    win: Window<N>,
}

impl<const N: usize> View for ShortBuf<N> {
    type V = Seq<u8>;

    /// The bytes in the queue, the oldest first.
    closed spec fn view(&self) -> Seq<u8> {
        self.buf@.subrange(self.win.offset as int, self.win.end as int)
    }
}

impl<const N: usize> ShortBuf<N> {
    /// The free room behind the last byte of the queue. Filling moves the
    /// queue to the front of the buffer first, so that after a fill this is
    /// `N` less the length of the queue.
    pub closed spec fn room(&self) -> nat {
        (N - self.win.end) as nat
    }

    pub fn new() -> (r: Self)
        ensures
            r@ == Seq::<u8>::empty(),
            r.room() == N,
    {
        let r = Self { buf: array_fill_for_copy_types(0u8), win: Window { offset: 0, end: 0 } };
        assert(r@ =~= Seq::<u8>::empty());
        r
    }

    /// The bytes in the queue.
    pub fn buffer(&self) -> (r: &[u8])
        ensures
            r@ == self@,
    {
        proof {
            use_type_invariant(&self.win);
        }
        slice_subrange(self.buf.as_slice(), self.win.offset, self.win.end)
    }

    pub fn len(&self) -> (r: usize)
        ensures
            r == self@.len(),
            r + self.room() <= N,
    {
        proof {
            use_type_invariant(&self.win);
        }
        self.win.end - self.win.offset
    }

    pub fn is_empty(&self) -> (r: bool)
        ensures
            r == (self@.len() == 0),
    {
        self.len() == 0
    }

    /// Removes `amt` bytes from the front of the queue.
    pub fn consume(&mut self, amt: usize)
        requires
            amt <= old(self)@.len(),
        ensures
            final(self)@ == old(self)@.skip(amt as int),
            final(self).room() == old(self).room(),
    {
        proof {
            use_type_invariant(&self.win);
        }
        self.win = Window { offset: self.win.offset + amt, end: self.win.end };
        assert(self@ =~= old(self)@.skip(amt as int));
    }

    /// Removes all bytes from the queue.
    pub fn consume_all(&mut self)
        ensures
            final(self)@ == Seq::<u8>::empty(),
            final(self).room() == old(self).room(),
    {
        proof {
            use_type_invariant(&self.win);
        }
        self.win = Window { offset: self.win.end, end: self.win.end };
        assert(self@ =~= Seq::<u8>::empty());
    }

    /// The free room behind the last byte of the queue.
    pub fn remaining_capacity(&self) -> (r: usize)
        ensures
            r == self.room(),
    {
        proof {
            use_type_invariant(&self.win);
        }
        N - self.win.end
    }

    /// Moves the queue to the front of the buffer, so that all the free room
    /// lies behind it. Returns that room.
    pub fn compact(&mut self) -> (r: usize)
        ensures
            final(self)@ == old(self)@,
            final(self).room() == N - old(self)@.len(),
            r == final(self).room(),
    {
        proof {
            use_type_invariant(&self.win);
        }
        let offset = self.win.offset;
        let end = self.win.end;
        if offset != 0 {
            if offset == end {
                self.win = Window { offset: 0, end: 0 };
                assert(self@ =~= old(self)@);
            } else {
                let len = end - offset;
                let mut i: usize = 0;
                while i < len
                    invariant
                        i <= len,
                        len == end - offset,
                        0 < offset <= end <= N,
                        forall|k: int| 0 <= k < i ==> self.buf@[k] == old(self).buf@[offset + k],
                        forall|k: int| i + offset <= k < N ==> self.buf@[k] == old(self).buf@[k],
                    decreases len - i,
                {
                    let b = self.buf[offset + i];
                    self.buf[i] = b;
                    i += 1;
                }
                self.win = Window { offset: 0, end: len };
                assert(self@ =~= old(self)@);
            }
        }
        N - self.win.end
    }

    /// Adds the bytes of `src` behind the queue.
    pub fn append(&mut self, src: &[u8])
        requires
            src@.len() <= old(self).room(),
        ensures
            final(self)@ == old(self)@ + src@,
            final(self).room() == old(self).room() - src@.len(),
    {
        proof {
            use_type_invariant(&self.win);
        }
        let offset = self.win.offset;
        let end = self.win.end;
        let mut i: usize = 0;
        while i < src.len()
            invariant
                i <= src@.len(),
                offset <= end,
                end + src@.len() <= N,
                forall|k: int| 0 <= k < end ==> self.buf@[k] == old(self).buf@[k],
                forall|k: int| 0 <= k < i ==> self.buf@[end + k] == src@[k],
            decreases src@.len() - i,
        {
            self.buf[end + i] = src[i];
            i += 1;
        }
        self.win = Window { offset, end: end + src.len() };
        assert(self@ =~= old(self)@ + src@);
    }

    /// Fills the queue from `func`, which writes into the free room and
    /// returns how many bytes it added. Where `func` fails nothing is added.
    pub fn fill<E, F: FnOnce(&mut [u8]) -> Result<usize, E>>(&mut self, func: F) -> (r: Result<
        (),
        E,
    >)
        requires
            forall|a: (&mut [u8],)| #[trigger] func.requires(a),
            forall|a: (&mut [u8],), out: Result<usize, E>| #[trigger]
                func.ensures(a, out) ==> final(a.0)@.len() == a.0@.len() && (out matches Ok(n)
                    ==> n <= a.0@.len()),
        ensures
            final(self).room() == N - final(self)@.len(),
            exists|a: (&mut [u8],), out: Result<usize, E>| #[trigger]
                func.ensures(a, out) && a.0@.len() == N - old(self)@.len() && match out {
                    Ok(n) => r is Ok && final(self)@ == old(self)@ + final(a.0)@.take(n as int),
                    Err(e) => r == Err::<(), E>(e) && final(self)@ == old(self)@,
                },
    {
        let _room = self.compact();
        proof {
            use_type_invariant(&self.win);
        }
        let end = self.win.end;
        let ghost before = self.buf@;
        let whole: &mut [u8] = &mut self.buf;
        let (head, tail) = whole.split_at_mut(end);
        let r = func(tail);
        match r {
            Ok(len) => {
                assert(self.buf@ =~= before.subrange(0, end as int) + final(tail)@);
                self.win = Window { offset: 0, end: end + len };
                assert(self@ =~= old(self)@ + final(tail)@.take(len as int));
                Ok(())
            },
            Err(e) => {
                assert(self.buf@.subrange(0, end as int) =~= before.subrange(0, end as int));
                assert(self@ =~= old(self)@);
                Err(e)
            },
        }
    }

    /// As [`ShortBuf::fill`], with no more than `n` bytes of the free room
    /// offered to `func`.
    pub fn fill_n<E, F: FnOnce(&mut [u8]) -> Result<usize, E>>(&mut self, func: F, n: usize) -> (r:
        Result<(), E>)
        requires
            n <= N - old(self)@.len(),
            forall|a: (&mut [u8],)| #[trigger] func.requires(a),
            forall|a: (&mut [u8],), out: Result<usize, E>| #[trigger]
                func.ensures(a, out) ==> final(a.0)@.len() == a.0@.len() && (out matches Ok(k)
                    ==> k <= a.0@.len()),
        ensures
            final(self).room() == N - final(self)@.len(),
            exists|a: (&mut [u8],), out: Result<usize, E>| #[trigger]
                func.ensures(a, out) && a.0@.len() == n && match out {
                    Ok(k) => r is Ok && final(self)@ == old(self)@ + final(a.0)@.take(k as int),
                    Err(e) => r == Err::<(), E>(e) && final(self)@ == old(self)@,
                },
    {
        let _room = self.compact();
        proof {
            use_type_invariant(&self.win);
        }
        let end = self.win.end;
        let ghost before = self.buf@;
        let whole: &mut [u8] = &mut self.buf;
        let (head, tail) = whole.split_at_mut(end);
        let (part, rest) = tail.split_at_mut(n);
        let r = func(part);
        match r {
            Ok(len) => {
                assert(self.buf@ =~= before.subrange(0, end as int) + (final(part)@ + final(rest)@));
                self.win = Window { offset: 0, end: end + len };
                assert(self@ =~= old(self)@ + final(part)@.take(len as int));
                Ok(())
            },
            Err(e) => {
                assert(self.buf@.subrange(0, end as int) =~= before.subrange(0, end as int));
                assert(self@ =~= old(self)@);
                Err(e)
            },
        }
    }

    /// As [`ShortBuf::fill`], but only up to a length of `n` bytes in the
    /// queue: `func` is offered what is missing, and is not called where
    /// nothing is.
    pub fn fill_until<E, F: FnOnce(&mut [u8]) -> Result<usize, E>>(
        &mut self,
        func: F,
        n: usize,
    ) -> (r: Result<(), E>)
        requires
            n <= N,
            forall|a: (&mut [u8],)| #[trigger] func.requires(a),
            forall|a: (&mut [u8],), out: Result<usize, E>| #[trigger]
                func.ensures(a, out) ==> final(a.0)@.len() == a.0@.len() && (out matches Ok(k)
                    ==> k <= a.0@.len()),
        ensures
            if old(self)@.len() >= n {
                r is Ok && final(self)@ == old(self)@
            } else {
                exists|a: (&mut [u8],), out: Result<usize, E>| #[trigger]
                    func.ensures(a, out) && a.0@.len() == n - old(self)@.len() && match out {
                        Ok(k) => r is Ok && final(self)@ == old(self)@ + final(a.0)@.take(k as int),
                        Err(e) => r == Err::<(), E>(e) && final(self)@ == old(self)@,
                    }
            },
    {
        let held = self.len();
        let remaining = if n > held {
            n - held
        } else {
            0
        };
        if remaining == 0 {
            assert(self@.subrange(0, self@.len() as int) =~= self@);
            return Ok(());
        }
        self.fill_n(func, remaining)
    }

    /// Reads into `dst`: from the queue while it holds bytes, and straight
    /// from `func` while it is empty. Bytes that are read leave the queue.
    pub fn chain_read2<E, F: FnOnce(&mut [u8]) -> Result<usize, E>>(
        &mut self,
        func: F,
        dst: &mut [u8],
    ) -> (r: Result<usize, E>)
        requires
            forall|a: (&mut [u8],)| #[trigger] func.requires(a),
            forall|a: (&mut [u8],), out: Result<usize, E>| #[trigger]
                func.ensures(a, out) ==> final(a.0)@.len() == a.0@.len() && (out matches Ok(k)
                    ==> k <= a.0@.len()),
        ensures
            final(self).room() == old(self).room(),
            if old(self)@.len() == 0 {
                final(self)@ == old(self)@ && exists|a: (&mut [u8],), out: Result<usize, E>|
                    #[trigger] func.ensures(a, out) && a.0@ == old(dst)@ && r == out && final(dst)@
                        == final(a.0)@
            } else {
                r == Ok::<usize, E>(
                    if old(self)@.len() <= old(dst)@.len() {
                        old(self)@.len() as usize
                    } else {
                        old(dst)@.len() as usize
                    },
                ) && final(dst)@ == old(self)@.take(r->Ok_0 as int) + old(dst)@.skip(
                    r->Ok_0 as int,
                ) && final(self)@ == old(self)@.skip(r->Ok_0 as int)
            },
    {
        if self.is_empty() {
            func(dst)
        } else {
            Ok(self.read(dst))
        }
    }

    /// Reads into `dst`: first what the queue holds, and then, where `dst`
    /// has room left, from `func`. Where `func` fails the queue keeps its
    /// bytes, though `dst` may hold copies of them.
    pub fn chain_read<E, F: FnOnce(&mut [u8]) -> Result<usize, E>>(
        &mut self,
        func: F,
        dst: &mut [u8],
    ) -> (r: Result<usize, E>)
        requires
            forall|a: (&mut [u8],)| #[trigger] func.requires(a),
            forall|a: (&mut [u8],), out: Result<usize, E>| #[trigger]
                func.ensures(a, out) ==> final(a.0)@.len() == a.0@.len() && (out matches Ok(k)
                    ==> k <= a.0@.len()),
        ensures
            final(self).room() == old(self).room(),
            if old(self)@.len() == 0 {
                final(self)@ == old(self)@ && exists|a: (&mut [u8],), out: Result<usize, E>|
                    #[trigger] func.ensures(a, out) && a.0@ == old(dst)@ && r == out && final(dst)@
                        == final(a.0)@
            } else if old(dst)@.len() <= old(self)@.len() {
                r == Ok::<usize, E>(old(dst)@.len() as usize) && final(dst)@ == old(self)@.take(
                    old(dst)@.len() as int,
                ) && final(self)@ == old(self)@.skip(old(dst)@.len() as int)
            } else {
                exists|a: (&mut [u8],), out: Result<usize, E>| #[trigger]
                    func.ensures(a, out) && a.0@ == old(dst)@.skip(old(self)@.len() as int)
                        && final(dst)@ == old(self)@ + final(a.0)@ && match out {
                        Ok(n) => r == Ok::<usize, E>((n + old(self)@.len()) as usize)
                            && final(self)@ == Seq::<u8>::empty(),
                        Err(e) => r == Err::<usize, E>(e) && final(self)@ == old(self)@,
                    }
            },
    {
        if self.is_empty() {
            return func(dst);
        }
        let held = self.len();
        if dst.len() <= held {
            let len = self.read(dst);
            assert(dst@ =~= old(self)@.take(old(dst)@.len() as int));
            Ok(len)
        } else {
            proof {
                use_type_invariant(&self.win);
            }
            let ghost kept = *self;
            let (front, back) = dst.split_at_mut(held);
            let offset = self.win.offset;
            let mut i: usize = 0;
            while i < held
                invariant
                    i <= held,
                    held == self.win.end - offset,
                    offset == self.win.offset,
                    self.win.end <= N,
                    *self == kept,
                    front@.len() == held,
                    forall|k: int| 0 <= k < i ==> front@[k] == self.buf@[offset + k],
                decreases held - i,
            {
                front[i] = self.buf[offset + i];
                i += 1;
            }
            assert(front@ =~= old(self)@);
            match func(back) {
                Ok(len) => {
                    self.consume_all();
                    assert(dst@.take(held as int) =~= old(self)@);
                    Ok(len + held)
                },
                Err(e) => Err(e),
            }
        }
    }

    /// Takes up to `dst.len()` bytes from the front of the queue into `dst`.
    /// Returns how many.
    pub fn read(&mut self, dst: &mut [u8]) -> (r: usize)
        ensures
            r == if old(self)@.len() <= old(dst)@.len() {
                old(self)@.len()
            } else {
                old(dst)@.len()
            },
            final(dst)@ == old(self)@.take(r as int) + old(dst)@.skip(r as int),
            final(self)@ == old(self)@.skip(r as int),
            final(self).room() == old(self).room(),
    {
        proof {
            use_type_invariant(&self.win);
        }
        let offset = self.win.offset;
        let end = self.win.end;
        let held = end - offset;
        let len = if held <= dst.len() {
            held
        } else {
            dst.len()
        };
        let mut i: usize = 0;
        while i < len
            invariant
                i <= len,
                len <= end - offset,
                offset <= end <= N,
                len <= dst@.len(),
                dst@.len() == old(dst)@.len(),
                self.buf@ == old(self).buf@,
                forall|k: int| 0 <= k < i ==> dst@[k] == self.buf@[offset + k],
                forall|k: int| i <= k < dst@.len() ==> dst@[k] == old(dst)@[k],
            decreases len - i,
        {
            dst[i] = self.buf[offset + i];
            i += 1;
        }
        self.win = Window { offset: offset + len, end };
        assert(dst@ =~= old(self)@.take(len as int) + old(dst)@.skip(len as int));
        assert(self@ =~= old(self)@.skip(len as int));
        len
    }
}

} // verus!
